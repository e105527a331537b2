//! Functional classification: files are grouped by what their names and the
//! names of their directories have in common.

pub mod alphabet;
pub mod assign;
pub mod candidates;
pub mod cluster;
pub mod corpus;
pub mod determined;
pub mod features;
pub mod naming;
pub mod pieces;
