//! The organizer: what is in scope, what a scan finds, which files are hashed
//! and how a plan is carried out.

pub mod apply;
pub mod hash;
pub mod scan;
pub mod scope;
pub mod sweep;
pub mod task;
pub mod walk;
