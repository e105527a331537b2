//! Committing and pushing changes file by file.

pub mod change;
pub mod repo;
pub mod run;
pub mod status;
pub mod command;
pub mod progress;
