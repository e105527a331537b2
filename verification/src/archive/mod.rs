//! Recursive extraction of archives through the 7-Zip engine: which volumes
//! belong to an archive, what its listing allows, where its members go and what
//! happens to the archive afterwards.

pub mod boundaries;
pub mod extract;
pub mod listing;
pub mod queue;
pub mod rows;
pub mod sevenzip;
pub mod volumes;
