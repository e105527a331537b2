//! The state behind the window.

pub mod capacity;
pub mod commands;
pub mod pump;
pub mod readiness;
pub mod rounds;
pub mod rules_panel;
pub mod tasks;
pub mod window;

use crate::config::Config;
use crate::model::Summary;
use vstd::prelude::*;

verus! {

/// What a task database says of its plan.
#[derive(Debug)]
pub struct PlanSnapshot {
    pub status: Option<String>,
    pub config: Option<Config>,
    pub root_matches: bool,
    pub requested_directory: String,
    pub summary: Option<Summary>,
}

} // verus!
