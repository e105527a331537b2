//! The plan of a task and the counts that are reported of it.

use crate::config::DeleteMode;
use crate::fsutil::Snapshot;
use vstd::prelude::*;

verus! {

/// What a task has found, planned and done.
#[derive(Clone, Copy, Debug, PartialEq, Eq, Structural)]
pub struct Summary {
    pub scanned: u64,
    pub scanned_bytes: u64,
    pub archives_ok: u64,
    pub archives_failed: u64,
    pub archives_quarantined: u64,
    pub extracted: u64,
    pub planned_delete: u64,
    pub planned_move: u64,
    pub planned_git: u64,
    pub planned_empty: u64,
    pub candidate_bytes: u64,
    pub deleted: u64,
    pub moved: u64,
    pub linked: u64,
    pub skipped: u64,
    pub errors: u64,
    pub permanent_bytes: u64,
}

/// Nothing found, planned or done.
pub open spec fn empty_summary() -> Summary {
    Summary {
        scanned: 0,
        scanned_bytes: 0,
        archives_ok: 0,
        archives_failed: 0,
        archives_quarantined: 0,
        extracted: 0,
        planned_delete: 0,
        planned_move: 0,
        planned_git: 0,
        planned_empty: 0,
        candidate_bytes: 0,
        deleted: 0,
        moved: 0,
        linked: 0,
        skipped: 0,
        errors: 0,
        permanent_bytes: 0,
    }
}

impl Default for Summary {
    fn default() -> (r: Summary)
        ensures
            r == empty_summary(),
    {
        Summary {
            scanned: 0,
            scanned_bytes: 0,
            archives_ok: 0,
            archives_failed: 0,
            archives_quarantined: 0,
            extracted: 0,
            planned_delete: 0,
            planned_move: 0,
            planned_git: 0,
            planned_empty: 0,
            candidate_bytes: 0,
            deleted: 0,
            moved: 0,
            linked: 0,
            skipped: 0,
            errors: 0,
            permanent_bytes: 0,
        }
    }
}

/// What an action of the plan does.
#[derive(Clone, Copy, Debug, PartialEq, Eq, Structural)]
pub enum ActionKind {
    Delete,
    Move,
    Hardlink,
    EmptyDirectory,
}

/// An action of the plan.
#[derive(Debug)]
pub struct Action {
    pub id: i64,
    pub kind: ActionKind,
    pub source: String,
    pub target: Option<String>,
    pub reason: String,
    pub expected: Option<Snapshot>,
    /// The file that is kept in place of the source, and its hash.
    pub keeper: Option<(String, String)>,
    pub hash: Option<String>,
    pub mode: DeleteMode,
    pub selected: bool,
    pub state: String,
}

/// How a deletion ended.
#[derive(Clone, Copy, Debug, PartialEq, Eq, Structural)]
pub enum DeleteResult {
    Kept,
    Permanent,
}

/// A line of the task's log.
#[derive(Debug)]
pub struct LogEntry {
    pub phase: String,
    pub source: String,
    pub target: String,
    pub result: String,
    pub reason: String,
    pub size: u64,
}

/// A task that has not begun has found, planned and done nothing.
pub proof fn law_nothing_is_done_yet()
    ensures
        empty_summary().scanned == 0 && empty_summary().scanned_bytes == 0,
        empty_summary().archives_ok == 0 && empty_summary().archives_failed == 0,
        empty_summary().archives_quarantined == 0 && empty_summary().extracted == 0,
        empty_summary().planned_delete == 0 && empty_summary().planned_move == 0,
        empty_summary().planned_git == 0 && empty_summary().planned_empty == 0,
        empty_summary().candidate_bytes == 0 && empty_summary().permanent_bytes == 0,
        empty_summary().deleted == 0 && empty_summary().moved == 0 && empty_summary().linked == 0,
        empty_summary().skipped == 0 && empty_summary().errors == 0,
{
}

} // verus!
