//! Whether the plan that is shown may be executed.

use super::rules_panel::Tool;
use super::window::{State, Window};
use super::PlanSnapshot;
use crate::config;
use crate::config::Config;
use crate::text;
use vstd::prelude::*;

verus! {

/// How ready a plan is.
#[derive(Clone, Copy, Debug, PartialEq, Eq, Structural)]
pub enum PlanReadyState {
    /// It may be executed.
    Ready,
    /// The rules or the directory are no longer those of the plan.
    Changed,
    /// The task has ended.
    Finished,
    /// The task cannot be read.
    Unavailable,
}

/// The status line for how ready a plan is.
pub open spec fn ready_text(s: PlanReadyState) -> Seq<char> {
    match s {
        PlanReadyState::Ready => "目录与当前计划一致，可以确认执行"@,
        PlanReadyState::Changed => "规则或目录已改变，请重新分析后再执行"@,
        PlanReadyState::Finished => "上次任务已结束；如需再次整理请重新分析"@,
        PlanReadyState::Unavailable => "无法读取任务库；请重新分析后再执行"@,
    }
}

/// The selection may be changed.
pub open spec fn is_editable(s: PlanReadyState) -> bool {
    s == PlanReadyState::Ready || s == PlanReadyState::Changed
}

impl PlanReadyState {
    /// The status line.
    pub fn status_text(self) -> (r: &'static str)
        ensures
            r@ == ready_text(self),
    {
        match self {
            PlanReadyState::Ready => "目录与当前计划一致，可以确认执行",
            PlanReadyState::Changed => "规则或目录已改变，请重新分析后再执行",
            PlanReadyState::Finished => "上次任务已结束；如需再次整理请重新分析",
            PlanReadyState::Unavailable => "无法读取任务库；请重新分析后再执行",
        }
    }

    /// Whether the selection may be changed: not once it could no longer be saved.
    pub fn editable(self) -> (r: bool)
        ensures
            r == is_editable(self),
    {
        match self {
            PlanReadyState::Ready => true,
            PlanReadyState::Changed => true,
            PlanReadyState::Finished => false,
            PlanReadyState::Unavailable => false,
        }
    }
}

/// How ready a plan is, by a snapshot of its task and what the window shows now. A
/// snapshot for another directory is out of date; then the state of the task decides,
/// then whether the rules and the directory are still those of the plan.
pub open spec fn classified(snapshot: Option<PlanSnapshot>, directory: Seq<char>, c: Config) ->
    PlanReadyState {
    match snapshot {
        None => PlanReadyState::Unavailable,
        Some(s) => if s.requested_directory@ != directory {
            PlanReadyState::Changed
        } else if !(s.status is Some && s.status->0@ == "ready"@) {
            PlanReadyState::Finished
        } else if s.config is Some && config::plans_alike(s.config->0, c) && s.root_matches {
            PlanReadyState::Ready
        } else {
            PlanReadyState::Changed
        },
    }
}

/// How ready a plan is.
pub fn classify_plan_snapshot(snapshot: &Option<PlanSnapshot>, directory: &str, config: &Config) ->
    (r: PlanReadyState)
    ensures
        r == classified(*snapshot, directory@, *config),
{
    match snapshot {
        None => PlanReadyState::Unavailable,
        Some(s) => {
            if !text::same(s.requested_directory.as_str(), directory) {
                return PlanReadyState::Changed;
            }
            let waiting: bool = match &s.status {
                Some(status) => text::same(status.as_str(), "ready"),
                None => false,
            };
            if !waiting {
                return PlanReadyState::Finished;
            }
            match &s.config {
                None => PlanReadyState::Changed,
                Some(c) => if c.same_plan(config) && s.root_matches {
                    PlanReadyState::Ready
                } else {
                    PlanReadyState::Changed
                },
            }
        },
    }
}

/// A plan may be executed only by a snapshot of its task that says so: it is for the
/// directory that is entered, the task waits to be executed, and neither the rules nor
/// the directory have changed. In every other case, and without a snapshot, it may not.
pub proof fn law_stale_snapshots_do_not_allow(
    snapshot: Option<PlanSnapshot>,
    directory: Seq<char>,
    c: Config,
)
    requires
        classified(snapshot, directory, c) == PlanReadyState::Ready,
    ensures
        snapshot is Some,
        snapshot->0.requested_directory@ == directory,
        snapshot->0.status is Some,
        snapshot->0.status->0@ == "ready"@,
        snapshot->0.config is Some,
        config::plans_alike(snapshot->0.config->0, c),
        snapshot->0.root_matches,
{
}

/// A snapshot has been taken in.
pub open spec fn readiness_applied(
    u0: Window,
    s0: State,
    u1: Window,
    s1: State,
    snapshot: Option<PlanSnapshot>,
) -> bool {
    let outcome = classified(snapshot, u0.directory@, s0.config);
    let tells = s0.tool == Tool::Organizer && s0.status_pending;
    &&& u1 == (Window {
        plan_editable: is_editable(outcome),
        ready: outcome == PlanReadyState::Ready,
        status: u1.status,
        ..u0
    })
    &&& if tells {
        u1.status@ == ready_text(outcome)
    } else {
        u1.status == u0.status
    }
    &&& s1 == (State { status_pending: s0.status_pending && !tells, ..s0 })
}

/// Takes a snapshot in: it says whether the plan may be executed and changed, and writes
/// the status line if a change of the directory or the tool still waits for it.
pub fn apply_plan_readiness(ui: &mut Window, state: &mut State, snapshot: &Option<PlanSnapshot>)
    ensures
        readiness_applied(*old(ui), *old(state), *final(ui), *final(state), *snapshot),
{
    let outcome = classify_plan_snapshot(snapshot, ui.directory.as_str(), &state.config);
    ui.plan_editable = outcome.editable();
    ui.ready = outcome == PlanReadyState::Ready;
    if state.tool == Tool::Organizer && state.status_pending {
        state.status_pending = false;
        ui.status = outcome.status_text().to_owned();
    }
}

/// What the database of a task says of its plan, for the directory that is entered.
pub fn plan_snapshot(
    status: Option<String>,
    config: Option<Config>,
    root: Option<String>,
    canonical: Option<String>,
    directory: &str,
    summary: Option<crate::model::Summary>,
) -> (r: PlanSnapshot)
    ensures
        r.status == status,
        r.config == config,
        r.root_matches == (root is Some && canonical is Some && root->0@ == canonical->0@),
        r.requested_directory@ == directory@,
        r.summary == summary,
{
    let root_matches: bool = match (&root, &canonical) {
        (Some(a), Some(b)) => text::same(a.as_str(), b.as_str()),
        _ => false,
    };
    PlanSnapshot {
        status,
        config,
        root_matches,
        requested_directory: directory.to_owned(),
        summary,
    }
}

/// How many rows of a plan are selected and wait to be executed.
pub open spec fn waiting(rows: Seq<(bool, String)>) -> nat
    decreases rows.len(),
{
    if rows.len() == 0 {
        0
    } else {
        waiting(rows.drop_last()) + if rows.last().0 && rows.last().1@ == "pending"@ {
            1nat
        } else {
            0nat
        }
    }
}

/// Counts the rows of a plan that are selected and wait to be executed.
pub fn count_selected_pending(rows: &Vec<(bool, String)>) -> (r: u64)
    ensures
        r == waiting(rows@),
{
    let mut n: u64 = 0;
    let len: usize = rows.len();
    let mut i: usize = 0;
    while i < len
        invariant
            len == rows@.len(),
            i <= len,
            n == waiting(rows@.take(i as int)),
            n <= i,
        decreases len - i,
    {
        assert(rows@.take(i + 1).drop_last() =~= rows@.take(i as int));
        if rows[i].0 && text::same(rows[i].1.as_str(), "pending") {
            n = n + 1;
        }
        i = i + 1;
    }
    assert(rows@.take(i as int) =~= rows@);
    n
}

/// When a plan may be executed: there is a snapshot, it is for the directory that is
/// entered, its task waits, and rules and directory are still those of the plan. Otherwise
/// the line tells which of these it is.
pub proof fn law_when_a_plan_may_be_executed(s: PlanSnapshot, directory: Seq<char>, c: Config)
    ensures
        ({
            let here = s.requested_directory@ == directory;
            let waits = s.status matches Some(t) && t@ == "ready"@;
            let alike = (s.config matches Some(d) && config::plans_alike(d, c)) && s.root_matches;
            let r = classified(Some(s), directory, c);
            &&& r == PlanReadyState::Ready <==> here && waits && alike
            &&& r == PlanReadyState::Finished <==> here && !waits
            &&& r == PlanReadyState::Changed <==> !here || (waits && !alike)
            &&& classified(None, directory, c) == PlanReadyState::Unavailable
        }),
{
}

/// What is selected can be changed while it can still be saved.
pub proof fn law_when_a_plan_may_be_changed()
    ensures
        is_editable(PlanReadyState::Ready),
        is_editable(PlanReadyState::Changed),
        !is_editable(PlanReadyState::Finished),
        !is_editable(PlanReadyState::Unavailable),
{
}

/// A snapshot decides alone whether the plan may be executed; it writes the line only where
/// a change waits for it, and only once.
pub proof fn law_what_a_snapshot_does(
    u0: Window,
    s0: State,
    u1: Window,
    s1: State,
    snapshot: Option<PlanSnapshot>,
)
    requires
        readiness_applied(u0, s0, u1, s1, snapshot),
    ensures
        u1.ready == (classified(snapshot, u0.directory@, s0.config) == PlanReadyState::Ready),
        snapshot is None ==> !u1.ready && !u1.plan_editable,
        u1.ready ==> u1.plan_editable,
        s0.status_pending && s0.tool == Tool::Organizer ==> !s1.status_pending,
        !s0.status_pending ==> u1.status == u0.status,
        s0.tool == Tool::Extract ==> u1.status == u0.status && s1 == s0,
        u1.directory == u0.directory && u1.busy == u0.busy,
        s1.config == s0.config && s1.task == s0.task,
{
}

/// The rows that are selected and wait are counted, each once.
pub proof fn law_waiting_rows_are_counted(rows: Seq<(bool, String)>, row: (bool, String))
    ensures
        waiting(Seq::empty()) == 0,
        waiting(rows.push(row)) == waiting(rows) + if row.0 && row.1@ == "pending"@ {
            1nat
        } else {
            0
        },
{
    assert(rows.push(row).drop_last() =~= rows);
}

} // verus!
