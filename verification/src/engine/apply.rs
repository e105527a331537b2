//! How a plan is carried out: what may be done side by side, what every action does
//! step by step, and what is counted.

use crate::model::{Action, ActionKind, DeleteResult, Summary};
use crate::text;
use vstd::prelude::*;

verus! {

/// So many actions are recorded together.
pub const APPLY_BATCH: usize = 64;

/// Actions that can be done side by side: deletions, and empty directories of one depth.
#[derive(Clone, Copy, Debug, PartialEq, Eq, Structural)]
pub enum ParallelKind {
    Delete,
    EmptyDir(usize),
}

/// How many slashes a path has.
pub open spec fn slashes(s: Seq<char>) -> nat
    decreases s.len(),
{
    if s.len() == 0 {
        0
    } else {
        slashes(s.drop_last()) + if s.last() == '/' {
            1nat
        } else {
            0
        }
    }
}

/// The group of actions that an action can be done side by side with.
pub open spec fn run_kind(a: Action) -> Option<ParallelKind> {
    if !a.selected {
        None
    } else {
        match a.kind {
            ActionKind::Delete => Some(ParallelKind::Delete),
            ActionKind::EmptyDirectory => Some(
                ParallelKind::EmptyDir(slashes(a.source@) as usize),
            ),
            ActionKind::Move => None,
            ActionKind::Hardlink => None,
        }
    }
}

fn count_slashes(s: &str) -> (r: usize)
    ensures
        r == slashes(s@),
{
    let v = text::chars_of(s);
    let mut n: usize = 0;
    let mut i: usize = 0;
    assert(v@.take(0) =~= Seq::<char>::empty());
    while i < v.len()
        invariant
            i <= v@.len(),
            n <= i,
            n == slashes(v@.take(i as int)),
        decreases v.len() - i,
    {
        assert(v@.take(i + 1).drop_last() =~= v@.take(i as int));
        if v[i] == '/' {
            n = n + 1;
        }
        i = i + 1;
    }
    assert(v@.take(i as int) =~= v@);
    n
}

/// The group of actions that an action can be done side by side with, if any.
pub fn parallel_run_kind(a: &Action) -> (r: Option<ParallelKind>)
    ensures
        r == run_kind(*a),
{
    if !a.selected {
        return None;
    }
    match a.kind {
        ActionKind::Delete => Some(ParallelKind::Delete),
        ActionKind::EmptyDirectory => Some(
            ParallelKind::EmptyDir(count_slashes(a.source.as_str())),
        ),
        ActionKind::Move => None,
        ActionKind::Hardlink => None,
    }
}

proof fn slashes_prefix(s: Seq<char>, k: int)
    requires
        0 <= k <= s.len(),
    ensures
        slashes(s.take(k)) <= slashes(s),
    decreases s.len(),
{
    if k == s.len() {
        assert(s.take(k) =~= s);
    } else {
        slashes_prefix(s.drop_last(), k);
        assert(s.drop_last().take(k) =~= s.take(k));
    }
}

/// Of two directories of one depth neither lies in the other, so that the empty ones
/// of a run can be removed in any order.
pub proof fn law_same_depth_is_not_nested(a: Seq<char>, b: Seq<char>)
    requires
        slashes(a) == slashes(b),
    ensures
        !text::has_prefix(a, b.push('/')),
        !text::has_prefix(b, a.push('/')),
{
    assert(b.push('/').drop_last() =~= b);
    assert(a.push('/').drop_last() =~= a);
    if text::has_prefix(a, b.push('/')) {
        slashes_prefix(a, b.len() as int + 1);
        assert(a.take(b.len() as int + 1) =~= b.push('/'));
    }
    if text::has_prefix(b, a.push('/')) {
        slashes_prefix(b, a.len() as int + 1);
        assert(b.take(a.len() as int + 1) =~= a.push('/'));
    }
}

/// A stretch of the plan that is carried out together.
#[derive(Clone, Copy, Debug, PartialEq, Eq, Structural)]
pub struct Segment {
    pub from: usize,
    pub to: usize,
    /// The kind, where the actions are done side by side; without one it is one action.
    pub kind: Option<ParallelKind>,
}

/// A stretch holds one action by itself, or all neighbouring actions of one kind.
pub open spec fn is_segment(actions: Seq<Action>, s: Segment) -> bool {
    &&& s.from < s.to <= actions.len()
    &&& match s.kind {
        None => s.to == s.from + 1 && run_kind(actions[s.from as int]) is None,
        Some(k) => {
            &&& forall|i: int|
                s.from <= i < s.to ==> run_kind(#[trigger] actions[i]) == Some(k)
            &&& s.to < actions.len() ==> run_kind(actions[s.to as int]) != Some(k)
        },
    }
}

/// The stretches follow each other without a gap, up to `end`.
pub open spec fn is_segmentation(actions: Seq<Action>, segs: Seq<Segment>, end: int) -> bool {
    &&& forall|i: int| 0 <= i < segs.len() ==> is_segment(actions, #[trigger] segs[i])
    &&& segs.len() > 0 ==> segs[0].from == 0
    &&& forall|i: int, j: int|
        0 <= i < j < segs.len() && j == i + 1 ==> (#[trigger] segs[i]).to == (
        #[trigger] segs[j]).from
    &&& end == (if segs.len() == 0 {
        0
    } else {
        segs.last().to as int
    })
}

/// Where the neighbouring actions of one kind end.
fn run_end(actions: &Vec<Action>, from: usize, k: ParallelKind) -> (r: usize)
    requires
        from < actions@.len(),
        run_kind(actions@[from as int]) == Some(k),
    ensures
        from < r <= actions@.len(),
        forall|t: int| from <= t < r ==> run_kind(#[trigger] actions@[t]) == Some(k),
        r < actions@.len() ==> run_kind(actions@[r as int]) != Some(k),
{
    let n: usize = actions.len();
    assert(from < n);
    let mut end: usize = from + 1;
    while end < actions.len() && same_kind(parallel_run_kind(&actions[end]), k)
        invariant
            from < end <= actions@.len(),
            forall|t: int| from <= t < end ==> run_kind(#[trigger] actions@[t]) == Some(k),
        decreases actions.len() - end,
    {
        end = end + 1;
    }
    end
}

/// Divides the actions of a page into stretches.
pub fn segments(actions: &Vec<Action>) -> (r: Vec<Segment>)
    ensures
        is_segmentation(actions@, r@, actions@.len() as int),
{
    let mut out: Vec<Segment> = Vec::new();
    let mut i: usize = 0;
    while i < actions.len()
        invariant
            i <= actions@.len(),
            is_segmentation(actions@, out@, i as int),
        decreases actions.len() - i,
    {
        let kind = parallel_run_kind(&actions[i]);
        let end: usize = match kind {
            Some(k) => run_end(actions, i, k),
            None => i + 1,
        };
        let ghost before = out@;
        let seg = Segment { from: i, to: end, kind };
        assert(is_segment(actions@, seg));
        out.push(seg);
        proof {
            assert forall|t: int| 0 <= t < out@.len() implies is_segment(
                actions@,
                #[trigger] out@[t],
            ) by {
                if t < before.len() {
                    assert(out@[t] == before[t]);
                }
            }
            assert forall|t: int, u: int| 0 <= t < u < out@.len() && u == t + 1 implies (
            #[trigger] out@[t]).to == (#[trigger] out@[u]).from by {
                assert(out@[t] == before[t]);
                if u < before.len() {
                    assert(out@[u] == before[u]);
                }
            }
        }
        i = end;
    }
    out
}

fn same_kind(a: Option<ParallelKind>, b: ParallelKind) -> (r: bool)
    ensures
        r == (a == Some(b)),
{
    match a {
        None => false,
        Some(x) => match (x, b) {
            (ParallelKind::Delete, ParallelKind::Delete) => true,
            (ParallelKind::EmptyDir(m), ParallelKind::EmptyDir(n)) => m == n,
            _ => false,
        },
    }
}

/// Adds without wrapping.
pub open spec fn saturating(a: u64, b: u64) -> u64 {
    if a + b > u64::MAX {
        u64::MAX
    } else {
        (a + b) as u64
    }
}

/// The counts after a deletion. Its bytes count as freed only where the content has no
/// other name and is not kept under a new one.
pub open spec fn after_delete(
    s: Summary,
    result: DeleteResult,
    expected: Option<(u64, u64)>,
    physical_free: bool,
) -> Summary {
    match result {
        DeleteResult::Kept => Summary { skipped: (s.skipped + 1) as u64, ..s },
        DeleteResult::Permanent => {
            let size = match expected {
                Some((size, _)) => size,
                None => 0,
            };
            let alone = match expected {
                Some((_, links)) => links <= 1,
                None => true,
            };
            Summary {
                deleted: (s.deleted + 1) as u64,
                permanent_bytes: if physical_free && alone {
                    saturating(s.permanent_bytes, size)
                } else {
                    s.permanent_bytes
                },
                ..s
            }
        },
    }
}

/// Counts a deletion. `expected` is the size of the file and the number of its names.
pub fn account_delete(
    s: &Summary,
    result: DeleteResult,
    expected: Option<(u64, u64)>,
    physical_free: bool,
) -> (r: Summary)
    requires
        s.skipped < u64::MAX,
        s.deleted < u64::MAX,
    ensures
        r == after_delete(*s, result, expected, physical_free),
{
    match result {
        DeleteResult::Kept => {
            let mut r = *s;
            r.skipped = r.skipped + 1;
            r
        },
        DeleteResult::Permanent => {
            let mut r = *s;
            r.deleted = r.deleted + 1;
            let (size, alone): (u64, bool) = match expected {
                Some((size, links)) => (size, links <= 1),
                None => (0, true),
            };
            if physical_free && alone {
                r.permanent_bytes = r.permanent_bytes.saturating_add(size);
            }
            r
        },
    }
}

/// A content that has another name, or gets one, never counts as freed.
pub proof fn law_only_freed_bytes_count(
    s: Summary,
    result: DeleteResult,
    size: u64,
    links: u64,
    physical_free: bool,
)
    requires
        links > 1 || !physical_free || result == DeleteResult::Kept,
    ensures
        after_delete(s, result, Some((size, links)), physical_free).permanent_bytes
            == s.permanent_bytes,
{
}

/// What is recorded of an action.
#[derive(Clone, Copy, Debug, PartialEq, Eq, Structural)]
pub enum ActionMark {
    Unselected,
    Done,
    Skipped,
    Failed,
}

impl ActionMark {
    /// The word that is stored.
    pub open spec fn word(self) -> Seq<char> {
        match self {
            ActionMark::Unselected => "unselected"@,
            ActionMark::Done => "done"@,
            ActionMark::Skipped => "skipped"@,
            ActionMark::Failed => "failed"@,
        }
    }

    /// The word that is stored.
    pub fn text(&self) -> (r: &'static str)
        ensures
            r@ == self.word(),
    {
        match self {
            ActionMark::Unselected => "unselected",
            ActionMark::Done => "done",
            ActionMark::Skipped => "skipped",
            ActionMark::Failed => "failed",
        }
    }
}

/// How the removal of one item of a run ended.
#[derive(Clone, Copy, Debug, PartialEq, Eq, Structural)]
pub enum RunResult {
    /// It failed.
    Failed,
    /// The directory is gone, is none, or is not empty.
    NotEmpty,
    Removed(DeleteResult),
}

/// What an action leaves behind: the counts, the mark, and whether it counts as
/// completed.
#[derive(Clone, Copy, Debug, PartialEq, Eq, Structural)]
pub struct Settled {
    pub summary: Summary,
    pub mark: ActionMark,
    pub completed: bool,
}

/// What one removal of a run leaves behind; nothing where it failed because the task was
/// cancelled.
pub open spec fn run_settled(
    s: Summary,
    expected: Option<(u64, u64)>,
    result: RunResult,
    cancelled: bool,
) -> Option<Settled> {
    match result {
        RunResult::Failed => if cancelled {
            None
        } else {
            Some(
                Settled {
                    summary: Summary { errors: (s.errors + 1) as u64, ..s },
                    mark: ActionMark::Failed,
                    completed: true,
                },
            )
        },
        RunResult::NotEmpty => Some(
            Settled {
                summary: Summary { skipped: (s.skipped + 1) as u64, ..s },
                mark: ActionMark::Skipped,
                completed: true,
            },
        ),
        RunResult::Removed(d) => Some(
            Settled {
                summary: after_delete(s, d, expected, true),
                mark: match d {
                    DeleteResult::Kept => ActionMark::Skipped,
                    DeleteResult::Permanent => ActionMark::Done,
                },
                completed: true,
            },
        ),
    }
}

/// The counters can take one more.
pub open spec fn has_room(s: Summary) -> bool {
    s.errors < u64::MAX && s.skipped < u64::MAX && s.deleted < u64::MAX && s.moved < u64::MAX
        && s.linked < u64::MAX
}

/// Settles one removal of a run.
pub fn settle_run(
    s: &Summary,
    expected: Option<(u64, u64)>,
    result: RunResult,
    cancelled: bool,
) -> (r: Option<Settled>)
    requires
        has_room(*s),
    ensures
        r == run_settled(*s, expected, result, cancelled),
{
    match result {
        RunResult::Failed => {
            if cancelled {
                return None;
            }
            let mut t = *s;
            t.errors = t.errors + 1;
            Some(Settled { summary: t, mark: ActionMark::Failed, completed: true })
        },
        RunResult::NotEmpty => {
            let mut t = *s;
            t.skipped = t.skipped + 1;
            Some(Settled { summary: t, mark: ActionMark::Skipped, completed: true })
        },
        RunResult::Removed(d) => {
            let t = account_delete(s, d, expected, true);
            let mark = match d {
                DeleteResult::Kept => ActionMark::Skipped,
                DeleteResult::Permanent => ActionMark::Done,
            };
            Some(Settled { summary: t, mark, completed: true })
        },
    }
}

/// A removal of a run, with what is known of the file.
#[derive(Clone, Copy, Debug)]
pub struct RunItem {
    pub expected: Option<(u64, u64)>,
    pub result: RunResult,
}

/// The counts after the first `k` removals, up to a cancellation.
pub open spec fn run_summary(s: Summary, items: Seq<RunItem>, cancelled: bool, k: int) -> Option<
    Summary,
>
    decreases k,
{
    if k <= 0 {
        Some(s)
    } else {
        match run_summary(s, items, cancelled, k - 1) {
            None => None,
            Some(t) => match run_settled(
                t,
                items[k - 1].expected,
                items[k - 1].result,
                cancelled,
            ) {
                None => None,
                Some(x) => Some(x.summary),
            },
        }
    }
}

/// The counters can take `n` more.
pub open spec fn has_room_for(s: Summary, n: int) -> bool {
    s.errors + n <= u64::MAX && s.skipped + n <= u64::MAX && s.deleted + n <= u64::MAX
}

/// Settles a run in order: the marks of the removals, up to the first one that failed
/// because the task was cancelled, and whether there is such a one.
pub fn execute_run(s: &Summary, items: &Vec<RunItem>, cancelled: bool) -> (r: (
    Summary,
    Vec<ActionMark>,
    bool,
))
    requires
        has_room_for(*s, items@.len() as int),
        s.moved < u64::MAX,
        s.linked < u64::MAX,
    ensures
        r.2 == (run_summary(*s, items@, cancelled, items@.len() as int) is None),
        r.1@.len() <= items@.len(),
        !r.2 ==> r.1@.len() == items@.len(),
        r.2 ==> r.1@.len() < items@.len() && cancelled && items@[r.1@.len() as int].result
            == RunResult::Failed,
        run_summary(*s, items@, cancelled, r.1@.len() as int) == Some(r.0),
        forall|i: int|
            0 <= i < r.1@.len() ==> #[trigger] r.1@[i] == match items@[i].result {
                RunResult::Failed => ActionMark::Failed,
                RunResult::NotEmpty => ActionMark::Skipped,
                RunResult::Removed(DeleteResult::Kept) => ActionMark::Skipped,
                RunResult::Removed(DeleteResult::Permanent) => ActionMark::Done,
            },
{
    let mut t = *s;
    let mut marks: Vec<ActionMark> = Vec::new();
    let mut i: usize = 0;
    while i < items.len()
        invariant
            i <= items@.len(),
            marks@.len() == i,
            run_summary(*s, items@, cancelled, i as int) == Some(t),
            has_room_for(t, items@.len() - i),
            t.moved == s.moved,
            t.linked == s.linked,
            s.moved < u64::MAX,
            s.linked < u64::MAX,
            forall|k: int|
                0 <= k < i ==> #[trigger] marks@[k] == match items@[k].result {
                    RunResult::Failed => ActionMark::Failed,
                    RunResult::NotEmpty => ActionMark::Skipped,
                    RunResult::Removed(DeleteResult::Kept) => ActionMark::Skipped,
                    RunResult::Removed(DeleteResult::Permanent) => ActionMark::Done,
                },
        decreases items.len() - i,
    {
        match settle_run(&t, items[i].expected, items[i].result, cancelled) {
            None => {
                proof {
                    run_stays_cancelled(*s, items@, cancelled, i + 1, items@.len() as int);
                }
                return (t, marks, true);
            },
            Some(x) => {
                t = x.summary;
                marks.push(x.mark);
            },
        }
        i = i + 1;
    }
    (t, marks, false)
}

proof fn run_stays_cancelled(s: Summary, items: Seq<RunItem>, cancelled: bool, k: int, n: int)
    requires
        0 <= k <= n,
        run_summary(s, items, cancelled, k) is None,
    ensures
        run_summary(s, items, cancelled, n) is None,
    decreases n,
{
    if k < n {
        run_stays_cancelled(s, items, cancelled, k, n - 1);
    }
}

/// How an action that is done by itself ended.
#[derive(Clone, Copy, Debug, PartialEq, Eq, Structural)]
pub enum SingleResult {
    Done,
    NotDone,
    Failed,
}

/// What an action that is done by itself leaves behind. One that was not selected is
/// skipped and does not count as completed.
pub open spec fn single_settled(
    s: Summary,
    selected: bool,
    result: SingleResult,
    cancelled: bool,
) -> Option<Settled> {
    if !selected {
        Some(
            Settled {
                summary: Summary { skipped: (s.skipped + 1) as u64, ..s },
                mark: ActionMark::Unselected,
                completed: false,
            },
        )
    } else {
        match result {
            SingleResult::Done => Some(
                Settled { summary: s, mark: ActionMark::Done, completed: true },
            ),
            SingleResult::NotDone => Some(
                Settled {
                    summary: Summary { skipped: (s.skipped + 1) as u64, ..s },
                    mark: ActionMark::Skipped,
                    completed: true,
                },
            ),
            SingleResult::Failed => if cancelled {
                None
            } else {
                Some(
                    Settled {
                        summary: Summary { errors: (s.errors + 1) as u64, ..s },
                        mark: ActionMark::Failed,
                        completed: true,
                    },
                )
            },
        }
    }
}

/// Settles an action that is done by itself.
pub fn execute_sequential(s: &Summary, selected: bool, result: SingleResult, cancelled: bool) -> (r:
    Option<Settled>)
    requires
        has_room(*s),
    ensures
        r == single_settled(*s, selected, result, cancelled),
{
    let mut t = *s;
    if !selected {
        t.skipped = t.skipped + 1;
        return Some(Settled { summary: t, mark: ActionMark::Unselected, completed: false });
    }
    match result {
        SingleResult::Done => Some(Settled { summary: t, mark: ActionMark::Done, completed: true }),
        SingleResult::NotDone => {
            t.skipped = t.skipped + 1;
            Some(Settled { summary: t, mark: ActionMark::Skipped, completed: true })
        },
        SingleResult::Failed => {
            if cancelled {
                return None;
            }
            t.errors = t.errors + 1;
            Some(Settled { summary: t, mark: ActionMark::Failed, completed: true })
        },
    }
}

/// Why an action could not be done.
#[derive(Clone, Copy, Debug, PartialEq, Eq, Structural)]
pub enum ActFailure {
    MissingTarget,
    MissingKeeper,
    /// The step itself failed.
    Step,
    /// The source is gone and no link was left in its place.
    LinkLost,
    /// There is no name for the link.
    NoName,
}

/// How an action ended.
#[derive(Clone, Copy, Debug, PartialEq, Eq, Structural)]
pub enum ActEnd {
    Done,
    /// The link could only be kept under another name.
    DoneElsewhere,
    NotDone,
    Failed(ActFailure),
}

/// A step of an action.
#[derive(Clone, Copy, Debug, PartialEq, Eq, Structural)]
pub enum ActStep {
    /// Look whether the directory is empty.
    CheckEmpty,
    /// Remove the source.
    Remove,
    /// Create the directory above the target.
    EnsureParent,
    /// Move the source, without replacing anything.
    Rename,
    /// Link the kept file under a temporary name.
    LinkKeeper,
    /// Remove the source whose replacement is linked.
    RemoveLinked,
    /// Give the link the source's name.
    PlaceLink,
    /// Find another name.
    FindSpare,
    /// Give the link that name.
    PlaceSpare,
    /// Remove the temporary link, then end.
    DropLink(ActEnd),
    End(ActEnd),
}

/// How a step went.
#[derive(Clone, Copy, Debug, PartialEq, Eq, Structural)]
pub enum StepOutcome {
    Went,
    /// The source was kept, or the directory is not empty.
    Kept,
    Failed,
}

/// The first step of an action.
pub open spec fn first_act(kind: ActionKind, has_target: bool, has_keeper: bool) -> ActStep {
    match kind {
        ActionKind::Delete => ActStep::Remove,
        ActionKind::Move => if has_target {
            ActStep::EnsureParent
        } else {
            ActStep::End(ActEnd::Failed(ActFailure::MissingTarget))
        },
        ActionKind::Hardlink => if has_keeper {
            ActStep::LinkKeeper
        } else {
            ActStep::End(ActEnd::Failed(ActFailure::MissingKeeper))
        },
        ActionKind::EmptyDirectory => ActStep::CheckEmpty,
    }
}

/// The step after a step.
pub open spec fn next_act(step: ActStep, outcome: StepOutcome) -> ActStep {
    let failed = ActEnd::Failed(ActFailure::Step);
    match step {
        ActStep::CheckEmpty => match outcome {
            StepOutcome::Went => ActStep::Remove,
            StepOutcome::Kept => ActStep::End(ActEnd::NotDone),
            StepOutcome::Failed => ActStep::End(failed),
        },
        ActStep::Remove => match outcome {
            StepOutcome::Went => ActStep::End(ActEnd::Done),
            StepOutcome::Kept => ActStep::End(ActEnd::NotDone),
            StepOutcome::Failed => ActStep::End(failed),
        },
        ActStep::EnsureParent => match outcome {
            StepOutcome::Failed => ActStep::End(failed),
            _ => ActStep::Rename,
        },
        ActStep::Rename => match outcome {
            StepOutcome::Failed => ActStep::End(failed),
            _ => ActStep::End(ActEnd::Done),
        },
        ActStep::LinkKeeper => match outcome {
            StepOutcome::Failed => ActStep::End(failed),
            _ => ActStep::RemoveLinked,
        },
        ActStep::RemoveLinked => match outcome {
            StepOutcome::Went => ActStep::PlaceLink,
            StepOutcome::Kept => ActStep::DropLink(ActEnd::NotDone),
            StepOutcome::Failed => ActStep::DropLink(failed),
        },
        ActStep::PlaceLink => match outcome {
            StepOutcome::Failed => ActStep::FindSpare,
            _ => ActStep::End(ActEnd::Done),
        },
        ActStep::FindSpare => match outcome {
            StepOutcome::Failed => ActStep::DropLink(ActEnd::Failed(ActFailure::NoName)),
            _ => ActStep::PlaceSpare,
        },
        ActStep::PlaceSpare => match outcome {
            StepOutcome::Failed => ActStep::DropLink(ActEnd::Failed(ActFailure::LinkLost)),
            _ => ActStep::End(ActEnd::DoneElsewhere),
        },
        ActStep::DropLink(end) => ActStep::End(end),
        ActStep::End(end) => ActStep::End(end),
    }
}

/// The first step of an action.
pub fn start_action(kind: ActionKind, has_target: bool, has_keeper: bool) -> (r: ActStep)
    ensures
        r == first_act(kind, has_target, has_keeper),
{
    match kind {
        ActionKind::Delete => ActStep::Remove,
        ActionKind::Move => if has_target {
            ActStep::EnsureParent
        } else {
            ActStep::End(ActEnd::Failed(ActFailure::MissingTarget))
        },
        ActionKind::Hardlink => if has_keeper {
            ActStep::LinkKeeper
        } else {
            ActStep::End(ActEnd::Failed(ActFailure::MissingKeeper))
        },
        ActionKind::EmptyDirectory => ActStep::CheckEmpty,
    }
}

/// The step after a step.
pub fn execute_action(step: ActStep, outcome: StepOutcome) -> (r: ActStep)
    ensures
        r == next_act(step, outcome),
{
    let failed = ActEnd::Failed(ActFailure::Step);
    match step {
        ActStep::CheckEmpty => match outcome {
            StepOutcome::Went => ActStep::Remove,
            StepOutcome::Kept => ActStep::End(ActEnd::NotDone),
            StepOutcome::Failed => ActStep::End(failed),
        },
        ActStep::Remove => match outcome {
            StepOutcome::Went => ActStep::End(ActEnd::Done),
            StepOutcome::Kept => ActStep::End(ActEnd::NotDone),
            StepOutcome::Failed => ActStep::End(failed),
        },
        ActStep::EnsureParent => match outcome {
            StepOutcome::Failed => ActStep::End(failed),
            _ => ActStep::Rename,
        },
        ActStep::Rename => match outcome {
            StepOutcome::Failed => ActStep::End(failed),
            _ => ActStep::End(ActEnd::Done),
        },
        ActStep::LinkKeeper => match outcome {
            StepOutcome::Failed => ActStep::End(failed),
            _ => ActStep::RemoveLinked,
        },
        ActStep::RemoveLinked => match outcome {
            StepOutcome::Went => ActStep::PlaceLink,
            StepOutcome::Kept => ActStep::DropLink(ActEnd::NotDone),
            StepOutcome::Failed => ActStep::DropLink(failed),
        },
        ActStep::PlaceLink => match outcome {
            StepOutcome::Failed => ActStep::FindSpare,
            _ => ActStep::End(ActEnd::Done),
        },
        ActStep::FindSpare => match outcome {
            StepOutcome::Failed => ActStep::DropLink(ActEnd::Failed(ActFailure::NoName)),
            _ => ActStep::PlaceSpare,
        },
        ActStep::PlaceSpare => match outcome {
            StepOutcome::Failed => ActStep::DropLink(ActEnd::Failed(ActFailure::LinkLost)),
            _ => ActStep::End(ActEnd::DoneElsewhere),
        },
        ActStep::DropLink(end) => ActStep::End(end),
        ActStep::End(end) => ActStep::End(end),
    }
}

/// The step that is reached after some outcomes.
pub open spec fn act_after(start: ActStep, outcomes: Seq<StepOutcome>) -> ActStep
    decreases outcomes.len(),
{
    if outcomes.len() == 0 {
        start
    } else {
        next_act(act_after(start, outcomes.drop_last()), outcomes.last())
    }
}

/// The source of a link is only removed after its replacement was linked.
pub proof fn law_link_before_removal(step: ActStep, outcome: StepOutcome)
    requires
        next_act(step, outcome) == ActStep::RemoveLinked,
    ensures
        step == ActStep::LinkKeeper,
        outcome != StepOutcome::Failed,
{
}

/// While a step of this kind is due, the temporary link exists.
pub open spec fn link_is_there(step: ActStep) -> bool {
    step == ActStep::RemoveLinked || step == ActStep::PlaceLink || step == ActStep::FindSpare || step
        == ActStep::PlaceSpare || step is DropLink
}

/// A temporary link is never forgotten: as long as it is there, either it is given a
/// name in the next step or the action goes on with it.
pub proof fn law_link_is_not_forgotten(step: ActStep, outcome: StepOutcome)
    requires
        link_is_there(step),
    ensures
        link_is_there(next_act(step, outcome)) || step is DropLink || ((step == ActStep::PlaceLink
            || step == ActStep::PlaceSpare) && outcome != StepOutcome::Failed),
{
}

/// Every action ends after at most six steps.
pub proof fn law_actions_end(
    kind: ActionKind,
    has_target: bool,
    has_keeper: bool,
    outcomes: Seq<StepOutcome>,
)
    requires
        outcomes.len() == 6,
    ensures
        act_after(first_act(kind, has_target, has_keeper), outcomes) is End,
{
    let start = first_act(kind, has_target, has_keeper);
    reveal_with_fuel(act_after, 7);
}

/// The counts after a step that moves a file or places a link.
pub open spec fn step_counted(s: Summary, step: ActStep, outcome: StepOutcome) -> Summary {
    if outcome == StepOutcome::Failed {
        s
    } else if step == ActStep::Rename {
        Summary { moved: (s.moved + 1) as u64, ..s }
    } else if step == ActStep::PlaceLink || step == ActStep::PlaceSpare {
        Summary { linked: (s.linked + 1) as u64, ..s }
    } else {
        s
    }
}

/// Counts a step that moves a file or places a link. Removals are counted by
/// [`account_delete`].
pub fn count_step(s: &Summary, step: ActStep, outcome: StepOutcome) -> (r: Summary)
    requires
        has_room(*s),
    ensures
        r == step_counted(*s, step, outcome),
{
    let mut t = *s;
    match outcome {
        StepOutcome::Failed => {},
        _ => match step {
            ActStep::Rename => {
                t.moved = t.moved + 1;
            },
            ActStep::PlaceLink => {
                t.linked = t.linked + 1;
            },
            ActStep::PlaceSpare => {
                t.linked = t.linked + 1;
            },
            _ => {},
        },
    }
    t
}

/// Every kind of action does its own steps and no others: a deletion only removes, a move
/// only makes a directory and renames, an empty directory is looked at and removed, and
/// only a hard link is worked with a temporary link.
pub proof fn law_actions_do_their_own_steps(
    kind: ActionKind,
    has_target: bool,
    has_keeper: bool,
    outcomes: Seq<StepOutcome>,
)
    ensures
        ({
            let step = act_after(first_act(kind, has_target, has_keeper), outcomes);
            match kind {
                ActionKind::Delete => step == ActStep::Remove || step is End,
                ActionKind::Move => step == ActStep::EnsureParent || step == ActStep::Rename
                    || step is End,
                ActionKind::EmptyDirectory => step == ActStep::CheckEmpty || step
                    == ActStep::Remove || step is End,
                ActionKind::Hardlink => step == ActStep::LinkKeeper || link_is_there(step)
                    || step is End,
            }
        }),
    decreases outcomes.len(),
{
    if outcomes.len() > 0 {
        law_actions_do_their_own_steps(kind, has_target, has_keeper, outcomes.drop_last());
    }
}

/// In the course of an action a step is reached, and it has one of two outcomes.
pub open spec fn step_had(
    start: ActStep,
    outcomes: Seq<StepOutcome>,
    step: ActStep,
    a: StepOutcome,
    b: StepOutcome,
) -> bool {
    exists|k: int|
        0 <= k < outcomes.len() && #[trigger] act_after(start, outcomes.take(k)) == step && (
        outcomes[k] == a || outcomes[k] == b)
}

/// A step that was taken stays taken.
proof fn step_stays_taken(
    start: ActStep,
    outcomes: Seq<StepOutcome>,
    step: ActStep,
    a: StepOutcome,
    b: StepOutcome,
)
    requires
        outcomes.len() > 0,
    ensures
        step_had(start, outcomes.drop_last(), step, a, b) ==> step_had(start, outcomes, step, a, b),
        act_after(start, outcomes.drop_last()) == step && (outcomes.last() == a || outcomes.last()
            == b) ==> step_had(start, outcomes, step, a, b),
{
    let before = outcomes.drop_last();
    if step_had(start, before, step, a, b) {
        let k = choose|k: int|
            0 <= k < before.len() && #[trigger] act_after(start, before.take(k)) == step && (
            before[k] == a || before[k] == b);
        assert(before.take(k) =~= outcomes.take(k));
        assert(act_after(start, outcomes.take(k)) == step);
    }
    let n = outcomes.len() - 1;
    assert(outcomes.take(n) =~= before);
    if act_after(start, before) == step {
        assert(act_after(start, outcomes.take(n)) == step);
    }
}

/// Which steps must have gone well before an action of a kind can have come to a step.
spec fn deeds_before(kind: ActionKind, start: ActStep, outcomes: Seq<StepOutcome>) -> bool {
    let step = act_after(start, outcomes);
    let went = StepOutcome::Went;
    let kept = StepOutcome::Kept;
    match kind {
        ActionKind::Delete => step == ActStep::End(ActEnd::Done) ==> step_had(
            start,
            outcomes,
            ActStep::Remove,
            went,
            went,
        ),
        ActionKind::EmptyDirectory => {
            &&& step == ActStep::Remove || step == ActStep::End(ActEnd::Done) ==> step_had(
                start,
                outcomes,
                ActStep::CheckEmpty,
                went,
                went,
            )
            &&& step == ActStep::End(ActEnd::Done) ==> step_had(
                start,
                outcomes,
                ActStep::Remove,
                went,
                went,
            )
        },
        ActionKind::Move => {
            &&& step == ActStep::Rename || step == ActStep::End(ActEnd::Done) ==> step_had(
                start,
                outcomes,
                ActStep::EnsureParent,
                went,
                kept,
            )
            &&& step == ActStep::End(ActEnd::Done) ==> step_had(
                start,
                outcomes,
                ActStep::Rename,
                went,
                kept,
            )
        },
        ActionKind::Hardlink => {
            &&& link_is_there(step) || step == ActStep::End(ActEnd::Done) || step == ActStep::End(
                ActEnd::DoneElsewhere,
            ) ==> step_had(start, outcomes, ActStep::LinkKeeper, went, kept)
            &&& step == ActStep::PlaceLink || step == ActStep::FindSpare || step
                == ActStep::PlaceSpare || step == ActStep::End(ActEnd::Done) || step
                == ActStep::End(ActEnd::DoneElsewhere) ==> step_had(
                start,
                outcomes,
                ActStep::RemoveLinked,
                went,
                went,
            )
            &&& step == ActStep::End(ActEnd::Done) ==> step_had(
                start,
                outcomes,
                ActStep::PlaceLink,
                went,
                kept,
            )
            &&& step == ActStep::End(ActEnd::DoneElsewhere) ==> step_had(
                start,
                outcomes,
                ActStep::PlaceSpare,
                went,
                kept,
            )
            &&& step matches ActStep::DropLink(end) ==> end != ActEnd::Done && end
                != ActEnd::DoneElsewhere
        },
    }
}

proof fn deeds_come_first(
    kind: ActionKind,
    has_target: bool,
    has_keeper: bool,
    outcomes: Seq<StepOutcome>,
)
    ensures
        deeds_before(kind, first_act(kind, has_target, has_keeper), outcomes),
    decreases outcomes.len(),
{
    let start = first_act(kind, has_target, has_keeper);
    let went = StepOutcome::Went;
    let kept = StepOutcome::Kept;
    if outcomes.len() > 0 {
        deeds_come_first(kind, has_target, has_keeper, outcomes.drop_last());
        law_actions_do_their_own_steps(kind, has_target, has_keeper, outcomes.drop_last());
        match kind {
            ActionKind::Delete => {
                step_stays_taken(start, outcomes, ActStep::Remove, went, went);
            },
            ActionKind::EmptyDirectory => {
                step_stays_taken(start, outcomes, ActStep::CheckEmpty, went, went);
                step_stays_taken(start, outcomes, ActStep::Remove, went, went);
            },
            ActionKind::Move => {
                step_stays_taken(start, outcomes, ActStep::EnsureParent, went, kept);
                step_stays_taken(start, outcomes, ActStep::Rename, went, kept);
            },
            ActionKind::Hardlink => {
                step_stays_taken(start, outcomes, ActStep::LinkKeeper, went, kept);
                step_stays_taken(start, outcomes, ActStep::RemoveLinked, went, went);
                step_stays_taken(start, outcomes, ActStep::PlaceLink, went, kept);
                step_stays_taken(start, outcomes, ActStep::PlaceSpare, went, kept);
            },
        }
    }
}

/// An action is done only after its deed: a deletion after the file was removed, an empty
/// directory after it was found empty and removed, a move after the directory was there
/// and the file was renamed, a hard link after the link was made, the source was removed
/// and the link got its name.
pub proof fn law_done_only_after_the_deed(
    kind: ActionKind,
    has_target: bool,
    has_keeper: bool,
    outcomes: Seq<StepOutcome>,
)
    requires
        act_after(first_act(kind, has_target, has_keeper), outcomes) == ActStep::End(ActEnd::Done),
    ensures
        ({
            let start = first_act(kind, has_target, has_keeper);
            let went = StepOutcome::Went;
            let kept = StepOutcome::Kept;
            match kind {
                ActionKind::Delete => step_had(start, outcomes, ActStep::Remove, went, went),
                ActionKind::EmptyDirectory => step_had(
                    start,
                    outcomes,
                    ActStep::CheckEmpty,
                    went,
                    went,
                ) && step_had(start, outcomes, ActStep::Remove, went, went),
                ActionKind::Move => has_target && step_had(
                    start,
                    outcomes,
                    ActStep::EnsureParent,
                    went,
                    kept,
                ) && step_had(start, outcomes, ActStep::Rename, went, kept),
                ActionKind::Hardlink => has_keeper && step_had(
                    start,
                    outcomes,
                    ActStep::LinkKeeper,
                    went,
                    kept,
                ) && step_had(start, outcomes, ActStep::RemoveLinked, went, went) && step_had(
                    start,
                    outcomes,
                    ActStep::PlaceLink,
                    went,
                    kept,
                ),
            }
        }),
{
    deeds_come_first(kind, has_target, has_keeper, outcomes);
    if kind == ActionKind::Move && !has_target || kind == ActionKind::Hardlink && !has_keeper {
        ended_stays(first_act(kind, has_target, has_keeper), outcomes);
    }
}

/// A directory is removed only after it was found empty; and a link ends under another
/// name only after its source was removed and it got that name.
pub proof fn law_no_step_is_left_out(
    has_target: bool,
    has_keeper: bool,
    outcomes: Seq<StepOutcome>,
)
    ensures
        ({
            let start = first_act(ActionKind::EmptyDirectory, has_target, has_keeper);
            act_after(start, outcomes) == ActStep::Remove ==> step_had(
                start,
                outcomes,
                ActStep::CheckEmpty,
                StepOutcome::Went,
                StepOutcome::Went,
            )
        }),
        ({
            let start = first_act(ActionKind::Hardlink, has_target, has_keeper);
            act_after(start, outcomes) == ActStep::End(ActEnd::DoneElsewhere) ==> step_had(
                start,
                outcomes,
                ActStep::RemoveLinked,
                StepOutcome::Went,
                StepOutcome::Went,
            ) && step_had(
                start,
                outcomes,
                ActStep::PlaceSpare,
                StepOutcome::Went,
                StepOutcome::Kept,
            )
        }),
{
    deeds_come_first(ActionKind::EmptyDirectory, has_target, has_keeper, outcomes);
    deeds_come_first(ActionKind::Hardlink, has_target, has_keeper, outcomes);
}

proof fn ended_stays(start: ActStep, outcomes: Seq<StepOutcome>)
    requires
        start is End,
    ensures
        act_after(start, outcomes) == start,
    decreases outcomes.len(),
{
    if outcomes.len() > 0 {
        ended_stays(start, outcomes.drop_last());
    }
}

/// Where every step goes well, the action is done, and in no more steps than it takes: one
/// for a deletion, two for a move or an empty directory, three for a hard link. A move
/// without a target and a link without a kept file fail without any step.
pub proof fn law_smooth_actions_are_done(
    kind: ActionKind,
    has_target: bool,
    has_keeper: bool,
    outcomes: Seq<StepOutcome>,
)
    requires
        forall|i: int| 0 <= i < outcomes.len() ==> outcomes[i] == StepOutcome::Went,
        outcomes.len() == match kind {
            ActionKind::Delete => 1int,
            ActionKind::Move => 2,
            ActionKind::EmptyDirectory => 2,
            ActionKind::Hardlink => 3,
        },
    ensures
        ({
            let end = act_after(first_act(kind, has_target, has_keeper), outcomes);
            if kind == ActionKind::Move && !has_target {
                end == ActStep::End(ActEnd::Failed(ActFailure::MissingTarget))
            } else if kind == ActionKind::Hardlink && !has_keeper {
                end == ActStep::End(ActEnd::Failed(ActFailure::MissingKeeper))
            } else {
                end == ActStep::End(ActEnd::Done)
            }
        }),
        kind == ActionKind::Move && !has_target || kind == ActionKind::Hardlink && !has_keeper
            ==> first_act(kind, has_target, has_keeper) is End,
{
    reveal_with_fuel(act_after, 4);
}

/// What goes wrong decides how an action ends: a first step that failed makes it fail; a
/// file that was kept, or a directory that is not empty, is not done and is no failure; a
/// move whose renaming failed has failed.
pub proof fn law_bad_outcomes_are_told(kind: ActionKind, has_target: bool, has_keeper: bool)
    requires
        kind == ActionKind::Move ==> has_target,
        kind == ActionKind::Hardlink ==> has_keeper,
    ensures
        ({
            let start = first_act(kind, has_target, has_keeper);
            let went = StepOutcome::Went;
            let failed = ActStep::End(ActEnd::Failed(ActFailure::Step));
            &&& act_after(start, seq![StepOutcome::Failed]) == failed
            &&& kind == ActionKind::Delete || kind == ActionKind::EmptyDirectory ==> act_after(
                start,
                seq![StepOutcome::Kept],
            ) == ActStep::End(ActEnd::NotDone)
            &&& kind == ActionKind::EmptyDirectory ==> act_after(
                start,
                seq![went, StepOutcome::Kept],
            ) == ActStep::End(ActEnd::NotDone)
            &&& kind == ActionKind::EmptyDirectory || kind == ActionKind::Move ==> act_after(
                start,
                seq![went, StepOutcome::Failed],
            ) == failed
            // A link whose source stays: the temporary link is dropped first.
            &&& kind == ActionKind::Hardlink ==> act_after(start, seq![went, StepOutcome::Kept])
                == ActStep::DropLink(ActEnd::NotDone)
            &&& kind == ActionKind::Hardlink ==> act_after(start, seq![went, StepOutcome::Failed])
                == ActStep::DropLink(ActEnd::Failed(ActFailure::Step))
            // A link that cannot take its place is kept under another name.
            &&& kind == ActionKind::Hardlink ==> act_after(
                start,
                seq![went, went, StepOutcome::Failed, went, went],
            ) == ActStep::End(ActEnd::DoneElsewhere)
            &&& kind == ActionKind::Hardlink ==> act_after(
                start,
                seq![went, went, StepOutcome::Failed, StepOutcome::Failed],
            ) == ActStep::DropLink(ActEnd::Failed(ActFailure::NoName))
            &&& kind == ActionKind::Hardlink ==> act_after(
                start,
                seq![went, went, StepOutcome::Failed, went, StepOutcome::Failed],
            ) == ActStep::DropLink(ActEnd::Failed(ActFailure::LinkLost))
        }),
{
    let went = StepOutcome::Went;
    let failed = StepOutcome::Failed;
    let kept = StepOutcome::Kept;
    let start = first_act(kind, has_target, has_keeper);
    let one = seq![went];
    let two = seq![went, went];
    let three = seq![went, went, failed];
    let four = seq![went, went, failed, went];
    assert(seq![failed].drop_last() =~= Seq::<StepOutcome>::empty());
    assert(seq![kept].drop_last() =~= Seq::<StepOutcome>::empty());
    assert(one.drop_last() =~= Seq::<StepOutcome>::empty());
    assert(seq![went, kept].drop_last() =~= one);
    assert(seq![went, failed].drop_last() =~= one);
    assert(two.drop_last() =~= one);
    assert(three.drop_last() =~= two);
    assert(four.drop_last() =~= three);
    assert(seq![went, went, failed, failed].drop_last() =~= three);
    assert(seq![went, went, failed, went, went].drop_last() =~= four);
    assert(seq![went, went, failed, went, failed].drop_last() =~= four);
    reveal_with_fuel(act_after, 2);
    assert(act_after(start, one) == next_act(start, went));
    assert(act_after(start, two) == next_act(act_after(start, one), went));
    assert(act_after(start, three) == next_act(act_after(start, two), failed));
    assert(act_after(start, four) == next_act(act_after(start, three), went));
}

/// The counts after every step of a course.
pub open spec fn course_counted(s: Summary, start: ActStep, outcomes: Seq<StepOutcome>) -> Summary
    decreases outcomes.len(),
{
    if outcomes.len() == 0 {
        s
    } else {
        let before = outcomes.drop_last();
        step_counted(course_counted(s, start, before), act_after(start, before), outcomes.last())
    }
}

/// What was done is counted, once, and nothing else is: a move that is done counts as one
/// file moved, a link that is done or was kept under another name as one linked, and an
/// action that has not come so far leaves both counts.
pub proof fn law_deeds_are_counted_once(
    s: Summary,
    kind: ActionKind,
    has_target: bool,
    has_keeper: bool,
    outcomes: Seq<StepOutcome>,
)
    requires
        s.moved < u64::MAX,
        s.linked < u64::MAX,
    ensures
        ({
            let start = first_act(kind, has_target, has_keeper);
            let step = act_after(start, outcomes);
            let after = course_counted(s, start, outcomes);
            let done = step == ActStep::End(ActEnd::Done);
            let elsewhere = step == ActStep::End(ActEnd::DoneElsewhere);
            &&& after.moved == s.moved + if kind == ActionKind::Move && done {
                1int
            } else {
                0
            }
            &&& after.linked == s.linked + if kind == ActionKind::Hardlink && (done || elsewhere) {
                1int
            } else {
                0
            }
            &&& after == (Summary { moved: after.moved, linked: after.linked, ..s })
        }),
    decreases outcomes.len(),
{
    if outcomes.len() > 0 {
        law_deeds_are_counted_once(s, kind, has_target, has_keeper, outcomes.drop_last());
        law_actions_do_their_own_steps(kind, has_target, has_keeper, outcomes.drop_last());
        deeds_come_first(kind, has_target, has_keeper, outcomes.drop_last());
    }
}

/// A deletion counts once: as deleted where the file is gone, as skipped where it was kept;
/// its bytes are freed where it was the only name of its content, and no other count moves.
pub proof fn law_deletions_are_counted(s: Summary, size: u64, links: u64, physical_free: bool)
    requires
        s.skipped < u64::MAX,
        s.deleted < u64::MAX,
        s.permanent_bytes + size <= u64::MAX,
    ensures
        ({
            let gone = after_delete(s, DeleteResult::Permanent, Some((size, links)), physical_free);
            &&& gone.deleted == s.deleted + 1
            &&& gone.permanent_bytes == s.permanent_bytes + if physical_free && links <= 1 {
                size as int
            } else {
                0
            }
            &&& gone == (Summary {
                deleted: gone.deleted,
                permanent_bytes: gone.permanent_bytes,
                ..s
            })
        }),
        ({
            let kept = after_delete(s, DeleteResult::Kept, Some((size, links)), physical_free);
            kept.skipped == s.skipped + 1 && kept == (Summary { skipped: kept.skipped, ..s })
        }),
{
}

/// Every action that is settled leaves one mark, and the counts move by one at most: what
/// was done is marked as done, what failed as failed with one more error, what was kept or
/// not chosen counts as skipped. Only a failure of a cancelled task leaves nothing.
pub proof fn law_marks_tell_what_happened(
    s: Summary,
    selected: bool,
    result: SingleResult,
    cancelled: bool,
)
    requires
        has_room(s),
    ensures
        single_settled(s, selected, result, cancelled) is None <==> selected && result
            == SingleResult::Failed && cancelled,
        single_settled(s, selected, result, cancelled) matches Some(x) ==> {
            &&& x.completed == selected
            &&& x.mark == ActionMark::Unselected <==> !selected
            &&& x.mark == ActionMark::Done <==> selected && result == SingleResult::Done
            &&& x.mark == ActionMark::Skipped <==> selected && result == SingleResult::NotDone
            &&& x.mark == ActionMark::Failed <==> selected && result == SingleResult::Failed
            &&& x.summary.errors == s.errors + if x.mark == ActionMark::Failed {
                1int
            } else {
                0
            }
            &&& x.summary.skipped == s.skipped + if x.mark == ActionMark::Skipped || x.mark
                == ActionMark::Unselected {
                1int
            } else {
                0
            }
            &&& x.summary == (Summary {
                errors: x.summary.errors,
                skipped: x.summary.skipped,
                ..s
            })
        },
{
}

/// The same of removals that are done side by side.
pub proof fn law_marks_of_a_run_tell_what_happened(
    s: Summary,
    expected: Option<(u64, u64)>,
    result: RunResult,
    cancelled: bool,
)
    requires
        has_room(s),
    ensures
        run_settled(s, expected, result, cancelled) is None <==> result == RunResult::Failed
            && cancelled,
        run_settled(s, expected, result, cancelled) matches Some(x) ==> {
            let gone = result == RunResult::Removed(DeleteResult::Permanent);
            &&& x.completed
            &&& x.mark == ActionMark::Done <==> gone
            &&& x.mark == ActionMark::Failed <==> result == RunResult::Failed
            &&& x.mark == ActionMark::Skipped <==> !gone && result != RunResult::Failed
            &&& x.summary.deleted == s.deleted + if gone {
                1int
            } else {
                0
            }
            &&& x.summary.errors == s.errors + if result == RunResult::Failed {
                1int
            } else {
                0
            }
            &&& x.summary.skipped == s.skipped + if x.mark == ActionMark::Skipped {
                1int
            } else {
                0
            }
            &&& !gone ==> x.summary.permanent_bytes == s.permanent_bytes
        },
{
}

/// Only chosen deletions and chosen empty directories are done side by side, the latter
/// only with those of the same depth.
pub proof fn law_what_is_done_side_by_side(a: Action, b: Action)
    ensures
        run_kind(a) is Some <==> a.selected && (a.kind == ActionKind::Delete || a.kind
            == ActionKind::EmptyDirectory),
        run_kind(a) is Some && run_kind(a) == run_kind(b) ==> a.kind == b.kind,
        a.selected && b.selected && a.kind == ActionKind::Delete && b.kind == ActionKind::Delete
            ==> run_kind(a) == run_kind(b),
        a.selected && b.selected && a.kind == ActionKind::EmptyDirectory && b.kind
            == ActionKind::EmptyDirectory && slashes(a.source@) <= usize::MAX && slashes(b.source@)
            <= usize::MAX ==> (run_kind(a) == run_kind(b) <==> slashes(a.source@) == slashes(
            b.source@,
        )),
{
}

/// When the temporary link is dropped, the action ends as it was decided before, however
/// that goes; and an end stays.
pub proof fn law_a_dropped_link_changes_no_end(
    start: ActStep,
    outcomes: Seq<StepOutcome>,
    more: StepOutcome,
    end: ActEnd,
)
    requires
        act_after(start, outcomes) == ActStep::DropLink(end) || act_after(start, outcomes)
            == ActStep::End(end),
    ensures
        act_after(start, outcomes.push(more)) == ActStep::End(end),
{
    assert(outcomes.push(more).drop_last() =~= outcomes);
}

/// The depth of a path: none without a slash, one more with each, and that of two pieces
/// together is the sum.
pub proof fn law_depth_counts_the_slashes(a: Seq<char>, b: Seq<char>, c: char)
    ensures
        slashes(Seq::empty()) == 0,
        slashes(a.push(c)) == slashes(a) + if c == '/' {
            1nat
        } else {
            0
        },
        slashes(a + b) == slashes(a) + slashes(b),
        slashes(a) <= a.len(),
    decreases b.len(), a.len(),
{
    assert(a.push(c).drop_last() =~= a);
    if a.len() > 0 {
        law_depth_counts_the_slashes(a.drop_last(), Seq::empty(), c);
    }
    if b.len() == 0 {
        assert(a + b =~= a);
    } else {
        law_depth_counts_the_slashes(a, b.drop_last(), c);
        assert((a + b).drop_last() =~= a + b.drop_last());
    }
}

/// How many of the first `k` removals had a result.
pub open spec fn results_among(items: Seq<RunItem>, result: RunResult, k: int) -> nat
    decreases k,
{
    if k <= 0 {
        0
    } else {
        results_among(items, result, k - 1) + if items[k - 1].result == result {
            1nat
        } else {
            0
        }
    }
}

/// The counts of a run are those of its removals: every file that is gone counts as
/// deleted, every failure as an error, everything else as skipped.
pub proof fn law_a_run_counts_its_removals(s: Summary, items: Seq<RunItem>, cancelled: bool, k: int)
    requires
        0 <= k <= items.len(),
        has_room_for(s, items.len() as int),
        run_summary(s, items, cancelled, k) is Some,
    ensures
        ({
            let t = run_summary(s, items, cancelled, k)->0;
            let gone = results_among(items, RunResult::Removed(DeleteResult::Permanent), k);
            let failed = results_among(items, RunResult::Failed, k);
            &&& t.deleted == s.deleted + gone
            &&& t.errors == s.errors + failed
            &&& t.skipped == s.skipped + k - gone - failed
            &&& gone + failed <= k
            &&& t.moved == s.moved && t.linked == s.linked
        }),
    decreases k,
{
    if k > 0 {
        law_a_run_counts_its_removals(s, items, cancelled, k - 1);
    }
}

proof fn stretches_in_order(actions: Seq<Action>, segs: Seq<Segment>, end: int, a: int, b: int)
    requires
        is_segmentation(actions, segs, end),
        0 <= a < b < segs.len(),
    ensures
        segs[a].to <= segs[b].from,
        segs[b].from < segs[b].to <= actions.len(),
    decreases b - a,
{
    assert(is_segment(actions, segs[b]));
    assert(is_segment(actions, segs[b - 1]));
    assert(segs[b - 1].to == segs[b].from);
    if a < b - 1 {
        stretches_in_order(actions, segs, end, a, b - 1);
    }
}

proof fn stretch_with(actions: Seq<Action>, segs: Seq<Segment>, end: int, m: int, i: int) -> (k: int)
    requires
        is_segmentation(actions, segs, end),
        0 < m <= segs.len(),
        0 <= i < segs[m - 1].to,
    ensures
        0 <= k < m,
        segs[k].from <= i < segs[k].to,
    decreases m,
{
    if segs[m - 1].from <= i {
        m - 1
    } else {
        assert(m > 1);
        assert(segs[m - 2].to == segs[m - 1].from);
        stretch_with(actions, segs, end, m - 1, i)
    }
}

/// Every action of a page is carried out in exactly one stretch, and the stretches follow the
/// order of the plan. An action that is not done side by side has a stretch of its own;
/// neighbours of one kind are in the same.
pub proof fn law_every_action_is_in_one_stretch(actions: Seq<Action>, segs: Seq<Segment>, i: int)
    requires
        is_segmentation(actions, segs, actions.len() as int),
        0 <= i < actions.len(),
    ensures
        exists|k: int|
            0 <= k < segs.len() && (#[trigger] segs[k]).from <= i < segs[k].to && segs[k].kind
                == run_kind(actions[i]) && (run_kind(actions[i]) is None ==> segs[k].from == i
                && segs[k].to == i + 1) && (i + 1 < actions.len() && run_kind(actions[i]) is Some
                && run_kind(actions[i]) == run_kind(actions[i + 1]) ==> i + 1 < segs[k].to),
        forall|a: int, b: int|
            0 <= a < b < segs.len() ==> (#[trigger] segs[a]).to <= (#[trigger] segs[b]).from,
{
    let k = stretch_with(actions, segs, actions.len() as int, segs.len() as int, i);
    let s = segs[k];
    assert(is_segment(actions, s));
    match s.kind {
        None => {},
        Some(kind) => {
            assert(run_kind(actions[i]) == Some(kind));
        },
    }
    assert(segs[k].from <= i < segs[k].to);
    assert forall|a: int, b: int| 0 <= a < b < segs.len() implies (#[trigger] segs[a]).to <= (
    #[trigger] segs[b]).from by {
        stretches_in_order(actions, segs, actions.len() as int, a, b);
    }
}

} // verus!
