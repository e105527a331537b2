//! One change from adding it to pushing it: what follows on every outcome of a git
//! command.

use crate::text;
use vstd::prelude::*;

verus! {

/// How a commit went.
#[derive(Clone, Copy, Debug, PartialEq, Eq, Structural)]
pub enum CommitVerdict {
    Done,
    /// There is no name to commit under; trying again cannot help.
    NoIdentity,
    /// There was nothing to commit: perhaps it was committed before.
    MaybeDone,
    Retry,
}

/// One of three texts occurs in the errors or the output of a command. Where one ends
/// the other begins.
pub open spec fn says(
    stderr: Seq<char>,
    stdout: Seq<char>,
    a: Seq<char>,
    b: Seq<char>,
    c: Seq<char>,
) -> bool {
    let all = stderr + stdout;
    text::has_text(all, a) || text::has_text(all, b) || text::has_text(all, c)
}

fn said(stderr: &str, stdout: &str, a: &str, b: &str, c: &str) -> (r: bool)
    ensures
        r == says(stderr@, stdout@, a@, b@, c@),
{
    let mut all = stderr.to_owned();
    all.append(stdout);
    text::contains(all.as_str(), a) || text::contains(all.as_str(), b) || text::contains(
        all.as_str(),
        c,
    )
}

/// How a commit went. `ran` says whether the command could be run at all.
pub open spec fn commit_verdict(
    ran: bool,
    success: bool,
    stderr: Seq<char>,
    stdout: Seq<char>,
) -> CommitVerdict {
    if !ran {
        CommitVerdict::Retry
    } else if success {
        CommitVerdict::Done
    } else if says(
        stderr,
        stdout,
        "Author identity unknown"@,
        "Committer identity unknown"@,
        "Please tell me who you are"@,
    ) {
        CommitVerdict::NoIdentity
    } else if says(
        stderr,
        stdout,
        "no changes added to commit"@,
        "nothing to commit"@,
        "nothing added to commit"@,
    ) {
        CommitVerdict::MaybeDone
    } else {
        CommitVerdict::Retry
    }
}

/// Tells how a commit went.
pub fn judge_commit(ran: bool, success: bool, stderr: &str, stdout: &str) -> (r: CommitVerdict)
    ensures
        r == commit_verdict(ran, success, stderr@, stdout@),
{
    if !ran {
        return CommitVerdict::Retry;
    }
    if success {
        return CommitVerdict::Done;
    }
    if said(
        stderr,
        stdout,
        "Author identity unknown",
        "Committer identity unknown",
        "Please tell me who you are",
    ) {
        return CommitVerdict::NoIdentity;
    }
    if said(
        stderr,
        stdout,
        "no changes added to commit",
        "nothing to commit",
        "nothing added to commit",
    ) {
        return CommitVerdict::MaybeDone;
    }
    CommitVerdict::Retry
}

/// How a push went.
#[derive(Clone, Copy, Debug, PartialEq, Eq, Structural)]
pub enum PushVerdict {
    Done,
    /// The other side has commits that are not here.
    NeedMerge,
    Retry,
}

/// A line starts with an exclamation mark.
pub open spec fn has_refused_line(lines: Seq<Seq<char>>) -> bool {
    exists|i: int| 0 <= i < lines.len() && text::has_prefix(#[trigger] lines[i], "!"@)
}

/// How a push went.
pub open spec fn push_verdict(
    ran: bool,
    success: bool,
    stderr: Seq<char>,
    stdout: Seq<char>,
) -> PushVerdict {
    if !ran {
        PushVerdict::Retry
    } else if success && !has_refused_line(text::split_on(stdout, '\n')) {
        PushVerdict::Done
    } else if says(stderr, stdout, "fetch first"@, "non-fast-forward"@, "stale info"@) {
        PushVerdict::NeedMerge
    } else {
        PushVerdict::Retry
    }
}

fn refused_line(stdout: &str) -> (r: bool)
    ensures
        r == has_refused_line(text::split_on(stdout@, '\n')),
{
    let lines = text::split(stdout, '\n');
    let ghost all = text::texts(lines@);
    let mut i: usize = 0;
    while i < lines.len()
        invariant
            i <= lines@.len(),
            all == text::texts(lines@),
            all == text::split_on(stdout@, '\n'),
            forall|k: int| 0 <= k < i ==> !text::has_prefix(#[trigger] all[k], "!"@),
        decreases lines.len() - i,
    {
        assert(lines@[i as int]@ == all[i as int]);
        if text::starts_with(lines[i].as_str(), "!") {
            return true;
        }
        i = i + 1;
    }
    false
}

/// Tells how a push went.
pub fn try_push(ran: bool, success: bool, stderr: &str, stdout: &str) -> (r: PushVerdict)
    ensures
        r == push_verdict(ran, success, stderr@, stdout@),
{
    if !ran {
        return PushVerdict::Retry;
    }
    if success && !refused_line(stdout) {
        return PushVerdict::Done;
    }
    if said(stderr, stdout, "fetch first", "non-fast-forward", "stale info") {
        return PushVerdict::NeedMerge;
    }
    PushVerdict::Retry
}

/// How fetching and merging went.
#[derive(Clone, Copy, Debug, PartialEq, Eq, Structural)]
pub enum MergeVerdict {
    Merged,
    /// There are conflicts; they are left for the user.
    Conflict,
    /// Changes that are not committed are in the way.
    Blocked,
    Retry,
}

/// How a merge went, after the fetch went well.
pub open spec fn merge_verdict(
    ran: bool,
    success: bool,
    stderr: Seq<char>,
    stdout: Seq<char>,
) -> MergeVerdict {
    if !ran {
        MergeVerdict::Retry
    } else if success {
        MergeVerdict::Merged
    } else if text::has_text(stderr + stdout, "CONFLICT"@) {
        MergeVerdict::Conflict
    } else if text::has_text(stderr + stdout, "local changes"@) || text::has_text(
        stderr + stdout,
        "would be overwritten by merge"@,
    ) {
        MergeVerdict::Blocked
    } else {
        MergeVerdict::Retry
    }
}

/// Tells how a merge went, after the fetch went well.
pub fn judge_merge(ran: bool, success: bool, stderr: &str, stdout: &str) -> (r: MergeVerdict)
    ensures
        r == merge_verdict(ran, success, stderr@, stdout@),
{
    if !ran {
        return MergeVerdict::Retry;
    }
    if success {
        return MergeVerdict::Merged;
    }
    let mut all = stderr.to_owned();
    all.append(stdout);
    if text::contains(all.as_str(), "CONFLICT") {
        return MergeVerdict::Conflict;
    }
    if text::contains(all.as_str(), "local changes") || text::contains(
        all.as_str(),
        "would be overwritten by merge",
    ) {
        return MergeVerdict::Blocked;
    }
    MergeVerdict::Retry
}

/// The remote and the branch of an upstream, parted at the last slash.
pub fn fetch_target(upstream: &str) -> (r: Option<(String, String)>)
    ensures
        match r {
            Some(x) => text::rcut_once(upstream@, "/"@) == Some((x.0@, x.1@)),
            None => text::rcut_once(upstream@, "/"@) is None,
        },
{
    text::rsplit_once(upstream, "/")
}

/// The factor that the waiting time grows by.
pub open spec fn backoff_factor(attempt: u64) -> nat {
    if attempt <= 1 {
        1
    } else if attempt == 2 {
        2
    } else if attempt == 3 {
        4
    } else if attempt == 4 {
        8
    } else {
        16
    }
}

/// The first waiting time, in milliseconds.
pub const BACKOFF_UNIT: u64 = 5000;

/// How long to wait after so many failures, in the unit's unit of time: the double
/// each time, sixteen times the unit from the fifth failure on.
pub open spec fn waiting_time(attempt: u64, unit: u64) -> u64 {
    if unit * backoff_factor(attempt) > u64::MAX {
        u64::MAX
    } else {
        (unit * backoff_factor(attempt)) as u64
    }
}

/// How long to wait after so many failures.
pub fn backoff_duration(attempt: u64, unit: u64) -> (r: u64)
    ensures
        r == waiting_time(attempt, unit),
{
    let factor: u64 = if attempt <= 1 {
        1
    } else if attempt == 2 {
        2
    } else if attempt == 3 {
        4
    } else if attempt == 4 {
        8
    } else {
        16
    };
    match unit.checked_mul(factor) {
        Some(x) => x,
        None => u64::MAX,
    }
}

/// Waiting never gets shorter with more failures.
pub proof fn law_waiting_grows(a: u64, b: u64)
    requires
        a <= b,
    ensures
        backoff_factor(a) <= backoff_factor(b) <= 16,
{
}

/// The seconds that are shown while waiting: at least one as long as there is any.
pub open spec fn seconds_shown(wait_ms: u64) -> u64 {
    if wait_ms == 0 {
        0
    } else if wait_ms < 1000 {
        1
    } else {
        wait_ms / 1000
    }
}

/// The seconds that are shown while waiting.
pub fn shown_wait(wait_ms: u64) -> (r: u64)
    ensures
        r == seconds_shown(wait_ms),
{
    if wait_ms == 0 {
        0
    } else if wait_ms < 1000 {
        1
    } else {
        wait_ms / 1000
    }
}

/// Why a change cannot be brought to an end.
#[derive(Clone, Copy, Debug, PartialEq, Eq, Structural)]
pub enum FatalReason {
    NoIdentity,
    /// It could not be found out whether it was committed.
    CheckFailed,
    /// The commit holds something else.
    VerifyFailed,
    /// Other changes are in the way of a merge.
    Blocked,
}

/// How a change ended.
#[derive(Clone, Copy, Debug, PartialEq, Eq, Structural)]
pub enum ChangeEnd {
    Done,
    Cancelled,
    Conflict,
    Fatal(FatalReason),
}

/// Where to go on after waiting.
#[derive(Clone, Copy, Debug, PartialEq, Eq, Structural)]
pub enum Resume {
    Add,
    Commit,
    Push,
}

/// The command that is due for a change.
#[derive(Clone, Copy, Debug, PartialEq, Eq, Structural)]
pub enum ChangeStage {
    /// `git add`
    Add,
    /// `git commit --only`
    Commit,
    /// Look whether the paths still have changes.
    Check,
    /// Look whether the commit holds these paths only.
    Verify,
    /// `git push`
    Push,
    /// `git fetch` and `git merge`
    Merge,
    /// Wait, then go on.
    Wait(Resume),
    End(ChangeEnd),
}

/// What the due command came to.
#[derive(Clone, Copy, Debug, PartialEq, Eq, Structural)]
pub enum ChangeEvent {
    Added(bool),
    Committed(CommitVerdict),
    /// Whether the paths have no changes; nothing where it could not be found out.
    Checked(Option<bool>),
    Verified(bool),
    Pushed(PushVerdict),
    Merged(MergeVerdict),
    /// Whether the waiting was not interrupted.
    Waited(bool),
}

/// A change on its way: the command that is due, and the failures so far.
#[derive(Clone, Copy, Debug, PartialEq, Eq, Structural)]
pub struct ChangeRun {
    pub stage: ChangeStage,
    pub attempt: u64,
}

/// Goes on to a stage, unless the task was cancelled.
pub open spec fn unless_cancelled(stage: ChangeStage, cancelled: bool) -> ChangeStage {
    if cancelled {
        ChangeStage::End(ChangeEnd::Cancelled)
    } else {
        stage
    }
}

/// The stage to go on with after waiting.
pub open spec fn resumed(r: Resume) -> ChangeStage {
    match r {
        Resume::Add => ChangeStage::Add,
        Resume::Commit => ChangeStage::Commit,
        Resume::Push => ChangeStage::Push,
    }
}

/// Where a change starts.
pub open spec fn change_start(cancelled: bool) -> ChangeRun {
    ChangeRun { stage: unless_cancelled(ChangeStage::Add, cancelled), attempt: 0 }
}

/// Where a change goes on. An event that does not belong to the due command changes
/// nothing.
pub open spec fn change_next(run: ChangeRun, event: ChangeEvent, cancelled: bool) -> ChangeRun {
    let to = |stage: ChangeStage| ChangeRun { stage, ..run };
    let wait = |r: Resume|
        ChangeRun { stage: ChangeStage::Wait(r), attempt: (run.attempt + 1) as u64 };
    let fatal = |r: FatalReason| to(ChangeStage::End(ChangeEnd::Fatal(r)));
    match (run.stage, event) {
        (ChangeStage::Add, ChangeEvent::Added(ok)) => if ok {
            to(ChangeStage::Commit)
        } else {
            wait(Resume::Add)
        },
        (ChangeStage::Commit, ChangeEvent::Committed(v)) => match v {
            CommitVerdict::Done => to(ChangeStage::Verify),
            CommitVerdict::NoIdentity => fatal(FatalReason::NoIdentity),
            CommitVerdict::MaybeDone => to(ChangeStage::Check),
            CommitVerdict::Retry => wait(Resume::Commit),
        },
        (ChangeStage::Check, ChangeEvent::Checked(clean)) => match clean {
            Some(true) => to(ChangeStage::Verify),
            Some(false) => wait(Resume::Commit),
            None => fatal(FatalReason::CheckFailed),
        },
        (ChangeStage::Verify, ChangeEvent::Verified(ok)) => if ok {
            to(unless_cancelled(ChangeStage::Push, cancelled))
        } else {
            fatal(FatalReason::VerifyFailed)
        },
        (ChangeStage::Push, ChangeEvent::Pushed(v)) => match v {
            PushVerdict::Done => to(ChangeStage::End(ChangeEnd::Done)),
            PushVerdict::NeedMerge => to(ChangeStage::Merge),
            PushVerdict::Retry => wait(Resume::Push),
        },
        (ChangeStage::Merge, ChangeEvent::Merged(v)) => match v {
            MergeVerdict::Merged => to(unless_cancelled(ChangeStage::Push, cancelled)),
            MergeVerdict::Conflict => to(ChangeStage::End(ChangeEnd::Conflict)),
            MergeVerdict::Blocked => fatal(FatalReason::Blocked),
            MergeVerdict::Retry => wait(Resume::Push),
        },
        (ChangeStage::Wait(r), ChangeEvent::Waited(whole)) => if whole {
            to(unless_cancelled(resumed(r), cancelled))
        } else {
            to(ChangeStage::End(ChangeEnd::Cancelled))
        },
        _ => run,
    }
}

fn guarded(stage: ChangeStage, cancelled: bool) -> (r: ChangeStage)
    ensures
        r == unless_cancelled(stage, cancelled),
{
    if cancelled {
        ChangeStage::End(ChangeEnd::Cancelled)
    } else {
        stage
    }
}

/// Starts a change.
pub fn begin_change(cancelled: bool) -> (r: ChangeRun)
    ensures
        r == change_start(cancelled),
{
    ChangeRun { stage: guarded(ChangeStage::Add, cancelled), attempt: 0 }
}

/// Starts with pushing what is committed already.
pub fn begin_push(cancelled: bool) -> (r: ChangeRun)
    ensures
        r == (ChangeRun { stage: unless_cancelled(ChangeStage::Push, cancelled), attempt: 0 }),
{
    ChangeRun { stage: guarded(ChangeStage::Push, cancelled), attempt: 0 }
}

/// Where a change goes on after an event.
pub fn process_change(run: &ChangeRun, event: ChangeEvent, cancelled: bool) -> (r: ChangeRun)
    requires
        run.attempt < u64::MAX,
    ensures
        r == change_next(*run, event, cancelled),
{
    let attempt: u64 = run.attempt;
    let more: u64 = attempt + 1;
    match run.stage {
        ChangeStage::Add => match event {
            ChangeEvent::Added(true) => ChangeRun { stage: ChangeStage::Commit, attempt },
            ChangeEvent::Added(false) => ChangeRun {
                stage: ChangeStage::Wait(Resume::Add),
                attempt: more,
            },
            _ => *run,
        },
        ChangeStage::Commit => match event {
            ChangeEvent::Committed(CommitVerdict::Done) => ChangeRun {
                stage: ChangeStage::Verify,
                attempt,
            },
            ChangeEvent::Committed(CommitVerdict::NoIdentity) => ChangeRun {
                stage: ChangeStage::End(ChangeEnd::Fatal(FatalReason::NoIdentity)),
                attempt,
            },
            ChangeEvent::Committed(CommitVerdict::MaybeDone) => ChangeRun {
                stage: ChangeStage::Check,
                attempt,
            },
            ChangeEvent::Committed(CommitVerdict::Retry) => ChangeRun {
                stage: ChangeStage::Wait(Resume::Commit),
                attempt: more,
            },
            _ => *run,
        },
        ChangeStage::Check => match event {
            ChangeEvent::Checked(Some(true)) => ChangeRun { stage: ChangeStage::Verify, attempt },
            ChangeEvent::Checked(Some(false)) => ChangeRun {
                stage: ChangeStage::Wait(Resume::Commit),
                attempt: more,
            },
            ChangeEvent::Checked(None) => ChangeRun {
                stage: ChangeStage::End(ChangeEnd::Fatal(FatalReason::CheckFailed)),
                attempt,
            },
            _ => *run,
        },
        ChangeStage::Verify => match event {
            ChangeEvent::Verified(true) => ChangeRun {
                stage: guarded(ChangeStage::Push, cancelled),
                attempt,
            },
            ChangeEvent::Verified(false) => ChangeRun {
                stage: ChangeStage::End(ChangeEnd::Fatal(FatalReason::VerifyFailed)),
                attempt,
            },
            _ => *run,
        },
        ChangeStage::Push => match event {
            ChangeEvent::Pushed(PushVerdict::Done) => ChangeRun {
                stage: ChangeStage::End(ChangeEnd::Done),
                attempt,
            },
            ChangeEvent::Pushed(PushVerdict::NeedMerge) => ChangeRun {
                stage: ChangeStage::Merge,
                attempt,
            },
            ChangeEvent::Pushed(PushVerdict::Retry) => ChangeRun {
                stage: ChangeStage::Wait(Resume::Push),
                attempt: more,
            },
            _ => *run,
        },
        ChangeStage::Merge => match event {
            ChangeEvent::Merged(MergeVerdict::Merged) => ChangeRun {
                stage: guarded(ChangeStage::Push, cancelled),
                attempt,
            },
            ChangeEvent::Merged(MergeVerdict::Conflict) => ChangeRun {
                stage: ChangeStage::End(ChangeEnd::Conflict),
                attempt,
            },
            ChangeEvent::Merged(MergeVerdict::Blocked) => ChangeRun {
                stage: ChangeStage::End(ChangeEnd::Fatal(FatalReason::Blocked)),
                attempt,
            },
            ChangeEvent::Merged(MergeVerdict::Retry) => ChangeRun {
                stage: ChangeStage::Wait(Resume::Push),
                attempt: more,
            },
            _ => *run,
        },
        ChangeStage::Wait(r) => match event {
            ChangeEvent::Waited(true) => {
                let stage = match r {
                    Resume::Add => ChangeStage::Add,
                    Resume::Commit => ChangeStage::Commit,
                    Resume::Push => ChangeStage::Push,
                };
                ChangeRun { stage: guarded(stage, cancelled), attempt }
            },
            ChangeEvent::Waited(false) => ChangeRun {
                stage: ChangeStage::End(ChangeEnd::Cancelled),
                attempt,
            },
            _ => *run,
        },
        ChangeStage::End(_) => *run,
    }
}

/// The commit of the change was found to hold this change only: the stages behind that.
pub open spec fn is_verified_stage(stage: ChangeStage) -> bool {
    stage == ChangeStage::Push || stage == ChangeStage::Merge || stage == ChangeStage::Wait(
        Resume::Push,
    ) || stage == ChangeStage::End(ChangeEnd::Done)
}

/// A change is pushed only after its commit was found to hold that change and nothing
/// else: into the stages behind that leads only a successful verification.
pub proof fn law_push_after_verification(run: ChangeRun, event: ChangeEvent, cancelled: bool)
    requires
        is_verified_stage(change_next(run, event, cancelled).stage),
        !is_verified_stage(run.stage),
    ensures
        run.stage == ChangeStage::Verify,
        event == ChangeEvent::Verified(true),
{
}

/// A change that was pushed was verified: nothing else ends with success.
pub proof fn law_done_means_pushed(run: ChangeRun, event: ChangeEvent, cancelled: bool)
    requires
        change_next(run, event, cancelled).stage == ChangeStage::End(ChangeEnd::Done),
        run.stage != ChangeStage::End(ChangeEnd::Done),
    ensures
        run.stage == ChangeStage::Push,
        event == ChangeEvent::Pushed(PushVerdict::Done),
{
}

/// A failure that trying again cannot mend is not tried again.
pub proof fn law_no_identity_is_final(run: ChangeRun, cancelled: bool, later: ChangeEvent)
    requires
        run.stage == ChangeStage::Commit,
    ensures
        ({
            let after = change_next(
                run,
                ChangeEvent::Committed(CommitVerdict::NoIdentity),
                cancelled,
            );
            &&& after.stage == ChangeStage::End(ChangeEnd::Fatal(FatalReason::NoIdentity))
            &&& change_next(after, later, cancelled) == after
        }),
{
}

/// A cancelled task goes no further than the command that is running.
pub proof fn law_cancelled_does_not_wait_on(run: ChangeRun, whole: bool)
    requires
        run.stage is Wait,
    ensures
        change_next(run, ChangeEvent::Waited(whole), true).stage == ChangeStage::End(
            ChangeEnd::Cancelled,
        ),
{
}

/// What trying again can mend is tried again without end: after every failure the change
/// waits, the failure is counted, and with the waiting over the same command is due, after
/// a merge that failed the push.
pub proof fn law_failures_are_tried_again(run: ChangeRun, event: ChangeEvent, cancelled: bool)
    requires
        run.attempt < u64::MAX,
        ({
            ||| run.stage == ChangeStage::Add && event == ChangeEvent::Added(false)
            ||| run.stage == ChangeStage::Commit && event == ChangeEvent::Committed(
                CommitVerdict::Retry,
            )
            ||| run.stage == ChangeStage::Check && event == ChangeEvent::Checked(Some(false))
            ||| run.stage == ChangeStage::Push && event == ChangeEvent::Pushed(PushVerdict::Retry)
            ||| run.stage == ChangeStage::Merge && event == ChangeEvent::Merged(MergeVerdict::Retry)
        }),
    ensures
        ({
            let waiting = change_next(run, event, cancelled);
            let again = change_next(waiting, ChangeEvent::Waited(true), false);
            &&& waiting.stage is Wait
            &&& waiting.attempt == run.attempt + 1
            &&& again.attempt == run.attempt + 1
            &&& again.stage == (if run.stage == ChangeStage::Merge {
                ChangeStage::Push
            } else if run.stage == ChangeStage::Check {
                ChangeStage::Commit
            } else {
                run.stage
            })
        }),
{
}

/// A change that goes well is added, committed, verified and pushed, in this order, with no
/// failure counted; one that was committed before is not committed again.
pub proof fn law_a_good_change_is_pushed(run: ChangeRun)
    requires
        run.stage == ChangeStage::Add,
    ensures
        ({
            let added = change_next(run, ChangeEvent::Added(true), false);
            let committed = change_next(
                added,
                ChangeEvent::Committed(CommitVerdict::Done),
                false,
            );
            let there = change_next(
                change_next(added, ChangeEvent::Committed(CommitVerdict::MaybeDone), false),
                ChangeEvent::Checked(Some(true)),
                false,
            );
            let verified = change_next(committed, ChangeEvent::Verified(true), false);
            let pushed = change_next(verified, ChangeEvent::Pushed(PushVerdict::Done), false);
            &&& added.stage == ChangeStage::Commit
            &&& committed.stage == ChangeStage::Verify
            &&& there == committed
            &&& verified.stage == ChangeStage::Push
            &&& pushed.stage == ChangeStage::End(ChangeEnd::Done)
            &&& pushed.attempt == run.attempt
        }),
        change_start(false).stage == ChangeStage::Add,
        change_start(false).attempt == 0,
        change_start(true).stage == ChangeStage::End(ChangeEnd::Cancelled),
{
}

/// A push that the other side is ahead of is followed by a merge, and a merge that went
/// well by another push; conflicts are left to the user.
pub proof fn law_being_behind_leads_to_a_merge(run: ChangeRun)
    requires
        run.stage == ChangeStage::Push,
    ensures
        ({
            let merging = change_next(run, ChangeEvent::Pushed(PushVerdict::NeedMerge), false);
            &&& merging.stage == ChangeStage::Merge
            &&& change_next(merging, ChangeEvent::Merged(MergeVerdict::Merged), false).stage
                == ChangeStage::Push
            &&& change_next(merging, ChangeEvent::Merged(MergeVerdict::Conflict), false).stage
                == ChangeStage::End(ChangeEnd::Conflict)
            &&& change_next(merging, ChangeEvent::Merged(MergeVerdict::Blocked), false).stage
                == ChangeStage::End(ChangeEnd::Fatal(FatalReason::Blocked))
        }),
{
}

/// The ways in which a change ends, and what has to happen for each.
pub proof fn law_how_changes_end(run: ChangeRun, event: ChangeEvent, cancelled: bool)
    requires
        !(run.stage is End),
    ensures
        change_next(run, event, cancelled).stage matches ChangeStage::End(end) ==> match end {
            ChangeEnd::Done => run.stage == ChangeStage::Push && event == ChangeEvent::Pushed(
                PushVerdict::Done,
            ),
            ChangeEnd::Conflict => run.stage == ChangeStage::Merge && event
                == ChangeEvent::Merged(MergeVerdict::Conflict),
            ChangeEnd::Cancelled => cancelled || (run.stage is Wait && event
                == ChangeEvent::Waited(false)),
            ChangeEnd::Fatal(FatalReason::NoIdentity) => event == ChangeEvent::Committed(
                CommitVerdict::NoIdentity,
            ),
            ChangeEnd::Fatal(FatalReason::CheckFailed) => event == ChangeEvent::Checked(None),
            ChangeEnd::Fatal(FatalReason::VerifyFailed) => event == ChangeEvent::Verified(false),
            ChangeEnd::Fatal(FatalReason::Blocked) => event == ChangeEvent::Merged(
                MergeVerdict::Blocked,
            ),
        },
        run.stage == ChangeStage::Verify && event == ChangeEvent::Verified(false) ==> change_next(
            run,
            event,
            cancelled,
        ).stage == ChangeStage::End(ChangeEnd::Fatal(FatalReason::VerifyFailed)),
        run.stage == ChangeStage::Check && event == ChangeEvent::Checked(None) ==> change_next(
            run,
            event,
            cancelled,
        ).stage == ChangeStage::End(ChangeEnd::Fatal(FatalReason::CheckFailed)),
{
}

/// A text says something where that stands somewhere in it.
pub proof fn law_what_a_text_says(before: Seq<char>, words: Seq<char>, after: Seq<char>)
    ensures
        text::has_text(before + words + after, words),
{
    let s = before + words + after;
    let i = before.len() as int;
    assert(s.subrange(i, i + words.len()) =~= words);
    assert(text::occurs_at(s, words, i));
}

/// A commit went well where git says so. Otherwise git's words decide: without a name to
/// commit under it is hopeless; with nothing to commit it may have been done before; in
/// all other cases it is tried again.
pub proof fn law_how_a_commit_went(
    ran: bool,
    success: bool,
    stderr: Seq<char>,
    stdout: Seq<char>,
)
    ensures
        ({
            let v = commit_verdict(ran, success, stderr, stdout);
            let all = stderr + stdout;
            let unknown = text::has_text(all, "Author identity unknown"@) || text::has_text(
                all,
                "Committer identity unknown"@,
            ) || text::has_text(all, "Please tell me who you are"@);
            let nothing = text::has_text(all, "no changes added to commit"@) || text::has_text(
                all,
                "nothing to commit"@,
            ) || text::has_text(all, "nothing added to commit"@);
            &&& v == CommitVerdict::Done <==> ran && success
            &&& v == CommitVerdict::NoIdentity <==> ran && !success && unknown
            &&& v == CommitVerdict::MaybeDone <==> ran && !success && !unknown && nothing
            &&& v == CommitVerdict::Retry <==> !ran || (!success && !unknown && !nothing)
        }),
{
}

/// A push went well where git says so and no line of its report starts with an exclamation
/// mark. Otherwise a merge is needed where git says that the other side is ahead, and in
/// all other cases it is tried again.
pub proof fn law_how_a_push_went(ran: bool, success: bool, stderr: Seq<char>, stdout: Seq<char>)
    ensures
        ({
            let v = push_verdict(ran, success, stderr, stdout);
            let all = stderr + stdout;
            let lines = text::split_on(stdout, '\n');
            let refused = exists|i: int|
                0 <= i < lines.len() && (#[trigger] lines[i]).len() > 0 && lines[i][0] == '!';
            let behind = text::has_text(all, "fetch first"@) || text::has_text(
                all,
                "non-fast-forward"@,
            ) || text::has_text(all, "stale info"@);
            &&& v == PushVerdict::Done <==> ran && success && !refused
            &&& v == PushVerdict::NeedMerge <==> ran && !(success && !refused) && behind
            &&& v == PushVerdict::Retry <==> !ran || (!(success && !refused) && !behind)
        }),
{
    reveal_strlit("!");
    let lines = text::split_on(stdout, '\n');
    assert forall|i: int| 0 <= i < lines.len() implies text::has_prefix(#[trigger] lines[i], "!"@)
        == (lines[i].len() > 0 && lines[i][0] == '!') by {
        if lines[i].len() > 0 {
            assert(lines[i].subrange(0, 1)[0] == lines[i][0]);
            if lines[i][0] == '!' {
                assert(lines[i].subrange(0, 1) =~= "!"@);
            }
        }
    }
}

/// A merge went well where git says so; conflicts come before changes that are in the way;
/// anything else is tried again.
pub proof fn law_how_a_merge_went(ran: bool, success: bool, stderr: Seq<char>, stdout: Seq<char>)
    ensures
        ({
            let v = merge_verdict(ran, success, stderr, stdout);
            let all = stderr + stdout;
            let conflict = text::has_text(all, "CONFLICT"@);
            let blocked = text::has_text(all, "local changes"@) || text::has_text(
                all,
                "would be overwritten by merge"@,
            );
            &&& v == MergeVerdict::Merged <==> ran && success
            &&& v == MergeVerdict::Conflict <==> ran && !success && conflict
            &&& v == MergeVerdict::Blocked <==> ran && !success && !conflict && blocked
            &&& v == MergeVerdict::Retry <==> !ran || (!success && !conflict && !blocked)
        }),
{
}

/// The waiting time is the unit after the first failure, doubles with every further one,
/// and stays at sixteen times the unit.
pub proof fn law_waiting_doubles(attempt: u64, unit: u64)
    requires
        1 <= attempt < u64::MAX,
        unit * 16 <= u64::MAX,
    ensures
        waiting_time(1, unit) == unit,
        waiting_time((attempt + 1) as u64, unit) == (if waiting_time(attempt, unit) < unit * 16 {
            2 * waiting_time(attempt, unit)
        } else {
            unit * 16
        }),
        attempt >= 5 ==> waiting_time(attempt, unit) == unit * 16,
{
}

/// The seconds that are shown are whole ones, at least one while there is anything to wait.
pub proof fn law_seconds_are_whole(wait_ms: u64)
    ensures
        seconds_shown(wait_ms) == 0 <==> wait_ms == 0,
        wait_ms >= 1000 ==> seconds_shown(wait_ms) * 1000 <= wait_ms < (seconds_shown(wait_ms) + 1)
            * 1000,
        0 < wait_ms < 1000 ==> seconds_shown(wait_ms) == 1,
{
}

} // verus!
