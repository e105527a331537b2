//! A task from its start to its end: what it refuses, what it records, what it says.

use crate::archive::listing::QUARANTINE_DIR_NAME;
use crate::engine::scope;
use crate::text;
use vstd::prelude::*;

verus! {

/// Why a directory with a `.git` in it is not processed at all.
pub const ROOT_GIT_MESSAGE: &'static str =
    "所选根目录直接含 .git（Git 仓库或工作树）；按 H-06 整次处理不执行。请改选不含 .git 的子目录后重试。";

/// A line of the log.
pub open spec fn log_text(
    phase: Seq<char>,
    source: Seq<char>,
    target: Seq<char>,
    result: Seq<char>,
    reason: Seq<char>,
) -> Seq<char> {
    let arrow = if target.len() == 0 {
        Seq::empty()
    } else {
        " → "@ + target
    };
    "["@ + phase + "] "@ + result + " | "@ + source + arrow + " | "@ + reason
}

/// Writes a line of the log.
pub fn log_line(phase: &str, source: &str, target: &str, result: &str, reason: &str) -> (r: String)
    ensures
        r@ == log_text(phase@, source@, target@, result@, reason@),
{
    let mut s = "[".to_owned();
    s.append(phase);
    s.append("] ");
    s.append(result);
    s.append(" | ");
    s.append(source);
    if !target.is_empty() {
        s.append(" → ");
        s.append(target);
    }
    assert(s@ =~= "["@ + phase@ + "] "@ + result@ + " | "@ + source@ + (if target@.len() == 0 {
        Seq::empty()
    } else {
        " → "@ + target@
    }));
    s.append(" | ");
    s.append(reason);
    s
}

/// The seconds after which a left-over link of a crashed run is removed.
pub const STALE_SECONDS: u64 = 24 * 3600;

/// A file is a left-over link of a crashed run: by its name, its age and because its
/// content has another name.
pub open spec fn is_stale_link(
    name: Seq<char>,
    is_file: bool,
    age_seconds: Option<u64>,
    links: Option<u64>,
) -> bool {
    &&& text::has_prefix(name, scope::LINK_PREFIX@)
    &&& is_file
    &&& age_seconds matches Some(a) && a > STALE_SECONDS
    &&& links matches Some(n) && n >= 2
}

/// Whether a file is a left-over link of a crashed run that can be removed. The age and
/// the number of names are missing where they cannot be read.
pub fn clean_orphan_link_temps(
    name: &str,
    is_file: bool,
    age_seconds: Option<u64>,
    links: Option<u64>,
) -> (r: bool)
    ensures
        r == is_stale_link(name@, is_file, age_seconds, links),
{
    if !text::starts_with(name, scope::LINK_PREFIX) || !is_file {
        return false;
    }
    let old_enough: bool = match age_seconds {
        Some(a) => a > STALE_SECONDS,
        None => false,
    };
    let linked: bool = match links {
        Some(n) => n >= 2,
        None => false,
    };
    old_enough && linked
}

/// A file whose content has no other name is never removed as a left-over.
pub proof fn law_only_links_are_left_overs(
    name: Seq<char>,
    is_file: bool,
    age_seconds: Option<u64>,
    links: u64,
)
    requires
        links < 2,
    ensures
        !is_stale_link(name, is_file, age_seconds, Some(links)),
{
}

/// The state of a task in its records.
#[derive(Clone, Copy, Debug, PartialEq, Eq, Structural)]
pub enum TaskStatus {
    Analyzing,
    Ready,
    Executing,
    Finished,
    Cancelled,
    Failed,
}

impl TaskStatus {
    /// The word that is stored.
    pub open spec fn word(self) -> Seq<char> {
        match self {
            TaskStatus::Analyzing => "analyzing"@,
            TaskStatus::Ready => "ready"@,
            TaskStatus::Executing => "executing"@,
            TaskStatus::Finished => "finished"@,
            TaskStatus::Cancelled => "cancelled"@,
            TaskStatus::Failed => "failed"@,
        }
    }

    /// The word that is stored.
    pub fn text(&self) -> (r: &'static str)
        ensures
            r@ == self.word(),
    {
        match self {
            TaskStatus::Analyzing => "analyzing",
            TaskStatus::Ready => "ready",
            TaskStatus::Executing => "executing",
            TaskStatus::Finished => "finished",
            TaskStatus::Cancelled => "cancelled",
            TaskStatus::Failed => "failed",
        }
    }
}

/// The tasks that there are.
#[derive(Clone, Copy, Debug, PartialEq, Eq, Structural)]
pub enum TaskKind {
    /// Analyse a directory and make a plan.
    Prepare,
    /// Carry a plan out.
    Apply,
    /// Extract the archives of a directory.
    Extract,
}

/// The state of a task while it runs.
pub open spec fn running_status(kind: TaskKind) -> TaskStatus {
    match kind {
        TaskKind::Prepare => TaskStatus::Analyzing,
        TaskKind::Apply => TaskStatus::Executing,
        TaskKind::Extract => TaskStatus::Executing,
    }
}

/// The state of a task when it has ended. A cancelled task is not a failed one.
pub open spec fn end_status(kind: TaskKind, ok: bool, cancelled: bool) -> TaskStatus {
    if ok {
        match kind {
            TaskKind::Prepare => TaskStatus::Ready,
            TaskKind::Apply => TaskStatus::Finished,
            TaskKind::Extract => TaskStatus::Finished,
        }
    } else if cancelled {
        TaskStatus::Cancelled
    } else {
        TaskStatus::Failed
    }
}

/// The state of a task while it runs.
pub fn status_at_start(kind: TaskKind) -> (r: TaskStatus)
    ensures
        r == running_status(kind),
{
    match kind {
        TaskKind::Prepare => TaskStatus::Analyzing,
        TaskKind::Apply => TaskStatus::Executing,
        TaskKind::Extract => TaskStatus::Executing,
    }
}

/// The state of a task when it has ended.
pub fn status_at_end(kind: TaskKind, ok: bool, cancelled: bool) -> (r: TaskStatus)
    ensures
        r == end_status(kind, ok, cancelled),
{
    if ok {
        match kind {
            TaskKind::Prepare => TaskStatus::Ready,
            TaskKind::Apply => TaskStatus::Finished,
            TaskKind::Extract => TaskStatus::Finished,
        }
    } else if cancelled {
        TaskStatus::Cancelled
    } else {
        TaskStatus::Failed
    }
}

/// The word of the log for a task that did not succeed.
pub fn failure_word(cancelled: bool) -> (r: &'static str)
    ensures
        r@ == (if cancelled {
            "已取消"@
        } else {
            "失败"@
        }),
{
    if cancelled {
        "已取消"
    } else {
        "失败"
    }
}

/// A plan is carried out at most once: what its task ends with is not what carrying it
/// out starts from.
pub proof fn law_a_plan_runs_once(ok: bool, cancelled: bool)
    ensures
        end_status(TaskKind::Apply, ok, cancelled) != TaskStatus::Ready,
        running_status(TaskKind::Apply) != TaskStatus::Ready,
{
}

/// Why a plan is not carried out.
#[derive(Clone, Copy, Debug, PartialEq, Eq, Structural)]
pub enum ApplyRefusal {
    /// The directory is no task.
    NoTask,
    /// The task has no place for its lock.
    NoLock(LockError),
    /// The task does not wait for a confirmation.
    NotReady,
    /// The chosen directory is no longer where it was.
    RootMoved,
}

/// What is known of a task before its plan is carried out.
#[derive(Debug)]
pub struct ApplyFacts {
    pub has_records: bool,
    pub lock: Result<LockDir, LockError>,
    pub status: String,
    /// The chosen directory as it was recorded.
    pub recorded_root: String,
    /// The chosen directory as it is found now.
    pub current_root: String,
}

/// Whether a plan may be carried out.
pub open spec fn apply_verdict(f: ApplyFacts) -> Result<LockDir, ApplyRefusal> {
    if !f.has_records {
        Err(ApplyRefusal::NoTask)
    } else {
        match f.lock {
            Err(e) => Err(ApplyRefusal::NoLock(e)),
            Ok(dir) => if f.status@ != "ready"@ {
                Err(ApplyRefusal::NotReady)
            } else if f.current_root@ != f.recorded_root@ {
                Err(ApplyRefusal::RootMoved)
            } else {
                Ok(dir)
            },
        }
    }
}

/// Decides whether a plan may be carried out: only one that waits for a confirmation,
/// of a directory that is still where it was.
pub fn apply(f: &ApplyFacts) -> (r: Result<LockDir, ApplyRefusal>)
    ensures
        r == apply_verdict(*f),
{
    if !f.has_records {
        return Err(ApplyRefusal::NoTask);
    }
    match f.lock {
        Err(e) => Err(ApplyRefusal::NoLock(e)),
        Ok(dir) => {
            if !text::same(f.status.as_str(), "ready") {
                return Err(ApplyRefusal::NotReady);
            }
            if !text::same(f.current_root.as_str(), f.recorded_root.as_str()) {
                return Err(ApplyRefusal::RootMoved);
            }
            Ok(dir)
        },
    }
}

/// The message of a refusal.
pub open spec fn refusal_text(e: ApplyRefusal, f: ApplyFacts) -> Seq<char> {
    match e {
        ApplyRefusal::NoTask =>
            "目录里没有 task.sqlite3；请选择「开始解压与分析」生成的任务目录"@,
        ApplyRefusal::NoLock(LockError::InvalidStructure) => "任务目录结构无效"@,
        ApplyRefusal::NoLock(LockError::StrangePlace) =>
            "任务库缺少有效的全局锁目录记录且任务目录已离开原位置；为避免互斥失效，请重新「解压与分析」后再执行"@,
        ApplyRefusal::NotReady => "任务不是待确认状态（"@ + f.status@
            + "）；请重新扫描，不会盲目重放旧计划"@,
        ApplyRefusal::RootMoved => "目录位置已改变或被链接替换（"@ + f.recorded_root@
            + "）；请重新扫描生成新计划后再执行"@,
    }
}

/// The message of a refusal.
pub fn refusal_message(e: ApplyRefusal, f: &ApplyFacts) -> (r: String)
    ensures
        r@ == refusal_text(e, *f),
{
    match e {
        ApplyRefusal::NoTask =>
            "目录里没有 task.sqlite3；请选择「开始解压与分析」生成的任务目录".to_owned(),
        ApplyRefusal::NoLock(LockError::InvalidStructure) => "任务目录结构无效".to_owned(),
        ApplyRefusal::NoLock(LockError::StrangePlace) =>
            "任务库缺少有效的全局锁目录记录且任务目录已离开原位置；为避免互斥失效，请重新「解压与分析」后再执行".to_owned(),
        ApplyRefusal::NotReady => {
            let mut s = "任务不是待确认状态（".to_owned();
            s.append(f.status.as_str());
            s.append("）；请重新扫描，不会盲目重放旧计划");
            s
        },
        ApplyRefusal::RootMoved => {
            let mut s = "目录位置已改变或被链接替换（".to_owned();
            s.append(f.recorded_root.as_str());
            s.append("）；请重新扫描生成新计划后再执行");
            s
        },
    }
}

/// A component of a path.
#[derive(Debug)]
pub enum PathPart {
    /// A drive or a share.
    Prefix(String),
    Root,
    /// `.` or `..`.
    Dots,
    Normal(String),
}

/// Where the lock of a task lies.
#[derive(Clone, Copy, Debug, PartialEq, Eq, Structural)]
pub enum LockDir {
    /// In the recorded directory.
    Recorded,
    /// In the directory with so many components of the task's path.
    Above(usize),
}

/// Why a task has no place for its lock.
#[derive(Clone, Copy, Debug, PartialEq, Eq, Structural)]
pub enum LockError {
    InvalidStructure,
    StrangePlace,
}

/// The number of components of the directory above; none above a root or a drive.
pub open spec fn parent_len(path: Seq<PathPart>, n: int) -> Option<int> {
    if n <= 0 {
        None
    } else {
        match path[n - 1] {
            PathPart::Prefix(_) => None,
            PathPart::Root => None,
            PathPart::Dots => Some(n - 1),
            PathPart::Normal(_) => Some(n - 1),
        }
    }
}

/// Where the lock of a task lies: in the recorded directory as long as it exists, else
/// two levels above the task, provided that the task lies in a directory `tasks` and
/// that the place is not the top of a drive or a share.
pub open spec fn lock_place(directory: Seq<PathPart>, recorded_exists: bool) -> Result<
    LockDir,
    LockError,
> {
    if recorded_exists {
        Ok(LockDir::Recorded)
    } else {
        match parent_len(directory, directory.len() as int) {
            None => Err(LockError::InvalidStructure),
            Some(p) => match parent_len(directory, p) {
                None => Err(LockError::InvalidStructure),
                Some(q) => if (exists|i: int| 0 <= i < q && #[trigger] directory[i] is Normal) && (
                directory[p - 1] matches PathPart::Normal(name) && name@ == "tasks"@) {
                    Ok(LockDir::Above(q as usize))
                } else {
                    Err(LockError::StrangePlace)
                },
            },
        }
    }
}

fn parent_of(path: &Vec<PathPart>, n: usize) -> (r: Option<usize>)
    requires
        n <= path@.len(),
    ensures
        match r {
            Some(k) => parent_len(path@, n as int) == Some(k as int) && k < n,
            None => parent_len(path@, n as int) is None,
        },
{
    if n == 0 {
        return None;
    }
    match &path[n - 1] {
        PathPart::Prefix(_) => None,
        PathPart::Root => None,
        PathPart::Dots => Some(n - 1),
        PathPart::Normal(_) => Some(n - 1),
    }
}

/// Where the lock of a task lies. `recorded_exists` says whether the directory that was
/// recorded for it is there.
pub fn lock_dir_for(directory: &Vec<PathPart>, recorded_exists: bool) -> (r: Result<
    LockDir,
    LockError,
>)
    ensures
        r == lock_place(directory@, recorded_exists),
{
    if recorded_exists {
        return Ok(LockDir::Recorded);
    }
    let p: usize = match parent_of(directory, directory.len()) {
        None => return Err(LockError::InvalidStructure),
        Some(p) => p,
    };
    let q: usize = match parent_of(directory, p) {
        None => return Err(LockError::InvalidStructure),
        Some(q) => q,
    };
    let mut named: bool = false;
    let mut i: usize = 0;
    while i < q
        invariant
            i <= q <= directory@.len(),
            named == exists|k: int| 0 <= k < i && #[trigger] directory@[k] is Normal,
        decreases q - i,
    {
        if let PathPart::Normal(_) = &directory[i] {
            named = true;
            assert(directory@[i as int] is Normal);
        }
        i = i + 1;
    }
    let in_tasks: bool = match &directory[p - 1] {
        PathPart::Normal(name) => text::same(name.as_str(), "tasks"),
        _ => false,
    };
    if named && in_tasks {
        Ok(LockDir::Above(q))
    } else {
        Err(LockError::StrangePlace)
    }
}

/// The top of a drive or a share never holds a lock.
pub proof fn law_no_lock_at_the_top(directory: Seq<PathPart>, k: usize)
    requires
        lock_place(directory, false) == Ok::<LockDir, LockError>(LockDir::Above(k)),
        directory.len() <= usize::MAX,
    ensures
        k + 2 == directory.len(),
        exists|i: int| 0 <= i < k && #[trigger] directory[i] is Normal,
{
}

/// The line about the end of an extraction.
pub open spec fn extract_end_text(ok: nat, failed: nat) -> Seq<char> {
    "解压结束：成功 "@ + text::decimal(ok)
        + " 包（成功原包及分卷已永久删除）；未完全解开并移入「"@ + QUARANTINE_DIR_NAME@ + "」 "@
        + text::decimal(failed) + " 包"@
}

/// The line about the end of an extraction.
pub fn extract_end_line(ok: u64, failed: u64) -> (r: String)
    ensures
        r@ == extract_end_text(ok as nat, failed as nat),
{
    let mut s = "解压结束：成功 ".to_owned();
    s.append(text::number(ok).as_str());
    s.append(" 包（成功原包及分卷已永久删除）；未完全解开并移入「");
    s.append(QUARANTINE_DIR_NAME);
    s.append("」 ");
    s.append(text::number(failed).as_str());
    s.append(" 包");
    s
}

/// How a task goes on.
#[derive(Clone, Copy, Debug, PartialEq, Eq, Structural)]
pub enum TaskStep {
    /// Check the settings.
    Validate,
    /// Look whether the chosen directory holds a `.git`.
    CheckRoot,
    /// Take the lock.
    Lock,
    /// Create the records.
    Create,
    Scan,
    /// Compute hashes.
    Hash,
    /// Make the plan.
    Plan,
    /// Extract the archives.
    Extract,
    /// Nothing was found to extract.
    NothingFound,
    /// The task has ended in this state.
    End(TaskStatus),
    /// The task was refused before there were any records.
    Refused,
}

/// How an analysis or an extraction goes on after a step. `archives` says whether there
/// are archives to extract.
pub open spec fn next_step(
    kind: TaskKind,
    step: TaskStep,
    ok: bool,
    cancelled: bool,
    archives: bool,
) -> TaskStep {
    match step {
        TaskStep::Validate => if ok {
            TaskStep::CheckRoot
        } else {
            TaskStep::Refused
        },
        TaskStep::CheckRoot => if ok {
            TaskStep::Lock
        } else {
            TaskStep::Refused
        },
        TaskStep::Lock => if ok {
            TaskStep::Create
        } else {
            TaskStep::Refused
        },
        TaskStep::Create => if ok {
            TaskStep::Scan
        } else {
            TaskStep::Refused
        },
        TaskStep::Scan => if !ok {
            TaskStep::End(end_status(kind, false, cancelled))
        } else if kind == TaskKind::Prepare {
            TaskStep::Hash
        } else if archives {
            TaskStep::Extract
        } else {
            TaskStep::NothingFound
        },
        TaskStep::Hash => if ok {
            TaskStep::Plan
        } else {
            TaskStep::End(end_status(kind, false, cancelled))
        },
        TaskStep::Plan => TaskStep::End(end_status(kind, ok, cancelled)),
        TaskStep::Extract => TaskStep::End(end_status(kind, ok, cancelled)),
        TaskStep::NothingFound => TaskStep::End(end_status(kind, ok, cancelled)),
        TaskStep::End(s) => TaskStep::End(s),
        TaskStep::Refused => TaskStep::Refused,
    }
}

/// How an analysis or an extraction goes on after a step.
pub fn run_task(kind: TaskKind, step: TaskStep, ok: bool, cancelled: bool, archives: bool) -> (r:
    TaskStep)
    ensures
        r == next_step(kind, step, ok, cancelled, archives),
{
    match step {
        TaskStep::Validate => if ok {
            TaskStep::CheckRoot
        } else {
            TaskStep::Refused
        },
        TaskStep::CheckRoot => if ok {
            TaskStep::Lock
        } else {
            TaskStep::Refused
        },
        TaskStep::Lock => if ok {
            TaskStep::Create
        } else {
            TaskStep::Refused
        },
        TaskStep::Create => if ok {
            TaskStep::Scan
        } else {
            TaskStep::Refused
        },
        TaskStep::Scan => {
            if !ok {
                return TaskStep::End(status_at_end(kind, false, cancelled));
            }
            match kind {
                TaskKind::Prepare => TaskStep::Hash,
                _ => if archives {
                    TaskStep::Extract
                } else {
                    TaskStep::NothingFound
                },
            }
        },
        TaskStep::Hash => if ok {
            TaskStep::Plan
        } else {
            TaskStep::End(status_at_end(kind, false, cancelled))
        },
        TaskStep::Plan => TaskStep::End(status_at_end(kind, ok, cancelled)),
        TaskStep::Extract => TaskStep::End(status_at_end(kind, ok, cancelled)),
        TaskStep::NothingFound => TaskStep::End(status_at_end(kind, ok, cancelled)),
        TaskStep::End(s) => TaskStep::End(s),
        TaskStep::Refused => TaskStep::Refused,
    }
}

/// Nothing is created for a chosen directory that holds a `.git`, or whose lock cannot
/// be taken: creating comes after both, and only where they went well.
pub proof fn law_records_come_after_the_checks(
    kind: TaskKind,
    step: TaskStep,
    ok: bool,
    cancelled: bool,
    archives: bool,
)
    requires
        next_step(kind, step, ok, cancelled, archives) == TaskStep::Create,
    ensures
        step == TaskStep::Lock,
        ok,
{
}

/// The analysis never extracts: its steps only read.
pub proof fn law_analysis_does_not_extract(step: TaskStep, ok: bool, cancelled: bool, archives: bool)
    requires
        step != TaskStep::Extract,
    ensures
        next_step(TaskKind::Prepare, step, ok, cancelled, archives) != TaskStep::Extract,
{
}

/// A left-over link is one by its name, a file, older than a day, whose content has another
/// name; where age or names are not known nothing is removed.
pub proof fn law_which_links_are_left_over(
    name: Seq<char>,
    is_file: bool,
    age: Option<u64>,
    links: Option<u64>,
)
    ensures
        is_stale_link(name, is_file, age, links) <==> text::has_prefix(name, ".jchtools-link-"@)
            && is_file && (age matches Some(a) && a > 86400) && (links matches Some(n) && n > 1),
{
}

/// A task that went well ends ready where it was an analysis, and finished otherwise; one
/// that did not is cancelled where the user cancelled it and failed otherwise.
pub proof fn law_how_tasks_end(kind: TaskKind, ok: bool, cancelled: bool)
    ensures
        end_status(kind, ok, cancelled) == TaskStatus::Ready <==> ok && kind == TaskKind::Prepare,
        end_status(kind, ok, cancelled) == TaskStatus::Finished <==> ok && kind
            != TaskKind::Prepare,
        end_status(kind, ok, cancelled) == TaskStatus::Cancelled <==> !ok && cancelled,
        end_status(kind, ok, cancelled) == TaskStatus::Failed <==> !ok && !cancelled,
        running_status(kind) == TaskStatus::Analyzing <==> kind == TaskKind::Prepare,
        running_status(kind) == TaskStatus::Executing <==> kind != TaskKind::Prepare,
{
}

/// The words that are stored tell the states apart.
pub proof fn law_stored_words_tell_states_apart(a: TaskStatus, b: TaskStatus)
    ensures
        a.word() == b.word() ==> a == b,
        a.word() == "ready"@ <==> a == TaskStatus::Ready,
{
    reveal_strlit("analyzing");
    reveal_strlit("ready");
    reveal_strlit("executing");
    reveal_strlit("finished");
    reveal_strlit("cancelled");
    reveal_strlit("failed");
    assert("finished"@[1] == 'i' && "failed"@[1] == 'a');
    assert("analyzing"@[0] == 'a' && "ready"@[0] == 'r' && "executing"@[0] == 'e'
        && "finished"@[0] == 'f' && "cancelled"@[0] == 'c' && "failed"@[0] == 'f');
}

/// A plan is carried out exactly where there are records, a place for the lock, a plan that
/// waits for its confirmation, and the chosen directory where it was; the first of these
/// that is missing is told.
pub proof fn law_which_plans_are_carried_out(f: ApplyFacts)
    ensures
        apply_verdict(f) is Ok <==> f.has_records && f.lock is Ok && f.status@ == "ready"@
            && f.recorded_root@ == f.current_root@,
        apply_verdict(f) matches Ok(dir) ==> f.lock == Ok::<LockDir, LockError>(dir),
        apply_verdict(f) == Err::<LockDir, ApplyRefusal>(ApplyRefusal::NoTask) <==> !f.has_records,
        apply_verdict(f) == Err::<LockDir, ApplyRefusal>(ApplyRefusal::NotReady) <==> f.has_records
            && f.lock is Ok && f.status@ != "ready"@,
        apply_verdict(f) == Err::<LockDir, ApplyRefusal>(ApplyRefusal::RootMoved)
            <==> f.has_records && f.lock is Ok && f.status@ == "ready"@ && f.recorded_root@
            != f.current_root@,
        f.has_records ==> (f.lock matches Err(e) ==> apply_verdict(f) == Err::<
            LockDir,
            ApplyRefusal,
        >(ApplyRefusal::NoLock(e))),
{
}

/// The lock lies in the recorded directory as long as there is one. Otherwise it lies two
/// levels above a task that lies in a directory `tasks`, if there is a named directory so
/// far up; any other task has none.
pub proof fn law_where_the_lock_lies(directory: Seq<PathPart>, k: usize)
    requires
        directory.len() <= usize::MAX,
    ensures
        lock_place(directory, true) == Ok::<LockDir, LockError>(LockDir::Recorded),
        lock_place(directory, false) != Ok::<LockDir, LockError>(LockDir::Recorded),
        lock_place(directory, false) == Ok::<LockDir, LockError>(LockDir::Above(k)) ==> {
            &&& directory.len() == k + 2
            &&& directory[k as int] matches PathPart::Normal(name) && name@ == "tasks"@
            &&& directory[k + 1] is Normal || directory[k + 1] is Dots
        },
        directory.len() == k + 2 && (directory[k as int] matches PathPart::Normal(name) && name@
            == "tasks"@) && directory[k + 1] is Normal && (exists|i: int|
            0 <= i < k && #[trigger] directory[i] is Normal) ==> lock_place(directory, false)
            == Ok::<LockDir, LockError>(LockDir::Above(k)),
{
}

/// An analysis checks the settings and the directory, takes the lock, makes its records,
/// scans, hashes and plans, and is ready in the end.
pub proof fn law_the_steps_of_an_analysis(archives: bool)
    ensures
        ({
            let kind = TaskKind::Prepare;
            let a = next_step(kind, TaskStep::Validate, true, false, archives);
            let b = next_step(kind, a, true, false, archives);
            let c = next_step(kind, b, true, false, archives);
            let d = next_step(kind, c, true, false, archives);
            let e = next_step(kind, d, true, false, archives);
            let g = next_step(kind, e, true, false, archives);
            let h = next_step(kind, g, true, false, archives);
            &&& a == TaskStep::CheckRoot && b == TaskStep::Lock && c == TaskStep::Create
            &&& d == TaskStep::Scan && e == TaskStep::Hash && g == TaskStep::Plan
            &&& h == TaskStep::End(TaskStatus::Ready)
        }),
{
}

/// An extraction does the same up to the scan, and extracts where there are archives.
pub proof fn law_the_steps_of_an_extraction(archives: bool)
    ensures
        ({
            let kind = TaskKind::Extract;
            let a = next_step(kind, TaskStep::Validate, true, false, archives);
            let b = next_step(kind, a, true, false, archives);
            let c = next_step(kind, b, true, false, archives);
            let d = next_step(kind, c, true, false, archives);
            let e = next_step(kind, d, true, false, archives);
            let g = next_step(kind, e, true, false, archives);
            &&& a == TaskStep::CheckRoot && b == TaskStep::Lock && c == TaskStep::Create
            &&& d == TaskStep::Scan
            &&& e == (if archives {
                TaskStep::Extract
            } else {
                TaskStep::NothingFound
            })
            &&& g == TaskStep::End(TaskStatus::Finished)
        }),
{
}

/// A step that fails ends the task: before there are records it is refused, from then on
/// it has failed or was cancelled; and no step after that.
pub proof fn law_failed_steps_end_the_task(
    kind: TaskKind,
    step: TaskStep,
    cancelled: bool,
    archives: bool,
    ok: bool,
)
    ensures
        ({
            let after = next_step(kind, step, false, cancelled, archives);
            let early = step == TaskStep::Validate || step == TaskStep::CheckRoot || step
                == TaskStep::Lock || step == TaskStep::Create;
            &&& early ==> after == TaskStep::Refused
            &&& step == TaskStep::Scan || step == TaskStep::Hash || step == TaskStep::Plan || step
                == TaskStep::Extract || step == TaskStep::NothingFound ==> after == TaskStep::End(
                if cancelled {
                    TaskStatus::Cancelled
                } else {
                    TaskStatus::Failed
                },
            )
            &&& step is End || step == TaskStep::Refused ==> next_step(
                kind,
                step,
                ok,
                cancelled,
                archives,
            ) == step
        }),
{
}

/// A line of the log names the target only where there is one.
pub proof fn law_lines_of_the_log(
    phase: Seq<char>,
    source: Seq<char>,
    target: Seq<char>,
    result: Seq<char>,
    reason: Seq<char>,
)
    ensures
        target.len() == 0 ==> log_text(phase, source, target, result, reason) == "["@ + phase
            + "] "@ + result + " | "@ + source + " | "@ + reason,
        target.len() > 0 ==> log_text(phase, source, target, result, reason) == "["@ + phase
            + "] "@ + result + " | "@ + source + " → "@ + target + " | "@ + reason,
{
    let head = "["@ + phase + "] "@ + result + " | "@ + source;
    assert(head + Seq::<char>::empty() =~= head);
    assert(head + (" → "@ + target) =~= head + " → "@ + target);
}

} // verus!
