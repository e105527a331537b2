//! A whole run: the checks at its start, one change after the other, and what is
//! reported at its end.

use crate::git_tools::change::{ChangeEnd, FatalReason};
use crate::text;
use vstd::prelude::*;

verus! {

/// How a run goes on.
#[derive(Clone, Copy, Debug, PartialEq, Eq, Structural)]
pub enum RunStage {
    /// Look at the repository.
    Inspect,
    /// Look whether it is in the middle of something.
    Middle,
    /// Complete a merge whose conflicts are resolved.
    FinishMerge,
    /// Push the completed merge.
    PushMerge,
    /// Read the changes.
    Scan,
    /// Work on the change with this number.
    Change(u64),
    End(RunEnd),
}

/// How a run ended.
#[derive(Clone, Copy, Debug, PartialEq, Eq, Structural)]
pub enum RunEnd {
    /// The repository cannot be worked on.
    CannotStart,
    /// It could not be found out what it is in the middle of.
    MiddleUnknown,
    /// It is in the middle of something else than a merge.
    MiddleOther,
    /// There are conflicts.
    Unresolved,
    /// The merge could not be completed.
    MergeFailed,
    /// The completed merge was not pushed.
    MergePush(ChangeEnd),
    /// Stopped before the first change.
    StoppedEarly,
    ScanFailed,
    /// There are no changes.
    NothingToDo,
    /// Stopped, with so many changes done.
    Stopped(u64),
    Conflict(u64),
    Fatal(u64, FatalReason),
    /// All changes are done.
    Complete,
}

/// What the stage of a run came to.
#[derive(Clone, Copy, Debug, PartialEq, Eq, Structural)]
pub enum RunEvent {
    Inspected(bool),
    /// What the repository is in the middle of.
    Middle(MiddleKind),
    Merged(bool),
    MergePushed(ChangeEnd),
    /// The number of changes; nothing where they could not be read.
    Scanned(Option<u64>),
    Changed(ChangeEnd),
}

/// What a repository is in the middle of.
#[derive(Clone, Copy, Debug, PartialEq, Eq, Structural)]
pub enum MiddleKind {
    Clean,
    /// A merge whose conflicts are resolved.
    Resolved,
    /// A merge with conflicts.
    Unresolved,
    Other,
    Unknown,
}

/// A run on its way: its stage, and the number of changes.
#[derive(Clone, Copy, Debug, PartialEq, Eq, Structural)]
pub struct GitRun {
    pub stage: RunStage,
    pub total: u64,
}

/// Goes on to the reading of changes, unless the run was stopped.
pub open spec fn to_scan(cancelled: bool) -> RunStage {
    if cancelled {
        RunStage::End(RunEnd::StoppedEarly)
    } else {
        RunStage::Scan
    }
}

/// Goes on to a change, or to the end.
pub open spec fn to_change(i: u64, total: u64, cancelled: bool) -> RunStage {
    if cancelled {
        RunStage::End(RunEnd::Stopped(i))
    } else if i >= total {
        RunStage::End(RunEnd::Complete)
    } else {
        RunStage::Change(i)
    }
}

/// Where a run goes on. An event that does not belong to the stage changes nothing.
pub open spec fn run_next(run: GitRun, event: RunEvent, cancelled: bool) -> GitRun {
    let to = |stage: RunStage| GitRun { stage, ..run };
    match (run.stage, event) {
        (RunStage::Inspect, RunEvent::Inspected(ok)) => if ok {
            to(RunStage::Middle)
        } else {
            to(RunStage::End(RunEnd::CannotStart))
        },
        (RunStage::Middle, RunEvent::Middle(kind)) => match kind {
            MiddleKind::Clean => to(to_scan(cancelled)),
            MiddleKind::Resolved => to(RunStage::FinishMerge),
            MiddleKind::Unresolved => to(RunStage::End(RunEnd::Unresolved)),
            MiddleKind::Other => to(RunStage::End(RunEnd::MiddleOther)),
            MiddleKind::Unknown => to(RunStage::End(RunEnd::MiddleUnknown)),
        },
        (RunStage::FinishMerge, RunEvent::Merged(ok)) => if ok {
            to(RunStage::PushMerge)
        } else {
            to(RunStage::End(RunEnd::MergeFailed))
        },
        (RunStage::PushMerge, RunEvent::MergePushed(end)) => if end == ChangeEnd::Done {
            to(to_scan(cancelled))
        } else {
            to(RunStage::End(RunEnd::MergePush(end)))
        },
        (RunStage::Scan, RunEvent::Scanned(total)) => match total {
            None => to(RunStage::End(RunEnd::ScanFailed)),
            Some(n) => GitRun {
                stage: if n == 0 {
                    RunStage::End(RunEnd::NothingToDo)
                } else {
                    to_change(0, n, cancelled)
                },
                total: n,
            },
        },
        (RunStage::Change(i), RunEvent::Changed(end)) => match end {
            ChangeEnd::Done => to(to_change((i + 1) as u64, run.total, cancelled)),
            ChangeEnd::Cancelled => to(RunStage::End(RunEnd::Stopped(i))),
            ChangeEnd::Conflict => to(RunStage::End(RunEnd::Conflict(i))),
            ChangeEnd::Fatal(r) => to(RunStage::End(RunEnd::Fatal(i, r))),
        },
        _ => run,
    }
}

fn scan_stage(cancelled: bool) -> (r: RunStage)
    ensures
        r == to_scan(cancelled),
{
    if cancelled {
        RunStage::End(RunEnd::StoppedEarly)
    } else {
        RunStage::Scan
    }
}

fn change_stage(i: u64, total: u64, cancelled: bool) -> (r: RunStage)
    ensures
        r == to_change(i, total, cancelled),
{
    if cancelled {
        RunStage::End(RunEnd::Stopped(i))
    } else if i >= total {
        RunStage::End(RunEnd::Complete)
    } else {
        RunStage::Change(i)
    }
}

/// The change that is worked on is one of the changes.
pub open spec fn is_sound(run: GitRun) -> bool {
    run.stage matches RunStage::Change(i) ==> i < run.total
}

/// Starts a run.
pub fn start() -> (r: GitRun)
    ensures
        r == (GitRun { stage: RunStage::Inspect, total: 0 }),
        is_sound(r),
{
    GitRun { stage: RunStage::Inspect, total: 0 }
}

/// Where a run goes on after an event.
pub fn run(state: &GitRun, event: RunEvent, cancelled: bool) -> (r: GitRun)
    requires
        is_sound(*state),
    ensures
        r == run_next(*state, event, cancelled),
        is_sound(r),
{
    let total: u64 = state.total;
    match state.stage {
        RunStage::Inspect => match event {
            RunEvent::Inspected(true) => GitRun { stage: RunStage::Middle, total },
            RunEvent::Inspected(false) => GitRun {
                stage: RunStage::End(RunEnd::CannotStart),
                total,
            },
            _ => *state,
        },
        RunStage::Middle => match event {
            RunEvent::Middle(MiddleKind::Clean) => GitRun { stage: scan_stage(cancelled), total },
            RunEvent::Middle(MiddleKind::Resolved) => GitRun {
                stage: RunStage::FinishMerge,
                total,
            },
            RunEvent::Middle(MiddleKind::Unresolved) => GitRun {
                stage: RunStage::End(RunEnd::Unresolved),
                total,
            },
            RunEvent::Middle(MiddleKind::Other) => GitRun {
                stage: RunStage::End(RunEnd::MiddleOther),
                total,
            },
            RunEvent::Middle(MiddleKind::Unknown) => GitRun {
                stage: RunStage::End(RunEnd::MiddleUnknown),
                total,
            },
            _ => *state,
        },
        RunStage::FinishMerge => match event {
            RunEvent::Merged(true) => GitRun { stage: RunStage::PushMerge, total },
            RunEvent::Merged(false) => GitRun {
                stage: RunStage::End(RunEnd::MergeFailed),
                total,
            },
            _ => *state,
        },
        RunStage::PushMerge => match event {
            RunEvent::MergePushed(ChangeEnd::Done) => GitRun {
                stage: scan_stage(cancelled),
                total,
            },
            RunEvent::MergePushed(end) => GitRun {
                stage: RunStage::End(RunEnd::MergePush(end)),
                total,
            },
            _ => *state,
        },
        RunStage::Scan => match event {
            RunEvent::Scanned(None) => GitRun { stage: RunStage::End(RunEnd::ScanFailed), total },
            RunEvent::Scanned(Some(n)) => GitRun {
                stage: if n == 0 {
                    RunStage::End(RunEnd::NothingToDo)
                } else {
                    change_stage(0, n, cancelled)
                },
                total: n,
            },
            _ => *state,
        },
        RunStage::Change(i) => match event {
            RunEvent::Changed(ChangeEnd::Done) => GitRun {
                stage: change_stage(i + 1, total, cancelled),
                total,
            },
            RunEvent::Changed(ChangeEnd::Cancelled) => GitRun {
                stage: RunStage::End(RunEnd::Stopped(i)),
                total,
            },
            RunEvent::Changed(ChangeEnd::Conflict) => GitRun {
                stage: RunStage::End(RunEnd::Conflict(i)),
                total,
            },
            RunEvent::Changed(ChangeEnd::Fatal(r)) => GitRun {
                stage: RunStage::End(RunEnd::Fatal(i, r)),
                total,
            },
            _ => *state,
        },
        RunStage::End(_) => *state,
    }
}

/// One change after the other: the next one is only begun after this one was pushed.
pub proof fn law_strictly_in_turn(run: GitRun, event: RunEvent, cancelled: bool, i: u64, j: u64)
    requires
        run.stage == RunStage::Change(i),
        i < run.total,
        run_next(run, event, cancelled).stage == RunStage::Change(j),
        j != i,
    ensures
        event == RunEvent::Changed(ChangeEnd::Done),
        j == i + 1,
{
}

/// A run is only complete after every change was pushed.
pub proof fn law_complete_means_all_pushed(run: GitRun, event: RunEvent, cancelled: bool)
    requires
        is_sound(run),
        run_next(run, event, cancelled).stage == RunStage::End(RunEnd::Complete),
        run.stage != RunStage::End(RunEnd::Complete),
    ensures
        run.stage matches RunStage::Change(i) && i + 1 == run.total,
        event == RunEvent::Changed(ChangeEnd::Done),
{
}

/// The facts that a report names.
#[derive(Debug)]
pub struct ReportFacts {
    /// The error of the stage that failed.
    pub reason: String,
    /// The files with conflicts.
    pub files: Vec<String>,
    /// What a repository is in the middle of.
    pub middle: String,
}

/// The facts that a report names, as characters.
pub struct FactsView {
    pub reason: Seq<char>,
    pub files: Seq<Seq<char>>,
    pub middle: Seq<char>,
}

impl View for ReportFacts {
    type V = FactsView;

    open spec fn view(&self) -> FactsView {
        FactsView {
            reason: self.reason@,
            files: text::texts(self.files@),
            middle: self.middle@,
        }
    }
}

/// The state that the window shows at the end.
pub open spec fn end_state(end: RunEnd) -> Seq<char> {
    match end {
        RunEnd::CannotStart => "失败"@,
        RunEnd::MiddleUnknown => "失败"@,
        RunEnd::MiddleOther => "失败"@,
        RunEnd::Unresolved => "冲突"@,
        RunEnd::MergeFailed => "失败"@,
        RunEnd::MergePush(ChangeEnd::Cancelled) => "已停止"@,
        RunEnd::MergePush(ChangeEnd::Conflict) => "冲突"@,
        RunEnd::MergePush(_) => "失败"@,
        RunEnd::StoppedEarly => "已停止"@,
        RunEnd::ScanFailed => "失败"@,
        RunEnd::NothingToDo => "完成"@,
        RunEnd::Stopped(_) => "已停止"@,
        RunEnd::Conflict(_) => "冲突"@,
        RunEnd::Fatal(_, _) => "失败"@,
        RunEnd::Complete => "完成"@,
    }
}

/// The state that the window shows at the end.
pub fn final_state(end: RunEnd) -> (r: &'static str)
    ensures
        r@ == end_state(end),
{
    match end {
        RunEnd::CannotStart => "失败",
        RunEnd::MiddleUnknown => "失败",
        RunEnd::MiddleOther => "失败",
        RunEnd::Unresolved => "冲突",
        RunEnd::MergeFailed => "失败",
        RunEnd::MergePush(ChangeEnd::Cancelled) => "已停止",
        RunEnd::MergePush(ChangeEnd::Conflict) => "冲突",
        RunEnd::MergePush(_) => "失败",
        RunEnd::StoppedEarly => "已停止",
        RunEnd::ScanFailed => "失败",
        RunEnd::NothingToDo => "完成",
        RunEnd::Stopped(_) => "已停止",
        RunEnd::Conflict(_) => "冲突",
        RunEnd::Fatal(_, _) => "失败",
        RunEnd::Complete => "完成",
    }
}

/// Files with conflicts: how many, and which.
pub open spec fn file_list(files: Seq<Seq<char>>) -> Seq<char> {
    text::join_with(files, "、"@)
}

/// One number of another: `a / b`.
pub open spec fn ratio(a: nat, b: nat) -> Seq<char> {
    text::decimal(a) + " / "@ + text::decimal(b)
}

/// What is reported at the end of a run over `total` changes, with the path of the change
/// that was worked on last.
pub open spec fn report_text(
    end: RunEnd,
    f: FactsView,
    current: Seq<char>,
    total: u64,
) -> Seq<char> {
    let files = f.files;
    let n = text::decimal(files.len());
    let all = total as nat;
    match end {
        RunEnd::CannotStart => "无法开始："@ + f.reason,
        RunEnd::MiddleUnknown => "检查仓库状态失败："@ + f.reason,
        RunEnd::MiddleOther => "仓库处于未完成的 "@ + f.middle
            + "，无法安全保证单文件提交；请先手动完成或中止（G-06）"@,
        RunEnd::Unresolved => "仓库存在未解决的合并冲突（"@ + n + " 个文件："@ + file_list(files)
            + "）；请在仓库中解决冲突后重新开始任务，已成功推送的文件不会被重复提交（G-11/G-12）"@,
        RunEnd::MergeFailed => "完成合并提交失败："@ + f.reason,
        RunEnd::MergePush(ChangeEnd::Cancelled) =>
            "任务已停止：合并提交已在本地完成，尚未推送"@,
        RunEnd::MergePush(ChangeEnd::Conflict) => "合并提交的推送再次遇到冲突（"@ + n + " 个文件："@
            + file_list(files) + "）；请解决后重新开始任务（G-11）"@,
        RunEnd::MergePush(_) => "合并提交推送失败："@ + f.reason,
        RunEnd::StoppedEarly => "任务已停止：尚未开始处理文件"@,
        RunEnd::ScanFailed => "扫描失败："@ + f.reason,
        RunEnd::NothingToDo => "没有需要提交的变更：工作区与远端一致"@,
        RunEnd::Stopped(done) => "任务已停止：已完成 "@ + ratio(done as nat, all)
            + "；已成功 commit + push 的文件保持成功状态（G-15）"@,
        RunEnd::Conflict(_) => "自动合并出现冲突（当前文件："@ + current
            + "，阶段：merge）：冲突文件 "@ + n + " 个（"@ + file_list(files)
            + "）。已停止自动处理并保留冲突现场；请在仓库中解决冲突后重新开始任务继续（G-11）"@,
        RunEnd::Fatal(done, _) => "任务停止："@ + f.reason + "（已完成 "@ + ratio(
            done as nat,
            all,
        ) + "；成功推送的文件保持成功）"@,
        RunEnd::Complete => "全部完成："@ + ratio(all, all)
            + " 个文件已逐个 commit 并 push 成功"@,
    }
}

fn with_files(files: &Vec<String>, before: &str, between: &str, after: &str) -> (r: String)
    ensures
        r@ == before@ + text::decimal(files@.len()) + between@ + file_list(text::texts(files@))
            + after@,
{
    let mut s = before.to_owned();
    s.append(text::number(files.len() as u64).as_str());
    s.append(between);
    s.append(text::join(files, "、").as_str());
    s.append(after);
    s
}

fn with_reason(before: &str, reason: &str) -> (r: String)
    ensures
        r@ == before@ + reason@,
{
    let mut s = before.to_owned();
    s.append(reason);
    s
}

/// One number of another.
pub fn ratio_text(a: u64, b: u64) -> (r: String)
    ensures
        r@ == ratio(a as nat, b as nat),
{
    let mut s = text::number(a);
    s.append(" / ");
    s.append(text::number(b).as_str());
    s
}

/// What is reported at the end of a run.
pub fn report(end: RunEnd, f: &ReportFacts, current: &str, total: u64) -> (r: String)
    ensures
        r@ == report_text(end, f@, current@, total),
{
    match end {
        RunEnd::CannotStart => with_reason("无法开始：", f.reason.as_str()),
        RunEnd::MiddleUnknown => with_reason("检查仓库状态失败：", f.reason.as_str()),
        RunEnd::MiddleOther => {
            let mut s = with_reason("仓库处于未完成的 ", f.middle.as_str());
            s.append("，无法安全保证单文件提交；请先手动完成或中止（G-06）");
            s
        },
        RunEnd::Unresolved => with_files(
            &f.files,
            "仓库存在未解决的合并冲突（",
            " 个文件：",
            "）；请在仓库中解决冲突后重新开始任务，已成功推送的文件不会被重复提交（G-11/G-12）",
        ),
        RunEnd::MergeFailed => with_reason("完成合并提交失败：", f.reason.as_str()),
        RunEnd::MergePush(ChangeEnd::Cancelled) =>
            "任务已停止：合并提交已在本地完成，尚未推送".to_owned(),
        RunEnd::MergePush(ChangeEnd::Conflict) => with_files(
            &f.files,
            "合并提交的推送再次遇到冲突（",
            " 个文件：",
            "）；请解决后重新开始任务（G-11）",
        ),
        RunEnd::MergePush(_) => with_reason("合并提交推送失败：", f.reason.as_str()),
        RunEnd::StoppedEarly => "任务已停止：尚未开始处理文件".to_owned(),
        RunEnd::ScanFailed => with_reason("扫描失败：", f.reason.as_str()),
        RunEnd::NothingToDo => "没有需要提交的变更：工作区与远端一致".to_owned(),
        RunEnd::Stopped(done) => {
            let mut s = with_reason("任务已停止：已完成 ", ratio_text(done, total).as_str());
            s.append("；已成功 commit + push 的文件保持成功状态（G-15）");
            s
        },
        RunEnd::Conflict(_) => {
            let mut head = with_reason("自动合并出现冲突（当前文件：", current);
            head.append("，阶段：merge）：冲突文件 ");
            with_files(
                &f.files,
                head.as_str(),
                " 个（",
                "）。已停止自动处理并保留冲突现场；请在仓库中解决冲突后重新开始任务继续（G-11）",
            )
        },
        RunEnd::Fatal(done, _) => {
            let mut s = with_reason("任务停止：", f.reason.as_str());
            s.append("（已完成 ");
            s.append(ratio_text(done, total).as_str());
            s.append("；成功推送的文件保持成功）");
            s
        },
        RunEnd::Complete => {
            let mut s = with_reason("全部完成：", ratio_text(total, total).as_str());
            s.append(" 个文件已逐个 commit 并 push 成功");
            s
        },
    }
}

/// A run that reports that all is done did all: no other end is reported that way.
pub proof fn law_all_done_is_complete(end: RunEnd, f: FactsView, current: Seq<char>, total: u64)
    ensures
        text::has_prefix(report_text(end, f, current, total), "全部完成"@) <==> end
            == RunEnd::Complete,
{
    let r = report_text(end, f, current, total);
    reveal_strlit("全部完成");
    reveal_strlit("全部完成：");
    reveal_strlit("无法开始：");
    reveal_strlit("检查仓库状态失败：");
    reveal_strlit("仓库处于未完成的 ");
    reveal_strlit("仓库存在未解决的合并冲突（");
    reveal_strlit("完成合并提交失败：");
    reveal_strlit("任务已停止：合并提交已在本地完成，尚未推送");
    reveal_strlit("合并提交的推送再次遇到冲突（");
    reveal_strlit("合并提交推送失败：");
    reveal_strlit("任务已停止：尚未开始处理文件");
    reveal_strlit("扫描失败：");
    reveal_strlit("没有需要提交的变更：工作区与远端一致");
    reveal_strlit("任务已停止：已完成 ");
    reveal_strlit("自动合并出现冲突（当前文件：");
    reveal_strlit("任务停止：");
    if end == RunEnd::Complete {
        assert(r.take(4) =~= "全部完成"@);
    } else {
        assert(r[0] != '全');
        if text::has_prefix(r, "全部完成"@) {
            assert(r.take(4)[0] == r[0]);
            assert("全部完成"@[0] == '全');
        }
    }
}

/// The end of a run that was stopped.
pub open spec fn is_stopped(end: RunEnd) -> bool {
    end is StoppedEarly || end is Stopped || end == RunEnd::MergePush(ChangeEnd::Cancelled)
}

/// A run that was stopped says so.
pub proof fn law_stopped_runs_say_so(end: RunEnd, f: FactsView, current: Seq<char>, total: u64)
    requires
        is_stopped(end),
    ensures
        text::has_prefix(report_text(end, f, current, total), "任务已停止"@),
        end_state(end) == "已停止"@,
{
    let r = report_text(end, f, current, total);
    reveal_strlit("任务已停止");
    reveal_strlit("任务已停止：合并提交已在本地完成，尚未推送");
    reveal_strlit("任务已停止：尚未开始处理文件");
    reveal_strlit("任务已停止：已完成 ");
    assert(r.take(5) =~= "任务已停止"@);
}

/// Where a run stands after some events, where it is not stopped.
pub open spec fn run_after(run: GitRun, events: Seq<RunEvent>) -> GitRun
    decreases events.len(),
{
    if events.len() == 0 {
        run
    } else {
        run_next(run_after(run, events.drop_last()), events.last(), false)
    }
}

/// A run over a good repository comes to its changes: it is looked at, then whether it is
/// in the middle of something, then the changes are read, and the first one is begun. With
/// no changes there is nothing to do.
pub proof fn law_a_run_comes_to_its_changes(n: u64)
    ensures
        ({
            let start = GitRun { stage: RunStage::Inspect, total: 0 };
            let inspected = run_next(start, RunEvent::Inspected(true), false);
            let clean = run_next(inspected, RunEvent::Middle(MiddleKind::Clean), false);
            let scanned = run_next(clean, RunEvent::Scanned(Some(n)), false);
            &&& inspected.stage == RunStage::Middle
            &&& clean.stage == RunStage::Scan
            &&& scanned.total == n
            &&& n == 0 ==> scanned.stage == RunStage::End(RunEnd::NothingToDo)
            &&& n > 0 ==> scanned.stage == RunStage::Change(0)
        }),
{
}

/// A merge whose conflicts are resolved is completed and pushed before the changes are read.
pub proof fn law_a_resolved_merge_is_finished_first(run: GitRun)
    requires
        run.stage == RunStage::Middle,
    ensures
        ({
            let finishing = run_next(run, RunEvent::Middle(MiddleKind::Resolved), false);
            let pushing = run_next(finishing, RunEvent::Merged(true), false);
            &&& finishing.stage == RunStage::FinishMerge
            &&& pushing.stage == RunStage::PushMerge
            &&& run_next(pushing, RunEvent::MergePushed(ChangeEnd::Done), false).stage
                == RunStage::Scan
            &&& forall|end: ChangeEnd|
                end != ChangeEnd::Done ==> (#[trigger] run_next(
                    pushing,
                    RunEvent::MergePushed(end),
                    false,
                )).stage == RunStage::End(RunEnd::MergePush(end))
        }),
{
}

/// Where every change is pushed, one is worked on after the other, and with the last one
/// the run is complete.
pub proof fn law_all_pushed_is_complete(run: GitRun, events: Seq<RunEvent>)
    requires
        run.stage == RunStage::Change(0),
        0 < run.total,
        events.len() <= run.total,
        forall|i: int| 0 <= i < events.len() ==> events[i] == RunEvent::Changed(ChangeEnd::Done),
    ensures
        run_after(run, events).total == run.total,
        run_after(run, events).stage == (if events.len() < run.total {
            RunStage::Change(events.len() as u64)
        } else {
            RunStage::End(RunEnd::Complete)
        }),
    decreases events.len(),
{
    if events.len() > 0 {
        law_all_pushed_is_complete(run, events.drop_last());
    }
}

/// A run ends at the first change that is not pushed, and tells how many were; and every
/// end has its reason.
pub proof fn law_how_runs_end(run: GitRun, event: RunEvent, cancelled: bool)
    requires
        is_sound(run),
        !(run.stage is End),
    ensures
        run.stage matches RunStage::Change(i) ==> {
            let after = run_next(run, event, cancelled).stage;
            &&& event == RunEvent::Changed(ChangeEnd::Cancelled) ==> after == RunStage::End(
                RunEnd::Stopped(i),
            )
            &&& event == RunEvent::Changed(ChangeEnd::Conflict) ==> after == RunStage::End(
                RunEnd::Conflict(i),
            )
            &&& event matches RunEvent::Changed(ChangeEnd::Fatal(r)) ==> after == RunStage::End(
                RunEnd::Fatal(i, r),
            )
            &&& event == RunEvent::Changed(ChangeEnd::Done) && cancelled ==> after
                == RunStage::End(RunEnd::Stopped((i + 1) as u64))
        },
        run_next(run, event, cancelled).stage matches RunStage::End(end) ==> match end {
            RunEnd::CannotStart => event == RunEvent::Inspected(false),
            RunEnd::MiddleUnknown => event == RunEvent::Middle(MiddleKind::Unknown),
            RunEnd::MiddleOther => event == RunEvent::Middle(MiddleKind::Other),
            RunEnd::Unresolved => event == RunEvent::Middle(MiddleKind::Unresolved),
            RunEnd::MergeFailed => event == RunEvent::Merged(false),
            RunEnd::MergePush(e) => event == RunEvent::MergePushed(e) && e != ChangeEnd::Done,
            RunEnd::StoppedEarly => cancelled,
            RunEnd::ScanFailed => event == RunEvent::Scanned(None),
            RunEnd::NothingToDo => event == RunEvent::Scanned(Some(0)),
            RunEnd::Stopped(_) => cancelled || event == RunEvent::Changed(ChangeEnd::Cancelled),
            RunEnd::Conflict(_) => event == RunEvent::Changed(ChangeEnd::Conflict),
            RunEnd::Fatal(_, r) => event == RunEvent::Changed(ChangeEnd::Fatal(r)),
            RunEnd::Complete => event == RunEvent::Changed(ChangeEnd::Done) && !cancelled,
        },
        run.stage == RunStage::Inspect && event == RunEvent::Inspected(false) ==> run_next(
            run,
            event,
            cancelled,
        ).stage == RunStage::End(RunEnd::CannotStart),
        run.stage == RunStage::Scan && event == RunEvent::Scanned(None) ==> run_next(
            run,
            event,
            cancelled,
        ).stage == RunStage::End(RunEnd::ScanFailed),
        run.stage == RunStage::Middle ==> (event matches RunEvent::Middle(kind) ==> (kind
            != MiddleKind::Clean && kind != MiddleKind::Resolved ==> run_next(
            run,
            event,
            cancelled,
        ).stage is End)),
{
}

/// The window shows a run as done only where all was done or nothing was to do, as stopped
/// where it was stopped, as a conflict where there is one, and otherwise as failed.
pub proof fn law_states_at_the_end(end: RunEnd)
    ensures
        end_state(end) == "完成"@ <==> end == RunEnd::Complete || end == RunEnd::NothingToDo,
        end_state(end) == "已停止"@ <==> end is StoppedEarly || end is Stopped || end
            == RunEnd::MergePush(ChangeEnd::Cancelled),
        end_state(end) == "冲突"@ <==> end is Unresolved || end is Conflict || end
            == RunEnd::MergePush(ChangeEnd::Conflict),
        end_state(end) == "完成"@ || end_state(end) == "已停止"@ || end_state(end) == "冲突"@
            || end_state(end) == "失败"@,
{
    reveal_strlit("完成");
    reveal_strlit("已停止");
    reveal_strlit("冲突");
    reveal_strlit("失败");
    assert("完成"@[0] == '完' && "已停止"@[0] == '已' && "冲突"@[0] == '冲' && "失败"@[0]
        == '失');
}

} // verus!
