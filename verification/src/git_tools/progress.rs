//! What the window and the log are told while a run goes on.

use crate::git_tools::change;
use crate::git_tools::change::{ChangeEnd, ChangeEvent, ChangeRun, ChangeStage};
use crate::git_tools::repo::{GitShared, RepoInfo};
use crate::git_tools::run;
use crate::git_tools::run::{
    FactsView, GitRun, MiddleKind, ReportFacts, RunEnd, RunEvent, RunStage,
};
use crate::text;
use vstd::prelude::*;

verus! {

/// The progress that the window shows, as characters.
pub struct SharedView {
    pub repo: Seq<char>,
    pub branch: Seq<char>,
    pub upstream: Seq<char>,
    pub total: u64,
    pub done: u64,
    pub current: Seq<char>,
    pub stage: Seq<char>,
    pub retry: u64,
    pub retry_wait: u64,
    pub state: Seq<char>,
}

impl View for GitShared {
    type V = SharedView;

    open spec fn view(&self) -> SharedView {
        SharedView {
            repo: self.repo@,
            branch: self.branch@,
            upstream: self.upstream@,
            total: self.total,
            done: self.done,
            current: self.current@,
            stage: self.stage@,
            retry: self.retry,
            retry_wait: self.retry_wait,
            state: self.state@,
        }
    }
}

/// Something that is told while a run goes on.
#[derive(Debug)]
pub enum Note {
    /// The work on this path begins; a line of the log.
    Started(String),
    /// So many of so many are done, the last one with this path; a line of status.
    Finished(u64, u64, String),
    /// A line of the log.
    Log(String),
    /// A line of status.
    Status(String),
}

/// Something that is told, as characters.
pub enum NoteView {
    Started(Seq<char>),
    Finished(u64, u64, Seq<char>),
    Log(Seq<char>),
    Status(Seq<char>),
}

impl View for Note {
    type V = NoteView;

    open spec fn view(&self) -> NoteView {
        match self {
            Note::Started(p) => NoteView::Started(p@),
            Note::Finished(d, n, p) => NoteView::Finished(*d, *n, p@),
            Note::Log(s) => NoteView::Log(s@),
            Note::Status(s) => NoteView::Status(s@),
        }
    }
}

/// Everything that is told, as characters.
pub open spec fn note_views(v: Seq<Note>) -> Seq<NoteView> {
    Seq::new(v.len(), |i: int| v[i]@)
}

/// The line that is told.
pub open spec fn note_line(n: NoteView) -> Seq<char> {
    match n {
        NoteView::Started(p) => "开始处理："@ + p,
        NoteView::Finished(d, n, p) => "已完成 "@ + run::ratio(d as nat, n as nat) + "："@ + p,
        NoteView::Log(s) => s,
        NoteView::Status(s) => s,
    }
}

impl Note {
    /// The line that is told.
    pub fn line(&self) -> (r: String)
        ensures
            r@ == note_line(self@),
    {
        match self {
            Note::Started(p) => {
                let mut s = "开始处理：".to_owned();
                s.append(p.as_str());
                s
            },
            Note::Finished(d, n, p) => {
                let mut s = "已完成 ".to_owned();
                s.append(run::ratio_text(*d, *n).as_str());
                s.append("：");
                s.append(p.as_str());
                s
            },
            Note::Log(s) => s.as_str().to_owned(),
            Note::Status(s) => s.as_str().to_owned(),
        }
    }

    /// Whether it is a line of status, and else one of the log.
    pub fn is_status(&self) -> (r: bool)
        ensures
            r == (self@ is Finished || self@ is Status),
    {
        match self {
            Note::Finished(_, _, _) => true,
            Note::Status(_) => true,
            _ => false,
        }
    }
}

/// What a step of a run met with.
#[derive(Debug)]
pub struct StepFacts {
    pub report: ReportFacts,
    /// The repository, once it was looked at.
    pub info: RepoInfo,
}

/// What a step of a run met with, as characters.
pub struct StepView {
    pub report: FactsView,
    pub root: Seq<char>,
    pub branch: Seq<char>,
    pub upstream: Seq<char>,
}

impl View for StepFacts {
    type V = StepView;

    open spec fn view(&self) -> StepView {
        StepView {
            report: self.report@,
            root: self.info.root@,
            branch: self.info.branch@,
            upstream: self.info.upstream@,
        }
    }
}

/// What the log says of the repository.
pub open spec fn repo_text(f: StepView) -> Seq<char> {
    "仓库："@ + f.root + "\n分支："@ + f.branch + "\nupstream："@ + f.upstream
}

/// What is told of the event itself.
pub open spec fn event_notes(
    r: GitRun,
    event: RunEvent,
    f: StepView,
    s: SharedView,
) -> Seq<NoteView> {
    let report = |end: RunEnd|
        seq![NoteView::Log(run::report_text(end, f.report, s.current, r.total))];
    match (r.stage, event) {
        (RunStage::Inspect, RunEvent::Inspected(ok)) => if ok {
            seq![NoteView::Log(repo_text(f))]
        } else {
            seq![NoteView::Log(f.report.reason)]
        },
        (RunStage::Middle, RunEvent::Middle(kind)) => match kind {
            MiddleKind::Clean => Seq::empty(),
            MiddleKind::Resolved => seq![
                NoteView::Log("检测到已解决的合并：完成合并提交（git commit --no-edit）"@),
            ],
            MiddleKind::Unresolved => report(RunEnd::Unresolved),
            MiddleKind::Other => report(RunEnd::MiddleOther),
            MiddleKind::Unknown => report(RunEnd::MiddleUnknown),
        },
        (RunStage::FinishMerge, RunEvent::Merged(ok)) => if ok {
            Seq::empty()
        } else {
            report(RunEnd::MergeFailed)
        },
        (RunStage::PushMerge, RunEvent::MergePushed(end)) => match end {
            ChangeEnd::Done => seq![
                NoteView::Log("合并提交已 push 成功；继续扫描剩余变更"@),
            ],
            ChangeEnd::Cancelled => Seq::empty(),
            _ => report(RunEnd::MergePush(end)),
        },
        (RunStage::Scan, RunEvent::Scanned(total)) => match total {
            None => seq![NoteView::Log(f.report.reason)],
            Some(n) => seq![
                NoteView::Log(
                    "待处理变更："@ + text::decimal(n as nat) + " 个逻辑文件变更"@,
                ),
            ],
        },
        (RunStage::Change(i), RunEvent::Changed(end)) => match end {
            ChangeEnd::Done => seq![NoteView::Finished((i + 1) as u64, r.total, s.current)],
            ChangeEnd::Cancelled => Seq::empty(),
            ChangeEnd::Conflict => report(RunEnd::Conflict(i)),
            ChangeEnd::Fatal(reason) => report(RunEnd::Fatal(i, reason)),
        },
        _ => Seq::empty(),
    }
}

/// What is told on the way into the next stage.
pub open spec fn entry_notes(
    r: GitRun,
    next: GitRun,
    f: StepView,
    s: SharedView,
    paths: Seq<Seq<char>>,
) -> Seq<NoteView> {
    if next.stage == r.stage {
        Seq::empty()
    } else {
        match next.stage {
            RunStage::Scan => seq![
                NoteView::Status("正在扫描未提交变更（以 git 状态为准）"@),
            ],
            RunStage::Change(i) => seq![NoteView::Started(paths[i as int])],
            RunStage::End(RunEnd::Complete) => seq![
                NoteView::Log(
                    run::report_text(RunEnd::Complete, f.report, s.current, next.total),
                ),
            ],
            _ => Seq::empty(),
        }
    }
}

/// Everything that a step tells, in order.
pub open spec fn step_notes(
    r: GitRun,
    event: RunEvent,
    cancelled: bool,
    f: StepView,
    s: SharedView,
    paths: Seq<Seq<char>>,
) -> Seq<NoteView> {
    event_notes(r, event, f, s) + entry_notes(
        r,
        run::run_next(r, event, cancelled),
        f,
        s,
        paths,
    )
}

/// The progress that the event itself makes.
pub open spec fn event_shown(r: GitRun, event: RunEvent, f: StepView, s: SharedView) -> SharedView {
    match (r.stage, event) {
        (RunStage::Inspect, RunEvent::Inspected(true)) => SharedView {
            repo: f.root,
            branch: f.branch,
            upstream: f.upstream,
            ..s
        },
        (RunStage::Middle, RunEvent::Middle(MiddleKind::Resolved)) => SharedView {
            stage: "merge"@,
            ..s
        },
        (RunStage::Scan, RunEvent::Scanned(Some(n))) => SharedView { total: n, done: 0, ..s },
        (RunStage::Change(i), RunEvent::Changed(ChangeEnd::Done)) => SharedView {
            done: (i + 1) as u64,
            ..s
        },
        _ => s,
    }
}

/// The stage that the window shows at the end, where the end changes it.
pub open spec fn end_stage(end: RunEnd) -> Option<Seq<char>> {
    match end {
        RunEnd::Unresolved => Some("冲突"@),
        RunEnd::MergePush(ChangeEnd::Conflict) => Some("冲突"@),
        RunEnd::Conflict(_) => Some("冲突"@),
        RunEnd::NothingToDo => Some("完成"@),
        RunEnd::Complete => Some("完成"@),
        _ => None,
    }
}

/// The progress that is shown in the next stage.
pub open spec fn entry_shown(
    r: GitRun,
    next: GitRun,
    s: SharedView,
    paths: Seq<Seq<char>>,
) -> SharedView {
    if next.stage == r.stage {
        s
    } else {
        match next.stage {
            RunStage::Scan => SharedView { stage: "扫描"@, ..s },
            RunStage::Change(i) => SharedView { current: paths[i as int], ..s },
            RunStage::End(end) => SharedView {
                state: run::end_state(end),
                stage: match end_stage(end) {
                    Some(t) => t,
                    None => s.stage,
                },
                ..s
            },
            _ => s,
        }
    }
}

/// The progress that is shown after a step.
pub open spec fn step_shown(
    r: GitRun,
    event: RunEvent,
    cancelled: bool,
    f: StepView,
    s: SharedView,
    paths: Seq<Seq<char>>,
) -> SharedView {
    entry_shown(r, run::run_next(r, event, cancelled), event_shown(r, event, f, s), paths)
}

/// The paths are those of the changes that the run is about.
pub open spec fn paths_fit(r: GitRun, event: RunEvent, count: nat) -> bool {
    &&& r.stage is Change ==> r.total == count
    &&& event matches RunEvent::Scanned(Some(n)) ==> n == count
}

fn one_log(line: String) -> (r: Vec<Note>)
    ensures
        note_views(r@) == seq![NoteView::Log(line@)],
{
    let mut v: Vec<Note> = Vec::new();
    v.push(Note::Log(line));
    assert(note_views(v@) =~= seq![NoteView::Log(line@)]);
    v
}

fn nothing() -> (r: Vec<Note>)
    ensures
        note_views(r@) == Seq::<NoteView>::empty(),
{
    let v: Vec<Note> = Vec::new();
    assert(note_views(v@) =~= Seq::<NoteView>::empty());
    v
}

fn told_of_event(
    r: &GitRun,
    event: RunEvent,
    f: &StepFacts,
    current: &str,
    Ghost(s): Ghost<SharedView>,
) -> (v: Vec<Note>)
    requires
        run::is_sound(*r),
        s.current == current@,
    ensures
        note_views(v@) == event_notes(*r, event, f@, s),
{
    match (r.stage, event) {
        (RunStage::Inspect, RunEvent::Inspected(ok)) => if ok {
            let mut s = "仓库：".to_owned();
            s.append(f.info.root.as_str());
            s.append("\n分支：");
            s.append(f.info.branch.as_str());
            s.append("\nupstream：");
            s.append(f.info.upstream.as_str());
            one_log(s)
        } else {
            one_log(f.report.reason.as_str().to_owned())
        },
        (RunStage::Middle, RunEvent::Middle(kind)) => match kind {
            MiddleKind::Clean => nothing(),
            MiddleKind::Resolved => one_log(
                "检测到已解决的合并：完成合并提交（git commit --no-edit）".to_owned(),
            ),
            MiddleKind::Unresolved => one_log(
                run::report(RunEnd::Unresolved, &f.report, current, r.total),
            ),
            MiddleKind::Other => one_log(
                run::report(RunEnd::MiddleOther, &f.report, current, r.total),
            ),
            MiddleKind::Unknown => one_log(
                run::report(RunEnd::MiddleUnknown, &f.report, current, r.total),
            ),
        },
        (RunStage::FinishMerge, RunEvent::Merged(ok)) => if ok {
            nothing()
        } else {
            one_log(run::report(RunEnd::MergeFailed, &f.report, current, r.total))
        },
        (RunStage::PushMerge, RunEvent::MergePushed(end)) => match end {
            ChangeEnd::Done => one_log(
                "合并提交已 push 成功；继续扫描剩余变更".to_owned(),
            ),
            ChangeEnd::Cancelled => nothing(),
            _ => one_log(run::report(RunEnd::MergePush(end), &f.report, current, r.total)),
        },
        (RunStage::Scan, RunEvent::Scanned(total)) => match total {
            None => one_log(f.report.reason.as_str().to_owned()),
            Some(n) => {
                let mut s = "待处理变更：".to_owned();
                s.append(text::number(n).as_str());
                s.append(" 个逻辑文件变更");
                one_log(s)
            },
        },
        (RunStage::Change(i), RunEvent::Changed(end)) => match end {
            ChangeEnd::Done => {
                let mut v: Vec<Note> = Vec::new();
                v.push(Note::Finished(i + 1, r.total, current.to_owned()));
                assert(note_views(v@) =~= seq![
                    NoteView::Finished((i + 1) as u64, r.total, current@),
                ]);
                v
            },
            ChangeEnd::Cancelled => nothing(),
            ChangeEnd::Conflict => one_log(
                run::report(RunEnd::Conflict(i), &f.report, current, r.total),
            ),
            ChangeEnd::Fatal(reason) => one_log(
                run::report(RunEnd::Fatal(i, reason), &f.report, current, r.total),
            ),
        },
        _ => nothing(),
    }
}

/// Where a run goes on after an event, what is told, and what the window shows. `paths` are
/// those of the changes, once they were read.
pub fn advance(
    state: &GitRun,
    event: RunEvent,
    cancelled: bool,
    facts: &StepFacts,
    paths: &Vec<String>,
    shared: &mut GitShared,
) -> (r: (GitRun, Vec<Note>))
    requires
        run::is_sound(*state),
        paths_fit(*state, event, paths@.len()),
    ensures
        r.0 == run::run_next(*state, event, cancelled),
        run::is_sound(r.0),
        note_views(r.1@) == step_notes(
            *state,
            event,
            cancelled,
            facts@,
            old(shared)@,
            text::texts(paths@),
        ),
        final(shared)@ == step_shown(
            *state,
            event,
            cancelled,
            facts@,
            old(shared)@,
            text::texts(paths@),
        ),
{
    let ghost s0 = shared@;
    let next = run::run(state, event, cancelled);
    let current = shared.current.as_str().to_owned();
    let mut notes = told_of_event(state, event, facts, current.as_str(), Ghost(s0));
    match (state.stage, event) {
        (RunStage::Inspect, RunEvent::Inspected(true)) => {
            shared.repo = facts.info.root.as_str().to_owned();
            shared.branch = facts.info.branch.as_str().to_owned();
            shared.upstream = facts.info.upstream.as_str().to_owned();
        },
        (RunStage::Middle, RunEvent::Middle(MiddleKind::Resolved)) => {
            shared.set_stage("merge");
        },
        (RunStage::Scan, RunEvent::Scanned(Some(n))) => {
            shared.total = n;
            shared.done = 0;
        },
        (RunStage::Change(i), RunEvent::Changed(ChangeEnd::Done)) => {
            shared.done = i + 1;
        },
        _ => {},
    }
    let ghost s1 = shared@;
    assert(s1 == event_shown(*state, event, facts@, s0));
    let ghost first = notes@;
    let ghost told = event_notes(*state, event, facts@, s0);
    assert(told + Seq::<NoteView>::empty() =~= told);
    if next.stage != state.stage {
        match next.stage {
            RunStage::Scan => {
                shared.set_stage("扫描");
                notes.push(
                    Note::Status("正在扫描未提交变更（以 git 状态为准）".to_owned()),
                );
                assert(note_views(notes@) =~= note_views(first) + seq![
                    NoteView::Status("正在扫描未提交变更（以 git 状态为准）"@),
                ]);
            },
            RunStage::Change(i) => {
                let count: usize = paths.len();
                assert(i < next.total && next.total == count);
                let path = paths[i as usize].as_str();
                shared.set_current(path);
                notes.push(Note::Started(path.to_owned()));
                assert(path@ == text::texts(paths@)[i as int]);
                assert(note_views(notes@) =~= note_views(first) + seq![NoteView::Started(path@)]);
            },
            RunStage::End(end) => {
                shared.set_state(run::final_state(end));
                match end {
                    RunEnd::Unresolved => shared.set_stage("冲突"),
                    RunEnd::MergePush(ChangeEnd::Conflict) => shared.set_stage("冲突"),
                    RunEnd::Conflict(_) => shared.set_stage("冲突"),
                    RunEnd::NothingToDo => shared.set_stage("完成"),
                    RunEnd::Complete => shared.set_stage("完成"),
                    _ => {},
                }
                if let RunEnd::Complete = end {
                    let line = run::report(end, &facts.report, current.as_str(), next.total);
                    notes.push(Note::Log(line));
                    assert(note_views(notes@) =~= note_views(first) + seq![NoteView::Log(line@)]);
                }
            },
            _ => {},
        }
    }
    (next, notes)
}

/// The progress that is shown when a run begins.
pub open spec fn begun(s: SharedView) -> SharedView {
    SharedView { state: "检查仓库"@, stage: "扫描"@, ..s }
}

/// Begins a run: what is told, and what the window shows.
pub fn begin(shared: &mut GitShared) -> (r: (GitRun, Note))
    ensures
        r.0 == (GitRun { stage: RunStage::Inspect, total: 0 }),
        run::is_sound(r.0),
        r.1@ == NoteView::Status("正在验证仓库（分支、upstream 与仓库状态）"@),
        final(shared)@ == begun(old(shared)@),
{
    shared.set_state("检查仓库");
    shared.set_stage("扫描");
    (
        run::start(),
        Note::Status("正在验证仓库（分支、upstream 与仓库状态）".to_owned()),
    )
}

/// The stage that the window shows while a change is worked on.
pub open spec fn stage_shown(
    shown: Seq<char>,
    before: ChangeStage,
    event: ChangeEvent,
    after: ChangeStage,
) -> Seq<char> {
    match after {
        ChangeStage::Add => "add"@,
        ChangeStage::Commit => "commit"@,
        ChangeStage::Check => shown,
        ChangeStage::Verify => shown,
        ChangeStage::Push => "push"@,
        ChangeStage::Merge => "pull/fetch"@,
        ChangeStage::Wait(_) => "等待重试"@,
        ChangeStage::End(_) => if before is Wait && event == ChangeEvent::Waited(true) {
            "重试中"@
        } else {
            shown
        },
    }
}

/// The progress that is shown after a step of a change: the stage, and while it waits the
/// failures so far and the seconds that are left.
pub open spec fn change_shown(
    s: SharedView,
    before: ChangeStage,
    event: ChangeEvent,
    after: ChangeRun,
    unit: u64,
) -> SharedView {
    SharedView {
        stage: stage_shown(s.stage, before, event, after.stage),
        retry: if after.stage is Wait {
            after.attempt
        } else {
            s.retry
        },
        retry_wait: if after.stage is Wait {
            change::seconds_shown(change::waiting_time(after.attempt, unit))
        } else if before is Wait {
            0
        } else {
            s.retry_wait
        },
        ..s
    }
}

/// Shows a step of a change; `unit` is the first waiting time in milliseconds.
pub fn show_change(
    shared: &mut GitShared,
    before: ChangeStage,
    event: ChangeEvent,
    after: &ChangeRun,
    unit: u64,
)
    ensures
        final(shared)@ == change_shown(old(shared)@, before, event, *after, unit),
{
    let waited: bool = match before {
        ChangeStage::Wait(_) => true,
        _ => false,
    };
    match after.stage {
        ChangeStage::Add => shared.set_stage("add"),
        ChangeStage::Commit => shared.set_stage("commit"),
        ChangeStage::Push => shared.set_stage("push"),
        ChangeStage::Merge => shared.set_stage("pull/fetch"),
        ChangeStage::Wait(_) => shared.set_stage("等待重试"),
        ChangeStage::End(_) => if let ChangeEvent::Waited(true) = event {
            if waited {
                shared.set_stage("重试中");
            }
        },
        _ => {},
    }
    match after.stage {
        ChangeStage::Wait(_) => {
            shared.retry = after.attempt;
            shared.retry_wait = change::shown_wait(change::backoff_duration(after.attempt, unit));
        },
        _ => {
            if waited {
                shared.retry_wait = 0;
            }
        },
    }
}

/// Shows the stage that a change begins with.
pub fn show_begin(shared: &mut GitShared, first: &ChangeRun)
    ensures
        final(shared)@ == (SharedView {
            stage: match first.stage {
                ChangeStage::Add => "add"@,
                ChangeStage::Push => "push"@,
                _ => old(shared)@.stage,
            },
            ..old(shared)@
        }),
{
    match first.stage {
        ChangeStage::Add => shared.set_stage("add"),
        ChangeStage::Push => shared.set_stage("push"),
        _ => {},
    }
}

/// What the window shows agrees with where the run is.
pub open spec fn agrees(r: GitRun, s: SharedView) -> bool {
    &&& s.done <= s.total
    &&& s.total == r.total
    &&& match r.stage {
        RunStage::Change(i) => s.done == i && i < r.total,
        RunStage::End(end) => {
            &&& s.state == run::end_state(end)
            &&& match end {
                RunEnd::Complete => s.done == s.total && s.total > 0,
                RunEnd::Stopped(d) => s.done == d,
                RunEnd::Conflict(d) => s.done == d && d < s.total,
                RunEnd::Fatal(d, _) => s.done == d && d < s.total,
                _ => s.done == 0,
            }
        },
        _ => s.done == 0 && s.total == 0,
    }
}

/// The window never shows more files done than there are, it shows those that were pushed,
/// and it shows the state that the run ended in.
pub proof fn law_progress_agrees(
    r: GitRun,
    event: RunEvent,
    cancelled: bool,
    f: StepView,
    s: SharedView,
    paths: Seq<Seq<char>>,
)
    requires
        agrees(r, s),
    ensures
        agrees(
            run::run_next(r, event, cancelled),
            step_shown(r, event, cancelled, f, s, paths),
        ),
{
}

/// The work on a change moves neither the counts nor the path nor the state.
pub proof fn law_changes_keep_the_counts(
    r: GitRun,
    s: SharedView,
    before: ChangeStage,
    event: ChangeEvent,
    after: ChangeRun,
    unit: u64,
)
    requires
        agrees(r, s),
    ensures
        agrees(r, change_shown(s, before, event, after, unit)),
        change_shown(s, before, event, after, unit).current == s.current,
{
}

/// A run that reports that all is done shows all files done and the state for that.
pub proof fn law_all_done_shows_all(r: GitRun, s: SharedView, f: FactsView)
    requires
        agrees(r, s),
        r.stage matches RunStage::End(end) && text::has_prefix(
            run::report_text(end, f, s.current, r.total),
            "全部完成"@,
        ),
    ensures
        s.done == s.total,
        s.total == r.total,
        s.state == "完成"@,
{
    run::law_all_done_is_complete(r.stage->End_0, f, s.current, r.total);
}

/// One step of a run with what it met, and what the work on a change had left in the window
/// before it.
pub struct Step {
    pub event: RunEvent,
    pub cancelled: bool,
    pub facts: StepView,
    pub stage: Seq<char>,
    pub retry: u64,
    pub retry_wait: u64,
}

/// Where a run is, what the window shows, and all that was told.
pub struct Told {
    pub run: GitRun,
    pub shared: SharedView,
    pub notes: Seq<NoteView>,
}

/// A run after some steps.
pub open spec fn after_steps(start: SharedView, steps: Seq<Step>, paths: Seq<Seq<char>>) -> Told
    decreases steps.len(),
{
    if steps.len() == 0 {
        Told {
            run: GitRun { stage: RunStage::Inspect, total: 0 },
            shared: begun(start),
            notes: seq![
                NoteView::Status("正在验证仓库（分支、upstream 与仓库状态）"@),
            ],
        }
    } else {
        let t = after_steps(start, steps.drop_last(), paths);
        let last = steps.last();
        let s = SharedView {
            stage: last.stage,
            retry: last.retry,
            retry_wait: last.retry_wait,
            ..t.shared
        };
        Told {
            run: run::run_next(t.run, last.event, last.cancelled),
            shared: step_shown(t.run, last.event, last.cancelled, last.facts, s, paths),
            notes: t.notes + step_notes(t.run, last.event, last.cancelled, last.facts, s, paths),
        }
    }
}

/// Which file is being worked on, and how many were reported done.
pub struct Turns {
    pub open: Option<Seq<char>>,
    pub done: nat,
}

/// The turns that something told makes; nothing where it is out of turn: a file is begun
/// only when none is open, and reported done only when it is the open one, with the next
/// number.
pub open spec fn next_turn(t: Turns, n: NoteView) -> Option<Turns> {
    match n {
        NoteView::Started(p) => if t.open is None {
            Some(Turns { open: Some(p), ..t })
        } else {
            None
        },
        NoteView::Finished(d, _, p) => if t.open == Some(p) && d == t.done + 1 {
            Some(Turns { open: None, done: d as nat })
        } else {
            None
        },
        _ => Some(t),
    }
}

/// The turns that all that was told makes.
pub open spec fn turns(notes: Seq<NoteView>) -> Option<Turns>
    decreases notes.len(),
{
    if notes.len() == 0 {
        Some(Turns { open: None, done: 0 })
    } else {
        match turns(notes.drop_last()) {
            Some(t) => next_turn(t, notes.last()),
            None => None,
        }
    }
}

proof fn turns_of_two(a: Seq<NoteView>, x: NoteView)
    ensures
        turns(a.push(x)) == match turns(a) {
            Some(t) => next_turn(t, x),
            None => None,
        },
{
    assert(a.push(x).drop_last() =~= a);
}

/// One file after the other: the next one is begun only after the one before was reported
/// done, and the count of those is what the window shows.
pub proof fn law_one_file_after_the_other(
    start: SharedView,
    steps: Seq<Step>,
    paths: Seq<Seq<char>>,
)
    requires
        start.done == 0,
        start.total == 0,
        forall|i: int|
            0 <= i < steps.len() ==> ((#[trigger] steps[i]).event matches RunEvent::Scanned(
                Some(n),
            ) ==> n == paths.len()),
    ensures
        ({
            let t = after_steps(start, steps, paths);
            &&& agrees(t.run, t.shared)
            &&& turns(t.notes) matches Some(w) && w.done == t.shared.done && (
            t.run.stage matches RunStage::Change(i) ==> w.open == Some(paths[i as int])
                && t.shared.current == paths[i as int] && t.run.total == paths.len()) && (!(
            t.run.stage is Change) && !(t.run.stage is End) ==> w.open is None)
        }),
    decreases steps.len(),
{
    let t = after_steps(start, steps, paths);
    if steps.len() == 0 {
        turns_of_two(Seq::empty(), t.notes[0]);
        assert(Seq::<NoteView>::empty().push(t.notes[0]) =~= t.notes);
    } else {
        let before = after_steps(start, steps.drop_last(), paths);
        assert forall|i: int| 0 <= i < steps.drop_last().len() implies ((
        #[trigger] steps.drop_last()[i]).event matches RunEvent::Scanned(Some(n)) ==> n
            == paths.len()) by {
            assert(steps.drop_last()[i] == steps[i]);
        }
        law_one_file_after_the_other(start, steps.drop_last(), paths);
        let last = steps.last();
        assert(last == steps[steps.len() - 1]);
        let s = SharedView {
            stage: last.stage,
            retry: last.retry,
            retry_wait: last.retry_wait,
            ..before.shared
        };
        law_progress_agrees(before.run, last.event, last.cancelled, last.facts, s, paths);
        let e = event_notes(before.run, last.event, last.facts, s);
        let x = entry_notes(before.run, t.run, last.facts, s, paths);
        assert(e.len() <= 1 && x.len() <= 1);
        if e.len() == 1 {
            turns_of_two(before.notes, e[0]);
            assert(before.notes + e =~= before.notes.push(e[0]));
        } else {
            assert(before.notes + e =~= before.notes);
        }
        if x.len() == 1 {
            turns_of_two(before.notes + e, x[0]);
            assert(before.notes + (e + x) =~= (before.notes + e).push(x[0]));
        } else {
            assert(before.notes + (e + x) =~= before.notes + e);
        }
    }
}

/// A change that is done is told with its number, the number of all and its path; right
/// behind it the next one is begun, and behind the last one the end is reported.
pub proof fn law_each_change_is_told(
    r: GitRun,
    i: u64,
    f: StepView,
    s: SharedView,
    paths: Seq<Seq<char>>,
)
    requires
        r.stage == RunStage::Change(i),
        i < r.total,
    ensures
        ({
            let event = RunEvent::Changed(ChangeEnd::Done);
            let notes = step_notes(r, event, false, f, s, paths);
            let shown = step_shown(r, event, false, f, s, paths);
            &&& notes.len() == 2
            &&& notes[0] == NoteView::Finished((i + 1) as u64, r.total, s.current)
            &&& i + 1 < r.total ==> notes[1] == NoteView::Started(paths[i + 1])
            &&& i + 1 == r.total ==> notes[1] == NoteView::Log(
                run::report_text(RunEnd::Complete, f.report, s.current, r.total),
            )
            &&& shown.done == i + 1
            &&& i + 1 < r.total ==> shown.current == paths[i + 1]
            &&& i + 1 == r.total ==> shown.stage == "完成"@
            &&& step_notes(r, event, true, f, s, paths) == seq![
                NoteView::Finished((i + 1) as u64, r.total, s.current),
            ]
        }),
{
    let event = RunEvent::Changed(ChangeEnd::Done);
    let notes = step_notes(r, event, false, f, s, paths);
    assert(step_notes(r, event, true, f, s, paths) =~= seq![
        NoteView::Finished((i + 1) as u64, r.total, s.current),
    ]);
}

/// Once the changes are counted the window shows how many there are, and the first of them
/// is begun.
pub proof fn law_the_count_is_told(
    r: GitRun,
    n: u64,
    f: StepView,
    s: SharedView,
    paths: Seq<Seq<char>>,
)
    requires
        r.stage == RunStage::Scan,
    ensures
        ({
            let event = RunEvent::Scanned(Some(n));
            let notes = step_notes(r, event, false, f, s, paths);
            let shown = step_shown(r, event, false, f, s, paths);
            &&& notes.len() > 0
            &&& notes[0] == NoteView::Log(
                "待处理变更："@ + text::decimal(n as nat) + " 个逻辑文件变更"@,
            )
            &&& shown.total == n && shown.done == 0
            &&& n > 0 ==> notes.len() == 2 && notes[1] == NoteView::Started(paths[0])
                && shown.current == paths[0]
            &&& n == 0 ==> shown.stage == "完成"@
            &&& step_notes(r, RunEvent::Scanned(None), false, f, s, paths).contains(
                NoteView::Log(f.report.reason),
            )
        }),
{
    let none = step_notes(r, RunEvent::Scanned(None), false, f, s, paths);
    assert(none[0] == NoteView::Log(f.report.reason));
}

/// The repository is shown as soon as it was looked at; where it cannot be used the reason
/// is told instead and nothing is shown.
pub proof fn law_the_repository_is_told(
    r: GitRun,
    c: bool,
    f: StepView,
    s: SharedView,
    paths: Seq<Seq<char>>,
)
    requires
        r.stage == RunStage::Inspect,
    ensures
        ({
            let good = step_shown(r, RunEvent::Inspected(true), c, f, s, paths);
            let bad = step_shown(r, RunEvent::Inspected(false), c, f, s, paths);
            &&& good.repo == f.root && good.branch == f.branch && good.upstream == f.upstream
            &&& bad.repo == s.repo && bad.branch == s.branch && bad.upstream == s.upstream
            &&& step_notes(r, RunEvent::Inspected(true), c, f, s, paths) == seq![
                NoteView::Log(
                    "仓库："@ + f.root + "\n分支："@ + f.branch + "\nupstream："@ + f.upstream,
                ),
            ]
            &&& step_notes(r, RunEvent::Inspected(false), c, f, s, paths) == seq![
                NoteView::Log(f.report.reason),
            ]
        }),
{
    assert(step_notes(r, RunEvent::Inspected(true), c, f, s, paths) =~= seq![
        NoteView::Log(repo_text(f)),
    ]);
    assert(step_notes(r, RunEvent::Inspected(false), c, f, s, paths) =~= seq![
        NoteView::Log(f.report.reason),
    ]);
}

/// Whatever goes wrong is reported: a conflict, a failure that cannot be mended, a merge
/// that is not resolved. Only a run that the user stopped ends without a report.
pub proof fn law_failures_are_reported(
    r: GitRun,
    i: u64,
    c: bool,
    end: ChangeEnd,
    f: StepView,
    s: SharedView,
    paths: Seq<Seq<char>>,
)
    requires
        r.stage == RunStage::Change(i),
    ensures
        ({
            let notes = step_notes(r, RunEvent::Changed(end), c, f, s, paths);
            &&& end == ChangeEnd::Cancelled ==> notes.len() == 0
            &&& end == ChangeEnd::Conflict ==> notes == seq![
                NoteView::Log(run::report_text(RunEnd::Conflict(i), f.report, s.current, r.total)),
            ]
            &&& end matches ChangeEnd::Fatal(reason) ==> notes == seq![
                NoteView::Log(
                    run::report_text(RunEnd::Fatal(i, reason), f.report, s.current, r.total),
                ),
            ]
            &&& end == ChangeEnd::Conflict ==> step_shown(
                r,
                RunEvent::Changed(end),
                c,
                f,
                s,
                paths,
            ).stage == "冲突"@
            &&& end != ChangeEnd::Done ==> step_shown(r, RunEvent::Changed(end), c, f, s, paths).done
                == s.done
        }),
{
    let notes = step_notes(r, RunEvent::Changed(end), c, f, s, paths);
    match end {
        ChangeEnd::Conflict => {
            assert(notes =~= seq![
                NoteView::Log(run::report_text(RunEnd::Conflict(i), f.report, s.current, r.total)),
            ]);
        },
        ChangeEnd::Fatal(reason) => {
            assert(notes =~= seq![
                NoteView::Log(
                    run::report_text(RunEnd::Fatal(i, reason), f.report, s.current, r.total),
                ),
            ]);
        },
        _ => {},
    }
}

/// The window shows the command that runs; while it waits it shows the failures so far and
/// the seconds that are left, and no seconds once the wait is over.
pub proof fn law_what_is_shown_of_a_change(
    s: SharedView,
    before: ChangeStage,
    event: ChangeEvent,
    after: ChangeRun,
    unit: u64,
)
    ensures
        ({
            let shown = change_shown(s, before, event, after, unit);
            &&& after.stage == ChangeStage::Add ==> shown.stage == "add"@
            &&& after.stage == ChangeStage::Commit ==> shown.stage == "commit"@
            &&& after.stage == ChangeStage::Push ==> shown.stage == "push"@
            &&& after.stage == ChangeStage::Merge ==> shown.stage == "pull/fetch"@
            &&& after.stage == ChangeStage::Check || after.stage == ChangeStage::Verify
                ==> shown.stage == s.stage
            &&& after.stage is Wait ==> shown.stage == "等待重试"@ && shown.retry == after.attempt
                && shown.retry_wait == change::seconds_shown(
                change::waiting_time(after.attempt, unit),
            )
            &&& before is Wait && !(after.stage is Wait) ==> shown.retry_wait == 0
            &&& !(after.stage is Wait) ==> shown.retry == s.retry
            &&& !(before is Wait) && !(after.stage is Wait) ==> shown.retry_wait == s.retry_wait
            &&& shown.repo == s.repo && shown.branch == s.branch && shown.upstream == s.upstream
        }),
{
}

/// The line for a path that is begun, and the one for a path that is done.
pub proof fn law_lines_that_are_told(d: u64, n: u64, p: Seq<char>)
    ensures
        note_line(NoteView::Started(p)) == "开始处理："@ + p,
        note_line(NoteView::Finished(d, n, p)) == "已完成 "@ + text::decimal(d as nat) + " / "@
            + text::decimal(n as nat) + "："@ + p,
        note_line(NoteView::Log(p)) == p,
        note_line(NoteView::Status(p)) == p,
{
    assert("已完成 "@ + (text::decimal(d as nat) + " / "@ + text::decimal(n as nat)) + "："@ + p
        =~= "已完成 "@ + text::decimal(d as nat) + " / "@ + text::decimal(n as nat) + "："@ + p);
}

} // verus!
