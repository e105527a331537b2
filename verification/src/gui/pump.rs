//! What the window does with the events of tasks and workers.

use super::commands;
use super::readiness;
use super::tasks;
use super::window;
use super::window::{
    Dialog, Metrics, Nav, Paging, PlanLoad, PlanPane, PlanQuery, PlanRow, Progress, Run, State,
    Window,
};
use super::PlanSnapshot;
use crate::control::Event;
use crate::model::{Action, ActionKind, Summary};
use crate::text;
use vstd::prelude::*;

verus! {

/// A count as the window shows it; more than it can show is shown as the most it can.
pub open spec fn shown_count(n: u64) -> i32 {
    if n <= i32::MAX {
        n as i32
    } else {
        i32::MAX
    }
}

fn show_count(n: u64) -> (r: i32)
    ensures
        r == shown_count(n),
{
    if n <= 0x7fff_ffff {
        n as i32
    } else {
        i32::MAX
    }
}

/// The actions of a plan can be counted.
pub open spec fn fits(s: Summary) -> bool {
    s.planned_delete + s.planned_move + s.planned_empty <= u64::MAX
}

/// The figures of a summary.
pub open spec fn figures_text(s: Summary) -> Seq<char> {
    "扫描 "@ + text::decimal(s.scanned as nat) + " 个文件 · 错误 "@ + text::decimal(s.errors as nat)
        + " 项 · 已永久删除 "@ + text::decimal(s.deleted as nat) + " 项"@
}

/// A line of figures.
pub open spec fn is_line(m: Metrics, s: Seq<char>) -> bool {
    m matches Metrics::Line(l) && l@ == s
}

/// A summary is shown.
pub open spec fn summary_applied(u0: Window, s0: State, u1: Window, s1: State, s: Summary) -> bool {
    &&& u1 == (Window {
        plan: PlanPane {
            summary: Some(s),
            delete_count: shown_count(s.planned_delete),
            move_count: shown_count(s.planned_move),
            git_count: shown_count(s.planned_git),
            empty_count: shown_count(s.planned_empty),
            ..u0.plan
        },
        progress: Progress { metrics: u1.progress.metrics, ..u0.progress },
        ..u0
    })
    &&& is_line(u1.progress.metrics, figures_text(s))
    &&& s1 == (State {
        run: Run {
            planned: (s.planned_delete + s.planned_move + s.planned_empty) as u64,
            ..s0.run
        },
        ..s0
    })
}

/// Shows a summary.
pub fn apply_summary(ui: &mut Window, state: &mut State, summary: &Summary)
    requires
        fits(*summary),
    ensures
        summary_applied(*old(ui), *old(state), *final(ui), *final(state), *summary),
{
    ui.plan.summary = Some(*summary);
    ui.plan.delete_count = show_count(summary.planned_delete);
    ui.plan.move_count = show_count(summary.planned_move);
    ui.plan.git_count = show_count(summary.planned_git);
    ui.plan.empty_count = show_count(summary.planned_empty);
    let mut s = "扫描 ".to_owned();
    s.append(text::number(summary.scanned).as_str());
    s.append(" 个文件 · 错误 ");
    s.append(text::number(summary.errors).as_str());
    s.append(" 项 · 已永久删除 ");
    s.append(text::number(summary.deleted).as_str());
    s.append(" 项");
    ui.progress.metrics = Metrics::Line(s);
    state.run.planned = summary.planned_delete + summary.planned_move + summary.planned_empty;
}

/// What follows an event.
#[derive(Debug)]
pub struct Reaction {
    /// A request that a worker carries out.
    pub load: Option<PlanLoad>,
    /// The window closes.
    pub quit: bool,
    /// A task has ended.
    pub terminal: bool,
}

/// Nothing follows.
pub open spec fn is_quiet(r: Reaction) -> bool {
    r.load is None && !r.quit && !r.terminal
}

fn quiet() -> (r: Reaction)
    ensures
        is_quiet(r),
{
    Reaction { load: None, quit: false, terminal: false }
}

/// The status line of a task that has ended.
pub open spec fn finished_text(s: Summary, analysis: bool) -> Seq<char> {
    if analysis {
        "分析完成（只读）。请检查计划，然后确认执行整理。"@
    } else {
        "整理结束：已永久删除 "@ + text::decimal(s.deleted as nat) + " 项（不可恢复）· 错误 "@ + text::decimal(
            s.errors as nat,
        ) + " 项；完整记录见「进度与日志」。"@
    }
}

/// An analysis or an execution has ended: its summary is shown and its plan is asked for,
/// from the first page and without a filter. Until the answer comes nothing may be
/// executed or selected, and no row of another plan stays.
pub open spec fn task_finished(
    u0: Window,
    s0: State,
    u1: Window,
    s1: State,
    r: Reaction,
    task: Seq<char>,
    s: Summary,
    analysis: bool,
) -> bool {
    let asked = State {
        task: s1.task,
        run: Run {
            running: false,
            applying: false,
            extracting: false,
            close_after: s0.run.close_after,
            planned: (s.planned_delete + s.planned_move + s.planned_empty) as u64,
        },
        paging: s1.paging,
        ..s0
    };
    &&& s1.task is Some
    &&& s1.task->0@ == task
    &&& s1.paging.page == 0
    &&& s1.paging.page_starts@ == seq![0i64]
    &&& s1.paging.filter is None
    &&& s1 == window::counted(asked, true)
    &&& u1 == (Window {
        busy: false,
        paused: false,
        ready: false,
        plan_editable: false,
        has_task: true,
        nav: Nav { panel: 1, ..u0.nav },
        plan: u1.plan,
        progress: u1.progress,
        status: u1.status,
        ..u0
    })
    &&& u1.plan == (PlanPane {
        rows: u1.plan.rows,
        prev_enabled: false,
        next_enabled: false,
        page_label: u0.plan.page_label,
        filter: 0,
        delete_count: shown_count(s.planned_delete),
        move_count: shown_count(s.planned_move),
        git_count: shown_count(s.planned_git),
        empty_count: shown_count(s.planned_empty),
        summary: Some(s),
    })
    &&& u1.plan.rows@.len() == 0
    &&& u1.progress.part is None
    &&& u1.progress.note@ == Seq::<char>::empty()
    &&& is_line(u1.progress.metrics, figures_text(s))
    &&& u1.progress.quarantined_count == u0.progress.quarantined_count
    &&& u1.status@ == finished_text(s, analysis)
    &&& r.load is Some
    &&& tasks::is_page_load(r.load->0, asked, u0.directory@, 0, 0, None, false)
    &&& r.quit == s0.run.close_after
    &&& r.terminal
}

fn finished_line(summary: &Summary, analysis: bool) -> (r: String)
    ensures
        r@ == finished_text(*summary, analysis),
{
    if analysis {
        return "分析完成（只读）。请检查计划，然后确认执行整理。".to_owned();
    }
    let mut s = "整理结束：已永久删除 ".to_owned();
    s.append(text::number(summary.deleted).as_str());
    s.append(" 项（不可恢复）· 错误 ");
    s.append(text::number(summary.errors).as_str());
    s.append(" 项；完整记录见「进度与日志」。");
    s
}

/// An analysis or an execution has ended.
pub fn finish_task(
    ui: &mut Window,
    state: &mut State,
    task: String,
    summary: &Summary,
    analysis: bool,
) -> (r: Reaction)
    requires
        fits(*summary),
    ensures
        task_finished(
            *old(ui),
            *old(state),
            *final(ui),
            *final(state),
            r,
            task@,
            *summary,
            analysis,
        ),
{
    let asked_for = task.clone();
    state.task = Some(task);
    state.paging = Paging { page: 0, page_starts: window::first_page(), filter: None };
    state.run.running = false;
    state.run.applying = false;
    state.run.extracting = false;
    apply_summary(ui, state, summary);
    ui.busy = false;
    ui.paused = false;
    ui.ready = false;
    ui.plan_editable = false;
    ui.has_task = true;
    ui.nav.panel = 1;
    ui.plan.filter = 0;
    ui.progress.part = None;
    ui.progress.note = commands::nothing();
    ui.plan.prev_enabled = false;
    ui.plan.next_enabled = false;
    ui.status = finished_line(summary, analysis);
    ui.plan.rows = Vec::new();
    let quit: bool = state.run.close_after;
    let load = window::load_plan_state(
        state,
        asked_for.as_str(),
        ui.directory.as_str(),
        PlanQuery::page(0, 0, None, false),
    );
    Reaction { load: Some(load), quit, terminal: true }
}

/// Where the page that is shown begins.
pub open spec fn page_start(s: State) -> i64 {
    if s.paging.page < s.paging.page_starts@.len() {
        s.paging.page_starts@[s.paging.page as int]
    } else {
        0
    }
}

/// The page that is shown has been asked for again, where a task is shown.
pub open spec fn page_reloaded(
    s0: State,
    s1: State,
    load: Option<PlanLoad>,
    directory: Seq<char>,
    summary: bool,
) -> bool {
    if s0.task is Some {
        &&& s1 == window::counted(s0, true)
        &&& load is Some
        &&& tasks::is_page_load(
            load->0,
            s0,
            directory,
            page_start(s0),
            s0.paging.page,
            text::text_option(s0.paging.filter),
            summary,
        )
    } else {
        s1 == s0 && load is None
    }
}

/// Asks for the page that is shown again.
pub fn reload_page(state: &mut State, directory: &str, summary: bool) -> (r: Option<PlanLoad>)
    ensures
        page_reloaded(*old(state), *final(state), r, directory@, summary),
{
    let task: String = match &state.task {
        Some(t) => t.clone(),
        None => return None,
    };
    let start: i64 = if state.paging.page < state.paging.page_starts.len() {
        state.paging.page_starts[state.paging.page]
    } else {
        0
    };
    let filter: Option<String> = match &state.paging.filter {
        Some(f) => Some(f.clone()),
        None => None,
    };
    let page: usize = state.paging.page;
    Some(
        window::load_plan_state(
            state,
            task.as_str(),
            directory,
            PlanQuery::page(start, page, filter, summary),
        ),
    )
}

/// A task has failed or was cancelled. That a running task was cancelled is no error;
/// either way nothing may be executed until the plan has been read again.
pub open spec fn task_failed(
    u0: Window,
    s0: State,
    u1: Window,
    s1: State,
    r: Reaction,
    error: Seq<char>,
    cancelled: bool,
) -> bool {
    let by_user = cancelled && s0.run.running;
    let told = State {
        run: Run { running: false, extracting: false, ..s0.run },
        logs: s1.logs,
        log_dirty: true,
        ..s0
    };
    &&& exists|line: String| line@ == error && s1.logs@ == #[trigger] window::logged(s0.logs@, line)
    &&& page_reloaded(told, s1, r.load, u0.directory@, true)
    &&& r.quit == s0.run.close_after
    &&& r.terminal
    &&& u1 == (Window {
        busy: false,
        ready: false,
        plan_editable: false,
        paused: false,
        notice_text: u1.notice_text,
        error_text: u1.error_text,
        status: u1.status,
        progress: Progress { part: None, note: u1.progress.note, ..u0.progress },
        ..u0
    })
    &&& u1.progress.note@ == Seq::<char>::empty()
    &&& if by_user {
        u1.notice_text@ == error && u1.error_text == u0.error_text && u1.status@
            == "任务已取消；已完成的操作不会自动回滚，详情见进度与日志"@
    } else {
        u1.error_text@ == error && u1.notice_text == u0.notice_text && u1.status@
            == "任务已停止；已完成的操作不会自动回滚，详情见进度与日志"@
    }
}

/// A task has failed or was cancelled.
pub fn fail_task(ui: &mut Window, state: &mut State, error: String, cancelled: bool) -> (r: Reaction)
    ensures
        task_failed(*old(ui), *old(state), *final(ui), *final(state), r, error@, cancelled),
{
    let ghost s0 = *state;
    let by_user: bool = cancelled && state.run.running;
    state.run.running = false;
    state.run.extracting = false;
    let line = error.clone();
    let ghost pushed = line;
    window::push_event_log(&mut state.logs, line);
    assert(state.logs@ == window::logged(s0.logs@, pushed));
    state.log_dirty = true;
    ui.busy = false;
    ui.ready = false;
    ui.plan_editable = false;
    ui.paused = false;
    if by_user {
        ui.notice_text = error;
        ui.status = "任务已取消；已完成的操作不会自动回滚，详情见进度与日志".to_owned();
    } else {
        ui.error_text = error;
        ui.status = "任务已停止；已完成的操作不会自动回滚，详情见进度与日志".to_owned();
    }
    ui.progress.part = None;
    ui.progress.note = commands::nothing();
    let quit: bool = state.run.close_after;
    let load = reload_page(state, ui.directory.as_str(), true);
    Reaction { load, quit, terminal: true }
}

/// A text is the task that is shown.
pub open spec fn is_shown(s: State, task: Seq<char>) -> bool {
    s.task is Some && s.task->0@ == task
}

fn shows(state: &State, task: &str) -> (r: bool)
    ensures
        r == is_shown(*state, task@),
{
    match &state.task {
        Some(t) => text::same(t.as_str(), task),
        None => false,
    }
}

/// A row of the plan shows the selection that was saved; no other row changes.
pub open spec fn row_selected(
    before: Seq<PlanRow>,
    after: Seq<PlanRow>,
    id: i64,
    selected: bool,
) -> bool {
    match tasks::plan_row_at(before, id, 0) {
        None => after == before,
        Some(k) => after == before.update(k, PlanRow { selected, ..before[k] }),
    }
}

fn select_row(rows: &mut Vec<PlanRow>, id: i64, selected: bool)
    ensures
        row_selected(old(rows)@, final(rows)@, id, selected),
{
    let ghost before = rows@;
    if let Some(i) = tasks::find_plan_row(rows, id) {
        let mut row = rows.remove(i);
        row.selected = selected;
        rows.insert(i, row);
        assert(rows@ =~= before.update(i as int, PlanRow { selected, ..before[i as int] }));
    }
}

/// A selection was saved, or not. Once none is left to be saved the plan is asked for
/// again: its page, if one of them was not saved, so that the rows are what is stored.
pub open spec fn selection_answered(
    u0: Window,
    s0: State,
    u1: Window,
    s1: State,
    r: Reaction,
    task: Seq<char>,
    saved: Option<(i64, bool)>,
    error: Option<Seq<char>>,
) -> bool {
    let left = if s0.pending_selection == 0 {
        0usize
    } else {
        (s0.pending_selection - 1) as usize
    };
    let failed = s0.selection_failed || error is Some;
    let same = is_shown(s0, task);
    let settled = same && left == 0 && !u0.busy;
    let noted = State {
        pending_selection: left,
        selection_failed: failed && !settled,
        ..s0
    };
    &&& u1 == (Window {
        error_text: u1.error_text,
        plan: PlanPane { rows: u1.plan.rows, ..u0.plan },
        ..u0
    })
    &&& match error {
        Some(e) => u1.error_text@ == e,
        None => u1.error_text == u0.error_text,
    }
    &&& match saved {
        Some((id, selected)) => if same {
            row_selected(u0.plan.rows@, u1.plan.rows@, id, selected)
        } else {
            u1.plan.rows == u0.plan.rows
        },
        None => u1.plan.rows == u0.plan.rows,
    }
    &&& !r.quit
    &&& !r.terminal
    &&& if settled && failed {
        page_reloaded(noted, s1, r.load, u0.directory@, false)
    } else if settled {
        &&& s1 == window::counted(noted, false)
        &&& r.load is Some
        &&& window::is_load(r.load->0, noted, task, u0.directory@)
        &&& r.load->0.query.page is None
        &&& !r.load->0.query.summary
    } else {
        s1 == noted && r.load is None
    }
}

/// A selection was saved, or not.
pub fn selection_saved(
    ui: &mut Window,
    state: &mut State,
    task: &str,
    saved: Option<(i64, bool)>,
    error: Option<String>,
) -> (r: Reaction)
    ensures
        selection_answered(
            *old(ui),
            *old(state),
            *final(ui),
            *final(state),
            r,
            task@,
            saved,
            text::text_option(error),
        ),
{
    if state.pending_selection > 0 {
        state.pending_selection = state.pending_selection - 1;
    }
    if let Some(e) = error {
        ui.error_text = e;
        state.selection_failed = true;
    }
    let same: bool = shows(state, task);
    if same {
        if let Some((id, selected)) = saved {
            select_row(&mut ui.plan.rows, id, selected);
        }
    }
    if !(same && state.pending_selection == 0 && !ui.busy) {
        return quiet();
    }
    let failed: bool = state.selection_failed;
    state.selection_failed = false;
    let load: Option<PlanLoad> = if failed {
        reload_page(state, ui.directory.as_str(), false)
    } else {
        Some(
            window::load_plan_state(
                state,
                task,
                ui.directory.as_str(),
                PlanQuery::readiness(),
            ),
        )
    };
    Reaction { load, quit: false, terminal: false }
}

/// The word for a kind of action.
pub open spec fn kind_label(kind: ActionKind) -> Seq<char> {
    match kind {
        ActionKind::Delete => "删除"@,
        ActionKind::Move => "移动/重命名"@,
        ActionKind::Hardlink => "硬链接"@,
        ActionKind::EmptyDirectory => "空目录复查"@,
    }
}

/// Where an action leads to, or what it keeps.
pub open spec fn target_label(a: Action) -> Seq<char> {
    match a.target {
        Some(t) => t@,
        None => match a.keeper {
            Some(k) => "保留 "@ + k.0@,
            None => Seq::empty(),
        },
    }
}

/// The reason of an action; that empty directories go cannot be changed.
pub open spec fn reason_label(a: Action) -> Seq<char> {
    if a.kind == ActionKind::EmptyDirectory {
        a.reason@ + "（整理完成后强制清理，不可取消）"@
    } else {
        a.reason@
    }
}

/// The row of an action.
pub open spec fn is_plan_row(row: PlanRow, a: Action) -> bool {
    &&& row.id == a.id
    &&& row.selected == a.selected
    &&& row.kind@ == kind_label(a.kind)
    &&& row.source@ == a.source@
    &&& row.target@ == target_label(a)
    &&& row.reason@ == reason_label(a)
    &&& row.state@ == window::row_state(a.selected, a.state@)
}

/// The row of an action.
pub fn plan_row(a: &Action) -> (r: PlanRow)
    ensures
        is_plan_row(r, *a),
{
    let kind: &'static str = match a.kind {
        ActionKind::Delete => "删除",
        ActionKind::Move => "移动/重命名",
        ActionKind::Hardlink => "硬链接",
        ActionKind::EmptyDirectory => "空目录复查",
    };
    let target: String = match &a.target {
        Some(t) => t.clone(),
        None => match &a.keeper {
            Some(k) => {
                let mut s = "保留 ".to_owned();
                s.append(k.0.as_str());
                s
            },
            None => commands::nothing(),
        },
    };
    let mut reason = a.reason.clone();
    if a.kind == ActionKind::EmptyDirectory {
        reason.append("（整理完成后强制清理，不可取消）");
    }
    PlanRow {
        id: a.id,
        selected: a.selected,
        kind: kind.to_owned(),
        source: a.source.clone(),
        target,
        reason,
        state: window::plan_row_state(a.selected, a.state.as_str()),
    }
}

/// How many actions a page shows.
pub const PAGE_ROWS: usize = 100;

/// How many of so many actions a page shows.
pub open spec fn rows_of(n: nat) -> nat {
    if n > PAGE_ROWS {
        PAGE_ROWS as nat
    } else {
        n
    }
}

/// The rows of a page.
pub open spec fn are_plan_rows(rows: Seq<PlanRow>, actions: Seq<Action>) -> bool {
    &&& rows.len() == rows_of(actions.len())
    &&& forall|i: int| 0 <= i < rows.len() ==> is_plan_row(#[trigger] rows[i], actions[i])
}

fn plan_rows(actions: &Vec<Action>) -> (r: Vec<PlanRow>)
    ensures
        are_plan_rows(r@, actions@),
{
    let mut rows: Vec<PlanRow> = Vec::new();
    let mut i: usize = 0;
    while i < actions.len() && i < PAGE_ROWS
        invariant
            i <= actions@.len(),
            i <= PAGE_ROWS,
            rows@.len() == i,
            forall|k: int| 0 <= k < i ==> is_plan_row(#[trigger] rows@[k], actions@[k]),
        decreases actions.len() - i,
    {
        rows.push(plan_row(&actions[i]));
        i = i + 1;
    }
    rows
}

/// The label of a page.
pub open spec fn page_text(page: usize) -> Seq<char> {
    "第 "@ + text::decimal((page + 1) as nat) + " 页 · 每页最多 100 条"@
}

fn page_label(page: usize) -> (r: String)
    requires
        page < usize::MAX,
    ensures
        r@ == page_text(page),
{
    let mut s = "第 ".to_owned();
    s.append(text::number((page + 1) as u64).as_str());
    s.append(" 页 · 每页最多 100 条");
    s
}

/// A page that came is the one that was asked for last, with the filter that is set.
pub open spec fn page_accepted(
    generation: u64,
    latest: u64,
    filter: Option<Seq<char>>,
    current: Option<Seq<char>>,
) -> bool {
    generation == latest && filter == current
}

/// Whether two filters are the same.
fn same_filter(a: &Option<String>, b: &Option<String>) -> (r: bool)
    ensures
        r == (text::text_option(*a) == text::text_option(*b)),
{
    match (a, b) {
        (Some(x), Some(y)) => text::same(x.as_str(), y.as_str()),
        (None, None) => true,
        _ => false,
    }
}

/// Whether a page that came may be shown: it is the newest that was asked for, with the
/// filter that is set. Which page it is does not matter: a page is turned only when it has
/// come.
pub fn plan_page_event_accepted(
    generation: u64,
    latest: u64,
    event_page: usize,
    event_filter: &Option<String>,
    ui_page: usize,
    ui_filter: &Option<String>,
) -> (r: bool)
    ensures
        r == page_accepted(
            generation,
            latest,
            text::text_option(*event_filter),
            text::text_option(*ui_filter),
        ),
{
    generation == latest && same_filter(event_filter, ui_filter)
}

/// Where the known pages begin, after a page came.
pub open spec fn starts_after(starts: Seq<i64>, actions: Seq<Action>, page: usize) -> Seq<i64> {
    if actions.len() > PAGE_ROWS && starts.len() <= page + 1 {
        starts.push(actions[PAGE_ROWS - 1].id)
    } else {
        starts
    }
}

/// The rows of a page are shown.
#[verifier::opaque]
pub open spec fn rows_shown(
    u0: Window,
    s0: State,
    u1: Window,
    s1: State,
    actions: Seq<Action>,
    page: usize,
) -> bool {
    &&& u1 == (Window {
        plan: PlanPane {
            rows: u1.plan.rows,
            prev_enabled: page > 0,
            next_enabled: actions.len() > PAGE_ROWS,
            page_label: u1.plan.page_label,
            ..u0.plan
        },
        ..u0
    })
    &&& are_plan_rows(u1.plan.rows@, actions)
    &&& u1.plan.page_label@ == page_text(page)
    &&& s1 == (State {
        paging: Paging { page, page_starts: s1.paging.page_starts, ..s0.paging },
        ..s0
    })
    &&& s1.paging.page_starts@ == starts_after(s0.paging.page_starts@, actions, page)
}

fn next_start(starts: &mut Vec<i64>, actions: &Vec<Action>, page: usize)
    requires
        page < usize::MAX,
    ensures
        final(starts)@ == starts_after(old(starts)@, actions@, page),
{
    if actions.len() > PAGE_ROWS && starts.len() <= page + 1 {
        starts.push(actions[PAGE_ROWS - 1].id);
    }
}

fn show_rows(ui: &mut Window, state: &mut State, actions: &Vec<Action>, page: usize)
    requires
        page < usize::MAX,
    ensures
        rows_shown(*old(ui), *old(state), *final(ui), *final(state), actions@, page),
{
    proof {
        reveal(rows_shown);
    }
    next_start(&mut state.paging.page_starts, actions, page);
    state.paging.page = page;
    let rows = plan_rows(actions);
    let label = page_label(page);
    ui.plan.prev_enabled = page > 0;
    ui.plan.next_enabled = actions.len() > PAGE_ROWS;
    ui.plan.page_label = label;
    ui.plan.rows = rows;
}

/// The summary of a snapshot is shown, where it has one.
#[verifier::opaque]
pub open spec fn summary_of(u0: Window, s0: State, u1: Window, s1: State, s: Option<PlanSnapshot>) ->
    bool {
    if s is Some && s->0.summary is Some {
        summary_applied(u0, s0, u1, s1, s->0.summary->0)
    } else {
        u1 == u0 && s1 == s0
    }
}

/// A page came: late ones change nothing. The rows are shown, the summary if it came too,
/// and the snapshot says whether the plan may be executed, unless a task runs, a selection
/// is being saved or a newer snapshot was asked for.
pub open spec fn page_came(
    u0: Window,
    s0: State,
    u1: Window,
    s1: State,
    task: Seq<char>,
    actions: Seq<Action>,
    page: usize,
    generation: u64,
    filter: Option<Seq<char>>,
    state_generation: u64,
    snapshot: Option<PlanSnapshot>,
) -> bool {
    if is_shown(s0, task) && page_accepted(
        generation,
        s0.generations.page,
        filter,
        text::text_option(s0.paging.filter),
    ) {
        let ub = Window {
            ready: u0.ready,
            plan_editable: u0.plan_editable,
            status: u0.status,
            ..u1
        };
        let sb = State { status_pending: s0.status_pending, ..s1 };
        let ua = Window {
            plan: PlanPane {
                summary: u0.plan.summary,
                delete_count: u0.plan.delete_count,
                move_count: u0.plan.move_count,
                git_count: u0.plan.git_count,
                empty_count: u0.plan.empty_count,
                ..u1.plan
            },
            progress: u0.progress,
            ..ub
        };
        let sa = State { run: s0.run, ..sb };
        &&& rows_shown(u0, s0, ua, sa, actions, page)
        &&& summary_of(ua, sa, ub, sb, snapshot)
        &&& if !u0.busy && s0.pending_selection == 0 && s0.generations.state == state_generation {
            readiness::readiness_applied(ub, sb, u1, s1, snapshot)
        } else {
            u1 == ub && s1 == sb
        }
    } else {
        u1 == u0 && s1 == s0
    }
}

fn show_summary(ui: &mut Window, state: &mut State, snapshot: &Option<PlanSnapshot>)
    requires
        snapshot is Some && snapshot->0.summary is Some ==> fits(snapshot->0.summary->0),
    ensures
        summary_of(*old(ui), *old(state), *final(ui), *final(state), *snapshot),
{
    proof {
        reveal(summary_of);
    }
    if let Some(s) = snapshot {
        if let Some(summary) = &s.summary {
            apply_summary(ui, state, summary);
        }
    }
}

/// A page came.
pub fn plan_page_came(
    ui: &mut Window,
    state: &mut State,
    task: &str,
    actions: &Vec<Action>,
    page: usize,
    generation: u64,
    filter: &Option<String>,
    state_generation: u64,
    snapshot: &Option<PlanSnapshot>,
)
    requires
        page < usize::MAX,
        snapshot is Some && snapshot->0.summary is Some ==> fits(snapshot->0.summary->0),
    ensures
        page_came(
            *old(ui),
            *old(state),
            *final(ui),
            *final(state),
            task@,
            actions@,
            page,
            generation,
            text::text_option(*filter),
            state_generation,
            *snapshot,
        ),
        final(state).paging.page == page || final(state).paging.page == old(state).paging.page,
{
    if !shows(state, task) {
        return ;
    }
    if !plan_page_event_accepted(
        generation,
        state.generations.page,
        page,
        filter,
        state.paging.page,
        &state.paging.filter,
    ) {
        return ;
    }
    let ghost u0 = *ui;
    let ghost s0 = *state;
    show_rows(ui, state, actions, page);
    let ghost ua = *ui;
    let ghost sa = *state;
    show_summary(ui, state, snapshot);
    let ghost ub = *ui;
    let ghost sb = *state;
    if !ui.busy && state.pending_selection == 0 && state.generations.state == state_generation {
        readiness::apply_plan_readiness(ui, state, snapshot);
    }
    proof {
        rows_keep(u0, s0, ua, sa, actions@, page);
        summary_keeps(ua, sa, ub, sb, *snapshot);
        page_parts(
            u0,
            s0,
            ua,
            sa,
            ub,
            sb,
            *ui,
            *state,
            task@,
            actions@,
            page,
            generation,
            text::text_option(*filter),
            state_generation,
            *snapshot,
        );
    }
}

pub(crate) proof fn rows_keep(
    u0: Window,
    s0: State,
    ua: Window,
    sa: State,
    actions: Seq<Action>,
    page: usize,
)
    requires
        rows_shown(u0, s0, ua, sa, actions, page),
    ensures
        ua == (Window { plan: ua.plan, ..u0 }),
        ua.plan.summary == u0.plan.summary,
        ua.plan.delete_count == u0.plan.delete_count,
        ua.plan.move_count == u0.plan.move_count,
        ua.plan.git_count == u0.plan.git_count,
        ua.plan.empty_count == u0.plan.empty_count,
        sa == (State { paging: sa.paging, ..s0 }),
        sa.paging.page == page,
{
    reveal(rows_shown);
}

proof fn summary_keeps(ua: Window, sa: State, ub: Window, sb: State, s: Option<PlanSnapshot>)
    requires
        summary_of(ua, sa, ub, sb, s),
    ensures
        ub == (Window { plan: ub.plan, progress: ub.progress, ..ua }),
        ub.plan == (PlanPane {
            summary: ub.plan.summary,
            delete_count: ub.plan.delete_count,
            move_count: ub.plan.move_count,
            git_count: ub.plan.git_count,
            empty_count: ub.plan.empty_count,
            ..ua.plan
        }),
        sb == (State { run: sb.run, ..sa }),
{
    reveal(summary_of);
}

proof fn page_parts(
    u0: Window,
    s0: State,
    ua: Window,
    sa: State,
    ub: Window,
    sb: State,
    u1: Window,
    s1: State,
    task: Seq<char>,
    actions: Seq<Action>,
    page: usize,
    generation: u64,
    filter: Option<Seq<char>>,
    state_generation: u64,
    snapshot: Option<PlanSnapshot>,
)
    requires
        is_shown(s0, task),
        page_accepted(
            generation,
            s0.generations.page,
            filter,
            text::text_option(s0.paging.filter),
        ),
        rows_shown(u0, s0, ua, sa, actions, page),
        summary_of(ua, sa, ub, sb, snapshot),
        ua == (Window { plan: ua.plan, ..u0 }),
        ua.plan.summary == u0.plan.summary,
        ua.plan.delete_count == u0.plan.delete_count,
        ua.plan.move_count == u0.plan.move_count,
        ua.plan.git_count == u0.plan.git_count,
        ua.plan.empty_count == u0.plan.empty_count,
        sa == (State { paging: sa.paging, ..s0 }),
        ub == (Window { plan: ub.plan, progress: ub.progress, ..ua }),
        ub.plan == (PlanPane {
            summary: ub.plan.summary,
            delete_count: ub.plan.delete_count,
            move_count: ub.plan.move_count,
            git_count: ub.plan.git_count,
            empty_count: ub.plan.empty_count,
            ..ua.plan
        }),
        sb == (State { run: sb.run, ..sa }),
        if !u0.busy && s0.pending_selection == 0 && s0.generations.state == state_generation {
            readiness::readiness_applied(ub, sb, u1, s1, snapshot)
        } else {
            u1 == ub && s1 == sb
        },
    ensures
        page_came(
            u0,
            s0,
            u1,
            s1,
            task,
            actions,
            page,
            generation,
            filter,
            state_generation,
            snapshot,
        ),
{
    assert((Window {
        ready: u0.ready,
        plan_editable: u0.plan_editable,
        status: u0.status,
        ..u1
    }) == ub);
    assert((State { status_pending: s0.status_pending, ..s1 }) == sb);
    assert((Window {
        plan: PlanPane {
            summary: u0.plan.summary,
            delete_count: u0.plan.delete_count,
            move_count: u0.plan.move_count,
            git_count: u0.plan.git_count,
            empty_count: u0.plan.empty_count,
            ..u1.plan
        },
        progress: u0.progress,
        ..ub
    }) == ua);
    assert((State { run: s0.run, ..sb }) == sa);
}

/// A snapshot came: a late one, or one while a task runs or a selection is being saved,
/// changes nothing.
pub open spec fn snapshot_came(
    u0: Window,
    s0: State,
    u1: Window,
    s1: State,
    task: Seq<char>,
    generation: u64,
    snapshot: Option<PlanSnapshot>,
) -> bool {
    if is_shown(s0, task) && s0.generations.state == generation && !u0.busy
        && s0.pending_selection == 0 {
        readiness::readiness_applied(u0, s0, u1, s1, snapshot)
    } else {
        u1 == u0 && s1 == s0
    }
}

/// A snapshot came.
pub fn plan_state_came(
    ui: &mut Window,
    state: &mut State,
    task: &str,
    generation: u64,
    snapshot: &Option<PlanSnapshot>,
)
    ensures
        snapshot_came(
            *old(ui),
            *old(state),
            *final(ui),
            *final(state),
            task@,
            generation,
            *snapshot,
        ),
{
    if shows(state, task) && state.generations.state == generation && !ui.busy
        && state.pending_selection == 0 {
        readiness::apply_plan_readiness(ui, state, snapshot);
    }
}

/// An error is told; the controls of the plan are set again, so that a page that did not
/// come leaves none of them waiting.
pub open spec fn error_told(u0: Window, u1: Window, s: State, error: Seq<char>) -> bool {
    let next = s.paging.page + 1 < s.paging.page_starts@.len();
    &&& u1.error_text@ == error
    &&& if u0.has_task && !u0.busy {
        &&& u1 == (Window {
            error_text: u1.error_text,
            plan: PlanPane {
                prev_enabled: s.paging.page > 0,
                next_enabled: next,
                page_label: u1.plan.page_label,
                ..u0.plan
            },
            ..u0
        })
        &&& u1.plan.page_label@ == page_text(s.paging.page)
    } else {
        u1 == (Window { error_text: u1.error_text, ..u0 })
    }
}

/// Tells an error.
pub fn tell_error(ui: &mut Window, state: &State, error: String)
    requires
        state.paging.page < usize::MAX,
    ensures
        error_told(*old(ui), *final(ui), *state, error@),
{
    ui.error_text = error;
    if ui.has_task && !ui.busy {
        let page: usize = state.paging.page;
        ui.plan.prev_enabled = page > 0;
        ui.plan.next_enabled = page + 1 < state.paging.page_starts.len();
        ui.plan.page_label = page_label(page);
    }
}

/// The question before an extraction once the archives are counted.
pub open spec fn counted_text(n: u64) -> Seq<char> {
    "清点到 "@ + text::decimal(n as nat) + " 个压缩包（按当前扫描范围，已排除「解压失败」目录）。"@
}

/// The archives were counted: only the count that the open question waits for unlocks it,
/// or closes it with an error.
pub open spec fn count_came(
    u0: Window,
    u1: Window,
    s: State,
    generation: u64,
    count: Result<u64, String>,
) -> bool {
    if u0.dialog.kind == 1 && u0.nav.screen == 2 && generation == s.generations.extract {
        match count {
            Ok(n) => {
                &&& u1 == (Window { dialog: u1.dialog, ..u0 })
                &&& u1.dialog == (Dialog {
                    text: u1.dialog.text,
                    pending: false,
                    ..u0.dialog
                })
                &&& u1.dialog.text@ == tasks::confirm_extract(counted_text(n), u0.directory@)
            },
            Err(e) => {
                &&& u1 == (Window { dialog: u1.dialog, error_text: u1.error_text, ..u0 })
                &&& u1.dialog == (Dialog { kind: 0, pending: false, ..u0.dialog })
                &&& u1.error_text@ == e@
            },
        }
    } else {
        u1 == u0
    }
}

/// The archives were counted.
pub fn extract_count(ui: &mut Window, state: &State, generation: u64, count: Result<u64, String>)
    ensures
        count_came(*old(ui), *final(ui), *state, generation, count),
{
    if ui.dialog.kind == 1 && ui.nav.screen == 2 && generation == state.generations.extract {
        match count {
            Ok(n) => {
                let mut s = "清点到 ".to_owned();
                s.append(text::number(n).as_str());
                s.append(" 个压缩包（按当前扫描范围，已排除「解压失败」目录）。");
                ui.dialog.text = tasks::extract_confirm_text(s.as_str(), ui.directory.as_str());
                ui.dialog.pending = false;
            },
            Err(e) => {
                ui.dialog.kind = 0;
                ui.dialog.pending = false;
                ui.error_text = e;
            },
        }
    }
}

/// The status line of an extraction that has ended: what was deleted and what was kept.
pub open spec fn extracted_text(s: Summary) -> Seq<char> {
    if s.archives_failed == 0 {
        "解压结束：成功 "@ + text::decimal(s.archives_ok as nat)
            + " 包；完整成功解出的原压缩包及分卷已永久删除（不经回收站，不可恢复），已有文件与已落盘结果保留；详情见「进度与日志」。"@
    } else {
        "解压结束：成功 "@ + text::decimal(s.archives_ok as nat)
            + " 包（原压缩包及分卷已永久删除，不可恢复）；未完全解开 "@ + text::decimal(s.archives_failed as nat)
            + " 包（其中 "@ + text::decimal(s.archives_quarantined as nat)
            + " 个原包或分卷已移入「解压失败」）保留待处理，详情见「进度与日志」。"@
    }
}

fn extracted_line(s: &Summary) -> (r: String)
    ensures
        r@ == extracted_text(*s),
{
    let mut t = "解压结束：成功 ".to_owned();
    t.append(text::number(s.archives_ok).as_str());
    if s.archives_failed == 0 {
        t.append(
            " 包；完整成功解出的原压缩包及分卷已永久删除（不经回收站，不可恢复），已有文件与已落盘结果保留；详情见「进度与日志」。",
        );
    } else {
        t.append(" 包（原压缩包及分卷已永久删除，不可恢复）；未完全解开 ");
        t.append(text::number(s.archives_failed).as_str());
        t.append(" 包（其中 ");
        t.append(text::number(s.archives_quarantined).as_str());
        t.append(" 个原包或分卷已移入「解压失败」）保留待处理，详情见「进度与日志」。");
    }
    t
}

/// An extraction has ended; the plan of the other tool is not touched.
pub open spec fn extract_ended(
    u0: Window,
    s0: State,
    u1: Window,
    s1: State,
    r: Reaction,
    s: Summary,
) -> bool {
    &&& s1 == (State { run: Run { running: false, extracting: false, ..s0.run }, ..s0 })
    &&& u1 == (Window {
        busy: false,
        paused: false,
        progress: u1.progress,
        status: u1.status,
        ..u0
    })
    &&& u1.progress == (Progress {
        part: None,
        note: u1.progress.note,
        metrics: Metrics::Extraction(s),
        quarantined_count: shown_count(s.archives_quarantined),
    })
    &&& u1.progress.note@ == Seq::<char>::empty()
    &&& u1.status@ == extracted_text(s)
    &&& r.load is None
    &&& r.quit == s0.run.close_after
    &&& r.terminal
}

/// An extraction has ended.
pub fn extract_done(ui: &mut Window, state: &mut State, summary: &Summary) -> (r: Reaction)
    ensures
        extract_ended(*old(ui), *old(state), *final(ui), *final(state), r, *summary),
{
    state.run.running = false;
    state.run.extracting = false;
    ui.busy = false;
    ui.paused = false;
    ui.progress = Progress {
        part: None,
        note: commands::nothing(),
        metrics: Metrics::Extraction(*summary),
        quarantined_count: show_count(summary.archives_quarantined),
    };
    ui.status = extracted_line(summary);
    Reaction { load: None, quit: state.run.close_after, terminal: true }
}

/// The numbers of an event can be shown.
pub open spec fn event_fits(e: Event) -> bool {
    match e {
        Event::Ready(_, s) => fits(s),
        Event::Done(_, s) => fits(s),
        Event::PlanPage(_, _, page, _, _, _, snapshot) => page < usize::MAX && (snapshot is Some
            && snapshot->0.summary is Some ==> fits(snapshot->0.summary->0)),
        _ => true,
    }
}

/// The status line that waits to be shown after an event. The end of a task has a line of
/// its own, which goes before any line that waits.
pub open spec fn waits_after(u: Window, waiting: Option<String>, e: Event) -> Option<Seq<char>> {
    match e {
        Event::Status(line) => if u.paused {
            text::text_option(waiting)
        } else {
            Some(line@)
        },
        Event::Ready(_, _) => None,
        Event::Done(_, _) => None,
        Event::Failed(_) => None,
        Event::ExtractDone(_, _) => None,
        _ => text::text_option(waiting),
    }
}

/// What an event does to the window and to what is behind it.
pub open spec fn applied(
    u0: Window,
    s0: State,
    u1: Window,
    s1: State,
    e: Event,
    cancelled: bool,
    r: Reaction,
) -> bool {
    match e {
        Event::Status(_) => u1 == u0 && s1 == s0 && is_quiet(r),
        Event::Log(line) => u1 == u0 && s1 == (State { logs: s1.logs, log_dirty: true, ..s0 })
            && s1.logs@ == window::logged(s0.logs@, line) && is_quiet(r),
        Event::Ready(task, s) => task_finished(u0, s0, u1, s1, r, task@, s, true),
        Event::Done(task, s) => task_finished(u0, s0, u1, s1, r, task@, s, false),
        Event::Failed(error) => task_failed(u0, s0, u1, s1, r, error@, cancelled),
        Event::SelectionSaved(task, saved, error) => selection_answered(
            u0,
            s0,
            u1,
            s1,
            r,
            task@,
            saved,
            text::text_option(error),
        ),
        Event::PlanPage(task, actions, page, g, filter, sg, snapshot) => page_came(
            u0,
            s0,
            u1,
            s1,
            task@,
            actions@,
            page,
            g,
            text::text_option(filter),
            sg,
            snapshot,
        ) && is_quiet(r),
        Event::PlanState(task, g, snapshot) => snapshot_came(u0, s0, u1, s1, task@, g, snapshot)
            && is_quiet(r),
        Event::Notice(line) => u1 == (Window { notice_text: line, ..u0 }) && s1 == s0 && is_quiet(r),
        Event::Error(error) => error_told(u0, u1, s0, error@) && s1 == s0 && is_quiet(r),
        Event::PlanLoadFailed(error, g, filter) => s1 == s0 && is_quiet(r) && if page_accepted(
            g,
            s0.generations.page,
            text::text_option(filter),
            text::text_option(s0.paging.filter),
        ) {
            u1 == (Window { error_text: error, ..u0 })
        } else {
            u1 == u0
        },
        Event::ExtractCount(g, count) => count_came(u0, u1, s0, g, count) && s1 == s0 && is_quiet(r),
        Event::ExtractDone(_, s) => extract_ended(u0, s0, u1, s1, r, s),
    }
}

/// Applies an event. The caller says whether the task that runs was cancelled.
pub fn apply_event(
    ui: &mut Window,
    state: &mut State,
    waiting: &mut Option<String>,
    event: Event,
    cancelled: bool,
) -> (r: Reaction)
    requires
        event_fits(event),
        old(state).paging.page < usize::MAX,
    ensures
        applied(*old(ui), *old(state), *final(ui), *final(state), event, cancelled, r),
        text::text_option(*final(waiting)) == waits_after(*old(ui), *old(waiting), event),
        final(state).paging.page < usize::MAX,
{
    match event {
        Event::Status(line) => {
            if !ui.paused {
                *waiting = Some(line);
            }
            quiet()
        },
        Event::Log(line) => {
            window::push_event_log(&mut state.logs, line);
            state.log_dirty = true;
            quiet()
        },
        Event::Ready(task, summary) => {
            *waiting = None;
            finish_task(ui, state, task, &summary, true)
        },
        Event::Done(task, summary) => {
            *waiting = None;
            finish_task(ui, state, task, &summary, false)
        },
        Event::Failed(error) => {
            *waiting = None;
            fail_task(ui, state, error, cancelled)
        },
        Event::SelectionSaved(task, saved, error) => selection_saved(
            ui,
            state,
            task.as_str(),
            saved,
            error,
        ),
        Event::PlanPage(task, actions, page, generation, filter, state_generation, snapshot) => {
            plan_page_came(
                ui,
                state,
                task.as_str(),
                &actions,
                page,
                generation,
                &filter,
                state_generation,
                &snapshot,
            );
            quiet()
        },
        Event::PlanState(task, generation, snapshot) => {
            plan_state_came(ui, state, task.as_str(), generation, &snapshot);
            quiet()
        },
        Event::Notice(line) => {
            ui.notice_text = line;
            quiet()
        },
        Event::Error(error) => {
            tell_error(ui, state, error);
            quiet()
        },
        Event::PlanLoadFailed(error, generation, filter) => {
            if generation == state.generations.page && same_filter(
                &filter,
                &state.paging.filter,
            ) {
                ui.error_text = error;
            }
            quiet()
        },
        Event::ExtractCount(generation, count) => {
            extract_count(ui, state, generation, count);
            quiet()
        },
        Event::ExtractDone(_task, summary) => {
            *waiting = None;
            extract_done(ui, state, &summary)
        },
    }
}

/// Counts are shown as they are, as long as they can be shown.
pub proof fn law_counts_are_shown(n: u64)
    ensures
        n <= 0x7fff_ffff ==> shown_count(n) == n,
        n > 0x7fff_ffff ==> shown_count(n) == 0x7fff_ffff,
{
}

/// A summary is shown with its own numbers: each kind of action under its own count, and all
/// of them as what is planned.
pub proof fn law_what_is_shown_of_a_summary(u0: Window, s0: State, u1: Window, s1: State, s: Summary)
    requires
        summary_applied(u0, s0, u1, s1, s),
        fits(s),
    ensures
        s.planned_delete <= i32::MAX ==> u1.plan.delete_count == s.planned_delete,
        s.planned_move <= i32::MAX ==> u1.plan.move_count == s.planned_move,
        s.planned_git <= i32::MAX ==> u1.plan.git_count == s.planned_git,
        s.planned_empty <= i32::MAX ==> u1.plan.empty_count == s.planned_empty,
        s1.run.planned == s.planned_delete + s.planned_move + s.planned_empty,
        u1.plan.summary == Some(s),
        u1.ready == u0.ready && u1.busy == u0.busy && u1.plan.rows == u0.plan.rows,
        is_line(
            u1.progress.metrics,
            "扫描 "@ + text::decimal(s.scanned as nat) + " 个文件 · 错误 "@ + text::decimal(
                s.errors as nat,
            ) + " 项 · 已永久删除 "@ + text::decimal(s.deleted as nat) + " 项"@,
        ),
{
}

/// A task that has ended leaves nothing that may be executed; its plan is asked for from the
/// first page on and without a filter, and the window closes where the user wanted that.
pub proof fn law_what_follows_the_end_of_a_task(
    u0: Window,
    s0: State,
    u1: Window,
    s1: State,
    r: Reaction,
    task: Seq<char>,
    s: Summary,
    analysis: bool,
)
    requires
        task_finished(u0, s0, u1, s1, r, task, s, analysis),
    ensures
        !u1.busy && !u1.ready && !u1.plan_editable && !u1.paused && u1.has_task,
        u1.plan.rows@.len() == 0 && u1.plan.filter == 0,
        is_shown(s1, task),
        !s1.run.running && !s1.run.applying && !s1.run.extracting,
        s1.paging.page == 0 && s1.paging.filter is None,
        r.load is Some && r.load->0.task@ == task && r.load->0.directory@ == u0.directory@,
        r.load->0.query.page is Some && r.load->0.query.page->0.page == 0
            && r.load->0.query.page->0.start == 0,
        r.load->0.page_generation == s1.generations.page && r.load->0.state_generation
            == s1.generations.state,
        r.quit == s0.run.close_after && r.terminal,
        analysis ==> u1.status@
            == "分析完成（只读）。请检查计划，然后确认执行整理。"@,
{
}

/// A failure is told as an error and logged; that the user cancelled a running task is only
/// a notice. Either way nothing may be executed.
pub proof fn law_what_follows_a_failure(
    u0: Window,
    s0: State,
    u1: Window,
    s1: State,
    r: Reaction,
    error: Seq<char>,
    cancelled: bool,
)
    requires
        task_failed(u0, s0, u1, s1, r, error, cancelled),
    ensures
        !u1.busy && !u1.ready && !u1.plan_editable && !u1.paused,
        !s1.run.running && !s1.run.extracting,
        s1.log_dirty && s1.logs@.len() > 0 && s1.logs@.last()@ == error,
        cancelled && s0.run.running ==> u1.notice_text@ == error && u1.error_text == u0.error_text,
        !(cancelled && s0.run.running) ==> u1.error_text@ == error && u1.notice_text
            == u0.notice_text,
        s0.task is Some <==> r.load is Some,
        r.load is Some ==> r.load->0.query.summary && r.load->0.query.page is Some
            && r.load->0.query.page->0.page == s0.paging.page,
        r.quit == s0.run.close_after && r.terminal,
{
}

/// One selection less waits to be saved. Once none is left the plan of the task that is shown
/// is asked for again: its rows too where one could not be saved, which is told.
pub proof fn law_what_follows_a_selection(
    u0: Window,
    s0: State,
    u1: Window,
    s1: State,
    r: Reaction,
    task: Seq<char>,
    saved: Option<(i64, bool)>,
    error: Option<Seq<char>>,
)
    requires
        selection_answered(u0, s0, u1, s1, r, task, saved, error),
    ensures
        s0.pending_selection > 0 ==> s1.pending_selection == s0.pending_selection - 1,
        s0.pending_selection == 0 ==> s1.pending_selection == 0,
        error matches Some(e) ==> u1.error_text@ == e,
        error is None ==> u1.error_text == u0.error_text,
        u1.ready == u0.ready,
        r.load is Some <==> is_shown(s0, task) && s0.pending_selection <= 1 && !u0.busy,
        r.load is Some ==> (r.load->0.query.page is Some <==> s0.selection_failed || error is Some),
        r.load is Some ==> !s1.selection_failed,
        r.load is None && error is Some ==> s1.selection_failed,
        !r.quit && !r.terminal,
        !is_shown(s0, task) ==> u1.plan.rows == u0.plan.rows,
{
}

/// A row shows its action: where it comes from, where it goes or what is kept in its place,
/// and that empty directories go cannot be changed.
pub proof fn law_what_a_row_of_a_plan_shows(row: PlanRow, a: Action)
    requires
        is_plan_row(row, a),
    ensures
        row.id == a.id && row.selected == a.selected && row.source@ == a.source@,
        a.target matches Some(t) ==> row.target@ == t@,
        a.target is None ==> (a.keeper matches Some(k) ==> row.target@ == "保留 "@ + k.0@),
        a.target is None && a.keeper is None ==> row.target@.len() == 0,
        a.kind == ActionKind::EmptyDirectory ==> row.reason@ == a.reason@
            + "（整理完成后强制清理，不可取消）"@,
        a.kind != ActionKind::EmptyDirectory ==> row.reason@ == a.reason@,
        a.kind == ActionKind::Delete ==> row.kind@ == "删除"@,
        a.kind == ActionKind::Move ==> row.kind@ == "移动/重命名"@,
        a.kind == ActionKind::Hardlink ==> row.kind@ == "硬链接"@,
        a.kind == ActionKind::EmptyDirectory ==> row.kind@ == "空目录复查"@,
        a.state@ == "pending"@ && a.selected ==> row.state@ == "待执行"@,
        a.state@ == "pending"@ && !a.selected ==> row.state@ == "已取消勾选"@,
{
}

/// A page shows up to a hundred actions, in their order; a page follows exactly where there
/// are more, and it begins behind the last that is shown.
pub proof fn law_what_a_page_shows(
    u0: Window,
    s0: State,
    u1: Window,
    s1: State,
    actions: Seq<Action>,
    page: usize,
    i: int,
)
    requires
        rows_shown(u0, s0, u1, s1, actions, page),
        0 <= i < actions.len(),
    ensures
        actions.len() <= 100 ==> u1.plan.rows@.len() == actions.len() && !u1.plan.next_enabled,
        actions.len() > 100 ==> u1.plan.rows@.len() == 100 && u1.plan.next_enabled,
        i < 100 ==> u1.plan.rows@[i].id == actions[i].id,
        u1.plan.prev_enabled == (page > 0),
        s1.paging.page == page,
        actions.len() > 100 && s0.paging.page_starts@.len() == page + 1
            ==> s1.paging.page_starts@.len() == page + 2 && s1.paging.page_starts@[page + 1]
            == actions[99].id,
        actions.len() <= 100 || s0.paging.page_starts@.len() > page + 1 ==> s1.paging.page_starts@
            == s0.paging.page_starts@,
        u1.plan.page_label@ == "第 "@ + text::decimal((page + 1) as nat) + " 页 · 每页最多 100 条"@,
{
    reveal(rows_shown);
    if i < 100 {
        assert(is_plan_row(u1.plan.rows@[i], actions[i]));
    }
}

/// A page is shown where it is the last that was asked for, with the filter that is set; its
/// rows are shown whether or not its snapshot counts.
pub proof fn law_which_pages_are_shown(
    generation: u64,
    latest: u64,
    filter: Option<Seq<char>>,
    current: Option<Seq<char>>,
)
    ensures
        page_accepted(generation, latest, filter, current) <==> generation == latest && filter
            == current,
{
}

/// A snapshot of the task that is shown, which was asked for last, counts while no task runs
/// and no selection is being saved.
pub proof fn law_which_snapshots_count(
    u0: Window,
    s0: State,
    u1: Window,
    s1: State,
    task: Seq<char>,
    generation: u64,
    snapshot: Option<PlanSnapshot>,
)
    requires
        snapshot_came(u0, s0, u1, s1, task, generation, snapshot),
    ensures
        is_shown(s0, task) && generation == s0.generations.state && !u0.busy && s0.pending_selection
            == 0 ==> u1.ready == (readiness::classified(snapshot, u0.directory@, s0.config)
            == readiness::PlanReadyState::Ready),
        u0.busy || s0.pending_selection != 0 || generation != s0.generations.state || !is_shown(
            s0,
            task,
        ) ==> u1 == u0 && s1 == s0,
{
}

/// A count unlocks the question that waits for it; a failed one closes it and is told.
pub proof fn law_what_a_count_does(
    u0: Window,
    u1: Window,
    s: State,
    generation: u64,
    count: Result<u64, String>,
)
    requires
        count_came(u0, u1, s, generation, count),
        u0.dialog.kind == 1,
        u0.nav.screen == 2,
        generation == s.generations.extract,
    ensures
        !u1.dialog.pending,
        count is Ok ==> u1.dialog.kind == 1 && u1.error_text == u0.error_text,
        count matches Err(e) ==> u1.dialog.kind == 0 && u1.error_text@ == e@,
        u1.busy == u0.busy && u1.ready == u0.ready,
{
}

/// The end of an extraction frees the window and leaves the plan of the other tool alone.
pub proof fn law_what_follows_an_extraction(
    u0: Window,
    s0: State,
    u1: Window,
    s1: State,
    r: Reaction,
    s: Summary,
)
    requires
        extract_ended(u0, s0, u1, s1, r, s),
    ensures
        !u1.busy && !u1.paused,
        u1.plan == u0.plan && s1.task == s0.task && s1.config == s0.config,
        !s1.run.running && !s1.run.extracting,
        u1.progress.part is None && u1.progress.metrics == Metrics::Extraction(s),
        s.archives_quarantined <= i32::MAX ==> u1.progress.quarantined_count
            == s.archives_quarantined,
        r.load is None && r.terminal && r.quit == s0.run.close_after,
{
}

/// Only the last line of status waits to be shown, none while the task is paused, and none
/// that came before the end of a task.
pub proof fn law_which_line_waits(u: Window, waiting: Option<String>, line: String, task: String, s: Summary)
    ensures
        !u.paused ==> waits_after(u, waiting, Event::Status(line)) == Some(line@),
        u.paused ==> waits_after(u, waiting, Event::Status(line)) == text::text_option(waiting),
        waits_after(u, waiting, Event::Ready(task, s)) is None,
        waits_after(u, waiting, Event::Done(task, s)) is None,
        waits_after(u, waiting, Event::Failed(line)) is None,
        waits_after(u, waiting, Event::ExtractDone(task, s)) is None,
        waits_after(u, waiting, Event::Log(line)) == text::text_option(waiting),
        waits_after(u, waiting, Event::Notice(line)) == text::text_option(waiting),
{
}

/// Where the page that is shown begins; where that is not known, at the front.
pub proof fn law_where_a_page_begins(s: State)
    ensures
        s.paging.page < s.paging.page_starts@.len() ==> page_start(s)
            == s.paging.page_starts@[s.paging.page as int],
        s.paging.page >= s.paging.page_starts@.len() ==> page_start(s) == 0,
{
}

/// An error is told; where a plan is shown its controls are free again.
pub proof fn law_what_an_error_does(u0: Window, u1: Window, s: State, error: Seq<char>)
    requires
        error_told(u0, u1, s, error),
    ensures
        u1.error_text@ == error,
        u1.ready == u0.ready && u1.busy == u0.busy && u1.plan.rows == u0.plan.rows,
        u0.has_task && !u0.busy ==> u1.plan.prev_enabled == (s.paging.page > 0)
            && u1.plan.next_enabled == (s.paging.page + 1 < s.paging.page_starts@.len()),
        !u0.has_task || u0.busy ==> u1.plan == u0.plan,
{
}

/// The page that is shown is asked for again as it is: the same page, from where it begins,
/// with the filter that is set; without a task nothing is asked for.
pub proof fn law_which_page_is_asked_for_again(
    s0: State,
    s1: State,
    load: Option<PlanLoad>,
    directory: Seq<char>,
    summary: bool,
)
    requires
        page_reloaded(s0, s1, load, directory, summary),
    ensures
        load is Some <==> s0.task is Some,
        load is None ==> s1 == s0,
        load matches Some(l) ==> l.task@ == s0.task->0@ && l.directory@ == directory
            && l.query.summary == summary && l.query.page is Some && l.query.page->0.page
            == s0.paging.page && l.query.page->0.start == page_start(s0) && text::text_option(
            l.query.page->0.filter,
        ) == text::text_option(s0.paging.filter) && l.page_generation == s1.generations.page
            && l.state_generation == s1.generations.state,
        s1.paging == s0.paging && s1.config == s0.config,
{
}

/// A selection that was saved is shown in the row of its action alone.
pub proof fn law_saved_selections_are_shown(
    before: Seq<PlanRow>,
    after: Seq<PlanRow>,
    id: i64,
    selected: bool,
    i: int,
)
    requires
        row_selected(before, after, id, selected),
        0 <= i < before.len(),
    ensures
        after.len() == before.len(),
        before[i].id != id ==> after[i] == before[i],
        before[i].id == id && (forall|j: int| 0 <= j < i ==> (#[trigger] before[j]).id != id)
            ==> after[i].selected == selected && after[i].state == before[i].state,
{
    tasks::law_which_row_is_meant(before, id, 0);
}

/// A page that was asked for last is shown whatever its snapshot says; one that is late
/// changes nothing. Its snapshot counts only where it was asked for last, too.
pub proof fn law_what_a_page_does(
    u0: Window,
    s0: State,
    u1: Window,
    s1: State,
    task: Seq<char>,
    actions: Seq<Action>,
    page: usize,
    generation: u64,
    filter: Option<Seq<char>>,
    state_generation: u64,
    snapshot: Option<PlanSnapshot>,
)
    requires
        page_came(
            u0,
            s0,
            u1,
            s1,
            task,
            actions,
            page,
            generation,
            filter,
            state_generation,
            snapshot,
        ),
    ensures
        ({
            let asked = is_shown(s0, task) && generation == s0.generations.page && filter
                == text::text_option(s0.paging.filter);
            let counts = !u0.busy && s0.pending_selection == 0 && s0.generations.state
                == state_generation;
            &&& !asked ==> u1 == u0 && s1 == s0
            &&& asked ==> are_plan_rows(u1.plan.rows@, actions) && s1.paging.page == page
            &&& asked && !counts ==> u1.ready == u0.ready && u1.plan_editable == u0.plan_editable
            &&& asked && counts && snapshot is None ==> !u1.ready
            &&& asked && counts ==> u1.ready == (readiness::classified(
                snapshot,
                u0.directory@,
                s0.config,
            ) == readiness::PlanReadyState::Ready)
        }),
{
    reveal(rows_shown);
    reveal(summary_of);
}

} // verus!
