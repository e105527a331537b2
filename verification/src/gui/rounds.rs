//! Rounds of the window: the events that came, the log and the figures of a running task,
//! and the window at its start.

use super::commands;
use super::pump;
use super::pump::Reaction;
use super::readiness;
use super::readiness::PlanReadyState;
use super::rules_panel;
use super::rules_panel::{RuleSpec, ToolInfo};
use super::tasks;
use super::window;
use super::window::{
    Dialog, EngineTestOverrides, Metrics, Nav, PlanLoad, PlanPane, Progress, State, Window,
};
use crate::control::Event;
use crate::text;
use std::collections::VecDeque;
use vstd::prelude::*;

verus! {

/// The most events of a round.
pub const ROUND_EVENTS: usize = 256;

/// How many of so many events a round takes.
pub open spec fn round_size(n: nat) -> nat {
    if n > ROUND_EVENTS {
        ROUND_EVENTS as nat
    } else {
        n
    }
}

/// One after the other, the events lead from window to window and from state to state;
/// `p` is the status line that waits.
pub open spec fn applied_in_turn(
    u: Seq<Window>,
    s: Seq<State>,
    p: Seq<Option<String>>,
    events: Seq<Event>,
    rs: Seq<Reaction>,
    cancelled: bool,
) -> bool {
    &&& u.len() == events.len() + 1
    &&& s.len() == events.len() + 1
    &&& p.len() == events.len() + 1
    &&& rs.len() == events.len()
    &&& forall|i: int, j: int|
        #![trigger u[i], u[j]]
        0 <= i < events.len() && j == i + 1 ==> pump::applied(
            u[i],
            s[i],
            u[j],
            s[j],
            events[i],
            cancelled,
            rs[i],
        ) && text::text_option(p[j]) == pump::waits_after(u[i], p[i], events[i])
}

/// A status line that waited is shown.
pub open spec fn flushed(u0: Window, u1: Window, waiting: Option<String>) -> bool {
    match waiting {
        Some(line) => u1 == (Window { status: line, ..u0 }),
        None => u1 == u0,
    }
}

/// A task ended in a round.
pub open spec fn some_terminal(rs: Seq<Reaction>) -> bool {
    exists|i: int| 0 <= i < rs.len() && (#[trigger] rs[i]).terminal
}

/// Takes the next events in, at most so many as a round may have; the others stay. Of the
/// status lines that came only the last is shown, and none of before the end of a task.
pub fn drain(
    ui: &mut Window,
    state: &mut State,
    queue: &mut VecDeque<Event>,
    cancelled: bool,
) -> (r: Vec<Reaction>)
    requires
        old(state).paging.page < usize::MAX,
        forall|i: int| 0 <= i < old(queue)@.len() ==> pump::event_fits(#[trigger] old(queue)@[i]),
    ensures
        final(queue)@ == old(queue)@.skip(round_size(old(queue)@.len()) as int),
        final(state).paging.page < usize::MAX,
        exists|u: Seq<Window>, s: Seq<State>, p: Seq<Option<String>>|
            {
                &&& #[trigger] applied_in_turn(
                    u,
                    s,
                    p,
                    old(queue)@.take(round_size(old(queue)@.len()) as int),
                    r@,
                    cancelled,
                )
                &&& u[0] == *old(ui)
                &&& s[0] == *old(state)
                &&& p[0] is None
                &&& flushed(u.last(), *final(ui), p.last())
                &&& s.last() == *final(state)
            },
{
    let ghost all = queue@;
    let ghost n = round_size(all.len()) as int;
    let ghost mut u: Seq<Window> = seq![*ui];
    let ghost mut s: Seq<State> = seq![*state];
    let mut waiting: Option<String> = None;
    let ghost mut p: Seq<Option<String>> = seq![waiting];
    let mut out: Vec<Reaction> = Vec::new();
    let mut i: usize = 0;
    assert(all.skip(0) =~= all);
    assert(all.take(0) =~= Seq::<Event>::empty());
    while i < ROUND_EVENTS && queue.len() > 0
        invariant
            i <= n,
            n == round_size(all.len()),
            queue@ == all.skip(i as int),
            state.paging.page < usize::MAX,
            forall|k: int| 0 <= k < all.len() ==> pump::event_fits(#[trigger] all[k]),
            applied_in_turn(u, s, p, all.take(i as int), out@, cancelled),
            u[0] == *old(ui),
            s[0] == *old(state),
            p[0] is None,
            u.last() == *ui,
            s.last() == *state,
            p.last() == waiting,
        decreases ROUND_EVENTS - i,
    {
        let ghost u0 = u;
        let ghost s0 = s;
        let ghost p0 = p;
        let ghost rs = out@;
        match queue.pop_front() {
            None => {},
            Some(event) => {
                assert(event == all[i as int]);
                assert(queue@ =~= all.skip(i + 1));
                let reaction = pump::apply_event(ui, state, &mut waiting, event, cancelled);
                out.push(reaction);
                proof {
                    u = u0.push(*ui);
                    s = s0.push(*state);
                    p = p0.push(waiting);
                    let done = all.take(i + 1);
                    assert(done =~= all.take(i as int).push(all[i as int]));
                    assert(out@ =~= rs.push(reaction));
                    assert forall|a: int, b: int|
                        #![trigger u[a], u[b]]
                        0 <= a < done.len() && b == a + 1 implies pump::applied(
                        u[a],
                        s[a],
                        u[b],
                        s[b],
                        done[a],
                        cancelled,
                        out@[a],
                    ) && text::text_option(p[b]) == pump::waits_after(u[a], p[a], done[a]) by {
                        if a < i {
                            assert(u0[a] == u[a] && u0[b] == u[b]);
                        }
                    }
                }
                i = i + 1;
            },
        }
    }
    let ghost last = *ui;
    let ghost end = waiting;
    if let Some(line) = waiting {
        ui.status = line;
    }
    proof {
        assert(i == n);
        assert(flushed(last, *ui, end));
        assert(applied_in_turn(u, s, p, all.take(n), out@, cancelled));
    }
    out
}

/// Whether a task ended in a round.
pub fn any_terminal(reactions: &Vec<Reaction>) -> (r: bool)
    ensures
        r == some_terminal(reactions@),
{
    let mut i: usize = 0;
    while i < reactions.len()
        invariant
            i <= reactions@.len(),
            forall|k: int| 0 <= k < i ==> !(#[trigger] reactions@[k]).terminal,
        decreases reactions.len() - i,
    {
        if reactions[i].terminal {
            return true;
        }
        i = i + 1;
    }
    false
}

/// A plan becomes executable by one event only: a snapshot of the task that is shown,
/// which was asked for last, comes while no task runs and no selection is being saved, and
/// says that task, rules and directory agree.
pub proof fn law_only_fresh_snapshots_arm(
    u0: Window,
    s0: State,
    u1: Window,
    s1: State,
    e: Event,
    cancelled: bool,
    r: Reaction,
)
    requires
        pump::applied(u0, s0, u1, s1, e, cancelled, r),
        u1.ready,
        !u0.ready,
    ensures
        !u0.busy,
        s0.pending_selection == 0,
        match e {
            Event::PlanPage(task, _, _, _, _, g, snapshot) => pump::is_shown(s0, task@) && g
                == s0.generations.state && readiness::classified(
                snapshot,
                u0.directory@,
                s0.config,
            ) == PlanReadyState::Ready,
            Event::PlanState(task, g, snapshot) => pump::is_shown(s0, task@) && g
                == s0.generations.state && readiness::classified(
                snapshot,
                u0.directory@,
                s0.config,
            ) == PlanReadyState::Ready,
            _ => false,
        },
{
    match e {
        Event::PlanPage(task, actions, page, g, filter, sg, snapshot) => {
            page_arms(
                u0,
                s0,
                u1,
                s1,
                task@,
                actions@,
                page,
                g,
                text::text_option(filter),
                sg,
                snapshot,
            );
        },
        _ => {},
    }
}

proof fn page_arms(
    u0: Window,
    s0: State,
    u1: Window,
    s1: State,
    task: Seq<char>,
    actions: Seq<crate::model::Action>,
    page: usize,
    generation: u64,
    filter: Option<Seq<char>>,
    state_generation: u64,
    snapshot: Option<super::PlanSnapshot>,
)
    requires
        pump::page_came(
            u0,
            s0,
            u1,
            s1,
            task,
            actions,
            page,
            generation,
            filter,
            state_generation,
            snapshot,
        ),
        u1.ready,
        !u0.ready,
    ensures
        pump::is_shown(s0, task),
        !u0.busy,
        s0.pending_selection == 0,
        s0.generations.state == state_generation,
        readiness::classified(snapshot, u0.directory@, s0.config) == PlanReadyState::Ready,
{
    let ub = Window {
        ready: u0.ready,
        plan_editable: u0.plan_editable,
        status: u0.status,
        ..u1
    };
    let sb = State { status_pending: s0.status_pending, ..s1 };
    let ua = Window {
        plan: PlanPane {
            summary: u0.plan.summary,
            delete_count: u0.plan.delete_count,
            move_count: u0.plan.move_count,
            git_count: u0.plan.git_count,
            empty_count: u0.plan.empty_count,
            ..u1.plan
        },
        progress: u0.progress,
        ..ub
    };
    let sa = State { run: s0.run, ..sb };
    pump::rows_keep(u0, s0, ua, sa, actions, page);
}

/// What comes late changes nothing: a page or a snapshot that was not asked for last, the
/// failure of such a page, and a count that no open question waits for.
pub proof fn law_late_answers_change_nothing(
    u0: Window,
    s0: State,
    u1: Window,
    s1: State,
    e: Event,
    cancelled: bool,
    r: Reaction,
)
    requires
        pump::applied(u0, s0, u1, s1, e, cancelled, r),
        match e {
            Event::PlanPage(_, _, _, g, _, _, _) => g != s0.generations.page,
            Event::PlanState(_, g, _) => g != s0.generations.state,
            Event::PlanLoadFailed(_, g, _) => g != s0.generations.page,
            Event::ExtractCount(g, _) => g != s0.generations.extract,
            _ => false,
        },
    ensures
        u1 == u0,
        s1 == s0,
        pump::is_quiet(r),
{
}

/// However a task of the organizer ends, its plan may not be executed or changed before it
/// has been read again, and it is asked for where a task is shown.
pub proof fn law_ended_tasks_disarm(
    u0: Window,
    s0: State,
    u1: Window,
    s1: State,
    e: Event,
    cancelled: bool,
    r: Reaction,
)
    requires
        pump::applied(u0, s0, u1, s1, e, cancelled, r),
        e is Ready || e is Done || e is Failed,
    ensures
        !u1.busy,
        !u1.ready,
        !u1.plan_editable,
        s1.task is Some ==> r.load is Some && r.load->0.state_generation == s1.generations.state,
{
}

/// The question before an extraction is unlocked by one event only: the count for which it
/// was opened.
pub proof fn law_only_the_count_unlocks(
    u0: Window,
    s0: State,
    u1: Window,
    s1: State,
    e: Event,
    cancelled: bool,
    r: Reaction,
)
    requires
        pump::applied(u0, s0, u1, s1, e, cancelled, r),
        u0.dialog.pending,
        !u1.dialog.pending,
    ensures
        e matches Event::ExtractCount(g, _) && g == s0.generations.extract,
{
    match e {
        Event::PlanPage(task, actions, page, g, filter, sg, snapshot) => {
            page_keeps_dialog(
                u0,
                s0,
                u1,
                s1,
                task@,
                actions@,
                page,
                g,
                text::text_option(filter),
                sg,
                snapshot,
            );
        },
        _ => {},
    }
}

proof fn page_keeps_dialog(
    u0: Window,
    s0: State,
    u1: Window,
    s1: State,
    task: Seq<char>,
    actions: Seq<crate::model::Action>,
    page: usize,
    generation: u64,
    filter: Option<Seq<char>>,
    state_generation: u64,
    snapshot: Option<super::PlanSnapshot>,
)
    requires
        pump::page_came(
            u0,
            s0,
            u1,
            s1,
            task,
            actions,
            page,
            generation,
            filter,
            state_generation,
            snapshot,
        ),
    ensures
        u1.dialog == u0.dialog,
{
    if pump::is_shown(s0, task) && pump::page_accepted(
        generation,
        s0.generations.page,
        filter,
        text::text_option(s0.paging.filter),
    ) {
        let ub = Window {
            ready: u0.ready,
            plan_editable: u0.plan_editable,
            status: u0.status,
            ..u1
        };
        let sb = State { status_pending: s0.status_pending, ..s1 };
        let ua = Window {
            plan: PlanPane {
                summary: u0.plan.summary,
                delete_count: u0.plan.delete_count,
                move_count: u0.plan.move_count,
                git_count: u0.plan.git_count,
                empty_count: u0.plan.empty_count,
                ..u1.plan
            },
            progress: u0.progress,
            ..ub
        };
        let sa = State { run: s0.run, ..sb };
        pump::rows_keep(u0, s0, ua, sa, actions, page);
    }
}

/// How long the log is left as it is, in milliseconds.
pub const LOG_REFRESH_MIN: u64 = 500;

/// The log is written anew: it is in sight, something was logged, and a task has ended or
/// the last time was long enough ago.
pub open spec fn log_due(u: Window, s: State, terminal: bool, elapsed_ms: u64) -> bool {
    s.log_dirty && (u.nav.screen == 0 && u.nav.panel == 2 || u.nav.screen == 2 && u.nav.panel == 1)
        && (terminal || elapsed_ms >= LOG_REFRESH_MIN)
}

/// Writes the log anew if it is due; says whether it was.
pub fn refresh_log(ui: &mut Window, state: &mut State, terminal: bool, elapsed_ms: u64) -> (r: bool)
    ensures
        r == log_due(*old(ui), *old(state), terminal, elapsed_ms),
        if r {
            &&& *final(ui) == (Window { log_text: final(ui).log_text, ..*old(ui) })
            &&& final(ui).log_text@ == text::join_with(
                window::newest_first(old(state).logs@),
                "\n"@,
            )
            &&& *final(state) == (State { log_dirty: false, ..*old(state) })
        } else {
            *final(ui) == *old(ui) && *final(state) == *old(state)
        },
{
    if state.log_dirty && window::log_panel_visible(ui) && (terminal || elapsed_ms
        >= LOG_REFRESH_MIN) {
        state.log_dirty = false;
        ui.log_text = window::log_panel_text(&state.logs);
        return true;
    }
    false
}

/// What a running task has done so far; times and amounts as they are written.
#[derive(Debug)]
pub struct Figures {
    pub read: String,
    pub done: u64,
    pub scanned: u64,
    /// How many actions are going to be executed, once that is counted.
    pub planned: Option<u64>,
    pub elapsed: String,
    pub rate: String,
}

/// How many actions there are.
pub open spec fn planned_of(s: State, f: Figures) -> u64 {
    match f.planned {
        Some(n) => n,
        None => s.run.planned,
    }
}

/// The line of figures of a running task.
pub open spec fn runtime_text(s: State, f: Figures) -> Seq<char> {
    if s.run.applying {
        "执行中：已处理 "@ + text::decimal(f.done as nat) + " / "@ + text::decimal(
            planned_of(s, f) as nat,
        ) + " 项 · 耗时 "@ + f.elapsed@ + "s"@
    } else if s.run.extracting {
        "解压中：已处理 "@ + text::decimal(f.done as nat) + " 包 · 耗时 "@ + f.elapsed@ + "s"@
    } else {
        "扫描 "@ + text::decimal(f.scanned as nat) + " 个文件 · 读取 "@ + f.read@ + " · 已处理 "@
            + text::decimal(f.done as nat) + " 个计划项 · 耗时 "@ + f.elapsed@ + "s · 平均读取 "@ + f.rate@
            + " MiB/s"@
    }
}

/// The note beside the progress bar.
pub open spec fn note_text(s: State, f: Figures) -> Seq<char> {
    if s.run.applying && planned_of(s, f) > 0 {
        text::decimal(f.done as nat) + " / "@ + text::decimal(planned_of(s, f) as nat) + " 项"@
    } else if s.run.applying {
        "没有待执行的计划项"@
    } else if s.run.extracting {
        Seq::empty()
    } else {
        "已扫描 "@ + text::decimal(f.scanned as nat) + " 个文件 · 读取 "@ + f.read@
    }
}

/// How much of how much is done: known only while a plan is executed, and never more than
/// the whole.
pub open spec fn part_of(s: State, f: Figures) -> Option<(u64, u64)> {
    let planned = planned_of(s, f);
    if s.run.applying && planned > 0 {
        Some((
            if f.done > planned {
                planned
            } else {
                f.done
            },
            planned,
        ))
    } else {
        None
    }
}

fn runtime_line(state: &State, f: &Figures, planned: u64) -> (r: String)
    requires
        planned == planned_of(*state, *f),
    ensures
        r@ == runtime_text(*state, *f),
{
    if state.run.applying {
        let mut s = "执行中：已处理 ".to_owned();
        s.append(text::number(f.done).as_str());
        s.append(" / ");
        s.append(text::number(planned).as_str());
        s.append(" 项 · 耗时 ");
        s.append(f.elapsed.as_str());
        s.append("s");
        s
    } else if state.run.extracting {
        let mut s = "解压中：已处理 ".to_owned();
        s.append(text::number(f.done).as_str());
        s.append(" 包 · 耗时 ");
        s.append(f.elapsed.as_str());
        s.append("s");
        s
    } else {
        let mut s = "扫描 ".to_owned();
        s.append(text::number(f.scanned).as_str());
        s.append(" 个文件 · 读取 ");
        s.append(f.read.as_str());
        s.append(" · 已处理 ");
        s.append(text::number(f.done).as_str());
        s.append(" 个计划项 · 耗时 ");
        s.append(f.elapsed.as_str());
        s.append("s · 平均读取 ");
        s.append(f.rate.as_str());
        s.append(" MiB/s");
        s
    }
}

fn note_line(state: &State, f: &Figures, planned: u64) -> (r: String)
    requires
        planned == planned_of(*state, *f),
    ensures
        r@ == note_text(*state, *f),
{
    if state.run.applying && planned > 0 {
        let mut s = text::number(f.done);
        s.append(" / ");
        s.append(text::number(planned).as_str());
        s.append(" 项");
        s
    } else if state.run.applying {
        "没有待执行的计划项".to_owned()
    } else if state.run.extracting {
        commands::nothing()
    } else {
        let mut s = "已扫描 ".to_owned();
        s.append(text::number(f.scanned).as_str());
        s.append(" 个文件 · 读取 ");
        s.append(f.read.as_str());
        s
    }
}

/// Shows how far a running task is; without one nothing changes.
pub fn refresh_runtime(ui: &mut Window, state: &State, f: &Figures)
    ensures
        if !old(ui).busy {
            *final(ui) == *old(ui)
        } else {
            &&& *final(ui) == (Window { progress: final(ui).progress, ..*old(ui) })
            &&& final(ui).progress.quarantined_count == old(ui).progress.quarantined_count
            &&& if state.run.running {
                &&& final(ui).progress.part == part_of(*state, *f)
                &&& final(ui).progress.note@ == note_text(*state, *f)
                &&& pump::is_line(final(ui).progress.metrics, runtime_text(*state, *f))
            } else {
                &&& final(ui).progress.part is None
                &&& final(ui).progress.note@ == "准备中"@
                &&& final(ui).progress.metrics == old(ui).progress.metrics
            }
        },
{
    if !ui.busy {
        return ;
    }
    if !state.run.running {
        ui.progress.part = None;
        ui.progress.note = "准备中".to_owned();
        return ;
    }
    let planned: u64 = match f.planned {
        Some(n) => n,
        None => state.run.planned,
    };
    ui.progress.metrics = Metrics::Line(runtime_line(state, f, planned));
    ui.progress.note = note_line(state, f, planned);
    ui.progress.part = if state.run.applying && planned > 0 {
        Some((
            if f.done > planned {
                planned
            } else {
                f.done
            },
            planned,
        ))
    } else {
        None
    };
}

/// Whether the theme of the system is looked at again: every two seconds.
pub fn theme_poll_due(elapsed_ms: u64) -> (r: bool)
    ensures
        r == (elapsed_ms >= 2000),
{
    elapsed_ms >= 2000
}

/// A window in which nothing has happened, with so many tools.
pub open spec fn is_blank(w: Window, tools: nat) -> bool {
    &&& !w.busy
    &&& !w.ready
    &&& !w.paused
    &&& !w.has_task
    &&& !w.plan_editable
    &&& w.directory@.len() == 0
    &&& w.status@.len() == 0
    &&& w.error_text@.len() == 0
    &&& w.notice_text@.len() == 0
    &&& w.log_text@.len() == 0
    &&& w.rules@.len() == 0
    &&& w.nav.screen == 0
    &&& w.nav.panel == 0
    &&& w.nav.section == 0
    &&& w.nav.theme == 0
    &&& !w.nav.show_advanced
    &&& w.nav.active_tool_id@.len() == 0
    &&& w.nav.tool_search@.len() == 0
    &&& w.nav.tool_count == if tools <= i32::MAX {
        tools as int
    } else {
        i32::MAX as int
    }
    &&& w.nav.shown_tools@ == rules_panel::all_tools(tools)
    &&& w.dialog.text@.len() == 0
    &&& w.dialog.kind == 0
    &&& !w.dialog.acknowledge
    &&& !w.dialog.pending
    &&& w.plan.rows@.len() == 0
    &&& !w.plan.prev_enabled
    &&& !w.plan.next_enabled
    &&& w.plan.page_label@.len() == 0
    &&& w.plan.filter == 0
    &&& w.plan.delete_count == 0
    &&& w.plan.move_count == 0
    &&& w.plan.git_count == 0
    &&& w.plan.empty_count == 0
    &&& w.plan.summary is None
    &&& w.progress.part is None
    &&& w.progress.note@.len() == 0
    &&& w.progress.metrics matches Metrics::Line(line) && line@.len() == 0
    &&& w.progress.quarantined_count == 0
}

fn blank(tools: &Vec<ToolInfo>) -> (r: Window)
    ensures
        is_blank(r, tools@.len()),
{
    let count: usize = tools.len();
    let tool_count: i32 = if count <= 0x7fff_ffff {
        count as i32
    } else {
        i32::MAX
    };
    Window {
        busy: false,
        ready: false,
        paused: false,
        has_task: false,
        plan_editable: false,
        directory: commands::nothing(),
        status: commands::nothing(),
        error_text: commands::nothing(),
        notice_text: commands::nothing(),
        log_text: commands::nothing(),
        rules: Vec::new(),
        nav: Nav {
            screen: 0,
            panel: 0,
            section: 0,
            theme: 0,
            show_advanced: false,
            active_tool_id: commands::nothing(),
            tool_search: commands::nothing(),
            tool_count,
            shown_tools: rules_panel::every_tool(tools),
        },
        dialog: Dialog { text: commands::nothing(), kind: 0, acknowledge: false, pending: false },
        plan: PlanPane {
            rows: Vec::new(),
            prev_enabled: false,
            next_enabled: false,
            page_label: commands::nothing(),
            filter: 0,
            delete_count: 0,
            move_count: 0,
            git_count: 0,
            empty_count: 0,
            summary: None,
        },
        progress: Progress {
            part: None,
            note: commands::nothing(),
            metrics: Metrics::Line(commands::nothing()),
            quarantined_count: 0,
        },
    }
}

/// The window as it opens: the rules that nobody changed, all tools and the first of them,
/// nothing that may be executed.
pub open spec fn opened(
    u: Window,
    s: State,
    specs: Vec<RuleSpec>,
    tools: Vec<ToolInfo>,
) -> bool {
    exists|ub: Window, u0: Window, s0: State, load: Option<PlanLoad>|
        {
            &&& is_blank(ub, tools@.len())
            &&& window::is_initial((State { engine_overrides: None, ..s0 }), specs, tools)
            &&& s0.engine_overrides == s.engine_overrides
            &&& #[trigger] is_refreshed(ub, s0, u0)
            &&& #[trigger] tasks::tool_selected(
                u0,
                s0,
                u,
                s,
                load,
                "recursive-extract"@,
                false,
            )
        }
}

/// The rows of the open panel and the theme are shown.
pub open spec fn is_refreshed(u0: Window, s: State, u1: Window) -> bool {
    &&& u1 == (Window { rules: u1.rules, nav: window::with_theme(u0.nav, s), ..u0 })
    &&& rules_panel::row_views(u1.rules@) == window::open_rows(s)
}

/// Opens the window.
pub fn run_with_engine_overrides<F: FnOnce(&Window)>(
    specs: Vec<RuleSpec>,
    tools: Vec<ToolInfo>,
    hook: F,
    overrides: Option<EngineTestOverrides>,
) -> (r: (Window, State))
    requires
        rules_panel::all_well_formed(specs@),
        forall|w: Window| #[trigger] hook.requires((&w,)),
    ensures
        opened(r.0, r.1, specs, tools),
        hook.ensures((&r.0,), ()),
        r.1.engine_overrides == overrides,
        !r.0.ready,
        !r.0.busy,
{
    let mut ui = blank(&tools);
    let ghost ub = ui;
    let mut state = window::initial_state(specs, tools);
    let ghost first = state;
    state.engine_overrides = overrides;
    window::refresh(&mut ui, &state);
    let ghost u0 = ui;
    let ghost s0 = state;
    let load = tasks::select_tool(&mut ui, &mut state, "recursive-extract", false);
    proof {
        assert((State { engine_overrides: None, ..s0 }) == first);
        assert(is_refreshed(ub, s0, u0));
        assert(tasks::tool_selected(u0, s0, ui, state, load, "recursive-extract"@, false));
    }
    hook(&ui);
    (ui, state)
}

/// Opens the window where the tasks of the user are, and hands it to `hook` before the
/// first round.
pub fn run_with_pre_loop_hook<F: FnOnce(&Window)>(
    specs: Vec<RuleSpec>,
    tools: Vec<ToolInfo>,
    hook: F,
) -> (r: (Window, State))
    requires
        rules_panel::all_well_formed(specs@),
        forall|w: Window| #[trigger] hook.requires((&w,)),
    ensures
        opened(r.0, r.1, specs, tools),
        hook.ensures((&r.0,), ()),
        r.1.engine_overrides is None,
        !r.0.ready,
        !r.0.busy,
{
    run_with_engine_overrides(specs, tools, hook, None)
}

/// Opens the window where the tasks of the user are.
pub fn run(specs: Vec<RuleSpec>, tools: Vec<ToolInfo>) -> (r: (Window, State))
    requires
        rules_panel::all_well_formed(specs@),
    ensures
        opened(r.0, r.1, specs, tools),
        r.1.engine_overrides is None,
        !r.0.ready,
        !r.0.busy,
{
    run_with_pre_loop_hook(specs, tools, |_ui: &Window| {})
}

/// A round takes all events, up to 256.
pub proof fn law_rounds_are_bounded(n: nat)
    ensures
        round_size(n) <= n,
        round_size(n) <= 256,
        n <= 256 ==> round_size(n) == n,
        n > 256 ==> round_size(n) == 256,
{
}

/// The log is written only while it is in sight and has something new; the end of a task
/// does not wait, anything else half a second.
pub proof fn law_when_the_log_is_written(u: Window, s: State, terminal: bool, elapsed: u64)
    ensures
        log_due(u, s, terminal, elapsed) ==> s.log_dirty && ((u.nav.screen == 0 && u.nav.panel == 2)
            || (u.nav.screen == 2 && u.nav.panel == 1)) && (terminal || elapsed >= 500),
        s.log_dirty && u.nav.screen == 0 && u.nav.panel == 2 && terminal ==> log_due(
            u,
            s,
            terminal,
            elapsed,
        ),
        s.log_dirty && u.nav.screen == 2 && u.nav.panel == 1 && elapsed >= 500 ==> log_due(
            u,
            s,
            terminal,
            elapsed,
        ),
        s.log_dirty && u.nav.screen == 0 && u.nav.panel == 2 && elapsed >= 500 ==> log_due(
            u,
            s,
            terminal,
            elapsed,
        ),
{
}

/// How far a task is, is known only while a plan is executed, and it is never more than the
/// whole; it is as much as is done until then.
pub proof fn law_the_part_is_no_more_than_the_whole(s: State, f: Figures)
    ensures
        part_of(s, f) matches Some((done, all)) ==> done <= all && all > 0 && done <= f.done && (
        f.done <= all ==> done == f.done) && s.run.applying,
        s.run.applying && (f.planned matches Some(n) && n > 0) ==> part_of(s, f) is Some && (
        part_of(s, f)->0).1 == f.planned->0,
        s.run.applying && f.planned is None && s.run.planned > 0 ==> part_of(s, f) is Some && (
        part_of(s, f)->0).1 == s.run.planned,
        !s.run.applying ==> part_of(s, f) is None,
{
}

/// What the line of figures tells goes by what runs.
pub proof fn law_figures_go_by_what_runs(s: State, f: Figures)
    ensures
        s.run.applying ==> runtime_text(s, f) == "执行中：已处理 "@ + text::decimal(f.done as nat)
            + " / "@ + text::decimal(planned_of(s, f) as nat) + " 项 · 耗时 "@ + f.elapsed@ + "s"@,
        !s.run.applying && s.run.extracting ==> runtime_text(s, f) == "解压中：已处理 "@
            + text::decimal(f.done as nat) + " 包 · 耗时 "@ + f.elapsed@ + "s"@,
        !s.run.applying && s.run.extracting ==> note_text(s, f).len() == 0,
        s.run.applying && planned_of(s, f) == 0 ==> note_text(s, f) == "没有待执行的计划项"@,
        !s.run.applying && !s.run.extracting ==> note_text(s, f) == "已扫描 "@ + text::decimal(
            f.scanned as nat,
        ) + " 个文件 · 读取 "@ + f.read@,
{
}

/// The line that waits last is shown at the end of a round; without one the line stays.
pub proof fn law_the_waiting_line_is_shown(u0: Window, u1: Window, waiting: Option<String>)
    requires
        flushed(u0, u1, waiting),
    ensures
        waiting matches Some(line) ==> u1.status == line,
        waiting is None ==> u1.status == u0.status,
        u1.ready == u0.ready && u1.busy == u0.busy && u1.dialog == u0.dialog && u1.plan == u0.plan,
{
}

/// The window opens with the tool for extraction, the rules that nobody changed, no task,
/// no directory and nothing that may be executed.
pub proof fn law_how_the_window_opens(u: Window, s: State, specs: Vec<RuleSpec>, tools: Vec<ToolInfo>)
    requires
        opened(u, s, specs, tools),
    ensures
        !u.ready && !u.busy && !u.paused && !u.has_task && !u.plan_editable,
        u.directory@.len() == 0 && u.error_text@.len() == 0 && u.log_text@.len() == 0,
        u.plan.rows@.len() == 0 && u.dialog.kind == 0 && !u.dialog.pending,
        u.nav.screen == 2 && u.nav.panel == 0 && u.nav.section == 0,
        s.tool == rules_panel::Tool::Extract,
        crate::config::is_default(s.config),
        s.task is None && !s.run.running && s.pending_selection == 0,
        s.specs == specs && s.tools == tools,
{
    rules_panel::law_tools_and_their_groups();
}

/// A task ended in a round where one of its events says so.
pub proof fn law_when_a_task_ended_in_a_round(rs: Seq<Reaction>, r: Reaction)
    ensures
        !some_terminal(Seq::empty()),
        some_terminal(rs.push(r)) <==> some_terminal(rs) || r.terminal,
{
    let more = rs.push(r);
    if some_terminal(rs) {
        let i = choose|i: int| 0 <= i < rs.len() && (#[trigger] rs[i]).terminal;
        assert(more[i].terminal);
    }
    if r.terminal {
        assert(more[rs.len() as int].terminal);
    }
    if some_terminal(more) {
        let i = choose|i: int| 0 <= i < more.len() && (#[trigger] more[i]).terminal;
        if i < rs.len() {
            assert(rs[i].terminal);
        }
    }
}

} // verus!
