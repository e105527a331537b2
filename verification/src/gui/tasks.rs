//! Navigation, typed values, and the start, pause and end of tasks.

use super::capacity;
use super::commands;
use super::rules_panel;
use super::rules_panel::{RowView, Tool};
use super::window;
use super::window::{
    Dialog, Generations, Nav, Paging, PlanLoad, PlanPane, PlanQuery, PlanRow, Progress, Run, State,
    Window,
};
use crate::config::{Setting, SettingView};
use crate::text;
use std::collections::VecDeque;
use vstd::prelude::*;

verus! {

/// A value as a number that can be typed; nothing where it is none.
pub open spec fn number_text(value: SettingView) -> Seq<char> {
    match value {
        SettingView::Number(n) => text::decimal(n as nat),
        _ => Seq::empty(),
    }
}

/// The rule takes a number.
pub open spec fn is_numeric(s: State, key: Seq<char>) -> bool {
    match commands::spec_at(s.specs@, key, 0) {
        Some(k) => s.specs@[k].kind@ == "number"@,
        None => false,
    }
}

/// The rule takes an amount of bytes.
pub open spec fn is_capacity(s: State, key: Seq<char>) -> bool {
    match commands::spec_at(s.specs@, key, 0) {
        Some(k) => s.specs@[k].unit is Some && s.specs@[k].unit->0@ == "bytes"@,
        None => false,
    }
}

/// The message for a text that is no number.
pub open spec fn not_a_number(capacity: bool) -> Seq<char> {
    if capacity {
        "该设置需要非负数字，可选单位 B/KiB/MiB/GiB/TiB（换算后须为整数字节）"@
    } else {
        "该设置需要输入非负整数"@
    }
}

/// A row with another value.
pub open spec fn showing(rows: Seq<RowView>, key: Seq<char>, value: Seq<char>) -> Seq<RowView> {
    commands::with_row(rows, key, |v: RowView| RowView { value, ..v })
}

/// A text that is no number has been refused: the row shows the value that the rule still
/// has. An empty field is only put back.
pub open spec fn number_refused(
    u0: Window,
    s0: State,
    u1: Window,
    s1: State,
    key: Seq<char>,
    typed: Seq<char>,
) -> bool {
    let kept = number_text(crate::config::setting_of(s0.config, key));
    &&& s1 == s0
    &&& rules_panel::row_views(u1.rules@) == showing(rules_panel::row_views(u0.rules@), key, kept)
    &&& if typed.len() == 0 {
        commands::beside_rows(u0, u1) == u0
    } else {
        commands::refused(u0, commands::beside_rows(u0, u1), not_a_number(is_capacity(s0, key)))
    }
}

/// A value has been entered: the row shows it as `shown`, and the rows that depend on it
/// come and go.
pub open spec fn value_entered(
    u0: Window,
    s0: State,
    u1: Window,
    s1: State,
    key: Seq<char>,
    value: Setting,
    shown: Seq<char>,
    is_dir: bool,
) -> bool {
    &&& commands::rule_changed(
        u0,
        s0,
        commands::beside_rows(u0, u1),
        s1,
        key,
        value,
        is_dir,
        true,
    )
    &&& rules_panel::row_views(u1.rules@) == rules_panel::merged(
        showing(rules_panel::row_views(u0.rules@), key, shown),
        window::open_rows(s1),
    )
}

/// A number has been entered; one that is too large for the rule is refused, and the row
/// shows the value that the rule still has.
pub open spec fn number_entered(
    u0: Window,
    s0: State,
    u1: Window,
    s1: State,
    key: Seq<char>,
    n: u64,
    is_dir: bool,
) -> bool {
    let value = Setting::Number(n);
    let set = commands::keys_set(s0.config, rules_panel::keys_of(key), value);
    if set.1 is None {
        value_entered(u0, s0, u1, s1, key, value, text::decimal(n as nat), is_dir)
    } else {
        let kept = number_text(crate::config::setting_of(set.0, key));
        &&& s1 == (State { config: set.0, ..s0 })
        &&& commands::refused(u0, commands::beside_rows(u0, u1), "该设置超出允许的范围"@)
        &&& rules_panel::row_views(u1.rules@) == showing(
            rules_panel::row_views(u0.rules@),
            key,
            kept,
        )
    }
}

/// A text has been entered.
pub open spec fn word_entered(
    u0: Window,
    s0: State,
    u1: Window,
    s1: State,
    key: Seq<char>,
    value: Setting,
    typed: Seq<char>,
    is_dir: bool,
) -> bool {
    let set = commands::keys_set(s0.config, rules_panel::keys_of(key), value);
    if set.1 is None {
        value_entered(u0, s0, u1, s1, key, value, typed, is_dir)
    } else {
        commands::rule_changed(u0, s0, u1, s1, key, value, is_dir, false)
    }
}

/// The user has typed the value of a rule.
pub open spec fn text_entered(
    u0: Window,
    s0: State,
    u1: Window,
    s1: State,
    key: Seq<char>,
    typed: Seq<char>,
    number: Option<nat>,
    is_dir: bool,
) -> bool {
    if is_numeric(s0, key) {
        match number {
            None => number_refused(u0, s0, u1, s1, key, typed),
            Some(n) => number_entered(u0, s0, u1, s1, key, n as u64, is_dir),
        }
    } else {
        exists|value: Setting|
            value@ == SettingView::Text(typed) && #[trigger] word_entered(
                u0,
                s0,
                u1,
                s1,
                key,
                value,
                typed,
                is_dir,
            )
    }
}

fn current_number(state: &State, key: &str) -> (r: String)
    ensures
        r@ == number_text(crate::config::setting_of(state.config, key@)),
{
    match state.config.get_json(key) {
        Setting::Number(n) => text::number(n),
        _ => commands::nothing(),
    }
}

/// The user types the value of a rule.
pub fn rule_text(ui: &mut Window, state: &mut State, key: &str, typed: &str, is_dir: bool)
    requires
        rules_panel::all_well_formed(old(state).specs@),
    ensures
        text_entered(
            *old(ui),
            *old(state),
            *final(ui),
            *final(state),
            key@,
            typed@,
            capacity::typed_number(typed@, is_capacity(*old(state), key@)),
            is_dir,
        ),
{
    let mut capacity: bool = false;
    if let Some(k) = commands::find_spec(&state.specs, key) {
        capacity = match &state.specs[k].unit {
            Some(u) => text::same(u.as_str(), "bytes"),
            None => false,
        };
    }
    let number: Option<u64> = match capacity::parse_capacity(typed, capacity) {
        Ok(n) => Some(n),
        Err(_) => None,
    };
    enter_text(ui, state, key, typed, number, is_dir)
}

/// The user typed the value of a rule, which reads as this number, if it is one.
pub fn enter_text(
    ui: &mut Window,
    state: &mut State,
    key: &str,
    typed: &str,
    number: Option<u64>,
    is_dir: bool,
)
    requires
        rules_panel::all_well_formed(old(state).specs@),
    ensures
        text_entered(
            *old(ui),
            *old(state),
            *final(ui),
            *final(state),
            key@,
            typed@,
            match number {
                Some(n) => Some(n as nat),
                None => None,
            },
            is_dir,
        ),
{
    let mut numeric: bool = false;
    if let Some(k) = commands::find_spec(&state.specs, key) {
        numeric = text::same(state.specs[k].kind.as_str(), "number");
    }
    assert(numeric == is_numeric(*state, key@));
    if numeric {
        match number {
            None => {
                refuse_number(ui, state, key, typed);
            },
            Some(n) => {
                enter_number(ui, state, key, n, is_dir);
            },
        }
    } else {
        enter_word(ui, state, key, typed, is_dir);
    }
}

fn refuse_number(ui: &mut Window, state: &State, key: &str, typed: &str)
    ensures
        number_refused(*old(ui), *state, *final(ui), *state, key@, typed@),
{
    let ghost u0 = *ui;
    let mut capacity: bool = false;
    if let Some(k) = commands::find_spec(&state.specs, key) {
        capacity = match &state.specs[k].unit {
            Some(u) => text::same(u.as_str(), "bytes"),
            None => false,
        };
    }
    let kept = current_number(state, key);
    commands::patch_value(&mut ui.rules, key, kept);
    assert(commands::beside_rows(u0, *ui) == u0);
    if !typed.is_empty() {
        ui.error_text = if capacity {
            "该设置需要非负数字，可选单位 B/KiB/MiB/GiB/TiB（换算后须为整数字节）".to_owned()
        } else {
            "该设置需要输入非负整数".to_owned()
        };
    }
}

fn show_value(ui: &mut Window, state: &State, key: &str, shown: String)
    requires
        rules_panel::all_well_formed(state.specs@),
    ensures
        commands::beside_rows(*old(ui), *final(ui)) == *old(ui),
        rules_panel::row_views(final(ui).rules@) == rules_panel::merged(
            showing(rules_panel::row_views(old(ui).rules@), key@, shown@),
            window::open_rows(*state),
        ),
{
    commands::patch_value(&mut ui.rules, key, shown);
    let wanted = window::rule_rows(state);
    rules_panel::sync_rules(&mut ui.rules, &wanted);
}

fn enter_number(ui: &mut Window, state: &mut State, key: &str, n: u64, is_dir: bool)
    requires
        rules_panel::all_well_formed(old(state).specs@),
    ensures
        number_entered(*old(ui), *old(state), *final(ui), *final(state), key@, n, is_dir),
{
    let ghost u0 = *ui;
    let ghost s0 = *state;
    let setting = Setting::Number(n);
    let ok: bool = commands::changed(ui, state, key, &setting, is_dir);
    let ghost mid = *ui;
    proof {
        commands::change_keeps(u0, s0, mid, *state, key@, setting, is_dir, ok);
    }
    if ok {
        show_value(ui, state, key, text::number(n));
        assert(commands::beside_rows(u0, *ui) == mid);
    } else {
        let kept = current_number(state, key);
        commands::patch_value(&mut ui.rules, key, kept);
        ui.error_text = "该设置超出允许的范围".to_owned();
        assert(commands::beside_rows(u0, *ui) == (Window { error_text: ui.error_text, ..u0 }));
    }
}

fn enter_word(ui: &mut Window, state: &mut State, key: &str, typed: &str, is_dir: bool)
    requires
        rules_panel::all_well_formed(old(state).specs@),
    ensures
        exists|value: Setting|
            value@ == SettingView::Text(typed@) && #[trigger] word_entered(
                *old(ui),
                *old(state),
                *final(ui),
                *final(state),
                key@,
                value,
                typed@,
                is_dir,
            ),
{
    let ghost u0 = *ui;
    let ghost s0 = *state;
    let setting = Setting::Text(typed.to_owned());
    let ok: bool = commands::changed(ui, state, key, &setting, is_dir);
    let ghost mid = *ui;
    proof {
        commands::change_keeps(u0, s0, mid, *state, key@, setting, is_dir, ok);
    }
    if ok {
        show_value(ui, state, key, typed.to_owned());
        assert(commands::beside_rows(u0, *ui) == mid);
    }
    assert(word_entered(u0, s0, *ui, *state, key@, setting, typed@, is_dir));
}

/// The screen of a tool.
pub open spec fn screen_of(tool: Tool) -> i32 {
    match tool {
        Tool::Extract => 2,
        Tool::Organizer => 0,
    }
}

/// The window shows a tool from its first group of rules and first panel on.
pub open spec fn tool_shown(
    u0: Window,
    s0: State,
    u1: Window,
    s1: State,
    tool: Tool,
    id: Seq<char>,
) -> bool {
    &&& s1 == (State { tool, section: s1.section, ..s0 })
    &&& s1.section@ == rules_panel::sections_of(tool)[0]
    &&& u1 == (Window { nav: u1.nav, rules: u1.rules, ..u0 })
    &&& u1.nav == window::with_theme(
        (Nav {
            screen: screen_of(tool),
            active_tool_id: u1.nav.active_tool_id,
            section: 0,
            panel: 0,
            ..u0.nav
        }),
        s0,
    )
    &&& u1.nav.active_tool_id@ == id
    &&& rules_panel::row_views(u1.rules@) == window::open_rows(s1)
}

/// The user has picked a tool: the search is cleared and all tools are listed, the window
/// shows the tool, and is
/// brought in line with the directory.
pub open spec fn tool_selected(
    u0: Window,
    s0: State,
    u1: Window,
    s1: State,
    load: Option<PlanLoad>,
    id: Seq<char>,
    is_dir: bool,
) -> bool {
    let u = Window {
        nav: Nav {
            tool_search: u1.nav.tool_search,
            shown_tools: u1.nav.shown_tools,
            ..u0.nav
        },
        ..u0
    };
    &&& u1.nav.tool_search@ == Seq::<char>::empty()
    &&& u1.nav.shown_tools@ == rules_panel::all_tools(s0.tools@.len())
    &&& match rules_panel::tool_named(id) {
        None => u1 == u && s1 == s0 && load is None,
        Some(tool) => {
            let um = Window { nav: u1.nav, rules: u1.rules, ..u0 };
            let sm = State { tool, section: s1.section, ..s0 };
            tool_shown(u, s0, um, sm, tool, id) && commands::directory_synced(
                um,
                sm,
                u1,
                s1,
                load,
                is_dir,
            )
        },
    }
}

fn show_tool(ui: &mut Window, state: &mut State, tool: Tool, id: &str)
    requires
        rules_panel::all_well_formed(old(state).specs@),
    ensures
        tool_shown(*old(ui), *old(state), *final(ui), *final(state), tool, id@),
{
    ui.nav.screen = match tool {
        Tool::Extract => 2,
        Tool::Organizer => 0,
    };
    ui.nav.active_tool_id = id.to_owned();
    state.tool = tool;
    let sections = tool.sections();
    assert(rules_panel::sections_of(tool).len() > 0);
    assert(text::texts(sections@).len() == sections@.len());
    assert(text::texts(sections@)[0] == sections@[0]@);
    state.section = sections[0].clone();
    ui.nav.section = 0;
    ui.nav.panel = 0;
    window::refresh(ui, state);
}

/// The user picks a tool.
pub fn select_tool(ui: &mut Window, state: &mut State, id: &str, is_dir: bool) -> (r: Option<
    PlanLoad,
>)
    requires
        rules_panel::all_well_formed(old(state).specs@),
    ensures
        tool_selected(*old(ui), *old(state), *final(ui), *final(state), r, id@, is_dir),
{
    ui.nav.tool_search = commands::nothing();
    ui.nav.shown_tools = rules_panel::every_tool(&state.tools);
    let tool = match Tool::from_id(id) {
        Some(t) => t,
        None => return None,
    };
    let ghost u = *ui;
    let ghost s = *state;
    show_tool(ui, state, tool, id);
    let ghost um = *ui;
    let ghost sm = *state;
    let r = commands::sync_ready_after_directory(ui, state, is_dir);
    assert(tool_shown(u, s, um, sm, tool, id@));
    r
}

/// The user searches for a tool: those that match are listed.
pub fn search(ui: &mut Window, state: &State, query: &str)
    ensures
        final(ui).nav.shown_tools@ == rules_panel::matching(state.tools@, query@),
        *final(ui) == (Window {
            nav: Nav { shown_tools: final(ui).nav.shown_tools, ..old(ui).nav },
            ..*old(ui)
        }),
{
    ui.nav.shown_tools = rules_panel::search_tools(&state.tools, query);
}

/// Picking a tool is not a change of the rules or the directory: a plan that is shown is
/// asked for again, and stays what it is.
pub proof fn law_tools_keep_the_plan(
    u0: Window,
    s0: State,
    u1: Window,
    s1: State,
    load: Option<PlanLoad>,
    id: Seq<char>,
    is_dir: bool,
)
    requires
        tool_selected(u0, s0, u1, s1, load, id, is_dir),
    ensures
        s1.task == s0.task,
        s1.config == s0.config,
        u1.directory == u0.directory,
        u1.has_task == u0.has_task,
        u1.plan.rows == u0.plan.rows,
        rules_panel::tool_named(id) == Some(Tool::Organizer) && !u0.busy && u0.has_task
            && s0.task is Some ==> load is Some && load->0.directory@ == u0.directory@,
{
}

/// The user opens a screen; the page about the program is no tool.
pub fn navigation(ui: &mut Window, screen: i32)
    ensures
        *final(ui) == (Window {
            nav: Nav { screen, active_tool_id: final(ui).nav.active_tool_id, ..old(ui).nav },
            ..*old(ui)
        }),
        if screen == 1 {
            final(ui).nav.active_tool_id@ == Seq::<char>::empty()
        } else {
            final(ui).nav.active_tool_id == old(ui).nav.active_tool_id
        },
{
    ui.nav.screen = screen;
    if screen == 1 {
        ui.nav.active_tool_id = commands::nothing();
    }
}

/// The user opens a group of rules of the tool; there is nothing to do where there is none.
pub fn select_section(ui: &mut Window, state: &mut State, index: i32)
    requires
        rules_panel::all_well_formed(old(state).specs@),
    ensures
        if commands::position(index) < rules_panel::sections_of(old(state).tool).len() {
            &&& final(state).section@ == rules_panel::sections_of(old(
                state,
            ).tool)[commands::position(index)]
            &&& *final(state) == (State { section: final(state).section, ..*old(state) })
            &&& *final(ui) == (Window {
                nav: window::with_theme(
                    (Nav { section: commands::position(index) as i32, ..old(ui).nav }),
                    *old(state),
                ),
                rules: final(ui).rules,
                ..*old(ui)
            })
            &&& rules_panel::row_views(final(ui).rules@) == window::open_rows(*final(state))
        } else {
            *final(ui) == *old(ui) && *final(state) == *old(state)
        },
{
    let sections = state.tool.sections();
    let clamped: i32 = if index < 0 {
        0
    } else {
        index
    };
    let at: usize = clamped as usize;
    if at < sections.len() {
        assert(text::texts(sections@)[at as int] == sections@[at as int]@);
        state.section = sections[at].clone();
        ui.nav.section = clamped;
        window::refresh(ui, state);
    }
}

/// What follows an edit of the directory.
#[derive(Debug)]
pub enum RootEdit {
    /// It was dealt with.
    Settled(Option<PlanLoad>),
    /// The directory is looked at once the user has stopped typing.
    Later,
}

/// The user edits the directory: the plan may not be executed from now on, and a plan
/// that is shown is asked for once the user has stopped typing.
pub fn root_edited(ui: &mut Window, state: &mut State, is_dir: bool) -> (r: RootEdit)
    ensures
        !final(ui).ready,
        match r {
            RootEdit::Later => old(ui).has_task && *final(ui) == (Window { ready: false, ..*old(ui)
            }) && *final(state) == *old(state),
            RootEdit::Settled(load) => !old(ui).has_task && commands::directory_synced(
                (Window { ready: false, ..*old(ui) }),
                *old(state),
                *final(ui),
                *final(state),
                load,
                is_dir,
            ),
        },
{
    ui.ready = false;
    if !ui.has_task {
        let load = commands::sync_ready_after_directory(ui, state, is_dir);
        return RootEdit::Settled(load);
    }
    RootEdit::Later
}

/// Why a task is not started.
pub open spec fn start_refusal(u: Window, s: State, apply: bool, is_dir: bool) -> Option<Seq<char>> {
    if s.pending_selection != 0 {
        Some("计划勾选仍在保存中，请稍后再试"@)
    } else if commands::config_problem(s.config) is Some {
        commands::config_problem(s.config)
    } else if apply && s.task is None {
        Some("还没有可以执行的计划"@)
    } else if !apply && !is_dir {
        Some("目标目录不存在或无法访问，请重新选择目录"@)
    } else {
        None
    }
}

/// A task has been started: the window shows that it runs before anything is read.
pub open spec fn task_started(u0: Window, s0: State, u1: Window, s1: State, apply: bool) -> bool {
    &&& s1 == (State {
        run: Run {
            running: true,
            close_after: false,
            applying: apply,
            extracting: false,
            ..s0.run
        },
        selection_failed: false,
        status_pending: false,
        logs: s1.logs,
        paging: Paging { page: 0, page_starts: s1.paging.page_starts, ..s0.paging },
        ..s0
    })
    &&& s1.logs@.len() == 0
    &&& s1.paging.page_starts@ == seq![0i64]
    &&& u1 == (Window {
        busy: true,
        ready: false,
        paused: false,
        error_text: u1.error_text,
        notice_text: u1.notice_text,
        nav: Nav { panel: 2, ..u0.nav },
        log_text: u1.log_text,
        status: u1.status,
        ..u0
    })
    &&& u1.error_text@ == Seq::<char>::empty()
    &&& u1.log_text@ == Seq::<char>::empty()
    &&& if apply {
        u1.notice_text == u0.notice_text && u1.status@ == "正在执行已确认的整理计划"@
    } else {
        u1.notice_text@ == Seq::<char>::empty() && u1.status@
            == "准备扫描与分析；分析阶段只读，不会改动任何文件"@
    }
}

/// A task was asked for: nothing happens while another runs, and what is wrong is told.
pub open spec fn start_asked(
    u0: Window,
    s0: State,
    u1: Window,
    s1: State,
    apply: bool,
    is_dir: bool,
    started: bool,
) -> bool {
    &&& started == (!u0.busy && start_refusal(u0, s0, apply, is_dir) is None)
    &&& if u0.busy {
        u1 == u0 && s1 == s0
    } else {
        match start_refusal(u0, s0, apply, is_dir) {
            Some(m) => commands::refused(u0, u1, m) && s1 == s0,
            None => task_started(u0, s0, u1, s1, apply),
        }
    }
}

fn no_lines() -> (r: VecDeque<String>)
    ensures
        r@.len() == 0,
{
    VecDeque::new()
}

/// Starts an analysis, or the execution of the plan.
pub fn start_task(ui: &mut Window, state: &mut State, apply: bool, is_dir: bool) -> (r: bool)
    ensures
        start_asked(*old(ui), *old(state), *final(ui), *final(state), apply, is_dir, r),
{
    if ui.busy {
        return false;
    }
    if state.pending_selection != 0 {
        ui.error_text = "计划勾选仍在保存中，请稍后再试".to_owned();
        return false;
    }
    if let Some(p) = commands::find_problem(&state.config) {
        ui.error_text = p.to_owned();
        return false;
    }
    if apply && state.task.is_none() {
        ui.error_text = "还没有可以执行的计划".to_owned();
        return false;
    }
    if !apply && !is_dir {
        ui.error_text = "目标目录不存在或无法访问，请重新选择目录".to_owned();
        return false;
    }
    state.run.running = true;
    state.run.close_after = false;
    state.selection_failed = false;
    state.status_pending = false;
    state.logs = no_lines();
    state.paging.page = 0;
    state.paging.page_starts = window::first_page();
    state.run.applying = apply;
    state.run.extracting = false;
    ui.busy = true;
    ui.ready = false;
    ui.paused = false;
    ui.error_text = commands::nothing();
    if !apply {
        ui.notice_text = commands::nothing();
    }
    ui.nav.panel = 2;
    ui.log_text = commands::nothing();
    ui.status = if apply {
        "正在执行已确认的整理计划".to_owned()
    } else {
        "准备扫描与分析；分析阶段只读，不会改动任何文件".to_owned()
    };
    true
}

/// Why an extraction is not started.
pub open spec fn extract_refusal(s: State, is_dir: bool) -> Option<Seq<char>> {
    if commands::config_problem(s.config) is Some {
        commands::config_problem(s.config)
    } else if !is_dir {
        Some("目标目录不存在或无法访问，请重新选择目录"@)
    } else {
        None
    }
}

/// The status line of an extraction: what becomes of the archives.
pub open spec fn extracting_text() -> Seq<char> {
    "正在解压；完整成功解出的原压缩包及分卷会永久删除（不经回收站，不可恢复），失败、未完全解开或取消的包保留，无法完全解开的包移入「解压失败」并记录原因"@
}

/// An extraction has been started; the plan of the other tool is not touched.
pub open spec fn extract_started(u0: Window, s0: State, u1: Window, s1: State) -> bool {
    &&& s1 == (State {
        run: Run {
            running: true,
            close_after: false,
            applying: false,
            extracting: true,
            planned: 0,
        },
        logs: s1.logs,
        ..s0
    })
    &&& s1.logs@.len() == 0
    &&& u1 == (Window {
        busy: true,
        ready: false,
        paused: false,
        error_text: u1.error_text,
        notice_text: u1.notice_text,
        nav: Nav { panel: 1, ..u0.nav },
        progress: Progress { quarantined_count: 0, ..u0.progress },
        log_text: u1.log_text,
        status: u1.status,
        ..u0
    })
    &&& u1.error_text@ == Seq::<char>::empty()
    &&& u1.notice_text@ == Seq::<char>::empty()
    &&& u1.log_text@ == Seq::<char>::empty()
    &&& u1.status@ == extracting_text()
}

/// An extraction was asked for.
pub open spec fn extract_asked(
    u0: Window,
    s0: State,
    u1: Window,
    s1: State,
    is_dir: bool,
    started: bool,
) -> bool {
    &&& started == (!u0.busy && extract_refusal(s0, is_dir) is None)
    &&& if u0.busy {
        u1 == u0 && s1 == s0
    } else {
        match extract_refusal(s0, is_dir) {
            Some(m) => commands::refused(u0, u1, m) && s1 == s0,
            None => extract_started(u0, s0, u1, s1),
        }
    }
}

/// Starts an extraction.
pub fn start_extract(ui: &mut Window, state: &mut State, is_dir: bool) -> (r: bool)
    ensures
        extract_asked(*old(ui), *old(state), *final(ui), *final(state), is_dir, r),
{
    if ui.busy {
        return false;
    }
    if let Some(p) = commands::find_problem(&state.config) {
        ui.error_text = p.to_owned();
        return false;
    }
    if !is_dir {
        ui.error_text = "目标目录不存在或无法访问，请重新选择目录".to_owned();
        return false;
    }
    state.run.running = true;
    state.run.close_after = false;
    state.logs = no_lines();
    state.run.applying = false;
    state.run.extracting = true;
    state.run.planned = 0;
    ui.busy = true;
    ui.ready = false;
    ui.paused = false;
    ui.error_text = commands::nothing();
    ui.notice_text = commands::nothing();
    ui.nav.panel = 1;
    ui.progress.quarantined_count = 0;
    ui.log_text = commands::nothing();
    ui.status =
        "正在解压；完整成功解出的原压缩包及分卷会永久删除（不经回收站，不可恢复），失败、未完全解开或取消的包保留，无法完全解开的包移入「解压失败」并记录原因".to_owned();
    true
}

/// Neither tool starts while a task runs, or with rules that are not valid, and a plan is
/// not executed while its selection is still being saved.
pub proof fn law_starts_are_guarded(
    u0: Window,
    s0: State,
    u1: Window,
    s1: State,
    apply: bool,
    is_dir: bool,
)
    requires
        start_asked(u0, s0, u1, s1, apply, is_dir, true) || extract_asked(
            u0,
            s0,
            u1,
            s1,
            is_dir,
            true,
        ),
    ensures
        !u0.busy,
        commands::config_problem(s0.config) is None,
        start_asked(u0, s0, u1, s1, apply, is_dir, true) ==> s0.pending_selection == 0,
        u1.busy,
        !u1.ready,
{
}

/// The question before an extraction: what is done, and what becomes of the archives.
pub open spec fn confirm_extract(count_text: Seq<char>, directory: Seq<char>) -> Seq<char> {
    "目标目录："@ + directory + "\n\n将递归解压压缩包（含本次解出的嵌套压缩包），就地解到各包所在位置。\n"@ + count_text
        + "\n每个包完整解开（全部成员落盘）后，原压缩包及该包的分卷会永久删除，不经回收站、不可恢复；失败、未完全解开或取消的包一律保留。\n已有文件一律保留；目标同名时只为新解出的文件自动改文件名（如 资料 (1).txt），扩展名与复合扩展名保持不变。\n无法完全解开的包保留并移入「解压失败」子目录，原因记录在日志中；处理期间可随时取消。"@
}

/// The question before an extraction.
pub fn extract_confirm_text(count_text: &str, directory: &str) -> (r: String)
    ensures
        r@ == confirm_extract(count_text@, directory@),
{
    let mut s = "目标目录：".to_owned();
    s.append(directory);
    s.append("\n\n将递归解压压缩包（含本次解出的嵌套压缩包），就地解到各包所在位置。\n");
    s.append(count_text);
    s.append(
        "\n每个包完整解开（全部成员落盘）后，原压缩包及该包的分卷会永久删除，不经回收站、不可恢复；失败、未完全解开或取消的包一律保留。\n已有文件一律保留；目标同名时只为新解出的文件自动改文件名（如 资料 (1).txt），扩展名与复合扩展名保持不变。\n无法完全解开的包保留并移入「解压失败」子目录，原因记录在日志中；处理期间可随时取消。",
    );
    s
}

/// Why the question before an extraction is not asked.
pub open spec fn question_refusal(
    u: Window,
    s: State,
    is_dir: bool,
    root_error: Option<Seq<char>>,
) -> Option<Seq<char>> {
    if commands::config_problem(s.config) is Some {
        commands::config_problem(s.config)
    } else if u.directory@.len() == 0 {
        Some("请先选择需要解压的目录"@)
    } else if !is_dir {
        Some("目标目录不存在或无法访问，请重新选择目录"@)
    } else {
        root_error
    }
}

/// The user asks for an extraction: the question is shown at once, and cannot be answered
/// before the archives are counted. The caller says what is wrong with the directory, and
/// counts for the number that is returned.
pub fn request_extract_start(
    ui: &mut Window,
    state: &mut State,
    is_dir: bool,
    root_error: Option<String>,
) -> (r: Option<u64>)
    requires
        old(state).generations.extract < u64::MAX,
    ensures
        match r {
            Some(g) => {
                &&& !old(ui).busy
                &&& question_refusal(
                    *old(ui),
                    *old(state),
                    is_dir,
                    text::text_option(root_error),
                ) is None
                &&& g == old(state).generations.extract + 1
                &&& *final(state) == (State {
                    generations: Generations { extract: g, ..old(state).generations },
                    ..*old(state)
                })
                &&& *final(ui) == (Window { dialog: final(ui).dialog, ..*old(ui) })
                &&& final(ui).dialog == (Dialog {
                    text: final(ui).dialog.text,
                    kind: 1,
                    acknowledge: false,
                    pending: true,
                })
                &&& final(ui).dialog.text@ == confirm_extract(
                    "正在清点压缩包…"@,
                    old(ui).directory@,
                )
            },
            None => *final(state) == *old(state) && if old(ui).busy {
                *final(ui) == *old(ui)
            } else {
                let m = question_refusal(
                    *old(ui),
                    *old(state),
                    is_dir,
                    text::text_option(root_error),
                );
                m is Some && commands::refused(*old(ui), *final(ui), m->0)
            },
        },
{
    if ui.busy {
        return None;
    }
    if let Some(p) = commands::find_problem(&state.config) {
        ui.error_text = p.to_owned();
        return None;
    }
    if ui.directory.as_str().is_empty() {
        ui.error_text = "请先选择需要解压的目录".to_owned();
        return None;
    }
    if !is_dir {
        ui.error_text = "目标目录不存在或无法访问，请重新选择目录".to_owned();
        return None;
    }
    if let Some(e) = root_error {
        ui.error_text = e;
        return None;
    }
    ui.dialog.text = extract_confirm_text("正在清点压缩包…", ui.directory.as_str());
    ui.dialog.acknowledge = false;
    ui.dialog.kind = 1;
    ui.dialog.pending = true;
    let g: u64 = state.generations.extract + 1;
    state.generations.extract = g;
    Some(g)
}

/// The question before a plan is executed.
pub open spec fn confirm_apply(
    directory: Seq<char>,
    warning: Seq<char>,
    summary: Seq<char>,
) -> Seq<char> {
    "目标目录："@ + directory + "\n执行“整理计划”中已勾选的操作；取消勾选的项目不会执行。\n\n"@ + warning + "\n\n"@
        + summary
}

/// The user asks for the plan to be executed; only a plan that may be is asked about.
pub fn request_apply(ui: &mut Window, state: &State, summary: &str)
    ensures
        if old(ui).ready {
            &&& *final(ui) == (Window { dialog: final(ui).dialog, ..*old(ui) })
            &&& final(ui).dialog == (Dialog {
                text: final(ui).dialog.text,
                kind: 2,
                acknowledge: false,
                ..old(ui).dialog
            })
            &&& final(ui).dialog.text@ == confirm_apply(
                old(ui).directory@,
                crate::config::warning_text(state.config),
                summary@,
            )
        } else {
            *final(ui) == *old(ui)
        },
{
    if !ui.ready {
        return ;
    }
    let mut s = "目标目录：".to_owned();
    s.append(ui.directory.as_str());
    s.append("\n执行“整理计划”中已勾选的操作；取消勾选的项目不会执行。\n\n");
    s.append(state.config.destructive_warning().as_str());
    s.append("\n\n");
    s.append(summary);
    ui.dialog.text = s;
    ui.dialog.acknowledge = false;
    ui.dialog.kind = 2;
}

/// What follows a confirmation.
#[derive(Clone, Copy, Debug, PartialEq, Eq, Structural)]
pub enum Confirmed {
    Nothing,
    /// The window closes.
    Quit,
    /// The task is cancelled; the window closes when it has ended.
    Cancel,
    /// The plan is executed.
    Apply,
    /// The archives are extracted.
    Extract,
}

/// The user confirms a question.
pub fn confirmed(ui: &mut Window, state: &mut State, kind: i32, is_dir: bool) -> (r: Confirmed)
    ensures
        if kind == 3 {
            &&& *final(state) == (State {
                run: Run { close_after: true, ..old(state).run },
                ..*old(state)
            })
            &&& if old(state).run.running {
                &&& r == Confirmed::Cancel
                &&& *final(ui) == (Window { status: final(ui).status, ..*old(ui) })
                &&& final(ui).status@ == "取消任务中，完成当前安全操作后关闭"@
            } else {
                r == Confirmed::Quit && *final(ui) == *old(ui)
            }
        } else if kind == 2 {
            &&& r == Confirmed::Apply || r == Confirmed::Nothing
            &&& start_asked(
                *old(ui),
                *old(state),
                *final(ui),
                *final(state),
                true,
                is_dir,
                r == Confirmed::Apply,
            )
        } else if old(ui).nav.screen == 2 {
            &&& r == Confirmed::Extract || r == Confirmed::Nothing
            &&& extract_asked(
                *old(ui),
                *old(state),
                *final(ui),
                *final(state),
                is_dir,
                r == Confirmed::Extract,
            )
        } else {
            r == Confirmed::Nothing && *final(ui) == *old(ui) && *final(state) == *old(state)
        },
{
    if kind == 3 {
        state.run.close_after = true;
        if !state.run.running {
            return Confirmed::Quit;
        }
        ui.status = "取消任务中，完成当前安全操作后关闭".to_owned();
        return Confirmed::Cancel;
    }
    if kind == 2 {
        if start_task(ui, state, true, is_dir) {
            return Confirmed::Apply;
        }
        return Confirmed::Nothing;
    }
    if ui.nav.screen == 2 {
        if start_extract(ui, state, is_dir) {
            return Confirmed::Extract;
        }
    }
    Confirmed::Nothing
}

/// The user pauses the task or lets it go on; what the task is told is returned.
pub fn pause_task(ui: &mut Window, state: &State, is_paused: bool) -> (r: Option<bool>)
    ensures
        if state.run.running {
            &&& r == Some(!is_paused)
            &&& *final(ui) == (Window {
                paused: !is_paused,
                status: final(ui).status,
                ..*old(ui)
            })
            &&& final(ui).status@ == (if !is_paused {
                "已请求暂停；正在运行的压缩包在完成后暂停，Hash 和整理操作在分块/文件边界暂停"@
            } else {
                "继续处理"@
            })
        } else {
            r is None && *final(ui) == *old(ui)
        },
{
    if !state.run.running {
        return None;
    }
    let pause: bool = !is_paused;
    ui.paused = pause;
    ui.status = if pause {
        "已请求暂停；正在运行的压缩包在完成后暂停，Hash 和整理操作在分块/文件边界暂停".to_owned()
    } else {
        "继续处理".to_owned()
    };
    Some(pause)
}

/// The user cancels the task; says whether there is one to cancel.
pub fn cancel_task(ui: &mut Window, state: &State) -> (r: bool)
    ensures
        r == state.run.running,
        *final(ui) == (Window { status: final(ui).status, ..*old(ui) }),
        final(ui).status@ == "正在取消；不会继续后续删除和移动"@,
{
    ui.status = "正在取消；不会继续后续删除和移动".to_owned();
    state.run.running
}

/// The first row of the plan with this number, from place `i` on.
pub open spec fn plan_row_at(rows: Seq<PlanRow>, id: i64, i: int) -> Option<int>
    decreases rows.len() - i,
{
    if i < 0 || i >= rows.len() {
        None
    } else if rows[i].id == id {
        Some(i)
    } else {
        plan_row_at(rows, id, i + 1)
    }
}

pub(crate) fn find_plan_row(rows: &Vec<PlanRow>, id: i64) -> (r: Option<usize>)
    ensures
        match r {
            Some(i) => i < rows@.len() && plan_row_at(rows@, id, 0) == Some(i as int),
            None => plan_row_at(rows@, id, 0) is None,
        },
{
    let mut i: usize = 0;
    while i < rows.len()
        invariant
            i <= rows@.len(),
            plan_row_at(rows@, id, 0) == plan_row_at(rows@, id, i as int),
        decreases rows.len() - i,
    {
        if rows[i].id == id {
            return Some(i);
        }
        i = i + 1;
    }
    None
}

/// A row of the plan shows its new selection and the state that follows from it; no other
/// row changes.
pub open spec fn row_toggled(
    before: Seq<PlanRow>,
    after: Seq<PlanRow>,
    id: i64,
    selected: bool,
) -> bool {
    match plan_row_at(before, id, 0) {
        None => after == before,
        Some(k) => {
            &&& after.len() == before.len()
            &&& forall|i: int| 0 <= i < before.len() && i != k ==> #[trigger] after[i] == before[i]
            &&& after[k] == (PlanRow { selected, state: after[k].state, ..before[k] })
            &&& after[k].state@ == window::row_state(selected, before[k].state@)
        },
    }
}

/// Shows a new selection in a row of the plan.
pub fn patch_plan_row(rows: &mut Vec<PlanRow>, id: i64, selected: bool)
    ensures
        row_toggled(old(rows)@, final(rows)@, id, selected),
{
    if let Some(i) = find_plan_row(rows, id) {
        let mut row = rows.remove(i);
        row.selected = selected;
        let shown = window::plan_row_state(selected, row.state.as_str());
        row.state = shown;
        rows.insert(i, row);
    }
}

/// The user selects or deselects an action of the plan: it is shown at once and saved;
/// until it is, the plan may not be executed. What is saved is returned.
pub fn plan_toggle(ui: &mut Window, state: &mut State, id: i64, selected: bool) -> (r: Option<
    (String, i64, bool),
>)
    requires
        old(state).pending_selection < usize::MAX,
    ensures
        if old(state).task is Some && !old(ui).busy {
            &&& r matches Some((task, number, value)) && task@ == old(state).task->0@ && number == id
                && value == selected
            &&& *final(ui) == (Window {
                ready: false,
                plan: PlanPane { rows: final(ui).plan.rows, ..old(ui).plan },
                ..*old(ui)
            })
            &&& row_toggled(old(ui).plan.rows@, final(ui).plan.rows@, id, selected)
            &&& *final(state) == (State {
                pending_selection: (old(state).pending_selection + 1) as usize,
                ..*old(state)
            })
        } else {
            r is None && *final(ui) == *old(ui) && *final(state) == *old(state)
        },
{
    if ui.busy {
        return None;
    }
    let task: String = match &state.task {
        Some(t) => t.clone(),
        None => return None,
    };
    ui.ready = false;
    patch_plan_row(&mut ui.plan.rows, id, selected);
    state.pending_selection = state.pending_selection + 1;
    Some((task, id, selected))
}

fn copy_filter(s: &Option<String>) -> (r: Option<String>)
    ensures
        text::text_option(r) == text::text_option(*s),
{
    match s {
        Some(v) => Some(v.clone()),
        None => None,
    }
}

/// A request for a page.
pub open spec fn is_page_load(
    l: PlanLoad,
    before: State,
    directory: Seq<char>,
    start: i64,
    page: usize,
    filter: Option<Seq<char>>,
    summary: bool,
) -> bool {
    &&& before.task is Some
    &&& window::is_load(l, before, before.task->0@, directory)
    &&& l.query.page is Some
    &&& l.query.page->0.start == start
    &&& l.query.page->0.page == page
    &&& text::text_option(l.query.page->0.filter) == filter
    &&& l.query.summary == summary
}

/// The page beside the one that is shown.
pub open spec fn page_beside(page: usize, direction: i32) -> int {
    if direction >= 0 {
        page + 1
    } else if page == 0 {
        0
    } else {
        page - 1
    }
}

/// The user turns the page: the page is asked for, and shown when it has come.
pub fn plan_page(ui: &Window, state: &mut State, direction: i32) -> (r: Option<PlanLoad>)
    requires
        old(state).paging.page < usize::MAX,
    ensures
        ({
            let next = page_beside(old(state).paging.page, direction);
            if old(state).task is Some && next < old(state).paging.page_starts@.len() {
                &&& r is Some
                &&& is_page_load(
                    r->0,
                    *old(state),
                    ui.directory@,
                    old(state).paging.page_starts@[next],
                    next as usize,
                    text::text_option(old(state).paging.filter),
                    false,
                )
                &&& *final(state) == window::counted(*old(state), true)
            } else {
                r is None && *final(state) == *old(state)
            }
        }),
{
    let task: String = match &state.task {
        Some(t) => t.clone(),
        None => return None,
    };
    let next: usize = if direction >= 0 {
        state.paging.page + 1
    } else if state.paging.page == 0 {
        0
    } else {
        state.paging.page - 1
    };
    if next >= state.paging.page_starts.len() {
        return None;
    }
    let start: i64 = state.paging.page_starts[next];
    let filter = copy_filter(&state.paging.filter);
    Some(
        window::load_plan_state(
            state,
            task.as_str(),
            ui.directory.as_str(),
            PlanQuery::page(start, next, filter, false),
        ),
    )
}

/// The kind of action that is shown, or all.
pub open spec fn filter_of(kind: Seq<char>) -> Option<Seq<char>> {
    if kind.len() == 0 {
        None
    } else {
        Some(kind)
    }
}

/// The user filters the plan: its first page is asked for.
pub fn filter_plan(ui: &mut Window, state: &mut State, kind: &str) -> (r: Option<PlanLoad>)
    ensures
        if old(state).task is Some {
            let asked = State {
                paging: Paging {
                    filter: final(state).paging.filter,
                    page: 0,
                    page_starts: final(state).paging.page_starts,
                },
                ..*old(state)
            };
            &&& text::text_option(final(state).paging.filter) == filter_of(kind@)
            &&& final(state).paging.page_starts@ == seq![0i64]
            &&& *final(state) == window::counted(asked, true)
            &&& r is Some
            &&& is_page_load(r->0, asked, old(ui).directory@, 0, 0, filter_of(kind@), false)
            &&& *final(ui) == (Window {
                plan: PlanPane {
                    prev_enabled: false,
                    next_enabled: false,
                    page_label: final(ui).plan.page_label,
                    ..old(ui).plan
                },
                ..*old(ui)
            })
            &&& final(ui).plan.page_label@ == "加载中…"@
        } else {
            r is None && *final(ui) == *old(ui) && *final(state) == *old(state)
        },
{
    let task: String = match &state.task {
        Some(t) => t.clone(),
        None => return None,
    };
    state.paging.filter = if kind.is_empty() {
        None
    } else {
        Some(kind.to_owned())
    };
    state.paging.page = 0;
    state.paging.page_starts = window::first_page();
    ui.plan.prev_enabled = false;
    ui.plan.next_enabled = false;
    ui.plan.page_label = "加载中…".to_owned();
    let filter = copy_filter(&state.paging.filter);
    Some(
        window::load_plan_state(
            state,
            task.as_str(),
            ui.directory.as_str(),
            PlanQuery::page(0, 0, filter, false),
        ),
    )
}

/// What follows a request to close the window.
#[derive(Clone, Copy, Debug, PartialEq, Eq, Structural)]
pub enum CloseAnswer {
    /// It stays, and asks.
    Keep,
    /// It closes; a task is cancelled first if there is one.
    Close { cancel: bool },
}

/// The user closes the window: while a task runs it asks first.
pub fn close_requested(ui: &mut Window, state: &State) -> (r: CloseAnswer)
    ensures
        if old(ui).busy {
            &&& r == CloseAnswer::Keep
            &&& *final(ui) == (Window { dialog: final(ui).dialog, ..*old(ui) })
            &&& final(ui).dialog == (Dialog {
                text: final(ui).dialog.text,
                kind: 3,
                acknowledge: false,
                ..old(ui).dialog
            })
            &&& final(ui).dialog.text@
                == "任务仍在处理文件。确认后会请求取消，等待正在进行的操作结束，再关闭窗口。已经完成的操作不会自动回滚。"@
        } else {
            r == (CloseAnswer::Close { cancel: state.run.running }) && *final(ui) == *old(ui)
        },
{
    if ui.busy {
        ui.dialog.text =
            "任务仍在处理文件。确认后会请求取消，等待正在进行的操作结束，再关闭窗口。已经完成的操作不会自动回滚。".to_owned();
        ui.dialog.kind = 3;
        ui.dialog.acknowledge = false;
        return CloseAnswer::Keep;
    }
    CloseAnswer::Close { cancel: state.run.running }
}

/// The title of the dialog that picks the directory.
pub fn choose_title(tool: Tool) -> (r: &'static str)
    ensures
        r@ == (match tool {
            Tool::Extract => "选择需要解压的目录"@,
            Tool::Organizer => "选择需要整理的目录"@,
        }),
{
    match tool {
        Tool::Extract => "选择需要解压的目录",
        Tool::Organizer => "选择需要整理的目录",
    }
}

/// The user has picked a directory.
pub fn choose_directory(ui: &mut Window, state: &mut State, directory: &str, is_dir: bool) -> (r:
    Option<PlanLoad>)
    ensures
        final(ui).directory@ == directory@,
        commands::directory_synced(
            (Window { directory: final(ui).directory, ..*old(ui) }),
            *old(state),
            *final(ui),
            *final(state),
            r,
            is_dir,
        ),
{
    ui.directory = directory.to_owned();
    commands::sync_ready_after_directory(ui, state, is_dir)
}

/// A task starts exactly where no selection is being saved, the rules are valid, and there
/// is a plan to execute or a directory to analyse.
pub proof fn law_when_a_task_starts(u: Window, s: State, apply: bool, is_dir: bool)
    ensures
        start_refusal(u, s, apply, is_dir) is None <==> s.pending_selection == 0
            && commands::config_problem(s.config) is None && (if apply {
            s.task is Some
        } else {
            is_dir
        }),
        s.pending_selection != 0 ==> start_refusal(u, s, apply, is_dir) == Some(
            "计划勾选仍在保存中，请稍后再试"@,
        ),
        s.pending_selection == 0 && commands::config_problem(s.config) is None && apply
            && s.task is None ==> start_refusal(u, s, apply, is_dir) == Some(
            "还没有可以执行的计划"@,
        ),
        s.pending_selection == 0 && commands::config_problem(s.config) is None && !apply && !is_dir
            ==> start_refusal(u, s, apply, is_dir) == Some(
            "目标目录不存在或无法访问，请重新选择目录"@,
        ),
{
}

/// An extraction starts exactly where the rules are valid and the directory is there; it is
/// asked about only where one was entered that can be chosen.
pub proof fn law_when_an_extraction_starts(
    u: Window,
    s: State,
    is_dir: bool,
    root_error: Option<Seq<char>>,
)
    ensures
        extract_refusal(s, is_dir) is None <==> commands::config_problem(s.config) is None && is_dir,
        question_refusal(u, s, is_dir, root_error) is None <==> commands::config_problem(
            s.config,
        ) is None && u.directory@.len() > 0 && is_dir && root_error is None,
        commands::config_problem(s.config) is None && u.directory@.len() == 0 ==> question_refusal(
            u,
            s,
            is_dir,
            root_error,
        ) == Some("请先选择需要解压的目录"@),
        commands::config_problem(s.config) is None && u.directory@.len() > 0 && is_dir
            ==> question_refusal(u, s, is_dir, root_error) == root_error,
{
}

/// Once a task was started the window shows that it runs, and its plan may not be executed;
/// what was started is what was asked for, from the first page on and with an empty log.
pub proof fn law_what_a_start_shows(
    u0: Window,
    s0: State,
    u1: Window,
    s1: State,
    apply: bool,
    is_dir: bool,
)
    requires
        start_asked(u0, s0, u1, s1, apply, is_dir, true),
    ensures
        u1.busy && !u1.ready && !u1.paused,
        s1.run.running && s1.run.applying == apply && !s1.run.extracting && !s1.run.close_after,
        s1.paging.page == 0 && s1.paging.page_starts@ == seq![0i64],
        s1.logs@.len() == 0 && u1.log_text@.len() == 0 && u1.error_text@.len() == 0,
        s1.task == s0.task && s1.config == s0.config && u1.directory == u0.directory,
        s1.generations == s0.generations,
        u1.nav.panel == 2,
{
}

/// An extraction shows that it runs and leaves the plan of the other tool alone.
pub proof fn law_what_an_extraction_shows(u0: Window, s0: State, u1: Window, s1: State, is_dir: bool)
    requires
        extract_asked(u0, s0, u1, s1, is_dir, true),
    ensures
        u1.busy && !u1.ready && !u1.paused,
        s1.run.running && s1.run.extracting && !s1.run.applying && s1.run.planned == 0,
        u1.plan == u0.plan && s1.task == s0.task && s1.paging == s0.paging && s1.config == s0.config,
        u1.progress.quarantined_count == 0,
        u1.nav.panel == 1,
{
}

/// A request that is refused, or made while a task runs, starts nothing; it changes at most
/// the message.
pub proof fn law_refused_starts_change_nothing(
    u0: Window,
    s0: State,
    u1: Window,
    s1: State,
    apply: bool,
    is_dir: bool,
)
    requires
        start_asked(u0, s0, u1, s1, apply, is_dir, false) || extract_asked(
            u0,
            s0,
            u1,
            s1,
            is_dir,
            false,
        ),
    ensures
        s1 == s0,
        u1 == (Window { error_text: u1.error_text, ..u0 }),
        u0.busy ==> u1 == u0,
{
}

/// A text that is no number changes no rule: the row shows the number that the rule still
/// has, and unless the field is empty the message tells what is expected.
pub proof fn law_texts_are_no_numbers(
    u0: Window,
    s0: State,
    u1: Window,
    s1: State,
    key: Seq<char>,
    typed: Seq<char>,
    is_dir: bool,
)
    requires
        is_numeric(s0, key),
        text_entered(u0, s0, u1, s1, key, typed, None, is_dir),
    ensures
        s1 == s0,
        u1.ready == u0.ready,
        typed.len() == 0 ==> u1.error_text == u0.error_text,
        typed.len() > 0 && is_capacity(s0, key) ==> u1.error_text@
            == "该设置需要非负数字，可选单位 B/KiB/MiB/GiB/TiB（换算后须为整数字节）"@,
        typed.len() > 0 && !is_capacity(s0, key) ==> u1.error_text@ == "该设置需要输入非负整数"@,
        crate::config::setting_of(s0.config, key) matches SettingView::Number(n)
            ==> rules_panel::row_views(u1.rules@) == showing(
            rules_panel::row_views(u0.rules@),
            key,
            text::decimal(n as nat),
        ),
{
    let ub = commands::beside_rows(u0, u1);
    assert(ub.error_text == u1.error_text);
    assert(ub.ready == u1.ready);
}

/// A number that the rule takes is set; one that it does not take changes no other rule and
/// is told to be out of range.
pub proof fn law_numbers_are_set(
    u0: Window,
    s0: State,
    u1: Window,
    s1: State,
    key: Seq<char>,
    typed: Seq<char>,
    n: u64,
    is_dir: bool,
)
    requires
        is_numeric(s0, key),
        text_entered(u0, s0, u1, s1, key, typed, Some(n as nat), is_dir),
        key != "fix_extension"@,
    ensures
        match crate::config::with_setting(s0.config, key, Setting::Number(n)) {
            Ok(d) => s1.config == (crate::config::Config { detect_type: d.fix_extension, ..d }),
            Err(_) => s1.config == s0.config && u1.error_text@ == "该设置超出允许的范围"@,
        },
        s1.task == s0.task,
{
    commands::law_one_rule_is_set(s0.config, key, Setting::Number(n));
    assert(rules_panel::keys_of(key) == seq![key]);
    let set = commands::keys_set(s0.config, rules_panel::keys_of(key), Setting::Number(n));
    let ub = commands::beside_rows(u0, u1);
    assert(ub.error_text == u1.error_text);
    if set.1 is None {
        commands::change_keeps(u0, s0, ub, s1, key, Setting::Number(n), is_dir, true);
    }
}

/// A tool that is picked is shown from its first group of rules and its first panel on; an
/// unknown one changes nothing but the search, which is cleared.
pub proof fn law_picked_tools_are_shown(
    u0: Window,
    s0: State,
    u1: Window,
    s1: State,
    load: Option<PlanLoad>,
    id: Seq<char>,
    is_dir: bool,
)
    requires
        tool_selected(u0, s0, u1, s1, load, id, is_dir),
    ensures
        u1.nav.tool_search@.len() == 0,
        u1.nav.shown_tools@.len() == s0.tools@.len(),
        rules_panel::tool_named(id) is None ==> s1 == s0 && load is None && u1.nav.screen
            == u0.nav.screen && u1.rules == u0.rules,
        rules_panel::tool_named(id) matches Some(tool) ==> s1.tool == tool && u1.nav.section == 0
            && u1.nav.panel == 0 && u1.nav.active_tool_id@ == id && u1.nav.screen == (if tool
            == Tool::Extract {
            2int
        } else {
            0int
        }) && s1.section@ == rules_panel::sections_of(tool)[0],
{
}

/// Pages are turned one by one, and not before the first.
pub proof fn law_pages_are_turned(page: usize, direction: i32)
    ensures
        direction >= 0 ==> page_beside(page, direction) == page + 1,
        direction < 0 && page > 0 ==> page_beside(page, direction) == page - 1,
        direction < 0 ==> page_beside(0, direction) == 0,
{
}

/// The row of an action is the first with its number.
pub proof fn law_which_row_is_meant(rows: Seq<PlanRow>, id: i64, i: int)
    requires
        0 <= i <= rows.len(),
    ensures
        match plan_row_at(rows, id, i) {
            Some(k) => i <= k < rows.len() && rows[k].id == id && forall|j: int|
                i <= j < k ==> (#[trigger] rows[j]).id != id,
            None => forall|j: int| i <= j < rows.len() ==> (#[trigger] rows[j]).id != id,
        },
    decreases rows.len() - i,
{
    if i < rows.len() && rows[i].id != id {
        law_which_row_is_meant(rows, id, i + 1);
    }
}

/// A selection changes the row with its number alone: what it shows of the selection and of
/// the state.
pub proof fn law_one_row_is_toggled(
    before: Seq<PlanRow>,
    after: Seq<PlanRow>,
    id: i64,
    selected: bool,
    i: int,
)
    requires
        row_toggled(before, after, id, selected),
        0 <= i < before.len(),
    ensures
        after.len() == before.len(),
        before[i].id != id ==> after[i] == before[i],
        before[i].id == id && (forall|j: int| 0 <= j < i ==> (#[trigger] before[j]).id != id)
            ==> after[i].selected == selected && after[i].id == id && after[i].source
            == before[i].source && after[i].target == before[i].target && after[i].state@
            == window::row_state(selected, before[i].state@),
{
    law_which_row_is_meant(before, id, 0);
}

/// Without a kind all actions are shown.
pub proof fn law_what_a_filter_shows(kind: Seq<char>)
    ensures
        filter_of(Seq::empty()) is None,
        kind.len() > 0 ==> filter_of(kind) == Some(kind),
{
}

/// A text for a rule that takes no number is set where the rule takes it; one that is refused
/// changes neither the rule nor the rows.
pub proof fn law_texts_are_set(
    u0: Window,
    s0: State,
    u1: Window,
    s1: State,
    key: Seq<char>,
    value: Setting,
    typed: Seq<char>,
    is_dir: bool,
)
    requires
        word_entered(u0, s0, u1, s1, key, value, typed, is_dir),
        key != "fix_extension"@,
    ensures
        match crate::config::with_setting(s0.config, key, value) {
            Ok(d) => s1.config == (crate::config::Config { detect_type: d.fix_extension, ..d })
                && rules_panel::row_views(u1.rules@).len() == window::open_rows(s1).len(),
            Err(_) => s1.config == s0.config && u1.rules == u0.rules && u1.ready == u0.ready,
        },
{
    commands::law_one_rule_is_set(s0.config, key, value);
    assert(rules_panel::keys_of(key) == seq![key]);
    let set = commands::keys_set(s0.config, rules_panel::keys_of(key), value);
    if set.1 is None {
        commands::change_keeps(
            u0,
            s0,
            commands::beside_rows(u0, u1),
            s1,
            key,
            value,
            is_dir,
            true,
        );
        rules_panel::law_rows_follow(
            showing(rules_panel::row_views(u0.rules@), key, typed),
            window::open_rows(s1),
        );
    } else {
        commands::change_keeps(u0, s0, u1, s1, key, value, is_dir, false);
    }
}

} // verus!
