//! What the window does when the user changes a rule, the directory or the tool, or
//! starts, pauses and ends a task.

use super::rules_panel;
use super::rules_panel::{RowView, RuleRow, RuleSpec, Tool};
use super::window;
use super::window::{PlanLoad, PlanQuery, State, Window};
use crate::config;
use crate::config::{Config, Setting, SettingError, SettingView};
use crate::text;
use vstd::prelude::*;

verus! {

/// A message is shown, and nothing else changes.
pub open spec fn refused(u0: Window, u1: Window, message: Seq<char>) -> bool {
    u1 == (Window { error_text: u1.error_text, ..u0 }) && u1.error_text@ == message
}

/// How the range was narrowed, in words.
pub open spec fn scope_parts(c: Config) -> Seq<Seq<char>> {
    let a = if !c.recursive {
        seq!["不含所选目录的子目录"@]
    } else {
        Seq::empty()
    };
    let b = if !c.include_hidden {
        a.push("不含隐藏属性资料"@)
    } else {
        a
    };
    let d = if !c.include_system {
        b.push("不含系统属性资料"@)
    } else {
        b
    };
    if text::trimmed(c.exclusions@).len() > 0 {
        d.push("已应用排除路径规则"@)
    } else {
        d
    }
}

/// The beginning of the notice for a range that was narrowed.
pub const SCOPE_NOTICE_PREFIX: &'static str = "已缩小处理范围";

/// The notice for a range that was narrowed.
pub open spec fn scope_text(c: Config) -> Seq<char> {
    SCOPE_NOTICE_PREFIX@ + "："@ + text::join_with(scope_parts(c), "、"@)
        + "；Git 目录仍始终整树排除。"@
}

fn add_part(parts: &mut Vec<String>, s: &str)
    ensures
        text::texts(final(parts)@) == text::texts(old(parts)@).push(s@),
{
    let part = s.to_owned();
    proof {
        text::texts_push(parts@, part);
    }
    parts.push(part);
}

/// The notice for a range that the user narrowed, if it is.
pub fn scope_notice(config: &Config) -> (r: Option<String>)
    ensures
        match r {
            Some(s) => scope_parts(*config).len() > 0 && s@ == scope_text(*config),
            None => scope_parts(*config).len() == 0,
        },
{
    let mut parts: Vec<String> = Vec::new();
    assert(text::texts(parts@) =~= Seq::<Seq<char>>::empty());
    if !config.recursive {
        add_part(&mut parts, "不含所选目录的子目录");
        assert(text::texts(parts@) =~= seq!["不含所选目录的子目录"@]);
    }
    if !config.include_hidden {
        add_part(&mut parts, "不含隐藏属性资料");
    }
    if !config.include_system {
        add_part(&mut parts, "不含系统属性资料");
    }
    if !text::trim(config.exclusions.as_str()).as_str().is_empty() {
        add_part(&mut parts, "已应用排除路径规则");
    }
    assert(text::texts(parts@) =~= scope_parts(*config));
    if parts.len() == 0 {
        return None;
    }
    let mut s = SCOPE_NOTICE_PREFIX.to_owned();
    s.append("：");
    s.append(text::join(&parts, "、").as_str());
    s.append("；Git 目录仍始终整树排除。");
    Some(s)
}

/// The notice of a window after the rules changed: a narrowed range is told, and only
/// such a notice is taken back.
pub open spec fn notice_follows(before: Seq<char>, after: Seq<char>, c: Config) -> bool {
    if scope_parts(c).len() > 0 {
        after == scope_text(c)
    } else if text::has_prefix(before, SCOPE_NOTICE_PREFIX@) {
        after == Seq::<char>::empty()
    } else {
        after == before
    }
}

pub(crate) fn nothing() -> (r: String)
    ensures
        r@ == Seq::<char>::empty(),
{
    let s = String::new();
    assert(s@ =~= Seq::<char>::empty());
    s
}

/// Tells a narrowed range, or takes that back.
pub fn refresh_scope_notice(ui: &mut Window, config: &Config)
    ensures
        *final(ui) == (Window { notice_text: final(ui).notice_text, ..*old(ui) }),
        notice_follows(old(ui).notice_text@, final(ui).notice_text@, *config),
{
    match scope_notice(config) {
        Some(s) => {
            ui.notice_text = s;
        },
        None => {
            if text::starts_with(ui.notice_text.as_str(), SCOPE_NOTICE_PREFIX) {
                ui.notice_text = nothing();
            }
        },
    }
}

/// The status line once a plan, if there was one, is out of date.
pub open spec fn invalid_text(tool: Tool, has_task: bool, entered: bool, is_dir: bool) -> Seq<
    char,
> {
    match tool {
        Tool::Extract => if !entered {
            "请选择需要解压的目录"@
        } else if !is_dir {
            "目录不存在或无法访问，请检查路径"@
        } else {
            "目录已就绪；点「开始解压」后会先弹一次确认"@
        },
        Tool::Organizer => if has_task {
            "规则或目录已改变，请重新分析后再执行"@
        } else if !entered {
            "请选择需要整理的目录"@
        } else if !is_dir {
            "目录不存在或无法访问，请检查路径"@
        } else {
            "目录已就绪；「分析」只读不改文件，随时可以开始"@
        },
    }
}

/// A plan has been declared out of date. While a task runs, nothing changes: the status
/// line is the task's.
pub open spec fn invalidated(u0: Window, u1: Window, tool: Tool, is_dir: bool) -> bool {
    if u0.busy {
        u1 == u0
    } else {
        &&& u1 == (Window { ready: false, status: u1.status, ..u0 })
        &&& u1.status@ == invalid_text(tool, u0.has_task, u0.directory@.len() > 0, is_dir)
    }
}

/// Declares the plan out of date. The caller says whether the directory exists.
pub fn invalidate(ui: &mut Window, tool: Tool, is_dir: bool)
    ensures
        invalidated(*old(ui), *final(ui), tool, is_dir),
{
    if ui.busy {
        return;
    }
    ui.ready = false;
    let entered: bool = !ui.directory.as_str().is_empty();
    let line: &'static str = match tool {
        Tool::Extract => if !entered {
            "请选择需要解压的目录"
        } else if !is_dir {
            "目录不存在或无法访问，请检查路径"
        } else {
            "目录已就绪；点「开始解压」后会先弹一次确认"
        },
        Tool::Organizer => if ui.has_task {
            "规则或目录已改变，请重新分析后再执行"
        } else if !entered {
            "请选择需要整理的目录"
        } else if !is_dir {
            "目录不存在或无法访问，请检查路径"
        } else {
            "目录已就绪；「分析」只读不改文件，随时可以开始"
        },
    };
    ui.status = line.to_owned();
}

/// The window has been brought in line with the directory: a plan that is shown is asked
/// for again, anything else is declared out of date.
pub open spec fn directory_synced(
    u0: Window,
    s0: State,
    u1: Window,
    s1: State,
    load: Option<PlanLoad>,
    is_dir: bool,
) -> bool {
    if u0.busy {
        u1 == u0 && s1 == s0 && load is None
    } else if u0.has_task && s0.tool == Tool::Organizer && s0.task is Some {
        &&& u1 == (Window { ready: false, ..u0 })
        &&& s1 == window::counted((State { status_pending: true, ..s0 }), false)
        &&& load is Some
        &&& window::is_load(load->0, s0, s0.task->0@, u0.directory@)
        &&& load->0.query.page is None
        &&& !load->0.query.summary
    } else {
        invalidated(u0, u1, s0.tool, is_dir) && s1 == s0 && load is None
    }
}

/// Brings the window in line with the directory after that, or the tool, has changed: the
/// plan may not be executed before a snapshot says that it still may.
pub fn sync_ready_after_directory(ui: &mut Window, state: &mut State, is_dir: bool) -> (r: Option<
    PlanLoad,
>)
    ensures
        directory_synced(*old(ui), *old(state), *final(ui), *final(state), r, is_dir),
{
    if ui.busy {
        return None;
    }
    if ui.has_task && state.tool == Tool::Organizer {
        let task: Option<String> = match &state.task {
            Some(t) => Some(t.clone()),
            None => None,
        };
        if let Some(t) = task {
            ui.ready = false;
            state.status_pending = true;
            let load = window::load_plan_state(
                state,
                t.as_str(),
                ui.directory.as_str(),
                PlanQuery::readiness(),
            );
            return Some(load);
        }
    }
    invalidate(ui, state.tool, is_dir);
    None
}

/// While a task runs, neither the directory nor the tool changes the status line or the
/// right to execute.
pub proof fn law_running_tasks_keep_the_window(
    u0: Window,
    s0: State,
    u1: Window,
    s1: State,
    load: Option<PlanLoad>,
    is_dir: bool,
)
    requires
        u0.busy,
        directory_synced(u0, s0, u1, s1, load, is_dir),
    ensures
        u1 == u0,
        s1 == s0,
        load is None,
{
}

/// After a change of the directory the plan may not be executed until a snapshot of the
/// task allows it.
pub proof fn law_a_new_directory_disarms(
    u0: Window,
    s0: State,
    u1: Window,
    s1: State,
    load: Option<PlanLoad>,
    is_dir: bool,
)
    requires
        !u0.busy,
        directory_synced(u0, s0, u1, s1, load, is_dir),
    ensures
        !u1.ready,
        load is Some ==> s1.status_pending && load->0.state_generation == s1.generations.state,
{
}

/// What is wrong with the rules, in words.
#[verifier::opaque]
pub open spec fn config_problem(c: Config) -> Option<Seq<char>> {
    match config::range_problem(c) {
        Some(e) => Some(config::config_error_detail(e)),
        None => if config::exclusions_ok(c.exclusions@) {
            None
        } else {
            Some("排除规则无效"@)
        },
    }
}

pub(crate) fn find_problem(c: &Config) -> (r: Option<&'static str>)
    ensures
        match r {
            Some(s) => config_problem(*c) == Some(s@),
            None => config_problem(*c) is None,
        },
{
    proof {
        reveal(config_problem);
    }
    match c.validate() {
        Ok(()) => None,
        Err(e) => Some(e.detail()),
    }
}

/// The rules after one value was given to several of them, and the error at which it
/// stopped, if any.
#[verifier::opaque]
pub open spec fn keys_set(c: Config, keys: Seq<Seq<char>>, value: Setting) -> (
    Config,
    Option<SettingError>,
)
    decreases keys.len(),
{
    if keys.len() == 0 {
        (c, None)
    } else {
        match config::with_setting(c, keys[0], value) {
            Err(e) => (c, Some(e)),
            Ok(d) => keys_set(
                Config { detect_type: d.fix_extension, ..d },
                keys.skip(1),
                value,
            ),
        }
    }
}

fn set_keys(c: &mut Config, keys: &Vec<String>, value: &Setting) -> (r: Result<(), SettingError>)
    ensures
        match r {
            Ok(_) => keys_set(*old(c), text::texts(keys@), *value) == (
                *final(c),
                None::<SettingError>,
            ),
            Err(e) => keys_set(*old(c), text::texts(keys@), *value) == (*final(c), Some(e)),
        },
{
    let ghost all = text::texts(keys@);
    let ghost whole = keys_set(*c, all, *value);
    let mut i: usize = 0;
    proof {
        assert(all.skip(0) =~= all);
        reveal_with_fuel(keys_set, 1);
    }
    while i < keys.len()
        invariant
            i <= keys@.len(),
            all == text::texts(keys@),
            whole == keys_set(*old(c), all, *value),
            whole == keys_set(*c, all.skip(i as int), *value),
        decreases keys.len() - i,
    {
        proof {
            reveal_with_fuel(keys_set, 1);
            assert(all.skip(i as int)[0] == keys@[i as int]@);
            assert(all.skip(i as int).skip(1) =~= all.skip(i + 1));
        }
        match c.set_json(keys[i].as_str(), value) {
            Ok(()) => {},
            Err(e) => {
                return Err(e);
            },
        }
        i = i + 1;
    }
    proof {
        reveal_with_fuel(keys_set, 1);
    }
    Ok(())
}

/// A rule has been changed, or has been refused with a message. A change is told where it
/// leaves the rules invalid, and the plan is out of date, unless it was the theme.
#[verifier::opaque]
pub open spec fn rule_changed(
    u0: Window,
    s0: State,
    u1: Window,
    s1: State,
    key: Seq<char>,
    value: Setting,
    is_dir: bool,
    ok: bool,
) -> bool {
    let (c, error) = keys_set(s0.config, rules_panel::keys_of(key), value);
    &&& s1 == (State { config: c, ..s0 })
    &&& ok == (error is None)
    &&& match error {
        Some(e) => refused(u0, u1, config::setting_error_text(e, key, value@)),
        None => {
            &&& u1.error_text@ == (match config_problem(c) {
                Some(p) => p,
                None => Seq::<char>::empty(),
            })
            &&& if key == "theme"@ {
                u1 == (Window {
                    error_text: u1.error_text,
                    nav: window::with_theme(u0.nav, s1),
                    ..u0
                })
            } else {
                let told = Window {
                    error_text: u1.error_text,
                    notice_text: u1.notice_text,
                    ..u0
                };
                notice_follows(u0.notice_text@, u1.notice_text@, c) && invalidated(
                    told,
                    u1,
                    s0.tool,
                    is_dir,
                )
            }
        },
    }
}

/// Gives a rule a value.
pub fn changed(ui: &mut Window, state: &mut State, key: &str, value: &Setting, is_dir: bool) -> (r:
    bool)
    ensures
        rule_changed(*old(ui), *old(state), *final(ui), *final(state), key@, *value, is_dir, r),
{
    proof {
        reveal(rule_changed);
    }
    let keys = rules_panel::group_keys(key);
    match set_keys(&mut state.config, &keys, value) {
        Ok(()) => {},
        Err(e) => {
            ui.error_text = e.message(key, value);
            return false;
        },
    }
    ui.error_text = match find_problem(&state.config) {
        Some(p) => p.to_owned(),
        None => nothing(),
    };
    if text::same(key, "theme") {
        ui.nav.theme = window::theme_of(state.config.theme.as_str());
    } else {
        refresh_scope_notice(ui, &state.config);
        invalidate(ui, state.tool, is_dir);
    }
    true
}

/// What a change of a rule comes to, apart from its messages: the rules as they were set,
/// and neither the rows nor the table of rules.
pub(crate) proof fn change_keeps(
    u0: Window,
    s0: State,
    u1: Window,
    s1: State,
    key: Seq<char>,
    value: Setting,
    is_dir: bool,
    ok: bool,
)
    requires
        rule_changed(u0, s0, u1, s1, key, value, is_dir, ok),
    ensures
        u1.rules == u0.rules,
        s1 == (State { config: keys_set(s0.config, rules_panel::keys_of(key), value).0, ..s0 }),
        ok == (keys_set(s0.config, rules_panel::keys_of(key), value).1 is None),
        !ok ==> u1 == (Window { error_text: u1.error_text, ..u0 }),
{
    reveal(rule_changed);
}

/// The first row with this key, from number `i` on.
pub open spec fn row_at(rows: Seq<RowView>, key: Seq<char>, i: int) -> Option<int>
    decreases rows.len() - i,
{
    if i < 0 || i >= rows.len() {
        None
    } else if rows[i].key == key {
        Some(i)
    } else {
        row_at(rows, key, i + 1)
    }
}

fn find_row(rows: &Vec<RuleRow>, key: &str) -> (r: Option<usize>)
    ensures
        match r {
            Some(i) => i < rows@.len() && row_at(rules_panel::row_views(rows@), key@, 0) == Some(
                i as int,
            ),
            None => row_at(rules_panel::row_views(rows@), key@, 0) is None,
        },
{
    let ghost all = rules_panel::row_views(rows@);
    let mut i: usize = 0;
    while i < rows.len()
        invariant
            i <= rows@.len(),
            all == rules_panel::row_views(rows@),
            row_at(all, key@, 0) == row_at(all, key@, i as int),
        decreases rows.len() - i,
    {
        assert(all[i as int] == rows@[i as int]@);
        if text::same(rows[i].key.as_str(), key) {
            return Some(i);
        }
        i = i + 1;
    }
    None
}

/// The rows with one of them changed.
pub open spec fn with_row(rows: Seq<RowView>, key: Seq<char>, change: spec_fn(RowView) -> RowView) ->
    Seq<RowView> {
    match row_at(rows, key, 0) {
        Some(i) => rows.update(i, change(rows[i])),
        None => rows,
    }
}

/// Shows the switch of a rule.
fn patch_checked(rows: &mut Vec<RuleRow>, key: &str, value: bool)
    ensures
        rules_panel::row_views(final(rows)@) == with_row(
            rules_panel::row_views(old(rows)@),
            key@,
            |v: RowView| RowView { checked: value, ..v },
        ),
{
    let ghost before = rows@;
    if let Some(i) = find_row(rows, key) {
        let mut row = rows.remove(i);
        let ghost v = row@;
        row.checked = value;
        rows.insert(i, row);
        assert(rules_panel::row_views(rows@) =~= rules_panel::row_views(before).update(
            i as int,
            RowView { checked: value, ..v },
        ));
    }
}

/// Shows the choice of a rule and its hint.
fn patch_choice(rows: &mut Vec<RuleRow>, key: &str, index: i32, hint: String)
    ensures
        rules_panel::row_views(final(rows)@) == with_row(
            rules_panel::row_views(old(rows)@),
            key@,
            |v: RowView| RowView { index, hint: hint@, ..v },
        ),
{
    let ghost before = rows@;
    if let Some(i) = find_row(rows, key) {
        let mut row = rows.remove(i);
        let ghost v = row@;
        let ghost told = hint@;
        row.index = index;
        row.hint = hint;
        rows.insert(i, row);
        assert(rules_panel::row_views(rows@) =~= rules_panel::row_views(before).update(
            i as int,
            RowView { index, hint: told, ..v },
        ));
    }
}

/// Shows the value of a rule.
pub(crate) fn patch_value(rows: &mut Vec<RuleRow>, key: &str, value: String)
    ensures
        rules_panel::row_views(final(rows)@) == with_row(
            rules_panel::row_views(old(rows)@),
            key@,
            |v: RowView| RowView { value: value@, ..v },
        ),
{
    let ghost before = rows@;
    if let Some(i) = find_row(rows, key) {
        let mut row = rows.remove(i);
        let ghost v = row@;
        let ghost shown = value@;
        row.value = value;
        rows.insert(i, row);
        assert(rules_panel::row_views(rows@) =~= rules_panel::row_views(before).update(
            i as int,
            RowView { value: shown, ..v },
        ));
    }
}

/// A window but for its rows.
pub open spec fn beside_rows(u0: Window, u1: Window) -> Window {
    Window { rules: u0.rules, ..u1 }
}

/// The user has set a switch: the row shows it, and the rows that depend on it come and
/// go. A refused value leaves the rows alone.
pub open spec fn switch_set(
    u0: Window,
    s0: State,
    u1: Window,
    s1: State,
    key: Seq<char>,
    value: bool,
    is_dir: bool,
) -> bool {
    let before = rules_panel::row_views(u0.rules@);
    let ok = keys_set(s0.config, rules_panel::keys_of(key), Setting::Bool(value)).1 is None;
    &&& rule_changed(
        u0,
        s0,
        beside_rows(u0, u1),
        s1,
        key,
        Setting::Bool(value),
        is_dir,
        ok,
    )
    &&& if ok {
        rules_panel::row_views(u1.rules@) == rules_panel::merged(
            with_row(before, key, |v: RowView| RowView { checked: value, ..v }),
            window::open_rows(s1),
        )
    } else {
        u1.rules == u0.rules
    }
}

/// The user sets a switch.
pub fn rule_bool(ui: &mut Window, state: &mut State, key: &str, value: bool, is_dir: bool)
    requires
        rules_panel::all_well_formed(old(state).specs@),
    ensures
        switch_set(*old(ui), *old(state), *final(ui), *final(state), key@, value, is_dir),
{
    let ghost u0 = *ui;
    let ghost s0 = *state;
    let setting = Setting::Bool(value);
    let ok: bool = changed(ui, state, key, &setting, is_dir);
    let ghost mid = *ui;
    proof {
        change_keeps(u0, s0, mid, *state, key@, setting, is_dir, ok);
    }
    if ok {
        patch_checked(&mut ui.rules, key, value);
        let wanted = window::rule_rows(state);
        rules_panel::sync_rules(&mut ui.rules, &wanted);
        assert(beside_rows(u0, *ui) == mid);
    } else {
        assert(beside_rows(u0, *ui) == *ui);
    }
}

/// The first rule of a table with this key, from number `i` on.
pub open spec fn spec_at(specs: Seq<RuleSpec>, key: Seq<char>, i: int) -> Option<int>
    decreases specs.len() - i,
{
    if i < 0 || i >= specs.len() {
        None
    } else if specs[i].key@ == key {
        Some(i)
    } else {
        spec_at(specs, key, i + 1)
    }
}

pub(crate) fn find_spec(specs: &Vec<RuleSpec>, key: &str) -> (r: Option<usize>)
    ensures
        match r {
            Some(i) => i < specs@.len() && spec_at(specs@, key@, 0) == Some(i as int),
            None => spec_at(specs@, key@, 0) is None,
        },
{
    let mut i: usize = 0;
    while i < specs.len()
        invariant
            i <= specs@.len(),
            spec_at(specs@, key@, 0) == spec_at(specs@, key@, i as int),
        decreases specs.len() - i,
    {
        if text::same(specs[i].key.as_str(), key) {
            return Some(i);
        }
        i = i + 1;
    }
    None
}

/// The number that stands for a position in a list; a negative one stands for the first.
pub open spec fn position(index: i32) -> int {
    if index < 0 {
        0
    } else {
        index as int
    }
}

pub(crate) fn place(index: i32) -> (r: usize)
    ensures
        r == position(index),
{
    if index < 0 {
        0
    } else {
        index as usize
    }
}

/// The rule of a row and the name of a choice of it, where there is one.
pub open spec fn picked(specs: Seq<RuleSpec>, key: Seq<char>, index: i32) -> Option<
    (RuleSpec, String),
> {
    match spec_at(specs, key, 0) {
        Some(k) => if position(index) < specs[k].choices@.len() {
            Some((specs[k], specs[k].choices@[position(index)]@[0]))
        } else {
            None
        },
        None => None,
    }
}

/// The user has made a choice: the row shows it with its hint, and the rows that depend
/// on it come and go.
pub open spec fn choice_made(
    u0: Window,
    s0: State,
    u1: Window,
    s1: State,
    key: Seq<char>,
    index: i32,
    is_dir: bool,
) -> bool {
    match picked(s0.specs@, key, index) {
        None => u1 == u0 && s1 == s0,
        Some((spec, name)) => {
            let value = Setting::Text(name);
            let before = rules_panel::row_views(u0.rules@);
            let ok = keys_set(s0.config, rules_panel::keys_of(key), value).1 is None;
            let hint = rules_panel::hint_of(spec, SettingView::Text(name@));
            &&& rule_changed(u0, s0, beside_rows(u0, u1), s1, key, value, is_dir, ok)
            &&& if ok {
                rules_panel::row_views(u1.rules@) == rules_panel::merged(
                    with_row(before, key, |v: RowView| RowView { index, hint, ..v }),
                    window::open_rows(s1),
                )
            } else {
                u1.rules == u0.rules
            }
        },
    }
}

/// The user makes a choice.
pub fn rule_choice(ui: &mut Window, state: &mut State, key: &str, index: i32, is_dir: bool)
    requires
        rules_panel::all_well_formed(old(state).specs@),
    ensures
        choice_made(*old(ui), *old(state), *final(ui), *final(state), key@, index, is_dir),
{
    let ghost u0 = *ui;
    let ghost s0 = *state;
    let at: usize = place(index);
    let k: usize = match find_spec(&state.specs, key) {
        Some(k) => k,
        None => return ,
    };
    if at >= state.specs[k].choices.len() {
        return ;
    }
    assert(rules_panel::well_formed(state.specs@[k as int]));
    assert(state.specs@[k as int].choices@[at as int]@.len() >= 2);
    let name = state.specs[k].choices[at][0].clone();
    let setting = Setting::Text(name);
    let hint = rules_panel::hint_for(&state.specs[k], &setting);
    let ok: bool = changed(ui, state, key, &setting, is_dir);
    let ghost mid = *ui;
    proof {
        change_keeps(u0, s0, mid, *state, key@, setting, is_dir, ok);
    }
    if ok {
        patch_choice(&mut ui.rules, key, index, hint);
        let wanted = window::rule_rows(state);
        rules_panel::sync_rules(&mut ui.rules, &wanted);
        assert(beside_rows(u0, *ui) == mid);
    } else {
        assert(beside_rows(u0, *ui) == *ui);
    }
}

/// The name of a theme by its number.
pub open spec fn theme_name(choice: i32) -> Seq<char> {
    if choice == 1 {
        "light"@
    } else if choice == 2 {
        "dark"@
    } else {
        "system"@
    }
}

/// The user picks a theme; the plan stays as ready as it was.
pub fn select_theme(ui: &mut Window, state: &mut State, choice: i32)
    ensures
        final(state).config.theme@ == theme_name(choice),
        final(ui).nav.theme == window::theme_number(theme_name(choice)),
        final(ui).ready == old(ui).ready,
        final(ui).status == old(ui).status,
        exists|value: Setting|
            value@ == SettingView::Text(theme_name(choice)) && #[trigger] rule_changed(
                *old(ui),
                *old(state),
                *final(ui),
                *final(state),
                "theme"@,
                value,
                false,
                true,
            ),
{
    let name: &'static str = if choice == 1 {
        "light"
    } else if choice == 2 {
        "dark"
    } else {
        "system"
    };
    let setting = Setting::Text(name.to_owned());
    proof {
        theme_is_set(state.config, setting);
        reveal(rule_changed);
    }
    let _ = changed(ui, state, "theme", &setting, false);
    assert(rule_changed(
        *old(ui),
        *old(state),
        *ui,
        *state,
        "theme"@,
        setting,
        false,
        true,
    ));
}

proof fn theme_is_set(c: Config, value: Setting)
    requires
        value is Text,
    ensures
        keys_set(c, rules_panel::keys_of("theme"@), value).1 is None,
        keys_set(c, rules_panel::keys_of("theme"@), value).0.theme == value->Text_0,
{
    reveal_strlit("theme");
    reveal_strlit("fix_extension");
    assert("theme"@.len() != "fix_extension"@.len());
    theme_rule();
    let d = Config { theme: value->Text_0, ..c };
    assert(config::with_setting(c, "theme"@, value) == Ok::<Config, SettingError>(d));
    let keys = rules_panel::keys_of("theme"@);
    assert(keys.skip(1) =~= Seq::<Seq<char>>::empty());
    reveal_with_fuel(keys_set, 2);
}

proof fn theme_rule()
    ensures
        config::rule_named("theme"@) == Some(config::Rule::Theme),
{
    reveal_strlit("theme");
    reveal_strlit("recursive");
    reveal_strlit("include_hidden");
    reveal_strlit("include_system");
    reveal_strlit("exclusions");
    reveal_strlit("max_depth");
    reveal_strlit("max_entries");
    reveal_strlit("max_ratio");
    reveal_strlit("reserve_bytes");
    reveal_strlit("dedup_same_name");
    reveal_strlit("dedup_copy_names");
    reveal_strlit("dedup_other_names");
    reveal_strlit("keep_duplicate");
    reveal_strlit("large_files");
    reveal_strlit("large_threshold_bytes");
    reveal_strlit("clean_junk");
    reveal_strlit("junk_delete");
    reveal_strlit("clean_temp");
    reveal_strlit("temp_delete");
    reveal_strlit("clean_zero");
    reveal_strlit("zero_delete");
    reveal_strlit("clean_copy_name");
    reveal_strlit("normalize_names");
    reveal_strlit("detect_type");
    reveal_strlit("fix_extension");
    reveal_strlit("global_delete");
    reveal_strlit("hash_workers");
    let t = "theme"@;
    assert(t.len() == 5);
}

/// The user shows or hides the advanced rules; no rule changes.
pub fn toggle_advanced(ui: &mut Window, state: &mut State, show: bool)
    requires
        rules_panel::all_well_formed(old(state).specs@),
    ensures
        *final(state) == (State { show_advanced: show, ..*old(state) }),
        *final(ui) == (Window {
            nav: window::with_theme((window::Nav { show_advanced: show, ..old(ui).nav }), *old(state)),
            rules: final(ui).rules,
            ..*old(ui)
        }),
        rules_panel::row_views(final(ui).rules@) == window::open_rows(*final(state)),
{
    state.show_advanced = show;
    ui.nav.show_advanced = show;
    window::refresh(ui, state);
}

/// A narrowed range is told exactly where something is left out, one phrase for each thing.
pub proof fn law_a_narrowed_range_is_told(c: Config)
    ensures
        scope_parts(c).len() == 0 <==> c.recursive && c.include_hidden && c.include_system
            && text::trimmed(c.exclusions@).len() == 0,
        !c.recursive ==> scope_parts(c).contains("不含所选目录的子目录"@),
        !c.include_hidden ==> scope_parts(c).contains("不含隐藏属性资料"@),
        !c.include_system ==> scope_parts(c).contains("不含系统属性资料"@),
        text::trimmed(c.exclusions@).len() > 0 ==> scope_parts(c).contains(
            "已应用排除路径规则"@,
        ),
        scope_parts(c).len() == (if c.recursive {
            0int
        } else {
            1
        }) + (if c.include_hidden {
            0int
        } else {
            1
        }) + (if c.include_system {
            0int
        } else {
            1
        }) + (if text::trimmed(c.exclusions@).len() == 0 {
            0int
        } else {
            1
        }),
{
    let r = scope_parts(c);
    let a: Seq<Seq<char>> = if !c.recursive {
        seq!["不含所选目录的子目录"@]
    } else {
        Seq::empty()
    };
    let b = if !c.include_hidden {
        a.push("不含隐藏属性资料"@)
    } else {
        a
    };
    let d = if !c.include_system {
        b.push("不含系统属性资料"@)
    } else {
        b
    };
    if !c.recursive {
        assert(r[0] == "不含所选目录的子目录"@);
    }
    if !c.include_hidden {
        assert(r[a.len() as int] == "不含隐藏属性资料"@);
    }
    if !c.include_system {
        assert(r[b.len() as int] == "不含系统属性资料"@);
    }
    if text::trimmed(c.exclusions@).len() > 0 {
        assert(r[d.len() as int] == "已应用排除路径规则"@);
    }
}

/// Only a notice about the range is taken back; any other stays while nothing is left out.
pub proof fn law_other_notices_stay(before: Seq<char>, after: Seq<char>, c: Config)
    requires
        notice_follows(before, after, c),
    ensures
        scope_parts(c).len() > 0 ==> after == scope_text(c),
        scope_parts(c).len() == 0 && text::has_prefix(before, "已缩小处理范围"@) ==> after.len()
            == 0,
        scope_parts(c).len() == 0 && !text::has_prefix(before, "已缩小处理范围"@) ==> after
            == before,
{
}

/// While a task runs the rules change nothing in the window; otherwise its plan may no
/// longer be executed, and the line tells why or what is missing.
pub proof fn law_changed_rules_disarm(u0: Window, u1: Window, tool: Tool, is_dir: bool)
    requires
        invalidated(u0, u1, tool, is_dir),
    ensures
        u0.busy ==> u1 == u0,
        !u0.busy ==> !u1.ready,
        !u0.busy && tool == Tool::Organizer && u0.has_task ==> u1.status@
            == "规则或目录已改变，请重新分析后再执行"@,
        !u0.busy && !(tool == Tool::Organizer && u0.has_task) && u0.directory@.len() > 0 && !is_dir
            ==> u1.status@ == "目录不存在或无法访问，请检查路径"@,
        !u0.busy && tool == Tool::Extract && u0.directory@.len() == 0 ==> u1.status@
            == "请选择需要解压的目录"@,
        !u0.busy && tool == Tool::Organizer && !u0.has_task && u0.directory@.len() == 0
            ==> u1.status@ == "请选择需要整理的目录"@,
        !u0.busy && tool == Tool::Extract && u0.directory@.len() > 0 && is_dir ==> u1.status@
            == "目录已就绪；点「开始解压」后会先弹一次确认"@,
        !u0.busy && tool == Tool::Organizer && !u0.has_task && u0.directory@.len() > 0 && is_dir
            ==> u1.status@ == "目录已就绪；「分析」只读不改文件，随时可以开始"@,
        u1.directory == u0.directory && u1.has_task == u0.has_task && u1.busy == u0.busy,
{
}

/// Rules are wrong exactly where one is out of its range or the exclusions are not accepted.
pub proof fn law_wrong_rules_are_told(c: Config)
    ensures
        config_problem(c) is None <==> config::range_problem(c) is None && config::exclusions_ok(
            c.exclusions@,
        ),
        config::range_problem(c) matches Some(e) ==> config_problem(c) == Some(
            config::config_error_detail(e),
        ),
{
    reveal(config_problem);
}

/// A single rule that is refused stays as it was; one that is taken has its value, and the
/// detection of types follows the correction of extensions.
pub proof fn law_one_rule_is_set(c: Config, key: Seq<char>, value: Setting)
    ensures
        match config::with_setting(c, key, value) {
            Ok(d) => keys_set(c, seq![key], value) == (
                Config { detect_type: d.fix_extension, ..d },
                None::<SettingError>,
            ),
            Err(e) => keys_set(c, seq![key], value) == (c, Some(e)),
        },
        rules_panel::keys_of("fix_extension"@) == seq!["fix_extension"@, "detect_type"@],
        key != "fix_extension"@ ==> rules_panel::keys_of(key) == seq![key],
{
    reveal_with_fuel(keys_set, 3);
    assert(seq![key].skip(1) =~= Seq::<Seq<char>>::empty());
}

/// The row that is changed is the first with the key; all others stay.
pub proof fn law_one_row_is_changed(
    rows: Seq<RowView>,
    key: Seq<char>,
    change: spec_fn(RowView) -> RowView,
    i: int,
)
    requires
        0 <= i < rows.len(),
    ensures
        with_row(rows, key, change).len() == rows.len(),
        rows[i].key != key ==> with_row(rows, key, change)[i] == rows[i],
        rows[i].key == key && (forall|k: int| 0 <= k < i ==> (#[trigger] rows[k]).key != key)
            ==> with_row(rows, key, change)[i] == change(rows[i]),
{
    first_row(rows, key, 0);
}

proof fn first_row(rows: Seq<RowView>, key: Seq<char>, from: int)
    requires
        0 <= from <= rows.len(),
    ensures
        match row_at(rows, key, from) {
            Some(i) => from <= i < rows.len() && rows[i].key == key && forall|k: int|
                from <= k < i ==> (#[trigger] rows[k]).key != key,
            None => forall|k: int| from <= k < rows.len() ==> (#[trigger] rows[k]).key != key,
        },
    decreases rows.len() - from,
{
    if from < rows.len() && rows[from].key != key {
        first_row(rows, key, from + 1);
    }
}

/// A choice is that of the first rule with the key; a place that is not there picks none.
pub proof fn law_which_choice_is_picked(specs: Seq<RuleSpec>, key: Seq<char>, index: i32)
    ensures
        match picked(specs, key, index) {
            Some((spec, name)) => exists|k: int|
                0 <= k < specs.len() && #[trigger] specs[k] == spec && spec.key@ == key && (
                forall|j: int| 0 <= j < k ==> (#[trigger] specs[j]).key@ != key) && (if index < 0 {
                    0
                } else {
                    index as int
                }) < spec.choices@.len() && name == spec.choices@[if index < 0 {
                    0
                } else {
                    index as int
                }]@[0],
            None => forall|k: int|
                0 <= k < specs.len() && (#[trigger] specs[k]).key@ == key && (forall|j: int|
                    0 <= j < k ==> (#[trigger] specs[j]).key@ != key) ==> position(index)
                    >= specs[k].choices@.len(),
        },
{
    first_spec(specs, key, 0);
}

proof fn first_spec(specs: Seq<RuleSpec>, key: Seq<char>, from: int)
    requires
        0 <= from <= specs.len(),
    ensures
        match spec_at(specs, key, from) {
            Some(i) => from <= i < specs.len() && specs[i].key@ == key && forall|k: int|
                from <= k < i ==> (#[trigger] specs[k]).key@ != key,
            None => forall|k: int| from <= k < specs.len() ==> (#[trigger] specs[k]).key@ != key,
        },
    decreases specs.len() - from,
{
    if from < specs.len() && specs[from].key@ != key {
        first_spec(specs, key, from + 1);
    }
}

/// Themes and their numbers belong together.
pub proof fn law_themes_have_numbers(n: i32)
    ensures
        theme_name(1) == "light"@,
        theme_name(2) == "dark"@,
        theme_name(0) == "system"@,
        0 <= n <= 2 ==> window::theme_number(theme_name(n)) == n,
{
    reveal_strlit("light");
    reveal_strlit("dark");
    reveal_strlit("system");
    assert("light"@.len() == 5 && "dark"@.len() == 4 && "system"@.len() == 6);
}

/// A change of a rule that is taken is kept, its problems are told, and a plan may no longer
/// be executed; the theme alone leaves the plan as it is. A value that is refused changes
/// nothing in the window but the message.
pub proof fn law_what_a_changed_rule_does(
    u0: Window,
    s0: State,
    u1: Window,
    s1: State,
    key: Seq<char>,
    value: Setting,
    is_dir: bool,
    ok: bool,
)
    requires
        rule_changed(u0, s0, u1, s1, key, value, is_dir, ok),
    ensures
        ok == (keys_set(s0.config, rules_panel::keys_of(key), value).1 is None),
        s1.config == keys_set(s0.config, rules_panel::keys_of(key), value).0,
        s1.task == s0.task && s1.tool == s0.tool && s1.run == s0.run,
        !ok ==> u1 == (Window { error_text: u1.error_text, ..u0 }),
        ok && config_problem(s1.config) is None ==> u1.error_text@.len() == 0,
        ok && config_problem(s1.config) is Some ==> u1.error_text@ == config_problem(s1.config)->0,
        ok && key != "theme"@ && !u0.busy ==> !u1.ready,
        ok && key != "theme"@ && u0.busy ==> u1.ready == u0.ready && u1.status == u0.status,
        ok && key == "theme"@ ==> u1.ready == u0.ready && u1.status == u0.status && u1.nav.theme
            == window::theme_number(s1.config.theme@),
        u1.rules == u0.rules && u1.directory == u0.directory && u1.plan == u0.plan,
{
    reveal(rule_changed);
}

/// A switch that is set shows so in its row, and the panel holds the rows that are in sight
/// now; a refused one leaves the rows alone.
pub proof fn law_what_a_switch_does(
    u0: Window,
    s0: State,
    u1: Window,
    s1: State,
    key: Seq<char>,
    value: bool,
    is_dir: bool,
)
    requires
        switch_set(u0, s0, u1, s1, key, value, is_dir),
    ensures
        s1.config == keys_set(s0.config, rules_panel::keys_of(key), Setting::Bool(value)).0,
        keys_set(s0.config, rules_panel::keys_of(key), Setting::Bool(value)).1 is Some ==> u1.rules
            == u0.rules,
        keys_set(s0.config, rules_panel::keys_of(key), Setting::Bool(value)).1 is None ==> {
            let rows = rules_panel::row_views(u1.rules@);
            &&& rows.len() == window::open_rows(s1).len()
            &&& forall|i: int|
                0 <= i < rows.len() ==> (#[trigger] rows[i]).key == window::open_rows(s1)[i].key
        },
{
    let ok = keys_set(s0.config, rules_panel::keys_of(key), Setting::Bool(value)).1 is None;
    law_what_a_changed_rule_does(
        u0,
        s0,
        beside_rows(u0, u1),
        s1,
        key,
        Setting::Bool(value),
        is_dir,
        ok,
    );
    rules_panel::law_rows_follow(
        with_row(
            rules_panel::row_views(u0.rules@),
            key,
            |v: RowView| RowView { checked: value, ..v },
        ),
        window::open_rows(s1),
    );
}

/// A choice sets the rule to the name of what was picked; where nothing is there to pick,
/// nothing changes.
pub proof fn law_what_a_choice_does(
    u0: Window,
    s0: State,
    u1: Window,
    s1: State,
    key: Seq<char>,
    index: i32,
    is_dir: bool,
)
    requires
        choice_made(u0, s0, u1, s1, key, index, is_dir),
    ensures
        picked(s0.specs@, key, index) is None ==> u1 == u0 && s1 == s0,
        picked(s0.specs@, key, index) matches Some((spec, name)) ==> s1.config == keys_set(
            s0.config,
            rules_panel::keys_of(key),
            Setting::Text(name),
        ).0,
        picked(s0.specs@, key, index) matches Some((spec, name)) ==> (keys_set(
            s0.config,
            rules_panel::keys_of(key),
            Setting::Text(name),
        ).1 is Some ==> u1.rules == u0.rules),
{
    match picked(s0.specs@, key, index) {
        None => {},
        Some((spec, name)) => {
            let ok = keys_set(s0.config, rules_panel::keys_of(key), Setting::Text(name)).1 is None;
            law_what_a_changed_rule_does(
                u0,
                s0,
                beside_rows(u0, u1),
                s1,
                key,
                Setting::Text(name),
                is_dir,
                ok,
            );
        },
    }
}

} // verus!
