use jchtools::config::{Config, DeleteMode, Setting};
use jchtools::control::Event;
use jchtools::gui::capacity::{amount_in, parse_capacity};
use jchtools::gui::commands;
use jchtools::gui::pump;
use jchtools::gui::readiness::{
    classify_plan_snapshot, count_selected_pending, plan_snapshot, PlanReadyState,
};
use jchtools::gui::rounds;
use jchtools::gui::rules_panel::{
    default_tools, rule_visible, search_tools, sync_rules, RuleRow, RuleSpec, Tier, Tool, ToolInfo,
};
use jchtools::gui::tasks;
use jchtools::gui::tasks::{CloseAnswer, Confirmed, RootEdit};
use jchtools::gui::window::{
    loaded_events, log_panel_text, plan_row_state, push_event_log, EngineTestOverrides, Metrics,
    PlanLoaded, PlanQuery, State, Window,
};
use jchtools::gui::PlanSnapshot;
use jchtools::model::{Action, ActionKind, Summary};
use std::collections::VecDeque;

fn spec(section: &str, key: &str, kind: &str, tier: Tier, tools: &[&str]) -> RuleSpec {
    RuleSpec {
        section: section.to_string(),
        key: key.to_string(),
        title: format!("标题 {key}"),
        hint: format!("说明 {key}"),
        kind: kind.to_string(),
        choices: Vec::new(),
        tier,
        tools: tools.iter().map(|t| t.to_string()).collect(),
        unit: None,
    }
}

fn choices(mut s: RuleSpec, list: &[&[&str]]) -> RuleSpec {
    s.choices = list
        .iter()
        .map(|c| c.iter().map(|x| x.to_string()).collect())
        .collect();
    s
}

fn bytes(mut s: RuleSpec) -> RuleSpec {
    s.unit = Some("bytes".to_string());
    s
}

fn table() -> Vec<RuleSpec> {
    let org = ["organizer"];
    let ext = ["extract"];
    let both = ["extract", "organizer"];
    let modes: &[&[&str]] = &[
        &["global", "跟随全局"],
        &["keep", "保留"],
        &["permanent", "永久删除"],
    ];
    vec![
        spec("去重", "dedup_same_name", "bool", Tier::Basic, &org),
        spec("去重", "dedup_copy_names", "bool", Tier::Basic, &org),
        spec("去重", "dedup_other_names", "bool", Tier::Basic, &org),
        choices(
            spec("去重", "keep_duplicate", "choice", Tier::Basic, &org),
            &[
                &["newest", "最新", "保留修改时间最新的一份"],
                &["oldest", "最旧"],
                &["shortest_name", "名称最短"],
            ],
        ),
        spec("归类", "large_files", "bool", Tier::Basic, &org),
        bytes(spec("归类", "large_threshold_bytes", "number", Tier::Advanced, &org)),
        spec("清理", "clean_junk", "bool", Tier::Basic, &org),
        choices(spec("清理", "junk_delete", "choice", Tier::Basic, &org), modes),
        spec("清理", "clean_temp", "bool", Tier::Basic, &org),
        choices(spec("清理", "temp_delete", "choice", Tier::Basic, &org), modes),
        spec("清理", "clean_zero", "bool", Tier::Basic, &org),
        choices(spec("清理", "zero_delete", "choice", Tier::Basic, &org), modes),
        spec("清理", "clean_copy_name", "bool", Tier::Basic, &org),
        spec("清理", "normalize_names", "bool", Tier::Basic, &org),
        spec("清理", "fix_extension", "bool", Tier::Advanced, &org),
        choices(
            spec("安全与性能", "global_delete", "choice", Tier::Basic, &org),
            &[&["keep", "保留"], &["permanent", "永久删除"]],
        ),
        spec("安全与性能", "recursive", "bool", Tier::Basic, &both),
        spec("安全与性能", "include_hidden", "bool", Tier::Advanced, &both),
        spec("安全与性能", "include_system", "bool", Tier::Advanced, &both),
        spec("安全与性能", "exclusions", "text", Tier::Advanced, &both),
        spec("安全与性能", "hash_workers", "number", Tier::Advanced, &org),
        spec("解压", "max_depth", "number", Tier::Advanced, &ext),
        spec("解压", "max_entries", "number", Tier::Advanced, &ext),
        spec("解压", "max_ratio", "number", Tier::Advanced, &ext),
        bytes(spec("解压", "reserve_bytes", "number", Tier::Advanced, &ext)),
    ]
}

fn tools() -> Vec<ToolInfo> {
    vec![
        ToolInfo {
            id: "recursive-extract".to_string(),
            name: "递归解压".to_string(),
            summary: "就地解开压缩包 ZIP".to_string(),
        },
        ToolInfo {
            id: "directory-organizer".to_string(),
            name: "目录整理".to_string(),
            summary: "去重与归类".to_string(),
        },
    ]
}

fn open() -> (Window, State) {
    let (mut ui, mut state) = rounds::run(table(), tools());
    let load = tasks::select_tool(&mut ui, &mut state, "directory-organizer", false);
    assert!(load.is_none());
    (ui, state)
}

fn value_at(ui: &Window, key: &str) -> Option<String> {
    ui.rules
        .iter()
        .find(|r| r.key == key)
        .map(|r| r.value.clone())
}

fn action(id: i64, kind: ActionKind) -> Action {
    Action {
        id,
        kind,
        source: format!("f{id}.txt"),
        target: None,
        reason: "测试".to_string(),
        expected: None,
        keeper: None,
        hash: None,
        mode: DeleteMode::Permanent,
        selected: true,
        state: "pending".to_string(),
    }
}

fn snapshot(status: Option<&str>, requested: &str, root_matches: bool, c: &Config) -> PlanSnapshot {
    PlanSnapshot {
        status: status.map(str::to_string),
        config: Some(c.copy()),
        root_matches,
        requested_directory: requested.to_string(),
        summary: None,
    }
}

fn apply(ui: &mut Window, state: &mut State, event: Event) -> pump::Reaction {
    let mut waiting = None;
    pump::apply_event(ui, state, &mut waiting, event, false)
}

fn with_task(ui: &mut Window, state: &mut State) {
    state.task = Some("D:/state/t1".to_string());
    ui.has_task = true;
    ui.directory = "D:/data".to_string();
}

#[test]
fn plan_page_event_rejects_stale_generation_and_filter() {
    let delete = Some("delete".to_string());
    assert!(!pump::plan_page_event_accepted(5, 6, 0, &None, 0, &None));
    assert!(pump::plan_page_event_accepted(
        6, 6, 0, &delete, 0, &delete
    ));
    assert!(pump::plan_page_event_accepted(6, 6, 1, &None, 0, &None));
    assert!(!pump::plan_page_event_accepted(6, 6, 0, &None, 0, &delete));
}

#[test]
fn failed_event_log_respects_300_cap() {
    let mut logs = VecDeque::new();
    for i in 0..300 {
        push_event_log(&mut logs, format!("日志 {i}"));
    }
    push_event_log(&mut logs, "任务失败：测试".into());
    assert_eq!(logs.len(), 300);
    assert_eq!(logs.back().map(String::as_str), Some("任务失败：测试"));
    assert_eq!(logs.front().map(String::as_str), Some("日志 1"));
}

#[test]
fn failed_reload_updates_summary_without_reborrow_panic() {
    let (mut ui, mut state) = open();
    with_task(&mut ui, &mut state);
    let summary = Summary {
        scanned: 5,
        planned_delete: 3,
        ..Summary::default()
    };
    let load = pump::reload_page(&mut state, "D:/data", true).unwrap();
    assert!(load.query.summary);
    let mut snap = snapshot(Some("ready"), "D:/data", true, &state.config);
    snap.summary = Some(summary);
    let actions = (1..=3).map(|i| action(i, ActionKind::Delete)).collect();
    for event in loaded_events(load, PlanLoaded::Page(snap, actions)) {
        apply(&mut ui, &mut state, event);
    }
    assert_eq!(ui.plan.delete_count, 3);
    assert_eq!(state.run.planned, 3);
    assert_eq!(ui.plan.rows.len(), 3);
    assert_eq!(ui.plan.summary, Some(summary));
}

#[test]
fn initial_surface_lists_defaults() {
    let (ui, state) = rounds::run(table(), tools());
    assert!(!ui.ready);
    assert_eq!(ui.nav.theme, 0);
    assert_eq!(ui.nav.tool_count, 2);
    assert_eq!(ui.nav.shown_tools.len(), 2);
    let ids: Vec<&str> = ui
        .nav
        .shown_tools
        .iter()
        .map(|i| state.tools[*i].id.as_str())
        .collect();
    assert!(ids.contains(&"recursive-extract") && ids.contains(&"directory-organizer"));
    assert_eq!(ui.nav.tool_search, "");
    assert_eq!(ui.nav.active_tool_id, "recursive-extract");
    assert_eq!(ui.nav.screen, 2);
    assert_eq!(state.tool, Tool::Extract);
    assert_eq!(ui.status, "请选择需要解压的目录");
    let (_, state) = rounds::run_with_engine_overrides(
        table(),
        tools(),
        |_: &Window| {},
        Some(EngineTestOverrides {
            state_dir: "D:/test".to_string(),
        }),
    );
    assert_eq!(state.engine_overrides.unwrap().state_dir, "D:/test");
}

#[test]
fn section_switch_swaps_rule_rows() {
    let (mut ui, mut state) = open();
    tasks::select_section(&mut ui, &mut state, 3);
    assert_eq!(ui.nav.section, 3);
    assert_eq!(ui.rules.len(), 2);
    assert!(value_at(&ui, "hash_workers").is_none());
    commands::toggle_advanced(&mut ui, &mut state, true);
    assert!(ui.nav.show_advanced);
    assert_eq!(ui.rules.len(), 6);
    assert_eq!(value_at(&ui, "hash_workers").as_deref(), Some("6"));
    assert!(value_at(&ui, "reserve_bytes").is_none());
    commands::toggle_advanced(&mut ui, &mut state, false);
    tasks::select_section(&mut ui, &mut state, 0);
    assert!(value_at(&ui, "dedup_same_name").is_some());
    commands::toggle_advanced(&mut ui, &mut state, true);
    assert!(value_at(&ui, "same_name_same_size").is_none());
    assert!(value_at(&ui, "same_size_keep").is_none());
    assert!(value_at(&ui, "theme").is_none());
    assert!(value_at(&ui, "max_depth").is_none());
    // A section that does not exist changes nothing; a negative one is the first.
    tasks::select_section(&mut ui, &mut state, 9);
    assert_eq!(ui.nav.section, 0);
    tasks::select_section(&mut ui, &mut state, 2);
    tasks::select_section(&mut ui, &mut state, -4);
    assert_eq!((ui.nav.section, state.section.as_str()), (0, "去重"));
}

#[test]
fn advanced_rows_hidden_until_toggled() {
    let (mut ui, mut state) = open();
    tasks::select_tool(&mut ui, &mut state, "recursive-extract", false);
    tasks::select_section(&mut ui, &mut state, 0);
    assert_eq!(ui.rules.len(), 0);
    assert!(value_at(&ui, "max_depth").is_none());
    assert!(value_at(&ui, "dedup_same_name").is_none());
    commands::toggle_advanced(&mut ui, &mut state, true);
    assert!(ui.nav.show_advanced);
    assert_eq!(ui.rules.len(), 4);
    assert_eq!(value_at(&ui, "max_depth").as_deref(), Some("16"));
    assert!(value_at(&ui, "archive_delete").is_none());
    commands::toggle_advanced(&mut ui, &mut state, false);
    assert_eq!(ui.rules.len(), 0);
}

#[test]
fn tool_routing_swaps_screens_and_sections() {
    let (mut ui, mut state) = open();
    tasks::select_tool(&mut ui, &mut state, "recursive-extract", false);
    assert_eq!(ui.nav.screen, 2);
    assert_eq!(ui.nav.active_tool_id, "recursive-extract");
    assert_eq!(state.tool, Tool::Extract);
    assert_eq!(ui.nav.section, 0);
    commands::toggle_advanced(&mut ui, &mut state, true);
    assert!(value_at(&ui, "max_depth").is_some());
    tasks::select_section(&mut ui, &mut state, 1);
    assert!(value_at(&ui, "hash_workers").is_none());
    assert!(value_at(&ui, "reserve_bytes").is_none());
    tasks::select_section(&mut ui, &mut state, 0);
    assert!(value_at(&ui, "reserve_bytes").is_some());
    commands::toggle_advanced(&mut ui, &mut state, false);
    tasks::select_tool(&mut ui, &mut state, "directory-organizer", false);
    assert_eq!(ui.nav.screen, 0);
    assert_eq!(ui.nav.active_tool_id, "directory-organizer");
    assert_eq!(state.tool, Tool::Organizer);
    assert!(value_at(&ui, "dedup_same_name").is_some());
    assert!(value_at(&ui, "nested_archives").is_none());
    // An unknown tool only clears the search.
    ui.nav.tool_search = "目录".to_string();
    tasks::select_tool(&mut ui, &mut state, "other", false);
    assert_eq!((ui.nav.tool_search.as_str(), ui.nav.screen), ("", 0));
}

#[test]
fn switching_tools_while_busy_keeps_running_status_text() {
    let (mut ui, mut state) = open();
    with_task(&mut ui, &mut state);
    ui.busy = true;
    ui.status = "正在执行已确认的整理计划".to_string();
    assert!(tasks::select_tool(&mut ui, &mut state, "recursive-extract", true).is_none());
    assert!(tasks::select_tool(&mut ui, &mut state, "directory-organizer", true).is_none());
    assert!(ui.busy);
    assert_eq!(ui.status, "正在执行已确认的整理计划");
    // A snapshot that is under way changes nothing either.
    let snap = snapshot(Some("executing"), "D:/data", true, &state.config);
    let g = state.generations.state;
    apply(
        &mut ui,
        &mut state,
        Event::PlanState("D:/state/t1".to_string(), g, Some(snap)),
    );
    assert_eq!(ui.status, "正在执行已确认的整理计划");
}

#[test]
fn dependent_rows_follow_their_switches() {
    let (mut ui, mut state) = open();
    tasks::select_section(&mut ui, &mut state, 2);
    commands::toggle_advanced(&mut ui, &mut state, true);
    assert!(value_at(&ui, "fix_extension").is_some());
    assert!(value_at(&ui, "detect_type").is_none());
    commands::rule_bool(&mut ui, &mut state, "fix_extension", true, false);
    assert!(state.config.detect_type);
    commands::toggle_advanced(&mut ui, &mut state, false);
    tasks::select_section(&mut ui, &mut state, 1);
    assert!(value_at(&ui, "custom_categories").is_none());
    assert!(value_at(&ui, "classify").is_none());
    assert!(value_at(&ui, "large_threshold_bytes").is_none());
    commands::toggle_advanced(&mut ui, &mut state, true);
    assert!(value_at(&ui, "large_threshold_bytes").is_none());
    commands::rule_bool(&mut ui, &mut state, "large_files", true, false);
    assert!(value_at(&ui, "large_threshold_bytes").is_some());
    // A value of its own keeps the row in sight.
    tasks::rule_text(&mut ui, &mut state, "large_threshold_bytes", "2 MiB", false);
    assert_eq!(state.config.large_threshold_bytes, 2 * 1024 * 1024);
    commands::rule_bool(&mut ui, &mut state, "large_files", false, false);
    assert_eq!(
        value_at(&ui, "large_threshold_bytes").as_deref(),
        Some("2097152")
    );
    tasks::rule_text(&mut ui, &mut state, "large_threshold_bytes", "1GiB", false);
    assert!(value_at(&ui, "large_threshold_bytes").is_none());
    commands::toggle_advanced(&mut ui, &mut state, false);
    tasks::select_section(&mut ui, &mut state, 0);
    assert!(value_at(&ui, "dedup_same_name").is_some());
    assert!(value_at(&ui, "dedup_copy_names").is_some());
    assert!(value_at(&ui, "dedup_other_names").is_some());
    assert_eq!(ui.rules.len(), 4);
    tasks::select_tool(&mut ui, &mut state, "recursive-extract", false);
    tasks::select_section(&mut ui, &mut state, 0);
    commands::toggle_advanced(&mut ui, &mut state, true);
    assert!(value_at(&ui, "conflict_delete").is_none());
    assert!(value_at(&ui, "extract_conflict").is_none());
    commands::toggle_advanced(&mut ui, &mut state, false);
    tasks::select_tool(&mut ui, &mut state, "directory-organizer", false);
    for section in 0..4 {
        tasks::select_section(&mut ui, &mut state, section);
    }
    commands::toggle_advanced(&mut ui, &mut state, true);
    assert!(value_at(&ui, "conflict_delete").is_none());
    commands::toggle_advanced(&mut ui, &mut state, false);
}

#[test]
fn merged_rows_write_shadow_fields() {
    let (mut ui, mut state) = open();
    tasks::select_section(&mut ui, &mut state, 0);
    commands::rule_bool(&mut ui, &mut state, "dedup_same_name", false, false);
    assert!(!state.config.dedup_same_name);
    assert!(state.config.dedup_copy_names && !state.config.dedup_other_names);
    commands::rule_bool(&mut ui, &mut state, "dedup_copy_names", false, false);
    commands::rule_bool(&mut ui, &mut state, "dedup_other_names", true, false);
    assert!(!state.config.dedup_copy_names && state.config.dedup_other_names);
    tasks::select_section(&mut ui, &mut state, 2);
    commands::rule_bool(&mut ui, &mut state, "fix_extension", true, false);
    assert!(state.config.fix_extension && state.config.detect_type);
}

#[test]
fn invalid_number_input_reports_error_and_reverts_value() {
    let (mut ui, mut state) = open();
    tasks::select_tool(&mut ui, &mut state, "recursive-extract", false);
    commands::toggle_advanced(&mut ui, &mut state, true);
    tasks::rule_text(&mut ui, &mut state, "max_depth", "abc", false);
    assert!(ui.error_text.contains("非负整数"), "{}", ui.error_text);
    assert_eq!(value_at(&ui, "max_depth").as_deref(), Some("16"));
    tasks::rule_text(&mut ui, &mut state, "reserve_bytes", "1.5 B", false);
    assert!(ui.error_text.contains("整数字节"), "{}", ui.error_text);
    // Too large for the rule.
    tasks::rule_text(&mut ui, &mut state, "max_depth", "99999999999", false);
    assert_eq!(ui.error_text, "该设置超出允许的范围");
    assert_eq!(value_at(&ui, "max_depth").as_deref(), Some("16"));
    assert_eq!(state.config.max_depth, 16);
    // An emptied field is only put back.
    ui.error_text = String::new();
    tasks::rule_text(&mut ui, &mut state, "max_depth", "", false);
    assert_eq!(ui.error_text, "");
    assert_eq!(value_at(&ui, "max_depth").as_deref(), Some("16"));
    // A number outside its range is set and told.
    tasks::rule_text(&mut ui, &mut state, "max_depth", "65", false);
    assert_eq!(ui.error_text, "嵌套层数必须在 1～64 之间");
    // A number beyond what can be stored is told with its cause.
    let (mut ui, mut state) = open();
    tasks::select_tool(&mut ui, &mut state, "recursive-extract", false);
    commands::toggle_advanced(&mut ui, &mut state, true);
    tasks::rule_text(&mut ui, &mut state, "reserve_bytes", "9223372036854775808 B", false);
    assert_eq!(
        ui.error_text,
        "磁盘预留超出范围: out of range integral type conversion attempted"
    );
}

#[test]
fn theme_choice_keeps_plan_ready_but_rule_change_invalidates() {
    let (mut ui, mut state) = open();
    ui.ready = true;
    commands::select_theme(&mut ui, &mut state, 2);
    assert_eq!(ui.nav.theme, 2);
    assert_eq!(state.config.theme, "dark");
    assert!(ui.ready);
    commands::rule_bool(&mut ui, &mut state, "clean_temp", false, false);
    assert!(!ui.ready);
}

#[test]
fn switching_tools_keeps_ready_plan_executable() {
    let (mut ui, mut state) = open();
    with_task(&mut ui, &mut state);
    ui.ready = true;
    assert!(tasks::select_tool(&mut ui, &mut state, "recursive-extract", true).is_none());
    let load = tasks::select_tool(&mut ui, &mut state, "directory-organizer", true).unwrap();
    assert!(!ui.ready);
    let snap = snapshot(Some("ready"), &load.directory, true, &state.config);
    for event in loaded_events(load, PlanLoaded::State(snap)) {
        apply(&mut ui, &mut state, event);
    }
    assert!(ui.ready && ui.plan_editable);
    assert!(!ui.status.contains("已改变"), "{}", ui.status);
}

#[test]
fn switching_tools_resets_shared_panel_to_default() {
    let (mut ui, mut state) = open();
    ui.nav.panel = 2;
    tasks::select_tool(&mut ui, &mut state, "recursive-extract", false);
    assert_eq!(ui.nav.panel, 0);
    ui.nav.panel = 1;
    tasks::select_tool(&mut ui, &mut state, "directory-organizer", false);
    assert_eq!(ui.nav.panel, 0);
}

#[test]
fn switching_back_to_finished_task_reports_finished_status() {
    let (mut ui, mut state) = open();
    with_task(&mut ui, &mut state);
    tasks::select_tool(&mut ui, &mut state, "recursive-extract", true);
    let load = tasks::select_tool(&mut ui, &mut state, "directory-organizer", true).unwrap();
    let snap = snapshot(Some("finished"), &load.directory, true, &state.config);
    for event in loaded_events(load, PlanLoaded::State(snap)) {
        apply(&mut ui, &mut state, event);
    }
    assert!(ui.status.contains("已结束"), "{}", ui.status);
    assert!(!ui.ready);
    assert!(!ui.plan_editable);
}

#[test]
fn root_edited_reports_missing_directory() {
    let (mut ui, mut state) = open();
    ui.directory = "D:/surely-missing-dir-42/data".to_string();
    ui.ready = true;
    let edit = tasks::root_edited(&mut ui, &mut state, false);
    assert!(matches!(edit, RootEdit::Settled(None)));
    assert!(ui.status.contains("目录不存在"), "{}", ui.status);
    assert!(!ui.ready);
    // With a task the directory is looked at later.
    with_task(&mut ui, &mut state);
    ui.ready = true;
    assert!(matches!(
        tasks::root_edited(&mut ui, &mut state, true),
        RootEdit::Later
    ));
    assert!(!ui.ready);
}

#[test]
fn search_tools_filters_registry() {
    let (mut ui, mut state) = open();
    tasks::search(&mut ui, &state, "目录");
    assert_eq!(ui.nav.shown_tools, vec![1]);
    tasks::search(&mut ui, &state, "不存在的工具名");
    assert!(ui.nav.shown_tools.is_empty());
    tasks::select_tool(&mut ui, &mut state, "recursive-extract", false);
    assert_eq!(ui.nav.shown_tools, vec![0, 1]);
    let tools = tools();
    assert_eq!(search_tools(&tools, "目录"), vec![1]);
    assert_eq!(search_tools(&tools, "不存在的工具名"), Vec::<usize>::new());
    assert_eq!(search_tools(&tools, "zip"), vec![0]);
    assert_eq!(search_tools(&tools, ""), vec![0, 1]);
}

#[test]
fn navigation_switches_screen() {
    let (mut ui, _) = open();
    tasks::navigation(&mut ui, 1);
    assert_eq!(ui.nav.screen, 1);
    assert_eq!(ui.nav.active_tool_id, "");
    tasks::navigation(&mut ui, 0);
    assert_eq!(ui.nav.screen, 0);
}

#[test]
fn directory_recheck_disarms_before_worker_finishes() {
    let (mut ui, mut state) = open();
    with_task(&mut ui, &mut state);
    ui.ready = true;
    let load = tasks::choose_directory(&mut ui, &mut state, "D:/new", true).unwrap();
    assert!(!ui.ready);
    let snap = snapshot(Some("ready"), &load.directory, false, &state.config);
    for event in loaded_events(load, PlanLoaded::State(snap)) {
        apply(&mut ui, &mut state, event);
    }
    assert_eq!(ui.status, PlanReadyState::Changed.status_text());
}

#[test]
fn directory_recheck_status_survives_superseding_page_request() {
    let (mut ui, mut state) = open();
    with_task(&mut ui, &mut state);
    ui.ready = true;
    ui.status = PlanReadyState::Ready.status_text().to_string();
    let first = tasks::choose_directory(&mut ui, &mut state, "D:/new", true).unwrap();
    let second = jchtools::gui::window::load_plan_state(
        &mut state,
        "D:/state/t1",
        "D:/new",
        PlanQuery::page(0, 0, None, false),
    );
    // The newer answer comes first; the older one is late.
    let snap = snapshot(Some("ready"), "D:/new", false, &state.config);
    for event in loaded_events(second, PlanLoaded::Page(snap, Vec::new())) {
        apply(&mut ui, &mut state, event);
    }
    assert_eq!(ui.status, PlanReadyState::Changed.status_text());
    let snap = snapshot(Some("ready"), "D:/new", true, &state.config);
    for event in loaded_events(first, PlanLoaded::State(snap)) {
        apply(&mut ui, &mut state, event);
    }
    assert!(!ui.ready);
    assert_eq!(ui.status, PlanReadyState::Changed.status_text());
}

#[test]
fn plan_readiness_fails_closed_on_stale_snapshot() {
    let config = Config::default();
    let directory = "D:/data";
    let ask = |s: Option<PlanSnapshot>| classify_plan_snapshot(&s, directory, &config);
    assert!(matches!(
        ask(Some(snapshot(Some("ready"), directory, true, &config))),
        PlanReadyState::Ready
    ));
    assert!(matches!(
        ask(Some(snapshot(Some("ready"), "D:/other", true, &config))),
        PlanReadyState::Changed
    ));
    let other = Config {
        clean_temp: true,
        ..Config::default()
    };
    assert!(matches!(
        ask(Some(snapshot(Some("ready"), directory, true, &other))),
        PlanReadyState::Changed
    ));
    assert!(matches!(
        ask(Some(snapshot(Some("ready"), directory, false, &config))),
        PlanReadyState::Changed
    ));
    assert!(matches!(
        ask(Some(snapshot(Some("finished"), directory, true, &config))),
        PlanReadyState::Finished
    ));
    assert!(matches!(ask(None), PlanReadyState::Unavailable));
    // The theme is no part of the plan.
    let themed = Config {
        theme: "dark".to_string(),
        ..Config::default()
    };
    assert!(matches!(
        ask(Some(snapshot(Some("ready"), directory, true, &themed))),
        PlanReadyState::Ready
    ));
    let taken = plan_snapshot(
        Some("ready".to_string()),
        Some(Config::default()),
        Some("D:/data".to_string()),
        Some("D:/data".to_string()),
        directory,
        None,
    );
    assert!(taken.root_matches);
    assert!(matches!(ask(Some(taken)), PlanReadyState::Ready));
}

#[test]
fn count_selected_pending_ignores_unselected_and_done() {
    let rows = vec![
        (true, "pending".to_string()),
        (true, "pending".to_string()),
        (false, "pending".to_string()),
        (true, "done".to_string()),
    ];
    assert_eq!(count_selected_pending(&rows), 2);
}

#[test]
fn organizer_warning_mentions_only_organizer_deletes() {
    let warning = Config::default().destructive_warning();
    assert!(warning.contains("重复副本") && warning.contains("永久删除"));
    for category in ["系统附属文件", "临时与备份文件", "零字节文件"] {
        assert!(warning.contains(category), "{warning}");
    }
    assert!(warning.contains("空目录"));
    assert!(warning.contains("不可由本软件恢复"));
    for forbidden in ["原压缩包", "解压覆盖", "解压冲突"] {
        assert!(!warning.contains(forbidden), "{warning}");
    }
    let config = Config {
        clean_temp: false,
        ..Config::default()
    };
    assert!(config
        .destructive_warning()
        .contains("临时与备份文件：不清理"));
}

#[test]
fn rules_and_config_expose_only_contracted_switches() {
    let config = Config::default();
    let rows = table();
    let keys: Vec<&str> = rows.iter().map(|row| row.key.as_str()).collect();
    for forbidden in [
        "nested_archives",
        "archive_delete",
        "extract_conflict",
        "conflict_delete",
        "clean_empty_dirs",
        "cleanup_delete",
    ] {
        assert!(!keys.contains(&forbidden), "{forbidden}");
        assert!(matches!(config.get_json(forbidden), Setting::Other));
    }
    for (key, expected) in [
        ("clean_junk", true),
        ("clean_temp", false),
        ("clean_zero", false),
        ("clean_copy_name", true),
        ("normalize_names", true),
        ("fix_extension", false),
        ("include_hidden", true),
        ("include_system", true),
        ("recursive", true),
    ] {
        assert!(keys.contains(&key), "{key}");
        assert!(
            matches!(config.get_json(key), Setting::Bool(b) if b == expected),
            "{key}"
        );
    }
    for key in ["junk_delete", "temp_delete", "zero_delete"] {
        assert!(keys.contains(&key), "{key}");
        assert!(matches!(config.get_json(key), Setting::Text(s) if s == "global"));
    }
    assert!(matches!(config.get_json("exclusions"), Setting::Text(s) if s.is_empty()));
}

#[test]
fn narrowing_scope_shows_notice_and_restoring_clears_it() {
    let (mut ui, mut state) = open();
    tasks::select_tool(&mut ui, &mut state, "recursive-extract", false);
    assert_eq!(ui.notice_text, "");
    commands::rule_bool(&mut ui, &mut state, "recursive", false, false);
    assert!(ui.notice_text.contains("已缩小处理范围"));
    assert!(ui.notice_text.contains("子目录"));
    commands::rule_bool(&mut ui, &mut state, "include_hidden", false, false);
    assert!(ui.notice_text.contains("隐藏"));
    assert_eq!(
        ui.notice_text,
        "已缩小处理范围：不含所选目录的子目录、不含隐藏属性资料；Git 目录仍始终整树排除。"
    );
    commands::rule_bool(&mut ui, &mut state, "recursive", true, false);
    commands::rule_bool(&mut ui, &mut state, "include_hidden", true, false);
    assert_eq!(ui.notice_text, "");
    // Another notice is left alone.
    ui.notice_text = "任务已取消".to_string();
    commands::rule_bool(&mut ui, &mut state, "clean_temp", true, false);
    assert_eq!(ui.notice_text, "任务已取消");
}

#[test]
fn extract_start_rejects_protected_directory_immediately() {
    let (mut ui, mut state) = open();
    tasks::select_tool(&mut ui, &mut state, "recursive-extract", false);
    ui.directory = "C:/Windows".to_string();
    let g = tasks::request_extract_start(
        &mut ui,
        &mut state,
        true,
        Some("受保护的目录".to_string()),
    );
    assert!(g.is_none());
    assert_ne!(ui.dialog.kind, 1);
    assert_eq!(ui.error_text, "受保护的目录");
    assert!(tasks::request_extract_start(&mut ui, &mut state, false, None).is_none());
    assert_eq!(ui.error_text, "目标目录不存在或无法访问，请重新选择目录");
    ui.directory = String::new();
    assert!(tasks::request_extract_start(&mut ui, &mut state, false, None).is_none());
    assert_eq!(ui.error_text, "请先选择需要解压的目录");
}

#[test]
fn plan_editable_recovers_when_ready_task_is_shown_again() {
    let (mut ui, mut state) = open();
    with_task(&mut ui, &mut state);
    ui.plan_editable = false;
    let load = commands::sync_ready_after_directory(&mut ui, &mut state, true).unwrap();
    let snap = snapshot(Some("ready"), "D:/data", true, &state.config);
    for event in loaded_events(load, PlanLoaded::State(snap)) {
        apply(&mut ui, &mut state, event);
    }
    assert!(ui.plan_editable && ui.ready);
    let load = commands::sync_ready_after_directory(&mut ui, &mut state, true).unwrap();
    let snap = snapshot(Some("cancelled"), "D:/data", true, &state.config);
    for event in loaded_events(load, PlanLoaded::State(snap)) {
        apply(&mut ui, &mut state, event);
    }
    assert!(!ui.plan_editable && !ui.ready);
    // A task that cannot be read allows neither.
    let load = commands::sync_ready_after_directory(&mut ui, &mut state, true).unwrap();
    for event in loaded_events(load, PlanLoaded::Failed("坏库".to_string())) {
        apply(&mut ui, &mut state, event);
    }
    assert_eq!(ui.status, PlanReadyState::Unavailable.status_text());
}

#[test]
fn extraction_waits_for_its_count() {
    let (mut ui, mut state) = open();
    tasks::select_tool(&mut ui, &mut state, "recursive-extract", true);
    ui.directory = "D:/data".to_string();
    let first = tasks::request_extract_start(&mut ui, &mut state, true, None).unwrap();
    assert!(ui.dialog.pending);
    assert_eq!(ui.dialog.kind, 1);
    assert!(ui.dialog.text.contains("正在清点压缩包…"));
    let second = tasks::request_extract_start(&mut ui, &mut state, true, None).unwrap();
    assert_eq!(second, first + 1);
    apply(&mut ui, &mut state, Event::ExtractCount(first, Ok(3)));
    assert!(ui.dialog.pending);
    apply(&mut ui, &mut state, Event::ExtractCount(second, Ok(7)));
    assert!(!ui.dialog.pending);
    assert!(ui.dialog.text.contains("清点到 7 个压缩包"));
    assert!(matches!(
        tasks::confirmed(&mut ui, &mut state, 1, true),
        Confirmed::Extract
    ));
    assert!(ui.busy && state.run.extracting && !ui.ready);
    let end = apply(
        &mut ui,
        &mut state,
        Event::ExtractDone(
            "D:/state/t2".to_string(),
            Summary {
                archives_ok: 4,
                archives_failed: 1,
                archives_quarantined: 2,
                ..Summary::default()
            },
        ),
    );
    assert!(end.terminal && !end.quit && end.load.is_none());
    assert!(!ui.busy && !state.run.running);
    assert_eq!(ui.progress.quarantined_count, 2);
    assert!(matches!(ui.progress.metrics, Metrics::Extraction(_)));
    assert!(ui.status.contains("未完全解开 1 包"));
}

#[test]
fn a_failed_count_closes_the_question() {
    let (mut ui, mut state) = open();
    tasks::select_tool(&mut ui, &mut state, "recursive-extract", true);
    ui.directory = "D:/data".to_string();
    let g = tasks::request_extract_start(&mut ui, &mut state, true, None).unwrap();
    apply(
        &mut ui,
        &mut state,
        Event::ExtractCount(g, Err("无法读取".to_string())),
    );
    assert_eq!(ui.dialog.kind, 0);
    assert!(!ui.dialog.pending);
    assert_eq!(ui.error_text, "无法读取");
}

#[test]
fn analysis_and_execution_follow_each_other() {
    let (mut ui, mut state) = open();
    assert!(!tasks::start_task(&mut ui, &mut state, true, true));
    assert_eq!(ui.error_text, "还没有可以执行的计划");
    ui.directory = "D:/data".to_string();
    assert!(!tasks::start_task(&mut ui, &mut state, false, false));
    assert!(tasks::start_task(&mut ui, &mut state, false, true));
    assert!(ui.busy && state.run.running && !state.run.applying);
    assert!(!tasks::start_task(&mut ui, &mut state, false, true));
    let ready = apply(
        &mut ui,
        &mut state,
        Event::Ready(
            "D:/state/t1".to_string(),
            Summary {
                planned_delete: 2,
                planned_move: 1,
                ..Summary::default()
            },
        ),
    );
    assert_eq!(state.run.planned, 3);
    assert_eq!(ui.status, "分析完成（只读）。请检查计划，然后确认执行整理。");
    assert!(!ui.ready);
    let load = ready.load.unwrap();
    let snap = snapshot(Some("ready"), "D:/data", true, &state.config);
    let mut list = vec![action(1, ActionKind::Delete), action(2, ActionKind::Move)];
    list[0].keeper = Some(("keep.txt".to_string(), "hash".to_string()));
    list[1].target = Some("new.txt".to_string());
    list.push(action(3, ActionKind::EmptyDirectory));
    for event in loaded_events(load, PlanLoaded::Page(snap, list)) {
        apply(&mut ui, &mut state, event);
    }
    assert!(ui.ready && ui.plan_editable);
    assert_eq!(ui.plan.rows[0].target, "保留 keep.txt");
    assert_eq!(ui.plan.rows[1].kind, "移动/重命名");
    assert_eq!(ui.plan.rows[2].reason, "测试（整理完成后强制清理，不可取消）");
    assert_eq!(ui.plan.page_label, "第 1 页 · 每页最多 100 条");
    // A selection that is being saved disarms.
    let saved = tasks::plan_toggle(&mut ui, &mut state, 2, false).unwrap();
    assert_eq!(saved, ("D:/state/t1".to_string(), 2, false));
    assert!(!ui.ready);
    assert_eq!(ui.plan.rows[1].state, "已取消勾选");
    assert!(!tasks::start_task(&mut ui, &mut state, true, true));
    assert_eq!(ui.error_text, "计划勾选仍在保存中，请稍后再试");
    let again = apply(
        &mut ui,
        &mut state,
        Event::SelectionSaved("D:/state/t1".to_string(), Some((2, false)), None),
    );
    let load = again.load.unwrap();
    assert!(load.query.page.is_none());
    let snap = snapshot(Some("ready"), "D:/data", true, &state.config);
    for event in loaded_events(load, PlanLoaded::State(snap)) {
        apply(&mut ui, &mut state, event);
    }
    assert!(ui.ready);
    tasks::request_apply(&mut ui, &state, "摘要");
    assert_eq!(ui.dialog.kind, 2);
    assert!(ui.dialog.text.starts_with("目标目录：D:/data\n执行“整理计划”"));
    assert!(ui.dialog.text.ends_with("\n\n摘要"));
    assert!(matches!(
        tasks::confirmed(&mut ui, &mut state, 2, true),
        Confirmed::Apply
    ));
    assert_eq!(ui.status, "正在执行已确认的整理计划");
    let done = apply(
        &mut ui,
        &mut state,
        Event::Done(
            "D:/state/t1".to_string(),
            Summary {
                deleted: 2,
                errors: 1,
                ..Summary::default()
            },
        ),
    );
    assert!(done.terminal);
    assert_eq!(
        ui.status,
        "整理结束：已永久删除 2 项（不可恢复）· 错误 1 项；完整记录见「进度与日志」。"
    );
}

#[test]
fn a_selection_that_was_not_saved_reloads_the_page() {
    let (mut ui, mut state) = open();
    with_task(&mut ui, &mut state);
    tasks::plan_toggle(&mut ui, &mut state, 1, false).unwrap();
    let r = apply(
        &mut ui,
        &mut state,
        Event::SelectionSaved("D:/state/t1".to_string(), None, Some("写入失败".to_string())),
    );
    assert_eq!(ui.error_text, "写入失败");
    assert!(!state.selection_failed);
    assert!(r.load.unwrap().query.page.is_some());
}

#[test]
fn pages_are_turned_when_they_have_come() {
    let (mut ui, mut state) = open();
    with_task(&mut ui, &mut state);
    let load = tasks::filter_plan(&mut ui, &mut state, "delete").unwrap();
    assert_eq!(ui.plan.page_label, "加载中…");
    let snap = snapshot(Some("ready"), "D:/data", true, &state.config);
    let list = (1..=101).map(|i| action(i, ActionKind::Delete)).collect();
    for event in loaded_events(load, PlanLoaded::Page(snap, list)) {
        apply(&mut ui, &mut state, event);
    }
    assert_eq!(ui.plan.rows.len(), 100);
    assert!(ui.plan.next_enabled && !ui.plan.prev_enabled);
    assert_eq!(state.paging.page_starts, vec![0, 100]);
    let load = tasks::plan_page(&ui, &mut state, 1).unwrap();
    assert_eq!(state.paging.page, 0);
    assert_eq!(load.query.page.as_ref().unwrap().start, 100);
    // It fails: an error, and the page that is shown stays.
    for event in loaded_events(load, PlanLoaded::Failed("读取失败".to_string())) {
        apply(&mut ui, &mut state, event);
    }
    assert_eq!(ui.error_text, "读取失败");
    assert_eq!((state.paging.page, ui.plan.rows.len()), (0, 100));
    // The first page of another filter fails: no old rows stay.
    let load = tasks::filter_plan(&mut ui, &mut state, "").unwrap();
    for event in loaded_events(load, PlanLoaded::Failed("读取失败".to_string())) {
        apply(&mut ui, &mut state, event);
    }
    assert!(ui.plan.rows.is_empty());
    assert!(!ui.ready);
    assert!(tasks::plan_page(&ui, &mut state, 1).is_none());
    apply(&mut ui, &mut state, Event::Error("出错".to_string()));
    assert_eq!(ui.plan.page_label, "第 1 页 · 每页最多 100 条");
}

#[test]
fn a_round_shows_the_last_status_and_takes_so_many_events() {
    let (mut ui, mut state) = open();
    let mut queue: VecDeque<Event> = VecDeque::new();
    for i in 0..300 {
        queue.push_back(Event::Status(format!("第 {i} 步")));
    }
    let reactions = rounds::drain(&mut ui, &mut state, &mut queue, false);
    assert_eq!((reactions.len(), queue.len()), (256, 44));
    assert_eq!(ui.status, "第 255 步");
    assert!(!rounds::any_terminal(&reactions));
    // The end of a task goes before the lines that wait.
    let mut queue: VecDeque<Event> = VecDeque::new();
    queue.push_back(Event::Status("解压中".to_string()));
    queue.push_back(Event::Log("一行".to_string()));
    queue.push_back(Event::Failed("坏了".to_string()));
    state.run.running = true;
    let reactions = rounds::drain(&mut ui, &mut state, &mut queue, true);
    assert!(rounds::any_terminal(&reactions));
    assert_eq!(ui.notice_text, "坏了");
    assert!(ui.status.starts_with("任务已取消"));
    assert!(state.log_dirty);
    assert!(!rounds::refresh_log(&mut ui, &mut state, true, 0));
    ui.nav.panel = 2;
    assert!(!rounds::refresh_log(&mut ui, &mut state, false, 499));
    assert!(rounds::refresh_log(&mut ui, &mut state, true, 0));
    assert_eq!(ui.log_text, "坏了\n一行");
    assert!(!state.log_dirty);
}

#[test]
fn running_tasks_show_what_is_known() {
    let (mut ui, mut state) = open();
    let mut figures = rounds::Figures {
        read: "3 MiB".to_string(),
        done: 2,
        scanned: 9,
        planned: Some(8),
        elapsed: "1.5".to_string(),
        rate: "2.0".to_string(),
    };
    rounds::refresh_runtime(&mut ui, &state, &figures);
    assert!(ui.progress.part.is_none());
    ui.busy = true;
    rounds::refresh_runtime(&mut ui, &state, &figures);
    assert_eq!(ui.progress.note, "准备中");
    state.run.running = true;
    rounds::refresh_runtime(&mut ui, &state, &figures);
    assert!(ui.progress.part.is_none());
    assert_eq!(ui.progress.note, "已扫描 9 个文件 · 读取 3 MiB");
    state.run.applying = true;
    rounds::refresh_runtime(&mut ui, &state, &figures);
    assert_eq!(ui.progress.part, Some((2, 8)));
    assert_eq!(ui.progress.note, "2 / 8 项");
    assert!(
        matches!(&ui.progress.metrics, Metrics::Line(s) if s == "执行中：已处理 2 / 8 项 · 耗时 1.5s")
    );
    figures.planned = None;
    rounds::refresh_runtime(&mut ui, &state, &figures);
    assert_eq!(ui.progress.note, "没有待执行的计划项");
    assert!(rounds::theme_poll_due(2000) && !rounds::theme_poll_due(1999));
}

#[test]
fn pausing_cancelling_and_closing() {
    let (mut ui, mut state) = open();
    assert_eq!(tasks::pause_task(&mut ui, &state, false), None);
    assert_eq!(
        tasks::close_requested(&mut ui, &state),
        CloseAnswer::Close { cancel: false }
    );
    ui.busy = true;
    state.run.running = true;
    assert_eq!(tasks::pause_task(&mut ui, &state, false), Some(true));
    assert!(ui.paused);
    assert_eq!(tasks::pause_task(&mut ui, &state, true), Some(false));
    assert_eq!(ui.status, "继续处理");
    assert!(tasks::cancel_task(&mut ui, &state));
    assert_eq!(tasks::close_requested(&mut ui, &state), CloseAnswer::Keep);
    assert_eq!(ui.dialog.kind, 3);
    assert_eq!(
        tasks::confirmed(&mut ui, &mut state, 3, true),
        Confirmed::Cancel
    );
    assert!(state.run.close_after);
    let r = apply(&mut ui, &mut state, Event::Failed("取消".to_string()));
    assert!(r.quit);
    assert_eq!(
        tasks::confirmed(&mut ui, &mut state, 3, true),
        Confirmed::Quit
    );
    assert_eq!(tasks::choose_title(Tool::Extract), "选择需要解压的目录");
    assert_eq!(tasks::choose_title(Tool::Organizer), "选择需要整理的目录");
}

#[test]
fn amounts_are_read_without_rounding() {
    assert_eq!(parse_capacity("12", false), Ok(12));
    assert_eq!(parse_capacity(" 12", false), Err(()));
    assert_eq!(parse_capacity("12", true), Ok(12));
    assert_eq!(parse_capacity(" 1.5 KiB ", true), Ok(1536));
    assert_eq!(parse_capacity(".5mib", true), Ok(524_288));
    assert_eq!(parse_capacity("2GiB", true), Ok(2 << 30));
    assert_eq!(parse_capacity("1 TiB", true), Ok(1 << 40));
    assert_eq!(parse_capacity("0.50000000TiB", true), Ok(549_755_813_888));
    assert_eq!(
        parse_capacity("0.500000000000000000000000000000000000000000TiB", true),
        Ok(549_755_813_888)
    );
    assert_eq!(parse_capacity("16777216TiB", true), Err(()));
    assert_eq!(parse_capacity("0.1 KiB", true), Err(()));
    assert_eq!(parse_capacity(".", true), Err(()));
    assert_eq!(parse_capacity("1.2.3", true), Err(()));
    assert_eq!(parse_capacity("5 MB", true), Err(()));
    assert_eq!(parse_capacity("18446744073709551615", true), Ok(u64::MAX));
    assert_eq!(parse_capacity("18446744073709551616", true), Err(()));
    assert_eq!(parse_capacity("17179869184 GiB", true), Err(()));
    // The Kelvin sign is a k in lower case.
    assert_eq!(parse_capacity("1 \u{212a}iB", true), Ok(1024));
    assert_eq!(amount_in("3", 1024), Some(3072));
}

#[test]
fn choices_show_their_hints() {
    let (mut ui, mut state) = open();
    let row = ui.rules.iter().find(|r| r.key == "keep_duplicate").unwrap();
    assert_eq!((row.kind, row.index), (1, 0));
    assert_eq!(row.hint, "保留修改时间最新的一份");
    assert_eq!(row.options, vec!["最新", "最旧", "名称最短"]);
    commands::rule_choice(&mut ui, &mut state, "keep_duplicate", 1, false);
    let row = ui.rules.iter().find(|r| r.key == "keep_duplicate").unwrap();
    assert_eq!((row.index, row.hint.as_str()), (1, "说明 keep_duplicate"));
    assert!(matches!(state.config.get_json("keep_duplicate"), Setting::Text(s) if s == "oldest"));
    commands::rule_choice(&mut ui, &mut state, "keep_duplicate", 7, false);
    assert!(matches!(state.config.get_json("keep_duplicate"), Setting::Text(s) if s == "oldest"));
    tasks::rule_text(&mut ui, &mut state, "exclusions", "[", false);
    assert_eq!(ui.error_text, "排除规则无效");
    tasks::rule_text(&mut ui, &mut state, "no_such_rule", "x", false);
    assert_eq!(ui.error_text, "未知设置：no_such_rule");
    commands::rule_bool(&mut ui, &mut state, "theme", true, false);
    assert_eq!(ui.error_text, "invalid type: boolean `true`, expected a string");
}

#[test]
fn rows_come_and_go_without_touching_the_others() {
    let row = |key: &str, value: &str| RuleRow {
        key: key.to_string(),
        title: String::new(),
        hint: String::new(),
        kind: 2,
        checked: false,
        index: 0,
        options: Vec::new(),
        value: value.to_string(),
    };
    let mut rows = vec![row("a", "old"), row("b", "old"), row("c", "old")];
    let wanted = vec![row("a", "new"), row("c", "new"), row("d", "new")];
    sync_rules(&mut rows, &wanted);
    let got: Vec<(&str, &str)> = rows
        .iter()
        .map(|r| (r.key.as_str(), r.value.as_str()))
        .collect();
    assert_eq!(got, vec![("a", "old"), ("c", "old"), ("d", "new")]);
    assert_eq!(default_tools(), vec!["extract", "organizer"]);
    let junk = table().into_iter().find(|s| s.key == "junk_delete").unwrap();
    let mut c = Config::default();
    c.clean_junk = false;
    assert!(!rule_visible(&junk, &c, false));
}

#[test]
fn states_of_rows_follow_the_selection() {
    assert_eq!(plan_row_state(true, "unselected"), "待执行");
    assert_eq!(plan_row_state(false, "待执行"), "已取消勾选");
    assert_eq!(plan_row_state(false, "done"), "done");
    let logs: VecDeque<String> = VecDeque::new();
    assert_eq!(log_panel_text(&logs), "");
}

#[test]
fn only_the_first_failure_of_a_cancelled_task_is_a_notice() {
    let (mut ui, mut state) = open();
    state.run.running = true;
    let mut queue: VecDeque<Event> = VecDeque::new();
    queue.push_back(Event::Failed("已取消".to_string()));
    queue.push_back(Event::Failed("坏了".to_string()));
    let reactions = rounds::drain(&mut ui, &mut state, &mut queue, true);
    assert_eq!(reactions.len(), 2);
    assert_eq!(ui.notice_text, "已取消");
    assert_eq!(ui.error_text, "坏了");
    assert!(ui.status.starts_with("任务已停止"));
}

#[test]
fn the_window_is_handed_over_before_the_first_round() {
    let mut seen: Option<(String, i32)> = None;
    let (ui, state) = rounds::run_with_pre_loop_hook(table(), tools(), |w: &Window| {
        seen = Some((w.nav.active_tool_id.clone(), w.nav.tool_count));
    });
    assert_eq!(seen, Some((ui.nav.active_tool_id.clone(), 2)));
    assert!(state.engine_overrides.is_none());
}
