//! The window and what is kept behind it.

use super::rules_panel;
use super::rules_panel::{PanelView, RuleRow, RuleSpec, Tool, ToolInfo};
use super::PlanSnapshot;
use crate::config::Config;
use crate::control::Event;
use crate::model::{Action, Summary};
use crate::text;
use std::collections::VecDeque;
use vstd::prelude::*;

verus! {

/// Where a test keeps its tasks.
#[derive(Debug)]
pub struct EngineTestOverrides {
    pub state_dir: String,
}

/// An action of the plan as it is shown.
#[derive(Debug)]
pub struct PlanRow {
    pub id: i64,
    pub selected: bool,
    pub kind: String,
    pub source: String,
    pub target: String,
    pub reason: String,
    pub state: String,
}

/// The line of figures under the progress bar.
#[derive(Debug)]
pub enum Metrics {
    Line(String),
    /// What an extraction came to.
    Extraction(Summary),
}

/// Where the user is.
#[derive(Debug)]
pub struct Nav {
    pub screen: i32,
    pub panel: i32,
    pub section: i32,
    pub theme: i32,
    pub show_advanced: bool,
    pub active_tool_id: String,
    pub tool_search: String,
    /// How many tools there are.
    pub tool_count: i32,
    /// The tools that are listed, by their places in the registry.
    pub shown_tools: Vec<usize>,
}

/// A question that has to be confirmed.
#[derive(Debug)]
pub struct Dialog {
    pub text: String,
    pub kind: i32,
    pub acknowledge: bool,
    /// It waits for a count and may not be confirmed.
    pub pending: bool,
}

/// The plan as it is shown.
#[derive(Debug)]
pub struct PlanPane {
    pub rows: Vec<PlanRow>,
    pub prev_enabled: bool,
    pub next_enabled: bool,
    pub page_label: String,
    pub filter: i32,
    pub delete_count: i32,
    pub move_count: i32,
    pub git_count: i32,
    pub empty_count: i32,
    pub summary: Option<Summary>,
}

/// How far a task is.
#[derive(Debug)]
pub struct Progress {
    /// How much of how much is done, where that is known.
    pub part: Option<(u64, u64)>,
    pub note: String,
    pub metrics: Metrics,
    pub quarantined_count: i32,
}

/// What the window shows.
#[derive(Debug)]
pub struct Window {
    pub busy: bool,
    /// The plan may be executed.
    pub ready: bool,
    pub paused: bool,
    pub has_task: bool,
    /// The selection of the plan may be changed.
    pub plan_editable: bool,
    pub directory: String,
    pub status: String,
    pub error_text: String,
    pub notice_text: String,
    pub log_text: String,
    pub rules: Vec<RuleRow>,
    pub nav: Nav,
    pub dialog: Dialog,
    pub plan: PlanPane,
    pub progress: Progress,
}

/// What runs.
#[derive(Clone, Copy, Debug, PartialEq, Eq, Structural)]
pub struct Run {
    /// A task runs and can be paused and cancelled.
    pub running: bool,
    pub applying: bool,
    pub extracting: bool,
    /// The window closes when the task has ended.
    pub close_after: bool,
    /// How many actions the plan has.
    pub planned: u64,
}

/// Which part of the plan is shown.
#[derive(Debug)]
pub struct Paging {
    pub page: usize,
    /// Behind which action each known page begins.
    pub page_starts: Vec<i64>,
    /// The kind of action, or all.
    pub filter: Option<String>,
}

/// The numbers of the newest requests.
#[derive(Clone, Copy, Debug, PartialEq, Eq, Structural)]
pub struct Generations {
    pub extract: u64,
    pub page: u64,
    pub state: u64,
}

/// What is kept behind the window.
#[derive(Debug)]
pub struct State {
    pub config: Config,
    pub specs: Vec<RuleSpec>,
    /// The registry of tools.
    pub tools: Vec<ToolInfo>,
    pub section: String,
    pub show_advanced: bool,
    pub tool: Tool,
    /// The directory of the task that is shown.
    pub task: Option<String>,
    pub logs: VecDeque<String>,
    pub log_dirty: bool,
    /// The next snapshot also writes the status line.
    pub status_pending: bool,
    /// How many selections are being saved.
    pub pending_selection: usize,
    pub selection_failed: bool,
    pub run: Run,
    pub paging: Paging,
    pub generations: Generations,
    pub engine_overrides: Option<EngineTestOverrides>,
}

/// The number of the request after this one.
pub open spec fn next(generation: u64) -> u64 {
    if generation == u64::MAX {
        0
    } else {
        (generation + 1) as u64
    }
}

pub(crate) fn after(generation: u64) -> (r: u64)
    ensures
        r == next(generation),
{
    if generation == u64::MAX {
        0
    } else {
        generation + 1
    }
}

/// A page of the plan that is asked for.
#[derive(Debug)]
pub struct PlanPageRequest {
    /// The page begins behind this action.
    pub start: i64,
    pub page: usize,
    /// The kind of action, or all.
    pub filter: Option<String>,
}

/// What is asked of a task: a page, or only how ready it is.
#[derive(Debug)]
pub struct PlanQuery {
    pub page: Option<PlanPageRequest>,
    /// The summary is asked for too.
    pub summary: bool,
}

impl PlanQuery {
    /// Only how ready the task is.
    pub fn readiness() -> (r: PlanQuery)
        ensures
            r.page is None,
            !r.summary,
    {
        PlanQuery { page: None, summary: false }
    }

    /// A page, and how ready the task is.
    pub fn page(start: i64, page: usize, filter: Option<String>, summary: bool) -> (r: PlanQuery)
        ensures
            r.page == Some(PlanPageRequest { start, page, filter }),
            r.summary == summary,
    {
        PlanQuery { page: Some(PlanPageRequest { start, page, filter }), summary }
    }
}

/// A request that a worker carries out.
#[derive(Debug)]
pub struct PlanLoad {
    pub task: String,
    /// The directory that was entered when the request was made.
    pub directory: String,
    pub query: PlanQuery,
    pub page_generation: u64,
    pub state_generation: u64,
}

/// A request with the numbers that follow those of a state.
pub open spec fn is_load(
    l: PlanLoad,
    before: State,
    task: Seq<char>,
    directory: Seq<char>,
) -> bool {
    &&& l.task@ == task
    &&& l.directory@ == directory
    &&& l.state_generation == next(before.generations.state)
    &&& l.page_generation == (if l.query.page is Some {
        next(before.generations.page)
    } else {
        0
    })
}

/// The numbers of a state after a request.
pub open spec fn counted(before: State, page: bool) -> State {
    State {
        generations: Generations {
            state: next(before.generations.state),
            page: if page {
                next(before.generations.page)
            } else {
                before.generations.page
            },
            ..before.generations
        },
        ..before
    }
}

/// Makes a request: every request has a new number for its snapshot, and one for a page
/// has a new number for its page too, so that a late answer can be told.
pub fn load_plan_state(state: &mut State, task: &str, directory: &str, query: PlanQuery) -> (r:
    PlanLoad)
    ensures
        is_load(r, *old(state), task@, directory@),
        r.query == query,
        *final(state) == counted(*old(state), query.page is Some),
{
    let state_generation: u64 = after(state.generations.state);
    state.generations.state = state_generation;
    let mut page_generation: u64 = 0;
    if query.page.is_some() {
        page_generation = after(state.generations.page);
        state.generations.page = page_generation;
    }
    PlanLoad {
        task: task.to_owned(),
        directory: directory.to_owned(),
        query,
        page_generation,
        state_generation,
    }
}

/// What a worker read for a request.
#[derive(Debug)]
pub enum PlanLoaded {
    Page(PlanSnapshot, Vec<Action>),
    State(PlanSnapshot),
    Failed(String),
}

/// The events of an answer to a request.
pub open spec fn answers(events: Seq<Event>, l: PlanLoad, loaded: PlanLoaded) -> bool {
    let page = l.query.page;
    match loaded {
        PlanLoaded::Page(snapshot, actions) => events.len() == 1 && if page is Some {
            events[0] matches Event::PlanPage(task, rows, k, g, f, sg, snap) && task == l.task
                && rows == actions && k == page->0.page && g == l.page_generation && f
                == page->0.filter && sg == l.state_generation && snap == Some(snapshot)
        } else {
            events[0] == Event::PlanState(l.task, l.state_generation, Some(snapshot))
        },
        PlanLoaded::State(snapshot) => events.len() == 1 && events[0] == Event::PlanState(
            l.task,
            l.state_generation,
            Some(snapshot),
        ),
        PlanLoaded::Failed(error) => if page is None {
            events.len() == 1 && events[0] == Event::PlanState(
                l.task,
                l.state_generation,
                None::<PlanSnapshot>,
            )
        } else {
            let failed = events.last();
            &&& events.len() == (if page->0.page == 0 {
                2int
            } else {
                1int
            })
            &&& failed matches Event::PlanLoadFailed(e, g, f) && e == error && g
                == l.page_generation && text::text_option(f) == text::text_option(page->0.filter)
            &&& page->0.page == 0 ==> (events[0] matches Event::PlanPage(
                task,
                rows,
                k,
                g,
                f,
                sg,
                snap,
            ) && task == l.task && rows@.len() == 0 && k == 0 && g == l.page_generation && f
                == page->0.filter && sg == l.state_generation && snap is None)
        },
    }
}

fn copy_text(s: &Option<String>) -> (r: Option<String>)
    ensures
        text::text_option(r) == text::text_option(*s),
{
    match s {
        Some(v) => Some(v.clone()),
        None => None,
    }
}

/// The events that answer a request. A first page that cannot be read is answered with an
/// empty one, so that no row of another view stays; without a snapshot nothing may be
/// executed.
pub fn loaded_events(load: PlanLoad, loaded: PlanLoaded) -> (r: Vec<Event>)
    ensures
        answers(r@, load, loaded),
{
    let mut out: Vec<Event> = Vec::new();
    let PlanLoad { task, directory: _, query, page_generation, state_generation } = load;
    match loaded {
        PlanLoaded::Page(snapshot, actions) => match query.page {
            Some(p) => {
                out.push(
                    Event::PlanPage(
                        task,
                        actions,
                        p.page,
                        page_generation,
                        p.filter,
                        state_generation,
                        Some(snapshot),
                    ),
                );
            },
            None => {
                out.push(Event::PlanState(task, state_generation, Some(snapshot)));
            },
        },
        PlanLoaded::State(snapshot) => {
            out.push(Event::PlanState(task, state_generation, Some(snapshot)));
        },
        PlanLoaded::Failed(error) => match query.page {
            None => {
                out.push(Event::PlanState(task, state_generation, None));
            },
            Some(p) => {
                let filter = copy_text(&p.filter);
                if p.page == 0 {
                    out.push(
                        Event::PlanPage(
                            task,
                            Vec::new(),
                            p.page,
                            page_generation,
                            p.filter,
                            state_generation,
                            None,
                        ),
                    );
                }
                out.push(Event::PlanLoadFailed(error, page_generation, filter));
            },
        },
    }
    out
}

/// The most lines of the log that are kept.
pub const LOG_LINES: usize = 300;

/// A log with a line more; the oldest goes when there are too many.
pub open spec fn logged(logs: Seq<String>, line: String) -> Seq<String> {
    if logs.len() >= LOG_LINES {
        logs.subrange(1, logs.len() as int).push(line)
    } else {
        logs.push(line)
    }
}

/// Puts a line into the log.
pub fn push_event_log(logs: &mut VecDeque<String>, line: String)
    ensures
        final(logs)@ == logged(old(logs)@, line),
{
    if logs.len() >= LOG_LINES {
        let _ = logs.pop_front();
    }
    logs.push_back(line);
}

/// The log never holds more lines than it may, and the newest is its last.
pub proof fn law_log_is_capped(logs: Seq<String>, line: String)
    requires
        logs.len() <= LOG_LINES,
    ensures
        logged(logs, line).len() <= LOG_LINES,
        logged(logs, line).last() == line,
{
}

/// The lines of a log, the newest first.
pub open spec fn newest_first(logs: Seq<String>) -> Seq<Seq<char>> {
    Seq::new(logs.len(), |i: int| logs[logs.len() - 1 - i]@)
}

/// The log as the panel shows it: the newest line on top.
pub fn log_panel_text(logs: &VecDeque<String>) -> (r: String)
    ensures
        r@ == text::join_with(newest_first(logs@), "\n"@),
{
    let mut lines: Vec<String> = Vec::new();
    let n: usize = logs.len();
    let mut i: usize = 0;
    assert(text::texts(lines@) =~= newest_first(logs@).take(0));
    while i < n
        invariant
            n == logs@.len(),
            i <= n,
            text::texts(lines@) == newest_first(logs@).take(i as int),
        decreases n - i,
    {
        let line = logs[n - 1 - i].clone();
        proof {
            text::texts_push(lines@, line);
            assert(newest_first(logs@).take(i + 1) =~= newest_first(logs@).take(i as int).push(
                line@,
            ));
        }
        lines.push(line);
        i = i + 1;
    }
    assert(newest_first(logs@).take(i as int) =~= newest_first(logs@));
    text::join(&lines, "\n")
}

/// Whether the log is in sight: each tool has it on another panel.
pub fn log_panel_visible(ui: &Window) -> (r: bool)
    ensures
        r == (ui.nav.screen == 0 && ui.nav.panel == 2 || ui.nav.screen == 2 && ui.nav.panel == 1),
{
    ui.nav.screen == 0 && ui.nav.panel == 2 || ui.nav.screen == 2 && ui.nav.panel == 1
}

/// The state of a row of the plan as it is shown: what waits goes by its selection.
pub open spec fn row_state(selected: bool, stored: Seq<char>) -> Seq<char> {
    if stored == "pending"@ || stored == "待执行"@ || stored == "unselected"@ || stored
        == "已取消勾选"@ {
        if selected {
            "待执行"@
        } else {
            "已取消勾选"@
        }
    } else {
        stored
    }
}

/// The state of a row of the plan as it is shown.
pub fn plan_row_state(selected: bool, stored: &str) -> (r: String)
    ensures
        r@ == row_state(selected, stored@),
{
    if text::same(stored, "pending") || text::same(stored, "待执行") || text::same(
        stored,
        "unselected",
    ) || text::same(stored, "已取消勾选") {
        if selected {
            "待执行".to_owned()
        } else {
            "已取消勾选".to_owned()
        }
    } else {
        stored.to_owned()
    }
}

/// The number for a theme.
pub open spec fn theme_number(theme: Seq<char>) -> i32 {
    if theme == "light"@ {
        1
    } else if theme == "dark"@ {
        2
    } else {
        0
    }
}

pub(crate) fn theme_of(theme: &str) -> (r: i32)
    ensures
        r == theme_number(theme@),
{
    if text::same(theme, "light") {
        1
    } else if text::same(theme, "dark") {
        2
    } else {
        0
    }
}

/// The rows of the panel that is open.
pub open spec fn open_rows(s: State) -> Seq<rules_panel::RowView> {
    rules_panel::panel_rows(
        s.specs@,
        s.section@,
        PanelView { tool: s.tool, show_advanced: s.show_advanced },
        s.config,
    )
}

/// Builds the rows of the open panel, for the window.
pub(crate) fn rule_rows(state: &State) -> (r: Vec<RuleRow>)
    requires
        rules_panel::all_well_formed(state.specs@),
    ensures
        rules_panel::row_views(r@) == open_rows(*state),
{
    rules_panel::visible_rows(
        &state.specs,
        state.section.as_str(),
        PanelView { tool: state.tool, show_advanced: state.show_advanced },
        &state.config,
    )
}

/// The theme that is set.
pub open spec fn with_theme(nav: Nav, s: State) -> Nav {
    Nav { theme: theme_number(s.config.theme@), ..nav }
}

/// Shows the rows of the open panel and the theme.
pub fn refresh(ui: &mut Window, state: &State)
    requires
        rules_panel::all_well_formed(state.specs@),
    ensures
        *final(ui) == (Window {
            rules: final(ui).rules,
            nav: with_theme(old(ui).nav, *state),
            ..*old(ui)
        }),
        rules_panel::row_views(final(ui).rules@) == open_rows(*state),
{
    ui.rules = rule_rows(state);
    ui.nav.theme = theme_of(state.config.theme.as_str());
}

/// The state at the start.
pub open spec fn is_initial(s: State, specs: Vec<RuleSpec>, tools: Vec<ToolInfo>) -> bool {
    &&& crate::config::is_default(s.config)
    &&& s.specs == specs
    &&& s.tools == tools
    &&& s.section@ == "去重"@
    &&& !s.show_advanced
    &&& s.tool == Tool::Organizer
    &&& s.task is None
    &&& s.logs@.len() == 0
    &&& !s.log_dirty
    &&& !s.status_pending
    &&& s.pending_selection == 0
    &&& !s.selection_failed
    &&& s.run == (Run {
        running: false,
        applying: false,
        extracting: false,
        close_after: false,
        planned: 0,
    })
    &&& s.paging.page == 0
    &&& s.paging.page_starts@ == seq![0i64]
    &&& s.paging.filter is None
    &&& s.generations == (Generations { extract: 0, page: 0, state: 0 })
    &&& s.engine_overrides is None
}

pub(crate) fn first_page() -> (r: Vec<i64>)
    ensures
        r@ == seq![0i64],
{
    let mut v: Vec<i64> = Vec::new();
    v.push(0);
    assert(v@ =~= seq![0i64]);
    v
}

/// The state at the start: the table of rules, the tools, and rules that nobody changed.
pub fn initial_state(specs: Vec<RuleSpec>, tools: Vec<ToolInfo>) -> (r: State)
    ensures
        is_initial(r, specs, tools),
{
    State {
        config: Config::default(),
        specs,
        tools,
        section: "去重".to_owned(),
        show_advanced: false,
        tool: Tool::Organizer,
        task: None,
        logs: VecDeque::new(),
        log_dirty: false,
        status_pending: false,
        pending_selection: 0,
        selection_failed: false,
        run: Run {
            running: false,
            applying: false,
            extracting: false,
            close_after: false,
            planned: 0,
        },
        paging: Paging { page: 0, page_starts: first_page(), filter: None },
        generations: Generations { extract: 0, page: 0, state: 0 },
        engine_overrides: None,
    }
}

/// Requests are numbered one after the other, so that two that follow each other never have
/// the same number.
pub proof fn law_requests_are_numbered(n: u64)
    ensures
        next(n) != n,
        n < u64::MAX ==> next(n) == n + 1,
        next(u64::MAX) == 0,
{
}

/// Every request gets a new number for its snapshot; only one for a page gets a new one for
/// its page. Nothing else of the state changes.
pub proof fn law_what_a_request_counts(s: State, page: bool)
    ensures
        counted(s, page).generations.state == next(s.generations.state),
        counted(s, true).generations.page == next(s.generations.page),
        counted(s, false).generations.page == s.generations.page,
        counted(s, page).generations.extract == s.generations.extract,
        counted(s, page).config == s.config && counted(s, page).task == s.task && counted(
            s,
            page,
        ).paging == s.paging && counted(s, page).run == s.run,
{
}

/// A log keeps all lines in their order, until the oldest has to go.
pub proof fn law_lines_stay_in_the_log(logs: Seq<String>, line: String, i: int)
    requires
        0 <= i < logs.len(),
    ensures
        logs.len() < 300 ==> logged(logs, line).len() == logs.len() + 1 && logged(logs, line)[i]
            == logs[i],
        logs.len() >= 300 && i > 0 ==> logged(logs, line).len() == logs.len() && logged(
            logs,
            line,
        )[i - 1] == logs[i],
        newest_first(logs)[0] == logs.last()@,
        newest_first(logs)[logs.len() - 1 - i] == logs[i]@,
        newest_first(logs).len() == logs.len(),
{
}

/// What waits is shown by its selection; a state that was reached is shown as it is.
pub proof fn law_how_states_are_shown(stored: Seq<char>)
    ensures
        row_state(true, "pending"@) == "待执行"@,
        row_state(false, "pending"@) == "已取消勾选"@,
        row_state(true, "unselected"@) == "待执行"@,
        row_state(false, "unselected"@) == "已取消勾选"@,
        stored != "pending"@ && stored != "unselected"@ && stored != "待执行"@ && stored
            != "已取消勾选"@ ==> row_state(true, stored) == stored && row_state(false, stored)
            == stored,
        row_state(true, row_state(false, "pending"@)) == "待执行"@,
        row_state(false, row_state(true, "pending"@)) == "已取消勾选"@,
{
}

/// An answer carries the numbers of its request; without a snapshot there is none in it.
pub proof fn law_answers_carry_their_numbers(events: Seq<Event>, l: PlanLoad, loaded: PlanLoaded)
    requires
        answers(events, l, loaded),
    ensures
        events.len() >= 1,
        l.query.page is None ==> events.len() == 1 && (events[0] matches Event::PlanState(
            task,
            g,
            snap,
        ) && task == l.task && g == l.state_generation && (loaded is Failed <==> snap is None)),
        l.query.page is Some && loaded is Failed ==> (events.last() matches Event::PlanLoadFailed(
            e,
            g,
            f,
        ) && g == l.page_generation && e == loaded->Failed_0),
        l.query.page is Some && loaded is Page ==> (events[0] matches Event::PlanPage(
            task,
            rows,
            k,
            g,
            f,
            sg,
            snap,
        ) && g == l.page_generation && sg == l.state_generation && k == l.query.page->0.page
            && snap is Some && rows == loaded->Page_1),
{
}

/// A request carries the numbers that the state has after it; one that asks for no page has
/// none for a page.
pub proof fn law_requests_carry_their_numbers(l: PlanLoad, s: State, task: Seq<char>, directory: Seq<char>)
    requires
        is_load(l, s, task, directory),
    ensures
        l.task@ == task && l.directory@ == directory,
        l.state_generation == counted(s, l.query.page is Some).generations.state,
        l.query.page is Some ==> l.page_generation == counted(s, true).generations.page,
        l.query.page is None ==> l.page_generation == 0,
{
}

} // verus!
