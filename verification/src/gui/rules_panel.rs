//! The rules as rows of a panel: which are shown, and what each shows.

use crate::config;
use crate::config::{Config, DeleteChoice, Setting, SettingView};
use crate::text;
use vstd::prelude::*;

verus! {

/// The tools of the window.
#[derive(Clone, Copy, Debug, PartialEq, Eq, Structural)]
pub enum Tool {
    Extract,
    Organizer,
}

/// The groups of rules of a tool, in order.
pub open spec fn sections_of(tool: Tool) -> Seq<Seq<char>> {
    match tool {
        Tool::Extract => seq!["解压"@, "安全与性能"@],
        Tool::Organizer => seq!["去重"@, "归类"@, "清理"@, "安全与性能"@],
    }
}

/// The tool with the given name.
pub open spec fn tool_named(id: Seq<char>) -> Option<Tool> {
    if id == "recursive-extract"@ {
        Some(Tool::Extract)
    } else if id == "directory-organizer"@ {
        Some(Tool::Organizer)
    } else {
        None
    }
}

/// The word for a tool in the table of rules.
pub open spec fn tool_word(tool: Tool) -> Seq<char> {
    match tool {
        Tool::Extract => "extract"@,
        Tool::Organizer => "organizer"@,
    }
}

impl Tool {
    /// The groups of rules of the tool.
    pub fn sections(self) -> (r: Vec<String>)
        ensures
            text::texts(r@) == sections_of(self),
    {
        let mut v: Vec<String> = Vec::new();
        match self {
            Tool::Extract => {
                v.push("解压".to_owned());
                v.push("安全与性能".to_owned());
            },
            Tool::Organizer => {
                v.push("去重".to_owned());
                v.push("归类".to_owned());
                v.push("清理".to_owned());
                v.push("安全与性能".to_owned());
            },
        }
        assert(text::texts(v@) =~= sections_of(self));
        v
    }

    /// The tool with the given name.
    pub fn from_id(id: &str) -> (r: Option<Tool>)
        ensures
            r == tool_named(id@),
    {
        if text::same(id, "recursive-extract") {
            Some(Tool::Extract)
        } else if text::same(id, "directory-organizer") {
            Some(Tool::Organizer)
        } else {
            None
        }
    }

    fn word(self) -> (r: &'static str)
        ensures
            r@ == tool_word(self),
    {
        match self {
            Tool::Extract => "extract",
            Tool::Organizer => "organizer",
        }
    }
}

/// Whether a rule is always shown, or only among the advanced ones.
#[derive(Clone, Copy, Debug, PartialEq, Eq, Structural)]
pub enum Tier {
    Basic,
    Advanced,
}

/// The tools of a rule that names none: all of them.
pub fn default_tools() -> (r: Vec<String>)
    ensures
        text::texts(r@) == seq!["extract"@, "organizer"@],
{
    let mut v: Vec<String> = Vec::new();
    v.push("extract".to_owned());
    v.push("organizer".to_owned());
    assert(text::texts(v@) =~= seq!["extract"@, "organizer"@]);
    v
}

/// A row of the table of rules.
#[derive(Debug)]
pub struct RuleSpec {
    pub section: String,
    pub key: String,
    pub title: String,
    pub hint: String,
    pub kind: String,
    /// The choices: name, label, and a hint of its own where there is one.
    pub choices: Vec<Vec<String>>,
    pub tier: Tier,
    pub tools: Vec<String>,
    /// What the number counts, where it is an amount.
    pub unit: Option<String>,
}

/// Every choice has a name and a label.
pub open spec fn well_formed(spec: RuleSpec) -> bool {
    forall|i: int| 0 <= i < spec.choices@.len() ==> (#[trigger] spec.choices@[i])@.len() >= 2
}

/// Every row of a table is well formed.
pub open spec fn all_well_formed(specs: Seq<RuleSpec>) -> bool {
    forall|i: int| 0 <= i < specs.len() ==> well_formed(#[trigger] specs[i])
}

/// The first choice with the given name, from number `i` on.
pub open spec fn choice_at(choices: Seq<Vec<String>>, name: Seq<char>, i: int) -> Option<int>
    decreases choices.len() - i,
{
    if i < 0 || i >= choices.len() {
        None
    } else if choices[i]@[0]@ == name {
        Some(i)
    } else {
        choice_at(choices, name, i + 1)
    }
}

/// The choice that a value names.
pub open spec fn chosen(spec: RuleSpec, value: SettingView) -> Option<int> {
    match value {
        SettingView::Text(s) => choice_at(spec.choices@, s, 0),
        _ => None,
    }
}

/// The hint of a rule with a value: that of the choice, where it has one.
pub open spec fn hint_of(spec: RuleSpec, value: SettingView) -> Seq<char> {
    match chosen(spec, value) {
        Some(i) => if spec.kind@ == "choice"@ && spec.choices@[i]@.len() > 2 {
            spec.choices@[i]@[2]@
        } else {
            spec.hint@
        },
        None => spec.hint@,
    }
}

/// A value as text.
pub open spec fn value_text(value: SettingView) -> Seq<char> {
    match value {
        SettingView::Bool(b) => if b {
            "true"@
        } else {
            "false"@
        },
        SettingView::Number(n) => text::decimal(n as nat),
        SettingView::Text(s) => s,
        SettingView::Other => "null"@,
    }
}

/// A rule as it is shown.
#[derive(Debug)]
pub struct RuleRow {
    pub key: String,
    pub title: String,
    pub hint: String,
    /// A switch, a choice, or a field.
    pub kind: i32,
    pub checked: bool,
    pub index: i32,
    pub options: Vec<String>,
    pub value: String,
}

/// What a row shows.
pub struct RowView {
    pub key: Seq<char>,
    pub title: Seq<char>,
    pub hint: Seq<char>,
    pub kind: i32,
    pub checked: bool,
    pub index: i32,
    pub options: Seq<Seq<char>>,
    pub value: Seq<char>,
}

impl View for RuleRow {
    type V = RowView;

    open spec fn view(&self) -> RowView {
        RowView {
            key: self.key@,
            title: self.title@,
            hint: self.hint@,
            kind: self.kind,
            checked: self.checked,
            index: self.index,
            options: text::texts(self.options@),
            value: self.value@,
        }
    }
}

/// The labels of the choices.
pub open spec fn labels(choices: Seq<Vec<String>>) -> Seq<Seq<char>> {
    Seq::new(choices.len(), |i: int| choices[i]@[1]@)
}

/// The row of a rule.
pub open spec fn row_of(spec: RuleSpec, c: Config) -> RowView {
    let value = config::setting_of(c, spec.key@);
    RowView {
        key: spec.key@,
        title: spec.title@,
        hint: hint_of(spec, value),
        kind: if spec.kind@ == "bool"@ {
            0
        } else if spec.kind@ == "choice"@ {
            1
        } else {
            2
        },
        checked: value == SettingView::Bool(true),
        index: match chosen(spec, value) {
            Some(i) => if i <= i32::MAX {
                i as i32
            } else {
                0
            },
            None => 0,
        },
        options: labels(spec.choices@),
        value: value_text(value),
    }
}

fn find_choice(spec: &RuleSpec, value: &Setting) -> (r: Option<usize>)
    requires
        well_formed(*spec),
    ensures
        match r {
            Some(i) => chosen(*spec, value@) == Some(i as int) && i < spec.choices@.len(),
            None => chosen(*spec, value@) is None,
        },
{
    match value {
        Setting::Text(s) => {
            let n: usize = spec.choices.len();
            let mut i: usize = 0;
            while i < n
                invariant
                    well_formed(*spec),
                    value@ == SettingView::Text(s@),
                    n == spec.choices@.len(),
                    i <= n,
                    choice_at(spec.choices@, s@, 0) == choice_at(spec.choices@, s@, i as int),
                decreases n - i,
            {
                if text::same(spec.choices[i][0].as_str(), s.as_str()) {
                    return Some(i);
                }
                i = i + 1;
            }
            None
        },
        _ => None,
    }
}

/// The hint of a rule with a value.
pub fn hint_for(spec: &RuleSpec, value: &Setting) -> (r: String)
    requires
        well_formed(*spec),
    ensures
        r@ == hint_of(*spec, value@),
{
    if text::same(spec.kind.as_str(), "choice") {
        if let Some(i) = find_choice(spec, value) {
            if spec.choices[i].len() > 2 {
                return spec.choices[i][2].clone();
            }
        }
    }
    spec.hint.clone()
}

fn shown_value(value: &Setting) -> (r: String)
    ensures
        r@ == value_text(value@),
{
    match value {
        Setting::Bool(b) => if *b {
            "true".to_owned()
        } else {
            "false".to_owned()
        },
        Setting::Number(n) => text::number(*n),
        Setting::Text(s) => s.clone(),
        Setting::Other => "null".to_owned(),
    }
}

fn shown_labels(choices: &Vec<Vec<String>>) -> (r: Vec<String>)
    requires
        forall|i: int| 0 <= i < choices@.len() ==> (#[trigger] choices@[i])@.len() >= 2,
    ensures
        text::texts(r@) == labels(choices@),
{
    let mut v: Vec<String> = Vec::new();
    let mut i: usize = 0;
    assert(text::texts(v@) =~= labels(choices@).take(0));
    while i < choices.len()
        invariant
            i <= choices@.len(),
            forall|k: int| 0 <= k < choices@.len() ==> (#[trigger] choices@[k])@.len() >= 2,
            text::texts(v@) == labels(choices@).take(i as int),
        decreases choices.len() - i,
    {
        let label = choices[i][1].clone();
        proof {
            text::texts_push(v@, label);
            assert(labels(choices@).take(i + 1) =~= labels(choices@).take(i as int).push(label@));
        }
        v.push(label);
        i = i + 1;
    }
    assert(labels(choices@).take(i as int) =~= labels(choices@));
    v
}

/// The row of a rule.
pub fn rule_row(spec: &RuleSpec, config: &Config) -> (r: RuleRow)
    requires
        well_formed(*spec),
    ensures
        r@ == row_of(*spec, *config),
{
    let value = config.get_json(spec.key.as_str());
    let checked: bool = match &value {
        Setting::Bool(b) => *b,
        _ => false,
    };
    let index: i32 = match find_choice(spec, &value) {
        Some(i) => if i <= 0x7fff_ffff {
            i as i32
        } else {
            0
        },
        None => 0,
    };
    let kind: i32 = if text::same(spec.kind.as_str(), "bool") {
        0
    } else if text::same(spec.kind.as_str(), "choice") {
        1
    } else {
        2
    };
    RuleRow {
        key: spec.key.clone(),
        title: spec.title.clone(),
        hint: hint_for(spec, &value),
        kind,
        checked,
        index,
        options: shown_labels(&spec.choices),
        value: shown_value(&value),
    }
}

/// The size from which on a file is large, before the user changes it.
pub const DEFAULT_LARGE: u64 = 0x4000_0000;

/// A rule is shown: an advanced one only on request, and one that depends on a switch
/// only while the switch is on or the rule was changed, so that it can be changed back.
pub open spec fn is_visible(key: Seq<char>, tier: Tier, c: Config, show_advanced: bool) -> bool {
    (show_advanced || tier == Tier::Basic) && (if key == "large_threshold_bytes"@ {
        c.large_files || c.large_threshold_bytes != DEFAULT_LARGE
    } else if key == "junk_delete"@ {
        c.clean_junk || c.junk_delete != DeleteChoice::Global
    } else if key == "temp_delete"@ {
        c.clean_temp || c.temp_delete != DeleteChoice::Global
    } else if key == "zero_delete"@ {
        c.clean_zero || c.zero_delete != DeleteChoice::Global
    } else {
        true
    })
}

/// Whether a rule is shown.
pub fn rule_visible(spec: &RuleSpec, config: &Config, show_advanced: bool) -> (r: bool)
    ensures
        r == is_visible(spec.key@, spec.tier, *config, show_advanced),
{
    if !show_advanced && spec.tier == Tier::Advanced {
        return false;
    }
    let key = spec.key.as_str();
    if text::same(key, "large_threshold_bytes") {
        config.large_files || config.large_threshold_bytes != DEFAULT_LARGE
    } else if text::same(key, "junk_delete") {
        config.clean_junk || config.junk_delete != DeleteChoice::Global
    } else if text::same(key, "temp_delete") {
        config.clean_temp || config.temp_delete != DeleteChoice::Global
    } else if text::same(key, "zero_delete") {
        config.clean_zero || config.zero_delete != DeleteChoice::Global
    } else {
        true
    }
}

/// A rule with a value of its own stays in sight whatever its switch says.
pub proof fn law_changed_rules_stay_visible(c: Config, on: bool)
    requires
        c.junk_delete != DeleteChoice::Global,
        c.temp_delete != DeleteChoice::Global,
        c.zero_delete != DeleteChoice::Global,
        c.large_threshold_bytes != DEFAULT_LARGE,
    ensures
        is_visible(
            "junk_delete"@,
            Tier::Basic,
            (Config { clean_junk: on, ..c }),
            false,
        ),
        is_visible("temp_delete"@, Tier::Basic, (Config { clean_temp: on, ..c }), false),
        is_visible("zero_delete"@, Tier::Basic, (Config { clean_zero: on, ..c }), false),
        is_visible(
            "large_threshold_bytes"@,
            Tier::Advanced,
            (Config { large_files: on, ..c }),
            true,
        ),
{
    reveal_strlit("junk_delete");
    reveal_strlit("temp_delete");
    reveal_strlit("zero_delete");
    reveal_strlit("large_threshold_bytes");
    assert("junk_delete"@[0] != "large_threshold_bytes"@[0]);
    assert("temp_delete"@[0] != "large_threshold_bytes"@[0]);
    assert("temp_delete"@[0] != "junk_delete"@[0]);
    assert("zero_delete"@[0] != "large_threshold_bytes"@[0]);
    assert("zero_delete"@[0] != "junk_delete"@[0]);
    assert("zero_delete"@[0] != "temp_delete"@[0]);
}

/// What decides which rules a panel shows.
#[derive(Clone, Copy, Debug, PartialEq, Eq, Structural)]
pub struct PanelView {
    pub tool: Tool,
    pub show_advanced: bool,
}

/// A rule is part of a panel.
pub open spec fn in_panel(spec: RuleSpec, section: Seq<char>, p: PanelView, c: Config) -> bool {
    spec.section@ == section && text::texts(spec.tools@).contains(tool_word(p.tool)) && is_visible(
        spec.key@,
        spec.tier,
        c,
        p.show_advanced,
    )
}

/// The rows of a panel.
pub open spec fn panel_rows(
    specs: Seq<RuleSpec>,
    section: Seq<char>,
    p: PanelView,
    c: Config,
) -> Seq<RowView>
    decreases specs.len(),
{
    if specs.len() == 0 {
        Seq::empty()
    } else {
        let before = panel_rows(specs.drop_last(), section, p, c);
        if in_panel(specs.last(), section, p, c) {
            before.push(row_of(specs.last(), c))
        } else {
            before
        }
    }
}

/// The views of rows.
pub open spec fn row_views(rows: Seq<RuleRow>) -> Seq<RowView> {
    rows.map_values(|r: RuleRow| r@)
}

fn listed(list: &Vec<String>, s: &str) -> (r: bool)
    ensures
        r == text::texts(list@).contains(s@),
{
    let ghost all = text::texts(list@);
    let mut i: usize = 0;
    while i < list.len()
        invariant
            i <= list@.len(),
            all == text::texts(list@),
            forall|k: int| 0 <= k < i ==> all[k] != s@,
        decreases list.len() - i,
    {
        assert(all[i as int] == list@[i as int]@);
        if text::same(list[i].as_str(), s) {
            return true;
        }
        i = i + 1;
    }
    false
}

/// The rows of a panel: those of its group, of the tool, and in sight.
pub fn visible_rows(specs: &Vec<RuleSpec>, section: &str, panel: PanelView, config: &Config) -> (r:
    Vec<RuleRow>)
    requires
        all_well_formed(specs@),
    ensures
        row_views(r@) == panel_rows(specs@, section@, panel, *config),
{
    let mut rows: Vec<RuleRow> = Vec::new();
    let mut i: usize = 0;
    assert(row_views(rows@) =~= Seq::<RowView>::empty());
    while i < specs.len()
        invariant
            all_well_formed(specs@),
            i <= specs@.len(),
            row_views(rows@) == panel_rows(specs@.take(i as int), section@, panel, *config),
        decreases specs.len() - i,
    {
        let spec = &specs[i];
        proof {
            assert(specs@.take(i + 1).drop_last() =~= specs@.take(i as int));
            assert(specs@.take(i + 1).last() == *spec);
        }
        if text::same(spec.section.as_str(), section) && listed(&spec.tools, panel.tool.word())
            && rule_visible(spec, config, panel.show_advanced) {
            let row = rule_row(spec, config);
            let ghost before = rows@;
            rows.push(row);
            assert(row_views(rows@) =~= row_views(before).push(row@));
        }
        i = i + 1;
    }
    assert(specs@.take(i as int) =~= specs@);
    rows
}

/// Rows that follow wanted rows, from the front: a row that is there already stays as it
/// is, one in front of it that is not wanted goes, and one that is missing is put in.
pub open spec fn merged(rows: Seq<RowView>, wanted: Seq<RowView>) -> Seq<RowView>
    decreases wanted.len(),
{
    if wanted.len() == 0 {
        Seq::empty()
    } else if rows.len() > 0 && rows[0].key == wanted[0].key {
        seq![rows[0]] + merged(rows.skip(1), wanted.skip(1))
    } else if rows.len() > 1 && rows[1].key == wanted[0].key {
        seq![rows[1]] + merged(rows.skip(2), wanted.skip(1))
    } else {
        seq![wanted[0]] + merged(rows, wanted.skip(1))
    }
}

fn copy_texts(v: &Vec<String>) -> (r: Vec<String>)
    ensures
        text::texts(r@) == text::texts(v@),
{
    let mut r: Vec<String> = Vec::new();
    let mut i: usize = 0;
    assert(text::texts(r@) =~= text::texts(v@).take(0));
    while i < v.len()
        invariant
            i <= v@.len(),
            text::texts(r@) == text::texts(v@).take(i as int),
        decreases v.len() - i,
    {
        let s = v[i].clone();
        proof {
            text::texts_push(r@, s);
            assert(text::texts(v@).take(i + 1) =~= text::texts(v@).take(i as int).push(s@));
        }
        r.push(s);
        i = i + 1;
    }
    assert(text::texts(v@).take(i as int) =~= text::texts(v@));
    r
}

fn copy_row(row: &RuleRow) -> (r: RuleRow)
    ensures
        r@ == row@,
{
    RuleRow {
        key: row.key.clone(),
        title: row.title.clone(),
        hint: row.hint.clone(),
        kind: row.kind,
        checked: row.checked,
        index: row.index,
        options: copy_texts(&row.options),
        value: row.value.clone(),
    }
}

/// Makes rows follow wanted rows without building them anew: a row that stays is not
/// touched.
pub fn sync_rules(rows: &mut Vec<RuleRow>, wanted: &Vec<RuleRow>)
    ensures
        row_views(final(rows)@) == merged(row_views(old(rows)@), row_views(wanted@)),
{
    let ghost all = row_views(wanted@);
    let ghost first = row_views(rows@);
    let ghost mut rest = first;
    let n: usize = wanted.len();
    let mut index: usize = 0;
    proof {
        assert(rows@.skip(0) =~= rows@);
        assert(all.skip(0) =~= all);
        assert(row_views(rows@.take(0)) + merged(rest, all.skip(0)) =~= merged(first, all));
    }
    while index < n
        invariant
            n == wanted@.len(),
            index <= n,
            index <= rows@.len(),
            all == row_views(wanted@),
            rest == row_views(rows@.skip(index as int)),
            row_views(rows@.take(index as int)) + merged(rest, all.skip(index as int)) == merged(
                first,
                all,
            ),
        decreases n - index,
    {
        let ghost before = rows@;
        let ghost done = row_views(rows@.take(index as int));
        let key = wanted[index].key.as_str();
        let ghost w = all.skip(index as int);
        let len: usize = rows.len();
        proof {
            assert(w[0] == wanted@[index as int]@);
            assert(w.skip(1) =~= all.skip(index + 1));
            assert(rest.len() == before.len() - index);
            if index < len {
                assert(rest[0] == before[index as int]@);
            }
            if len - index > 1 {
                assert(rest[1] == before[index + 1]@);
            }
        }
        if index < len && text::same(rows[index].key.as_str(), key) {
            proof {
                rest = row_views(rows@.skip(index + 1));
                assert(rest =~= row_views(before.skip(index as int)).skip(1));
                assert(row_views(rows@.take(index + 1)) =~= done.push(before[index as int]@));
            }
        } else if len - index > 1 && text::same(rows[index + 1].key.as_str(), key) {
            let _ = rows.remove(index);
            proof {
                rest = row_views(rows@.skip(index + 1));
                assert(rest =~= row_views(before.skip(index as int)).skip(2));
                assert(row_views(rows@.take(index + 1)) =~= done.push(before[index + 1]@));
            }
        } else {
            rows.insert(index, copy_row(&wanted[index]));
            proof {
                assert(row_views(rows@.skip(index + 1)) =~= rest);
                rest = row_views(rows@.skip(index + 1));
                assert(row_views(rows@.take(index + 1)) =~= done.push(w[0]));
            }
        }
        proof {
            let now = row_views(rows@.take(index + 1));
            assert(now + merged(rest, w.skip(1)) =~= done + (seq![now.last()] + merged(
                rest,
                w.skip(1),
            )));
        }
        index = index + 1;
    }
    assert(merged(rest, all.skip(index as int)) =~= Seq::<RowView>::empty());
    rows.truncate(index);
    assert(row_views(rows@) =~= merged(first, all));
}

/// Once rows follow wanted rows they are these, in this order.
pub proof fn law_rows_follow(rows: Seq<RowView>, wanted: Seq<RowView>)
    ensures
        merged(rows, wanted).len() == wanted.len(),
        forall|i: int|
            0 <= i < wanted.len() ==> (#[trigger] merged(rows, wanted)[i]).key == wanted[i].key,
    decreases wanted.len(),
{
    if wanted.len() > 0 {
        let rest = if rows.len() > 0 && rows[0].key == wanted[0].key {
            rows.skip(1)
        } else if rows.len() > 1 && rows[1].key == wanted[0].key {
            rows.skip(2)
        } else {
            rows
        };
        law_rows_follow(rest, wanted.skip(1));
        assert forall|i: int| 0 <= i < wanted.len() implies (#[trigger] merged(
            rows,
            wanted,
        )[i]).key == wanted[i].key by {
            if i > 0 {
                assert(merged(rows, wanted)[i] == merged(rest, wanted.skip(1))[i - 1]);
            }
        }
    }
}

/// The rules that a row drives: the correction of extensions needs the detection of types.
pub open spec fn keys_of(key: Seq<char>) -> Seq<Seq<char>> {
    if key == "fix_extension"@ {
        seq!["fix_extension"@, "detect_type"@]
    } else {
        seq![key]
    }
}

/// The rules that a row drives.
pub fn group_keys(key: &str) -> (r: Vec<String>)
    ensures
        text::texts(r@) == keys_of(key@),
{
    let mut v: Vec<String> = Vec::new();
    if text::same(key, "fix_extension") {
        v.push("fix_extension".to_owned());
        v.push("detect_type".to_owned());
    } else {
        v.push(key.to_owned());
    }
    assert(text::texts(v@) =~= keys_of(key@));
    v
}

/// A tool as the sidebar lists it.
#[derive(Debug)]
pub struct ToolInfo {
    pub id: String,
    pub name: String,
    pub summary: String,
}

/// All tools, by their places.
pub open spec fn all_tools(count: nat) -> Seq<usize> {
    Seq::new(count, |i: int| i as usize)
}

pub(crate) fn every_tool(tools: &Vec<ToolInfo>) -> (r: Vec<usize>)
    ensures
        r@ == all_tools(tools@.len()),
{
    let mut v: Vec<usize> = Vec::new();
    let mut i: usize = 0;
    while i < tools.len()
        invariant
            i <= tools@.len(),
            v@ == all_tools(i as nat),
        decreases tools.len() - i,
    {
        v.push(i);
        assert(v@ =~= all_tools((i + 1) as nat));
        i = i + 1;
    }
    v
}

/// What a search looks through.
pub open spec fn tool_text(t: ToolInfo) -> Seq<char> {
    t.name@ + " "@ + t.summary@
}

/// The numbers of the tools that match, of the first ones.
pub open spec fn matching(tools: Seq<ToolInfo>, query: Seq<char>) -> Seq<usize>
    decreases tools.len(),
{
    if tools.len() == 0 {
        Seq::empty()
    } else {
        let before = matching(tools.drop_last(), query);
        if text::has_text(text::folded(tool_text(tools.last())), text::folded(query)) {
            before.push((tools.len() - 1) as usize)
        } else {
            before
        }
    }
}

/// Searches the tools by name and description, whatever the case.
pub fn search_tools(tools: &Vec<ToolInfo>, query: &str) -> (r: Vec<usize>)
    ensures
        r@ == matching(tools@, query@),
{
    let wanted = text::fold(query);
    let mut out: Vec<usize> = Vec::new();
    let mut i: usize = 0;
    while i < tools.len()
        invariant
            i <= tools@.len(),
            wanted@ == text::folded(query@),
            out@ == matching(tools@.take(i as int), query@),
        decreases tools.len() - i,
    {
        assert(tools@.take(i + 1).drop_last() =~= tools@.take(i as int));
        let mut s = tools[i].name.clone();
        s.append(" ");
        s.append(tools[i].summary.as_str());
        let low = text::fold(s.as_str());
        if text::contains(low.as_str(), wanted.as_str()) {
            out.push(i);
        }
        i = i + 1;
    }
    assert(tools@.take(i as int) =~= tools@);
    out
}

/// The tools, their names and the groups of their rules.
pub proof fn law_tools_and_their_groups()
    ensures
        tool_named("recursive-extract"@) == Some(Tool::Extract),
        tool_named("directory-organizer"@) == Some(Tool::Organizer),
        sections_of(Tool::Extract).contains("解压"@),
        sections_of(Tool::Organizer).len() == 4,
        sections_of(Tool::Organizer)[0] == "去重"@,
        sections_of(Tool::Organizer)[1] == "归类"@,
        sections_of(Tool::Organizer)[2] == "清理"@,
        sections_of(Tool::Organizer)[3] == "安全与性能"@,
        sections_of(Tool::Extract) == seq!["解压"@, "安全与性能"@],
        tool_word(Tool::Extract) == "extract"@,
        tool_word(Tool::Organizer) == "organizer"@,
{
    reveal_strlit("recursive-extract");
    reveal_strlit("directory-organizer");
    assert("recursive-extract"@.len() == 17 && "directory-organizer"@.len() == 19);
    assert(sections_of(Tool::Extract)[0] == "解压"@);
}

/// The choice that a value names is the first with that name; a value that is no text names
/// none.
pub proof fn law_which_choice_is_named(spec: RuleSpec, name: Seq<char>, i: int)
    requires
        0 <= i <= spec.choices@.len(),
    ensures
        match choice_at(spec.choices@, name, i) {
            Some(k) => i <= k < spec.choices@.len() && spec.choices@[k]@[0]@ == name && forall|
                j: int,
            |
                i <= j < k ==> (#[trigger] spec.choices@[j])@[0]@ != name,
            None => forall|j: int|
                i <= j < spec.choices@.len() ==> (#[trigger] spec.choices@[j])@[0]@ != name,
        },
        chosen(spec, SettingView::Other) is None,
        chosen(spec, SettingView::Bool(true)) is None,
        chosen(spec, SettingView::Text(name)) == choice_at(spec.choices@, name, 0),
    decreases spec.choices@.len() - i,
{
    if i < spec.choices@.len() && spec.choices@[i]@[0]@ != name {
        law_which_choice_is_named(spec, name, i + 1);
    }
}

/// A row shows its rule: the key and title, a switch as it stands, the choice that is made,
/// with its own hint where it has one, and the value in words.
pub proof fn law_what_a_row_shows(spec: RuleSpec, c: Config)
    ensures
        ({
            let r = row_of(spec, c);
            let value = config::setting_of(c, spec.key@);
            &&& r.key == spec.key@ && r.title == spec.title@
            &&& value matches SettingView::Bool(b) ==> r.checked == b && r.hint == spec.hint@
            &&& !(value is Bool) ==> !r.checked
            &&& spec.kind@ == "bool"@ ==> r.kind == 0
            &&& spec.kind@ == "choice"@ ==> r.kind == 1
            &&& spec.kind@ != "bool"@ && spec.kind@ != "choice"@ ==> r.kind == 2
            &&& r.options.len() == spec.choices@.len()
            &&& forall|i: int|
                0 <= i < spec.choices@.len() ==> #[trigger] r.options[i] == spec.choices@[i]@[1]@
            &&& value matches SettingView::Text(s) ==> r.value == s
            &&& value matches SettingView::Number(n) ==> r.value == text::decimal(n as nat)
            &&& value matches SettingView::Bool(b) ==> r.value == (if b {
                "true"@
            } else {
                "false"@
            })
            &&& chosen(spec, value) matches Some(i) ==> (i <= i32::MAX ==> r.index == i) && (
            spec.kind@ == "choice"@ && spec.choices@[i]@.len() > 2 ==> r.hint
                == spec.choices@[i]@[2]@)
            &&& chosen(spec, value) is None ==> r.hint == spec.hint@ && r.index == 0
        }),
{
    reveal_strlit("bool");
    reveal_strlit("choice");
    assert("bool"@.len() == 4 && "choice"@.len() == 6);
    match config::setting_of(c, spec.key@) {
        SettingView::Text(s) => {
            law_which_choice_is_named(spec, s, 0);
        },
        _ => {},
    }
}

/// Advanced rules are in sight only on request; a rule of a switch only while the switch is
/// on or the rule was changed; all other rules always.
pub proof fn law_which_rules_are_in_sight(key: Seq<char>, c: Config, show: bool)
    ensures
        !is_visible(key, Tier::Advanced, c, false),
        is_visible(key, Tier::Advanced, c, true) == is_visible(key, Tier::Basic, c, show),
        key != "large_threshold_bytes"@ && key != "junk_delete"@ && key != "temp_delete"@ && key
            != "zero_delete"@ ==> is_visible(key, Tier::Basic, c, show),
        is_visible("large_threshold_bytes"@, Tier::Basic, c, show) <==> c.large_files
            || c.large_threshold_bytes != 1024 * 1024 * 1024,
        is_visible("junk_delete"@, Tier::Basic, c, show) <==> c.clean_junk || c.junk_delete
            != DeleteChoice::Global,
        is_visible("temp_delete"@, Tier::Basic, c, show) <==> c.clean_temp || c.temp_delete
            != DeleteChoice::Global,
        is_visible("zero_delete"@, Tier::Basic, c, show) <==> c.clean_zero || c.zero_delete
            != DeleteChoice::Global,
{
    reveal_strlit("large_threshold_bytes");
    reveal_strlit("junk_delete");
    reveal_strlit("temp_delete");
    reveal_strlit("zero_delete");
    assert("large_threshold_bytes"@.len() == 21);
    assert("junk_delete"@.len() == 11 && "temp_delete"@.len() == 11 && "zero_delete"@.len() == 11);
    assert("junk_delete"@[0] == 'j' && "temp_delete"@[0] == 't' && "zero_delete"@[0] == 'z');
}

/// A panel shows the rules of its group that the tool has and that are in sight, in the order
/// of the table, and no others.
pub proof fn law_which_rows_a_panel_has(
    specs: Seq<RuleSpec>,
    spec: RuleSpec,
    section: Seq<char>,
    p: PanelView,
    c: Config,
)
    ensures
        panel_rows(Seq::empty(), section, p, c).len() == 0,
        spec.section@ == section && text::texts(spec.tools@).contains(tool_word(p.tool))
            && is_visible(spec.key@, spec.tier, c, p.show_advanced) ==> panel_rows(
            specs.push(spec),
            section,
            p,
            c,
        ) == panel_rows(specs, section, p, c).push(row_of(spec, c)),
        spec.section@ != section || !text::texts(spec.tools@).contains(tool_word(p.tool))
            || !is_visible(spec.key@, spec.tier, c, p.show_advanced) ==> panel_rows(
            specs.push(spec),
            section,
            p,
            c,
        ) == panel_rows(specs, section, p, c),
{
    assert(specs.push(spec).drop_last() =~= specs);
}

/// A row that was there in its place keeps what it shows.
pub proof fn law_rows_that_stay_are_kept(rows: Seq<RowView>, wanted: Seq<RowView>)
    requires
        rows.len() > 0,
        wanted.len() > 0,
        rows[0].key == wanted[0].key,
    ensures
        merged(rows, wanted)[0] == rows[0],
        merged(rows, wanted).skip(1) == merged(rows.skip(1), wanted.skip(1)),
{
    assert(merged(rows, wanted).skip(1) =~= merged(rows.skip(1), wanted.skip(1)));
}

/// A search lists the tools whose name or description holds the words, whatever the case, in
/// their order.
pub proof fn law_which_tools_are_found(tools: Seq<ToolInfo>, query: Seq<char>, i: usize)
    requires
        tools.len() <= usize::MAX,
    ensures
        matching(tools, query).contains(i) <==> i < tools.len() && text::has_text(
            text::folded(tools[i as int].name@ + " "@ + tools[i as int].summary@),
            text::folded(query),
        ),
        forall|a: int, b: int|
            0 <= a < b < matching(tools, query).len() ==> #[trigger] matching(tools, query)[a]
                < #[trigger] matching(tools, query)[b],
        forall|a: int|
            0 <= a < matching(tools, query).len() ==> (#[trigger] matching(tools, query)[a])
                < tools.len(),
    decreases tools.len(),
{
    if tools.len() > 0 {
        let less = tools.drop_last();
        let before = matching(less, query);
        let now = matching(tools, query);
        law_which_tools_are_found(less, query, i);
        let last = (tools.len() - 1) as usize;
        if before.contains(i) {
            let t = choose|t: int| 0 <= t < before.len() && before[t] == i;
            assert(now[t] == i);
        }
        if now.contains(i) && !before.contains(i) {
            let t = choose|t: int| 0 <= t < now.len() && now[t] == i;
            if t < before.len() {
                assert(before[t] == i);
            }
        }
        if now.len() > before.len() {
            assert(now[before.len() as int] == last);
        }
    }
}

} // verus!
