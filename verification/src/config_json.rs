//! The rules as a JSON text.

use crate::config;
use crate::config::{Config, Rule, Setting, SettingError, SettingView};
use crate::json;
use crate::json::{Json, JsonView};
use crate::text;
use vstd::prelude::*;

verus! {

/// How many rules there are.
pub const RULE_COUNT: usize = 27;

/// The name of the rule in a place: the order of the rules is fixed.
pub open spec fn key_at(i: int) -> Seq<char> {
    if i == 0 {
        "recursive"@
    } else if i == 1 {
        "include_hidden"@
    } else if i == 2 {
        "include_system"@
    } else if i == 3 {
        "exclusions"@
    } else if i == 4 {
        "max_depth"@
    } else if i == 5 {
        "max_entries"@
    } else if i == 6 {
        "max_ratio"@
    } else if i == 7 {
        "reserve_bytes"@
    } else if i == 8 {
        "dedup_same_name"@
    } else if i == 9 {
        "dedup_copy_names"@
    } else if i == 10 {
        "dedup_other_names"@
    } else if i == 11 {
        "keep_duplicate"@
    } else if i == 12 {
        "large_files"@
    } else if i == 13 {
        "large_threshold_bytes"@
    } else if i == 14 {
        "clean_junk"@
    } else if i == 15 {
        "junk_delete"@
    } else if i == 16 {
        "clean_temp"@
    } else if i == 17 {
        "temp_delete"@
    } else if i == 18 {
        "clean_zero"@
    } else if i == 19 {
        "zero_delete"@
    } else if i == 20 {
        "clean_copy_name"@
    } else if i == 21 {
        "normalize_names"@
    } else if i == 22 {
        "detect_type"@
    } else if i == 23 {
        "fix_extension"@
    } else if i == 24 {
        "global_delete"@
    } else if i == 25 {
        "hash_workers"@
    } else if i == 26 {
        "theme"@
    } else {
        ""@
    }
}

/// The name of the rule in a place.
pub fn rule_key(i: usize) -> (r: &'static str)
    ensures
        r@ == key_at(i as int),
{
    match i {
        0 => "recursive",
        1 => "include_hidden",
        2 => "include_system",
        3 => "exclusions",
        4 => "max_depth",
        5 => "max_entries",
        6 => "max_ratio",
        7 => "reserve_bytes",
        8 => "dedup_same_name",
        9 => "dedup_copy_names",
        10 => "dedup_other_names",
        11 => "keep_duplicate",
        12 => "large_files",
        13 => "large_threshold_bytes",
        14 => "clean_junk",
        15 => "junk_delete",
        16 => "clean_temp",
        17 => "temp_delete",
        18 => "clean_zero",
        19 => "zero_delete",
        20 => "clean_copy_name",
        21 => "normalize_names",
        22 => "detect_type",
        23 => "fix_extension",
        24 => "global_delete",
        25 => "hash_workers",
        26 => "theme",
        _ => "",
    }
}

/// A rule whose value is one of some words.
pub open spec fn takes_word(key: Seq<char>) -> bool {
    key == "keep_duplicate"@ || config::is_delete_key(key)
}

/// The value of a rule in a JSON text. A word may also be the only key of an object, with
/// nothing beside it.
pub open spec fn json_setting(key: Seq<char>, j: JsonView) -> SettingView {
    match j {
        JsonView::Bool(b) => SettingView::Bool(b),
        JsonView::Number(Some(n)) => SettingView::Number(n),
        JsonView::Text(s) => SettingView::Text(s),
        JsonView::Object(m) => if takes_word(key) && m.len() == 1 && m[0].1 is Null && m[0].0
            != "recycle"@ {
            SettingView::Text(m[0].0)
        } else {
            SettingView::Other
        },
        _ => SettingView::Other,
    }
}

/// The value of a rule in a JSON list, where the recycle bin is no word.
pub open spec fn listed_setting(key: Seq<char>, j: JsonView) -> SettingView {
    if config::is_delete_key(key) && j == JsonView::Text("recycle"@) {
        SettingView::Other
    } else {
        json_setting(key, j)
    }
}

/// The fields are what a JSON value says of the rules: an object names them, a list gives
/// them in their order.
pub open spec fn fields_from(j: JsonView, fields: Seq<(String, Setting)>) -> bool {
    match j {
        JsonView::Object(m) => {
            &&& fields.len() == m.len()
            &&& forall|i: int|
                #![trigger fields[i]]
                0 <= i < m.len() ==> fields[i].0@ == m[i].0 && fields[i].1@ == json_setting(
                    m[i].0,
                    m[i].1,
                )
        },
        JsonView::List(v) => {
            &&& v.len() <= RULE_COUNT
            &&& fields.len() == v.len()
            &&& forall|i: int|
                #![trigger fields[i]]
                0 <= i < v.len() ==> fields[i].0@ == key_at(i) && fields[i].1@ == listed_setting(
                    key_at(i),
                    v[i],
                )
        },
        _ => false,
    }
}

/// A JSON value that can hold the rules.
pub open spec fn holds_rules(j: JsonView) -> bool {
    match j {
        JsonView::Object(_) => true,
        JsonView::List(v) => v.len() <= RULE_COUNT,
        _ => false,
    }
}

/// The text without the byte order mark that some editors write before it.
pub open spec fn without_mark(s: Seq<char>) -> Seq<char> {
    if s.len() > 0 && s[0] == '\u{FEFF}' {
        s.skip(1)
    } else {
        s
    }
}

/// Why a configuration was not read.
#[derive(Clone, Copy, Debug, PartialEq, Eq, Structural)]
pub enum ReadError {
    /// The text is no JSON.
    NotJson,
    /// It is JSON that holds no rules.
    NoRules,
    /// A rule was not set.
    Setting(SettingError),
}

fn word_rule(key: &str) -> (r: bool)
    ensures
        r == takes_word(key@),
{
    text::same(key, "keep_duplicate") || delete_rule(key)
}

fn delete_rule(key: &str) -> (r: bool)
    ensures
        r == config::is_delete_key(key@),
{
    text::same(key, "global_delete") || text::same(key, "junk_delete") || text::same(
        key,
        "temp_delete",
    ) || text::same(key, "zero_delete")
}

/// The value of a rule.
fn setting_from(key: &str, j: &Json) -> (r: Setting)
    ensures
        r@ == json_setting(key@, json::json_view(*j)),
{
    match j {
        Json::Bool(b) => Setting::Bool(*b),
        Json::Number(Some(n)) => Setting::Number(*n),
        Json::Text(s) => Setting::Text(s.as_str().to_owned()),
        Json::Object(m) => {
            proof {
                json::member_view_at(m@, m@.len());
            }
            if !word_rule(key) || m.len() != 1 {
                return Setting::Other;
            }
            match m[0].1 {
                Json::Null => if text::same(m[0].0.as_str(), "recycle") {
                    Setting::Other
                } else {
                    Setting::Text(m[0].0.as_str().to_owned())
                },
                _ => Setting::Other,
            }
        },
        _ => Setting::Other,
    }
}

/// The value of a rule in a list.
fn listed_from(key: &str, j: &Json) -> (r: Setting)
    ensures
        r@ == listed_setting(key@, json::json_view(*j)),
{
    match j {
        Json::Text(s) => if delete_rule(key) && text::same(s.as_str(), "recycle") {
            Setting::Other
        } else {
            Setting::Text(s.as_str().to_owned())
        },
        _ => setting_from(key, j),
    }
}

/// What a JSON value says of the rules.
pub fn fields_of(j: &Json) -> (r: Option<Vec<(String, Setting)>>)
    ensures
        match r {
            Some(fields) => fields_from(json::json_view(*j), fields@),
            None => !holds_rules(json::json_view(*j)),
        },
{
    let mut r: Vec<(String, Setting)> = Vec::new();
    let mut i: usize = 0;
    match j {
        Json::Object(m) => {
            let ghost all = json::member_views(m@, m@.len());
            proof {
                json::member_view_at(m@, m@.len());
            }
            while i < m.len()
                invariant
                    i <= m@.len(),
                    r@.len() == i,
                    all.len() == m@.len(),
                    forall|k: int|
                        0 <= k < all.len() ==> #[trigger] all[k] == (
                            m@[k].0@,
                            json::json_view(m@[k].1),
                        ),
                    forall|k: int|
                        #![trigger r@[k]]
                        0 <= k < i ==> r@[k].0@ == all[k].0 && r@[k].1@ == json_setting(
                            all[k].0,
                            all[k].1,
                        ),
                decreases m.len() - i,
            {
                let key = m[i].0.as_str().to_owned();
                let value = setting_from(key.as_str(), &m[i].1);
                r.push((key, value));
                i = i + 1;
            }
            Some(r)
        },
        Json::List(v) => {
            if v.len() > RULE_COUNT {
                proof {
                    json::list_view_at(v@, v@.len());
                }
                return None;
            }
            let ghost all = json::list_view(v@, v@.len());
            proof {
                json::list_view_at(v@, v@.len());
            }
            while i < v.len()
                invariant
                    i <= v@.len(),
                    r@.len() == i,
                    all.len() == v@.len(),
                    forall|k: int|
                        0 <= k < all.len() ==> #[trigger] all[k] == json::json_view(v@[k]),
                    forall|k: int|
                        #![trigger r@[k]]
                        0 <= k < i ==> r@[k].0@ == key_at(k) && r@[k].1@ == listed_setting(
                            key_at(k),
                            all[k],
                        ),
                decreases v.len() - i,
            {
                let key = rule_key(i).to_owned();
                let value = listed_from(key.as_str(), &v[i]);
                r.push((key, value));
                i = i + 1;
            }
            Some(r)
        },
        _ => None,
    }
}

/// The rules that some fields say, where what they do not hold has its default, or why they
/// are none.
pub open spec fn is_read_from(
    fields: Seq<(String, Setting)>,
    r: Result<Config, SettingError>,
) -> bool {
    exists|start: Config|
        #![trigger config::is_default(start)]
        config::is_default(start) && match r {
            Ok(c) => config::read_fields(start, fields) matches Ok(v) && c == (Config {
                detect_type: v.fix_extension,
                ..v
            }),
            Err(e) => config::read_fields(start, fields) == Err::<Config, SettingError>(e),
        }
}

impl Config {
    /// Reads a configuration that was parsed; what it does not hold has its default.
    pub fn from_json(j: &Json) -> (r: Result<Config, ReadError>)
        ensures
            match r {
                Ok(c) => exists|fields: Seq<(String, Setting)>| #[trigger]
                    fields_from(json::json_view(*j), fields) && is_read_from(
                        fields,
                        Ok::<Config, SettingError>(c),
                    ),
                Err(ReadError::Setting(e)) => exists|fields: Seq<(String, Setting)>| #[trigger]
                    fields_from(json::json_view(*j), fields) && is_read_from(
                        fields,
                        Err::<Config, SettingError>(e),
                    ),
                Err(ReadError::NoRules) => !holds_rules(json::json_view(*j)),
                Err(ReadError::NotJson) => false,
            },
    {
        let fields = match fields_of(j) {
            None => return Err(ReadError::NoRules),
            Some(fields) => fields,
        };
        let start = Config::default();
        let ghost first = start;
        let r = start.with_fields(&fields);
        assert(config::is_default(first));
        assert(fields_from(json::json_view(*j), fields@));
        match r {
            Ok(c) => Ok(c),
            Err(e) => Err(ReadError::Setting(e)),
        }
    }

    /// Reads a configuration from a JSON text: what earlier versions had is passed over,
    /// anything else unknown is an error, and what it does not hold has its default.
    pub fn from_json_text(s: &str) -> (r: Result<Config, ReadError>)
        ensures
            match json::parsed_json(without_mark(s@)) {
                None => r matches Err(e) && e == ReadError::NotJson,
                Some(j) => match r {
                    Ok(c) => exists|fields: Seq<(String, Setting)>| #[trigger]
                        fields_from(j, fields) && is_read_from(
                            fields,
                            Ok::<Config, SettingError>(c),
                        ),
                    Err(ReadError::Setting(e)) => exists|fields: Seq<(String, Setting)>| #[trigger]
                        fields_from(j, fields) && is_read_from(
                            fields,
                            Err::<Config, SettingError>(e),
                        ),
                    Err(ReadError::NoRules) => !holds_rules(j),
                    Err(ReadError::NotJson) => false,
                },
            },
    {
        let chars = text::chars_of(s);
        let from: usize = if chars.len() > 0 && chars[0] == '\u{FEFF}' {
            1
        } else {
            0
        };
        let bare = text::string_of(&chars, from, chars.len());
        assert(bare@ =~= without_mark(s@));
        match json::parse(bare.as_str()) {
            None => Err(ReadError::NotJson),
            Some(j) => Config::from_json(&j),
        }
    }
}

/// A number that tells the names of the rules apart: by their length and two of their
/// characters.
spec fn mark(s: Seq<char>) -> int {
    s.len() * 65536 + s[0] as int * 256 + s[s.len() - 4] as int
}

proof fn rule_marks()
    ensures
        mark("recursive"@) == 619123,
        mark("include_hidden"@) == 944484,
        mark("include_system"@) == 944499,
        mark("exclusions"@) == 681321,
        mark("max_depth"@) == 617829,
        mark("max_entries"@) == 748914,
        mark("max_ratio"@) == 617825,
        mark("reserve_bytes"@) == 881273,
        mark("dedup_same_name"@) == 1008750,
        mark("dedup_copy_names"@) == 1074273,
        mark("dedup_other_names"@) == 1139809,
        mark("keep_duplicate"@) == 944995,
        mark("large_files"@) == 748649,
        mark("large_threshold_bytes"@) == 1404025,
        mark("clean_junk"@) == 680810,
        mark("junk_delete"@) == 748140,
        mark("clean_temp"@) == 680820,
        mark("temp_delete"@) == 750700,
        mark("clean_zero"@) == 680826,
        mark("zero_delete"@) == 752236,
        mark("clean_copy_name"@) == 1008494,
        mark("normalize_names"@) == 1011297,
        mark("detect_type"@) == 746612,
        mark("fix_extension"@) == 878195,
        mark("global_delete"@) == 878444,
        mark("hash_workers"@) == 813163,
        mark("theme"@) == 357480,
{
    reveal_strlit("recursive");
    reveal_strlit("include_hidden");
    reveal_strlit("include_system");
    reveal_strlit("exclusions");
    reveal_strlit("max_depth");
    reveal_strlit("max_entries");
    reveal_strlit("max_ratio");
    reveal_strlit("reserve_bytes");
    reveal_strlit("dedup_same_name");
    reveal_strlit("dedup_copy_names");
    reveal_strlit("dedup_other_names");
    reveal_strlit("keep_duplicate");
    reveal_strlit("large_files");
    reveal_strlit("large_threshold_bytes");
    reveal_strlit("clean_junk");
    reveal_strlit("junk_delete");
    reveal_strlit("clean_temp");
    reveal_strlit("temp_delete");
    reveal_strlit("clean_zero");
    reveal_strlit("zero_delete");
    reveal_strlit("clean_copy_name");
    reveal_strlit("normalize_names");
    reveal_strlit("detect_type");
    reveal_strlit("fix_extension");
    reveal_strlit("global_delete");
    reveal_strlit("hash_workers");
    reveal_strlit("theme");
}

proof fn removed_marks()
    ensures
        mark("hash_algorithm"@) == 944233,
        mark("verify_bytes"@) == 816761,
        mark("recycle_fallback"@) == 1077858,
        mark("same_name_same_size"@) == 1274739,
        mark("same_size_keep"@) == 947051,
        mark("same_name_different_size"@) == 1602419,
        mark("different_size_keep"@) == 1270891,
        mark("conflict_scope_directory"@) == 1598324,
        mark("extract"@) == 484722,
        mark("classify"@) == 549747,
        mark("output_dir"@) == 683871,
        mark("preserve_structure"@) == 1208436,
        mark("custom_categories"@) == 1139570,
        mark("merge_directories"@) == 1142130,
        mark("flatten_single_child"@) == 1336936,
        mark("duplicate_action"@) == 1074292,
        mark("duplicate_delete"@) == 1074284,
        mark("max_unpacked_gib"@) == 1076575,
        mark("max_file_gib"@) == 814431,
        mark("large_threshold_gib"@) == 1272927,
        mark("reserve_gib"@) == 750175,
{
    reveal_strlit("hash_algorithm");
    reveal_strlit("verify_bytes");
    reveal_strlit("recycle_fallback");
    reveal_strlit("same_name_same_size");
    reveal_strlit("same_size_keep");
    reveal_strlit("same_name_different_size");
    reveal_strlit("different_size_keep");
    reveal_strlit("conflict_scope_directory");
    reveal_strlit("extract");
    reveal_strlit("classify");
    reveal_strlit("output_dir");
    reveal_strlit("preserve_structure");
    reveal_strlit("custom_categories");
    reveal_strlit("merge_directories");
    reveal_strlit("flatten_single_child");
    reveal_strlit("duplicate_action");
    reveal_strlit("duplicate_delete");
    reveal_strlit("max_unpacked_gib");
    reveal_strlit("max_file_gib");
    reveal_strlit("large_threshold_gib");
    reveal_strlit("reserve_gib");
}

/// The rule in a place.
pub open spec fn rule_at(i: int) -> Rule {
    if i == 0 {
        Rule::Recursive
    } else if i == 1 {
        Rule::IncludeHidden
    } else if i == 2 {
        Rule::IncludeSystem
    } else if i == 3 {
        Rule::Exclusions
    } else if i == 4 {
        Rule::MaxDepth
    } else if i == 5 {
        Rule::MaxEntries
    } else if i == 6 {
        Rule::MaxRatio
    } else if i == 7 {
        Rule::ReserveBytes
    } else if i == 8 {
        Rule::DedupSameName
    } else if i == 9 {
        Rule::DedupCopyNames
    } else if i == 10 {
        Rule::DedupOtherNames
    } else if i == 11 {
        Rule::KeepDuplicate
    } else if i == 12 {
        Rule::LargeFiles
    } else if i == 13 {
        Rule::LargeThresholdBytes
    } else if i == 14 {
        Rule::CleanJunk
    } else if i == 15 {
        Rule::JunkDelete
    } else if i == 16 {
        Rule::CleanTemp
    } else if i == 17 {
        Rule::TempDelete
    } else if i == 18 {
        Rule::CleanZero
    } else if i == 19 {
        Rule::ZeroDelete
    } else if i == 20 {
        Rule::CleanCopyName
    } else if i == 21 {
        Rule::NormalizeNames
    } else if i == 22 {
        Rule::DetectType
    } else if i == 23 {
        Rule::FixExtension
    } else if i == 24 {
        Rule::GlobalDelete
    } else if i == 25 {
        Rule::HashWorkers
    } else {
        Rule::Theme
    }
}

/// The place of a rule.
pub open spec fn place_of(rule: Rule) -> int {
    match rule {
        Rule::Recursive => 0,
        Rule::IncludeHidden => 1,
        Rule::IncludeSystem => 2,
        Rule::Exclusions => 3,
        Rule::MaxDepth => 4,
        Rule::MaxEntries => 5,
        Rule::MaxRatio => 6,
        Rule::ReserveBytes => 7,
        Rule::DedupSameName => 8,
        Rule::DedupCopyNames => 9,
        Rule::DedupOtherNames => 10,
        Rule::KeepDuplicate => 11,
        Rule::LargeFiles => 12,
        Rule::LargeThresholdBytes => 13,
        Rule::CleanJunk => 14,
        Rule::JunkDelete => 15,
        Rule::CleanTemp => 16,
        Rule::TempDelete => 17,
        Rule::CleanZero => 18,
        Rule::ZeroDelete => 19,
        Rule::CleanCopyName => 20,
        Rule::NormalizeNames => 21,
        Rule::DetectType => 22,
        Rule::FixExtension => 23,
        Rule::GlobalDelete => 24,
        Rule::HashWorkers => 25,
        Rule::Theme => 26,
    }
}

/// Names, rules and places belong together, and no name is one of an earlier version.
proof fn rule_in_place(i: int)
    requires
        0 <= i < RULE_COUNT,
    ensures
        config::rule_named(key_at(i)) == Some(rule_at(i)),
        place_of(rule_at(i)) == i,
        !config::is_removed(key_at(i)),
        config::is_delete_key(key_at(i)) ==> (rule_at(i) == Rule::GlobalDelete || rule_at(i)
            == Rule::JunkDelete || rule_at(i) == Rule::TempDelete || rule_at(i)
            == Rule::ZeroDelete),
{
    rule_marks();
    removed_marks();
}

proof fn place_of_name(key: Seq<char>)
    ensures
        config::rule_named(key) matches Some(rule) ==> key == key_at(place_of(rule)) && 0
            <= place_of(rule) < RULE_COUNT && rule_at(place_of(rule)) == rule,
{
}

/// The configurations agree in every rule but one.
spec fn alike_but(c: Config, d: Config, rule: Rule) -> bool {
    &&& rule == Rule::Recursive || c.recursive == d.recursive
    &&& rule == Rule::IncludeHidden || c.include_hidden == d.include_hidden
    &&& rule == Rule::IncludeSystem || c.include_system == d.include_system
    &&& rule == Rule::Exclusions || c.exclusions == d.exclusions
    &&& rule == Rule::MaxDepth || c.max_depth == d.max_depth
    &&& rule == Rule::MaxEntries || c.max_entries == d.max_entries
    &&& rule == Rule::MaxRatio || c.max_ratio == d.max_ratio
    &&& rule == Rule::ReserveBytes || c.reserve_bytes == d.reserve_bytes
    &&& rule == Rule::DedupSameName || c.dedup_same_name == d.dedup_same_name
    &&& rule == Rule::DedupCopyNames || c.dedup_copy_names == d.dedup_copy_names
    &&& rule == Rule::DedupOtherNames || c.dedup_other_names == d.dedup_other_names
    &&& rule == Rule::KeepDuplicate || c.keep_duplicate == d.keep_duplicate
    &&& rule == Rule::LargeFiles || c.large_files == d.large_files
    &&& rule == Rule::LargeThresholdBytes || c.large_threshold_bytes == d.large_threshold_bytes
    &&& rule == Rule::CleanJunk || c.clean_junk == d.clean_junk
    &&& rule == Rule::JunkDelete || c.junk_delete == d.junk_delete
    &&& rule == Rule::CleanTemp || c.clean_temp == d.clean_temp
    &&& rule == Rule::TempDelete || c.temp_delete == d.temp_delete
    &&& rule == Rule::CleanZero || c.clean_zero == d.clean_zero
    &&& rule == Rule::ZeroDelete || c.zero_delete == d.zero_delete
    &&& rule == Rule::CleanCopyName || c.clean_copy_name == d.clean_copy_name
    &&& rule == Rule::NormalizeNames || c.normalize_names == d.normalize_names
    &&& rule == Rule::DetectType || c.detect_type == d.detect_type
    &&& rule == Rule::FixExtension || c.fix_extension == d.fix_extension
    &&& rule == Rule::GlobalDelete || c.global_delete == d.global_delete
    &&& rule == Rule::HashWorkers || c.hash_workers == d.hash_workers
    &&& rule == Rule::Theme || c.theme == d.theme
}

proof fn other_values_agree(c: Config, d: Config, rule: Rule, other: Rule)
    requires
        alike_but(c, d, rule),
        other != rule,
    ensures
        config::rule_value(c, other) == config::rule_value(d, other),
{
    match other {
        Rule::Recursive => {},
        Rule::IncludeHidden => {},
        Rule::IncludeSystem => {},
        Rule::Exclusions => {},
        Rule::MaxDepth => {},
        Rule::MaxEntries => {},
        Rule::MaxRatio => {},
        Rule::ReserveBytes => {},
        Rule::DedupSameName => {},
        Rule::DedupCopyNames => {},
        Rule::DedupOtherNames => {},
        Rule::KeepDuplicate => {},
        Rule::LargeFiles => {},
        Rule::LargeThresholdBytes => {},
        Rule::CleanJunk => {},
        Rule::JunkDelete => {},
        Rule::CleanTemp => {},
        Rule::TempDelete => {},
        Rule::CleanZero => {},
        Rule::ZeroDelete => {},
        Rule::CleanCopyName => {},
        Rule::NormalizeNames => {},
        Rule::DetectType => {},
        Rule::FixExtension => {},
        Rule::GlobalDelete => {},
        Rule::HashWorkers => {},
        Rule::Theme => {},
    }
}

#[verifier::rlimit(50)]
proof fn early_flag_leaves_others(c: Config, rule: Rule, b: bool)
    requires
        rule == Rule::Recursive || rule == Rule::IncludeHidden || rule == Rule::IncludeSystem
            || rule == Rule::DedupSameName || rule == Rule::DedupCopyNames,
    ensures
        alike_but(c, config::with_flag(c, rule, b)->0, rule),
{
    match rule {
        Rule::Recursive => {
            assert(config::with_flag(c, rule, b) == Some(Config { recursive: b, ..c }));
        },
        Rule::IncludeHidden => {
            assert(config::with_flag(c, rule, b) == Some(Config { include_hidden: b, ..c }));
        },
        Rule::IncludeSystem => {
            assert(config::with_flag(c, rule, b) == Some(Config { include_system: b, ..c }));
        },
        Rule::DedupSameName => {
            assert(config::with_flag(c, rule, b) == Some(Config { dedup_same_name: b, ..c }));
        },
        Rule::DedupCopyNames => {
            assert(config::with_flag(c, rule, b) == Some(Config { dedup_copy_names: b, ..c }));
        },
        _ => {},
    }
}

#[verifier::rlimit(50)]
proof fn middle_flag_leaves_others(c: Config, rule: Rule, b: bool)
    requires
        rule == Rule::DedupOtherNames || rule == Rule::LargeFiles || rule == Rule::CleanJunk
            || rule == Rule::CleanTemp || rule == Rule::CleanZero,
    ensures
        alike_but(c, config::with_flag(c, rule, b)->0, rule),
{
    match rule {
        Rule::DedupOtherNames => {
            assert(config::with_flag(c, rule, b) == Some(Config { dedup_other_names: b, ..c }));
        },
        Rule::LargeFiles => {
            assert(config::with_flag(c, rule, b) == Some(Config { large_files: b, ..c }));
        },
        Rule::CleanJunk => {
            assert(config::with_flag(c, rule, b) == Some(Config { clean_junk: b, ..c }));
        },
        Rule::CleanTemp => {
            assert(config::with_flag(c, rule, b) == Some(Config { clean_temp: b, ..c }));
        },
        Rule::CleanZero => {
            assert(config::with_flag(c, rule, b) == Some(Config { clean_zero: b, ..c }));
        },
        _ => {},
    }
}

#[verifier::rlimit(50)]
proof fn late_flag_leaves_others(c: Config, rule: Rule, b: bool)
    requires
        rule == Rule::CleanCopyName || rule == Rule::NormalizeNames || rule == Rule::DetectType
            || rule == Rule::FixExtension,
    ensures
        alike_but(c, config::with_flag(c, rule, b)->0, rule),
{
    match rule {
        Rule::CleanCopyName => {
            assert(config::with_flag(c, rule, b) == Some(Config { clean_copy_name: b, ..c }));
        },
        Rule::NormalizeNames => {
            assert(config::with_flag(c, rule, b) == Some(Config { normalize_names: b, ..c }));
        },
        Rule::DetectType => {
            assert(config::with_flag(c, rule, b) == Some(Config { detect_type: b, ..c }));
        },
        Rule::FixExtension => {
            assert(config::with_flag(c, rule, b) == Some(Config { fix_extension: b, ..c }));
        },
        _ => {},
    }
}

proof fn flag_leaves_others(c: Config, rule: Rule, b: bool)
    requires
        config::with_flag(c, rule, b) is Some,
    ensures
        alike_but(c, config::with_flag(c, rule, b)->0, rule),
{
    if rule == Rule::Recursive || rule == Rule::IncludeHidden || rule == Rule::IncludeSystem
        || rule == Rule::DedupSameName || rule == Rule::DedupCopyNames {
        early_flag_leaves_others(c, rule, b);
    } else if rule == Rule::DedupOtherNames || rule == Rule::LargeFiles
        || rule == Rule::CleanJunk || rule == Rule::CleanTemp || rule == Rule::CleanZero {
        middle_flag_leaves_others(c, rule, b);
    } else if rule == Rule::CleanCopyName || rule == Rule::NormalizeNames
        || rule == Rule::DetectType || rule == Rule::FixExtension {
        late_flag_leaves_others(c, rule, b);
    }
}

#[verifier::rlimit(50)]
proof fn number_leaves_others(c: Config, rule: Rule, n: u64)
    requires
        config::with_number(c, rule, n) is Some,
    ensures
        alike_but(c, config::with_number(c, rule, n)->0, rule),
{
    match rule {
        Rule::MaxDepth => {
            assert(config::with_number(c, rule, n) == Some(Config { max_depth: n as u32, ..c }));
        },
        Rule::MaxEntries => {
            assert(config::with_number(c, rule, n) == Some(Config { max_entries: n, ..c }));
        },
        Rule::MaxRatio => {
            assert(config::with_number(c, rule, n) == Some(Config { max_ratio: n, ..c }));
        },
        Rule::ReserveBytes => {
            assert(config::with_number(c, rule, n) == Some(Config { reserve_bytes: n, ..c }));
        },
        Rule::LargeThresholdBytes => {
            assert(config::with_number(c, rule, n) == Some(Config { large_threshold_bytes: n, ..c }));
        },
        Rule::HashWorkers => {
            assert(config::with_number(c, rule, n) == Some(Config { hash_workers: n as usize, ..c }));
        },
        _ => {},
    }
}

#[verifier::rlimit(50)]
proof fn word_leaves_others(c: Config, rule: Rule, s: Seq<char>)
    requires
        config::with_word(c, rule, s) is Some,
    ensures
        alike_but(c, config::with_word(c, rule, s)->0, rule),
{
    match rule {
        Rule::KeepDuplicate => {
            assert(config::with_word(c, rule, s) == Some(
                Config { keep_duplicate: config::policy_named(s)->0, ..c },
            ));
        },
        Rule::JunkDelete => {
            assert(config::with_word(c, rule, s) == Some(
                Config { junk_delete: config::choice_named(s)->0, ..c },
            ));
        },
        Rule::TempDelete => {
            assert(config::with_word(c, rule, s) == Some(
                Config { temp_delete: config::choice_named(s)->0, ..c },
            ));
        },
        Rule::ZeroDelete => {
            assert(config::with_word(c, rule, s) == Some(
                Config { zero_delete: config::choice_named(s)->0, ..c },
            ));
        },
        Rule::GlobalDelete => {
            assert(config::with_word(c, rule, s) == Some(
                Config { global_delete: config::mode_named(s)->0, ..c },
            ));
        },
        _ => {},
    }
}

#[verifier::rlimit(50)]
proof fn string_leaves_others(c: Config, rule: Rule, s: String)
    requires
        config::with_string(c, rule, s) is Some,
    ensures
        alike_but(c, config::with_string(c, rule, s)->0, rule),
{
    match rule {
        Rule::Exclusions => {
            assert(config::with_string(c, rule, s) == Some(Config { exclusions: s, ..c }));
        },
        Rule::Theme => {
            assert(config::with_string(c, rule, s) == Some(Config { theme: s, ..c }));
        },
        _ => {},
    }
}

/// Setting one rule leaves every other as it is.
pub proof fn law_other_rules_stay(c: Config, key: Seq<char>, value: Setting, other: Seq<char>)
    requires
        config::with_setting(c, key, value) is Ok,
        other != key,
    ensures
        config::setting_of(config::with_setting(c, key, value)->Ok_0, other) == config::setting_of(
            c,
            other,
        ),
{
    place_of_name(key);
    place_of_name(other);
    let rule = config::rule_named(key)->0;
    if config::rule_named(other) is Some {
        let q = config::rule_named(other)->0;
        match value {
            Setting::Bool(b) => {
                flag_leaves_others(c, rule, b);
            },
            Setting::Number(n) => {
                number_leaves_others(c, rule, n);
            },
            Setting::Text(s) => {
                if config::with_word(c, rule, s@) is Some {
                    word_leaves_others(c, rule, s@);
                } else {
                    string_leaves_others(c, rule, s);
                }
            },
            Setting::Other => {},
        }
        other_values_agree(c, config::with_setting(c, key, value)->Ok_0, rule, q);
    }
}

/// No value of a rule on deleting is the recycle bin.
proof fn no_recycle_bin(c: Config, rule: Rule)
    requires
        rule == Rule::GlobalDelete || rule == Rule::JunkDelete || rule == Rule::TempDelete || rule
            == Rule::ZeroDelete,
    ensures
        config::rule_value(c, rule) matches SettingView::Text(s) && s != "recycle"@,
{
    reveal_strlit("recycle");
    reveal_strlit("global");
    reveal_strlit("keep");
    reveal_strlit("permanent");
    assert(forall|v: config::DeleteMode| #[trigger] config::mode_name(v).len() != 7);
    assert(forall|v: config::DeleteChoice| #[trigger] config::choice_name(v).len() != 7);
    assert("recycle"@.len() == 7);
    match rule {
        Rule::GlobalDelete => {},
        Rule::JunkDelete => {},
        Rule::TempDelete => {},
        _ => {},
    }
}

/// A rule takes back what it was read as.
proof fn rule_takes_value(c: Config, b: Config, rule: Rule, value: Setting)
    requires
        value@ == config::rule_value(c, rule),
    ensures
        config::with_rule(b, rule, value) is Some,
{
    reveal_strlit("global");
    reveal_strlit("keep");
    reveal_strlit("permanent");
    reveal_strlit("newest");
    reveal_strlit("oldest");
    reveal_strlit("shortest_name");
    assert("newest"@[0] != "oldest"@[0]);
    match rule {
        Rule::Recursive => {},
        Rule::IncludeHidden => {},
        Rule::IncludeSystem => {},
        Rule::Exclusions => {},
        Rule::MaxDepth => {},
        Rule::MaxEntries => {},
        Rule::MaxRatio => {},
        Rule::ReserveBytes => {},
        Rule::DedupSameName => {},
        Rule::DedupCopyNames => {},
        Rule::DedupOtherNames => {},
        Rule::KeepDuplicate => {},
        Rule::LargeFiles => {},
        Rule::LargeThresholdBytes => {},
        Rule::CleanJunk => {},
        Rule::JunkDelete => {},
        Rule::CleanTemp => {},
        Rule::TempDelete => {},
        Rule::CleanZero => {},
        Rule::ZeroDelete => {},
        Rule::CleanCopyName => {},
        Rule::NormalizeNames => {},
        Rule::DetectType => {},
        Rule::FixExtension => {},
        Rule::GlobalDelete => {},
        Rule::HashWorkers => {},
        Rule::Theme => {},
    }
}

proof fn value_is_taken(c: Config, b: Config, i: int, value: Setting)
    requires
        0 <= i < RULE_COUNT,
        value@ == config::setting_of(c, key_at(i)),
    ensures
        config::with_setting(b, key_at(i), value) is Ok,
        config::with_stored(b, key_at(i), value) == config::with_setting(b, key_at(i), value),
{
    rule_in_place(i);
    rule_takes_value(c, b, rule_at(i), value);
    if config::is_delete_key(key_at(i)) {
        no_recycle_bin(c, rule_at(i));
    }
}

/// Reading all rules of a configuration one after the other gives each its value.
proof fn rules_are_read(c: Config, start: Config, fields: Seq<(String, Setting)>, n: int)
    requires
        0 <= n <= fields.len() <= RULE_COUNT,
        forall|i: int|
            #![trigger fields[i]]
            0 <= i < fields.len() ==> fields[i].0@ == key_at(i) && fields[i].1@
                == config::setting_of(c, key_at(i)),
    ensures
        config::read_fields(start, fields.take(n)) matches Ok(v) && forall|j: int|
            #![trigger key_at(j)]
            0 <= j < n ==> config::setting_of(v, key_at(j)) == config::setting_of(c, key_at(j)),
    decreases n,
{
    if n > 0 {
        rules_are_read(c, start, fields, n - 1);
        assert(fields.take(n).drop_last() =~= fields.take(n - 1));
        assert(fields.take(n).last() == fields[n - 1]);
        let before = config::read_fields(start, fields.take(n - 1))->Ok_0;
        let value = fields[n - 1].1;
        value_is_taken(c, before, n - 1, value);
        let after = config::with_setting(before, key_at(n - 1), value)->Ok_0;
        config::law_setting_is_read_back(before, key_at(n - 1), value);
        assert forall|j: int| #![trigger key_at(j)] 0 <= j < n implies config::setting_of(
            after,
            key_at(j),
        ) == config::setting_of(c, key_at(j)) by {
            if j < n - 1 {
                rule_in_place(j);
                rule_in_place(n - 1);
                law_other_rules_stay(before, key_at(n - 1), value, key_at(j));
            }
        }
    }
}

/// A configuration that was stored with all its rules is read as it was, whatever stood
/// there before.
pub proof fn law_stored_rules_are_read_back(
    c: Config,
    start: Config,
    fields: Seq<(String, Setting)>,
    key: Seq<char>,
)
    requires
        c.detect_type == c.fix_extension,
        fields.len() == RULE_COUNT,
        forall|i: int|
            #![trigger fields[i]]
            0 <= i < fields.len() ==> fields[i].0@ == key_at(i) && fields[i].1@
                == config::setting_of(c, key_at(i)),
    ensures
        config::read_fields(start, fields) matches Ok(v) && config::setting_of(
            Config { detect_type: v.fix_extension, ..v },
            key,
        ) == config::setting_of(c, key),
{
    rules_are_read(c, start, fields, fields.len() as int);
    assert(fields.take(fields.len() as int) =~= fields);
    let v = config::read_fields(start, fields)->Ok_0;
    detection_is_read(c, v);
    assert(Config { detect_type: v.fix_extension, ..v } == v);
    place_of_name(key);
    if config::rule_named(key) is Some {
        assert(key_at(place_of(config::rule_named(key)->0)) == key);
    }
}

proof fn detection_is_read(c: Config, v: Config)
    requires
        c.detect_type == c.fix_extension,
        forall|j: int|
            #![trigger key_at(j)]
            0 <= j < RULE_COUNT ==> config::setting_of(v, key_at(j)) == config::setting_of(
                c,
                key_at(j),
            ),
    ensures
        v.detect_type == v.fix_extension,
{
    rule_in_place(22);
    rule_in_place(23);
    assert(config::setting_of(v, key_at(22)) == SettingView::Bool(v.detect_type));
    assert(config::setting_of(v, key_at(23)) == SettingView::Bool(v.fix_extension));
    assert(config::setting_of(c, key_at(22)) == SettingView::Bool(c.detect_type));
    assert(config::setting_of(c, key_at(23)) == SettingView::Bool(c.fix_extension));
}

/// Each rule is read under its own name, with the value that it has.
pub proof fn law_rules_go_by_their_names(c: Config)
    ensures
        config::setting_of(c, "recursive"@) == SettingView::Bool(c.recursive),
        config::setting_of(c, "include_hidden"@) == SettingView::Bool(c.include_hidden),
        config::setting_of(c, "include_system"@) == SettingView::Bool(c.include_system),
        config::setting_of(c, "exclusions"@) == SettingView::Text(c.exclusions@),
        config::setting_of(c, "max_depth"@) == SettingView::Number(c.max_depth as u64),
        config::setting_of(c, "max_entries"@) == SettingView::Number(c.max_entries),
        config::setting_of(c, "max_ratio"@) == SettingView::Number(c.max_ratio),
        config::setting_of(c, "reserve_bytes"@) == SettingView::Number(c.reserve_bytes),
        config::setting_of(c, "dedup_same_name"@) == SettingView::Bool(c.dedup_same_name),
        config::setting_of(c, "dedup_copy_names"@) == SettingView::Bool(c.dedup_copy_names),
        config::setting_of(c, "dedup_other_names"@) == SettingView::Bool(c.dedup_other_names),
        config::setting_of(c, "keep_duplicate"@) == SettingView::Text(
            match c.keep_duplicate {
                config::KeepPolicy::Newest => "newest"@,
                config::KeepPolicy::Oldest => "oldest"@,
                config::KeepPolicy::ShortestName => "shortest_name"@,
            },
        ),
        config::setting_of(c, "large_files"@) == SettingView::Bool(c.large_files),
        config::setting_of(c, "large_threshold_bytes"@) == SettingView::Number(
            c.large_threshold_bytes,
        ),
        config::setting_of(c, "clean_junk"@) == SettingView::Bool(c.clean_junk),
        config::setting_of(c, "junk_delete"@) == SettingView::Text(
            config::choice_name(c.junk_delete),
        ),
        config::setting_of(c, "clean_temp"@) == SettingView::Bool(c.clean_temp),
        config::setting_of(c, "temp_delete"@) == SettingView::Text(
            config::choice_name(c.temp_delete),
        ),
        config::setting_of(c, "clean_zero"@) == SettingView::Bool(c.clean_zero),
        config::setting_of(c, "zero_delete"@) == SettingView::Text(
            config::choice_name(c.zero_delete),
        ),
        config::setting_of(c, "clean_copy_name"@) == SettingView::Bool(c.clean_copy_name),
        config::setting_of(c, "normalize_names"@) == SettingView::Bool(c.normalize_names),
        config::setting_of(c, "detect_type"@) == SettingView::Bool(c.detect_type),
        config::setting_of(c, "fix_extension"@) == SettingView::Bool(c.fix_extension),
        config::setting_of(c, "global_delete"@) == SettingView::Text(
            config::mode_name(c.global_delete),
        ),
        config::setting_of(c, "hash_workers"@) == SettingView::Number(c.hash_workers as u64),
        config::setting_of(c, "theme"@) == SettingView::Text(c.theme@),
{
    rule_in_place(0);
    rule_in_place(1);
    rule_in_place(2);
    rule_in_place(3);
    rule_in_place(4);
    rule_in_place(5);
    rule_in_place(6);
    rule_in_place(7);
    rule_in_place(8);
    rule_in_place(9);
    rule_in_place(10);
    rule_in_place(11);
    rule_in_place(12);
    rule_in_place(13);
    rule_in_place(14);
    rule_in_place(15);
    rule_in_place(16);
    rule_in_place(17);
    rule_in_place(18);
    rule_in_place(19);
    rule_in_place(20);
    rule_in_place(21);
    rule_in_place(22);
    rule_in_place(23);
    rule_in_place(24);
    rule_in_place(25);
    rule_in_place(26);
}

/// How values of a JSON text become values of rules: truth values, whole numbers and texts
/// as they are; a word also as the only key of an object with nothing beside it, where the
/// rule takes words; nothing else is a value.
pub proof fn law_values_of_a_stored_text(key: Seq<char>, b: bool, n: u64, s: Seq<char>)
    ensures
        json_setting(key, JsonView::Bool(b)) == SettingView::Bool(b),
        json_setting(key, JsonView::Number(Some(n))) == SettingView::Number(n),
        json_setting(key, JsonView::Number(None)) == SettingView::Other,
        json_setting(key, JsonView::Text(s)) == SettingView::Text(s),
        json_setting(key, JsonView::Null) == SettingView::Other,
        json_setting("keep_duplicate"@, JsonView::Object(seq![(s, JsonView::Null)])) == if s
            == "recycle"@ {
            SettingView::Other
        } else {
            SettingView::Text(s)
        },
        json_setting("global_delete"@, JsonView::Object(seq![(s, JsonView::Null)])) == if s
            == "recycle"@ {
            SettingView::Other
        } else {
            SettingView::Text(s)
        },
        json_setting(key, JsonView::Object(Seq::empty())) == SettingView::Other,
        listed_setting("junk_delete"@, JsonView::Text("recycle"@)) == SettingView::Other,
        s != "recycle"@ ==> listed_setting(key, JsonView::Text(s)) == SettingView::Text(s),
        listed_setting(key, JsonView::Bool(b)) == SettingView::Bool(b),
        listed_setting(key, JsonView::Number(Some(n))) == SettingView::Number(n),
{
}

/// A byte order mark before the text is passed over, and only one; any other text is read as
/// it is.
pub proof fn law_marks_before_a_text(s: Seq<char>)
    ensures
        without_mark(seq!['\u{FEFF}'] + s) == s,
        s.len() == 0 || s[0] != '\u{FEFF}' ==> without_mark(s) == s,
{
    let m = seq!['\u{FEFF}'] + s;
    assert(m.skip(1) =~= s);
}

/// Only an object, or a list of no more values than there are rules, can hold the rules.
pub proof fn law_what_can_hold_the_rules(m: Seq<(Seq<char>, JsonView)>, v: Seq<JsonView>, s: Seq<char>)
    ensures
        holds_rules(JsonView::Object(m)),
        holds_rules(JsonView::List(v)) <==> v.len() <= 27,
        !holds_rules(JsonView::Null),
        !holds_rules(JsonView::Text(s)),
        !holds_rules(JsonView::Bool(true)),
        !holds_rules(JsonView::Number(None)),
{
}

} // verus!
