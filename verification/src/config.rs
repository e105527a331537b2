//! The rules that the user sets for a task.

use crate::rules;
use crate::rules::ExclusionError;
use crate::text;
use vstd::prelude::*;

verus! {

/// What deleting a file means.
#[derive(Clone, Copy, Debug, PartialEq, Eq, Structural)]
pub enum DeleteMode {
    Keep,
    Permanent,
}

/// How one kind of file is deleted: as everything else, or in its own way.
#[derive(Clone, Copy, Debug, PartialEq, Eq, Structural)]
pub enum DeleteChoice {
    Global,
    Keep,
    Permanent,
}

/// The mode that a choice comes to.
pub open spec fn resolved(choice: DeleteChoice, global: DeleteMode) -> DeleteMode {
    match choice {
        DeleteChoice::Global => global,
        DeleteChoice::Keep => DeleteMode::Keep,
        DeleteChoice::Permanent => DeleteMode::Permanent,
    }
}

impl DeleteChoice {
    pub fn resolve(self, global: DeleteMode) -> (r: DeleteMode)
        ensures
            r == resolved(self, global),
    {
        match self {
            DeleteChoice::Global => global,
            DeleteChoice::Keep => DeleteMode::Keep,
            DeleteChoice::Permanent => DeleteMode::Permanent,
        }
    }
}

/// Which of several equal files is kept.
#[derive(Clone, Copy, Debug, PartialEq, Eq, Structural)]
pub enum KeepPolicy {
    Newest,
    Oldest,
    ShortestName,
}

/// The rules of a task.
#[derive(Debug)]
pub struct Config {
    pub recursive: bool,
    pub include_hidden: bool,
    pub include_system: bool,
    /// Glob patterns of what is left out, separated by semicolons.
    pub exclusions: String,
    pub max_depth: u32,
    /// Most entries of one archive.
    pub max_entries: u64,
    /// Largest ratio of extracted bytes to the bytes of all volumes; zero for no limit.
    pub max_ratio: u64,
    /// Bytes that stay free on the disk.
    pub reserve_bytes: u64,
    pub dedup_same_name: bool,
    pub dedup_copy_names: bool,
    pub dedup_other_names: bool,
    pub keep_duplicate: KeepPolicy,
    /// Large files get a directory of their own.
    pub large_files: bool,
    /// From how many bytes on a file is large.
    pub large_threshold_bytes: u64,
    pub clean_junk: bool,
    /// How system by-products are deleted.
    pub junk_delete: DeleteChoice,
    pub clean_temp: bool,
    /// How temporary and backup files are deleted.
    pub temp_delete: DeleteChoice,
    pub clean_zero: bool,
    /// How empty files are deleted.
    pub zero_delete: DeleteChoice,
    /// Copy marks at the end of a name are cleaned.
    pub clean_copy_name: bool,
    /// Names are normalised.
    pub normalize_names: bool,
    /// Follows `fix_extension`.
    pub detect_type: bool,
    /// Extensions are corrected by content.
    pub fix_extension: bool,
    pub global_delete: DeleteMode,
    pub hash_workers: usize,
    pub theme: String,
}

/// The rules before the user changes any.
pub open spec fn is_default(c: Config) -> bool {
    &&& c.recursive
    &&& c.include_hidden
    &&& c.include_system
    &&& c.exclusions@ == Seq::<char>::empty()
    &&& c.max_depth == 16
    &&& c.max_entries == 1_000_000
    &&& c.max_ratio == 10_000
    &&& c.reserve_bytes == 0x4000_0000
    &&& c.dedup_same_name
    &&& c.dedup_copy_names
    &&& !c.dedup_other_names
    &&& c.keep_duplicate == KeepPolicy::Newest
    &&& !c.large_files
    &&& c.large_threshold_bytes == 0x4000_0000
    &&& c.clean_junk
    &&& c.junk_delete == DeleteChoice::Global
    &&& !c.clean_temp
    &&& c.temp_delete == DeleteChoice::Global
    &&& !c.clean_zero
    &&& c.zero_delete == DeleteChoice::Global
    &&& c.clean_copy_name
    &&& c.normalize_names
    &&& !c.detect_type
    &&& !c.fix_extension
    &&& c.global_delete == DeleteMode::Permanent
    &&& c.hash_workers == 6
    &&& c.theme@ == "system"@
}

impl Default for Config {
    fn default() -> (r: Config)
        ensures
            is_default(r),
    {
        let r = Config {
            recursive: true,
            include_hidden: true,
            include_system: true,
            exclusions: String::new(),
            max_depth: 16,
            max_entries: 1_000_000,
            max_ratio: 10_000,
            reserve_bytes: 0x4000_0000,
            dedup_same_name: true,
            dedup_copy_names: true,
            dedup_other_names: false,
            keep_duplicate: KeepPolicy::Newest,
            large_files: false,
            large_threshold_bytes: 0x4000_0000,
            clean_junk: true,
            junk_delete: DeleteChoice::Global,
            clean_temp: false,
            temp_delete: DeleteChoice::Global,
            clean_zero: false,
            zero_delete: DeleteChoice::Global,
            clean_copy_name: true,
            normalize_names: true,
            detect_type: false,
            fix_extension: false,
            global_delete: DeleteMode::Permanent,
            hash_workers: 6,
            theme: "system".to_owned(),
        };
        assert(r.exclusions@ =~= Seq::<char>::empty());
        r
    }
}

/// Why a configuration is not valid.
#[derive(Clone, Copy, Debug, PartialEq, Eq, Structural)]
pub enum ConfigError {
    HashWorkers,
    MaxDepth,
    MaxEntries,
    MaxRatio,
    ReserveBytes,
    LargeThreshold,
    Theme,
    Exclusions(ExclusionError),
}

/// The first rule outside its range, apart from the exclusions.
pub open spec fn range_problem(c: Config) -> Option<ConfigError> {
    if !(1 <= c.hash_workers <= 16) {
        Some(ConfigError::HashWorkers)
    } else if !(1 <= c.max_depth <= 64) {
        Some(ConfigError::MaxDepth)
    } else if !(1 <= c.max_entries <= 1_000_000_000) {
        Some(ConfigError::MaxEntries)
    } else if c.max_ratio > 1_000_000_000 {
        Some(ConfigError::MaxRatio)
    } else if c.reserve_bytes > i64::MAX {
        Some(ConfigError::ReserveBytes)
    } else if !(1 <= c.large_threshold_bytes <= i64::MAX) {
        Some(ConfigError::LargeThreshold)
    } else if c.theme@ != "system"@ && c.theme@ != "light"@ && c.theme@ != "dark"@ {
        Some(ConfigError::Theme)
    } else {
        None
    }
}

/// The message of a configuration error.
pub open spec fn config_error_text(e: ConfigError) -> Seq<char> {
    match e {
        ConfigError::HashWorkers => "Hash 工作线程必须在 1～16 之间"@,
        ConfigError::MaxDepth => "嵌套层数必须在 1～64 之间"@,
        ConfigError::MaxEntries => "压缩包条目上限必须在 1～1000000000 之间（不允许 0）"@,
        ConfigError::MaxRatio => "最大展开比例必须在 0～1000000000 之间（0 为关闭）"@,
        ConfigError::ReserveBytes => "磁盘预留超出范围"@,
        ConfigError::LargeThreshold => "大文件阈值必须至少 1 字节且不超出 64 位范围"@,
        ConfigError::Theme => "主题参数无效"@,
        ConfigError::Exclusions(_) => "排除规则无效"@,
    }
}

/// The message of a configuration error with its cause, where it has one.
pub open spec fn config_error_detail(e: ConfigError) -> Seq<char> {
    match e {
        ConfigError::ReserveBytes =>
            "磁盘预留超出范围: out of range integral type conversion attempted"@,
        _ => config_error_text(e),
    }
}

impl ConfigError {
    /// The message shown for this error, with its cause.
    pub fn detail(self) -> (r: &'static str)
        ensures
            r@ == config_error_detail(self),
    {
        match self {
            ConfigError::ReserveBytes =>
                "磁盘预留超出范围: out of range integral type conversion attempted",
            _ => self.message(),
        }
    }

    /// The message shown for this error.
    pub fn message(self) -> (r: &'static str)
        ensures
            r@ == config_error_text(self),
    {
        match self {
            ConfigError::HashWorkers => "Hash 工作线程必须在 1～16 之间",
            ConfigError::MaxDepth => "嵌套层数必须在 1～64 之间",
            ConfigError::MaxEntries => "压缩包条目上限必须在 1～1000000000 之间（不允许 0）",
            ConfigError::MaxRatio => "最大展开比例必须在 0～1000000000 之间（0 为关闭）",
            ConfigError::ReserveBytes => "磁盘预留超出范围",
            ConfigError::LargeThreshold => "大文件阈值必须至少 1 字节且不超出 64 位范围",
            ConfigError::Theme => "主题参数无效",
            ConfigError::Exclusions(_) => "排除规则无效",
        }
    }
}

/// The exclusion text is accepted: every pattern is valid and they compile.
pub open spec fn exclusions_ok(s: Seq<char>) -> bool {
    &&& forall|i: int|
        0 <= i < rules::exclusion_patterns(s).len() ==> rules::glob_is_valid(
            #[trigger] rules::exclusion_patterns(s)[i],
        )
    &&& rules::globs_compile(rules::exclusion_patterns(s))
}

impl Config {
    /// Checks the numbers and the theme against their ranges.
    pub fn check_ranges(&self) -> (r: Result<(), ConfigError>)
        ensures
            r == match range_problem(*self) {
                Some(e) => Err::<(), ConfigError>(e),
                None => Ok(()),
            },
    {
        if self.hash_workers < 1 || self.hash_workers > 16 {
            return Err(ConfigError::HashWorkers);
        }
        if self.max_depth < 1 || self.max_depth > 64 {
            return Err(ConfigError::MaxDepth);
        }
        if self.max_entries == 0 || self.max_entries > 1_000_000_000 {
            return Err(ConfigError::MaxEntries);
        }
        if self.max_ratio > 1_000_000_000 {
            return Err(ConfigError::MaxRatio);
        }
        if self.reserve_bytes > i64::MAX as u64 {
            return Err(ConfigError::ReserveBytes);
        }
        if self.large_threshold_bytes == 0 || self.large_threshold_bytes > i64::MAX as u64 {
            return Err(ConfigError::LargeThreshold);
        }
        let theme = self.theme.as_str();
        if !text::same(theme, "system") && !text::same(theme, "light") && !text::same(
            theme,
            "dark",
        ) {
            return Err(ConfigError::Theme);
        }
        Ok(())
    }

    /// Checks the rules: numbers in their ranges, a known theme, and exclusions
    /// that compile. Nothing is cut to fit.
    pub fn validate(&self) -> (r: Result<(), ConfigError>)
        ensures
            match r {
                Ok(()) => range_problem(*self) is None && exclusions_ok(self.exclusions@),
                Err(ConfigError::Exclusions(e)) => range_problem(*self) is None && !exclusions_ok(
                    self.exclusions@,
                ),
                Err(e) => range_problem(*self) == Some(e),
            },
    {
        match self.check_ranges() {
            Err(e) => return Err(e),
            Ok(()) => {},
        }
        match rules::build_exclusions(self.exclusions.as_str()) {
            Ok(_) => Ok(()),
            Err(e) => Err(ConfigError::Exclusions(e)),
        }
    }
}

/// The word for a mode in the warning.
pub open spec fn mode_label(mode: DeleteMode) -> Seq<char> {
    match mode {
        DeleteMode::Keep => "保留"@,
        DeleteMode::Permanent => "永久删除"@,
    }
}

/// What the warning says of one kind of file.
pub open spec fn category_label(enabled: bool, choice: DeleteChoice, global: DeleteMode) -> Seq<
    char,
> {
    if enabled {
        mode_label(resolved(choice, global))
    } else {
        "不清理"@
    }
}

fn label(mode: DeleteMode) -> (r: &'static str)
    ensures
        r@ == mode_label(mode),
{
    match mode {
        DeleteMode::Keep => "保留",
        DeleteMode::Permanent => "永久删除",
    }
}

fn category(enabled: bool, choice: DeleteChoice, global: DeleteMode) -> (r: &'static str)
    ensures
        r@ == category_label(enabled, choice, global),
{
    if !enabled {
        return "不清理";
    }
    label(choice.resolve(global))
}

/// The warning before a plan is executed: what happens to each kind of file.
pub open spec fn warning_text(c: Config) -> Seq<char> {
    "重复副本："@ + mode_label(c.global_delete) + "；系统附属文件："@ + category_label(
        c.clean_junk,
        c.junk_delete,
        c.global_delete,
    ) + "；临时与备份文件："@ + category_label(c.clean_temp, c.temp_delete, c.global_delete)
        + "；零字节文件："@ + category_label(c.clean_zero, c.zero_delete, c.global_delete)
        + "；空目录：永久删除（不可关闭）；Git 项目：整体移入「Git项目集合」（固定行为）。\n删除一律为永久删除，不经回收站、不可由本软件恢复；用户取消不会触发任何删除。没有自动回滚；请确认目录和规则。"@
}

impl Config {
    /// The warning before a plan is executed.
    pub fn destructive_warning(&self) -> (r: String)
        ensures
            r@ == warning_text(*self),
    {
        let mut r = "重复副本：".to_owned();
        r.append(label(self.global_delete));
        r.append("；系统附属文件：");
        r.append(category(self.clean_junk, self.junk_delete, self.global_delete));
        r.append("；临时与备份文件：");
        r.append(category(self.clean_temp, self.temp_delete, self.global_delete));
        r.append("；零字节文件：");
        r.append(category(self.clean_zero, self.zero_delete, self.global_delete));
        r.append(
            "；空目录：永久删除（不可关闭）；Git 项目：整体移入「Git项目集合」（固定行为）。\n删除一律为永久删除，不经回收站、不可由本软件恢复；用户取消不会触发任何删除。没有自动回滚；请确认目录和规则。",
        );
        r
    }

    /// A copy of the rules.
    pub fn copy(&self) -> (r: Config)
        ensures
            r == *self,
    {
        Config {
            recursive: self.recursive,
            include_hidden: self.include_hidden,
            include_system: self.include_system,
            exclusions: self.exclusions.clone(),
            max_depth: self.max_depth,
            max_entries: self.max_entries,
            max_ratio: self.max_ratio,
            reserve_bytes: self.reserve_bytes,
            dedup_same_name: self.dedup_same_name,
            dedup_copy_names: self.dedup_copy_names,
            dedup_other_names: self.dedup_other_names,
            keep_duplicate: self.keep_duplicate,
            large_files: self.large_files,
            large_threshold_bytes: self.large_threshold_bytes,
            clean_junk: self.clean_junk,
            junk_delete: self.junk_delete,
            clean_temp: self.clean_temp,
            temp_delete: self.temp_delete,
            clean_zero: self.clean_zero,
            zero_delete: self.zero_delete,
            clean_copy_name: self.clean_copy_name,
            normalize_names: self.normalize_names,
            detect_type: self.detect_type,
            fix_extension: self.fix_extension,
            global_delete: self.global_delete,
            hash_workers: self.hash_workers,
            theme: self.theme.clone(),
        }
    }

    /// Whether two sets of rules plan the same: the theme does not matter.
    pub fn same_plan(&self, other: &Config) -> (r: bool)
        ensures
            r == plans_alike(*self, *other),
    {
        self.recursive == other.recursive
            && self.include_hidden == other.include_hidden
            && self.include_system == other.include_system
            && text::same(self.exclusions.as_str(), other.exclusions.as_str())
            && self.max_depth == other.max_depth
            && self.max_entries == other.max_entries
            && self.max_ratio == other.max_ratio
            && self.reserve_bytes == other.reserve_bytes
            && self.dedup_same_name == other.dedup_same_name
            && self.dedup_copy_names == other.dedup_copy_names
            && self.dedup_other_names == other.dedup_other_names
            && self.keep_duplicate == other.keep_duplicate
            && self.large_files == other.large_files
            && self.large_threshold_bytes == other.large_threshold_bytes
            && self.clean_junk == other.clean_junk
            && self.junk_delete == other.junk_delete
            && self.clean_temp == other.clean_temp
            && self.temp_delete == other.temp_delete
            && self.clean_zero == other.clean_zero
            && self.zero_delete == other.zero_delete
            && self.clean_copy_name == other.clean_copy_name
            && self.normalize_names == other.normalize_names
            && self.detect_type == other.detect_type
            && self.fix_extension == other.fix_extension
            && self.global_delete == other.global_delete
            && self.hash_workers == other.hash_workers
    }
}

/// The rules agree in everything but the theme.
pub open spec fn plans_alike(a: Config, b: Config) -> bool {
    &&& a.recursive == b.recursive
    &&& a.include_hidden == b.include_hidden
    &&& a.include_system == b.include_system
    &&& a.exclusions@ == b.exclusions@
    &&& a.max_depth == b.max_depth
    &&& a.max_entries == b.max_entries
    &&& a.max_ratio == b.max_ratio
    &&& a.reserve_bytes == b.reserve_bytes
    &&& a.dedup_same_name == b.dedup_same_name
    &&& a.dedup_copy_names == b.dedup_copy_names
    &&& a.dedup_other_names == b.dedup_other_names
    &&& a.keep_duplicate == b.keep_duplicate
    &&& a.large_files == b.large_files
    &&& a.large_threshold_bytes == b.large_threshold_bytes
    &&& a.clean_junk == b.clean_junk
    &&& a.junk_delete == b.junk_delete
    &&& a.clean_temp == b.clean_temp
    &&& a.temp_delete == b.temp_delete
    &&& a.clean_zero == b.clean_zero
    &&& a.zero_delete == b.zero_delete
    &&& a.clean_copy_name == b.clean_copy_name
    &&& a.normalize_names == b.normalize_names
    &&& a.detect_type == b.detect_type
    &&& a.fix_extension == b.fix_extension
    &&& a.global_delete == b.global_delete
    &&& a.hash_workers == b.hash_workers
}

/// A value for one rule.
#[derive(Debug)]
pub enum Setting {
    Bool(bool),
    Number(u64),
    Text(String),
    /// A value of no kind that a rule takes, shown as `null`.
    Other,
}

/// What a value for one rule stands for.
pub enum SettingView {
    Bool(bool),
    Number(u64),
    Text(Seq<char>),
    Other,
}

impl View for Setting {
    type V = SettingView;

    open spec fn view(&self) -> SettingView {
        match self {
            Setting::Bool(b) => SettingView::Bool(*b),
            Setting::Number(n) => SettingView::Number(*n),
            Setting::Text(s) => SettingView::Text(s@),
            Setting::Other => SettingView::Other,
        }
    }
}

/// Why a rule was not set.
#[derive(Clone, Copy, Debug, PartialEq, Eq, Structural)]
pub enum SettingError {
    /// There is no rule of that name.
    Unknown,
    /// The value is of the wrong kind, out of range, or no known word.
    Invalid,
}

/// The choice with the given name.
pub open spec fn choice_named(s: Seq<char>) -> Option<DeleteChoice> {
    if s == "global"@ {
        Some(DeleteChoice::Global)
    } else if s == "keep"@ {
        Some(DeleteChoice::Keep)
    } else if s == "permanent"@ {
        Some(DeleteChoice::Permanent)
    } else {
        None
    }
}

/// The mode with the given name.
pub open spec fn mode_named(s: Seq<char>) -> Option<DeleteMode> {
    if s == "keep"@ {
        Some(DeleteMode::Keep)
    } else if s == "permanent"@ {
        Some(DeleteMode::Permanent)
    } else {
        None
    }
}

/// The policy with the given name.
pub open spec fn policy_named(s: Seq<char>) -> Option<KeepPolicy> {
    if s == "newest"@ {
        Some(KeepPolicy::Newest)
    } else if s == "oldest"@ {
        Some(KeepPolicy::Oldest)
    } else if s == "shortest_name"@ {
        Some(KeepPolicy::ShortestName)
    } else {
        None
    }
}

fn find_choice(s: &str) -> (r: Option<DeleteChoice>)
    ensures
        r == choice_named(s@),
{
    if text::same(s, "global") {
        Some(DeleteChoice::Global)
    } else if text::same(s, "keep") {
        Some(DeleteChoice::Keep)
    } else if text::same(s, "permanent") {
        Some(DeleteChoice::Permanent)
    } else {
        None
    }
}

fn find_mode(s: &str) -> (r: Option<DeleteMode>)
    ensures
        r == mode_named(s@),
{
    if text::same(s, "keep") {
        Some(DeleteMode::Keep)
    } else if text::same(s, "permanent") {
        Some(DeleteMode::Permanent)
    } else {
        None
    }
}

fn find_policy(s: &str) -> (r: Option<KeepPolicy>)
    ensures
        r == policy_named(s@),
{
    if text::same(s, "newest") {
        Some(KeepPolicy::Newest)
    } else if text::same(s, "oldest") {
        Some(KeepPolicy::Oldest)
    } else if text::same(s, "shortest_name") {
        Some(KeepPolicy::ShortestName)
    } else {
        None
    }
}

/// The rules, one by one.
#[derive(Clone, Copy, Debug, PartialEq, Eq, Structural)]
pub enum Rule {
    Recursive,
    IncludeHidden,
    IncludeSystem,
    Exclusions,
    MaxDepth,
    MaxEntries,
    MaxRatio,
    ReserveBytes,
    DedupSameName,
    DedupCopyNames,
    DedupOtherNames,
    KeepDuplicate,
    LargeFiles,
    LargeThresholdBytes,
    CleanJunk,
    JunkDelete,
    CleanTemp,
    TempDelete,
    CleanZero,
    ZeroDelete,
    CleanCopyName,
    NormalizeNames,
    DetectType,
    FixExtension,
    GlobalDelete,
    HashWorkers,
    Theme,
}

/// The rule with the given name.
pub open spec fn rule_named(key: Seq<char>) -> Option<Rule> {
    if key == "recursive"@ {
        Some(Rule::Recursive)
    } else if key == "include_hidden"@ {
        Some(Rule::IncludeHidden)
    } else if key == "include_system"@ {
        Some(Rule::IncludeSystem)
    } else if key == "exclusions"@ {
        Some(Rule::Exclusions)
    } else if key == "max_depth"@ {
        Some(Rule::MaxDepth)
    } else if key == "max_entries"@ {
        Some(Rule::MaxEntries)
    } else if key == "max_ratio"@ {
        Some(Rule::MaxRatio)
    } else if key == "reserve_bytes"@ {
        Some(Rule::ReserveBytes)
    } else if key == "dedup_same_name"@ {
        Some(Rule::DedupSameName)
    } else if key == "dedup_copy_names"@ {
        Some(Rule::DedupCopyNames)
    } else if key == "dedup_other_names"@ {
        Some(Rule::DedupOtherNames)
    } else if key == "keep_duplicate"@ {
        Some(Rule::KeepDuplicate)
    } else if key == "large_files"@ {
        Some(Rule::LargeFiles)
    } else if key == "large_threshold_bytes"@ {
        Some(Rule::LargeThresholdBytes)
    } else if key == "clean_junk"@ {
        Some(Rule::CleanJunk)
    } else if key == "junk_delete"@ {
        Some(Rule::JunkDelete)
    } else if key == "clean_temp"@ {
        Some(Rule::CleanTemp)
    } else if key == "temp_delete"@ {
        Some(Rule::TempDelete)
    } else if key == "clean_zero"@ {
        Some(Rule::CleanZero)
    } else if key == "zero_delete"@ {
        Some(Rule::ZeroDelete)
    } else if key == "clean_copy_name"@ {
        Some(Rule::CleanCopyName)
    } else if key == "normalize_names"@ {
        Some(Rule::NormalizeNames)
    } else if key == "detect_type"@ {
        Some(Rule::DetectType)
    } else if key == "fix_extension"@ {
        Some(Rule::FixExtension)
    } else if key == "global_delete"@ {
        Some(Rule::GlobalDelete)
    } else if key == "hash_workers"@ {
        Some(Rule::HashWorkers)
    } else if key == "theme"@ {
        Some(Rule::Theme)
    } else {
        None
    }
}

fn find_rule(key: &str) -> (r: Option<Rule>)
    ensures
        r == rule_named(key@),
{
    if text::same(key, "recursive") {
        Some(Rule::Recursive)
    } else if text::same(key, "include_hidden") {
        Some(Rule::IncludeHidden)
    } else if text::same(key, "include_system") {
        Some(Rule::IncludeSystem)
    } else if text::same(key, "exclusions") {
        Some(Rule::Exclusions)
    } else if text::same(key, "max_depth") {
        Some(Rule::MaxDepth)
    } else if text::same(key, "max_entries") {
        Some(Rule::MaxEntries)
    } else if text::same(key, "max_ratio") {
        Some(Rule::MaxRatio)
    } else if text::same(key, "reserve_bytes") {
        Some(Rule::ReserveBytes)
    } else if text::same(key, "dedup_same_name") {
        Some(Rule::DedupSameName)
    } else if text::same(key, "dedup_copy_names") {
        Some(Rule::DedupCopyNames)
    } else if text::same(key, "dedup_other_names") {
        Some(Rule::DedupOtherNames)
    } else if text::same(key, "keep_duplicate") {
        Some(Rule::KeepDuplicate)
    } else if text::same(key, "large_files") {
        Some(Rule::LargeFiles)
    } else if text::same(key, "large_threshold_bytes") {
        Some(Rule::LargeThresholdBytes)
    } else if text::same(key, "clean_junk") {
        Some(Rule::CleanJunk)
    } else if text::same(key, "junk_delete") {
        Some(Rule::JunkDelete)
    } else if text::same(key, "clean_temp") {
        Some(Rule::CleanTemp)
    } else if text::same(key, "temp_delete") {
        Some(Rule::TempDelete)
    } else if text::same(key, "clean_zero") {
        Some(Rule::CleanZero)
    } else if text::same(key, "zero_delete") {
        Some(Rule::ZeroDelete)
    } else if text::same(key, "clean_copy_name") {
        Some(Rule::CleanCopyName)
    } else if text::same(key, "normalize_names") {
        Some(Rule::NormalizeNames)
    } else if text::same(key, "detect_type") {
        Some(Rule::DetectType)
    } else if text::same(key, "fix_extension") {
        Some(Rule::FixExtension)
    } else if text::same(key, "global_delete") {
        Some(Rule::GlobalDelete)
    } else if text::same(key, "hash_workers") {
        Some(Rule::HashWorkers)
    } else if text::same(key, "theme") {
        Some(Rule::Theme)
    } else {
        None
    }
}

/// What a rule takes.
#[derive(Clone, Copy, Debug, PartialEq, Eq, Structural)]
pub enum RuleKind {
    Switch,
    Text,
    /// A number of 32 bits.
    Small,
    /// A number of 64 bits.
    Large,
    /// A number as large as the machine counts.
    Count,
    /// One of the policies, of the choices or of the modes.
    Policy,
    Choice,
    Mode,
}

/// What a rule takes.
pub open spec fn kind_of(rule: Rule) -> RuleKind {
    match rule {
        Rule::Exclusions => RuleKind::Text,
        Rule::Theme => RuleKind::Text,
        Rule::MaxDepth => RuleKind::Small,
        Rule::MaxEntries => RuleKind::Large,
        Rule::MaxRatio => RuleKind::Large,
        Rule::ReserveBytes => RuleKind::Large,
        Rule::LargeThresholdBytes => RuleKind::Large,
        Rule::HashWorkers => RuleKind::Count,
        Rule::KeepDuplicate => RuleKind::Policy,
        Rule::JunkDelete => RuleKind::Choice,
        Rule::TempDelete => RuleKind::Choice,
        Rule::ZeroDelete => RuleKind::Choice,
        Rule::GlobalDelete => RuleKind::Mode,
        _ => RuleKind::Switch,
    }
}

fn find_kind(rule: Rule) -> (r: RuleKind)
    ensures
        r == kind_of(rule),
{
    match rule {
        Rule::Exclusions | Rule::Theme => RuleKind::Text,
        Rule::MaxDepth => RuleKind::Small,
        Rule::MaxEntries | Rule::MaxRatio | Rule::ReserveBytes | Rule::LargeThresholdBytes =>
            RuleKind::Large,
        Rule::HashWorkers => RuleKind::Count,
        Rule::KeepDuplicate => RuleKind::Policy,
        Rule::JunkDelete | Rule::TempDelete | Rule::ZeroDelete => RuleKind::Choice,
        Rule::GlobalDelete => RuleKind::Mode,
        _ => RuleKind::Switch,
    }
}

/// What a rule of a kind expects, in words.
pub open spec fn expected_text(kind: RuleKind) -> Seq<char> {
    match kind {
        RuleKind::Switch => "a boolean"@,
        RuleKind::Text => "a string"@,
        RuleKind::Small => "u32"@,
        RuleKind::Large => "u64"@,
        RuleKind::Count => "usize"@,
        _ => "string or map"@,
    }
}

/// The words that a rule of a kind takes, in a row; nothing for one that takes no words.
pub open spec fn known_words(kind: RuleKind) -> Option<Seq<char>> {
    match kind {
        RuleKind::Policy => Some("one of `newest`, `oldest`, `shortest_name`"@),
        RuleKind::Choice => Some("one of `global`, `keep`, `permanent`"@),
        RuleKind::Mode => Some("`keep` or `permanent`"@),
        _ => None,
    }
}

/// How a refused value is shown.
pub open spec fn shown_value(value: SettingView) -> Seq<char> {
    match value {
        SettingView::Bool(b) => if b {
            "boolean `true`"@
        } else {
            "boolean `false`"@
        },
        SettingView::Number(n) => "integer `"@ + text::decimal(n as nat) + "`"@,
        SettingView::Text(s) => "string "@ + text::debug_text(s),
        SettingView::Other => "null"@,
    }
}

/// Why a rule of a kind refuses a value: a word that is not known, a number out of range,
/// or a value of another kind.
pub open spec fn refusal_text(kind: RuleKind, value: SettingView) -> Seq<char> {
    match (known_words(kind), value) {
        (Some(words), SettingView::Text(s)) => "unknown variant `"@ + s + "`, expected "@ + words,
        _ => {
            let what = if value is Number && (kind == RuleKind::Small || kind == RuleKind::Large
                || kind == RuleKind::Count) {
                "invalid value: "@
            } else {
                "invalid type: "@
            };
            what + shown_value(value) + ", expected "@ + expected_text(kind)
        },
    }
}

fn expected_by(kind: RuleKind) -> (r: &'static str)
    ensures
        r@ == expected_text(kind),
{
    match kind {
        RuleKind::Switch => "a boolean",
        RuleKind::Text => "a string",
        RuleKind::Small => "u32",
        RuleKind::Large => "u64",
        RuleKind::Count => "usize",
        _ => "string or map",
    }
}

fn words_of(kind: RuleKind) -> (r: Option<&'static str>)
    ensures
        match r {
            Some(s) => known_words(kind) == Some(s@),
            None => known_words(kind) is None,
        },
{
    match kind {
        RuleKind::Policy => Some("one of `newest`, `oldest`, `shortest_name`"),
        RuleKind::Choice => Some("one of `global`, `keep`, `permanent`"),
        RuleKind::Mode => Some("`keep` or `permanent`"),
        _ => None,
    }
}

fn show_value(value: &Setting) -> (r: String)
    ensures
        r@ == shown_value(value@),
{
    match value {
        Setting::Bool(b) => if *b {
            "boolean `true`".to_owned()
        } else {
            "boolean `false`".to_owned()
        },
        Setting::Number(n) => {
            let mut s = "integer `".to_owned();
            s.append(text::number(*n).as_str());
            s.append("`");
            s
        },
        Setting::Text(t) => {
            let mut s = "string ".to_owned();
            s.append(text::quoted(t.as_str()).as_str());
            s
        },
        Setting::Other => "null".to_owned(),
    }
}

/// Why a rule of a kind refuses a value.
pub fn refusal(kind: RuleKind, value: &Setting) -> (r: String)
    ensures
        r@ == refusal_text(kind, value@),
{
    if let Some(words) = words_of(kind) {
        if let Setting::Text(t) = value {
            let mut s = "unknown variant `".to_owned();
            s.append(t.as_str());
            s.append("`, expected ");
            s.append(words);
            return s;
        }
    }
    let number: bool = match value {
        Setting::Number(_) => true,
        _ => false,
    };
    let mut s = if number && (kind == RuleKind::Small || kind == RuleKind::Large || kind
        == RuleKind::Count) {
        "invalid value: ".to_owned()
    } else {
        "invalid type: ".to_owned()
    };
    s.append(show_value(value).as_str());
    s.append(", expected ");
    s.append(expected_by(kind));
    s
}

/// The message for a rule that was not set.
pub open spec fn setting_error_text(e: SettingError, key: Seq<char>, value: SettingView) -> Seq<
    char,
> {
    match (e, rule_named(key)) {
        (SettingError::Invalid, Some(rule)) => refusal_text(kind_of(rule), value),
        _ => "未知设置："@ + key,
    }
}

impl SettingError {
    /// The message for a rule that was not set to a value.
    pub fn message(self, key: &str, value: &Setting) -> (r: String)
        ensures
            r@ == setting_error_text(self, key@, value@),
    {
        if self == SettingError::Invalid {
            if let Some(rule) = find_rule(key) {
                return refusal(find_kind(rule), value);
            }
        }
        let mut s = "未知设置：".to_owned();
        s.append(key);
        s
    }
}

/// The rules with one switch set, if the rule takes it.
pub open spec fn with_flag(c: Config, rule: Rule, b: bool) -> Option<Config> {
    match rule {
        Rule::Recursive => Some(Config { recursive: b, ..c }),
        Rule::IncludeHidden => Some(Config { include_hidden: b, ..c }),
        Rule::IncludeSystem => Some(Config { include_system: b, ..c }),
        Rule::DedupSameName => Some(Config { dedup_same_name: b, ..c }),
        Rule::DedupCopyNames => Some(Config { dedup_copy_names: b, ..c }),
        Rule::DedupOtherNames => Some(Config { dedup_other_names: b, ..c }),
        Rule::LargeFiles => Some(Config { large_files: b, ..c }),
        Rule::CleanJunk => Some(Config { clean_junk: b, ..c }),
        Rule::CleanTemp => Some(Config { clean_temp: b, ..c }),
        Rule::CleanZero => Some(Config { clean_zero: b, ..c }),
        Rule::CleanCopyName => Some(Config { clean_copy_name: b, ..c }),
        Rule::NormalizeNames => Some(Config { normalize_names: b, ..c }),
        Rule::DetectType => Some(Config { detect_type: b, ..c }),
        Rule::FixExtension => Some(Config { fix_extension: b, ..c }),
        _ => None,
    }
}

/// The rules with one number set, if the rule takes it.
pub open spec fn with_number(c: Config, rule: Rule, n: u64) -> Option<Config> {
    match rule {
        Rule::MaxDepth => if n <= u32::MAX {
            Some(Config { max_depth: n as u32, ..c })
        } else {
            None
        },
        Rule::MaxEntries => Some(Config { max_entries: n, ..c }),
        Rule::MaxRatio => Some(Config { max_ratio: n, ..c }),
        Rule::ReserveBytes => Some(Config { reserve_bytes: n, ..c }),
        Rule::LargeThresholdBytes => Some(Config { large_threshold_bytes: n, ..c }),
        Rule::HashWorkers => if n <= usize::MAX {
            Some(Config { hash_workers: n as usize, ..c })
        } else {
            None
        },
        _ => None,
    }
}

/// The rules with one word set, if the rule takes it.
pub open spec fn with_word(c: Config, rule: Rule, s: Seq<char>) -> Option<Config> {
    match rule {
        Rule::KeepDuplicate => match policy_named(s) {
            Some(v) => Some(Config { keep_duplicate: v, ..c }),
            None => None,
        },
        Rule::JunkDelete => match choice_named(s) {
            Some(v) => Some(Config { junk_delete: v, ..c }),
            None => None,
        },
        Rule::TempDelete => match choice_named(s) {
            Some(v) => Some(Config { temp_delete: v, ..c }),
            None => None,
        },
        Rule::ZeroDelete => match choice_named(s) {
            Some(v) => Some(Config { zero_delete: v, ..c }),
            None => None,
        },
        Rule::GlobalDelete => match mode_named(s) {
            Some(v) => Some(Config { global_delete: v, ..c }),
            None => None,
        },
        _ => None,
    }
}

/// The rules with one text set, if the rule takes it.
pub open spec fn with_string(c: Config, rule: Rule, s: String) -> Option<Config> {
    match rule {
        Rule::Exclusions => Some(Config { exclusions: s, ..c }),
        Rule::Theme => Some(Config { theme: s, ..c }),
        _ => None,
    }
}

/// The rules with one of them set, if the value is one that it takes.
pub open spec fn with_rule(c: Config, rule: Rule, value: Setting) -> Option<Config> {
    match value {
        Setting::Bool(b) => with_flag(c, rule, b),
        Setting::Number(n) => with_number(c, rule, n),
        Setting::Text(s) => match with_word(c, rule, s@) {
            Some(changed) => Some(changed),
            None => with_string(c, rule, s),
        },
        Setting::Other => None,
    }
}

/// The rules with the one of the given name set.
pub open spec fn with_setting(c: Config, key: Seq<char>, value: Setting) -> Result<
    Config,
    SettingError,
> {
    match rule_named(key) {
        None => Err(SettingError::Unknown),
        Some(rule) => match with_rule(c, rule, value) {
            Some(changed) => Ok(changed),
            None => Err(SettingError::Invalid),
        },
    }
}

impl Config {
    fn set_flag(self, rule: Rule, b: bool) -> (r: (Config, bool))
        ensures
            match with_flag(self, rule, b) {
                Some(c) => r == (c, true),
                None => r == (self, false),
            },
    {
        match rule {
            Rule::Recursive => return (Config { recursive: b, ..self }, true),
            Rule::IncludeHidden => return (Config { include_hidden: b, ..self }, true),
            Rule::IncludeSystem => return (Config { include_system: b, ..self }, true),
            Rule::DedupSameName => return (Config { dedup_same_name: b, ..self }, true),
            Rule::DedupCopyNames => return (Config { dedup_copy_names: b, ..self }, true),
            Rule::DedupOtherNames => return (Config { dedup_other_names: b, ..self }, true),
            Rule::LargeFiles => return (Config { large_files: b, ..self }, true),
            Rule::CleanJunk => return (Config { clean_junk: b, ..self }, true),
            Rule::CleanTemp => return (Config { clean_temp: b, ..self }, true),
            Rule::CleanZero => return (Config { clean_zero: b, ..self }, true),
            Rule::CleanCopyName => return (Config { clean_copy_name: b, ..self }, true),
            Rule::NormalizeNames => return (Config { normalize_names: b, ..self }, true),
            Rule::DetectType => return (Config { detect_type: b, ..self }, true),
            Rule::FixExtension => return (Config { fix_extension: b, ..self }, true),
            _ => return (self, false),
        }
    }

    fn set_number(self, rule: Rule, n: u64) -> (r: (Config, bool))
        ensures
            match with_number(self, rule, n) {
                Some(c) => r == (c, true),
                None => r == (self, false),
            },
    {
        match rule {
            Rule::MaxDepth => if n <= u32::MAX as u64 {
                return (Config { max_depth: n as u32, ..self }, true);
            } else {
                return (self, false);
            },
            Rule::MaxEntries => return (Config { max_entries: n, ..self }, true),
            Rule::MaxRatio => return (Config { max_ratio: n, ..self }, true),
            Rule::ReserveBytes => return (Config { reserve_bytes: n, ..self }, true),
            Rule::LargeThresholdBytes => return (Config { large_threshold_bytes: n, ..self }, true),
            Rule::HashWorkers => if n <= usize::MAX as u64 {
                return (Config { hash_workers: n as usize, ..self }, true);
            } else {
                return (self, false);
            },
            _ => return (self, false),
        }
    }

    fn set_word(self, rule: Rule, s: &str) -> (r: (Config, bool))
        ensures
            match with_word(self, rule, s@) {
                Some(c) => r == (c, true),
                None => r == (self, false),
            },
    {
        match rule {
            Rule::KeepDuplicate => match find_policy(s) {
                Some(v) => return (Config { keep_duplicate: v, ..self }, true),
                None => return (self, false),
            },
            Rule::JunkDelete => match find_choice(s) {
                Some(v) => return (Config { junk_delete: v, ..self }, true),
                None => return (self, false),
            },
            Rule::TempDelete => match find_choice(s) {
                Some(v) => return (Config { temp_delete: v, ..self }, true),
                None => return (self, false),
            },
            Rule::ZeroDelete => match find_choice(s) {
                Some(v) => return (Config { zero_delete: v, ..self }, true),
                None => return (self, false),
            },
            Rule::GlobalDelete => match find_mode(s) {
                Some(v) => return (Config { global_delete: v, ..self }, true),
                None => return (self, false),
            },
            _ => return (self, false),
        }
    }

    fn set_string(self, rule: Rule, s: String) -> (r: (Config, bool))
        ensures
            match with_string(self, rule, s) {
                Some(c) => r == (c, true),
                None => r == (self, false),
            },
    {
        match rule {
            Rule::Exclusions => return (Config { exclusions: s, ..self }, true),
            Rule::Theme => return (Config { theme: s, ..self }, true),
            _ => return (self, false),
        }
    }

    /// The rules with one of them set, if the value is one that it takes; else
    /// the rules as they were.
    fn set_rule(self, rule: Rule, value: &Setting) -> (r: (Config, bool))
        ensures
            match with_rule(self, rule, *value) {
                Some(c) => r == (c, true),
                None => r == (self, false),
            },
    {
        match value {
            Setting::Bool(b) => self.set_flag(rule, *b),
            Setting::Number(n) => self.set_number(rule, *n),
            Setting::Text(s) => {
                let (c, ok) = self.set_word(rule, s.as_str());
                if ok {
                    (c, true)
                } else {
                    c.set_string(rule, s.clone())
                }
            },
            Setting::Other => (self, false),
        }
    }

    /// Sets the rule of the given name.
    fn set_field(self, key: &str, value: &Setting) -> (r: (Config, Option<SettingError>))
        ensures
            match with_setting(self, key@, *value) {
                Ok(c) => r == (c, None::<SettingError>),
                Err(e) => r == (self, Some(e)),
            },
    {
        match find_rule(key) {
            None => (self, Some(SettingError::Unknown)),
            Some(rule) => {
                let (c, ok) = self.set_rule(rule, value);
                if ok {
                    (c, None)
                } else {
                    (c, Some(SettingError::Invalid))
                }
            },
        }
    }

    /// Sets one rule by its name; a rule that is refused stays as it was. The
    /// type detection follows the correction of extensions.
    pub fn set_json(&mut self, key: &str, value: &Setting) -> (r: Result<(), SettingError>)
        ensures
            match r {
                Ok(()) => with_setting(*old(self), key@, *value) matches Ok(c) && *final(self)
                    == (Config { detect_type: c.fix_extension, ..c }),
                Err(e) => with_setting(*old(self), key@, *value) == Err::<Config, SettingError>(e)
                    && *final(self) == *old(self),
            },
    {
        let (c, error) = self.copy().set_field(key, value);
        match error {
            Some(e) => Err(e),
            None => {
                *self = c;
                self.detect_type = self.fix_extension;
                Ok(())
            },
        }
    }
}

/// A rule that earlier versions had; stored configurations may still name it.
pub open spec fn is_removed(key: Seq<char>) -> bool {
    ||| key == "hash_algorithm"@
    ||| key == "verify_bytes"@
    ||| key == "recycle_fallback"@
    ||| key == "same_name_same_size"@
    ||| key == "same_size_keep"@
    ||| key == "same_name_different_size"@
    ||| key == "different_size_keep"@
    ||| key == "conflict_scope_directory"@
    ||| key == "extract"@
    ||| key == "classify"@
    ||| key == "output_dir"@
    ||| key == "preserve_structure"@
    ||| key == "custom_categories"@
    ||| key == "merge_directories"@
    ||| key == "flatten_single_child"@
    ||| key == "duplicate_action"@
    ||| key == "duplicate_delete"@
    ||| key == "max_unpacked_gib"@
    ||| key == "max_file_gib"@
    ||| key == "large_threshold_gib"@
    ||| key == "reserve_gib"@
}

fn removed(key: &str) -> (r: bool)
    ensures
        r == is_removed(key@),
{
    text::same(key, "hash_algorithm")
        || text::same(key, "verify_bytes")
        || text::same(key, "recycle_fallback")
        || text::same(key, "same_name_same_size")
        || text::same(key, "same_size_keep")
        || text::same(key, "same_name_different_size")
        || text::same(key, "different_size_keep")
        || text::same(key, "conflict_scope_directory")
        || text::same(key, "extract")
        || text::same(key, "classify")
        || text::same(key, "output_dir")
        || text::same(key, "preserve_structure")
        || text::same(key, "custom_categories")
        || text::same(key, "merge_directories")
        || text::same(key, "flatten_single_child")
        || text::same(key, "duplicate_action")
        || text::same(key, "duplicate_delete")
        || text::same(key, "max_unpacked_gib")
        || text::same(key, "max_file_gib")
        || text::same(key, "large_threshold_gib")
        || text::same(key, "reserve_gib")
}

/// A rule whose value is a way of deleting.
pub open spec fn is_delete_key(key: Seq<char>) -> bool {
    ||| key == "global_delete"@
    ||| key == "junk_delete"@
    ||| key == "temp_delete"@
    ||| key == "zero_delete"@
}

/// The rules with one stored field read: what earlier versions had is passed
/// over, and their recycle bin deletes.
pub open spec fn with_stored(c: Config, key: Seq<char>, value: Setting) -> Result<
    Config,
    SettingError,
> {
    if is_removed(key) {
        Ok(c)
    } else if is_delete_key(key) && (value matches Setting::Text(s) && s@ == "recycle"@) {
        match rule_named(key) {
            None => Err(SettingError::Unknown),
            Some(rule) => match with_word(c, rule, "permanent"@) {
                Some(changed) => Ok(changed),
                None => Err(SettingError::Invalid),
            },
        }
    } else {
        with_setting(c, key, value)
    }
}

/// The rules with the given fields read, one after the other.
pub open spec fn read_fields(c: Config, fields: Seq<(String, Setting)>) -> Result<
    Config,
    SettingError,
>
    decreases fields.len(),
{
    if fields.len() == 0 {
        Ok(c)
    } else {
        match read_fields(c, fields.drop_last()) {
            Err(e) => Err(e),
            Ok(before) => with_stored(before, fields.last().0@, fields.last().1),
        }
    }
}

/// An error among the first fields stays.
proof fn read_error_stays(c: Config, fields: Seq<(String, Setting)>, n: int, e: SettingError)
    requires
        0 <= n <= fields.len(),
        read_fields(c, fields.take(n)) == Err::<Config, SettingError>(e),
    ensures
        read_fields(c, fields) == Err::<Config, SettingError>(e),
    decreases fields.len(),
{
    if n < fields.len() {
        assert(fields.drop_last().take(n) =~= fields.take(n));
        read_error_stays(c, fields.drop_last(), n, e);
    } else {
        assert(fields.take(n) =~= fields);
    }
}

/// Whether a stored value is the recycle bin of a rule on deleting.
fn recycles(key: &str, value: &Setting) -> (r: bool)
    ensures
        r == (is_delete_key(key@) && (*value matches Setting::Text(s) && s@ == "recycle"@)),
{
    let delete_key = text::same(key, "global_delete") || text::same(key, "junk_delete")
        || text::same(key, "temp_delete") || text::same(key, "zero_delete");
    match value {
        Setting::Text(s) => delete_key && text::same(s.as_str(), "recycle"),
        _ => false,
    }
}

impl Config {
    /// Reads one stored field.
    fn read_field(self, key: &str, value: &Setting) -> (r: (Config, Option<SettingError>))
        ensures
            match with_stored(self, key@, *value) {
                Ok(c) => r == (c, None::<SettingError>),
                Err(e) => r == (self, Some(e)),
            },
    {
        if removed(key) {
            return (self, None);
        }
        if !recycles(key, value) {
            return self.set_field(key, value);
        }
        match find_rule(key) {
            None => (self, Some(SettingError::Unknown)),
            Some(rule) => {
                let (c, ok) = self.set_word(rule, "permanent");
                if ok {
                    (c, None)
                } else {
                    (c, Some(SettingError::Invalid))
                }
            },
        }
    }

    /// The rules with stored fields read into them: what earlier versions had
    /// is passed over, anything else unknown is an error. The type detection
    /// follows the correction of extensions.
    pub fn with_fields(self, fields: &Vec<(String, Setting)>) -> (r: Result<Config, SettingError>)
        ensures
            match r {
                Ok(c) => read_fields(self, fields@) matches Ok(v) && c == (Config {
                    detect_type: v.fix_extension,
                    ..v
                }),
                Err(e) => read_fields(self, fields@) == Err::<Config, SettingError>(e),
            },
    {
        let ghost start = self;
        let mut c = self;
        let mut i: usize = 0;
        assert(fields@.take(0) =~= Seq::<(String, Setting)>::empty());
        while i < fields.len()
            invariant
                start == self,
                i <= fields@.len(),
                read_fields(start, fields@.take(i as int)) == Ok::<Config, SettingError>(c),
            decreases fields.len() - i,
        {
            assert(fields@.take(i + 1).drop_last() =~= fields@.take(i as int));
            assert(fields@.take(i + 1).last() == fields@[i as int]);
            let (next, error) = c.read_field(fields[i].0.as_str(), &fields[i].1);
            if let Some(e) = error {
                proof {
                    read_error_stays(start, fields@, i + 1, e);
                }
                return Err(e);
            }
            c = next;
            i = i + 1;
        }
        assert(fields@.take(i as int) =~= fields@);
        c.detect_type = c.fix_extension;
        Ok(c)
    }
}

/// The name of a choice.
pub open spec fn choice_name(v: DeleteChoice) -> Seq<char> {
    match v {
        DeleteChoice::Global => "global"@,
        DeleteChoice::Keep => "keep"@,
        DeleteChoice::Permanent => "permanent"@,
    }
}

/// The name of a mode.
pub open spec fn mode_name(v: DeleteMode) -> Seq<char> {
    match v {
        DeleteMode::Keep => "keep"@,
        DeleteMode::Permanent => "permanent"@,
    }
}

/// The name of a policy.
pub open spec fn policy_name(v: KeepPolicy) -> Seq<char> {
    match v {
        KeepPolicy::Newest => "newest"@,
        KeepPolicy::Oldest => "oldest"@,
        KeepPolicy::ShortestName => "shortest_name"@,
    }
}

/// The value of a rule.
pub open spec fn rule_value(c: Config, rule: Rule) -> SettingView {
    match rule {
        Rule::Recursive => SettingView::Bool(c.recursive),
        Rule::IncludeHidden => SettingView::Bool(c.include_hidden),
        Rule::IncludeSystem => SettingView::Bool(c.include_system),
        Rule::Exclusions => SettingView::Text(c.exclusions@),
        Rule::MaxDepth => SettingView::Number(c.max_depth as u64),
        Rule::MaxEntries => SettingView::Number(c.max_entries),
        Rule::MaxRatio => SettingView::Number(c.max_ratio),
        Rule::ReserveBytes => SettingView::Number(c.reserve_bytes),
        Rule::DedupSameName => SettingView::Bool(c.dedup_same_name),
        Rule::DedupCopyNames => SettingView::Bool(c.dedup_copy_names),
        Rule::DedupOtherNames => SettingView::Bool(c.dedup_other_names),
        Rule::KeepDuplicate => SettingView::Text(policy_name(c.keep_duplicate)),
        Rule::LargeFiles => SettingView::Bool(c.large_files),
        Rule::LargeThresholdBytes => SettingView::Number(c.large_threshold_bytes),
        Rule::CleanJunk => SettingView::Bool(c.clean_junk),
        Rule::JunkDelete => SettingView::Text(choice_name(c.junk_delete)),
        Rule::CleanTemp => SettingView::Bool(c.clean_temp),
        Rule::TempDelete => SettingView::Text(choice_name(c.temp_delete)),
        Rule::CleanZero => SettingView::Bool(c.clean_zero),
        Rule::ZeroDelete => SettingView::Text(choice_name(c.zero_delete)),
        Rule::CleanCopyName => SettingView::Bool(c.clean_copy_name),
        Rule::NormalizeNames => SettingView::Bool(c.normalize_names),
        Rule::DetectType => SettingView::Bool(c.detect_type),
        Rule::FixExtension => SettingView::Bool(c.fix_extension),
        Rule::GlobalDelete => SettingView::Text(mode_name(c.global_delete)),
        Rule::HashWorkers => SettingView::Number(c.hash_workers as u64),
        Rule::Theme => SettingView::Text(c.theme@),
    }
}

/// The value of the rule with this name; of no kind where there is none.
pub open spec fn setting_of(c: Config, key: Seq<char>) -> SettingView {
    match rule_named(key) {
        Some(rule) => rule_value(c, rule),
        None => SettingView::Other,
    }
}

fn word_of_choice(v: DeleteChoice) -> (r: Setting)
    ensures
        r@ == SettingView::Text(choice_name(v)),
{
    match v {
        DeleteChoice::Global => Setting::Text("global".to_owned()),
        DeleteChoice::Keep => Setting::Text("keep".to_owned()),
        DeleteChoice::Permanent => Setting::Text("permanent".to_owned()),
    }
}

fn word_of_mode(v: DeleteMode) -> (r: Setting)
    ensures
        r@ == SettingView::Text(mode_name(v)),
{
    match v {
        DeleteMode::Keep => Setting::Text("keep".to_owned()),
        DeleteMode::Permanent => Setting::Text("permanent".to_owned()),
    }
}

fn word_of_policy(v: KeepPolicy) -> (r: Setting)
    ensures
        r@ == SettingView::Text(policy_name(v)),
{
    match v {
        KeepPolicy::Newest => Setting::Text("newest".to_owned()),
        KeepPolicy::Oldest => Setting::Text("oldest".to_owned()),
        KeepPolicy::ShortestName => Setting::Text("shortest_name".to_owned()),
    }
}

impl Config {
    /// The value of the rule with this name.
    pub fn get_json(&self, key: &str) -> (r: Setting)
        ensures
            r@ == setting_of(*self, key@),
    {
        match find_rule(key) {
            None => Setting::Other,
            Some(rule) => match rule {
                Rule::Recursive => Setting::Bool(self.recursive),
                Rule::IncludeHidden => Setting::Bool(self.include_hidden),
                Rule::IncludeSystem => Setting::Bool(self.include_system),
                Rule::Exclusions => Setting::Text(self.exclusions.clone()),
                Rule::MaxDepth => Setting::Number(self.max_depth as u64),
                Rule::MaxEntries => Setting::Number(self.max_entries),
                Rule::MaxRatio => Setting::Number(self.max_ratio),
                Rule::ReserveBytes => Setting::Number(self.reserve_bytes),
                Rule::DedupSameName => Setting::Bool(self.dedup_same_name),
                Rule::DedupCopyNames => Setting::Bool(self.dedup_copy_names),
                Rule::DedupOtherNames => Setting::Bool(self.dedup_other_names),
                Rule::KeepDuplicate => word_of_policy(self.keep_duplicate),
                Rule::LargeFiles => Setting::Bool(self.large_files),
                Rule::LargeThresholdBytes => Setting::Number(self.large_threshold_bytes),
                Rule::CleanJunk => Setting::Bool(self.clean_junk),
                Rule::JunkDelete => word_of_choice(self.junk_delete),
                Rule::CleanTemp => Setting::Bool(self.clean_temp),
                Rule::TempDelete => word_of_choice(self.temp_delete),
                Rule::CleanZero => Setting::Bool(self.clean_zero),
                Rule::ZeroDelete => word_of_choice(self.zero_delete),
                Rule::CleanCopyName => Setting::Bool(self.clean_copy_name),
                Rule::NormalizeNames => Setting::Bool(self.normalize_names),
                Rule::DetectType => Setting::Bool(self.detect_type),
                Rule::FixExtension => Setting::Bool(self.fix_extension),
                Rule::GlobalDelete => word_of_mode(self.global_delete),
                Rule::HashWorkers => Setting::Number(self.hash_workers as u64),
                Rule::Theme => Setting::Text(self.theme.clone()),
            },
        }
    }
}

proof fn first_flags_are_read_back(c: Config, rule: Rule, b: bool)
    requires
        with_flag(c, rule, b) is Some,
        rule == Rule::Recursive || rule == Rule::IncludeHidden || rule == Rule::IncludeSystem
            || rule == Rule::DedupSameName || rule == Rule::DedupCopyNames,
    ensures
        rule_value(with_flag(c, rule, b)->0, rule) == SettingView::Bool(b),
{
}

proof fn middle_flags_are_read_back(c: Config, rule: Rule, b: bool)
    requires
        with_flag(c, rule, b) is Some,
        rule == Rule::DedupOtherNames || rule == Rule::LargeFiles || rule == Rule::CleanJunk
            || rule == Rule::CleanTemp || rule == Rule::CleanZero,
    ensures
        rule_value(with_flag(c, rule, b)->0, rule) == SettingView::Bool(b),
{
}

proof fn last_flags_are_read_back(c: Config, rule: Rule, b: bool)
    requires
        with_flag(c, rule, b) is Some,
        rule == Rule::CleanCopyName || rule == Rule::NormalizeNames || rule == Rule::DetectType
            || rule == Rule::FixExtension,
    ensures
        rule_value(with_flag(c, rule, b)->0, rule) == SettingView::Bool(b),
{
}

proof fn flag_is_read_back(c: Config, rule: Rule, b: bool)
    requires
        with_flag(c, rule, b) is Some,
    ensures
        rule_value(with_flag(c, rule, b)->0, rule) == SettingView::Bool(b),
{
    if rule == Rule::Recursive || rule == Rule::IncludeHidden || rule == Rule::IncludeSystem
        || rule == Rule::DedupSameName || rule == Rule::DedupCopyNames {
        first_flags_are_read_back(c, rule, b);
    } else if rule == Rule::DedupOtherNames || rule == Rule::LargeFiles
        || rule == Rule::CleanJunk || rule == Rule::CleanTemp || rule == Rule::CleanZero {
        middle_flags_are_read_back(c, rule, b);
    } else if rule == Rule::CleanCopyName || rule == Rule::NormalizeNames
        || rule == Rule::DetectType || rule == Rule::FixExtension {
        last_flags_are_read_back(c, rule, b);
    }
}

proof fn number_is_read_back(c: Config, rule: Rule, n: u64)
    requires
        with_number(c, rule, n) is Some,
    ensures
        rule_value(with_number(c, rule, n)->0, rule) == SettingView::Number(n),
{
}

proof fn choice_is_read_back(c: Config, rule: Rule, s: Seq<char>)
    requires
        with_word(c, rule, s) is Some,
        rule == Rule::JunkDelete || rule == Rule::TempDelete || rule == Rule::ZeroDelete,
    ensures
        rule_value(with_word(c, rule, s)->0, rule) == SettingView::Text(s),
{
    let v = choice_named(s)->0;
    assert(choice_name(v) == s);
}

proof fn policy_is_read_back(c: Config, rule: Rule, s: Seq<char>)
    requires
        with_word(c, rule, s) is Some,
        rule == Rule::KeepDuplicate,
    ensures
        rule_value(with_word(c, rule, s)->0, rule) == SettingView::Text(s),
{
    assert(policy_name(policy_named(s)->0) == s);
}

proof fn mode_is_read_back(c: Config, rule: Rule, s: Seq<char>)
    requires
        with_word(c, rule, s) is Some,
        rule == Rule::GlobalDelete,
    ensures
        rule_value(with_word(c, rule, s)->0, rule) == SettingView::Text(s),
{
    assert(mode_name(mode_named(s)->0) == s);
}

proof fn word_is_read_back(c: Config, rule: Rule, s: Seq<char>)
    requires
        with_word(c, rule, s) is Some,
    ensures
        rule_value(with_word(c, rule, s)->0, rule) == SettingView::Text(s),
{
    if rule == Rule::KeepDuplicate {
        policy_is_read_back(c, rule, s);
    } else if rule == Rule::GlobalDelete {
        mode_is_read_back(c, rule, s);
    } else if rule == Rule::JunkDelete || rule == Rule::TempDelete || rule == Rule::ZeroDelete {
        choice_is_read_back(c, rule, s);
    }
}

proof fn string_is_read_back(c: Config, rule: Rule, s: String)
    requires
        with_string(c, rule, s) is Some,
    ensures
        rule_value(with_string(c, rule, s)->0, rule) == SettingView::Text(s@),
{
}

/// What a rule was set to is what it is read as.
pub proof fn law_setting_is_read_back(c: Config, key: Seq<char>, value: Setting)
    requires
        with_setting(c, key, value) is Ok,
    ensures
        setting_of(with_setting(c, key, value)->Ok_0, key) == value@,
{
    let rule = rule_named(key)->0;
    match value {
        Setting::Bool(b) => {
            flag_is_read_back(c, rule, b);
        },
        Setting::Number(n) => {
            number_is_read_back(c, rule, n);
        },
        Setting::Text(s) => {
            if with_word(c, rule, s@) is Some {
                word_is_read_back(c, rule, s@);
            } else {
                string_is_read_back(c, rule, s);
            }
        },
        Setting::Other => {},
    }
}

/// However a configuration was set or read, type detection follows the
/// correction of extensions.
pub proof fn law_detection_follows(c: Config, key: Seq<char>, value: Setting)
    requires
        with_setting(c, key, value) is Ok,
    ensures
        ({
            let v = with_setting(c, key, value)->Ok_0;
            let set = Config { detect_type: v.fix_extension, ..v };
            set.detect_type == set.fix_extension
        }),
{
}

/// The numbers are in range and the theme is known exactly where nothing is wrong; what is
/// said to be wrong is the first rule that is out of its range.
pub proof fn law_which_rules_are_in_range(c: Config)
    ensures
        ({
            let workers = 1 <= c.hash_workers <= 16;
            let depth = 1 <= c.max_depth <= 64;
            let entries = 1 <= c.max_entries <= 1_000_000_000;
            let ratio = c.max_ratio <= 1_000_000_000;
            let reserve = c.reserve_bytes <= 0x7fff_ffff_ffff_ffff;
            let large = 1 <= c.large_threshold_bytes <= 0x7fff_ffff_ffff_ffff;
            let theme = c.theme@ == "system"@ || c.theme@ == "light"@ || c.theme@ == "dark"@;
            &&& range_problem(c) is None <==> workers && depth && entries && ratio && reserve
                && large && theme
            &&& range_problem(c) == Some(ConfigError::HashWorkers) <==> !workers
            &&& range_problem(c) == Some(ConfigError::MaxDepth) <==> workers && !depth
            &&& range_problem(c) == Some(ConfigError::MaxEntries) <==> workers && depth && !entries
            &&& range_problem(c) == Some(ConfigError::MaxRatio) <==> workers && depth && entries
                && !ratio
            &&& range_problem(c) == Some(ConfigError::ReserveBytes) <==> workers && depth && entries
                && ratio && !reserve
            &&& range_problem(c) == Some(ConfigError::LargeThreshold) <==> workers && depth
                && entries && ratio && reserve && !large
            &&& range_problem(c) == Some(ConfigError::Theme) <==> workers && depth && entries
                && ratio && reserve && large && !theme
        }),
{
}

/// The rules before the user changes any are in range, keep within the tree, delete nothing
/// but by-products of the system, and compare only files with equal names.
pub proof fn law_defaults_are_careful(c: Config)
    requires
        is_default(c),
    ensures
        range_problem(c) is None,
        c.exclusions@.len() == 0,
        !c.clean_temp && !c.clean_zero && !c.large_files && !c.dedup_other_names,
        !c.fix_extension && !c.detect_type,
        c.recursive && c.include_hidden && c.include_system,
        c.clean_junk && c.dedup_same_name && c.dedup_copy_names,
        resolved(c.junk_delete, c.global_delete) == DeleteMode::Permanent,
        c.keep_duplicate == KeepPolicy::Newest,
        c.reserve_bytes == 1024 * 1024 * 1024 && c.large_threshold_bytes == 1024 * 1024 * 1024,
        c.max_depth == 16 && c.max_entries == 1_000_000 && c.max_ratio == 10_000 && c.hash_workers
            == 6,
{
}

/// A kind of file is kept where its own choice says so, or where it has none and the common
/// one says so; else it is deleted.
pub proof fn law_own_choices_come_first(choice: DeleteChoice, global: DeleteMode)
    ensures
        resolved(choice, global) == DeleteMode::Keep <==> choice == DeleteChoice::Keep || (choice
            == DeleteChoice::Global && global == DeleteMode::Keep),
        resolved(choice, global) == DeleteMode::Permanent <==> choice == DeleteChoice::Permanent
            || (choice == DeleteChoice::Global && global == DeleteMode::Permanent),
{
}

/// The words for the ways of deleting and for what is kept, both ways.
pub proof fn law_words_of_choices()
    ensures
        choice_named("global"@) == Some(DeleteChoice::Global),
        choice_named("keep"@) == Some(DeleteChoice::Keep),
        choice_named("permanent"@) == Some(DeleteChoice::Permanent),
        mode_named("keep"@) == Some(DeleteMode::Keep),
        mode_named("permanent"@) == Some(DeleteMode::Permanent),
        policy_named("newest"@) == Some(KeepPolicy::Newest),
        policy_named("oldest"@) == Some(KeepPolicy::Oldest),
        policy_named("shortest_name"@) == Some(KeepPolicy::ShortestName),
        choice_named("recycle"@) is None,
        mode_named("global"@) is None,
        forall|v: DeleteChoice| choice_named(#[trigger] choice_name(v)) == Some(v),
        forall|v: DeleteMode| mode_named(#[trigger] mode_name(v)) == Some(v),
        forall|v: KeepPolicy| policy_named(#[trigger] policy_name(v)) == Some(v),
{
    reveal_strlit("global");
    reveal_strlit("keep");
    reveal_strlit("permanent");
    reveal_strlit("newest");
    reveal_strlit("oldest");
    reveal_strlit("shortest_name");
    reveal_strlit("recycle");
    assert("newest"@[0] == 'n');
    assert("oldest"@[0] == 'o');
    assert("global"@.len() == 6);
    assert("recycle"@.len() == 7);
    assert("permanent"@.len() == 9);
    assert("keep"@.len() == 4);
    assert("shortest_name"@.len() == 13);
}

/// The warning says for each kind of file whether it is kept, deleted or left alone, each
/// behind its own name.
pub proof fn law_the_warning_tells_what_happens(c: Config)
    ensures
        ({
            let word = |enabled: bool, choice: DeleteChoice|
                if !enabled {
                    "不清理"@
                } else if choice == DeleteChoice::Keep || (choice == DeleteChoice::Global
                    && c.global_delete == DeleteMode::Keep) {
                    "保留"@
                } else {
                    "永久删除"@
                };
            text::has_prefix(
                warning_text(c),
                "重复副本："@ + word(true, DeleteChoice::Global) + "；系统附属文件："@ + word(
                    c.clean_junk,
                    c.junk_delete,
                ) + "；临时与备份文件："@ + word(c.clean_temp, c.temp_delete)
                    + "；零字节文件："@ + word(c.clean_zero, c.zero_delete)
                    + "；空目录：永久删除（不可关闭）"@,
            )
        }),
{
    let junk = category_label(c.clean_junk, c.junk_delete, c.global_delete);
    let temp = category_label(c.clean_temp, c.temp_delete, c.global_delete);
    let zero = category_label(c.clean_zero, c.zero_delete, c.global_delete);
    let start = "重复副本："@ + mode_label(c.global_delete) + "；系统附属文件："@ + junk
        + "；临时与备份文件："@ + temp + "；零字节文件："@ + zero;
    let short = "；空目录：永久删除（不可关闭）"@;
    let long =
        "；空目录：永久删除（不可关闭）；Git 项目：整体移入「Git项目集合」（固定行为）。\n删除一律为永久删除，不经回收站、不可由本软件恢复；用户取消不会触发任何删除。没有自动回滚；请确认目录和规则。"@;
    reveal_strlit("；空目录：永久删除（不可关闭）");
    reveal_strlit(
        "；空目录：永久删除（不可关闭）；Git 项目：整体移入「Git项目集合」（固定行为）。\n删除一律为永久删除，不经回收站、不可由本软件恢复；用户取消不会触发任何删除。没有自动回滚；请确认目录和规则。",
    );
    assert(long.take(short.len() as int) =~= short);
    assert(warning_text(c) == start + long);
    assert((start + long).take((start + short).len() as int) =~= start + short);
}

/// A switch takes a truth value, a number a number that fits it, a text any text, and the
/// other rules one of their words; nothing else is taken.
pub proof fn law_which_values_rules_take(c: Config, rule: Rule, value: Setting)
    ensures
        with_rule(c, rule, value) is Some <==> match value {
            Setting::Bool(_) => rule != Rule::Exclusions && rule != Rule::Theme && rule
                != Rule::MaxDepth && rule != Rule::MaxEntries && rule != Rule::MaxRatio && rule
                != Rule::ReserveBytes && rule != Rule::LargeThresholdBytes && rule
                != Rule::HashWorkers && rule != Rule::KeepDuplicate && rule != Rule::JunkDelete
                && rule != Rule::TempDelete && rule != Rule::ZeroDelete && rule
                != Rule::GlobalDelete,
            Setting::Number(n) => (rule == Rule::MaxDepth && n <= 0xffff_ffff) || rule
                == Rule::MaxEntries || rule == Rule::MaxRatio || rule == Rule::ReserveBytes || rule
                == Rule::LargeThresholdBytes || (rule == Rule::HashWorkers && n <= usize::MAX),
            Setting::Text(s) => rule == Rule::Exclusions || rule == Rule::Theme || (rule
                == Rule::KeepDuplicate && policy_named(s@) is Some) || ((rule == Rule::JunkDelete
                || rule == Rule::TempDelete || rule == Rule::ZeroDelete) && choice_named(s@) is Some)
                || (rule == Rule::GlobalDelete && mode_named(s@) is Some),
            Setting::Other => false,
        },
        with_rule(c, rule, value) is Some <==> match kind_of(rule) {
            RuleKind::Switch => value is Bool,
            RuleKind::Small => value matches Setting::Number(n) && n <= 0xffff_ffff,
            RuleKind::Large => value is Number,
            RuleKind::Count => value matches Setting::Number(n) && n <= usize::MAX,
            RuleKind::Text => value is Text,
            RuleKind::Policy => value matches Setting::Text(s) && policy_named(s@) is Some,
            RuleKind::Choice => value matches Setting::Text(s) && choice_named(s@) is Some,
            RuleKind::Mode => value matches Setting::Text(s) && mode_named(s@) is Some,
        },
{
}

/// Rules of earlier versions are passed over, whatever they were set to.
pub proof fn law_old_rules_are_passed_over(c: Config, key: Seq<char>, value: Setting)
    requires
        seq![
            "hash_algorithm"@,
            "verify_bytes"@,
            "recycle_fallback"@,
            "same_name_same_size"@,
            "same_size_keep"@,
            "same_name_different_size"@,
            "different_size_keep"@,
            "conflict_scope_directory"@,
            "extract"@,
            "classify"@,
            "output_dir"@,
            "preserve_structure"@,
            "custom_categories"@,
            "merge_directories"@,
            "flatten_single_child"@,
            "duplicate_action"@,
            "duplicate_delete"@,
            "max_unpacked_gib"@,
            "max_file_gib"@,
            "large_threshold_gib"@,
            "reserve_gib"@,
        ].contains(key),
    ensures
        with_stored(c, key, value) == Ok::<Config, SettingError>(c),
{
}

/// The recycle bin of earlier versions deletes for good: a stored rule on deleting that
/// names it is read as one that deletes.
pub proof fn law_the_recycle_bin_deletes(c: Config, key: Seq<char>, bin: Setting, gone: Setting)
    requires
        key == "global_delete"@ || key == "junk_delete"@ || key == "temp_delete"@ || key
            == "zero_delete"@,
        bin@ == SettingView::Text("recycle"@),
        gone@ == SettingView::Text("permanent"@),
        !is_removed(key),
        rule_named(key) is Some,
        kind_of(rule_named(key)->0) == RuleKind::Choice || kind_of(rule_named(key)->0)
            == RuleKind::Mode,
    ensures
        with_stored(c, key, bin) == with_stored(c, key, gone),
        with_stored(c, key, bin) is Ok,
        with_stored(c, key, bin) matches Ok(d) ==> rule_value(d, rule_named(key)->0)
            == SettingView::Text("permanent"@),
{
    reveal_strlit("recycle");
    reveal_strlit("permanent");
    assert("recycle"@.len() == 7);
    assert("permanent"@.len() == 9);
    law_words_of_choices();
    let rule = rule_named(key)->0;
    word_is_read_back(c, rule, "permanent"@);
}

/// Fields are read one after the other, from the first to the last; the first that is
/// refused ends it.
pub proof fn law_fields_are_read_in_order(c: Config, a: Seq<(String, Setting)>, b: (String, Setting))
    ensures
        read_fields(c, Seq::empty()) == Ok::<Config, SettingError>(c),
        read_fields(c, a) matches Ok(d) ==> read_fields(c, a.push(b)) == with_stored(d, b.0@, b.1),
        read_fields(c, a) matches Err(e) ==> read_fields(c, a.push(b)) == Err::<
            Config,
            SettingError,
        >(e),
{
    assert(a.push(b).drop_last() =~= a);
}

/// Two sets of rules plan the same exactly where they agree in every rule but the theme.
pub proof fn law_only_the_theme_does_not_matter(a: Config, b: Config)
    ensures
        plans_alike(a, b) <==> forall|rule: Rule|
            rule != Rule::Theme ==> #[trigger] rule_value(a, rule) == rule_value(b, rule),
{
    if plans_alike(a, b) {
        assert forall|rule: Rule| rule != Rule::Theme implies #[trigger] rule_value(a, rule)
            == rule_value(b, rule) by {
            alike_in_value(a, b, rule);
        }
    }
    if forall|rule: Rule|
        rule != Rule::Theme ==> #[trigger] rule_value(a, rule) == rule_value(b, rule) {
        first_rules_agree(a, b);
        last_rules_agree(a, b);
    }
}

proof fn alike_in_value(a: Config, b: Config, rule: Rule)
    requires
        plans_alike(a, b),
        rule != Rule::Theme,
    ensures
        rule_value(a, rule) == rule_value(b, rule),
{
}

proof fn first_rules_agree(a: Config, b: Config)
    requires
        forall|rule: Rule|
            rule != Rule::Theme ==> #[trigger] rule_value(a, rule) == rule_value(b, rule),
    ensures
        a.recursive == b.recursive,
        a.include_hidden == b.include_hidden,
        a.include_system == b.include_system,
        a.exclusions@ == b.exclusions@,
        a.max_depth == b.max_depth,
        a.max_entries == b.max_entries,
        a.max_ratio == b.max_ratio,
        a.reserve_bytes == b.reserve_bytes,
        a.dedup_same_name == b.dedup_same_name,
        a.dedup_copy_names == b.dedup_copy_names,
        a.dedup_other_names == b.dedup_other_names,
        a.keep_duplicate == b.keep_duplicate,
        a.large_files == b.large_files,
{
    law_words_of_choices();
    assert(rule_value(a, Rule::Recursive) == rule_value(b, Rule::Recursive));
    assert(rule_value(a, Rule::IncludeHidden) == rule_value(b, Rule::IncludeHidden));
    assert(rule_value(a, Rule::IncludeSystem) == rule_value(b, Rule::IncludeSystem));
    assert(rule_value(a, Rule::Exclusions) == rule_value(b, Rule::Exclusions));
    assert(rule_value(a, Rule::MaxDepth) == rule_value(b, Rule::MaxDepth));
    assert(rule_value(a, Rule::MaxEntries) == rule_value(b, Rule::MaxEntries));
    assert(rule_value(a, Rule::MaxRatio) == rule_value(b, Rule::MaxRatio));
    assert(rule_value(a, Rule::ReserveBytes) == rule_value(b, Rule::ReserveBytes));
    assert(rule_value(a, Rule::DedupSameName) == rule_value(b, Rule::DedupSameName));
    assert(rule_value(a, Rule::DedupCopyNames) == rule_value(b, Rule::DedupCopyNames));
    assert(rule_value(a, Rule::DedupOtherNames) == rule_value(b, Rule::DedupOtherNames));
    assert(rule_value(a, Rule::KeepDuplicate) == rule_value(b, Rule::KeepDuplicate));
    assert(policy_named(policy_name(a.keep_duplicate)) == Some(a.keep_duplicate));
    assert(policy_named(policy_name(b.keep_duplicate)) == Some(b.keep_duplicate));
    assert(rule_value(a, Rule::LargeFiles) == rule_value(b, Rule::LargeFiles));
}

proof fn last_rules_agree(a: Config, b: Config)
    requires
        forall|rule: Rule|
            rule != Rule::Theme ==> #[trigger] rule_value(a, rule) == rule_value(b, rule),
    ensures
        a.large_threshold_bytes == b.large_threshold_bytes,
        a.clean_junk == b.clean_junk,
        a.junk_delete == b.junk_delete,
        a.clean_temp == b.clean_temp,
        a.temp_delete == b.temp_delete,
        a.clean_zero == b.clean_zero,
        a.zero_delete == b.zero_delete,
        a.clean_copy_name == b.clean_copy_name,
        a.normalize_names == b.normalize_names,
        a.detect_type == b.detect_type,
        a.fix_extension == b.fix_extension,
        a.global_delete == b.global_delete,
        a.hash_workers == b.hash_workers,
{
    law_words_of_choices();
    assert(rule_value(a, Rule::LargeThresholdBytes) == rule_value(b, Rule::LargeThresholdBytes));
    assert(rule_value(a, Rule::CleanJunk) == rule_value(b, Rule::CleanJunk));
    assert(rule_value(a, Rule::JunkDelete) == rule_value(b, Rule::JunkDelete));
    assert(choice_named(choice_name(a.junk_delete)) == Some(a.junk_delete));
    assert(choice_named(choice_name(b.junk_delete)) == Some(b.junk_delete));
    assert(rule_value(a, Rule::CleanTemp) == rule_value(b, Rule::CleanTemp));
    assert(rule_value(a, Rule::TempDelete) == rule_value(b, Rule::TempDelete));
    assert(choice_named(choice_name(a.temp_delete)) == Some(a.temp_delete));
    assert(choice_named(choice_name(b.temp_delete)) == Some(b.temp_delete));
    assert(rule_value(a, Rule::CleanZero) == rule_value(b, Rule::CleanZero));
    assert(rule_value(a, Rule::ZeroDelete) == rule_value(b, Rule::ZeroDelete));
    assert(choice_named(choice_name(a.zero_delete)) == Some(a.zero_delete));
    assert(choice_named(choice_name(b.zero_delete)) == Some(b.zero_delete));
    assert(rule_value(a, Rule::CleanCopyName) == rule_value(b, Rule::CleanCopyName));
    assert(rule_value(a, Rule::NormalizeNames) == rule_value(b, Rule::NormalizeNames));
    assert(rule_value(a, Rule::DetectType) == rule_value(b, Rule::DetectType));
    assert(rule_value(a, Rule::FixExtension) == rule_value(b, Rule::FixExtension));
    assert(rule_value(a, Rule::GlobalDelete) == rule_value(b, Rule::GlobalDelete));
    assert(mode_named(mode_name(a.global_delete)) == Some(a.global_delete));
    assert(mode_named(mode_name(b.global_delete)) == Some(b.global_delete));
    assert(rule_value(a, Rule::HashWorkers) == rule_value(b, Rule::HashWorkers));
}

/// A refusal tells what was given and what would have been taken.
pub proof fn law_refusals_tell_why(kind: RuleKind, s: Seq<char>, n: u64, b: bool)
    ensures
        refusal_text(RuleKind::Policy, SettingView::Text(s)) == "unknown variant `"@ + s
            + "`, expected one of `newest`, `oldest`, `shortest_name`"@,
        refusal_text(RuleKind::Choice, SettingView::Text(s)) == "unknown variant `"@ + s
            + "`, expected one of `global`, `keep`, `permanent`"@,
        refusal_text(RuleKind::Mode, SettingView::Text(s)) == "unknown variant `"@ + s
            + "`, expected `keep` or `permanent`"@,
        refusal_text(RuleKind::Small, SettingView::Number(n)) == "invalid value: integer `"@
            + text::decimal(n as nat) + "`, expected u32"@,
        refusal_text(RuleKind::Switch, SettingView::Number(n)) == "invalid type: integer `"@
            + text::decimal(n as nat) + "`, expected a boolean"@,
        refusal_text(RuleKind::Large, SettingView::Bool(b)) == "invalid type: boolean `"@ + (if b {
            "true"@
        } else {
            "false"@
        }) + "`, expected u64"@,
        refusal_text(RuleKind::Text, SettingView::Other) == "invalid type: null, expected a string"@,
        refusal_text(RuleKind::Count, SettingView::Other) == "invalid type: null, expected usize"@,
{
    reveal_strlit("`, expected ");
    reveal_strlit("`, expected one of `newest`, `oldest`, `shortest_name`");
    reveal_strlit("one of `newest`, `oldest`, `shortest_name`");
    reveal_strlit("`, expected one of `global`, `keep`, `permanent`");
    reveal_strlit("one of `global`, `keep`, `permanent`");
    reveal_strlit("`, expected `keep` or `permanent`");
    reveal_strlit("`keep` or `permanent`");
    reveal_strlit("invalid value: integer `");
    reveal_strlit("invalid value: ");
    reveal_strlit("invalid type: integer `");
    reveal_strlit("invalid type: ");
    reveal_strlit("integer `");
    reveal_strlit("`");
    reveal_strlit(", expected ");
    reveal_strlit("u32");
    reveal_strlit("u64");
    reveal_strlit("usize");
    reveal_strlit("a boolean");
    reveal_strlit("a string");
    reveal_strlit("`, expected u32");
    reveal_strlit("`, expected u64");
    reveal_strlit("`, expected a boolean");
    reveal_strlit("invalid type: boolean `");
    reveal_strlit("true");
    reveal_strlit("false");
    reveal_strlit("boolean `true`");
    reveal_strlit("boolean `false`");
    reveal_strlit("null");
    reveal_strlit("invalid type: null, expected a string");
    reveal_strlit("invalid type: null, expected usize");
}

} // verus!
