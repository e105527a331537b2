//! The command line.

use crate::model::{Action, ActionKind};
use crate::text;
use vstd::prelude::*;

verus! {

/// The help text.
pub const HELP: &'static str = "JchTools CLI\n用法：\n  jchtools-cli defaults <配置文件.json> [--force]\n  jchtools-cli analyze <目录> [--config 配置文件.json] [--extract --yes] [--engine 完整引擎绝对路径] [--state 状态目录]\n  jchtools-cli inspect <任务目录>\n  jchtools-cli apply <任务目录> --yes\n  jchtools-cli report <任务目录> <新建CSV路径>\n  jchtools-cli --version\n\n说明：\n  - 不带 --extract 的 analyze 不修改待整理文件；CLI 不交互询问解压冲突，询问策略改为保留两个。\n  - defaults 在目标文件已存在时会拒绝覆盖，确认覆盖请附加 --force。\n  - analyze/apply 期间按 Ctrl+C 会请求取消任务，已写入的审计记录保留。\n";

/// An argument: its text, with a replacement for what is not text, and whether nothing
/// had to be replaced.
#[derive(Debug)]
pub struct CliArg {
    pub text: String,
    pub utf8: bool,
}

/// The arguments of a command, sorted: those with a value and the place of the value,
/// the switches, and the places of the others in the order in which they stood.
#[derive(Debug)]
pub struct CliArgs {
    pub positionals: Vec<usize>,
    pub values: Vec<(String, usize)>,
    pub switches: Vec<String>,
}

/// What was read of the arguments.
pub struct Sorted {
    pub positionals: Seq<usize>,
    pub values: Seq<(Seq<char>, usize)>,
    pub switches: Seq<Seq<char>>,
}

impl View for CliArgs {
    type V = Sorted;

    open spec fn view(&self) -> Sorted {
        Sorted {
            positionals: self.positionals@,
            values: self.values@.map_values(|v: (String, usize)| (v.0@, v.1)),
            switches: text::texts(self.switches@),
        }
    }
}

/// Why the arguments are refused; each with the place of the argument.
#[derive(Clone, Copy, Debug, PartialEq, Eq, Structural)]
pub enum CliError {
    /// It begins like a flag and is not text.
    NotText(usize),
    /// Its value is missing.
    MissingValue(usize),
    /// Its value begins like a flag.
    FlagAsValue(usize),
    /// There is no such flag.
    Unknown(usize),
}

/// A text that begins like a flag; a lone dash does not.
pub open spec fn is_flag(s: Seq<char>) -> bool {
    s.len() > 0 && s[0] == '-' && s != "-"@
}

/// The arguments from place `i` on, added to those that were read before.
pub open spec fn sorted_from(
    args: Seq<CliArg>,
    value_flags: Seq<Seq<char>>,
    bool_flags: Seq<Seq<char>>,
    i: int,
    acc: Sorted,
) -> Result<Sorted, CliError>
    decreases args.len() - i,
{
    if i < 0 || i >= args.len() {
        Ok(acc)
    } else {
        let s = args[i].text@;
        let positional = Sorted { positionals: acc.positionals.push(i as usize), ..acc };
        if !args[i].utf8 {
            if s.len() > 0 && s[0] == '-' {
                Err(CliError::NotText(i as usize))
            } else {
                sorted_from(args, value_flags, bool_flags, i + 1, positional)
            }
        } else if !is_flag(s) {
            sorted_from(args, value_flags, bool_flags, i + 1, positional)
        } else if value_flags.contains(s) {
            if i + 1 >= args.len() {
                Err(CliError::MissingValue(i as usize))
            } else if is_flag(args[i + 1].text@) {
                Err(CliError::FlagAsValue(i as usize))
            } else {
                let value = (s, (i + 1) as usize);
                sorted_from(
                    args,
                    value_flags,
                    bool_flags,
                    i + 2,
                    Sorted { values: acc.values.push(value), ..acc },
                )
            }
        } else if bool_flags.contains(s) {
            sorted_from(
                args,
                value_flags,
                bool_flags,
                i + 1,
                Sorted { switches: acc.switches.push(s), ..acc },
            )
        } else {
            Err(CliError::Unknown(i as usize))
        }
    }
}

/// Nothing read.
pub open spec fn nothing_sorted() -> Sorted {
    Sorted { positionals: Seq::empty(), values: Seq::empty(), switches: Seq::empty() }
}

/// The message of an error.
pub open spec fn cli_error_text(e: CliError, args: Seq<CliArg>) -> Seq<char> {
    match e {
        CliError::NotText(i) => "无法解析的参数（不是有效 UTF-8）："@ + args[i as int].text@,
        CliError::MissingValue(i) => "参数 "@ + args[i as int].text@ + " 缺少对应的值"@,
        CliError::FlagAsValue(i) => "参数 "@ + args[i as int].text@ + " 的值不能以 - 开头："@
            + args[i + 1].text@,
        CliError::Unknown(i) => "未知参数："@ + args[i as int].text@
            + "\n用法可用 jchtools-cli --help 查看"@,
    }
}

/// The arguments that an error speaks of are there.
pub open spec fn speaks_of(e: CliError, args: Seq<CliArg>) -> bool {
    match e {
        CliError::NotText(i) => i < args.len(),
        CliError::MissingValue(i) => i < args.len(),
        CliError::FlagAsValue(i) => i + 1 < args.len(),
        CliError::Unknown(i) => i < args.len(),
    }
}

impl CliError {
    /// The message of the error.
    pub fn message(self, args: &Vec<CliArg>) -> (r: String)
        requires
            speaks_of(self, args@),
        ensures
            r@ == cli_error_text(self, args@),
    {
        match self {
            CliError::NotText(i) => {
                let mut s = "无法解析的参数（不是有效 UTF-8）：".to_owned();
                s.append(args[i].text.as_str());
                s
            },
            CliError::MissingValue(i) => {
                let mut s = "参数 ".to_owned();
                s.append(args[i].text.as_str());
                s.append(" 缺少对应的值");
                s
            },
            CliError::FlagAsValue(i) => {
                let n: usize = args.len();
                assert(i + 1 < n);
                let mut s = "参数 ".to_owned();
                s.append(args[i].text.as_str());
                s.append(" 的值不能以 - 开头：");
                s.append(args[i + 1].text.as_str());
                s
            },
            CliError::Unknown(i) => {
                let mut s = "未知参数：".to_owned();
                s.append(args[i].text.as_str());
                s.append("\n用法可用 jchtools-cli --help 查看");
                s
            },
        }
    }
}

fn dashed(s: &str) -> (r: bool)
    ensures
        r == (s@.len() > 0 && s@[0] == '-'),
{
    proof {
        reveal_strlit("-");
    }
    let r = text::starts_with(s, "-");
    proof {
        if s@.len() > 0 && s@[0] == '-' {
            assert(s@.take(1) =~= "-"@);
        }
        if r {
            assert(s@.take(1)[0] == "-"@[0]);
        }
    }
    r
}

fn flag(s: &str) -> (r: bool)
    ensures
        r == is_flag(s@),
{
    dashed(s) && !text::same(s, "-")
}

fn listed(list: &Vec<String>, s: &str) -> (r: bool)
    ensures
        r == text::texts(list@).contains(s@),
{
    let ghost all = text::texts(list@);
    let mut i: usize = 0;
    while i < list.len()
        invariant
            i <= list@.len(),
            all == text::texts(list@),
            forall|k: int| 0 <= k < i ==> all[k] != s@,
        decreases list.len() - i,
    {
        assert(all[i as int] == list@[i as int]@);
        if text::same(list[i].as_str(), s) {
            return true;
        }
        i = i + 1;
    }
    false
}

impl CliArgs {
    /// Sorts the arguments of a command by its flags.
    pub fn parse(args: &Vec<CliArg>, value_flags: &Vec<String>, bool_flags: &Vec<String>) -> (r:
        Result<CliArgs, CliError>)
        ensures
            match r {
                Ok(c) => sorted_from(
                    args@,
                    text::texts(value_flags@),
                    text::texts(bool_flags@),
                    0,
                    nothing_sorted(),
                ) == Ok::<Sorted, CliError>(c@),
                Err(e) => sorted_from(
                    args@,
                    text::texts(value_flags@),
                    text::texts(bool_flags@),
                    0,
                    nothing_sorted(),
                ) == Err::<Sorted, CliError>(e) && speaks_of(e, args@),
            },
    {
        let mut out = CliArgs { positionals: Vec::new(), values: Vec::new(), switches: Vec::new() };
        let ghost vf = text::texts(value_flags@);
        let ghost bf = text::texts(bool_flags@);
        let ghost whole = sorted_from(args@, vf, bf, 0, nothing_sorted());
        let n: usize = args.len();
        let mut i: usize = 0;
        proof {
            assert(out@.positionals =~= nothing_sorted().positionals);
            assert(out@.values =~= nothing_sorted().values);
            assert(out@.switches =~= nothing_sorted().switches);
        }
        while i < n
            invariant
                n == args@.len(),
                i <= n,
                vf == text::texts(value_flags@),
                bf == text::texts(bool_flags@),
                whole == sorted_from(args@, vf, bf, 0, nothing_sorted()),
                whole == sorted_from(args@, vf, bf, i as int, out@),
            decreases n - i,
        {
            let s = args[i].text.as_str();
            let ghost before = out@;
            if !args[i].utf8 {
                if dashed(s) {
                    return Err(CliError::NotText(i));
                }
                out.positionals.push(i);
                assert(out@.positionals =~= before.positionals.push(i));
                i = i + 1;
            } else if !flag(s) {
                out.positionals.push(i);
                assert(out@.positionals =~= before.positionals.push(i));
                i = i + 1;
            } else if listed(value_flags, s) {
                if i + 1 >= n {
                    return Err(CliError::MissingValue(i));
                }
                if flag(args[i + 1].text.as_str()) {
                    return Err(CliError::FlagAsValue(i));
                }
                out.values.push((s.to_owned(), i + 1));
                assert(out@.values =~= before.values.push((s@, (i + 1) as usize)));
                i = i + 2;
            } else if listed(bool_flags, s) {
                out.switches.push(s.to_owned());
                assert(out@.switches =~= before.switches.push(s@));
                i = i + 1;
            } else {
                return Err(CliError::Unknown(i));
            }
        }
        Ok(out)
    }

    /// The place of the value of a flag; of several, the first counts.
    pub fn value(&self, name: &str) -> (r: Option<usize>)
        ensures
            match r {
                Some(v) => exists|k: int|
                    0 <= k < self@.values.len() && #[trigger] self@.values[k] == (name@, v)
                        && forall|j: int| 0 <= j < k ==> (#[trigger] self@.values[j]).0 != name@,
                None => forall|j: int|
                    0 <= j < self@.values.len() ==> (#[trigger] self@.values[j]).0 != name@,
            },
    {
        let mut i: usize = 0;
        while i < self.values.len()
            invariant
                i <= self.values@.len(),
                forall|j: int| 0 <= j < i ==> (#[trigger] self@.values[j]).0 != name@,
            decreases self.values.len() - i,
        {
            let v = &self.values[i];
            assert(self@.values[i as int] == (v.0@, v.1));
            if text::same(v.0.as_str(), name) {
                return Some(v.1);
            }
            i = i + 1;
        }
        None
    }

    /// Whether a switch was given.
    pub fn has(&self, name: &str) -> (r: bool)
        ensures
            r == self@.switches.contains(name@),
    {
        listed(&self.switches, name)
    }

    /// The place of the argument that stands at this position, or the usage.
    pub fn positional(&self, index: usize, usage: &str) -> (r: Result<usize, String>)
        ensures
            match r {
                Ok(v) => index < self@.positionals.len() && v == self@.positionals[index as int],
                Err(e) => index >= self@.positionals.len() && e@ == "用法："@ + usage@,
            },
    {
        if index < self.positionals.len() {
            return Ok(self.positionals[index]);
        }
        let mut s = "用法：".to_owned();
        s.append(usage);
        Err(s)
    }
}

/// The places that are read lie among the arguments.
pub open spec fn places_valid(s: Sorted, n: nat) -> bool {
    &&& forall|k: int| 0 <= k < s.positionals.len() ==> #[trigger] s.positionals[k] < n
    &&& forall|k: int| 0 <= k < s.values.len() ==> (#[trigger] s.values[k]).1 < n
}

proof fn places_stay_valid(
    args: Seq<CliArg>,
    value_flags: Seq<Seq<char>>,
    bool_flags: Seq<Seq<char>>,
    i: int,
    acc: Sorted,
)
    requires
        0 <= i <= args.len() <= usize::MAX,
        places_valid(acc, args.len()),
    ensures
        sorted_from(args, value_flags, bool_flags, i, acc) matches Ok(s) ==> places_valid(
            s,
            args.len(),
        ),
    decreases args.len() - i,
{
    if i < args.len() {
        let s = args[i].text@;
        let positional = Sorted { positionals: acc.positionals.push(i as usize), ..acc };
        if !args[i].utf8 || !is_flag(s) {
            places_stay_valid(args, value_flags, bool_flags, i + 1, positional);
        } else if value_flags.contains(s) {
            if i + 1 < args.len() {
                let value = (s, (i + 1) as usize);
                places_stay_valid(
                    args,
                    value_flags,
                    bool_flags,
                    i + 2,
                    Sorted { values: acc.values.push(value), ..acc },
                );
            }
        } else {
            places_stay_valid(
                args,
                value_flags,
                bool_flags,
                i + 1,
                Sorted { switches: acc.switches.push(s), ..acc },
            );
        }
    }
}

/// Whatever is taken as a path or a value stands among the arguments.
pub proof fn law_places_are_arguments(
    args: Seq<CliArg>,
    value_flags: Seq<Seq<char>>,
    bool_flags: Seq<Seq<char>>,
)
    requires
        args.len() <= usize::MAX,
    ensures
        sorted_from(args, value_flags, bool_flags, 0, nothing_sorted()) matches Ok(s)
            ==> places_valid(s, args.len()),
{
    places_stay_valid(args, value_flags, bool_flags, 0, nothing_sorted());
}

/// What the program is to do.
#[derive(Clone, Copy, Debug, PartialEq, Eq, Structural)]
pub enum Command {
    Help,
    Version,
    /// Without arguments: the help text, as an error.
    Usage,
    /// The name of the command is not text.
    NotText,
    Defaults,
    Analyze,
    Apply,
    Inspect,
    Report,
    Unknown,
}

/// The argument is this text.
pub open spec fn is_arg(a: CliArg, s: Seq<char>) -> bool {
    a.utf8 && a.text@ == s
}

/// One of the arguments is this text.
pub open spec fn has_arg(args: Seq<CliArg>, s: Seq<char>) -> bool {
    exists|i: int| 0 <= i < args.len() && is_arg(#[trigger] args[i], s)
}

/// The command of a line: help goes before the version, and both before any command.
pub open spec fn command_of(args: Seq<CliArg>) -> Command {
    if has_arg(args, "-h"@) || has_arg(args, "--help"@) {
        Command::Help
    } else if has_arg(args, "--version"@) {
        Command::Version
    } else if args.len() == 0 {
        Command::Usage
    } else if !args[0].utf8 {
        Command::NotText
    } else {
        let s = args[0].text@;
        if s == "defaults"@ {
            Command::Defaults
        } else if s == "analyze"@ {
            Command::Analyze
        } else if s == "apply"@ {
            Command::Apply
        } else if s == "inspect"@ {
            Command::Inspect
        } else if s == "report"@ {
            Command::Report
        } else {
            Command::Unknown
        }
    }
}

fn given(args: &Vec<CliArg>, s: &str) -> (r: bool)
    ensures
        r == has_arg(args@, s@),
{
    let mut i: usize = 0;
    while i < args.len()
        invariant
            i <= args@.len(),
            forall|k: int| 0 <= k < i ==> !is_arg(#[trigger] args@[k], s@),
        decreases args.len() - i,
    {
        if args[i].utf8 && text::same(args[i].text.as_str(), s) {
            assert(is_arg(args@[i as int], s@));
            return true;
        }
        i = i + 1;
    }
    false
}

/// Reads the command of a line.
pub fn command(args: &Vec<CliArg>) -> (r: Command)
    ensures
        r == command_of(args@),
{
    if given(args, "-h") || given(args, "--help") {
        return Command::Help;
    }
    if given(args, "--version") {
        return Command::Version;
    }
    if args.len() == 0 {
        return Command::Usage;
    }
    if !args[0].utf8 {
        return Command::NotText;
    }
    let s = args[0].text.as_str();
    if text::same(s, "defaults") {
        Command::Defaults
    } else if text::same(s, "analyze") {
        Command::Analyze
    } else if text::same(s, "apply") {
        Command::Apply
    } else if text::same(s, "inspect") {
        Command::Inspect
    } else if text::same(s, "report") {
        Command::Report
    } else {
        Command::Unknown
    }
}

/// The flags of a command that take a value.
pub open spec fn value_flags_of(c: Command) -> Seq<Seq<char>> {
    if c == Command::Analyze {
        seq!["--config"@, "--engine"@, "--state"@]
    } else {
        Seq::empty()
    }
}

/// The switches of a command.
pub open spec fn switches_of(c: Command) -> Seq<Seq<char>> {
    match c {
        Command::Defaults => seq!["--force"@],
        Command::Analyze => seq!["--extract"@, "--yes"@],
        Command::Apply => seq!["--yes"@],
        _ => Seq::empty(),
    }
}

impl Command {
    /// The flags that take a value, and the switches.
    pub fn flags(self) -> (r: (Vec<String>, Vec<String>))
        ensures
            text::texts(r.0@) == value_flags_of(self),
            text::texts(r.1@) == switches_of(self),
    {
        let mut values: Vec<String> = Vec::new();
        let mut switches: Vec<String> = Vec::new();
        match self {
            Command::Defaults => {
                switches.push("--force".to_owned());
            },
            Command::Analyze => {
                values.push("--config".to_owned());
                values.push("--engine".to_owned());
                values.push("--state".to_owned());
                switches.push("--extract".to_owned());
                switches.push("--yes".to_owned());
            },
            Command::Apply => {
                switches.push("--yes".to_owned());
            },
            _ => {},
        }
        assert(text::texts(values@) =~= value_flags_of(self));
        assert(text::texts(switches@) =~= switches_of(self));
        (values, switches)
    }
}

/// Whether the defaults may be written: an existing file only on request.
pub fn may_write_defaults(path: &str, present: bool, force: bool) -> (r: Result<(), String>)
    ensures
        match r {
            Ok(_) => !present || force,
            Err(e) => present && !force && e@ == "配置文件已存在："@ + path@
                + "；如确认覆盖请附加 --force"@,
        },
{
    if present && !force {
        let mut s = "配置文件已存在：".to_owned();
        s.append(path);
        s.append("；如确认覆盖请附加 --force");
        return Err(s);
    }
    Ok(())
}

/// How an analysis runs.
#[derive(Clone, Copy, Debug, PartialEq, Eq, Structural)]
pub enum AnalyzeMode {
    /// Only a plan is made.
    Plan,
    /// Only a plan is made; the confirmation has no meaning here.
    PlanConfirmed,
    /// The archives are extracted first.
    Extract,
}

/// How an analysis runs: to extract changes files, so it has to be confirmed.
pub fn analyze_mode(extract: bool, yes: bool) -> (r: Result<AnalyzeMode, &'static str>)
    ensures
        match r {
            Ok(AnalyzeMode::Plan) => !extract && !yes,
            Ok(AnalyzeMode::PlanConfirmed) => !extract && yes,
            Ok(AnalyzeMode::Extract) => extract && yes,
            Err(e) => extract && !yes && e@
                == "解压会修改目录，需要显式 --extract --yes；不解压时仅生成计划"@,
        },
{
    if extract && !yes {
        return Err("解压会修改目录，需要显式 --extract --yes；不解压时仅生成计划");
    }
    if extract {
        Ok(AnalyzeMode::Extract)
    } else if yes {
        Ok(AnalyzeMode::PlanConfirmed)
    } else {
        Ok(AnalyzeMode::Plan)
    }
}

/// Whether a plan may be executed: only when it is confirmed, and only where there is a
/// task.
pub fn may_apply(task: &str, yes: bool, has_database: bool) -> (r: Result<(), String>)
    ensures
        match r {
            Ok(_) => yes && has_database,
            Err(e) => if !yes {
                e@ == "必须先检查计划，再以 --yes 明确确认文件变更"@
            } else {
                !has_database && e@ == no_database_text(task@)
            },
        },
{
    if !yes {
        return Err("必须先检查计划，再以 --yes 明确确认文件变更".to_owned());
    }
    ensure_task_db(task, has_database)
}

/// The message for a directory without a task.
pub open spec fn no_database_text(task: Seq<char>) -> Seq<char> {
    "任务目录缺少 task.sqlite3（目录不存在或不是有效任务目录）："@ + task
}

/// Refuses a directory without a task, so that no empty task is made there.
pub fn ensure_task_db(task: &str, has_database: bool) -> (r: Result<(), String>)
    ensures
        match r {
            Ok(_) => has_database,
            Err(e) => !has_database && e@ == no_database_text(task@),
        },
{
    if has_database {
        return Ok(());
    }
    let mut s = "任务目录缺少 task.sqlite3（目录不存在或不是有效任务目录）：".to_owned();
    s.append(task);
    Err(s)
}

/// How many actions of each kind a plan has, and how many of them are selected.
#[derive(Clone, Copy, Debug, PartialEq, Eq, Structural)]
pub struct PlanStats {
    pub delete: u64,
    pub moved: u64,
    pub link: u64,
    pub empty: u64,
    pub selected_delete: u64,
    pub selected_moved: u64,
    pub selected_link: u64,
    pub selected_empty: u64,
}

/// How many actions are of a kind; only those that are selected if so asked.
pub open spec fn count_kind(actions: Seq<Action>, kind: ActionKind, selected: bool) -> nat
    decreases actions.len(),
{
    if actions.len() == 0 {
        0
    } else {
        let a = actions.last();
        count_kind(actions.drop_last(), kind, selected) + if a.kind == kind && (!selected
            || a.selected) {
            1nat
        } else {
            0nat
        }
    }
}

/// The counts of all the actions.
pub open spec fn counts(s: PlanStats, actions: Seq<Action>) -> bool {
    &&& s.delete == count_kind(actions, ActionKind::Delete, false)
    &&& s.moved == count_kind(actions, ActionKind::Move, false)
    &&& s.link == count_kind(actions, ActionKind::Hardlink, false)
    &&& s.empty == count_kind(actions, ActionKind::EmptyDirectory, false)
    &&& s.selected_delete == count_kind(actions, ActionKind::Delete, true)
    &&& s.selected_moved == count_kind(actions, ActionKind::Move, true)
    &&& s.selected_link == count_kind(actions, ActionKind::Hardlink, true)
    &&& s.selected_empty == count_kind(actions, ActionKind::EmptyDirectory, true)
}

proof fn count_bound(actions: Seq<Action>, kind: ActionKind, selected: bool)
    ensures
        count_kind(actions, kind, selected) <= actions.len(),
    decreases actions.len(),
{
    if actions.len() > 0 {
        count_bound(actions.drop_last(), kind, selected);
    }
}

fn plus(n: u64, by: bool) -> (r: u64)
    requires
        n < u64::MAX,
    ensures
        r == n + if by {
            1int
        } else {
            0int
        },
{
    if by {
        n + 1
    } else {
        n
    }
}

/// Counts the actions of a plan.
pub fn plan_stats(actions: &Vec<Action>) -> (r: PlanStats)
    ensures
        counts(r, actions@),
{
    let mut s = PlanStats {
        delete: 0,
        moved: 0,
        link: 0,
        empty: 0,
        selected_delete: 0,
        selected_moved: 0,
        selected_link: 0,
        selected_empty: 0,
    };
    let n: usize = actions.len();
    let mut i: usize = 0;
    while i < n
        invariant
            i <= n,
            n == actions@.len(),
            counts(s, actions@.take(i as int)),
        decreases n - i,
    {
        let ghost before = actions@.take(i as int);
        proof {
            assert(actions@.take(i + 1).drop_last() =~= before);
            count_bound(before, ActionKind::Delete, false);
            count_bound(before, ActionKind::Move, false);
            count_bound(before, ActionKind::Hardlink, false);
            count_bound(before, ActionKind::EmptyDirectory, false);
            count_bound(before, ActionKind::Delete, true);
            count_bound(before, ActionKind::Move, true);
            count_bound(before, ActionKind::Hardlink, true);
            count_bound(before, ActionKind::EmptyDirectory, true);
            assert(i < u64::MAX);
        }
        let kind = actions[i].kind;
        let chosen: bool = actions[i].selected;
        let delete: bool = kind == ActionKind::Delete;
        let moved: bool = kind == ActionKind::Move;
        let link: bool = kind == ActionKind::Hardlink;
        let empty: bool = kind == ActionKind::EmptyDirectory;
        s = PlanStats {
            delete: plus(s.delete, delete),
            moved: plus(s.moved, moved),
            link: plus(s.link, link),
            empty: plus(s.empty, empty),
            selected_delete: plus(s.selected_delete, delete && chosen),
            selected_moved: plus(s.selected_moved, moved && chosen),
            selected_link: plus(s.selected_link, link && chosen),
            selected_empty: plus(s.selected_empty, empty && chosen),
        };
        i = i + 1;
    }
    assert(actions@.take(i as int) =~= actions@);
    s
}

/// The counts as a line.
pub open spec fn stats_text(s: PlanStats) -> Seq<char> {
    "计划统计：删除 "@ + text::decimal(s.delete as nat) + "（已选 "@ + text::decimal(
        s.selected_delete as nat,
    ) + "）、移动 "@ + text::decimal(s.moved as nat) + "（已选 "@ + text::decimal(
        s.selected_moved as nat,
    ) + "）、硬链接 "@ + text::decimal(s.link as nat) + "（已选 "@ + text::decimal(
        s.selected_link as nat,
    ) + "）、空目录复查 "@ + text::decimal(s.empty as nat) + "（已选 "@ + text::decimal(
        s.selected_empty as nat,
    ) + "）"@
}

impl PlanStats {
    /// The counts as a line.
    pub fn line(&self) -> (r: String)
        ensures
            r@ == stats_text(*self),
    {
        let mut s = "计划统计：删除 ".to_owned();
        s.append(text::number(self.delete).as_str());
        s.append("（已选 ");
        s.append(text::number(self.selected_delete).as_str());
        s.append("）、移动 ");
        s.append(text::number(self.moved).as_str());
        s.append("（已选 ");
        s.append(text::number(self.selected_moved).as_str());
        s.append("）、硬链接 ");
        s.append(text::number(self.link).as_str());
        s.append("（已选 ");
        s.append(text::number(self.selected_link).as_str());
        s.append("）、空目录复查 ");
        s.append(text::number(self.empty).as_str());
        s.append("（已选 ");
        s.append(text::number(self.selected_empty).as_str());
        s.append("）");
        s
    }
}

/// The word for a kind of action.
pub open spec fn kind_text(kind: ActionKind) -> Seq<char> {
    match kind {
        ActionKind::Delete => "删除"@,
        ActionKind::Move => "移动"@,
        ActionKind::Hardlink => "硬链接"@,
        ActionKind::EmptyDirectory => "空目录复查"@,
    }
}

/// The word for a kind of action.
pub fn kind_word(kind: ActionKind) -> (r: &'static str)
    ensures
        r@ == kind_text(kind),
{
    match kind {
        ActionKind::Delete => "删除",
        ActionKind::Move => "移动",
        ActionKind::Hardlink => "硬链接",
        ActionKind::EmptyDirectory => "空目录复查",
    }
}

/// An action as a line.
pub open spec fn action_text(a: Action) -> Seq<char> {
    text::signed(a.id as int) + " "@ + kind_text(a.kind) + " "@ + a.source@ + " -> "@ + (
    match a.target {
        Some(t) => t@,
        None => "-"@,
    }) + " | "@ + a.reason@ + " ["@ + a.state@ + "]"@
}

/// Writes an action as a line.
pub fn action_line(a: &Action) -> (r: String)
    ensures
        r@ == action_text(*a),
{
    let mut s = text::signed_number(a.id);
    s.append(" ");
    s.append(kind_word(a.kind));
    s.append(" ");
    s.append(a.source.as_str());
    s.append(" -> ");
    match &a.target {
        Some(t) => s.append(t.as_str()),
        None => s.append("-"),
    }
    s.append(" | ");
    s.append(a.reason.as_str());
    s.append(" [");
    s.append(a.state.as_str());
    s.append("]");
    s
}

/// A flag begins with a dash and has more behind it.
pub proof fn law_what_begins_like_a_flag(s: Seq<char>)
    ensures
        is_flag(s) <==> s.len() >= 2 && s[0] == '-',
{
    reveal_strlit("-");
    if s.len() == 1 && s[0] == '-' {
        assert(s =~= "-"@);
    }
    assert("-"@.len() == 1);
}

/// What was read up to a place accounts for the arguments up to it: a flag with its value
/// for two, anything else for one; values stand right behind their flags, what stands alone
/// is no flag, and only the command's own flags are taken.
pub open spec fn accounts_for(
    s: Sorted,
    args: Seq<CliArg>,
    value_flags: Seq<Seq<char>>,
    bool_flags: Seq<Seq<char>>,
    i: int,
) -> bool {
    &&& s.positionals.len() + 2 * s.values.len() + s.switches.len() == i
    &&& forall|k: int|
        0 <= k < s.positionals.len() ==> (#[trigger] s.positionals[k]) < i && (
        args[s.positionals[k] as int].utf8 ==> !is_flag(args[s.positionals[k] as int].text@))
    &&& forall|k: int, j: int|
        0 <= k < j < s.positionals.len() ==> #[trigger] s.positionals[k]
            < #[trigger] s.positionals[j]
    &&& forall|k: int|
        0 <= k < s.values.len() ==> 0 < (#[trigger] s.values[k]).1 < i && args[s.values[k].1
            - 1].text@ == s.values[k].0 && value_flags.contains(s.values[k].0) && !is_flag(
            args[s.values[k].1 as int].text@,
        )
    &&& forall|k: int|
        0 <= k < s.switches.len() ==> bool_flags.contains(#[trigger] s.switches[k])
}

proof fn reading_accounts(
    args: Seq<CliArg>,
    value_flags: Seq<Seq<char>>,
    bool_flags: Seq<Seq<char>>,
    i: int,
    acc: Sorted,
)
    requires
        0 <= i <= args.len() <= usize::MAX,
        accounts_for(acc, args, value_flags, bool_flags, i),
    ensures
        match sorted_from(args, value_flags, bool_flags, i, acc) {
            Ok(s) => accounts_for(s, args, value_flags, bool_flags, args.len() as int),
            Err(CliError::NotText(k)) => k < args.len() && !args[k as int].utf8
                && args[k as int].text@.len() > 0 && args[k as int].text@[0] == '-',
            Err(CliError::MissingValue(k)) => k + 1 == args.len() && value_flags.contains(
                args[k as int].text@,
            ),
            Err(CliError::FlagAsValue(k)) => k + 1 < args.len() && value_flags.contains(
                args[k as int].text@,
            ) && is_flag(args[k + 1].text@),
            Err(CliError::Unknown(k)) => k < args.len() && is_flag(args[k as int].text@)
                && !value_flags.contains(args[k as int].text@) && !bool_flags.contains(
                args[k as int].text@,
            ),
        },
    decreases args.len() - i,
{
    if i < args.len() {
        let s = args[i].text@;
        let positional = Sorted { positionals: acc.positionals.push(i as usize), ..acc };
        if !args[i].utf8 {
            if !(s.len() > 0 && s[0] == '-') {
                reading_accounts(args, value_flags, bool_flags, i + 1, positional);
            }
        } else if !is_flag(s) {
            reading_accounts(args, value_flags, bool_flags, i + 1, positional);
        } else if value_flags.contains(s) {
            if i + 1 < args.len() && !is_flag(args[i + 1].text@) {
                let more = Sorted { values: acc.values.push((s, (i + 1) as usize)), ..acc };
                reading_accounts(args, value_flags, bool_flags, i + 2, more);
            }
        } else if bool_flags.contains(s) {
            let more = Sorted { switches: acc.switches.push(s), ..acc };
            reading_accounts(args, value_flags, bool_flags, i + 1, more);
        }
    }
}

/// Every argument is accounted for: as a flag of the command, as the value right behind one,
/// or in its place among the others. An error names an argument that is wrong in that way.
pub proof fn law_every_argument_is_accounted_for(
    args: Seq<CliArg>,
    value_flags: Seq<Seq<char>>,
    bool_flags: Seq<Seq<char>>,
)
    requires
        args.len() <= usize::MAX,
    ensures
        match sorted_from(args, value_flags, bool_flags, 0, nothing_sorted()) {
            Ok(s) => accounts_for(s, args, value_flags, bool_flags, args.len() as int),
            Err(CliError::NotText(k)) => k < args.len() && !args[k as int].utf8
                && args[k as int].text@.len() > 0 && args[k as int].text@[0] == '-',
            Err(CliError::MissingValue(k)) => k + 1 == args.len() && value_flags.contains(
                args[k as int].text@,
            ),
            Err(CliError::FlagAsValue(k)) => k + 1 < args.len() && value_flags.contains(
                args[k as int].text@,
            ) && is_flag(args[k + 1].text@),
            Err(CliError::Unknown(k)) => k < args.len() && is_flag(args[k as int].text@)
                && !value_flags.contains(args[k as int].text@) && !bool_flags.contains(
                args[k as int].text@,
            ),
        },
{
    reading_accounts(args, value_flags, bool_flags, 0, nothing_sorted());
}

proof fn plain_from(
    args: Seq<CliArg>,
    value_flags: Seq<Seq<char>>,
    bool_flags: Seq<Seq<char>>,
    i: int,
    acc: Sorted,
)
    requires
        0 <= i <= args.len() <= usize::MAX,
        forall|k: int|
            0 <= k < args.len() ==> !((#[trigger] args[k]).text@.len() > 0 && args[k].text@[0]
                == '-'),
        acc.positionals == Seq::new(i as nat, |k: int| k as usize),
        acc.values.len() == 0,
        acc.switches.len() == 0,
    ensures
        sorted_from(args, value_flags, bool_flags, i, acc) matches Ok(s) && s.positionals
            == Seq::new(args.len(), |k: int| k as usize) && s.values.len() == 0
            && s.switches.len() == 0,
    decreases args.len() - i,
{
    if i < args.len() {
        assert(!(args[i].text@.len() > 0 && args[i].text@[0] == '-'));
        let positional = Sorted { positionals: acc.positionals.push(i as usize), ..acc };
        assert(positional.positionals =~= Seq::new((i + 1) as nat, |k: int| k as usize));
        plain_from(args, value_flags, bool_flags, i + 1, positional);
    }
}

/// Arguments that do not begin with a dash are never refused and stay in their order.
pub proof fn law_plain_arguments_stay(
    args: Seq<CliArg>,
    value_flags: Seq<Seq<char>>,
    bool_flags: Seq<Seq<char>>,
)
    requires
        args.len() <= usize::MAX,
        forall|k: int|
            0 <= k < args.len() ==> !((#[trigger] args[k]).text@.len() > 0 && args[k].text@[0]
                == '-'),
    ensures
        sorted_from(args, value_flags, bool_flags, 0, nothing_sorted()) matches Ok(s)
            && s.positionals == Seq::new(args.len(), |k: int| k as usize) && s.values.len() == 0
            && s.switches.len() == 0,
{
    assert(nothing_sorted().positionals =~= Seq::new(0, |k: int| k as usize));
    plain_from(args, value_flags, bool_flags, 0, nothing_sorted());
}

/// A flag of the command is taken with the value right behind it, and a switch alone,
/// wherever they stand.
pub proof fn law_flags_are_taken(
    args: Seq<CliArg>,
    value_flags: Seq<Seq<char>>,
    bool_flags: Seq<Seq<char>>,
    i: int,
    acc: Sorted,
)
    requires
        0 <= i < args.len() <= usize::MAX,
        args[i].utf8,
        is_flag(args[i].text@),
    ensures
        value_flags.contains(args[i].text@) && i + 1 < args.len() && !is_flag(args[i + 1].text@)
            ==> sorted_from(args, value_flags, bool_flags, i, acc) == sorted_from(
            args,
            value_flags,
            bool_flags,
            i + 2,
            Sorted { values: acc.values.push((args[i].text@, (i + 1) as usize)), ..acc },
        ),
        !value_flags.contains(args[i].text@) && bool_flags.contains(args[i].text@) ==> sorted_from(
            args,
            value_flags,
            bool_flags,
            i,
            acc,
        ) == sorted_from(
            args,
            value_flags,
            bool_flags,
            i + 1,
            Sorted { switches: acc.switches.push(args[i].text@), ..acc },
        ),
{
}

/// Help goes before everything else, wherever it stands; then the version; without both the
/// first argument is the command.
pub proof fn law_which_command_is_meant(args: Seq<CliArg>, i: int)
    requires
        0 <= i < args.len(),
    ensures
        args[i].utf8 && (args[i].text@ == "-h"@ || args[i].text@ == "--help"@) ==> command_of(args)
            == Command::Help,
        args[i].utf8 && args[i].text@ == "--version"@ ==> command_of(args) == Command::Help
            || command_of(args) == Command::Version,
        command_of(Seq::empty()) == Command::Usage,
        (forall|k: int|
            0 <= k < args.len() ==> (#[trigger] args[k]).text@ != "-h"@ && args[k].text@
                != "--help"@ && args[k].text@ != "--version"@) ==> command_of(args) == (
        if !args[0].utf8 {
            Command::NotText
        } else if args[0].text@ == "report"@ {
            Command::Report
        } else if args[0].text@ == "inspect"@ {
            Command::Inspect
        } else if args[0].text@ == "apply"@ {
            Command::Apply
        } else if args[0].text@ == "analyze"@ {
            Command::Analyze
        } else if args[0].text@ == "defaults"@ {
            Command::Defaults
        } else {
            Command::Unknown
        }),
{
    reveal_strlit("defaults");
    reveal_strlit("analyze");
    reveal_strlit("apply");
    reveal_strlit("inspect");
    reveal_strlit("report");
    assert("defaults"@.len() == 8);
    assert("analyze"@.len() == 7 && "analyze"@[0] == 'a');
    assert("apply"@.len() == 5);
    assert("inspect"@.len() == 7 && "inspect"@[0] == 'i');
    assert("report"@.len() == 6);
    if args[i].utf8 {
        assert(is_arg(args[i], args[i].text@));
    }
}

/// Actions are counted by their kind; of those that are selected only the selected.
pub proof fn law_actions_are_counted(
    actions: Seq<Action>,
    a: Action,
    kind: ActionKind,
    selected: bool,
)
    ensures
        count_kind(Seq::empty(), kind, selected) == 0,
        count_kind(actions.push(a), kind, false) == count_kind(actions, kind, false) + if a.kind
            == kind {
            1nat
        } else {
            0
        },
        count_kind(actions.push(a), kind, true) == count_kind(actions, kind, true) + if a.kind
            == kind && a.selected {
            1nat
        } else {
            0
        },
{
    assert(actions.push(a).drop_last() =~= actions);
}

/// The line of an action names its kind, where it comes from and where it goes.
pub proof fn law_lines_of_actions(a: Action)
    ensures
        a.target matches Some(t) ==> action_text(a) == text::signed(a.id as int) + " "@ + kind_text(
            a.kind,
        ) + " "@ + a.source@ + " -> "@ + t@ + " | "@ + a.reason@ + " ["@ + a.state@ + "]"@,
        a.target is None ==> action_text(a) == text::signed(a.id as int) + " "@ + kind_text(a.kind)
            + " "@ + a.source@ + " -> "@ + "-"@ + " | "@ + a.reason@ + " ["@ + a.state@ + "]"@,
        kind_text(ActionKind::Delete) == "删除"@,
        kind_text(ActionKind::Move) == "移动"@,
        kind_text(ActionKind::Hardlink) == "硬链接"@,
        kind_text(ActionKind::EmptyDirectory) == "空目录复查"@,
{
}

} // verus!
