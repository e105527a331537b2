//! Which engine is used: the first candidate that passes the check.

use crate::text;
use vstd::prelude::*;

verus! {

/// What is wrong with a candidate.
#[derive(Debug)]
pub struct Problem {
    pub description: String,
    /// A file is missing, so that releasing it can help.
    pub missing: bool,
}

/// What was found of a file of a candidate.
#[derive(Debug)]
pub enum FileProbe {
    Missing,
    /// Whether its hash is the expected one.
    Hashed(bool),
    /// It could not be read.
    Unreadable(String),
}

/// What is wrong with a file; nothing where it is as expected.
pub open spec fn file_problem(name: Seq<char>, p: FileProbe) -> Option<(Seq<char>, bool)> {
    match p {
        FileProbe::Missing => Some(("缺少 "@ + name, true)),
        FileProbe::Hashed(true) => None,
        FileProbe::Hashed(false) => Some((name + " 的 sha256 与内嵌清单不一致"@, false)),
        FileProbe::Unreadable(e) => Some((name + " 无法读取以校验 sha256："@ + e@, false)),
    }
}

/// What is wrong with the first `k` files.
pub open spec fn problems_upto(names: Seq<Seq<char>>, probes: Seq<FileProbe>, k: int) -> Seq<
    (Seq<char>, bool),
>
    decreases k,
{
    if k <= 0 {
        Seq::empty()
    } else {
        match file_problem(names[k - 1], probes[k - 1]) {
            Some(x) => problems_upto(names, probes, k - 1).push(x),
            None => problems_upto(names, probes, k - 1),
        }
    }
}

/// Problems as characters.
pub open spec fn problem_views(v: Seq<Problem>) -> Seq<(Seq<char>, bool)> {
    Seq::new(v.len(), |i: int| (v[i].description@, v[i].missing))
}

/// Checks a candidate file by file, by what was found of each. No problem means that it
/// can be used.
pub fn candidate_problems(names: &Vec<String>, probes: &Vec<FileProbe>) -> (r: Vec<Problem>)
    requires
        names@.len() == probes@.len(),
    ensures
        problem_views(r@) == problems_upto(
            text::texts(names@),
            probes@,
            names@.len() as int,
        ),
{
    let ghost all = text::texts(names@);
    let mut out: Vec<Problem> = Vec::new();
    let mut i: usize = 0;
    assert(problem_views(out@) =~= Seq::<(Seq<char>, bool)>::empty());
    while i < names.len()
        invariant
            i <= names@.len(),
            all == text::texts(names@),
            names@.len() == probes@.len(),
            problem_views(out@) == problems_upto(all, probes@, i as int),
        decreases names.len() - i,
    {
        let name = names[i].as_str();
        assert(name@ == all[i as int]);
        let ghost before = out@;
        match &probes[i] {
            FileProbe::Missing => {
                let mut d = "缺少 ".to_owned();
                d.append(name);
                out.push(Problem { description: d, missing: true });
                assert(problem_views(out@) =~= problem_views(before).push((d@, true)));
            },
            FileProbe::Hashed(ok) => {
                if !*ok {
                    let mut d = name.to_owned();
                    d.append(" 的 sha256 与内嵌清单不一致");
                    out.push(Problem { description: d, missing: false });
                    assert(problem_views(out@) =~= problem_views(before).push((d@, false)));
                }
            },
            FileProbe::Unreadable(e) => {
                let mut d = name.to_owned();
                d.append(" 无法读取以校验 sha256：");
                d.append(e.as_str());
                out.push(Problem { description: d, missing: false });
                assert(problem_views(out@) =~= problem_views(before).push((d@, false)));
            },
        }
        i = i + 1;
    }
    out
}

/// A candidate passes only if every file has the expected hash.
pub proof fn law_only_checked_files_pass(
    names: Seq<Seq<char>>,
    probes: Seq<FileProbe>,
    k: int,
    i: int,
)
    requires
        0 <= i < k,
        problems_upto(names, probes, k).len() == 0,
    ensures
        probes[i] == FileProbe::Hashed(true),
    decreases k,
{
    if i < k - 1 {
        law_only_checked_files_pass(names, probes, k - 1, i);
    }
}

/// Checks a candidate without a manifest: the engine's program must be there, and on
/// Windows its library.
pub fn minimal_problems(name: &str, has_program: bool, windows: bool, has_library: bool) -> (r: Vec<
    Problem,
>)
    ensures
        problem_views(r@) == ({
            let a = if has_program {
                Seq::empty()
            } else {
                seq![("缺少 "@ + name@, true)]
            };
            if windows && !has_library {
                a.push(("缺少 7z.dll（引擎不完整）"@, true))
            } else {
                a
            }
        }),
{
    let mut out: Vec<Problem> = Vec::new();
    assert(problem_views(out@) =~= Seq::<(Seq<char>, bool)>::empty());
    if !has_program {
        let mut d = "缺少 ".to_owned();
        d.append(name);
        out.push(Problem { description: d, missing: true });
        assert(problem_views(out@) =~= seq![(d@, true)]);
    }
    if windows && !has_library {
        let ghost before = out@;
        let d = "缺少 7z.dll（引擎不完整）".to_owned();
        out.push(Problem { description: d, missing: true });
        assert(problem_views(out@) =~= problem_views(before).push((d@, true)));
    }
    out
}

/// The descriptions of some problems.
pub open spec fn descriptions(v: Seq<Problem>) -> Seq<Seq<char>> {
    Seq::new(v.len(), |i: int| v[i].description@)
}

/// The problems in one line.
pub fn join_problems(v: &Vec<Problem>) -> (r: String)
    ensures
        r@ == text::join_with(descriptions(v@), "；"@),
{
    let mut list: Vec<String> = Vec::new();
    let mut i: usize = 0;
    assert(text::texts(list@) =~= descriptions(v@).take(0));
    while i < v.len()
        invariant
            i <= v@.len(),
            text::texts(list@) == descriptions(v@).take(i as int),
        decreases v.len() - i,
    {
        let ghost before = list@;
        let s = v[i].description.as_str().to_owned();
        list.push(s);
        proof {
            text::texts_push(before, s);
            assert(descriptions(v@).take(i + 1) =~= descriptions(v@).take(i as int).push(s@));
        }
        i = i + 1;
    }
    assert(descriptions(v@).take(i as int) =~= descriptions(v@));
    text::join(&list, "；")
}

/// Why a candidate was not used: which one, where, and its problems.
pub fn candidate_failure_line(context: &str, directory: &str, v: &Vec<Problem>) -> (r: String)
    ensures
        r@ == context@ + "（"@ + directory@ + "）："@ + text::join_with(descriptions(v@), "；"@),
{
    let mut s = context.to_owned();
    s.append("（");
    s.append(directory);
    s.append("）：");
    s.append(join_problems(v).as_str());
    s
}

/// The note about a candidate that was not used.
pub fn reject_candidate(context: &str, directory: &str, v: &Vec<Problem>) -> (r: String)
    ensures
        r@ == "已拒绝使用"@ + context@ + "（"@ + directory@ + "）："@ + text::join_with(
            descriptions(v@),
            "；"@,
        ) + "；按候选顺序尝试下一顺位"@,
{
    let mut s = "已拒绝使用".to_owned();
    s.append(context);
    s.append("（");
    s.append(directory);
    s.append("）：");
    s.append(join_problems(v).as_str());
    s.append("；按候选顺序尝试下一顺位");
    s
}

/// Where an engine was found.
#[derive(Clone, Copy, Debug, PartialEq, Eq, Structural)]
pub enum Place {
    /// Beside the program.
    Bundled,
    /// In the directory that it is released to.
    Fixed,
    /// In one of the directories that were released to before.
    Earlier(usize),
    /// In a new one.
    Fresh,
}

/// What is to be done to find an engine.
#[derive(Clone, Copy, Debug, PartialEq, Eq, Structural)]
pub enum ResolveStep {
    /// Check a candidate.
    Check(Place),
    /// Release what is missing into the fixed directory, then check it again.
    Complete,
    CheckCompleted,
    /// Release into a new directory.
    Release,
    /// Use this candidate.
    Use(Place),
    /// None can be used.
    Fail(ResolveFailure),
}

/// Why no engine can be used.
#[derive(Clone, Copy, Debug, PartialEq, Eq, Structural)]
pub enum ResolveFailure {
    /// None beside the program, and the program carries none.
    NotEmbedded,
    /// There is no directory to release to.
    NoStateDir,
    /// No candidate passed.
    NoCandidate,
}

/// The search for an engine.
#[derive(Clone, Copy, Debug, PartialEq, Eq, Structural)]
pub struct Resolve {
    pub step: ResolveStep,
    /// The program carries the engine.
    pub embedded: bool,
    /// There is a directory to release to.
    pub has_base: bool,
    /// How many directories were released to before.
    pub earlier: usize,
    /// In the fixed directory a file is missing.
    pub missing: bool,
}

/// What a step came to.
#[derive(Clone, Copy, Debug, PartialEq, Eq, Structural)]
pub enum ResolveEvent {
    /// The candidate has problems, and whether a file is missing; or it is not there.
    Rejected { missing: bool },
    /// The candidate has no problem.
    Passed,
    /// Whether the release went well.
    Released(bool),
}

/// Where the search goes on when there is nothing beside the program.
pub open spec fn after_bundled(embedded: bool, has_base: bool) -> ResolveStep {
    if !embedded {
        ResolveStep::Fail(ResolveFailure::NotEmbedded)
    } else if !has_base {
        ResolveStep::Fail(ResolveFailure::NoStateDir)
    } else {
        ResolveStep::Check(Place::Fixed)
    }
}

/// Where the search goes on when a directory that was released to before is no use.
pub open spec fn after_earlier(i: int, r: Resolve) -> ResolveStep {
    if i < r.earlier {
        ResolveStep::Check(Place::Earlier(i as usize))
    } else if r.missing {
        ResolveStep::Complete
    } else {
        ResolveStep::Release
    }
}

/// Where the search goes on. An event that does not belong to the step changes nothing.
pub open spec fn resolve_next(r: Resolve, event: ResolveEvent) -> Resolve {
    match (r.step, event) {
        (ResolveStep::Check(p), ResolveEvent::Passed) => Resolve { step: ResolveStep::Use(p), ..r },
        (ResolveStep::Check(Place::Bundled), ResolveEvent::Rejected { missing }) => Resolve {
            step: after_bundled(r.embedded, r.has_base),
            ..r
        },
        (ResolveStep::Check(Place::Fixed), ResolveEvent::Rejected { missing }) => {
            let now = Resolve { missing, ..r };
            Resolve { step: after_earlier(0, now), ..now }
        },
        (ResolveStep::Check(Place::Earlier(i)), ResolveEvent::Rejected { missing }) => Resolve {
            step: after_earlier(i + 1, r),
            ..r
        },
        (ResolveStep::Check(Place::Fresh), ResolveEvent::Rejected { missing }) => Resolve {
            step: ResolveStep::Fail(ResolveFailure::NoCandidate),
            ..r
        },
        (ResolveStep::Complete, ResolveEvent::Released(_)) => Resolve {
            step: ResolveStep::CheckCompleted,
            ..r
        },
        (ResolveStep::CheckCompleted, ResolveEvent::Passed) => Resolve {
            step: ResolveStep::Use(Place::Fixed),
            ..r
        },
        (ResolveStep::CheckCompleted, ResolveEvent::Rejected { missing }) => Resolve {
            step: ResolveStep::Release,
            ..r
        },
        (ResolveStep::Release, ResolveEvent::Released(ok)) => Resolve {
            step: if ok {
                ResolveStep::Check(Place::Fresh)
            } else {
                ResolveStep::Fail(ResolveFailure::NoCandidate)
            },
            ..r
        },
        _ => r,
    }
}

fn bundled_next(embedded: bool, has_base: bool) -> (r: ResolveStep)
    ensures
        r == after_bundled(embedded, has_base),
{
    if !embedded {
        ResolveStep::Fail(ResolveFailure::NotEmbedded)
    } else if !has_base {
        ResolveStep::Fail(ResolveFailure::NoStateDir)
    } else {
        ResolveStep::Check(Place::Fixed)
    }
}

fn earlier_next(i: usize, r: &Resolve) -> (s: ResolveStep)
    ensures
        s == after_earlier(i as int, *r),
{
    if i < r.earlier {
        ResolveStep::Check(Place::Earlier(i))
    } else if r.missing {
        ResolveStep::Complete
    } else {
        ResolveStep::Release
    }
}

/// Starts the search: beside the program, if there is a directory.
pub fn resolve_executable(has_bundled: bool, embedded: bool, has_base: bool, earlier: usize) -> (r:
    Resolve)
    ensures
        r == (Resolve {
            step: if has_bundled {
                ResolveStep::Check(Place::Bundled)
            } else {
                after_bundled(embedded, has_base)
            },
            embedded,
            has_base,
            earlier,
            missing: false,
        }),
{
    let step = if has_bundled {
        ResolveStep::Check(Place::Bundled)
    } else {
        bundled_next(embedded, has_base)
    };
    Resolve { step, embedded, has_base, earlier, missing: false }
}

/// The directories that were released to before are those that were counted.
pub open spec fn is_sound(r: Resolve) -> bool {
    r.step matches ResolveStep::Check(Place::Earlier(i)) ==> i < r.earlier
}

/// Where the search goes on after a step.
pub fn resolve_among(r: &Resolve, event: ResolveEvent) -> (n: Resolve)
    requires
        is_sound(*r),
    ensures
        n == resolve_next(*r, event),
        is_sound(n),
{
    let mut n = *r;
    match r.step {
        ResolveStep::Check(p) => match event {
            ResolveEvent::Passed => {
                n.step = ResolveStep::Use(p);
            },
            ResolveEvent::Rejected { missing } => match p {
                Place::Bundled => {
                    n.step = bundled_next(r.embedded, r.has_base);
                },
                Place::Fixed => {
                    n.missing = missing;
                    let s = earlier_next(0, &n);
                    n.step = s;
                },
                Place::Earlier(i) => {
                    n.step = earlier_next(i + 1, r);
                },
                Place::Fresh => {
                    n.step = ResolveStep::Fail(ResolveFailure::NoCandidate);
                },
            },
            ResolveEvent::Released(_) => {},
        },
        ResolveStep::Complete => match event {
            ResolveEvent::Released(_) => {
                n.step = ResolveStep::CheckCompleted;
            },
            _ => {},
        },
        ResolveStep::CheckCompleted => match event {
            ResolveEvent::Passed => {
                n.step = ResolveStep::Use(Place::Fixed);
            },
            ResolveEvent::Rejected { missing: _ } => {
                n.step = ResolveStep::Release;
            },
            ResolveEvent::Released(_) => {},
        },
        ResolveStep::Release => match event {
            ResolveEvent::Released(true) => {
                n.step = ResolveStep::Check(Place::Fresh);
            },
            ResolveEvent::Released(false) => {
                n.step = ResolveStep::Fail(ResolveFailure::NoCandidate);
            },
            _ => {},
        },
        ResolveStep::Use(_) => {},
        ResolveStep::Fail(_) => {},
    }
    n
}

/// No engine is ever used without having passed its check right before.
pub proof fn law_only_checked_engines_are_used(r: Resolve, event: ResolveEvent, p: Place)
    requires
        resolve_next(r, event).step == ResolveStep::Use(p),
        !(r.step is Use),
    ensures
        event == ResolveEvent::Passed,
        r.step == ResolveStep::Check(p) || (r.step == ResolveStep::CheckCompleted && p
            == Place::Fixed),
{
}

/// The engine beside the program is used whenever it passes: nothing else is looked at.
pub proof fn law_the_bundled_engine_comes_first(r: Resolve)
    requires
        r.step == ResolveStep::Check(Place::Bundled),
    ensures
        resolve_next(r, ResolveEvent::Passed).step == ResolveStep::Use(Place::Bundled),
{
}

/// The message when no engine can be used.
pub open spec fn failure_text(
    f: ResolveFailure,
    name: Seq<char>,
    reasons: Seq<Seq<char>>,
) -> Seq<char> {
    match f {
        ResolveFailure::NotEmbedded => "未找到 7-Zip 引擎：resources/7zip 里没有 "@ + name
            + ", 本构建也没有内嵌引擎。请运行 scripts/fetch-7zip.ps1 获取官方完整引擎后重新构建。"@
            + if reasons.len() == 0 {
            Seq::empty()
        } else {
            "\n各候选不可用的原因：\n- "@ + text::join_with(reasons, "\n- "@)
        },
        ResolveFailure::NoStateDir =>
            "无法确定用户数据目录，不能释放内嵌的 7-Zip 引擎"@,
        ResolveFailure::NoCandidate =>
            "没有可用的 7-Zip 引擎（所有候选均未通过校验，按 E-05 停止）：\n- "@ + text::join_with(
            reasons,
            "\n- "@,
        ),
    }
}

/// The message when no engine can be used, with the reasons of all candidates.
pub fn failure_message(f: ResolveFailure, name: &str, reasons: &Vec<String>) -> (r: String)
    ensures
        r@ == failure_text(f, name@, text::texts(reasons@)),
{
    match f {
        ResolveFailure::NotEmbedded => {
            let mut s = "未找到 7-Zip 引擎：resources/7zip 里没有 ".to_owned();
            s.append(name);
            s.append(
                ", 本构建也没有内嵌引擎。请运行 scripts/fetch-7zip.ps1 获取官方完整引擎后重新构建。",
            );
            let ghost head = s@;
            if reasons.len() > 0 {
                s.append("\n各候选不可用的原因：\n- ");
                s.append(text::join(reasons, "\n- ").as_str());
                assert(s@ =~= head + ("\n各候选不可用的原因：\n- "@ + text::join_with(
                    text::texts(reasons@),
                    "\n- "@,
                )));
            } else {
                assert(s@ =~= head + Seq::<char>::empty());
            }
            s
        },
        ResolveFailure::NoStateDir =>
            "无法确定用户数据目录，不能释放内嵌的 7-Zip 引擎".to_owned(),
        ResolveFailure::NoCandidate => {
            let mut s = "没有可用的 7-Zip 引擎（所有候选均未通过校验，按 E-05 停止）：\n- ".to_owned();
            s.append(text::join(reasons, "\n- ").as_str());
            s
        },
    }
}

/// Every file that is not as expected is a problem, told with its name, and only a missing
/// one can be helped by releasing; files that are as expected are none.
pub proof fn law_every_wrong_file_is_told(
    names: Seq<Seq<char>>,
    probes: Seq<FileProbe>,
    k: int,
    i: int,
)
    requires
        0 <= i < k,
    ensures
        problems_upto(names, probes, k).len() <= k,
        probes[i] is Missing ==> problems_upto(names, probes, k).contains(
            ("缺少 "@ + names[i], true),
        ),
        probes[i] == FileProbe::Hashed(false) ==> problems_upto(names, probes, k).contains(
            (names[i] + " 的 sha256 与内嵌清单不一致"@, false),
        ),
        probes[i] matches FileProbe::Unreadable(e) ==> problems_upto(names, probes, k).contains(
            (names[i] + " 无法读取以校验 sha256："@ + e@, false),
        ),
        problems_upto(names, probes, k + 1).len() == problems_upto(names, probes, k).len()
            + if probes[k] == FileProbe::Hashed(true) {
            0nat
        } else {
            1
        },
    decreases k,
{
    let before = problems_upto(names, probes, k - 1);
    let now = problems_upto(names, probes, k);
    if i < k - 1 {
        law_every_wrong_file_is_told(names, probes, k - 1, i);
        assert forall|x: (Seq<char>, bool)| before.contains(x) implies now.contains(x) by {
            let t = choose|t: int| 0 <= t < before.len() && before[t] == x;
            assert(now[t] == x);
        }
    } else {
        few_problems(names, probes, k - 1);
        match file_problem(names[i], probes[i]) {
            Some(x) => {
                assert(now[before.len() as int] == x);
            },
            None => {},
        }
    }
}

proof fn few_problems(names: Seq<Seq<char>>, probes: Seq<FileProbe>, k: int)
    requires
        0 <= k,
    ensures
        problems_upto(names, probes, k).len() <= k,
    decreases k,
{
    if k > 0 {
        few_problems(names, probes, k - 1);
    }
}

/// The order of the search: beside the program, in the fixed directory, in the directories
/// released to before one after the other; what is missing in the fixed directory is
/// released there, and at last everything into a new directory.
pub proof fn law_the_order_of_the_search(r: Resolve, missing: bool, i: usize)
    requires
        r.embedded,
        r.has_base,
    ensures
        r.step == ResolveStep::Check(Place::Bundled) ==> resolve_next(
            r,
            ResolveEvent::Rejected { missing },
        ).step == ResolveStep::Check(Place::Fixed),
        r.step == ResolveStep::Check(Place::Fixed) ==> resolve_next(
            r,
            ResolveEvent::Rejected { missing },
        ).step == (if r.earlier > 0 {
            ResolveStep::Check(Place::Earlier(0))
        } else if missing {
            ResolveStep::Complete
        } else {
            ResolveStep::Release
        }),
        r.step == ResolveStep::Check(Place::Fixed) ==> resolve_next(
            r,
            ResolveEvent::Rejected { missing },
        ).missing == missing,
        r.step == ResolveStep::Check(Place::Earlier(i)) && i < r.earlier ==> resolve_next(
            r,
            ResolveEvent::Rejected { missing },
        ).step == (if i + 1 < r.earlier {
            ResolveStep::Check(Place::Earlier((i + 1) as usize))
        } else if r.missing {
            ResolveStep::Complete
        } else {
            ResolveStep::Release
        }),
        r.step == ResolveStep::Complete ==> resolve_next(r, ResolveEvent::Released(missing)).step
            == ResolveStep::CheckCompleted,
        r.step == ResolveStep::CheckCompleted ==> resolve_next(
            r,
            ResolveEvent::Rejected { missing },
        ).step == ResolveStep::Release,
        r.step == ResolveStep::CheckCompleted ==> resolve_next(r, ResolveEvent::Passed).step
            == ResolveStep::Use(Place::Fixed),
        r.step == ResolveStep::Release ==> resolve_next(r, ResolveEvent::Released(true)).step
            == ResolveStep::Check(Place::Fresh),
        r.step == ResolveStep::Release ==> resolve_next(r, ResolveEvent::Released(false)).step
            == ResolveStep::Fail(ResolveFailure::NoCandidate),
        r.step == ResolveStep::Check(Place::Fresh) ==> resolve_next(
            r,
            ResolveEvent::Rejected { missing },
        ).step == ResolveStep::Fail(ResolveFailure::NoCandidate),
{
}

/// Every candidate that passes is used; a program that carries no engine fails once there is
/// none beside it, and so does one without a directory to release to.
pub proof fn law_what_passes_is_used(r: Resolve, p: Place, missing: bool)
    ensures
        r.step == ResolveStep::Check(p) ==> resolve_next(r, ResolveEvent::Passed).step
            == ResolveStep::Use(p),
        r.step == ResolveStep::Check(Place::Bundled) && !r.embedded ==> resolve_next(
            r,
            ResolveEvent::Rejected { missing },
        ).step == ResolveStep::Fail(ResolveFailure::NotEmbedded),
        r.step == ResolveStep::Check(Place::Bundled) && r.embedded && !r.has_base ==> resolve_next(
            r,
            ResolveEvent::Rejected { missing },
        ).step == ResolveStep::Fail(ResolveFailure::NoStateDir),
        after_bundled(r.embedded, r.has_base) == ResolveStep::Check(Place::Fixed) <==> r.embedded
            && r.has_base,
{
}

} // verus!
