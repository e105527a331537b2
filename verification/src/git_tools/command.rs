//! The git commands of a change, and what is logged of them.

use crate::git_tools::change;
use crate::git_tools::change::{
    ChangeEvent, ChangeRun, ChangeStage, CommitVerdict, FatalReason, MergeVerdict, PushVerdict,
};
use crate::git_tools::status;
use crate::git_tools::status::{ChangeView, FileChange};
use crate::text;
use vstd::prelude::*;

verus! {

/// The message that a change is committed with.
pub open spec fn message_text(c: ChangeView) -> Seq<char> {
    "update: "@ + status::display_of(c)
}

/// The arguments of the git command that a stage asks for. A merge follows a fetch, whose
/// arguments stand apart.
pub open spec fn command_args(stage: ChangeStage, c: ChangeView) -> Seq<Seq<char>> {
    match stage {
        ChangeStage::Add => seq!["add"@, "--"@, status::display_of(c)],
        ChangeStage::Commit => seq!["commit"@, "--only"@, "-m"@, message_text(c), "--"@]
            + status::committed_of(c),
        ChangeStage::Check => seq!["status"@, "--porcelain"@, "--"@] + status::committed_of(c),
        ChangeStage::Verify => seq![
            "diff-tree"@,
            "--no-commit-id"@,
            "--name-status"@,
            "-r"@,
            "--root"@,
            "-z"@,
            "HEAD"@,
        ],
        ChangeStage::Push => push_args(),
        ChangeStage::Merge => seq!["merge"@, "FETCH_HEAD"@],
        ChangeStage::Wait(_) => Seq::empty(),
        ChangeStage::End(_) => Seq::empty(),
    }
}

/// The arguments of a push, which goes to the upstream of the branch.
pub open spec fn push_args() -> Seq<Seq<char>> {
    seq!["push"@, "--porcelain"@]
}

/// The arguments of the fetch before a merge; nothing where the upstream names no branch.
pub open spec fn fetch_args(upstream: Seq<char>) -> Option<Seq<Seq<char>>> {
    match text::rcut_once(upstream, "/"@) {
        Some((remote, branch)) => Some(seq!["fetch"@, remote, branch]),
        None => None,
    }
}

fn args2(a: &str, b: &str) -> (r: Vec<String>)
    ensures
        text::texts(r@) == seq![a@, b@],
{
    let mut v: Vec<String> = Vec::new();
    v.push(a.to_owned());
    v.push(b.to_owned());
    assert(text::texts(v@) =~= seq![a@, b@]);
    v
}

fn args3(a: &str, b: &str, c: &str) -> (r: Vec<String>)
    ensures
        text::texts(r@) == seq![a@, b@, c@],
{
    let mut v: Vec<String> = Vec::new();
    v.push(a.to_owned());
    v.push(b.to_owned());
    v.push(c.to_owned());
    assert(text::texts(v@) =~= seq![a@, b@, c@]);
    v
}

fn with_all(first: Vec<String>, more: &Vec<String>) -> (r: Vec<String>)
    ensures
        text::texts(r@) == text::texts(first@) + text::texts(more@),
{
    let mut v = first;
    let ghost start = text::texts(v@);
    let ghost all = text::texts(more@);
    let mut i: usize = 0;
    assert(start + all.take(0) =~= start);
    while i < more.len()
        invariant
            i <= more@.len(),
            all == text::texts(more@),
            text::texts(v@) == start + all.take(i as int),
        decreases more.len() - i,
    {
        let ghost before = v@;
        let s = more[i].as_str().to_owned();
        v.push(s);
        proof {
            text::texts_push(before, s);
            assert(all.take(i + 1) =~= all.take(i as int).push(all[i as int]));
            assert(start + all.take(i + 1) =~= (start + all.take(i as int)).push(s@));
        }
        i = i + 1;
    }
    assert(all.take(i as int) =~= all);
    v
}

/// The message that a change is committed with.
pub fn commit_message(change: &FileChange) -> (r: String)
    ensures
        r@ == message_text(change@),
{
    let mut s = "update: ".to_owned();
    s.append(change.display_path().as_str());
    s
}

/// The arguments of the git command that a stage asks for.
pub fn command_of(stage: ChangeStage, change: &FileChange) -> (r: Vec<String>)
    ensures
        text::texts(r@) == command_args(stage, change@),
{
    match stage {
        ChangeStage::Add => {
            let r = with_all(args2("add", "--"), &change.stage_paths());
            assert(text::texts(r@) =~= command_args(stage, change@));
            r
        },
        ChangeStage::Commit => {
            let message = commit_message(change);
            let first = args3("commit", "--only", "-m");
            let second = args2(message.as_str(), "--");
            let head = with_all(first, &second);
            let r = with_all(head, &change.commit_paths());
            assert(seq!["commit"@, "--only"@, "-m"@] + seq![message@, "--"@] =~= seq![
                "commit"@,
                "--only"@,
                "-m"@,
                message@,
                "--"@,
            ]);
            r
        },
        ChangeStage::Check => with_all(
            args3("status", "--porcelain", "--"),
            &change.commit_paths(),
        ),
        ChangeStage::Verify => {
            let first = args3("diff-tree", "--no-commit-id", "--name-status");
            let second = args2("-r", "--root");
            let third = args2("-z", "HEAD");
            let r = with_all(with_all(first, &second), &third);
            assert(text::texts(r@) =~= command_args(stage, change@));
            r
        },
        ChangeStage::Push => push_command(),
        ChangeStage::Merge => args2("merge", "FETCH_HEAD"),
        ChangeStage::Wait(_) => {
            let none: Vec<String> = Vec::new();
            assert(text::texts(none@) =~= Seq::<Seq<char>>::empty());
            none
        },
        ChangeStage::End(_) => {
            let none: Vec<String> = Vec::new();
            assert(text::texts(none@) =~= Seq::<Seq<char>>::empty());
            none
        },
    }
}

/// The arguments of a push.
pub fn push_command() -> (r: Vec<String>)
    ensures
        text::texts(r@) == push_args(),
{
    args2("push", "--porcelain")
}

/// The arguments of a merge with what was fetched.
pub fn merge_command() -> (r: Vec<String>)
    ensures
        text::texts(r@) == seq!["merge"@, "FETCH_HEAD"@],
{
    args2("merge", "FETCH_HEAD")
}

/// The arguments of the fetch before a merge.
pub fn fetch_command(upstream: &str) -> (r: Option<Vec<String>>)
    ensures
        match r {
            Some(v) => fetch_args(upstream@) == Some(text::texts(v@)),
            None => fetch_args(upstream@) is None,
        },
{
    match change::fetch_target(upstream) {
        Some((remote, branch)) => Some(args3("fetch", remote.as_str(), branch.as_str())),
        None => None,
    }
}

/// What the work on a change met with.
#[derive(Debug)]
pub struct Outcome {
    /// Why the command failed.
    pub why: String,
    /// What a merge with conflicts said.
    pub output: String,
    /// The fetch before a merge went well.
    pub fetched: bool,
    /// The seconds of the waiting time, with one decimal.
    pub seconds: String,
}

/// What the work on a change met with, as characters.
pub struct OutcomeView {
    pub why: Seq<char>,
    pub output: Seq<char>,
    pub fetched: bool,
    pub seconds: Seq<char>,
}

impl View for Outcome {
    type V = OutcomeView;

    open spec fn view(&self) -> OutcomeView {
        OutcomeView {
            why: self.why@,
            output: self.output@,
            fetched: self.fetched,
            seconds: self.seconds@,
        }
    }
}

/// What is logged before the command of a stage runs. A completed merge that is only
/// pushed has no change.
pub open spec fn line_before(
    run: ChangeRun,
    c: Option<ChangeView>,
    upstream: Seq<char>,
    seconds: Seq<char>,
) -> Option<Seq<char>> {
    match (run.stage, c) {
        (ChangeStage::Add, Some(c)) => Some("git add -- "@ + status::display_of(c)),
        (ChangeStage::Commit, Some(c)) => Some(
            "git commit --only -m \""@ + message_text(c) + "\" -- "@ + text::join_with(
                status::committed_of(c),
                " "@,
            ),
        ),
        (ChangeStage::Push, _) => Some("git push"@),
        (ChangeStage::Merge, _) => match text::rcut_once(upstream, "/"@) {
            Some((remote, branch)) => Some("git fetch "@ + remote + " "@ + branch),
            None => None,
        },
        (ChangeStage::Wait(_), _) => Some(
            "第 "@ + text::decimal(run.attempt as nat) + " 次失败：等待 "@ + seconds
                + " 秒后重试（G-09 无限重试，可随时停止）"@,
        ),
        _ => None,
    }
}

/// What is logged between a fetch that went well and the merge.
pub open spec fn line_between() -> Seq<char> {
    "git merge FETCH_HEAD"@
}

/// Why a fetch or a merge failed: an upstream that names no branch is said to be so.
pub open spec fn merge_reason(upstream: Seq<char>, why: Seq<char>) -> Seq<char> {
    match text::rcut_once(upstream, "/"@) {
        Some(_) => why,
        None => "无法解析 upstream「"@ + upstream + "」"@,
    }
}

/// What is logged after the command of a stage ran.
pub open spec fn line_after(
    event: ChangeEvent,
    c: Option<ChangeView>,
    upstream: Seq<char>,
    o: OutcomeView,
) -> Option<Seq<char>> {
    match event {
        ChangeEvent::Added(false) => Some("git add 失败："@ + o.why),
        ChangeEvent::Committed(CommitVerdict::Retry) => Some("git commit 失败："@ + o.why),
        ChangeEvent::Checked(Some(false)) => Some(
            "commit 未生效（路径仍有未提交变更），准备重试"@,
        ),
        ChangeEvent::Pushed(PushVerdict::Done) => match c {
            Some(c) => Some("push 成功："@ + status::display_of(c)),
            None => None,
        },
        ChangeEvent::Pushed(PushVerdict::Retry) => Some("push 失败："@ + o.why),
        ChangeEvent::Merged(MergeVerdict::Conflict) => Some("git merge 冲突输出：\n"@ + o.output),
        ChangeEvent::Merged(MergeVerdict::Retry) => Some(
            "fetch/merge 失败："@ + merge_reason(upstream, o.why),
        ),
        _ => None,
    }
}

fn joined(a: &str, b: &str) -> (r: String)
    ensures
        r@ == a@ + b@,
{
    let mut s = a.to_owned();
    s.append(b);
    s
}

/// The change as characters.
pub open spec fn change_of(c: Option<FileChange>) -> Option<ChangeView> {
    match c {
        Some(c) => Some(c@),
        None => None,
    }
}

/// What is logged before the command of a stage runs.
pub fn log_before(
    run: &ChangeRun,
    change: &Option<FileChange>,
    upstream: &str,
    seconds: &str,
) -> (r: Option<String>)
    ensures
        text::text_option(r) == line_before(*run, change_of(*change), upstream@, seconds@),
{
    match run.stage {
        ChangeStage::Add => match change {
            Some(c) => Some(joined("git add -- ", c.display_path().as_str())),
            None => None,
        },
        ChangeStage::Commit => match change {
            Some(c) => {
                let mut s = joined("git commit --only -m \"", commit_message(c).as_str());
                s.append("\" -- ");
                s.append(text::join(&c.commit_paths(), " ").as_str());
                Some(s)
            },
            None => None,
        },
        ChangeStage::Push => Some("git push".to_owned()),
        ChangeStage::Merge => match change::fetch_target(upstream) {
            Some((remote, branch)) => {
                let mut s = joined("git fetch ", remote.as_str());
                s.append(" ");
                s.append(branch.as_str());
                Some(s)
            },
            None => None,
        },
        ChangeStage::Wait(_) => {
            let mut s = joined("第 ", text::number(run.attempt).as_str());
            s.append(" 次失败：等待 ");
            s.append(seconds);
            s.append(" 秒后重试（G-09 无限重试，可随时停止）");
            Some(s)
        },
        _ => None,
    }
}

/// What is logged between a fetch that went well and the merge.
pub fn log_between() -> (r: &'static str)
    ensures
        r@ == line_between(),
{
    "git merge FETCH_HEAD"
}

/// What is logged after the command of a stage ran.
pub fn log_after(
    event: ChangeEvent,
    change: &Option<FileChange>,
    upstream: &str,
    o: &Outcome,
) -> (r: Option<String>)
    ensures
        text::text_option(r) == line_after(event, change_of(*change), upstream@, o@),
{
    match event {
        ChangeEvent::Added(false) => Some(joined("git add 失败：", o.why.as_str())),
        ChangeEvent::Committed(CommitVerdict::Retry) => Some(
            joined("git commit 失败：", o.why.as_str()),
        ),
        ChangeEvent::Checked(Some(false)) => Some(
            "commit 未生效（路径仍有未提交变更），准备重试".to_owned(),
        ),
        ChangeEvent::Pushed(PushVerdict::Done) => match change {
            Some(c) => Some(joined("push 成功：", c.display_path().as_str())),
            None => None,
        },
        ChangeEvent::Pushed(PushVerdict::Retry) => Some(joined("push 失败：", o.why.as_str())),
        ChangeEvent::Merged(MergeVerdict::Conflict) => Some(
            joined("git merge 冲突输出：\n", o.output.as_str()),
        ),
        ChangeEvent::Merged(MergeVerdict::Retry) => match change::fetch_target(upstream) {
            Some(_) => Some(joined("fetch/merge 失败：", o.why.as_str())),
            None => {
                let mut why = joined("无法解析 upstream「", upstream);
                why.append("」");
                Some(joined("fetch/merge 失败：", why.as_str()))
            },
        },
        _ => None,
    }
}

/// An optional line as lines.
pub open spec fn as_lines(line: Option<Seq<char>>) -> Seq<Seq<char>> {
    match line {
        Some(l) => seq![l],
        None => Seq::empty(),
    }
}

/// Everything that is logged while a stage is worked on.
pub open spec fn stage_lines(
    run: ChangeRun,
    event: ChangeEvent,
    c: Option<ChangeView>,
    upstream: Seq<char>,
    o: OutcomeView,
) -> Seq<Seq<char>> {
    let between = if run.stage == ChangeStage::Merge && text::rcut_once(upstream, "/"@) is Some
        && o.fetched {
        seq![line_between()]
    } else {
        Seq::empty()
    };
    as_lines(line_before(run, c, upstream, o.seconds)) + between + as_lines(
        line_after(event, c, upstream, o),
    )
}

/// Everything that is logged of a change for the given events, from `run` on, where the
/// task is not cancelled.
pub open spec fn change_lines(
    run: ChangeRun,
    events: Seq<(ChangeEvent, OutcomeView)>,
    c: Option<ChangeView>,
    upstream: Seq<char>,
) -> Seq<Seq<char>>
    decreases events.len(),
{
    if events.len() == 0 {
        Seq::empty()
    } else {
        stage_lines(run, events[0].0, c, upstream, events[0].1) + change_lines(
            change::change_next(run, events[0].0, false),
            events.skip(1),
            c,
            upstream,
        )
    }
}

/// Where a change stands after the given events, where the task is not cancelled.
pub open spec fn after_all(run: ChangeRun, events: Seq<(ChangeEvent, OutcomeView)>) -> ChangeRun
    decreases events.len(),
{
    if events.len() == 0 {
        run
    } else {
        after_all(change::change_next(run, events[0].0, false), events.skip(1))
    }
}

/// A change that goes well is added, committed, verified and pushed, each once, and the log
/// shows that and nothing else.
pub proof fn law_a_smooth_change(c: ChangeView, upstream: Seq<char>, o: OutcomeView)
    ensures
        ({
            let events = seq![
                (ChangeEvent::Added(true), o),
                (ChangeEvent::Committed(CommitVerdict::Done), o),
                (ChangeEvent::Verified(true), o),
                (ChangeEvent::Pushed(PushVerdict::Done), o),
            ];
            let start = change::change_start(false);
            &&& after_all(start, events).stage == ChangeStage::End(change::ChangeEnd::Done)
            &&& change_lines(start, events, Some(c), upstream) == seq![
                "git add -- "@ + status::display_of(c),
                "git commit --only -m \""@ + message_text(c) + "\" -- "@ + text::join_with(
                    status::committed_of(c),
                    " "@,
                ),
                "git push"@,
                "push 成功："@ + status::display_of(c),
            ]
        }),
{
    let e0 = (ChangeEvent::Added(true), o);
    let e1 = (ChangeEvent::Committed(CommitVerdict::Done), o);
    let e2 = (ChangeEvent::Verified(true), o);
    let e3 = (ChangeEvent::Pushed(PushVerdict::Done), o);
    let all = seq![e0, e1, e2, e3];
    assert(all.skip(1) =~= seq![e1, e2, e3]);
    assert(all.skip(1).skip(1) =~= seq![e2, e3]);
    assert(all.skip(1).skip(1).skip(1) =~= seq![e3]);
    assert(all.skip(1).skip(1).skip(1).skip(1) =~= Seq::empty());
    reveal_with_fuel(change_lines, 5);
    reveal_with_fuel(after_all, 5);
    assert(change_lines(change::change_start(false), all, Some(c), upstream) =~= seq![
        "git add -- "@ + status::display_of(c),
        "git commit --only -m \""@ + message_text(c) + "\" -- "@ + text::join_with(
            status::committed_of(c),
            " "@,
        ),
        "git push"@,
        "push 成功："@ + status::display_of(c),
    ]);
}

/// Why a task ends, of a failure that trying again cannot mend.
pub open spec fn fatal_text(reason: FatalReason, why: Seq<char>, display: Seq<char>) -> Seq<char> {
    match reason {
        FatalReason::NoIdentity =>
            "git 未配置提交身份（user.name / user.email），无法提交；请先在仓库或全局配置 git 身份后重新开始任务"@,
        FatalReason::CheckFailed => "核实提交状态失败："@ + why,
        FatalReason::VerifyFailed => why + "（当前文件："@ + display + "，阶段：commit 验证）"@,
        FatalReason::Blocked => "合并被本地未提交变更阻挡："@ + why + "（阶段：merge）"@,
    }
}

/// Why a task ends, of a failure that trying again cannot mend. `why` is what the command
/// said.
pub fn fatal_reason(reason: FatalReason, why: &str, display: &str) -> (r: String)
    ensures
        r@ == fatal_text(reason, why@, display@),
{
    match reason {
        FatalReason::NoIdentity =>
            "git 未配置提交身份（user.name / user.email），无法提交；请先在仓库或全局配置 git 身份后重新开始任务".to_owned(),
        FatalReason::CheckFailed => joined("核实提交状态失败：", why),
        FatalReason::VerifyFailed => {
            let mut s = joined(why, "（当前文件：");
            s.append(display);
            s.append("，阶段：commit 验证）");
            s
        },
        FatalReason::Blocked => {
            let mut s = joined("合并被本地未提交变更阻挡：", why);
            s.append("（阶段：merge）");
            s
        },
    }
}

/// A change is added and committed by its own paths and no others, under a message with its
/// path: those that stand behind the two dashes are the path of the file, and of a renamed
/// file in the commit the old one and the new one.
pub proof fn law_commands_name_the_change_only(p: Seq<char>, q: Seq<char>)
    ensures
        forall|c: ChangeView|
            c == ChangeView::Added(p) || c == ChangeView::Modified(p) || c == ChangeView::Deleted(p)
                ==> {
                &&& #[trigger] command_args(ChangeStage::Add, c) == seq!["add"@, "--"@, p]
                &&& command_args(ChangeStage::Commit, c) == seq![
                    "commit"@,
                    "--only"@,
                    "-m"@,
                    "update: "@ + p,
                    "--"@,
                    p,
                ]
                &&& command_args(ChangeStage::Check, c) == seq![
                    "status"@,
                    "--porcelain"@,
                    "--"@,
                    p,
                ]
            },
        command_args(ChangeStage::Add, ChangeView::Renamed(p, q)) == seq!["add"@, "--"@, q],
        command_args(ChangeStage::Commit, ChangeView::Renamed(p, q)) == seq![
            "commit"@,
            "--only"@,
            "-m"@,
            "update: "@ + q,
            "--"@,
            p,
            q,
        ],
        command_args(ChangeStage::Check, ChangeView::Renamed(p, q)) == seq![
            "status"@,
            "--porcelain"@,
            "--"@,
            p,
            q,
        ],
{
    let head = seq!["commit"@, "--only"@, "-m"@, "update: "@ + p, "--"@];
    assert(head + seq![p] =~= seq!["commit"@, "--only"@, "-m"@, "update: "@ + p, "--"@, p]);
    let check = seq!["status"@, "--porcelain"@, "--"@];
    assert(check + seq![p] =~= seq!["status"@, "--porcelain"@, "--"@, p]);
    assert(check + seq![p, q] =~= seq!["status"@, "--porcelain"@, "--"@, p, q]);
    assert(seq!["commit"@, "--only"@, "-m"@, "update: "@ + q, "--"@] + seq![p, q] =~= seq![
        "commit"@,
        "--only"@,
        "-m"@,
        "update: "@ + q,
        "--"@,
        p,
        q,
    ]);
}

/// A fetch asks the remote of the upstream for its branch: the upstream is the two with a
/// slash between them, parted at the last one.
pub proof fn law_the_upstream_is_fetched(upstream: Seq<char>)
    ensures
        match fetch_args(upstream) {
            Some(args) => args.len() == 3 && args[0] == "fetch"@ && upstream == args[1] + "/"@
                + args[2] && !args[2].contains('/'),
            None => !upstream.contains('/'),
        },
{
    reveal_strlit("/");
    let p = "/"@;
    text::law_cut_at_the_last_place(upstream, p);
    match text::rcut_once(upstream, p) {
        Some((a, b)) => {
            if b.contains('/') {
                let k = choose|k: int| 0 <= k < b.len() && b[k] == '/';
                let at = a.len() + 1 + k;
                assert(upstream[at] == '/');
                assert(upstream.subrange(at, at + 1) =~= p);
                assert(text::occurs_at(upstream, p, at));
            }
        },
        None => {
            if upstream.contains('/') {
                let k = choose|k: int| 0 <= k < upstream.len() && upstream[k] == '/';
                assert(upstream.subrange(k, k + 1) =~= p);
                assert(text::occurs_at(upstream, p, k));
            }
        },
    }
}

/// Every failure of a command is logged with what it said; before a command runs the log
/// shows it, and before a wait how long it is and how many failures there were.
pub proof fn law_failures_are_logged(run: ChangeRun, c: ChangeView, upstream: Seq<char>, o: OutcomeView)
    ensures
        line_after(ChangeEvent::Added(false), Some(c), upstream, o) == Some(
            "git add 失败："@ + o.why,
        ),
        line_after(ChangeEvent::Added(true), Some(c), upstream, o) is None,
        line_after(ChangeEvent::Committed(CommitVerdict::Retry), Some(c), upstream, o) == Some(
            "git commit 失败："@ + o.why,
        ),
        line_after(ChangeEvent::Pushed(PushVerdict::Retry), Some(c), upstream, o) == Some(
            "push 失败："@ + o.why,
        ),
        line_after(ChangeEvent::Pushed(PushVerdict::Done), Some(c), upstream, o) == Some(
            "push 成功："@ + status::display_of(c),
        ),
        line_after(ChangeEvent::Pushed(PushVerdict::Done), None, upstream, o) is None,
        line_after(ChangeEvent::Merged(MergeVerdict::Conflict), Some(c), upstream, o) == Some(
            "git merge 冲突输出：\n"@ + o.output,
        ),
        text::rcut_once(upstream, "/"@) is Some ==> line_after(
            ChangeEvent::Merged(MergeVerdict::Retry),
            Some(c),
            upstream,
            o,
        ) == Some("fetch/merge 失败："@ + o.why),
        text::rcut_once(upstream, "/"@) is None ==> line_after(
            ChangeEvent::Merged(MergeVerdict::Retry),
            Some(c),
            upstream,
            o,
        ) == Some("fetch/merge 失败："@ + ("无法解析 upstream「"@ + upstream + "」"@)),
        line_after(ChangeEvent::Checked(Some(false)), Some(c), upstream, o) == Some(
            "commit 未生效（路径仍有未提交变更），准备重试"@,
        ),
        line_after(ChangeEvent::Checked(Some(true)), Some(c), upstream, o) is None,
        run.stage is Wait ==> line_before(run, Some(c), upstream, o.seconds) == Some(
            "第 "@ + text::decimal(run.attempt as nat) + " 次失败：等待 "@ + o.seconds
                + " 秒后重试（G-09 无限重试，可随时停止）"@,
        ),
        run.stage == ChangeStage::Push ==> line_before(run, None, upstream, o.seconds) == Some(
            "git push"@,
        ),
        run.stage == ChangeStage::Merge ==> (text::rcut_once(upstream, "/"@) matches Some((remote, branch))
            ==> line_before(run, Some(c), upstream, o.seconds) == Some(
            "git fetch "@ + remote + " "@ + branch,
        )),
        run.stage == ChangeStage::Verify || run.stage == ChangeStage::Check ==> line_before(
            run,
            Some(c),
            upstream,
            o.seconds,
        ) is None,
{
}

/// What is logged of a stage: what stands before it, that a merge follows a fetch that went
/// well, and what stands behind it, in this order.
pub proof fn law_lines_of_a_stage(
    run: ChangeRun,
    event: ChangeEvent,
    c: ChangeView,
    upstream: Seq<char>,
    o: OutcomeView,
)
    ensures
        ({
            let lines = stage_lines(run, event, Some(c), upstream, o);
            let before = line_before(run, Some(c), upstream, o.seconds);
            let after = line_after(event, Some(c), upstream, o);
            let merges = run.stage == ChangeStage::Merge && text::rcut_once(upstream, "/"@) is Some
                && o.fetched;
            &&& before is Some ==> lines.len() > 0 && lines[0] == before->0
            &&& after is Some ==> lines.len() > 0 && lines.last() == after->0
            &&& lines.contains("git merge FETCH_HEAD"@) || !merges
            &&& before is None && after is None && !merges ==> lines.len() == 0
            &&& before is Some && after is Some && !merges ==> lines == seq![before->0, after->0]
        }),
{
    let lines = stage_lines(run, event, Some(c), upstream, o);
    let before = line_before(run, Some(c), upstream, o.seconds);
    let after = line_after(event, Some(c), upstream, o);
    let merges = run.stage == ChangeStage::Merge && text::rcut_once(upstream, "/"@) is Some
        && o.fetched;
    if merges {
        assert(lines[as_lines(before).len() as int] == "git merge FETCH_HEAD"@);
    }
    if before is Some && after is Some && !merges {
        assert(lines =~= seq![before->0, after->0]);
    }
}

/// A failure that cannot be mended is told with what the command said, and where it was.
pub proof fn law_fatal_failures_tell_why(why: Seq<char>, display: Seq<char>)
    ensures
        fatal_text(FatalReason::CheckFailed, why, display) == "核实提交状态失败："@ + why,
        fatal_text(FatalReason::VerifyFailed, why, display) == why + "（当前文件："@ + display
            + "，阶段：commit 验证）"@,
        fatal_text(FatalReason::Blocked, why, display) == "合并被本地未提交变更阻挡："@ + why
            + "（阶段：merge）"@,
{
}

} // verus!
