//! What is known of a repository before anything is committed.

use crate::git_tools::status;
use crate::git_tools::status::{FileChange, StatusError};
use crate::rules;
use crate::text;
use vstd::prelude::*;

verus! {

/// The progress that the window shows.
#[derive(Debug)]
pub struct GitShared {
    pub repo: String,
    pub branch: String,
    pub upstream: String,
    pub total: u64,
    pub done: u64,
    pub current: String,
    pub stage: String,
    pub retry: u64,
    /// The seconds until the next attempt.
    pub retry_wait: u64,
    pub state: String,
}

impl GitShared {
    /// Nothing started.
    pub fn new() -> (r: GitShared)
        ensures
            r.repo@.len() == 0,
            r.branch@.len() == 0,
            r.upstream@.len() == 0,
            r.current@.len() == 0,
            r.total == 0,
            r.done == 0,
            r.retry == 0,
            r.retry_wait == 0,
            r.stage@ == "扫描"@,
            r.state@ == "未开始"@,
    {
        GitShared {
            repo: String::new(),
            branch: String::new(),
            upstream: String::new(),
            total: 0,
            done: 0,
            current: String::new(),
            stage: "扫描".to_owned(),
            retry: 0,
            retry_wait: 0,
            state: "未开始".to_owned(),
        }
    }

    /// Shows a stage.
    pub fn set_stage(&mut self, stage: &str)
        ensures
            final(self).stage@ == stage@,
            *final(self) == (GitShared { stage: final(self).stage, ..*old(self) }),
    {
        self.stage = stage.to_owned();
    }

    /// Shows a state.
    pub fn set_state(&mut self, state: &str)
        ensures
            final(self).state@ == state@,
            *final(self) == (GitShared { state: final(self).state, ..*old(self) }),
    {
        self.state = state.to_owned();
    }

    /// Shows the file that is being worked on.
    pub fn set_current(&mut self, current: &str)
        ensures
            final(self).current@ == current@,
            *final(self) == (GitShared { current: final(self).current, ..*old(self) }),
    {
        self.current = current.to_owned();
    }
}

/// A repository that can be worked on.
#[derive(Debug)]
pub struct RepoInfo {
    pub root: String,
    pub branch: String,
    pub upstream: String,
}

/// Why a repository cannot be worked on.
#[derive(Debug)]
pub enum InspectError {
    /// It is none.
    NotARepository(String),
    /// No branch is checked out.
    Detached,
    /// The branch has no upstream.
    NoUpstream(String),
}

impl InspectError {
    /// The message.
    pub open spec fn words(self) -> Seq<char> {
        match self {
            InspectError::NotARepository(e) => "不是有效的 Git repository："@ + e@,
            InspectError::Detached =>
                "当前没有检出的 branch（处于 detached HEAD），无法使用本工具"@,
            InspectError::NoUpstream(b) => "当前 branch「"@ + b@ + "」未配置 upstream，无法推送"@,
        }
    }

    /// The message.
    pub fn message(&self) -> (r: String)
        ensures
            r@ == self.words(),
    {
        match self {
            InspectError::NotARepository(e) => {
                let mut s = "不是有效的 Git repository：".to_owned();
                s.append(e.as_str());
                s
            },
            InspectError::Detached =>
                "当前没有检出的 branch（处于 detached HEAD），无法使用本工具".to_owned(),
            InspectError::NoUpstream(b) => {
                let mut s = "当前 branch「".to_owned();
                s.append(b.as_str());
                s.append("」未配置 upstream，无法推送");
                s
            },
        }
    }
}

/// Judges a repository by what git says of its root, its branch and its upstream, asked
/// in this order; an answer is missing where git had none.
pub fn inspect(
    top: Result<&str, &str>,
    branch: Option<&str>,
    upstream: Option<&str>,
) -> (r: Result<RepoInfo, InspectError>)
    ensures
        match r {
            Ok(info) => {
                &&& top is Ok && branch is Some && upstream is Some
                &&& info.root@ == text::trimmed(top->Ok_0@)
                &&& info.branch@ == text::trimmed(branch->0@)
                &&& info.upstream@ == text::trimmed(upstream->0@)
            },
            Err(InspectError::NotARepository(e)) => top matches Err(x) && e@ == x@,
            Err(InspectError::Detached) => top is Ok && branch is None,
            Err(InspectError::NoUpstream(b)) => top is Ok && upstream is None && branch is Some && b@
                == text::trimmed(branch->0@),
        },
{
    let root = match top {
        Ok(t) => text::trim(t),
        Err(e) => return Err(InspectError::NotARepository(e.to_owned())),
    };
    let branch = match branch {
        Some(b) => text::trim(b),
        None => return Err(InspectError::Detached),
    };
    match upstream {
        Some(u) => Ok(RepoInfo { root, branch, upstream: text::trim(u) }),
        None => Err(InspectError::NoUpstream(branch)),
    }
}

/// A repository in the middle of something.
#[derive(Debug)]
pub enum MiddleState {
    Clean,
    /// A merge, with the files that still have conflicts.
    Merge { unresolved: Vec<String> },
    /// Something else.
    Other(&'static str),
}

/// Which files of git's directory are there.
#[derive(Clone, Copy, Debug, PartialEq, Eq, Structural)]
pub struct MiddleFacts {
    pub rebase_merge: bool,
    pub rebase_apply: bool,
    pub cherry_pick_head: bool,
    pub revert_head: bool,
    pub merge_head: bool,
}

/// Tells what a repository is in the middle of. `unresolved` is what git lists of files
/// with conflicts, asked only during a merge.
pub fn middle_state(f: MiddleFacts, unresolved: &str) -> (r: MiddleState)
    ensures
        match r {
            MiddleState::Other(kind) => if f.rebase_merge || f.rebase_apply {
                kind@ == "rebase"@
            } else if f.cherry_pick_head {
                kind@ == "cherry-pick"@
            } else {
                f.revert_head && kind@ == "revert"@
            },
            MiddleState::Merge { unresolved: list } => {
                &&& !f.rebase_merge && !f.rebase_apply && !f.cherry_pick_head && !f.revert_head
                &&& f.merge_head
                &&& text::texts(list@) == rules::nonblank(text::split_on(unresolved@, '\n'))
            },
            MiddleState::Clean => f == (MiddleFacts {
                rebase_merge: false,
                rebase_apply: false,
                cherry_pick_head: false,
                revert_head: false,
                merge_head: false,
            }),
        },
{
    if f.rebase_merge || f.rebase_apply {
        return MiddleState::Other("rebase");
    }
    if f.cherry_pick_head {
        return MiddleState::Other("cherry-pick");
    }
    if f.revert_head {
        return MiddleState::Other("revert");
    }
    if f.merge_head {
        return MiddleState::Merge { unresolved: status::telling_lines(unresolved) };
    }
    MiddleState::Clean
}

/// Why the changes of a repository are not known.
#[derive(Debug)]
pub enum ChangesError {
    /// The command failed; what it says.
    Failed(String),
    /// What it says cannot be used.
    Unusable(StatusError),
}

/// Reads the changes of a repository from what `git status` came to.
pub fn status_changes(success: bool, stdout: &str, stderr: &str) -> (r: Result<
    Vec<FileChange>,
    ChangesError,
>)
    ensures
        match r {
            Err(ChangesError::Failed(s)) => !success && s@ == "git status 失败："@
                + status::summary_of(stderr@, stdout@),
            Err(ChangesError::Unusable(e)) => success && status::parsed(stdout@) == Err::<
                Seq<status::ChangeView>,
                status::StatusErrorView,
            >(e@),
            Ok(v) => success && status::parsed(stdout@) == Ok::<
                Seq<status::ChangeView>,
                status::StatusErrorView,
            >(status::change_views(v@)),
        },
{
    if !success {
        let mut s = "git status 失败：".to_owned();
        s.append(status::summarize(stderr, stdout).as_str());
        return Err(ChangesError::Failed(s));
    }
    match status::parse_status(stdout) {
        Ok(v) => Ok(v),
        Err(e) => Err(ChangesError::Unusable(e)),
    }
}

/// The directories of a search path that may hold a program, in order.
pub fn search_dirs(path: &str) -> (r: Vec<String>)
    ensures
        text::texts(r@) == rules::exclusion_patterns(path@),
{
    rules::exclusion_list(path)
}

/// The first candidate that exists.
pub fn find_git(exists: &Vec<bool>) -> (r: Option<usize>)
    ensures
        match r {
            Some(i) => i < exists@.len() && exists@[i as int] && forall|k: int|
                0 <= k < i ==> !(#[trigger] exists@[k]),
            None => forall|k: int| 0 <= k < exists@.len() ==> !(#[trigger] exists@[k]),
        },
{
    let mut i: usize = 0;
    while i < exists.len()
        invariant
            i <= exists@.len(),
            forall|k: int| 0 <= k < i ==> !(#[trigger] exists@[k]),
        decreases exists.len() - i,
    {
        if exists[i] {
            return Some(i);
        }
        i = i + 1;
    }
    None
}

/// The message of a command that failed.
pub open spec fn failure_text(
    subcommand: Seq<char>,
    code: int,
    stderr: Seq<char>,
    stdout: Seq<char>,
) -> Seq<char> {
    "git "@ + subcommand + " 失败（退出码 "@ + text::signed(code) + "）："@ + status::summary_of(
        stderr,
        stdout,
    )
}

/// The message of a command that failed; a missing exit code is shown as -1.
pub fn run_git_ok(
    subcommand: &str,
    success: bool,
    code: Option<i32>,
    stderr: &str,
    stdout: &str,
) -> (r: Result<String, String>)
    ensures
        match r {
            Ok(s) => success && s@ == stdout@,
            Err(e) => !success && e@ == failure_text(
                subcommand@,
                match code {
                    Some(c) => c as int,
                    None => -1,
                },
                stderr@,
                stdout@,
            ),
        },
{
    if success {
        return Ok(stdout.to_owned());
    }
    let c: i64 = match code {
        Some(c) => c as i64,
        None => -1,
    };
    let mut s = "git ".to_owned();
    s.append(subcommand);
    s.append(" 失败（退出码 ");
    s.append(text::signed_number(c).as_str());
    s.append("）：");
    s.append(status::summarize(stderr, stdout).as_str());
    Err(s)
}

} // verus!
