use jchtools::git_tools::change::{
    backoff_duration, begin_change, fetch_target, judge_commit, judge_merge, process_change,
    shown_wait, try_push, ChangeEnd, ChangeEvent, ChangeStage, CommitVerdict, FatalReason,
    MergeVerdict, PushVerdict, BACKOFF_UNIT,
};
use jchtools::git_tools::command::{
    command_of, commit_message, fatal_reason, fetch_command, log_after, log_before, log_between,
    merge_command, push_command, Outcome,
};
use jchtools::git_tools::progress::{advance, begin, show_begin, show_change, StepFacts};
use jchtools::git_tools::repo::{
    find_git, inspect, middle_state, run_git_ok, search_dirs, status_changes, GitShared,
    InspectError, MiddleFacts, MiddleState, RepoInfo,
};
use jchtools::git_tools::run::{
    final_state, report, run, start, MiddleKind, ReportFacts, RunEnd, RunEvent, RunStage,
};
use jchtools::git_tools::status::{
    parse_status, summarize, verify_single_path_commit, FileChange, StatusError,
};

#[test]
fn changes_are_read_from_the_status() {
    let data = "?? new.txt\0 M mod.txt\0 D gone.txt\0R  to.txt\0from.txt\0";
    let changes = parse_status(data).unwrap();
    assert_eq!(changes.len(), 4);
    assert!(matches!(&changes[0], FileChange::Added(p) if p == "new.txt"));
    assert!(matches!(&changes[1], FileChange::Modified(p) if p == "mod.txt"));
    assert!(matches!(&changes[2], FileChange::Deleted(p) if p == "gone.txt"));
    assert_eq!(changes[3].commit_paths().len(), 2);
    assert!(changes[3].display_path().contains("to.txt"));
    assert!(matches!(
        parse_status("UU both.txt\0"),
        Err(StatusError::Conflict(p)) if p == "both.txt"
    ));
    assert!(matches!(parse_status("R  to.txt\0"), Err(StatusError::NoOrigin(_))));
    assert!(parse_status("").unwrap().is_empty());
    assert_eq!(
        verify_single_path_commit("M\0a.txt\0", &vec!["a.txt".to_string()]),
        Ok(())
    );
    assert_eq!(
        verify_single_path_commit("R100\0old\0new\0", &vec!["new".to_string(), "old".to_string()]),
        Ok(())
    );
    assert_eq!(
        verify_single_path_commit("M\0b\"\0M\0a.txt\0", &vec!["a.txt".to_string()]),
        Err(
            "提交验证失败（G-05）：本次 commit 实际包含 2 个路径（[\"a.txt\", \"b\\\"\"]），预期只包含 [\"a.txt\"]"
                .to_string()
        )
    );
}

#[test]
fn outputs_are_judged_by_their_words() {
    assert_eq!(judge_commit(true, true, "", ""), CommitVerdict::Done);
    assert_eq!(
        judge_commit(true, false, "Please tell me who you are.", ""),
        CommitVerdict::NoIdentity
    );
    assert_eq!(judge_commit(false, false, "", ""), CommitVerdict::Retry);
    assert_eq!(try_push(true, true, "", ""), PushVerdict::Done);
    assert_eq!(
        try_push(true, false, " ! [rejected] main -> main (fetch first)", ""),
        PushVerdict::NeedMerge
    );
    assert_eq!(try_push(true, false, "could not resolve host", ""), PushVerdict::Retry);
    assert_eq!(judge_merge(true, true, "", ""), MergeVerdict::Merged);
    assert_eq!(
        judge_merge(true, false, "", "CONFLICT (content): Merge conflict in a"),
        MergeVerdict::Conflict
    );
    assert_eq!(
        fetch_target("origin/main"),
        Some(("origin".to_string(), "main".to_string()))
    );
    assert_eq!(fetch_target("main"), None);
    assert!(!summarize("fatal: bad\n", "").is_empty());
}

#[test]
fn waiting_grows_up_to_a_limit() {
    let first = backoff_duration(1, BACKOFF_UNIT);
    let second = backoff_duration(2, BACKOFF_UNIT);
    assert!(first > 0 && second >= first);
    assert_eq!(
        backoff_duration(50, BACKOFF_UNIT),
        backoff_duration(60, BACKOFF_UNIT)
    );
    assert!(shown_wait(1) >= 1);
}

#[test]
fn a_change_is_pushed_only_after_it_was_verified() {
    let mut c = begin_change(false);
    assert_eq!(c.stage, ChangeStage::Add);
    c = process_change(&c, ChangeEvent::Added(true), false);
    assert_eq!(c.stage, ChangeStage::Commit);
    c = process_change(&c, ChangeEvent::Committed(CommitVerdict::Done), false);
    assert_eq!(c.stage, ChangeStage::Verify);
    c = process_change(&c, ChangeEvent::Verified(true), false);
    assert_eq!(c.stage, ChangeStage::Push);
    c = process_change(&c, ChangeEvent::Pushed(PushVerdict::NeedMerge), false);
    assert_eq!(c.stage, ChangeStage::Merge);
    c = process_change(&c, ChangeEvent::Merged(MergeVerdict::Merged), false);
    assert_eq!(c.stage, ChangeStage::Push);
    c = process_change(&c, ChangeEvent::Pushed(PushVerdict::Done), false);
    assert_eq!(c.stage, ChangeStage::End(ChangeEnd::Done));
    let c = begin_change(true);
    assert_eq!(c.stage, ChangeStage::End(ChangeEnd::Cancelled));
    let mut c = begin_change(false);
    c = process_change(&c, ChangeEvent::Added(true), false);
    c = process_change(&c, ChangeEvent::Committed(CommitVerdict::NoIdentity), false);
    assert_eq!(
        c.stage,
        ChangeStage::End(ChangeEnd::Fatal(FatalReason::NoIdentity))
    );
    let mut c = begin_change(false);
    c = process_change(&c, ChangeEvent::Added(false), false);
    assert!(matches!(c.stage, ChangeStage::Wait(_)));
    assert_eq!(c.attempt, 1);
}

#[test]
fn repositories_are_inspected() {
    assert!(matches!(
        inspect(Err("fatal: not a git repository"), None, None),
        Err(InspectError::NotARepository(_))
    ));
    assert!(matches!(
        inspect(Ok("D:/repo"), None, None),
        Err(InspectError::Detached)
    ));
    assert!(matches!(
        inspect(Ok("D:/repo"), Some("main"), None),
        Err(InspectError::NoUpstream(b)) if b == "main"
    ));
    let info = inspect(Ok("D:/repo\n"), Some("main\n"), Some("origin/main\n")).unwrap();
    assert_eq!((info.root.as_str(), info.branch.as_str()), ("D:/repo", "main"));
    let facts = MiddleFacts {
        rebase_merge: false,
        rebase_apply: false,
        cherry_pick_head: false,
        revert_head: false,
        merge_head: false,
    };
    assert!(matches!(middle_state(facts, ""), MiddleState::Clean));
    let merging = MiddleFacts {
        merge_head: true,
        ..facts
    };
    assert!(
        matches!(middle_state(merging, "a.txt\0"), MiddleState::Merge { unresolved } if unresolved.len() == 1)
    );
    let rebasing = MiddleFacts {
        rebase_merge: true,
        ..facts
    };
    assert!(matches!(middle_state(rebasing, ""), MiddleState::Other(_)));
    assert!(status_changes(false, "", "fatal").is_err());
    assert_eq!(status_changes(true, "?? a\0", "").unwrap().len(), 1);
    assert!(search_dirs("a;b").len() + search_dirs("a:b").len() >= 2);
    assert_eq!(find_git(&vec![false, true]), Some(1));
    assert_eq!(run_git_ok("add", true, Some(0), "", "out"), Ok("out".to_string()));
    assert!(run_git_ok("add", false, Some(1), "bad", "").unwrap_err().contains("add"));
    let mut shared = GitShared::new();
    shared.set_stage("提交");
    shared.set_state("运行中");
    shared.set_current("a.txt");
    assert_eq!(
        (shared.stage.as_str(), shared.state.as_str(), shared.current.as_str()),
        ("提交", "运行中", "a.txt")
    );
}

#[test]
fn changes_are_taken_strictly_in_turn() {
    let mut r = start();
    r = run(&r, RunEvent::Inspected(true), false);
    r = run(&r, RunEvent::Middle(MiddleKind::Clean), false);
    assert_eq!(r.stage, RunStage::Scan);
    r = run(&r, RunEvent::Scanned(Some(2)), false);
    assert_eq!(r.stage, RunStage::Change(0));
    r = run(&r, RunEvent::Changed(ChangeEnd::Done), false);
    assert_eq!(r.stage, RunStage::Change(1));
    r = run(&r, RunEvent::Changed(ChangeEnd::Done), false);
    assert_eq!(r.stage, RunStage::End(RunEnd::Complete));
    let facts = ReportFacts {
        reason: "原因".to_string(),
        files: vec!["b.txt".to_string()],
        middle: String::new(),
    };
    assert_eq!(
        report(RunEnd::Complete, &facts, "a.txt", 2),
        "全部完成：2 / 2 个文件已逐个 commit 并 push 成功"
    );
    assert_eq!(
        report(RunEnd::Conflict(1), &facts, "a.txt", 2),
        "自动合并出现冲突（当前文件：a.txt，阶段：merge）：冲突文件 1 个（b.txt）。已停止自动处理并保留冲突现场；请在仓库中解决冲突后重新开始任务继续（G-11）"
    );
    assert_eq!(
        report(RunEnd::Stopped(1), &facts, "a.txt", 2),
        "任务已停止：已完成 1 / 2；已成功 commit + push 的文件保持成功状态（G-15）"
    );
    assert!(!final_state(RunEnd::Complete).is_empty());
    let mut r = start();
    r = run(&r, RunEvent::Inspected(false), false);
    assert_eq!(r.stage, RunStage::End(RunEnd::CannotStart));
    let mut r = start();
    r = run(&r, RunEvent::Inspected(true), false);
    r = run(&r, RunEvent::Middle(MiddleKind::Unresolved), false);
    assert_eq!(r.stage, RunStage::End(RunEnd::Unresolved));
}

#[test]
fn records_are_counted_in_bytes() {
    // Two characters, but four bytes: no record that is passed over.
    assert!(matches!(parse_status("中a\0"), Err(StatusError::Unknown(_))));
    // Three bytes hold no path.
    assert!(parse_status("M a\0").unwrap().is_empty());
    let one = parse_status("?? a\0").unwrap().len();
    let two = parse_status(" M b\0R  d\0c\0").unwrap().len();
    let both = parse_status("?? a\0 M b\0R  d\0c\0").unwrap();
    assert_eq!(both.len(), one + two);
    assert_eq!(both[2].commit_paths(), vec!["c".to_string(), "d".to_string()]);
}

fn args(list: &[&str]) -> Vec<String> {
    list.iter().map(|s| s.to_string()).collect()
}

fn calm() -> Outcome {
    Outcome {
        why: String::new(),
        output: String::new(),
        fetched: false,
        seconds: "5.0".to_string(),
    }
}

#[test]
fn a_renamed_file_is_committed_with_both_paths() {
    let change = FileChange::Renamed("old.txt".to_string(), "new.txt".to_string());
    assert_eq!(command_of(ChangeStage::Add, &change), args(&["add", "--", "new.txt"]));
    assert_eq!(
        command_of(ChangeStage::Commit, &change),
        args(&["commit", "--only", "-m", "update: new.txt", "--", "old.txt", "new.txt"])
    );
    assert_eq!(
        command_of(ChangeStage::Check, &change),
        args(&["status", "--porcelain", "--", "old.txt", "new.txt"])
    );
    assert_eq!(
        command_of(ChangeStage::Verify, &change),
        args(&[
            "diff-tree",
            "--no-commit-id",
            "--name-status",
            "-r",
            "--root",
            "-z",
            "HEAD"
        ])
    );
    assert_eq!(push_command(), args(&["push", "--porcelain"]));
    assert_eq!(merge_command(), args(&["merge", "FETCH_HEAD"]));
    assert_eq!(
        fetch_command("origin/main"),
        Some(args(&["fetch", "origin", "main"]))
    );
    assert_eq!(fetch_command("main"), None);
    assert_eq!(commit_message(&change), "update: new.txt");
    let change = Some(change);
    let mut lines: Vec<String> = Vec::new();
    let mut c = begin_change(false);
    for event in [
        ChangeEvent::Added(true),
        ChangeEvent::Committed(CommitVerdict::Done),
        ChangeEvent::Verified(true),
        ChangeEvent::Pushed(PushVerdict::Done),
    ] {
        lines.extend(log_before(&c, &change, "origin/main", "5.0"));
        lines.extend(log_after(event, &change, "origin/main", &calm()));
        c = process_change(&c, event, false);
    }
    assert_eq!(c.stage, ChangeStage::End(ChangeEnd::Done));
    assert_eq!(
        lines,
        args(&[
            "git add -- new.txt",
            "git commit --only -m \"update: new.txt\" -- old.txt new.txt",
            "git push",
            "push 成功：new.txt",
        ])
    );
}

#[test]
fn failures_of_a_change_are_told() {
    let change = Some(FileChange::Modified("a.txt".to_string()));
    let failed = Outcome {
        why: "坏了".to_string(),
        output: "CONFLICT (content): a".to_string(),
        ..calm()
    };
    let after = |event| log_after(event, &change, "origin/main", &failed);
    assert_eq!(after(ChangeEvent::Added(false)), Some("git add 失败：坏了".to_string()));
    assert_eq!(
        after(ChangeEvent::Committed(CommitVerdict::Retry)),
        Some("git commit 失败：坏了".to_string())
    );
    assert_eq!(
        after(ChangeEvent::Checked(Some(false))),
        Some("commit 未生效（路径仍有未提交变更），准备重试".to_string())
    );
    assert_eq!(
        after(ChangeEvent::Merged(MergeVerdict::Conflict)),
        Some("git merge 冲突输出：\nCONFLICT (content): a".to_string())
    );
    assert_eq!(
        log_after(
            ChangeEvent::Merged(MergeVerdict::Retry),
            &change,
            "main",
            &failed
        ),
        Some("fetch/merge 失败：无法解析 upstream「main」".to_string())
    );
    let waiting = process_change(&begin_change(false), ChangeEvent::Added(false), false);
    assert_eq!(
        log_before(&waiting, &change, "origin/main", "5.0"),
        Some("第 1 次失败：等待 5.0 秒后重试（G-09 无限重试，可随时停止）".to_string())
    );
    assert_eq!(log_between(), "git merge FETCH_HEAD");
    assert_eq!(
        fatal_reason(FatalReason::VerifyFailed, "多了一个", "a.txt"),
        "多了一个（当前文件：a.txt，阶段：commit 验证）"
    );
    assert_eq!(
        fatal_reason(FatalReason::Blocked, "b.txt", "a.txt"),
        "合并被本地未提交变更阻挡：b.txt（阶段：merge）"
    );
}

fn facts() -> StepFacts {
    StepFacts {
        report: ReportFacts {
            reason: String::new(),
            files: Vec::new(),
            middle: String::new(),
        },
        info: RepoInfo {
            root: "D:/repo".to_string(),
            branch: "main".to_string(),
            upstream: "origin/main".to_string(),
        },
    }
}

#[test]
fn files_are_announced_and_reported_in_turn() {
    let paths = args(&["a.txt", "b.txt"]);
    let mut shared = GitShared::new();
    let (mut state, first) = begin(&mut shared);
    let mut told = vec![(first.is_status(), first.line())];
    assert_eq!((shared.state.as_str(), shared.stage.as_str()), ("检查仓库", "扫描"));
    for event in [
        RunEvent::Inspected(true),
        RunEvent::Middle(MiddleKind::Clean),
        RunEvent::Scanned(Some(2)),
        RunEvent::Changed(ChangeEnd::Done),
        RunEvent::Changed(ChangeEnd::Done),
    ] {
        let (next, notes) = advance(&state, event, false, &facts(), &paths, &mut shared);
        told.extend(notes.iter().map(|n| (n.is_status(), n.line())));
        state = next;
        assert!(shared.done <= shared.total);
    }
    assert_eq!(state.stage, RunStage::End(RunEnd::Complete));
    assert_eq!((shared.done, shared.total), (2, 2));
    assert_eq!((shared.state.as_str(), shared.stage.as_str()), ("完成", "完成"));
    assert_eq!(shared.current, "b.txt");
    assert_eq!(
        (shared.repo.as_str(), shared.branch.as_str(), shared.upstream.as_str()),
        ("D:/repo", "main", "origin/main")
    );
    let expected = [
        (true, "正在验证仓库（分支、upstream 与仓库状态）"),
        (false, "仓库：D:/repo\n分支：main\nupstream：origin/main"),
        (true, "正在扫描未提交变更（以 git 状态为准）"),
        (false, "待处理变更：2 个逻辑文件变更"),
        (false, "开始处理：a.txt"),
        (true, "已完成 1 / 2：a.txt"),
        (false, "开始处理：b.txt"),
        (true, "已完成 2 / 2：b.txt"),
        (false, "全部完成：2 / 2 个文件已逐个 commit 并 push 成功"),
    ];
    let told: Vec<(bool, &str)> = told.iter().map(|(s, l)| (*s, l.as_str())).collect();
    assert_eq!(told, expected);
}

#[test]
fn a_stopped_run_says_how_far_it_came() {
    let paths = args(&["a.txt", "b.txt"]);
    let mut shared = GitShared::new();
    let (mut state, _) = begin(&mut shared);
    for (event, cancelled) in [
        (RunEvent::Inspected(true), false),
        (RunEvent::Middle(MiddleKind::Clean), false),
        (RunEvent::Scanned(Some(2)), false),
        (RunEvent::Changed(ChangeEnd::Done), true),
    ] {
        state = advance(&state, event, cancelled, &facts(), &paths, &mut shared).0;
    }
    assert_eq!(state.stage, RunStage::End(RunEnd::Stopped(1)));
    assert_eq!((shared.done, shared.total), (1, 2));
    assert_eq!(shared.state, "已停止");
    let text = report(RunEnd::Stopped(1), &facts().report, &shared.current, shared.total);
    assert!(text.starts_with("任务已停止"));
    let mut shared = GitShared::new();
    let first = begin_change(false);
    show_begin(&mut shared, &first);
    assert_eq!(shared.stage, "add");
    let event = ChangeEvent::Added(false);
    let after = process_change(&first, event, false);
    show_change(&mut shared, first.stage, event, &after, BACKOFF_UNIT);
    assert_eq!(
        (shared.stage.as_str(), shared.retry, shared.retry_wait),
        ("等待重试", 1, 5)
    );
}
