use jchtools::config::DeleteMode;
use jchtools::engine::apply::{
    account_delete, count_step, execute_action, execute_run, execute_sequential, parallel_run_kind,
    segments, settle_run, start_action, ActEnd, ActFailure, ActStep, ActionMark, ParallelKind,
    RunItem, RunResult, SingleResult, StepOutcome,
};
use jchtools::engine::hash::{
    cacheable, divide, hash_candidates, reuse_note, settle_hashes, CacheAnswer, HashFile, HashRow,
};
use jchtools::engine::scan::{
    commits_after, git_notes, own_directory_notice, reduced_scope, scan_status, scan_totals,
    sorted_unique, ByParent, ScanChild,
};
use jchtools::engine::scope::{
    count_archives, special_prefixes, within, CountEntry, EntryFacts, ScopeFilter,
};
use jchtools::engine::sweep::{
    final_empty_cleanup, sweep_entries, sweep_remove, Sweep, SweepEntry, SweepRemoval, SweepStep,
};
use jchtools::engine::task::{
    apply, clean_orphan_link_temps, extract_end_line, failure_word, lock_dir_for, log_line,
    refusal_message, run_task, status_at_end, status_at_start, ApplyFacts, ApplyRefusal, LockDir,
    LockError, PathPart, TaskKind, TaskStatus, TaskStep,
};
use jchtools::engine::walk::{
    enter_dir, entry_note, judge_entry, taint_git_ancestors, unknown_git_note, walk_dir, DirEntry,
    DirGate, EntryType, EntryVerdict,
};
use jchtools::fsutil::GitProbe;
use jchtools::model::{Action, ActionKind, DeleteResult, Summary};
use jchtools::rules::build_exclusions;

fn parts(list: &[&str]) -> Vec<PathPart> {
    list.iter()
        .map(|s| match *s {
            "/" => PathPart::Root,
            _ if s.starts_with("\\\\") || s.ends_with(':') => PathPart::Prefix(s.to_string()),
            _ => PathPart::Normal(s.to_string()),
        })
        .collect()
}

#[test]
fn recorded_state_dir_takes_priority() {
    let tasks = parts(&["/", "tmp", "x", "tasks", "t1"]);
    assert_eq!(lock_dir_for(&tasks, true), Ok(LockDir::Recorded));
}

#[test]
fn invalid_record_with_tasks_layout_falls_back_to_parent() {
    let tasks = parts(&["/", "tmp", "x", "tasks", "t1"]);
    // The first three parts: /tmp/x.
    assert_eq!(lock_dir_for(&tasks, false), Ok(LockDir::Above(3)));
}

#[test]
fn tasks_layout_at_drive_root_is_rejected() {
    assert!(lock_dir_for(&parts(&["Q:", "/", "tasks", "t1"]), false).is_err());
    assert!(lock_dir_for(&parts(&["\\\\server\\share", "/", "tasks", "t1"]), false).is_err());
}

#[test]
fn tasks_layout_deep_on_unc_share_is_allowed() {
    let unc = parts(&["\\\\server\\share", "/", "JchTools", "data", "tasks", "t1"]);
    assert_eq!(lock_dir_for(&unc, false), Ok(LockDir::Above(4)));
    let win = parts(&["C:", "/", "state", "tasks", "t1"]);
    assert_eq!(lock_dir_for(&win, false), Ok(LockDir::Above(3)));
}

#[test]
fn non_tasks_layout_without_record_is_rejected() {
    assert_eq!(
        lock_dir_for(&parts(&["/", "tmp", "t1"]), false),
        Err(LockError::StrangePlace)
    );
    assert_eq!(
        lock_dir_for(&parts(&["/"]), false),
        Err(LockError::InvalidStructure)
    );
}

fn filter(exclusions: &str) -> ScopeFilter {
    ScopeFilter {
        excluded: build_exclusions(exclusions).unwrap(),
        include_hidden: true,
        include_system: true,
        quarantine: Some("解压失败".to_string()),
        state_prefix: None,
        exe_prefix: None,
        root_under_special: false,
    }
}

fn plain() -> EntryFacts {
    EntryFacts {
        link: false,
        attributes: Some(0),
    }
}

#[test]
fn the_scope_leaves_out_what_it_must() {
    let f = filter("skip");
    assert!(!f.prunes("a/b.txt", "b.txt", plain()));
    assert!(f.prunes("skip", "skip", plain()));
    assert!(f.prunes("解压失败/x", "x", plain()));
    assert!(f.prunes(
        "l",
        "l",
        EntryFacts {
            link: true,
            attributes: Some(0)
        }
    ));
    let mut g = filter("");
    g.include_hidden = false;
    assert!(g.prunes(
        "h",
        "h",
        EntryFacts {
            link: false,
            attributes: Some(2)
        }
    ));
    assert!(within("a/b", "a") && within("a", "a") && !within("ab", "a"));
    let p = |s: &str| s.split('/').map(str::to_string).collect::<Vec<_>>();
    let (state, exe, under) = special_prefixes(&p("d/x"), Some(&p("d/x/state")), Some(&p("e")));
    assert_eq!((state.as_deref(), exe, under), (Some("state"), None, false));
    assert!(special_prefixes(&p("d/x/y"), Some(&p("d/x")), None).2);
}

#[test]
fn archives_in_scope_are_counted() {
    let entry = |rel: &str, name: &str, is_dir: bool| CountEntry {
        readable: true,
        is_dir,
        is_file: !is_dir,
        git: GitProbe::Clean,
        rel: Some(rel.to_string()),
        name: name.to_string(),
        utf8: true,
        facts: plain(),
    };
    let list = vec![
        entry("a.zip", "a.zip", false),
        entry("b.txt", "b.txt", false),
        entry("d", "d", true),
        entry("skip", "skip", false),
    ];
    assert_eq!(count_archives(&filter("skip"), &list), 1);
}

#[test]
fn directories_are_walked_and_git_trees_left() {
    let f = filter("");
    let seen = |name: &str, kind| DirEntry::Seen {
        name: name.to_string(),
        facts: plain(),
        kind,
    };
    let entries = vec![
        seen("a.txt", EntryType::File(true)),
        seen("sub", EntryType::Dir(GitProbe::Clean)),
        seen("repo", EntryType::Dir(GitProbe::GitRoot)),
        DirEntry::NotUtf8,
    ];
    // Directories are entered: a work tree is seen there.
    let deep = walk_dir(&f, true, "", &entries);
    assert_eq!(deep.subdirs, vec![1, 2]);
    assert_eq!(deep.children, vec![0, 1, 2]);
    assert!(deep.git_skips.is_empty());
    assert_eq!(deep.notes, vec![3]);
    assert!(deep.tainted);
    // They are not entered: work trees are left out at once.
    let flat = walk_dir(&f, false, "", &entries);
    assert_eq!(flat.git_skips, vec![2]);
    assert!(flat.subdirs.is_empty());
    assert_eq!(flat.children, vec![0, 1]);
    assert!(matches!(
        judge_entry(&f, false, "x", &entries[2]),
        EntryVerdict::GitTree
    ));
    assert_eq!(taint_git_ancestors("a/b/c").len(), 3);
}

#[test]
fn nothing_of_a_git_project_is_read() {
    assert!(matches!(enter_dir("a/b", GitProbe::Clean), DirGate::Read));
    assert!(matches!(
        enter_dir("a/b", GitProbe::GitRoot),
        DirGate::Skip { taints, noted: false } if taints == vec!["a/b", "a"]
    ));
    assert!(matches!(
        enter_dir("a/b", GitProbe::Unreadable),
        DirGate::Skip { taints, noted: true } if taints == vec!["a/b", "a"]
    ));
    assert!(matches!(
        enter_dir("", GitProbe::GitRoot),
        DirGate::Skip { noted: false, .. }
    ));
    assert_eq!(
        unknown_git_note("拒绝访问"),
        "无法判定是否含 .git，已整树跳过：拒绝访问"
    );
    assert_eq!(
        entry_note(&DirEntry::NotUtf8, ""),
        "文件名不能无损表示为 UTF-8，已跳过"
    );
    assert_eq!(entry_note(&DirEntry::NoMetadata, "拒绝访问"), "拒绝访问");
}

#[test]
fn a_chain_of_empty_directories_goes_from_below() {
    // "d" holds "d/e" and "d/f"; "d/f" holds a file.
    let mut sweep = Sweep::new(vec!["d".to_string()], false);
    let mut gone: Vec<String> = Vec::new();
    loop {
        match sweep.step() {
            SweepStep::Enter(p) if p == "d" => {
                sweep.entered(vec!["d/e".to_string(), "d/f".to_string()], false)
            }
            SweepStep::Enter(p) => sweep.entered(Vec::new(), p == "d/f"),
            SweepStep::Remove(p) => {
                gone.push(p);
                sweep.removed(true);
            }
            SweepStep::Leave => sweep.removed(false),
            SweepStep::Finished => break,
        }
    }
    assert_eq!(gone, vec!["d/e"]);
}

#[test]
fn scans_come_parents_first() {
    let child = |parent: &str, name: &str, is_dir: bool| ScanChild {
        parent: parent.to_string(),
        name: name.to_string(),
        is_dir,
        size: 4,
    };
    let all = vec![
        child("", "d", true),
        child("d", "x.txt", false),
        child("", "a.txt", false),
    ];
    let mut out = Vec::new();
    ByParent::group(&all).scan_emit(&all, "", 0, 10, &mut out);
    let order: Vec<usize> = out.iter().map(|(i, _)| *i).collect();
    let pos = |i: usize| order.iter().position(|x| *x == i).unwrap();
    assert!(pos(0) < pos(1));
    assert_eq!(order.len(), 3);
    let s = scan_totals(&Summary::default(), &all, &out);
    assert_eq!((s.scanned, s.scanned_bytes), (2, 8));
    // What is not recorded is not counted.
    let s = scan_totals(&Summary::default(), &all, &out[..1].to_vec());
    assert_eq!((s.scanned, s.scanned_bytes), (0, 0));
    assert_eq!(
        sorted_unique(&vec!["b".to_string(), "a".to_string(), "b".to_string()]),
        vec!["a", "b"]
    );
    assert!(reduced_scope(true, true, true, " ").is_none());
    assert!(reduced_scope(false, true, true, "").is_some());
    assert_ne!(scan_status(true), scan_status(false));
    assert_eq!(git_notes(&Vec::new()).1, None);
    assert!(git_notes(&vec!["repo".to_string()]).1.is_some());
    assert!(!commits_after(1));
}

#[test]
fn only_possible_duplicates_are_hashed() {
    let row = |size, name: &str, normal: &str| HashRow {
        size,
        name: name.to_string(),
        normal: normal.to_string(),
    };
    let rows = vec![
        row(5, "a.txt", "a.txt"),
        row(5, "a.txt", "a.txt"),
        row(5, "b.txt", "b.txt"),
        row(6, "a.txt", "a.txt"),
    ];
    assert_eq!(hash_candidates(&rows, true, false, false), vec![0, 1]);
    assert_eq!(hash_candidates(&rows, false, false, true), vec![0, 1, 2]);
    assert!(hash_candidates(&rows, false, false, false).is_empty());
    let file = |id, identity: &str| HashFile {
        id,
        size: 5,
        identity: identity.to_string(),
        modified_ns: 1,
    };
    let files = vec![file(1, "1:2:3"), file(2, "1:0:0"), file(3, "1:2:4")];
    assert!(cacheable(&files[0]) && !cacheable(&files[1]));
    let d = divide(
        &files,
        true,
        &vec![
            CacheAnswer::Hit("h".to_string()),
            CacheAnswer::Hit("x".to_string()),
            CacheAnswer::Miss,
        ],
    );
    assert_eq!(d.reused, vec![(0, "h".to_string())]);
    assert_eq!(d.compute, vec![1, 2]);
    assert!(d.usable);
    let (s, records) = settle_hashes(&Summary::default(), &vec![true, false], false).unwrap();
    assert_eq!((s.errors, records.len()), (1, 2));
    assert!(settle_hashes(&Summary::default(), &vec![false], true).is_none());
    assert!(reuse_note(0).is_none() && reuse_note(2).is_some());
}

fn act(id: i64, kind: ActionKind, source: &str) -> Action {
    Action {
        id,
        kind,
        source: source.to_string(),
        target: None,
        reason: String::new(),
        expected: None,
        keeper: None,
        hash: None,
        mode: DeleteMode::Permanent,
        selected: true,
        state: "pending".to_string(),
    }
}

#[test]
fn plans_run_in_segments() {
    let list = vec![
        act(1, ActionKind::Delete, "a"),
        act(2, ActionKind::Delete, "b"),
        act(3, ActionKind::Move, "c"),
        act(4, ActionKind::EmptyDirectory, "d/e"),
        act(5, ActionKind::EmptyDirectory, "d"),
    ];
    let segs = segments(&list);
    assert_eq!(segs.iter().map(|s| s.to - s.from).sum::<usize>(), 5);
    assert_eq!((segs[0].from, segs[0].to), (0, 2));
    assert_eq!(parallel_run_kind(&list[3]), Some(ParallelKind::EmptyDir(1)));
    assert_eq!(parallel_run_kind(&list[2]), None);
    let s = account_delete(&Summary::default(), DeleteResult::Permanent, Some((7, 1)), true);
    assert_eq!((s.deleted, s.permanent_bytes), (1, 7));
    let linked = account_delete(&Summary::default(), DeleteResult::Permanent, Some((7, 2)), true);
    assert_eq!(linked.permanent_bytes, 0);
    let items = vec![
        RunItem {
            expected: Some((3, 1)),
            result: RunResult::Removed(DeleteResult::Permanent),
        },
        RunItem {
            expected: None,
            result: RunResult::Failed,
        },
    ];
    let (sum, marks, stopped) = execute_run(&Summary::default(), &items, false);
    assert_eq!((sum.deleted, sum.errors), (1, 1));
    assert_eq!(marks.len(), 2);
    assert!(!stopped);
    assert_eq!(ActionMark::Done.text(), "done");
    assert!(settle_run(&Summary::default(), None, RunResult::Failed, true).is_none());
    let single = execute_sequential(&Summary::default(), false, SingleResult::Done, false).unwrap();
    assert!(matches!(single.mark, ActionMark::Unselected));
}

#[test]
fn a_link_is_made_before_its_file_goes() {
    let mut step = start_action(ActionKind::Hardlink, false, true);
    assert_eq!(step, ActStep::LinkKeeper);
    step = execute_action(step, StepOutcome::Went);
    assert_eq!(step, ActStep::RemoveLinked);
    step = execute_action(step, StepOutcome::Went);
    assert_eq!(step, ActStep::PlaceLink);
    step = execute_action(step, StepOutcome::Went);
    assert_eq!(step, ActStep::End(ActEnd::Done));
    assert_eq!(
        start_action(ActionKind::Hardlink, false, false),
        ActStep::End(ActEnd::Failed(ActFailure::MissingKeeper))
    );
    assert_eq!(
        start_action(ActionKind::Move, false, false),
        ActStep::End(ActEnd::Failed(ActFailure::MissingTarget))
    );
    let s = count_step(&Summary::default(), ActStep::PlaceLink, StepOutcome::Went);
    assert_eq!(s.linked, 1);
}

#[test]
fn empty_directories_are_swept_from_below() {
    let mut sweep = Sweep::new(vec!["d".to_string()], true);
    assert!(matches!(sweep.step(), SweepStep::Enter(p) if p == "d"));
    sweep.entered(vec!["d/e".to_string()], false);
    assert!(matches!(sweep.step(), SweepStep::Enter(p) if p == "d/e"));
    sweep.entered(Vec::new(), false);
    assert!(matches!(sweep.step(), SweepStep::Remove(p) if p == "d/e"));
    sweep.removed(true);
    assert!(matches!(sweep.step(), SweepStep::Remove(p) if p == "d"));
    sweep.removed(false);
    assert!(matches!(sweep.step(), SweepStep::Leave | SweepStep::Finished));
    let list = sweep_entries(
        &filter(""),
        true,
        "",
        &vec![
            SweepEntry::Failed,
            SweepEntry::Seen {
                name: "x".to_string(),
                facts: plain(),
                is_dir: true,
                git: GitProbe::Clean,
            },
        ],
    );
    assert!(list.keep);
    assert_eq!(list.children, vec![1]);
    let (s, _) = sweep_remove(
        &Summary::default(),
        SweepRemoval::Removed(DeleteResult::Permanent),
        false,
    )
    .unwrap();
    assert_eq!(s.deleted, 1);
    assert!(final_empty_cleanup(1, 1).is_ok());
    assert!(final_empty_cleanup(1, 2).is_err());
}

#[test]
fn tasks_go_through_their_states() {
    assert_eq!(status_at_start(TaskKind::Prepare), TaskStatus::Analyzing);
    assert_eq!(status_at_end(TaskKind::Prepare, true, false), TaskStatus::Ready);
    assert_eq!(status_at_end(TaskKind::Apply, true, false), TaskStatus::Finished);
    assert_eq!(status_at_end(TaskKind::Apply, false, true), TaskStatus::Cancelled);
    assert_eq!(status_at_end(TaskKind::Extract, false, false), TaskStatus::Failed);
    assert_eq!(TaskStatus::Ready.text(), "ready");
    assert_ne!(failure_word(true), failure_word(false));
    let mut step = TaskStep::Validate;
    for _ in 0..7 {
        step = run_task(TaskKind::Prepare, step, true, false, true);
    }
    assert_eq!(step, TaskStep::End(TaskStatus::Ready));
    assert_eq!(
        run_task(TaskKind::Extract, TaskStep::Scan, true, false, false),
        TaskStep::NothingFound
    );
    let facts = |f: fn(&mut ApplyFacts)| {
        let mut a = ApplyFacts {
            has_records: true,
            lock: Ok(LockDir::Recorded),
            status: "ready".to_string(),
            recorded_root: "D:/data".to_string(),
            current_root: "D:/data".to_string(),
        };
        f(&mut a);
        apply(&a)
    };
    assert!(facts(|_| ()).is_ok());
    assert_eq!(facts(|a| a.has_records = false), Err(ApplyRefusal::NoTask));
    assert_eq!(
        facts(|a| a.status = "finished".to_string()),
        Err(ApplyRefusal::NotReady)
    );
    assert_eq!(
        facts(|a| a.current_root = "E:/".to_string()),
        Err(ApplyRefusal::RootMoved)
    );
    assert_eq!(
        facts(|a| a.lock = Err(LockError::StrangePlace)),
        Err(ApplyRefusal::NoLock(LockError::StrangePlace))
    );
    let a = ApplyFacts {
        has_records: true,
        lock: Ok(LockDir::Recorded),
        status: "finished".to_string(),
        recorded_root: String::new(),
        current_root: String::new(),
    };
    assert!(!refusal_message(ApplyRefusal::NotReady, &a).is_empty());
    assert!(extract_end_line(3, 1).contains('3'));
    assert!(log_line("扫描", "a", "", "ok", "").contains("扫描"));
    assert!(!clean_orphan_link_temps("a.txt", true, Some(1_000_000), Some(2)));
}

#[test]
fn the_programs_own_directory_is_told() {
    let parts = |s: &str| -> Vec<String> { s.split('/').map(str::to_string).collect() };
    let line = "所选目录位于程序自身目录（D:/tool）内；为避免误处理程序文件，扫描会跳过这个目录里的条目";
    for root in ["D:/tool", "D:/tool/data"] {
        assert_eq!(
            own_directory_notice(&parts(root), &parts("D:/tool"), "D:/tool").as_deref(),
            Some(line)
        );
    }
    for root in ["D:", "D:/tools", "D:/other/tool"] {
        assert_eq!(own_directory_notice(&parts(root), &parts("D:/tool"), "D:/tool"), None);
    }
}
