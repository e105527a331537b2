use jchtools::archive::boundaries::{parent_rel, GitBoundaries};
use jchtools::archive::extract::{
    admission_of, destination_of, directory_event, directory_note, excluded_destination, extract_one, file_name,
    has_hidden_component, judge_member, merge_all, merge_extracted, merge_start_step,
    normalize_new_member_attributes, placed_note, verbatim_path, watch_space, Admission,
    ArchiveFacts, DirPlace, Ending, EntryShape, LevelFlags, MemberEvent, MergeError, MergeLimits,
    PlaceStep, PlacedNote, SkipReason, SpaceStop, Stage, StageEnd,
};
use jchtools::archive::listing::{
    git_boundary_prefix, inside_git_subtree, list, stream_member_name, ListError, ListLimits,
};
use jchtools::archive::queue::{
    delete_successful_source, extract_queued, fingerprint, is_orphan_staging, judge_row, quarantine,
    settle, settle_superseded, PackageResult, Quarantine, QueueNext, RowState, RowVerdict,
    SourceStep, VolumeEnd,
};
use jchtools::archive::rows::{ArchiveQueue, Progress};
use jchtools::archive::sevenzip::SevenZip;
use jchtools::archive::volumes::{
    archive_volume_count, matches_candidate, scheme_of, total_size, volume_bytes, volume_name,
    volume_set, ArchiveVolumes, EntryKind, Neighbour, VolumeError, VolumeProbe, VolumeScheme,
};
use jchtools::control::Control;
use jchtools::engine_bundle::resolve::{resolve_among, resolve_executable, ResolveEvent};
use jchtools::error::{stops_extraction, TaskError};
use jchtools::fsutil::{unique_target, GitProbe, Snapshot};
use jchtools::model::Summary;
use jchtools::rules::build_exclusions;

fn texts(list: &[&str]) -> Vec<String> {
    list.iter().map(|s| s.to_string()).collect()
}

#[test]
fn failure_classification_separates_stop_from_quarantine() {
    let space = TaskError::stop("可用空间不足：本包需 1 GiB");
    assert!(stops_extraction(&space));
    let wrapped = TaskError::stop("磁盘剩余空间低于预留阈值")
        .context("解压失败（可能已损坏、加密或格式不受支持）");
    assert!(stops_extraction(&wrapped));
    assert_eq!(
        wrapped.message(),
        "解压失败（可能已损坏、加密或格式不受支持）: 磁盘剩余空间低于预留阈值"
    );
    let capped = TaskError::new("压缩包条目数量超过用户设置的上限");
    assert!(!stops_extraction(&capped));
    let mut control = Control::default();
    control.cancel();
    let cancelled = control.check_cancelled().unwrap_err();
    assert!(!stops_extraction(&cancelled));
}

#[test]
fn git_cache_checks_descendants_of_an_allowed_directory() {
    let mut boundaries = GitBoundaries::new();
    // "parent" is clean, "parent/repo" holds a .git.
    let probes = vec![GitProbe::GitRoot, GitProbe::Clean, GitProbe::Clean];
    assert_eq!(boundaries.blocked("parent", &probes, 1), Ok(false));
    assert_eq!(boundaries.blocked("parent/repo", &probes, 0), Ok(true));
}

#[test]
fn git_cache_does_not_protect_siblings_of_a_repository() {
    let mut boundaries = GitBoundaries::new();
    let repo = vec![GitProbe::GitRoot, GitProbe::Clean, GitProbe::Clean];
    let sibling = vec![GitProbe::Clean, GitProbe::Clean, GitProbe::Clean];
    assert_eq!(boundaries.blocked("parent/repo", &repo, 0), Ok(true));
    assert_eq!(boundaries.blocked("parent/ordinary", &sibling, 0), Ok(false));
    assert_eq!(parent_rel("parent/repo"), "parent");
    assert_eq!(parent_rel("parent"), "");
}

#[test]
fn merge_conflict_with_identical_bytes_lands_a_renamed_copy() {
    // The target exists: whatever it holds, the member gets a name of its own.
    let step = merge_start_step(true);
    assert_eq!(step, PlaceStep::TryUnique(false));
    assert_eq!(merge_extracted(step, true), PlaceStep::Renamed);
    assert_eq!(merge_start_step(false), PlaceStep::TryTarget);
    assert_eq!(merge_extracted(PlaceStep::TryTarget, true), PlaceStep::Placed);
}

#[test]
fn delete_successful_source_stops_on_cancellation() {
    let mut control = Control::default();
    control.cancel();
    let error = control.checkpoint().unwrap_err();
    assert!(!stops_extraction(&error));
    // One volume: nothing is deleted after the cancellation.
    assert_eq!(
        delete_successful_source(1, &vec![VolumeEnd::Cancelled]),
        SourceStep::Cancelled
    );
}

#[test]
fn volumes_are_deleted_one_after_the_other() {
    assert_eq!(delete_successful_source(0, &vec![]), SourceStep::Done);
    assert_eq!(delete_successful_source(2, &vec![]), SourceStep::Delete(0));
    assert_eq!(
        delete_successful_source(2, &vec![VolumeEnd::Deleted]),
        SourceStep::Delete(1)
    );
    assert_eq!(
        delete_successful_source(2, &vec![VolumeEnd::Deleted, VolumeEnd::Deleted]),
        SourceStep::Done
    );
    // One volume was not tried.
    assert_eq!(
        delete_successful_source(2, &vec![VolumeEnd::Failed]),
        SourceStep::Stop(1)
    );
    assert_eq!(
        delete_successful_source(2, &vec![VolumeEnd::Failed, VolumeEnd::Deleted]),
        SourceStep::Stop(1)
    );
}

#[test]
fn archives_are_admitted_by_size_and_space() {
    let facts = |f: fn(&mut ArchiveFacts)| {
        let mut a = ArchiveFacts {
            total: 1000,
            sizes_complete: true,
            git_at_root: false,
            packed: 100,
            max_ratio: 200,
            reserve: 500,
            free: Some(2000),
            max_file_gib: 0,
            max_unpacked_gib: 0,
        };
        f(&mut a);
        admission_of(&a)
    };
    assert!(matches!(facts(|_| ()), Admission::Extract(_)));
    assert!(matches!(facts(|a| a.git_at_root = true), Admission::SkipGitRoot));
    assert!(matches!(facts(|a| a.max_ratio = 9), Admission::RatioExceeded));
    assert!(matches!(facts(|a| a.max_ratio = 10), Admission::Extract(_)));
    assert!(matches!(facts(|a| a.free = None), Admission::SpaceUnknown));
    assert!(matches!(
        facts(|a| a.free = Some(1499)),
        Admission::NotEnoughSpace
    ));
    assert!(matches!(
        facts(|a| a.reserve = u64::MAX),
        Admission::CapacityOverflow
    ));
    assert_eq!(watch_space(None, 1, None, &vec![]), Some(SpaceStop::Unknown));
    assert_eq!(
        watch_space(Some(4), 5, None, &vec![]),
        Some(SpaceStop::BelowReserve)
    );
    assert_eq!(
        watch_space(Some(9), 5, Some(10), &vec![6, 5]),
        Some(SpaceStop::StreamTooLarge)
    );
    assert_eq!(watch_space(Some(9), 5, Some(11), &vec![6, 5]), None);
}

#[test]
fn members_are_counted_while_they_are_placed() {
    let limits = MergeLimits {
        total: 10,
        sizes_complete: true,
        cap: None,
        max_file: None,
    };
    let file = |n| MemberEvent::Seen(EntryShape::File, n);
    let good = merge_all(
        limits,
        &vec![
            file(4),
            MemberEvent::Placed(true),
            file(6),
            MemberEvent::Placed(true),
            MemberEvent::FilesDone,
        ],
    )
    .unwrap();
    assert_eq!((good.expanded, good.extracted, good.complete), (10, 2, true));
    assert_eq!(good.stage_end(), StageEnd::Placed(true));
    let skipped = merge_all(
        limits,
        &vec![
            file(4),
            MemberEvent::Skipped,
            file(6),
            MemberEvent::Placed(true),
            MemberEvent::FilesDone,
        ],
    )
    .unwrap();
    assert_eq!(skipped.stage_end(), StageEnd::Placed(false));
    assert_eq!(
        merge_all(limits, &vec![file(11)]).unwrap_err(),
        MergeError::MoreThanDeclared
    );
    assert_eq!(
        merge_all(limits, &vec![MemberEvent::Seen(EntryShape::Link, 0)]).unwrap_err(),
        MergeError::Link
    );
    assert_eq!(
        merge_all(
            limits,
            &vec![file(4), MemberEvent::Placed(true), MemberEvent::FilesDone]
        )
        .unwrap_err(),
        MergeError::SizeMismatch
    );
}

#[test]
fn members_are_settled_one_after_the_other() {
    let limits = MergeLimits {
        total: 4,
        sizes_complete: true,
        cap: None,
        max_file: None,
    };
    let file = MemberEvent::Seen(EntryShape::File, 4);
    // Nothing is known before all files were seen and settled.
    assert_eq!(
        merge_all(limits, &Vec::new()).unwrap().stage_end(),
        StageEnd::Failed(false)
    );
    assert_eq!(
        merge_all(limits, &vec![file]).unwrap().stage_end(),
        StageEnd::Failed(false)
    );
    for events in [
        vec![file, MemberEvent::FilesDone],
        vec![file, file],
        vec![MemberEvent::Placed(true)],
        vec![MemberEvent::DirReady],
        vec![file, MemberEvent::Placed(true), MemberEvent::Skipped],
        vec![file, MemberEvent::Placed(true), MemberEvent::FilesDone, file],
    ] {
        assert_eq!(merge_all(limits, &events).unwrap_err(), MergeError::OutOfTurn);
    }
    let whole = merge_all(
        limits,
        &vec![
            MemberEvent::Seen(EntryShape::Directory, 0),
            file,
            MemberEvent::Placed(true),
            MemberEvent::FilesDone,
            MemberEvent::DirReady,
        ],
    )
    .unwrap();
    assert_eq!(
        extract_one(Stage::PlaceDirectories, whole.stage_end()),
        Stage::DeleteSource
    );
}

#[test]
fn members_go_beside_their_archive() {
    assert_eq!(
        destination_of("d/a.zip", "x/y.txt", false).unwrap(),
        ("d/x/y.txt".to_string(), false)
    );
    assert_eq!(file_name("d/a.zip"), "a.zip");
    assert!(has_hidden_component("a/.x/b"));
    assert!(!has_hidden_component("a/x.y"));
    let rules = build_exclusions("skip").unwrap();
    let none: Vec<String> = Vec::new();
    assert!(matches!(
        judge_member(&texts(&["p"]), "p/x", &rules, "d/p/x", false, false),
        Some(SkipReason::GitTree)
    ));
    assert!(matches!(
        judge_member(&none, "skip/x", &rules, "skip/x", false, false),
        Some(SkipReason::Excluded)
    ));
    assert!(judge_member(&none, "ok", &rules, "ok", false, true).is_none());
    assert!(excluded_destination(true, &vec![], true, true));
    assert!(excluded_destination(
        false,
        &vec![LevelFlags {
            hidden: true,
            system: false
        }],
        false,
        true
    ));
    assert!(!excluded_destination(false, &vec![], false, false));
    assert!(matches!(placed_note(true, true, false, false).0, PlacedNote::Renamed));
    assert!(directory_event(DirPlace::Failed).is_none());
    // Hidden and system bits are dropped where such files are left out.
    assert_eq!(normalize_new_member_attributes(0x26, false, true), 0x24);
    assert_eq!(normalize_new_member_attributes(0x26, true, true), 0x26);
    let wide: Vec<u16> = "C:\\a".encode_utf16().collect();
    assert_eq!(
        String::from_utf16(&verbatim_path(&wide)).unwrap().trim_end_matches('\0'),
        "\\\\?\\C:\\a"
    );
}

#[test]
fn the_source_is_deleted_last() {
    let mut stage = Stage::FindVolumes;
    let limits = MergeLimits {
        total: 0,
        sizes_complete: true,
        cap: None,
        max_file: None,
    };
    for end in [
        StageEnd::Found(1, VolumeScheme::Single),
        StageEnd::Decided(Admission::Extract(limits)),
        StageEnd::Done,
        StageEnd::Done,
        StageEnd::Placed(true),
    ] {
        stage = extract_one(stage, end);
    }
    assert!(matches!(stage, Stage::DeleteSource));
    assert!(matches!(
        extract_one(stage, StageEnd::Done),
        Stage::Ended(Ending::Complete)
    ));
    assert!(matches!(
        extract_one(Stage::PlaceDirectories, StageEnd::Placed(false)),
        Stage::Ended(Ending::Incomplete)
    ));
    assert!(matches!(
        extract_one(Stage::Unpack, StageEnd::Failed(true)),
        Stage::Ended(Ending::Failed(true))
    ));
}

fn limits() -> ListLimits {
    ListLimits {
        max_entries: 10,
        max_file_gib: 0,
        max_unpacked_gib: 0,
    }
}

fn listing(lines: &[&str]) -> Result<jchtools::archive::listing::Listing, ListError> {
    list(&texts(lines), "stream".to_string(), true, limits())
}

#[test]
fn listings_are_summed_up() {
    let l = listing(&[
        "Path = a.txt",
        "Size = 5",
        "",
        "Path = dir",
        "Folder = +",
        "Size = 0",
        "",
        "Path = p/.git/config",
        "Size = 7",
        "",
    ])
    .unwrap();
    assert_eq!((l.total, l.sizes_complete), (12, true));
    assert_eq!(l.git_subtrees, vec!["p"]);
    let open = listing(&["Path = a.txt", "Size = ", ""]).unwrap();
    assert!(!open.sizes_complete);
    assert!(matches!(
        listing(&["Path = ../x", "Size = 1", ""]),
        Err(ListError::Path(_))
    ));
    assert_eq!(
        listing(&["Path = a", "Size = 1", "Encrypted = +", ""]).unwrap_err(),
        ListError::Encrypted
    );
    assert_eq!(
        listing(&["Path = a", "Size = x", ""]).unwrap_err(),
        ListError::BadSize
    );
    assert_eq!(
        listing(&["Path = a", "Path = b", ""]).unwrap_err(),
        ListError::DuplicateField
    );
    let many: Vec<String> = (0..11)
        .flat_map(|i| vec![format!("Path = f{i}"), "Size = 1".to_string(), String::new()])
        .collect();
    assert_eq!(
        list(&many, "s".to_string(), true, limits()).unwrap_err(),
        ListError::TooManyEntries
    );
    assert_eq!(git_boundary_prefix("a/.git/x").as_deref(), Some("a"));
    assert!(inside_git_subtree(&texts(&["a"]), "a/b"));
    assert!(!inside_git_subtree(&texts(&["a"]), "ab"));
    assert_eq!(stream_member_name(Some("x.tar.gz")), "x.tar");
}

#[test]
fn volumes_are_found_and_confirmed() {
    assert_eq!(scheme_of("a.7z.001"), ("a.7z".to_string(), VolumeScheme::Numbered));
    assert_eq!(scheme_of("a.part1.rar").1, VolumeScheme::RarParts);
    assert_eq!(scheme_of("a.zip").1, VolumeScheme::SplitZip);
    assert!(matches_candidate("a.7z", VolumeScheme::Numbered, "a.7z.002"));
    assert!(!matches_candidate("a.7z", VolumeScheme::Numbered, "b.7z.002"));
    let around: Vec<Neighbour> = ["a.7z.001", "a.7z.002", "b.txt"]
        .iter()
        .map(|n| Neighbour {
            name: n.to_string(),
            kind: EntryKind::File,
        })
        .collect();
    let set = volume_set("a.7z.001", &around).unwrap();
    assert_eq!(set.names.len(), 2);
    assert_eq!(set.scheme, VolumeScheme::Numbered);
    let info = ArchiveVolumes {
        kind: "Split".to_string(),
        count: 3,
        new_rar_names: false,
    };
    assert_eq!(
        volume_name(VolumeScheme::Numbered, "a.7z.001", &info, 1).unwrap(),
        "a.7z.002"
    );
    let all = vec![VolumeProbe::Regular, VolumeProbe::Regular, VolumeProbe::Regular];
    assert_eq!(
        VolumeScheme::Numbered.actual_paths("a.7z.001", &info, &all).unwrap(),
        vec!["a.7z.001", "a.7z.002", "a.7z.003"]
    );
    assert!(VolumeScheme::Numbered
        .actual_paths(
            "a.7z.001",
            &info,
            &vec![VolumeProbe::Regular, VolumeProbe::Inaccessible, VolumeProbe::Regular]
        )
        .is_err());
    assert_eq!(total_size(&vec![1, u64::MAX, 5]), u64::MAX);
    assert_eq!(volume_bytes(&vec![1, 2]), 3);
    let header = texts(&["--", "Path = a.7z.001", "Type = Split", "Volumes = 2", "----------"]);
    assert_eq!(archive_volume_count(&header).unwrap().count, 2);
    assert_eq!(
        archive_volume_count(&texts(&["--", "Type = Split", "Volumes = 0"])).unwrap_err(),
        VolumeError::ZeroCount
    );
}

#[test]
fn packages_settle_one_after_the_other() {
    let s = Summary::default();
    let good = settle(s, PackageResult::Complete);
    assert_eq!(good.summary.archives_ok, 1);
    assert!(matches!(good.state, RowState::Done));
    assert!(matches!(good.next, QueueNext::Continue));
    let bad = settle(
        s,
        PackageResult::Failed {
            cancelled: false,
            stops: false,
        },
    );
    assert!(matches!(bad.next, QueueNext::Quarantine));
    let stop = settle(
        s,
        PackageResult::Failed {
            cancelled: false,
            stops: true,
        },
    );
    assert!(matches!(stop.next, QueueNext::Stop));
    let (sum, open) = extract_queued(s, &vec![PackageResult::Complete, PackageResult::Incomplete]);
    assert_eq!(sum.archives_ok + sum.archives_failed, 2);
    assert!(open);
    assert_eq!(settle_superseded(s).skipped, 1);
    assert!(matches!(judge_row(true, Some("f"), "f", 1, 4), RowVerdict::Run));
    assert!(matches!(judge_row(true, Some("g"), "f", 1, 4), RowVerdict::Superseded));
    assert!(matches!(judge_row(false, None, "f", 1, 4), RowVerdict::Drop));
    assert!(matches!(judge_row(true, Some("f"), "f", 9, 4), RowVerdict::TooDeep));
    let snap = Snapshot {
        size: 3,
        modified_ns: 4,
        created_ns: None,
        identity: "1:2:3".to_string(),
        links: 1,
    };
    assert!(fingerprint("a.zip", &snap).contains("a.zip"));
    assert_ne!(fingerprint("a.zip", &snap), fingerprint("b.zip", &snap));
    assert!(matches!(quarantine("a.zip", false, false), Quarantine::Gone));
    assert!(matches!(quarantine("a.zip", true, false), Quarantine::To(p) if p.ends_with("a.zip")));
    assert!(matches!(quarantine("a.zip", true, true), Quarantine::Near(_)));
    assert!(!is_orphan_staging(false, "o", "x", Some(10), 5));
}

#[test]
fn the_engine_is_one_that_was_checked() {
    let r = resolve_executable(true, false, false, 0);
    let found = resolve_among(&r, ResolveEvent::Passed);
    let engine = SevenZip::from_bundle(&found, "D:/7zz").unwrap();
    assert_eq!(engine.executable, "D:/7zz");
    assert!(engine.list_args().contains(&"-slt"));
    let lost = resolve_among(&r, ResolveEvent::Rejected { missing: true });
    assert!(SevenZip::from_bundle(&lost, "D:/7zz").is_err());
    assert!(SevenZip::place(&found).is_some());
}

fn snapshot(size: u64, modified_ns: i64) -> Snapshot {
    Snapshot {
        size,
        modified_ns,
        created_ns: None,
        identity: "1:2:3".to_string(),
        links: 1,
    }
}

#[test]
fn enqueue_replaces_pending_row_for_same_rel() {
    let mut queue = ArchiveQueue::new();
    let first = fingerprint("pack.zip", &snapshot(b"first version bytes".len() as u64, 1));
    queue.enqueue("pack.zip", &first, 0);
    let second = fingerprint(
        "pack.zip",
        &snapshot(b"second version with different length".len() as u64, 2),
    );
    queue.enqueue("pack.zip", &second, 0);
    assert_eq!(queue.len(), 1);
    assert_eq!(queue.row(0).fingerprint, second);
}

#[test]
fn archives_are_taken_once_and_the_outer_ones_first() {
    let mut queue = ArchiveQueue::new();
    queue.enqueue("a.zip", "a", 1);
    queue.enqueue("b.zip", "b", 0);
    queue.enqueue("c.zip", "c", 0);
    assert_eq!(queue.waiting(), 3);
    assert_eq!(queue.next(), Some(1));
    queue.set_progress(1, Progress::Done);
    assert_eq!(queue.next(), Some(2));
    // An archive that was taken is not queued again; another one of its path is.
    queue.enqueue("b.zip", "b", 0);
    assert_eq!(queue.waiting(), 2);
    queue.enqueue("b.zip", "b2", 0);
    assert_eq!(queue.waiting(), 3);
    queue.remove(2);
    queue.set_progress(0, Progress::Failed);
    assert_eq!(queue.next().map(|i| queue.row(i).rel.clone()), Some("b.zip".to_string()));
    assert_eq!(ArchiveQueue::new().next(), None);
}

#[test]
fn merge_conflict_preserves_compound_extension() {
    // The target is taken: the new member gets another name, the old file stays.
    let step = merge_extracted(merge_start_step(true), true);
    assert_eq!(step, PlaceStep::Renamed);
    let renamed = unique_target("", "资料.tar.gz", &vec![false]).unwrap();
    assert_eq!(renamed.as_deref(), Some("资料 (1).tar.gz"));
    assert_ne!(renamed.as_deref(), Some("资料.tar (1).gz"));
}

#[test]
fn normalize_strips_hidden_on_plain_long_path() {
    let deep = format!("D:\\{}\\deep-hidden.txt", vec!["n".repeat(41); 7].join("\\"));
    let wide: Vec<u16> = deep.encode_utf16().collect();
    assert!(wide.len() > 260);
    let verbatim = String::from_utf16(&verbatim_path(&wide)).unwrap();
    assert_eq!(verbatim.trim_end_matches('\0'), format!("\\\\?\\{deep}"));
    // The hidden attribute is taken away where hidden files are not asked for.
    assert_eq!(normalize_new_member_attributes(2, false, true) & 2, 0);
}

#[test]
fn directories_that_are_not_made_are_told() {
    assert_eq!(
        SkipReason::GitTree.directory_message("p/空"),
        "空目录位于含 .git 的目录树内（p/空）：H-06 整树排除，不创建；原包保留"
    );
    assert_eq!(
        SkipReason::Dotted.directory_message("p"),
        SkipReason::Dotted.message()
    );
    assert_eq!(
        directory_note(DirPlace::SomethingElse, ""),
        Some("空目录名与目标处已有文件冲突；原包保留".to_string())
    );
    assert_eq!(
        directory_note(DirPlace::Taken, "文件已存在"),
        Some("空目录名被既有文件/链接占用且无法创建：文件已存在；原包保留".to_string())
    );
    assert_eq!(directory_note(DirPlace::Created, ""), None);
}
