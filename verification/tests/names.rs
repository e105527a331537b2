use jchtools::fsutil::{
    join_below, move_file_preserving_times, normalize_root, relative_string, root_inside_git_project,
    safe_join, safe_relative, set_created_time, snapshot_with, split_compound_name,
    suffixed_candidate, truncate_utf16, unique_candidate, unique_target, validate_component, FileId,
    GitProbe, GitRootError, LinkProbe, Moment, MoveStep, NameError, PathError, RootError, RootFacts,
    SnapshotError, StepResult, UniqueError,
};
use jchtools::hash_cache::identity_is_degenerate;
use jchtools::rules::{archive_name, build_exclusions, exclusion_list, ExclusionError};
use jchtools::text;

#[test]
fn split_keeps_part_rar_suffix_whole() {
    assert_eq!(
        split_compound_name("资料.part01.rar"),
        ("资料", ".part01.rar")
    );
    assert_eq!(split_compound_name("a.part1.rar"), ("a", ".part1.rar"));
    assert_eq!(
        split_compound_name("report.partial.rar"),
        ("report.partial", ".rar")
    );
    assert_eq!(split_compound_name("x.part.rar"), ("x.part", ".rar"));
    assert_eq!(split_compound_name("x.part01.zip"), ("x.part01", ".zip"));
}

#[test]
fn split_merges_whitelisted_components_behind_numbered_tail() {
    assert_eq!(split_compound_name("x.tar.gz.001"), ("x", ".tar.gz.001"));
    assert_eq!(split_compound_name("包.7z.001"), ("包", ".7z.001"));
    assert_eq!(split_compound_name("y.tbz2.001"), ("y", ".tbz2.001"));
    assert_eq!(split_compound_name("foo.bar.001"), ("foo.bar", ".001"));
    assert_eq!(split_compound_name("x.tar.foo.001"), ("x.tar.foo", ".001"));
}

#[test]
fn split_keeps_compound_stream_suffix() {
    assert_eq!(split_compound_name("资料.tar.gz"), ("资料", ".tar.gz"));
    assert_eq!(split_compound_name("a.txt"), ("a", ".txt"));
    assert_eq!(split_compound_name("无扩展名"), ("无扩展名", ""));
    assert_eq!(split_compound_name("combo.z01"), ("combo", ".z01"));
}

#[test]
fn unique_target_inserts_index_before_volume_suffix() {
    // The name itself is taken, the first numbered one is free.
    let target = unique_target("", "资料.part01.rar", &vec![false]).unwrap();
    assert_eq!(target.as_deref(), Some("资料 (1).part01.rar"));
    let second = unique_target("", "资料.part01.rar", &vec![true, false]).unwrap();
    assert_eq!(second.as_deref(), Some("资料 (2).part01.rar"));
    assert_eq!(unique_target("", "a", &vec![true]), Ok(None));
    assert_eq!(
        unique_candidate("a", "资料.tar.gz", 1).unwrap(),
        "a/资料 (1).tar.gz"
    );
}

#[test]
fn degenerate_identities_are_never_cacheable() {
    assert!(identity_is_degenerate("123:0:0"));
    assert!(identity_is_degenerate("abc"));
    assert!(identity_is_degenerate(""));
    assert!(identity_is_degenerate("1:2:3:4"));
    assert!(!identity_is_degenerate("123:4:567"));
}

#[test]
fn names_that_cannot_be_stored_are_refused() {
    assert!(validate_component("资料 (1).txt").is_ok());
    assert_eq!(validate_component(".."), Err(NameError::Unsafe));
    assert_eq!(
        validate_component("a:b"),
        Err(NameError::ForbiddenCharacter)
    );
    assert_eq!(validate_component("con.txt"), Err(NameError::Reserved));
    assert_eq!(validate_component(&"x".repeat(300)), Err(NameError::TooLong));
}

#[test]
fn relative_paths_are_made_safe() {
    assert_eq!(safe_relative("a\\b/c").unwrap(), "a/b/c");
    let again = safe_relative("a/b/c").unwrap();
    assert_eq!(again, "a/b/c");
    assert_eq!(safe_relative("/a"), Err(PathError::Absolute));
    assert!(safe_relative("a/../b").is_err());
    assert_eq!(safe_relative(""), Err(PathError::Empty));
    let parts = |s: &str| s.split('/').map(str::to_string).collect::<Vec<_>>();
    assert_eq!(
        relative_string(&parts("d/x"), &parts("d/x/y/z")).unwrap(),
        "y/z"
    );
    assert_eq!(
        relative_string(&parts("d/x"), &parts("e/y")),
        Err(PathError::OutsideRoot)
    );
    assert_eq!(join_below("", "a"), "a");
    assert_eq!(join_below("a", "b"), "a/b");
    assert_eq!(
        safe_join("a/b", &vec![LinkProbe::Plain, LinkProbe::Link]),
        Err(PathError::Link)
    );
    assert_eq!(
        safe_join("a/b", &vec![LinkProbe::Plain, LinkProbe::Missing]).unwrap(),
        "a/b"
    );
}

#[test]
fn marked_names_fit() {
    let long = "长".repeat(300);
    let marked = suffixed_candidate(&long, ".txt", 12);
    assert!(marked.ends_with(" (12).txt"));
    assert!(marked.encode_utf16().count() <= 255);
    assert_eq!(truncate_utf16("a😀b", 2), "a");
    assert_eq!(truncate_utf16("a😀b", 3), "a😀");
    let ext = format!("x.{}", "y".repeat(260));
    assert!(matches!(
        unique_candidate("", &ext, 1),
        Err(UniqueError::ExtensionTooLong)
    ));
}

#[test]
fn roots_are_checked() {
    let facts = |f: fn(&mut RootFacts)| {
        let mut r = RootFacts {
            reachable: true,
            is_dir: true,
            has_parent: true,
            windows: true,
            components: 5,
            under_protected: false,
        };
        f(&mut r);
        normalize_root(&r)
    };
    assert!(facts(|_| ()).is_ok());
    assert_eq!(facts(|f| f.reachable = false), Err(RootError::Unreachable));
    assert_eq!(
        facts(|f| f.is_dir = false),
        Err(RootError::NotAnOrdinaryDirectory)
    );
    assert_eq!(
        facts(|f| f.has_parent = false),
        Err(RootError::NotAnOrdinaryDirectory)
    );
    assert_eq!(facts(|f| f.components = 2), Err(RootError::VolumeRoot));
    assert_eq!(
        facts(|f| f.under_protected = true),
        Err(RootError::Protected)
    );
    assert!(root_inside_git_project(&vec![GitProbe::Clean, GitProbe::Clean]).is_ok());
    assert_eq!(
        root_inside_git_project(&vec![GitProbe::Clean, GitProbe::GitRoot]),
        Err(GitRootError::Inside(1))
    );
    assert_eq!(
        root_inside_git_project(&vec![GitProbe::Unreadable]),
        Err(GitRootError::Unreadable(0))
    );
}

#[test]
fn snapshots_hold_times_and_identity() {
    let s = snapshot_with(
        true,
        9,
        Moment::Since(1_500),
        Some(Moment::Before(200)),
        FileId::Unix(7, 8),
        1,
    )
    .unwrap();
    assert_eq!((s.size, s.modified_ns, s.created_ns), (9, 1_500, Some(-200)));
    assert_eq!(s.identity, "7:8");
    assert_eq!(
        snapshot_with(false, 0, Moment::Since(0), None, FileId::Unix(0, 0), 1).unwrap_err(),
        SnapshotError::NotARegularFile
    );
    assert_eq!(
        snapshot_with(true, 0, Moment::Since(u128::MAX), None, FileId::Unix(0, 0), 1).unwrap_err(),
        SnapshotError::TimeOutOfRange
    );
    // The beginning of 1970 in units of 100 ns since 1601.
    let t = set_created_time(Moment::Since(0));
    assert_eq!(
        (u64::from(t.high) << 32) | u64::from(t.low),
        116_444_736_000_000_000
    );
}

#[test]
fn a_file_is_removed_only_after_its_copy() {
    for (code, windows) in [(18, false), (17, true)] {
        let mut step = MoveStep::Rename;
        step = move_file_preserving_times(step, StepResult::Error(Some(code)), windows);
        assert_eq!(step, MoveStep::Create);
        step = move_file_preserving_times(step, StepResult::Done, windows);
        assert_eq!(step, MoveStep::Copy);
        step = move_file_preserving_times(step, StepResult::Done, windows);
        assert_eq!(step, MoveStep::SetTimes);
        step = move_file_preserving_times(step, StepResult::Done, windows);
        assert_eq!(step, MoveStep::RemoveSource);
        step = move_file_preserving_times(step, StepResult::Error(None), windows);
        assert_eq!(step, MoveStep::BothKept);
    }
}

#[test]
fn a_taken_target_is_never_written() {
    // 17 says that the target exists, but on Windows that it lies on another volume.
    assert_eq!(
        move_file_preserving_times(MoveStep::Rename, StepResult::Error(Some(17)), false),
        MoveStep::Failed(false)
    );
    assert_eq!(
        move_file_preserving_times(MoveStep::Rename, StepResult::Error(Some(18)), true),
        MoveStep::Failed(false)
    );
    // The target appeared before the copy was made: it is not the copy's to remove.
    assert_eq!(
        move_file_preserving_times(MoveStep::Create, StepResult::Error(Some(17)), false),
        MoveStep::Failed(false)
    );
    assert_eq!(
        move_file_preserving_times(MoveStep::Copy, StepResult::Error(Some(28)), false),
        MoveStep::Failed(true)
    );
    assert_eq!(
        move_file_preserving_times(MoveStep::SetTimes, StepResult::Error(None), true),
        MoveStep::Failed(true)
    );
}

#[test]
fn only_streams_are_part_of_a_compound_extension() {
    assert_eq!(split_compound_name("x.tar.txt"), ("x.tar", ".txt"));
    assert_eq!(split_compound_name("x.tar.gz"), ("x", ".tar.gz"));
    assert_eq!(split_compound_name("x.TAR.ZST"), ("x", ".TAR.ZST"));
    assert_eq!(split_compound_name("x.log.gz"), ("x.log", ".gz"));
}

#[test]
fn exclusions_cover_whole_trees() {
    assert_eq!(exclusion_list(" *.tmp ;; build/ "), vec!["*.tmp", "build/"]);
    let rules = build_exclusions("*.tmp;build/;数据").unwrap();
    assert!(rules.excludes("a.tmp"));
    assert!(rules.excludes("build"));
    assert!(!rules.excludes("src/main.rs"));
    assert!(rules.member_excluded("build/x/y.txt"));
    assert!(rules.member_excluded("数据/a"));
    assert!(!rules.member_excluded("src/数据2"));
    assert!(matches!(
        build_exclusions("ok;["),
        Err(ExclusionError::InvalidPattern(1))
    ));
    let none = build_exclusions(" ; ").unwrap();
    assert!(!none.member_excluded("anything"));
}

#[test]
fn archives_are_known_by_their_names() {
    for name in ["a.zip", "a.ZIP", "b.7z", "c.tar.gz", "d.7z.001", "e.part1.rar"] {
        assert!(archive_name(name), "{name}");
    }
    for name in ["a.txt", "zip", "e.part2.rar", "f.001"] {
        assert!(!archive_name(name), "{name}");
    }
}

#[test]
fn texts_are_cut_and_joined() {
    assert_eq!(text::split("a,b,,c", ','), vec!["a", "b", "", "c"]);
    assert_eq!(
        text::join(&text::split("a,b,,c", ','), ","),
        "a,b,,c".to_string()
    );
    assert_eq!(text::trim(" \t中 文\u{3000}"), "中 文");
    assert_eq!(text::number(0), "0");
    assert_eq!(text::number(u64::MAX), "18446744073709551615");
    assert_eq!(text::parse_u64("+7"), Some(7));
    assert_eq!(text::parse_u64("18446744073709551616"), None);
    assert_eq!(text::padded_number(7, 3), "007");
    assert_eq!(text::signed_number(-5), "-5");
    assert_eq!(text::signed_number(i64::MIN), "-9223372036854775808");
    assert_eq!(text::replace("aaa", "aa", "b"), "ba");
    assert_eq!(text::utf16_len("a😀"), 3);
    assert!(text::not_after("a", "ab") && !text::not_after("b", "ab"));
    assert!(text::same_ignoring_case("Abc", "aBC"));
    assert_eq!(text::split_words("  a b  c "), vec!["a", "b", "c"]);
    assert_eq!(
        text::rsplit_once("a.b.c", "."),
        Some(("a.b".to_string(), "c".to_string()))
    );
}
