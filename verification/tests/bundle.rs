use jchtools::engine_bundle::bundle::{
    embedded_available, embedded_dir, engine_name, hash_matches, manifest_expectation,
    read_manifest, required_among, required_engine_files, Bundle, ManifestEntry,
};
use jchtools::engine_bundle::embed::{
    carried_names, compress, embed_engine, embed_manifest, embed_status, empty_bundle, find_rc,
    make_id, manifest_id, not_newer, EmbedError, Source,
};
use jchtools::engine_bundle::release::{
    after_write, cleanup_part_residue, existing_release_dirs, fresh_release_dir, is_release_dir,
    keep_existing_engine_file, part_name, release, AfterWrite, ReleaseAction, ReleaseError,
};
use jchtools::engine_bundle::resolve::{
    candidate_failure_line, candidate_problems, failure_message, join_problems, minimal_problems,
    reject_candidate, resolve_among, resolve_executable, FileProbe, Place, Problem, Resolve,
    ResolveEvent, ResolveFailure, ResolveStep,
};
use jchtools::engine_bundle::sha256::{sha256, sha256_hex};
use std::collections::BTreeMap;

/// A directory: the files by their names.
type Dir = BTreeMap<String, Vec<u8>>;

fn entry(name: &str, bytes: &[u8]) -> ManifestEntry {
    ManifestEntry {
        name: Some(name.to_string()),
        sha256: Some(sha256_hex(&bytes.to_vec())),
    }
}

fn bundle() -> Bundle {
    let name = engine_name(false);
    let program = b"the engine itself".to_vec();
    let license = b"its license".to_vec();
    let entries = vec![entry(name, &program), entry("License.txt", &license)];
    let manifest = format!(
        "{{\"files\":[{{\"name\":\"{}\",\"sha256\":\"{}\"}},{{\"name\":\"License.txt\",\"sha256\":\"{}\"}}]}}",
        name,
        sha256_hex(&program),
        sha256_hex(&license)
    );
    let sources = vec![
        Source {
            name: name.to_string(),
            bytes: Some(program),
        },
        Source {
            name: "License.txt".to_string(),
            bytes: Some(license),
        },
    ];
    embed_engine(&sources, &entries, &manifest, "7zip-test".to_string()).unwrap()
}

/// Releases what is missing; existing files stay.
fn release_all(b: &Bundle, dir: &mut Dir) -> Result<(), ReleaseError> {
    for e in read_manifest(&b.manifest).unwrap() {
        let name = e.name.clone().unwrap_or_default();
        match release(&e, &b.files, dir.contains_key(&name))? {
            ReleaseAction::Keep => {}
            ReleaseAction::Write(bytes) => {
                dir.insert(name, bytes);
            }
        }
    }
    Ok(())
}

fn problems(b: &Bundle, dir: &Dir) -> Vec<Problem> {
    let required = required_engine_files(b).unwrap();
    let names: Vec<String> = required.iter().map(|(n, _)| n.clone()).collect();
    let probes: Vec<FileProbe> = required
        .iter()
        .map(|(n, h)| match dir.get(n) {
            None => FileProbe::Missing,
            Some(bytes) => FileProbe::Hashed(hash_matches(bytes, h)),
        })
        .collect();
    candidate_problems(&names, &probes)
}

/// Runs the search over directories that are held in memory.
fn search(b: &Bundle, bundled: Option<&Dir>, fixed: &mut Dir, fresh: &mut Option<Dir>) -> (Resolve, Vec<String>) {
    let mut r = resolve_executable(bundled.is_some(), true, true, 0);
    let mut reasons: Vec<String> = Vec::new();
    loop {
        let event = match r.step {
            ResolveStep::Check(place) => {
                let (found, label) = match place {
                    Place::Bundled => (problems(b, bundled.unwrap()), "随包目录"),
                    Place::Fresh => (problems(b, fresh.as_ref().unwrap()), "新目录"),
                    _ => (problems(b, fixed), "固定目录"),
                };
                if found.is_empty() {
                    ResolveEvent::Passed
                } else {
                    reasons.push(candidate_failure_line("随包", label, &found));
                    ResolveEvent::Rejected {
                        missing: found.iter().any(|p| p.missing),
                    }
                }
            }
            ResolveStep::CheckCompleted => {
                if problems(b, fixed).is_empty() {
                    ResolveEvent::Passed
                } else {
                    ResolveEvent::Rejected { missing: false }
                }
            }
            ResolveStep::Complete => ResolveEvent::Released(release_all(b, fixed).is_ok()),
            ResolveStep::Release => {
                let mut dir = Dir::new();
                let ok = release_all(b, &mut dir).is_ok();
                *fresh = Some(dir);
                ResolveEvent::Released(ok)
            }
            ResolveStep::Use(_) | ResolveStep::Fail(_) => return (r, reasons),
        };
        r = resolve_among(&r, event);
    }
}

#[test]
fn embedded_available_matches_build_configuration() {
    let full = bundle();
    assert!(embedded_available(&full));
    assert!(!full.files.is_empty());
    assert!(!full.manifest.is_empty());
    let none = empty_bundle("x".to_string());
    assert!(!embedded_available(&none));
    assert!(none.files.is_empty() || none.manifest.is_empty());
    assert_ne!(embed_status(&full), embed_status(&none));
}

#[test]
fn release_never_overwrites_existing_files() {
    let b = bundle();
    let name = b.files[0].name.clone();
    let mut dir = Dir::new();
    dir.insert(name.clone(), b"user supplied engine".to_vec());
    release_all(&b, &mut dir).unwrap();
    assert_eq!(dir[&name], b"user supplied engine".to_vec());
    dir.remove(&name);
    release_all(&b, &mut dir).unwrap();
    assert!(dir.contains_key(&name));
}

#[test]
fn release_writes_files_matching_manifest_hashes() {
    let b = bundle();
    let mut dir = Dir::new();
    release_all(&b, &mut dir).unwrap();
    let entries = read_manifest(&b.manifest).unwrap();
    assert!(!entries.is_empty());
    for e in &entries {
        let name = e.name.clone().unwrap();
        let expected = e.sha256.clone().unwrap().to_lowercase();
        assert!(hash_matches(&dir[&name], &expected));
        assert_eq!(manifest_expectation(&entries, &name), Some(expected));
    }
}

#[test]
fn resolve_reports_per_candidate_reasons_when_all_candidates_invalid() {
    let b = bundle();
    let mut tampered = Dir::new();
    tampered.insert(engine_name(false).to_string(), b"tampered engine bytes".to_vec());
    let found = problems(&b, &tampered);
    let line = candidate_failure_line("随包", "D:/bundled", &found);
    let r = resolve_executable(true, true, true, 0);
    let r = resolve_among(&r, ResolveEvent::Rejected { missing: true });
    let r = resolve_among(&r, ResolveEvent::Rejected { missing: false });
    let r = resolve_among(&r, ResolveEvent::Released(false));
    assert_eq!(r.step, ResolveStep::Fail(ResolveFailure::NoCandidate));
    let message = failure_message(ResolveFailure::NoCandidate, "7zz", &vec![line]);
    assert!(message.contains("随包"), "{message}");
    assert!(message.contains("sha256 与内嵌清单不一致"), "{message}");
    assert!(message.contains("D:/bundled"), "{message}");
}

#[test]
fn resolve_releases_to_fresh_location_when_existing_file_hash_mismatches() {
    let b = bundle();
    let name = engine_name(false).to_string();
    let mut fixed = Dir::new();
    release_all(&b, &mut fixed).unwrap();
    fixed.insert(name.clone(), b"corrupted engine bytes".to_vec());
    let mut fresh = None;
    let (r, _) = search(&b, None, &mut fixed, &mut fresh);
    assert_eq!(r.step, ResolveStep::Use(Place::Fresh));
    assert!(problems(&b, fresh.as_ref().unwrap()).is_empty());
    assert_eq!(fixed[&name], b"corrupted engine bytes".to_vec());
    let dir = fresh_release_dir(1_700_000_000, 42, 0);
    assert!(dir.starts_with("release-") && is_release_dir(&dir, true));
}

#[test]
fn resolve_falls_back_to_embedded_when_bundled_dir_hash_mismatches() {
    let b = bundle();
    let name = engine_name(false).to_string();
    let mut bundled = Dir::new();
    bundled.insert(name.clone(), b"tampered engine bytes".to_vec());
    let mut fixed = Dir::new();
    let mut fresh = None;
    let (r, reasons) = search(&b, Some(&bundled), &mut fixed, &mut fresh);
    assert_eq!(r.step, ResolveStep::Use(Place::Fixed));
    assert!(problems(&b, &fixed).is_empty());
    assert_eq!(bundled[&name], b"tampered engine bytes".to_vec());
    assert!(reasons[0].contains("随包"));
}

#[test]
fn resolve_falls_back_when_bundled_dir_missing_dll() {
    let b = bundle();
    let mut bundled = Dir::new();
    release_all(&b, &mut bundled).unwrap();
    bundled.remove("License.txt");
    let mut fixed = Dir::new();
    let mut fresh = None;
    let (r, _) = search(&b, Some(&bundled), &mut fixed, &mut fresh);
    assert_eq!(r.step, ResolveStep::Use(Place::Fixed));
}

#[test]
fn resolve_prefers_valid_bundled_dir() {
    let b = bundle();
    let mut bundled = Dir::new();
    release_all(&b, &mut bundled).unwrap();
    let mut fixed = Dir::new();
    let mut fresh = None;
    let (r, reasons) = search(&b, Some(&bundled), &mut fixed, &mut fresh);
    assert_eq!(r.step, ResolveStep::Use(Place::Bundled));
    assert!(reasons.is_empty() && fixed.is_empty());
}

#[test]
fn resolve_without_embedded_uses_minimal_bundled_checks() {
    assert!(minimal_problems(engine_name(false), true, false, false).is_empty());
    assert!(minimal_problems(engine_name(true), true, true, true).is_empty());
    let r = resolve_executable(true, false, true, 0);
    assert_eq!(
        resolve_among(&r, ResolveEvent::Passed).step,
        ResolveStep::Use(Place::Bundled)
    );
}

#[test]
fn resolve_without_embedded_reports_incomplete_bundled_dir() {
    let found = minimal_problems(engine_name(true), true, true, false);
    let message = join_problems(&found);
    assert!(message.contains("7z.dll"), "{message}");
    assert!(reject_candidate("随包", "D:/bundled", &found).contains("D:/bundled"));
    let r = resolve_executable(true, false, false, 0);
    assert_eq!(
        resolve_among(&r, ResolveEvent::Rejected { missing: true }).step,
        ResolveStep::Fail(ResolveFailure::NotEmbedded)
    );
    assert_eq!(
        resolve_executable(false, true, false, 0).step,
        ResolveStep::Fail(ResolveFailure::NoStateDir)
    );
}

#[test]
fn hashes_agree_with_the_standard() {
    assert_eq!(
        sha256_hex(&b"abc".to_vec()),
        "ba7816bf8f01cfea414140de5dae2223b00361a396177a9cb410ff61f20015ad"
    );
    assert_eq!(
        sha256_hex(&Vec::new()),
        "e3b0c44298fc1c149afbf4c8996fb92427ae41e4649b934ca495991b7852b855"
    );
    let long: Vec<u8> = (0..1000u32).map(|i| (i % 251) as u8).collect();
    assert_eq!(sha256(&long).len(), 32);
    // The two ways to hash agree.
    assert!(hash_matches(&long, &sha256_hex(&long)));
    assert!(!hash_matches(&long, &sha256_hex(&b"abc".to_vec())));
}

#[test]
fn embedding_checks_and_keeps_the_bytes() {
    let bytes = b"some bytes, some bytes, some bytes".to_vec();
    let packed = compress(&bytes);
    assert_ne!(packed, bytes);
    let e = entry("a", &bytes);
    let files = vec![jchtools::engine_bundle::bundle::EngineFile {
        name: "a".to_string(),
        compressed: packed,
    }];
    assert!(matches!(release(&e, &files, false), Ok(ReleaseAction::Write(b)) if b == bytes));
    let damaged = vec![jchtools::engine_bundle::bundle::EngineFile {
        name: "a".to_string(),
        compressed: vec![1, 2, 3],
    }];
    assert!(matches!(release(&e, &damaged, false), Err(ReleaseError::Damaged)));
    let wrong = ManifestEntry {
        name: Some("a".to_string()),
        sha256: Some(sha256_hex(&b"other".to_vec())),
    };
    assert!(matches!(release(&wrong, &files, false), Err(ReleaseError::WrongHash)));
    assert!(matches!(release(&entry("b", b"x"), &files, false), Err(ReleaseError::NotCarried)));
    let unnamed = ManifestEntry {
        name: None,
        sha256: None,
    };
    assert!(matches!(release(&unnamed, &files, false), Err(ReleaseError::NoName)));
    let bad = ManifestEntry {
        name: Some("../a".to_string()),
        sha256: None,
    };
    assert!(matches!(release(&bad, &files, false), Err(ReleaseError::UnsafeName(_))));
    let sources = vec![Source {
        name: "a".to_string(),
        bytes: Some(bytes.clone()),
    }];
    assert!(matches!(
        embed_engine(&sources, &vec![wrong], "{}", "id".to_string()),
        Err(EmbedError::WrongHash(0))
    ));
    assert!(matches!(
        embed_engine(&sources, &vec![], "{}", "id".to_string()),
        Err(EmbedError::NoEntry(0))
    ));
}

#[test]
fn manifests_are_read() {
    assert_eq!(read_manifest("not json").err(), Some("内嵌引擎清单无效"));
    for missing in ["{}", "[]", "3", "{\"files\":{}}"] {
        assert_eq!(
            read_manifest(missing).err(),
            Some("内嵌引擎清单缺少 files 数组")
        );
    }
    let entries = read_manifest("{\"files\":[{\"name\":\"7zz\",\"sha256\":\"AB\"},{}]}").unwrap();
    assert_eq!(entries.len(), 2);
    assert_eq!(manifest_expectation(&entries, "7zz"), Some("ab".to_string()));
    assert_eq!(manifest_expectation(&entries, "x"), None);
    assert!(required_among(&bundle().files, &entries).is_none());
    assert_eq!(embedded_dir(&bundle(), None), None);
    assert!(embedded_dir(&bundle(), Some("D:/state")).unwrap().contains("7zip-test"));
    assert_eq!(
        make_id(Some("25.01"), Some("abcdef0123456789")),
        "25.01-abcdef01"
    );
    assert_eq!(make_id(Some("25.01"), Some("abc")), "25.01-abc");
    assert_eq!(make_id(Some("25.01"), Some("")), "25.01");
    assert_eq!(make_id(None, None), "unknown");
}

#[test]
fn marks_come_from_the_first_entry_alone() {
    let mark = |s: &str| manifest_id(s);
    assert_eq!(mark("not json"), None);
    assert_eq!(mark("{}").as_deref(), Some("unknown"));
    assert_eq!(mark("{\"version\":25}").as_deref(), Some("unknown"));
    assert_eq!(
        mark("{\"version\":\"25.01\",\"files\":[{\"sha256\":\"ABCDEF0123\"}]}").as_deref(),
        Some("25.01-ABCDEF01")
    );
    // The hash of a later entry does not stand in for that of the first.
    assert_eq!(
        mark("{\"version\":\"25.01\",\"files\":[{\"name\":\"a\"},{\"sha256\":\"ABCDEF0123\"}]}")
            .as_deref(),
        Some("25.01")
    );
    assert_eq!(
        mark("{\"version\":\"25.01\",\"files\":[]}").as_deref(),
        Some("25.01")
    );
}

#[test]
fn a_manifest_builds_its_engine() {
    assert_eq!(carried_names(true), vec!["7z.exe", "7z.dll"]);
    assert_eq!(carried_names(false), vec!["7zz"]);
    let bytes = b"engine".to_vec();
    let source = |bytes: Option<Vec<u8>>| {
        vec![Source {
            name: "7zz".to_string(),
            bytes,
        }]
    };
    let hash = sha256_hex(&bytes);
    let manifest = format!(
        "{{\"version\":\"25.01\",\"files\":[{{\"name\":\"7ZZ\",\"sha256\":\"{}\"}}]}}",
        hash.to_uppercase()
    );
    let mark = format!("25.01-{}", &hash.to_uppercase()[..8]);
    let built = embed_manifest(&source(Some(bytes.clone())), &manifest).unwrap();
    assert_eq!(built.id, mark);
    assert_eq!(built.manifest, manifest);
    assert_eq!(built.files.len(), 1);
    assert_eq!(embed_status(&built), "ok");
    let entries = read_manifest(&manifest).unwrap();
    assert!(matches!(
        release(&entries[0], &built.files, false),
        Ok(ReleaseAction::Write(b)) if b == bytes
    ));
    // A file that could not be read leaves nothing but the mark.
    let none = embed_manifest(&source(None), &manifest).unwrap();
    assert_eq!((none.id.as_str(), none.manifest.as_str()), (mark.as_str(), ""));
    assert_eq!(embed_status(&none), "incomplete");
    assert!(matches!(
        embed_manifest(&source(Some(bytes.clone())), "{"),
        Err(EmbedError::NotJson)
    ));
    assert!(matches!(
        embed_manifest(&source(Some(bytes.clone())), "{\"version\":\"25.01\"}"),
        Err(EmbedError::NoEntry(0))
    ));
    assert!(matches!(
        embed_manifest(&source(Some(b"other".to_vec())), &manifest),
        Err(EmbedError::WrongHash(0))
    ));
}

#[test]
fn leftovers_of_a_release_are_recognised() {
    let part = part_name("7zz", 77);
    assert_eq!(part, "7zz.part-77");
    assert!(cleanup_part_residue(&part, true));
    assert!(!cleanup_part_residue(&part, false));
    assert!(!cleanup_part_residue("7zz", true));
    assert!(matches!(after_write(true, true, Some(true)), AfterWrite::Fine));
    assert!(matches!(after_write(true, true, Some(false)), AfterWrite::RemoveAndFail));
    assert!(matches!(after_write(false, true, None), AfterWrite::KeepOther));
    assert!(matches!(after_write(false, false, None), AfterWrite::Failed));
    let names: Vec<String> = ["release-2", "other", "release-10", "release-1"]
        .iter()
        .map(|s| s.to_string())
        .collect();
    assert_eq!(
        existing_release_dirs(&names, &vec![true, true, true, false]),
        vec!["release-10", "release-2"]
    );
    assert_eq!(keep_existing_engine_file("7zz", "D:/7zz", Some(true), ""), None);
    assert!(keep_existing_engine_file("7zz", "D:/7zz", Some(false), "")
        .unwrap()
        .contains("D:/7zz"));
    assert!(keep_existing_engine_file("7zz", "D:/7zz", None, "denied")
        .unwrap()
        .contains("denied"));
    assert!(not_newer("10.0.9.0", "10.0.22000.0"));
    assert_eq!(
        find_rc(
            &vec!["10.0.9.0".to_string(), "10.0.22000.0".to_string(), "bin".to_string()],
            &vec![true, true, false]
        ),
        Some(1)
    );
}
