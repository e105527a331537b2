//! Releasing the carried engine: only what is missing is written, and only what has
//! the expected hash.

use crate::engine::scan;
use crate::engine_bundle::bundle;
use crate::engine_bundle::bundle::{EngineFile, ManifestEntry};
use crate::fsutil;
use crate::fsutil::NameError;
use crate::text;
use vstd::prelude::*;

verus! {

/// Why an entry of the manifest cannot be released.
#[derive(Clone, Copy, Debug, PartialEq, Eq, Structural)]
pub enum ReleaseError {
    NoName,
    UnsafeName(NameError),
    NoHash,
    /// The program does not carry the file.
    NotCarried,
    /// The carried bytes cannot be read.
    Damaged,
    /// They have another hash.
    WrongHash,
}

/// What is done with an entry of the manifest.
#[derive(Debug)]
pub enum ReleaseAction {
    /// A file is there already; it stays.
    Keep,
    /// These bytes are written.
    Write(Vec<u8>),
}

/// The first carried file from `i` on with a name, whatever the case.
pub open spec fn carried_from(files: Seq<EngineFile>, name: Seq<char>, i: int) -> Option<Seq<u8>>
    decreases files.len() - i,
{
    if i >= files.len() {
        None
    } else if text::lower(files[i].name@) == text::lower(name) {
        Some(files[i].compressed@)
    } else {
        carried_from(files, name, i + 1)
    }
}

/// What is done with an entry of the manifest. `exists` says whether a file with its
/// name is there.
pub open spec fn entry_action(
    name: Option<Seq<char>>,
    hash: Option<Seq<char>>,
    files: Seq<EngineFile>,
    exists: bool,
) -> Result<Option<Seq<u8>>, ReleaseError> {
    match name {
        None => Err(ReleaseError::NoName),
        Some(n) => match fsutil::name_problem(n) {
            Some(e) => Err(ReleaseError::UnsafeName(e)),
            None => match hash {
                None => Err(ReleaseError::NoHash),
                Some(h) => match carried_from(files, n, 0) {
                    None => Err(ReleaseError::NotCarried),
                    Some(packed) => if exists {
                        Ok(None)
                    } else {
                        match bundle::zlib_inflated(packed) {
                            None => Err(ReleaseError::Damaged),
                            Some(bytes) => if bundle::hash_text(bytes) == text::folded(h) {
                                Ok(Some(bytes))
                            } else {
                                Err(ReleaseError::WrongHash)
                            },
                        }
                    },
                },
            },
        },
    }
}

/// An action as bytes.
pub open spec fn action_view(r: Result<ReleaseAction, ReleaseError>) -> Result<
    Option<Seq<u8>>,
    ReleaseError,
> {
    match r {
        Ok(ReleaseAction::Keep) => Ok(None),
        Ok(ReleaseAction::Write(v)) => Ok(Some(v@)),
        Err(e) => Err(e),
    }
}

fn find_carried(files: &Vec<EngineFile>, name: &str) -> (r: Option<usize>)
    ensures
        match r {
            Some(i) => i < files@.len() && carried_from(files@, name@, 0) == Some(
                files@[i as int].compressed@,
            ),
            None => carried_from(files@, name@, 0) is None,
        },
{
    let mut i: usize = 0;
    while i < files.len()
        invariant
            i <= files@.len(),
            carried_from(files@, name@, 0) == carried_from(files@, name@, i as int),
        decreases files.len() - i,
    {
        if text::same_ignoring_case(files[i].name.as_str(), name) {
            return Some(i);
        }
        i = i + 1;
    }
    None
}

/// Decides what is done with an entry of the manifest.
pub fn release(entry: &ManifestEntry, files: &Vec<EngineFile>, exists: bool) -> (r: Result<
    ReleaseAction,
    ReleaseError,
>)
    ensures
        action_view(r) == entry_action(
            text::text_option(entry.name),
            text::text_option(entry.sha256),
            files@,
            exists,
        ),
{
    let name = match &entry.name {
        None => return Err(ReleaseError::NoName),
        Some(n) => n.as_str(),
    };
    match fsutil::validate_component(name) {
        Err(e) => return Err(ReleaseError::UnsafeName(e)),
        Ok(_) => {},
    }
    let hash = match &entry.sha256 {
        None => return Err(ReleaseError::NoHash),
        Some(h) => h.as_str(),
    };
    let at: usize = match find_carried(files, name) {
        None => return Err(ReleaseError::NotCarried),
        Some(i) => i,
    };
    if exists {
        return Ok(ReleaseAction::Keep);
    }
    match bundle::inflate(&files[at].compressed) {
        None => Err(ReleaseError::Damaged),
        Some(bytes) => {
            let expected = text::fold(hash);
            if bundle::hash_matches(&bytes, expected.as_str()) {
                Ok(ReleaseAction::Write(bytes))
            } else {
                Err(ReleaseError::WrongHash)
            }
        },
    }
}

/// A file that is there is never written over.
pub proof fn law_existing_files_stay(
    name: Option<Seq<char>>,
    hash: Option<Seq<char>>,
    files: Seq<EngineFile>,
)
    ensures
        !(entry_action(name, hash, files, true) matches Ok(Some(_))),
{
}

/// What is written has the hash that the manifest gives, under a name that is one
/// component of a path.
pub proof fn law_only_expected_bytes_are_written(
    name: Option<Seq<char>>,
    hash: Option<Seq<char>>,
    files: Seq<EngineFile>,
    exists: bool,
    bytes: Seq<u8>,
)
    requires
        entry_action(name, hash, files, exists) == Ok::<Option<Seq<u8>>, ReleaseError>(Some(bytes)),
    ensures
        !exists,
        name is Some && fsutil::name_problem(name->0) is None,
        hash is Some && bundle::hash_text(bytes) == text::folded(hash->0),
{
}

/// What follows on writing a file.
#[derive(Clone, Copy, Debug, PartialEq, Eq, Structural)]
pub enum AfterWrite {
    /// The file is as expected.
    Fine,
    /// Another file has appeared in its place; it stays.
    KeepOther,
    /// Nothing was written.
    Failed,
    /// What was written is not as expected, or cannot be read: it is removed again.
    RemoveAndFail,
}

/// What follows on writing a file: whether it was written, whether a file is there now,
/// and whether it has the expected hash, if it could be read.
pub fn after_write(written: bool, exists: bool, matches: Option<bool>) -> (r: AfterWrite)
    ensures
        r == (if !written {
            if exists {
                AfterWrite::KeepOther
            } else {
                AfterWrite::Failed
            }
        } else if matches == Some(true) {
            AfterWrite::Fine
        } else {
            AfterWrite::RemoveAndFail
        }),
{
    if !written {
        return if exists {
            AfterWrite::KeepOther
        } else {
            AfterWrite::Failed
        };
    }
    match matches {
        Some(true) => AfterWrite::Fine,
        _ => AfterWrite::RemoveAndFail,
    }
}

/// The mark in the name of a file that is being written.
pub const PART_MARK: &'static str = ".part-";

/// The name of a file that is being written.
pub fn part_name(name: &str, pid: u32) -> (r: String)
    ensures
        r@ == name@ + ".part-"@ + text::decimal(pid as nat),
{
    let mut s = name.to_owned();
    s.append(PART_MARK);
    s.append(text::number(pid as u64).as_str());
    s
}

/// The name of one file of the engine that was being written.
pub open spec fn is_part_of(name: Seq<char>, engine: Seq<char>) -> bool {
    let start = engine + PART_MARK@;
    text::has_prefix(name, start) && name.len() > start.len() && text::all_digits(
        name.skip(start.len() as int),
    )
}

/// A left-over of a crashed release.
pub open spec fn is_residue(name: Seq<char>, is_file: bool) -> bool {
    is_file && (is_part_of(name, "7z.exe"@) || is_part_of(name, "7z.dll"@) || is_part_of(
        name,
        "7zz"@,
    ))
}

fn part_of(name: &str, engine: &str) -> (r: bool)
    ensures
        r == is_part_of(name@, engine@),
{
    let mut start = engine.to_owned();
    start.append(PART_MARK);
    match text::strip_prefix(name, start.as_str()) {
        None => false,
        Some(rest) => {
            assert(rest@ =~= name@.skip(start@.len() as int));
            let v = text::chars_of(rest.as_str());
            if v.len() == 0 {
                return false;
            }
            let mut i: usize = 0;
            while i < v.len()
                invariant
                    i <= v@.len(),
                    v@ == name@.skip(start@.len() as int),
                    start@ == engine@ + PART_MARK@,
                    forall|k: int| 0 <= k < i ==> text::is_digit(#[trigger] v@[k]),
                decreases v.len() - i,
            {
                if !text::digit(v[i]) {
                    assert(!text::is_digit(v@[i as int]));
                    assert(!text::is_digit(name@.skip(start@.len() as int)[i as int]));
                    return false;
                }
                i = i + 1;
            }
            assert(text::all_digits(v@));
            true
        },
    }
}

/// Whether a file is a left-over of a crashed release and can be removed.
pub fn cleanup_part_residue(name: &str, is_file: bool) -> (r: bool)
    ensures
        r == is_residue(name@, is_file),
{
    is_file && (part_of(name, "7z.exe") || part_of(name, "7z.dll") || part_of(name, "7zz"))
}

/// How the names of directories start that the engine is released to.
pub const RELEASE_PREFIX: &'static str = "release-";

/// Whether an entry is a directory that the engine was released to.
pub fn is_release_dir(name: &str, is_dir: bool) -> (r: bool)
    ensures
        r == (is_dir && text::has_prefix(name@, "release-"@)),
{
    is_dir && text::starts_with(name, RELEASE_PREFIX)
}

/// Some entry of a directory is one that the engine was released to and has this name.
pub open spec fn released_to(names: Seq<Seq<char>>, dirs: Seq<bool>, name: Seq<char>) -> bool {
    text::has_prefix(name, RELEASE_PREFIX@) && exists|i: int|
        0 <= i < names.len() && dirs[i] && #[trigger] names[i] == name
}

/// The directories that the engine was released to, in dictionary order. `dirs` says
/// which entries are directories.
pub fn existing_release_dirs(names: &Vec<String>, dirs: &Vec<bool>) -> (r: Vec<String>)
    requires
        names@.len() == dirs@.len(),
    ensures
        scan::ascending(text::texts(r@)),
        forall|t: Seq<char>| #[trigger]
            text::texts(r@).contains(t) <==> released_to(text::texts(names@), dirs@, t),
{
    let ghost all = text::texts(names@);
    let mut found: Vec<String> = Vec::new();
    let mut i: usize = 0;
    while i < names.len()
        invariant
            i <= names@.len(),
            names@.len() == dirs@.len(),
            all == text::texts(names@),
            forall|t: Seq<char>| #[trigger]
                text::texts(found@).contains(t) <==> text::has_prefix(t, RELEASE_PREFIX@)
                    && exists|k: int| 0 <= k < i && dirs@[k] && #[trigger] all[k] == t,
        decreases names.len() - i,
    {
        let ghost before = text::texts(found@);
        assert(all[i as int] == names@[i as int]@);
        if is_release_dir(names[i].as_str(), dirs[i]) {
            let ghost v = found@;
            let name = names[i].as_str().to_owned();
            found.push(name);
            proof {
                text::texts_push(v, name);
                let now = text::texts(found@);
                assert(now[now.len() - 1] == all[i as int]);
                assert forall|t: Seq<char>| now.contains(t) <==> before.contains(t) || t
                    == all[i as int] by {
                    if before.contains(t) {
                        let x = choose|x: int| 0 <= x < before.len() && before[x] == t;
                        assert(now[x] == t);
                    }
                    if now.contains(t) && t != all[i as int] {
                        let x = choose|x: int| 0 <= x < now.len() && now[x] == t;
                        assert(before[x] == t);
                    }
                }
            }
        }
        proof {
            let now = text::texts(found@);
            assert forall|t: Seq<char>| #[trigger] now.contains(t) <==> text::has_prefix(
                t,
                RELEASE_PREFIX@,
            ) && exists|k: int| 0 <= k < i + 1 && dirs@[k] && #[trigger] all[k] == t by {
                if exists|k: int| 0 <= k < i && dirs@[k] && #[trigger] all[k] == t {
                    let k = choose|k: int| 0 <= k < i && dirs@[k] && #[trigger] all[k] == t;
                    assert(0 <= k < i + 1 && all[k] == t);
                }
            }
        }
        i = i + 1;
    }
    let r = scan::sorted_unique(&found);
    proof {
        let a = text::texts(r@);
        let b = text::texts(found@);
        assert forall|t: Seq<char>| #[trigger] a.contains(t) <==> released_to(all, dirs@, t) by {
            assert(a.to_set().contains(t) <==> b.to_set().contains(t));
        }
    }
    r
}

/// The warning about a file that is there and is not the one that is carried; none
/// where it is. `expected` is missing where the file could not be read.
pub fn keep_existing_engine_file(
    name: &str,
    path: &str,
    expected: Option<bool>,
    error: &str,
) -> (r: Option<String>)
    ensures
        match expected {
            Some(true) => r is None,
            Some(false) => r matches Some(s) && s@
                == "警告：引擎目录中已存在与内嵌清单 sha256 不一致的 "@ + name@ + "（"@ + path@
                + "），保留该文件（不覆盖既有文件），该目录能否使用以逐文件校验为准"@,
            None => r matches Some(s) && s@ == "警告：无法读取已存在的引擎文件 "@ + path@
                + " 以校验 sha256："@ + error@ + "，保留该文件"@,
        },
{
    match expected {
        Some(true) => None,
        Some(false) => {
            let mut s = "警告：引擎目录中已存在与内嵌清单 sha256 不一致的 ".to_owned();
            s.append(name);
            s.append("（");
            s.append(path);
            s.append("），保留该文件（不覆盖既有文件），该目录能否使用以逐文件校验为准");
            Some(s)
        },
        None => {
            let mut s = "警告：无法读取已存在的引擎文件 ".to_owned();
            s.append(path);
            s.append(" 以校验 sha256：");
            s.append(error);
            s.append("，保留该文件");
            Some(s)
        },
    }
}

/// So many names are tried for a new directory.
pub const MAX_RELEASE_ATTEMPTS: u32 = 64;

/// The name of a new directory, by time, process and attempt.
pub fn fresh_release_dir(nanos: u64, pid: u32, attempt: u32) -> (r: String)
    ensures
        r@ == "release-"@ + text::decimal(nanos as nat) + "-"@ + text::decimal(pid as nat) + "-"@
            + text::decimal(attempt as nat),
{
    let mut s = RELEASE_PREFIX.to_owned();
    s.append(text::number(nanos).as_str());
    s.append("-");
    s.append(text::number(pid as u64).as_str());
    s.append("-");
    s.append(text::number(attempt as u64).as_str());
    s
}

/// The file that is carried under a name is the first one so named, whatever the case.
pub proof fn law_which_file_is_carried(files: Seq<EngineFile>, name: Seq<char>, i: int)
    requires
        0 <= i <= files.len(),
    ensures
        match carried_from(files, name, i) {
            Some(b) => exists|k: int|
                i <= k < files.len() && text::lower((#[trigger] files[k]).name@) == text::lower(name)
                    && files[k].compressed@ == b && forall|j: int|
                    i <= j < k ==> text::lower((#[trigger] files[j]).name@) != text::lower(name),
            None => forall|k: int|
                i <= k < files.len() ==> text::lower((#[trigger] files[k]).name@) != text::lower(
                    name,
                ),
        },
    decreases files.len() - i,
{
    if i < files.len() {
        if text::lower(files[i].name@) == text::lower(name) {
            assert(text::lower(files[i].name@) == text::lower(name));
        } else {
            law_which_file_is_carried(files, name, i + 1);
            if carried_from(files, name, i + 1) is Some {
                let b = carried_from(files, name, i + 1)->0;
                let k = choose|k: int|
                    i + 1 <= k < files.len() && text::lower((#[trigger] files[k]).name@)
                        == text::lower(name) && files[k].compressed@ == b && forall|j: int|
                        i + 1 <= j < k ==> text::lower((#[trigger] files[j]).name@) != text::lower(
                            name,
                        );
                assert(text::lower(files[k].name@) == text::lower(name));
            }
        }
    }
}

/// When a file is written: where it has a name that is one component of a path and a hash,
/// is carried, is not there yet, and its bytes can be read and have the hash. Otherwise the
/// error tells what is missing.
pub proof fn law_what_is_released(name: Seq<char>, hash: Seq<char>, files: Seq<EngineFile>, exists: bool)
    ensures
        ({
            let good = fsutil::name_problem(name) is None;
            let carried = carried_from(files, name, 0);
            let r = entry_action(Some(name), Some(hash), files, exists);
            &&& good && carried is Some && exists ==> r == Ok::<Option<Seq<u8>>, ReleaseError>(None)
            &&& good && carried is None ==> r == Err::<Option<Seq<u8>>, ReleaseError>(
                ReleaseError::NotCarried,
            )
            &&& good && carried is Some && !exists ==> (match bundle::zlib_inflated(carried->0) {
                Some(bytes) => bundle::hash_text(bytes) == text::folded(hash) ==> r == Ok::<
                    Option<Seq<u8>>,
                    ReleaseError,
                >(Some(bytes)),
                None => r == Err::<Option<Seq<u8>>, ReleaseError>(ReleaseError::Damaged),
            })
            &&& !good ==> (r matches Err(ReleaseError::UnsafeName(_)))
            &&& entry_action(None, Some(hash), files, exists) == Err::<
                Option<Seq<u8>>,
                ReleaseError,
            >(ReleaseError::NoName)
            &&& good ==> entry_action(Some(name), None, files, exists) == Err::<
                Option<Seq<u8>>,
                ReleaseError,
            >(ReleaseError::NoHash)
            &&& r == Err::<Option<Seq<u8>>, ReleaseError>(ReleaseError::WrongHash) ==> (
            carried is Some && (bundle::zlib_inflated(carried->0) matches Some(bytes)
                && bundle::hash_text(bytes) != text::folded(hash)))
        }),
{
}

/// What a release that crashed leaves behind is found again: a file of the engine under the
/// name that it was written with. A directory of that name is not one, and the files
/// themselves are none.
pub proof fn law_left_overs_are_found(engine: Seq<char>, pid: nat)
    requires
        engine == "7z.exe"@ || engine == "7z.dll"@ || engine == "7zz"@,
    ensures
        is_residue(engine + ".part-"@ + text::decimal(pid), true),
        !is_residue(engine + ".part-"@ + text::decimal(pid), false),
        !is_part_of(engine, engine),
        !is_part_of(engine + ".part-"@, engine),
{
    text::law_decimal_value(pid);
    let start = engine + ".part-"@;
    let name = start + text::decimal(pid);
    assert(name.subrange(0, start.len() as int) =~= start);
    assert(name.skip(start.len() as int) =~= text::decimal(pid));
    assert(is_part_of(name, engine));
    reveal_strlit(".part-");
}

} // verus!
