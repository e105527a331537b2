//! What is built into the program: the engine, where all its files are as the manifest
//! says.

use crate::engine_bundle::bundle;
use crate::engine_bundle::bundle::{Bundle, EngineFile, ManifestEntry};
use crate::engine_bundle::sha256;
use crate::hashing;
use crate::json;
use crate::json::{Json, JsonView};
use crate::text;
use vstd::prelude::*;

verus! {

/// Compresses bytes with a `flate2::write::ZlibEncoder` at its best level. What is read
/// back from the result is what was put in.
#[verifier::external_body]
fn deflate(bytes: &Vec<u8>) -> (r: Vec<u8>)
    ensures
        bundle::zlib_inflated(r@) == Some(bytes@),
{
    let mut encoder = flate2::write::ZlibEncoder::new(Vec::new(), flate2::Compression::best());
    std::io::Write::write_all(&mut encoder, bytes.as_slice()).expect("compress engine file");
    encoder.finish().expect("finish engine compression")
}

/// Compresses a file of the engine.
pub fn compress(bytes: &Vec<u8>) -> (r: Vec<u8>)
    ensures
        bundle::zlib_inflated(r@) == Some(bytes@),
{
    deflate(bytes)
}

/// Why nothing is built.
#[derive(Clone, Copy, Debug, PartialEq, Eq, Structural)]
pub enum EmbedError {
    /// The manifest is no JSON.
    NotJson,
    /// The manifest has no hash for the file with this number.
    NoEntry(usize),
    /// The file with this number has another hash.
    WrongHash(usize),
}

/// The mark of a bundle: its version and the first eight bytes of the first hash.
pub open spec fn bundle_id(version: Option<Seq<char>>, first: Option<Seq<char>>) -> Seq<char> {
    let v = match version {
        Some(s) => s,
        None => "unknown"@,
    };
    let tag = match first {
        Some(h) => text::start_in_bytes(h, 8),
        None => Seq::empty(),
    };
    if tag.len() == 0 {
        v
    } else {
        v + "-"@ + tag
    }
}

/// An optional text.
pub open spec fn option_view(s: Option<&str>) -> Option<Seq<char>> {
    match s {
        Some(x) => Some(x@),
        None => None,
    }
}

/// The mark of a bundle.
pub fn make_id(version: Option<&str>, first: Option<&str>) -> (r: String)
    ensures
        r@ == bundle_id(option_view(version), option_view(first)),
{
    let mut r = match version {
        Some(s) => s.to_owned(),
        None => "unknown".to_owned(),
    };
    if let Some(h) = first {
        let tag = text::cut_bytes(h, 8);
        if !tag.as_str().is_empty() {
            r.append("-");
            r.append(tag.as_str());
        }
    }
    r
}

/// The mark of the bundle that a manifest describes: by its member `version` and the hash
/// of the first entry of its list `files`.
pub open spec fn id_in(j: JsonView) -> Seq<char> {
    let first = match json::as_list(json::member(j, "files"@)) {
        Some(v) => if v.len() > 0 {
            json::as_text(json::member(v[0], "sha256"@))
        } else {
            None
        },
        None => None,
    };
    bundle_id(json::as_text(json::member(j, "version"@)), first)
}

/// The mark of the bundle that a manifest describes; nothing for a text that is no JSON.
pub fn manifest_id(s: &str) -> (r: Option<String>)
    ensures
        match r {
            Some(id) => json::parsed_json(s@) matches Some(j) && id@ == id_in(j),
            None => json::parsed_json(s@) is None,
        },
{
    match json::parse(s) {
        None => None,
        Some(value) => Some(id_of(&value)),
    }
}

/// The mark of the bundle that a parsed manifest describes.
pub fn id_of(value: &Json) -> (r: String)
    ensures
        r@ == id_in(json::json_view(*value)),
{
    let version = json::find_text(value, "version");
    let first = match json::find(value, "files") {
        Some(Json::List(list)) => {
            proof {
                json::list_view_at(list@, list@.len());
            }
            if list.len() > 0 {
                json::find_text(&list[0], "sha256")
            } else {
                None
            }
        },
        _ => None,
    };
    let v = match &version {
        Some(s) => Some(s.as_str()),
        None => None,
    };
    let f = match &first {
        Some(s) => Some(s.as_str()),
        None => None,
    };
    make_id(v, f)
}

/// The files of the engine that are built in.
pub open spec fn engine_files(windows: bool) -> Seq<Seq<char>> {
    if windows {
        seq!["7z.exe"@, "7z.dll"@]
    } else {
        seq!["7zz"@]
    }
}

/// The files of the engine that are built in for a system.
pub fn carried_names(windows: bool) -> (r: Vec<String>)
    ensures
        text::texts(r@) == engine_files(windows),
{
    let mut r: Vec<String> = Vec::new();
    r.push(bundle::engine_name(windows).to_owned());
    if windows {
        r.push("7z.dll".to_owned());
    }
    assert(text::texts(r@) =~= engine_files(windows));
    r
}

/// The hash that a build expects for a file: the letters of the manifest's hash in
/// lower case.
pub open spec fn expected_ascii(
    entries: Seq<(Option<Seq<char>>, Option<Seq<char>>)>,
    name: Seq<char>,
    i: int,
) -> Option<Seq<char>>
    decreases entries.len() - i,
{
    if i >= entries.len() {
        None
    } else {
        match entries[i] {
            (Some(n), Some(h)) => if text::lower(n) == text::lower(name) {
                Some(text::lower(h))
            } else {
                expected_ascii(entries, name, i + 1)
            },
            _ => expected_ascii(entries, name, i + 1),
        }
    }
}

fn expectation(entries: &Vec<ManifestEntry>, name: &str) -> (r: Option<String>)
    ensures
        text::text_option(r) == expected_ascii(bundle::entry_views(entries@), name@, 0),
{
    let ghost all = bundle::entry_views(entries@);
    let mut i: usize = 0;
    while i < entries.len()
        invariant
            i <= entries@.len(),
            all == bundle::entry_views(entries@),
            expected_ascii(all, name@, 0) == expected_ascii(all, name@, i as int),
        decreases entries.len() - i,
    {
        let e = &entries[i];
        assert(all[i as int] == (text::text_option(e.name), text::text_option(e.sha256)));
        if let Some(n) = &e.name {
            if let Some(h) = &e.sha256 {
                if text::same_ignoring_case(n.as_str(), name) {
                    return Some(text::lower_text(h.as_str()));
                }
            }
        }
        i = i + 1;
    }
    None
}

/// A file that is to be built in, and its bytes, if it could be read.
#[derive(Debug)]
pub struct Source {
    pub name: String,
    pub bytes: Option<Vec<u8>>,
}

/// The hash that the program's own code computes.
pub open spec fn built_hash(bytes: Seq<u8>) -> Seq<char> {
    hashing::hex_text(sha256::hash_bytes(sha256::hash_words(bytes)))
}

/// How the first `k` files are judged: an error; or whether all of them could be read,
/// which ends at the first one that could not.
pub open spec fn judged(
    sources: Seq<Source>,
    entries: Seq<(Option<Seq<char>>, Option<Seq<char>>)>,
    k: int,
) -> Result<bool, EmbedError>
    decreases k,
{
    if k <= 0 {
        Ok(true)
    } else {
        match judged(sources, entries, k - 1) {
            Err(e) => Err(e),
            Ok(false) => Ok(false),
            Ok(true) => match sources[k - 1].bytes {
                None => Ok(false),
                Some(b) => match expected_ascii(entries, sources[k - 1].name@, 0) {
                    None => Err(EmbedError::NoEntry((k - 1) as usize)),
                    Some(h) => if built_hash(b@) == h {
                        Ok(true)
                    } else {
                        Err(EmbedError::WrongHash((k - 1) as usize))
                    },
                },
            },
        }
    }
}

proof fn judged_stays(
    sources: Seq<Source>,
    entries: Seq<(Option<Seq<char>>, Option<Seq<char>>)>,
    k: int,
    n: int,
)
    requires
        0 <= k <= n,
        judged(sources, entries, k) != Ok::<bool, EmbedError>(true),
    ensures
        judged(sources, entries, n) == judged(sources, entries, k),
    decreases n,
{
    if k < n {
        judged_stays(sources, entries, k, n - 1);
    }
}

/// The carried file is the source, compressed.
pub open spec fn carries(f: EngineFile, s: Source) -> bool {
    &&& f.name@ == s.name@
    &&& s.bytes matches Some(b) && bundle::zlib_inflated(f.compressed@) == Some(b@)
}

/// Nothing is built in.
pub fn empty_bundle(id: String) -> (r: Bundle)
    ensures
        r.id == id,
        r.manifest@.len() == 0,
        r.files@.len() == 0,
        !bundle::is_available(r),
{
    Bundle { id, manifest: String::new(), files: Vec::new() }
}

/// What is built from the files, the entries of the manifest, its text and its mark.
pub open spec fn is_embedded(
    sources: Seq<Source>,
    entries: Seq<(Option<Seq<char>>, Option<Seq<char>>)>,
    manifest: Seq<char>,
    id: Seq<char>,
    r: Result<Bundle, EmbedError>,
) -> bool {
    match judged(sources, entries, sources.len() as int) {
        Err(e) => r == Err::<Bundle, EmbedError>(e),
        Ok(false) => r matches Ok(b) && b.id@ == id && b.manifest@.len() == 0 && b.files@.len()
            == 0,
        Ok(true) => r matches Ok(b) && b.id@ == id && b.manifest@ == manifest && b.files@.len()
            == sources.len() && forall|i: int|
            0 <= i < sources.len() ==> carries(#[trigger] b.files@[i], sources[i]),
    }
}

/// The entries that a manifest has; none where it has no list of them.
pub open spec fn entries_in(j: JsonView) -> Seq<(Option<Seq<char>>, Option<Seq<char>>)> {
    match json::as_list(json::member(j, "files"@)) {
        None => Seq::empty(),
        Some(v) => Seq::new(v.len(), |i: int| bundle::entry_of(v[i])),
    }
}

/// Builds the engine in by the text of its manifest: its entries give the hashes, and it
/// gives the mark.
pub fn embed_manifest(sources: &Vec<Source>, manifest: &str) -> (r: Result<Bundle, EmbedError>)
    ensures
        match json::parsed_json(manifest@) {
            None => r == Err::<Bundle, EmbedError>(EmbedError::NotJson),
            Some(j) => is_embedded(sources@, entries_in(j), manifest@, id_in(j), r),
        },
{
    let id = match manifest_id(manifest) {
        None => return Err(EmbedError::NotJson),
        Some(id) => id,
    };
    let entries = match bundle::parse_manifest(manifest) {
        None => return Err(EmbedError::NotJson),
        Some(None) => Vec::new(),
        Some(Some(v)) => v,
    };
    proof {
        let j = json::parsed_json(manifest@)->0;
        assert(bundle::entry_views(entries@) =~= entries_in(j));
    }
    embed_engine(sources, &entries, manifest, id)
}

/// Builds the engine in: all files, where every one could be read and has the hash of
/// the manifest; nothing, where one could not be read; an error, where one has another
/// hash or none.
pub fn embed_engine(
    sources: &Vec<Source>,
    entries: &Vec<ManifestEntry>,
    manifest: &str,
    id: String,
) -> (r: Result<Bundle, EmbedError>)
    ensures
        is_embedded(sources@, bundle::entry_views(entries@), manifest@, id@, r),
{
    let ghost all = bundle::entry_views(entries@);
    let mut files: Vec<EngineFile> = Vec::new();
    let mut i: usize = 0;
    while i < sources.len()
        invariant
            i <= sources@.len(),
            all == bundle::entry_views(entries@),
            judged(sources@, all, i as int) == Ok::<bool, EmbedError>(true),
            files@.len() == i,
            forall|k: int| 0 <= k < i ==> carries(#[trigger] files@[k], sources@[k]),
        decreases sources.len() - i,
    {
        let name = sources[i].name.as_str();
        match &sources[i].bytes {
            None => {
                proof {
                    judged_stays(sources@, all, i + 1, sources@.len() as int);
                }
                return Ok(empty_bundle(id));
            },
            Some(bytes) => {
                let expected = match expectation(entries, name) {
                    None => {
                        proof {
                            judged_stays(sources@, all, i + 1, sources@.len() as int);
                        }
                        return Err(EmbedError::NoEntry(i));
                    },
                    Some(h) => h,
                };
                let actual = sha256::sha256_hex(bytes);
                if !text::same(actual.as_str(), expected.as_str()) {
                    proof {
                        judged_stays(sources@, all, i + 1, sources@.len() as int);
                    }
                    return Err(EmbedError::WrongHash(i));
                }
                let compressed = compress(bytes);
                let f = EngineFile { name: name.to_owned(), compressed };
                assert(carries(f, sources@[i as int]));
                files.push(f);
            },
        }
        i = i + 1;
    }
    Ok(Bundle { id, manifest: manifest.to_owned(), files })
}

/// What the packaging looks for: whether everything was built in.
pub fn embed_status(b: &Bundle) -> (r: &'static str)
    ensures
        r@ == (if bundle::is_available(*b) {
            "ok"@
        } else {
            "incomplete"@
        }),
{
    if bundle::embedded_available(b) {
        "ok"
    } else {
        "incomplete"
    }
}

/// A part of a version as a number; anything else counts as zero.
pub open spec fn version_part(s: Seq<char>) -> u64 {
    match text::parsed_u64(s) {
        Some(n) => if n <= u32::MAX {
            n
        } else {
            0
        },
        None => 0,
    }
}

/// The numbers of a version.
pub open spec fn version_key(name: Seq<char>) -> Seq<u64> {
    Seq::new(
        text::split_on(name, '.').len(),
        |i: int| version_part(text::split_on(name, '.')[i]),
    )
}

/// Not above another version, number by number from position `i` on.
pub open spec fn version_le_from(a: Seq<u64>, b: Seq<u64>, i: int) -> bool
    decreases a.len() - i,
{
    if i >= a.len() {
        true
    } else if i >= b.len() {
        false
    } else if a[i] != b[i] {
        a[i] < b[i]
    } else {
        version_le_from(a, b, i + 1)
    }
}

/// Not above another version.
pub open spec fn version_le(a: Seq<char>, b: Seq<char>) -> bool {
    version_le_from(version_key(a), version_key(b), 0)
}

fn key_of(name: &str) -> (r: Vec<u64>)
    ensures
        r@ == version_key(name@),
{
    let parts = text::split(name, '.');
    let ghost all = text::texts(parts@);
    let mut out: Vec<u64> = Vec::new();
    let mut i: usize = 0;
    while i < parts.len()
        invariant
            i <= parts@.len(),
            all == text::texts(parts@),
            all == text::split_on(name@, '.'),
            out@.len() == i,
            forall|k: int| 0 <= k < i ==> #[trigger] out@[k] == version_part(all[k]),
        decreases parts.len() - i,
    {
        assert(parts@[i as int]@ == all[i as int]);
        let n: u64 = match text::parse_u64(parts[i].as_str()) {
            Some(n) => if n <= 0xffff_ffff {
                n
            } else {
                0
            },
            None => 0,
        };
        out.push(n);
        i = i + 1;
    }
    assert(out@ =~= version_key(name@));
    out
}

/// Whether a version is not above another one; numbers count as numbers, so that 10 is
/// above 9.
pub fn not_newer(a: &str, b: &str) -> (r: bool)
    ensures
        r == version_le(a@, b@),
{
    let x = key_of(a);
    let y = key_of(b);
    let mut i: usize = 0;
    while i < x.len() && i < y.len() && x[i] == y[i]
        invariant
            i <= x@.len(),
            i <= y@.len(),
            version_le_from(x@, y@, 0) == version_le_from(x@, y@, i as int),
        decreases x.len() - i,
    {
        i = i + 1;
    }
    i >= x.len() || (i < y.len() && x[i] < y[i])
}

/// The newest of the first `k` versions that exist; of equal ones the last.
pub open spec fn newest_upto(names: Seq<Seq<char>>, exists: Seq<bool>, k: int) -> Option<usize>
    decreases k,
{
    if k <= 0 {
        None
    } else {
        match newest_upto(names, exists, k - 1) {
            None => if exists[k - 1] {
                Some((k - 1) as usize)
            } else {
                None
            },
            Some(best) => if exists[k - 1] && version_le(names[best as int], names[k - 1]) {
                Some((k - 1) as usize)
            } else {
                Some(best)
            },
        }
    }
}

/// The newest version of a tool that exists.
pub fn find_rc(names: &Vec<String>, exists: &Vec<bool>) -> (r: Option<usize>)
    requires
        names@.len() == exists@.len(),
    ensures
        r == newest_upto(text::texts(names@), exists@, names@.len() as int),
{
    let ghost all = text::texts(names@);
    let mut best: Option<usize> = None;
    let mut i: usize = 0;
    while i < names.len()
        invariant
            i <= names@.len(),
            all == text::texts(names@),
            names@.len() == exists@.len(),
            best == newest_upto(all, exists@, i as int),
            best matches Some(b) ==> b < i,
        decreases names.len() - i,
    {
        if exists[i] {
            match best {
                None => {
                    best = Some(i);
                },
                Some(b) => {
                    assert(names@[b as int]@ == all[b as int]);
                    assert(names@[i as int]@ == all[i as int]);
                    if not_newer(names[b].as_str(), names[i].as_str()) {
                        best = Some(i);
                    }
                },
            }
        }
        i = i + 1;
    }
    best
}

/// What was built in is what is released: the bytes of a carried file are those of its
/// source.
pub proof fn law_embedding_keeps_the_bytes(f: EngineFile, s: Source, bytes: Seq<u8>)
    requires
        carries(f, s),
        bundle::zlib_inflated(f.compressed@) == Some(bytes),
    ensures
        s.bytes matches Some(b) && b@ == bytes,
{
}

/// The files are built in where all of them could be read and each has the hash that the
/// manifest gives for it; the error names the first that has not, and a file that could not
/// be read before it means that nothing is built in.
pub proof fn law_which_files_are_built_in(
    sources: Seq<Source>,
    entries: Seq<(Option<Seq<char>>, Option<Seq<char>>)>,
    k: int,
)
    requires
        0 <= k <= usize::MAX,
    ensures
        judged(sources, entries, k) == Ok::<bool, EmbedError>(true) <==> forall|i: int|
            0 <= i < k ==> ((#[trigger] sources[i]).bytes matches Some(b) && Some(built_hash(b@))
                == expected_ascii(entries, sources[i].name@, 0)),
        judged(sources, entries, k) == Ok::<bool, EmbedError>(false) ==> exists|i: int|
            0 <= i < k && (#[trigger] sources[i]).bytes is None,
        judged(sources, entries, k) matches Err(EmbedError::NoEntry(i)) ==> i < k && expected_ascii(
            entries,
            sources[i as int].name@,
            0,
        ) is None && sources[i as int].bytes is Some,
        judged(sources, entries, k) matches Err(EmbedError::WrongHash(i)) ==> i < k && (
        sources[i as int].bytes matches Some(b) && expected_ascii(
            entries,
            sources[i as int].name@,
            0,
        ) is Some && Some(built_hash(b@)) != expected_ascii(entries, sources[i as int].name@, 0)),
        judged(sources, entries, k) != Err::<bool, EmbedError>(EmbedError::NotJson),
    decreases k,
{
    if k > 0 {
        law_which_files_are_built_in(sources, entries, k - 1);
        if forall|i: int|
            0 <= i < k ==> ((#[trigger] sources[i]).bytes matches Some(b) && Some(built_hash(b@))
                == expected_ascii(entries, sources[i].name@, 0)) {
            assert(sources[k - 1].bytes is Some);
        }
        if judged(sources, entries, k - 1) == Ok::<bool, EmbedError>(true)
            && sources[k - 1].bytes is None {
            assert(sources[k - 1].bytes is None);
        }
    }
}

/// A build and the running program look for the same entry of the manifest; they differ only
/// in how the letters of its hash are made small.
pub proof fn law_the_same_entry_is_expected(
    entries: Seq<(Option<Seq<char>>, Option<Seq<char>>)>,
    name: Seq<char>,
    i: int,
)
    requires
        0 <= i <= entries.len(),
    ensures
        expected_ascii(entries, name, i) is Some <==> bundle::expected_from(entries, name, i) is Some,
        expected_ascii(entries, name, i) matches Some(x) ==> exists|h: Seq<char>|
            x == #[trigger] text::lower(h) && bundle::expected_from(entries, name, i) == Some(
                text::folded(h),
            ),
    decreases entries.len() - i,
{
    if i < entries.len() {
        law_the_same_entry_is_expected(entries, name, i + 1);
    }
}

proof fn version_total(a: Seq<u64>, b: Seq<u64>, i: int)
    requires
        0 <= i,
        i <= a.len(),
        i <= b.len(),
    ensures
        version_le_from(a, b, i) || version_le_from(b, a, i),
    decreases a.len() - i,
{
    if i < a.len() && i < b.len() && a[i] == b[i] {
        version_total(a, b, i + 1);
    }
}

proof fn version_chains(a: Seq<u64>, b: Seq<u64>, c: Seq<u64>, i: int)
    requires
        0 <= i,
        version_le_from(a, b, i),
        version_le_from(b, c, i),
    ensures
        version_le_from(a, c, i),
    decreases a.len() - i,
{
    if i < a.len() && i < b.len() && i < c.len() && a[i] == b[i] && b[i] == c[i] {
        version_chains(a, b, c, i + 1);
    }
}

/// Versions count as numbers, part by part: the first part that differs decides, and a
/// version that goes on is above one that ends.
pub proof fn law_versions_count_as_numbers(a: Seq<u64>, b: Seq<u64>, i: int)
    requires
        0 <= i <= a.len(),
        i <= b.len(),
        forall|k: int| 0 <= k < i ==> #[trigger] a[k] == b[k],
    ensures
        i < a.len() && i < b.len() && a[i] != b[i] ==> (version_le_from(a, b, 0) <==> a[i] < b[i]),
        i == a.len() ==> version_le_from(a, b, 0),
        i == b.len() && i < a.len() ==> !version_le_from(a, b, 0),
{
    equal_parts_skipped(a, b, 0, i);
}

proof fn equal_parts_skipped(a: Seq<u64>, b: Seq<u64>, from: int, i: int)
    requires
        0 <= from <= i <= a.len(),
        i <= b.len(),
        forall|k: int| 0 <= k < i ==> #[trigger] a[k] == b[k],
    ensures
        version_le_from(a, b, from) == version_le_from(a, b, i),
    decreases i - from,
{
    if from < i {
        assert(a[from] == b[from]);
        equal_parts_skipped(a, b, from + 1, i);
    }
}

/// A part of a version that is a number of 32 bits is that number; anything else is zero.
pub proof fn law_parts_of_versions(n: u64, s: Seq<char>)
    ensures
        n <= u32::MAX ==> version_part(text::decimal(n as nat)) == n,
        n > u32::MAX ==> version_part(text::decimal(n as nat)) == 0,
        text::parsed_u64(s) is None ==> version_part(s) == 0,
{
    text::law_parse_decimal(n);
}

/// The version that is taken exists, and none that exists is above it; where none exists,
/// none is taken.
pub proof fn law_the_newest_is_taken(names: Seq<Seq<char>>, exists: Seq<bool>, k: int, i: int)
    requires
        0 <= i < k <= names.len(),
        names.len() == exists.len(),
        k <= usize::MAX,
    ensures
        newest_upto(names, exists, k) is None ==> !exists[i],
        newest_upto(names, exists, k) matches Some(best) ==> best < k && exists[best as int] && (
        exists[i] ==> version_le(names[i], names[best as int])),
    decreases k,
{
    if i < k - 1 {
        law_the_newest_is_taken(names, exists, k - 1, i);
    } else if k > 1 {
        law_the_newest_is_taken(names, exists, k - 1, 0);
    } else {
        assert(newest_upto(names, exists, 0) is None);
    }
    let here = version_key(names[k - 1]);
    version_total(here, here, 0);
    match newest_upto(names, exists, k - 1) {
        None => {},
        Some(best) => {
            let old = version_key(names[best as int]);
            version_total(here, old, 0);
            if exists[k - 1] && version_le(names[best as int], names[k - 1]) && i < k - 1
                && exists[i] {
                version_chains(version_key(names[i]), old, here, 0);
            }
        },
    }
}

/// The mark of a bundle: its version and the first eight bytes of the first hash, where
/// there is one.
pub proof fn law_marks_of_bundles(v: Seq<char>, h: Seq<char>)
    ensures
        bundle_id(Some(v), None) == v,
        bundle_id(None, None) == "unknown"@,
        bundle_id(Some(v), Some(Seq::empty())) == v,
        text::start_in_bytes(h, 8).len() > 0 ==> bundle_id(Some(v), Some(h)) == v + "-"@
            + text::start_in_bytes(h, 8),
{
}

/// The mark of a bundle is read from its manifest: the member `version`, and the hash of the
/// first entry of the list `files`.
pub proof fn law_marks_are_read_from_the_manifest(j: JsonView, v: Seq<char>, list: Seq<JsonView>)
    requires
        json::member(j, "version"@) == Some(JsonView::Text(v)),
        json::member(j, "files"@) == Some(JsonView::List(list)),
    ensures
        list.len() == 0 ==> id_in(j) == v,
        list.len() > 0 ==> (json::member(list[0], "sha256"@) matches Some(JsonView::Text(h))
            ==> id_in(j) == bundle_id(Some(v), Some(h))),
        entries_in(j).len() == list.len(),
        forall|i: int|
            0 <= i < list.len() ==> #[trigger] entries_in(j)[i] == (
                json::as_text(json::member(list[i], "name"@)),
                json::as_text(json::member(list[i], "sha256"@)),
            ),
{
}

/// What is built is all or nothing: every file, where all are as the manifest says; nothing,
/// where one could not be read; and no bundle at all, where one is wrong.
pub proof fn law_bundles_are_whole(
    sources: Seq<Source>,
    entries: Seq<(Option<Seq<char>>, Option<Seq<char>>)>,
    manifest: Seq<char>,
    id: Seq<char>,
    r: Result<Bundle, EmbedError>,
)
    requires
        is_embedded(sources, entries, manifest, id, r),
        sources.len() <= usize::MAX,
        manifest.len() > 0,
        sources.len() > 0,
    ensures
        r matches Ok(b) ==> b.id@ == id && (b.files@.len() == sources.len() || b.files@.len() == 0),
        r matches Ok(b) ==> (bundle::is_available(b) <==> forall|i: int|
            0 <= i < sources.len() ==> ((#[trigger] sources[i]).bytes matches Some(c) && Some(
                built_hash(c@),
            ) == expected_ascii(entries, sources[i].name@, 0))),
        r matches Ok(b) ==> (bundle::is_available(b) ==> b.manifest@ == manifest),
        r matches Err(EmbedError::WrongHash(i)) ==> i < sources.len(),
        r matches Err(EmbedError::NoEntry(i)) ==> i < sources.len(),
{
    law_which_files_are_built_in(sources, entries, sources.len() as int);
}

} // verus!
