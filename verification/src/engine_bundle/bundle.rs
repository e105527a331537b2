//! What the program carries of the engine, and what its files must be.

use crate::hashing;
use crate::json;
use crate::json::{Json, JsonView};
use crate::text;
use vstd::prelude::*;

verus! {

/// What `sha2::Sha256::digest` gives for some bytes.
pub uninterp spec fn sha256_digest(bytes: Seq<u8>) -> Seq<u8>;

/// What a `flate2::read::ZlibDecoder` reads out of some bytes, if they can be read to
/// the end.
pub uninterp spec fn zlib_inflated(bytes: Seq<u8>) -> Option<Seq<u8>>;

/// The name and the hash of an entry of the manifest, where they are texts.
pub open spec fn entry_of(j: JsonView) -> (Option<Seq<char>>, Option<Seq<char>>) {
    (json::as_text(json::member(j, "name"@)), json::as_text(json::member(j, "sha256"@)))
}

/// The entries of the list `files` in a manifest. Nothing for a text that is no JSON, and
/// nothing inside for one without the list.
pub open spec fn manifest_files(s: Seq<char>) -> Option<
    Option<Seq<(Option<Seq<char>>, Option<Seq<char>>)>>,
> {
    match json::parsed_json(s) {
        None => None,
        Some(j) => match json::as_list(json::member(j, "files"@)) {
            None => Some(None),
            Some(v) => Some(Some(Seq::new(v.len(), |i: int| entry_of(v[i])))),
        },
    }
}

/// Calls `sha2::Sha256::digest`: the SHA-256 of the bytes, 32 bytes that depend on those
/// alone.
#[verifier::external_body]
fn digest(bytes: &Vec<u8>) -> (r: Vec<u8>)
    ensures
        r@ == sha256_digest(bytes@),
        r@.len() == 32,
{
    <sha2::Sha256 as sha2::Digest>::digest(bytes.as_slice()).to_vec()
}

/// Reads a `flate2::read::ZlibDecoder` over the bytes to its end: the content that was
/// compressed, or nothing where the bytes are not valid.
#[verifier::external_body]
pub(crate) fn inflate(bytes: &Vec<u8>) -> (r: Option<Vec<u8>>)
    ensures
        match r {
            Some(v) => zlib_inflated(bytes@) == Some(v@),
            None => zlib_inflated(bytes@) is None,
        },
{
    let mut out: Vec<u8> = Vec::new();
    let mut decoder = flate2::read::ZlibDecoder::new(bytes.as_slice());
    match std::io::Read::read_to_end(&mut decoder, &mut out) {
        Ok(_) => Some(out),
        Err(_) => None,
    }
}

/// An entry of the manifest.
#[derive(Debug)]
pub struct ManifestEntry {
    pub name: Option<String>,
    pub sha256: Option<String>,
}

/// Entries as characters.
pub open spec fn entry_views(v: Seq<ManifestEntry>) -> Seq<(Option<Seq<char>>, Option<Seq<char>>)> {
    Seq::new(v.len(), |i: int| (text::text_option(v[i].name), text::text_option(v[i].sha256)))
}

/// Reads the entries of a manifest: nothing for a text that is no JSON, and nothing inside
/// for one without the list `files`.
pub fn parse_manifest(s: &str) -> (r: Option<Option<Vec<ManifestEntry>>>)
    ensures
        match r {
            None => manifest_files(s@) is None,
            Some(None) => manifest_files(s@) == Some(
                None::<Seq<(Option<Seq<char>>, Option<Seq<char>>)>>,
            ),
            Some(Some(v)) => manifest_files(s@) == Some(Some(entry_views(v@))),
        },
{
    let value = match json::parse(s) {
        None => return None,
        Some(value) => value,
    };
    let list = match json::find(&value, "files") {
        Some(Json::List(list)) => list,
        _ => return Some(None),
    };
    proof {
        json::list_view_at(list@, list@.len());
    }
    let mut r: Vec<ManifestEntry> = Vec::new();
    let mut i: usize = 0;
    while i < list.len()
        invariant
            i <= list@.len(),
            r@.len() == i,
            forall|k: int|
                0 <= k < i ==> #[trigger] entry_views(r@)[k] == entry_of(
                    json::json_view(list@[k]),
                ),
        decreases list.len() - i,
    {
        let ghost before = r@;
        r.push(
            ManifestEntry {
                name: json::find_text(&list[i], "name"),
                sha256: json::find_text(&list[i], "sha256"),
            },
        );
        assert forall|k: int| 0 <= k <= i implies #[trigger] entry_views(r@)[k] == entry_of(
            json::json_view(list@[k]),
        ) by {
            if k < i {
                assert(entry_views(before)[k] == entry_of(json::json_view(list@[k])));
            }
        }
        i = i + 1;
    }
    let ghost views = json::list_view(list@, list@.len());
    assert(entry_views(r@) =~= Seq::new(views.len(), |k: int| entry_of(views[k])));
    Some(Some(r))
}

/// A file that the program carries, compressed.
#[derive(Debug)]
pub struct EngineFile {
    pub name: String,
    pub compressed: Vec<u8>,
}

/// What the program carries of the engine.
#[derive(Debug)]
pub struct Bundle {
    /// Version and start of a hash.
    pub id: String,
    /// The manifest as it was read.
    pub manifest: String,
    pub files: Vec<EngineFile>,
}

/// The hash of some bytes in lower-case hexadecimal.
pub open spec fn hash_text(bytes: Seq<u8>) -> Seq<char> {
    hashing::hex_text(sha256_digest(bytes))
}

/// Whether some bytes have the expected hash.
pub fn hash_matches(bytes: &Vec<u8>, expected: &str) -> (r: bool)
    ensures
        r == (hash_text(bytes@) == expected@),
{
    let d = digest(bytes);
    text::same(hashing::hex(&d).as_str(), expected)
}

/// The program carries the engine.
pub open spec fn is_available(b: Bundle) -> bool {
    b.files@.len() > 0 && b.manifest@.len() > 0
}

/// Whether the program carries the engine.
pub fn embedded_available(b: &Bundle) -> (r: bool)
    ensures
        r == is_available(*b),
{
    b.files.len() > 0 && !b.manifest.as_str().is_empty()
}

/// The directory that the engine is released to, below the state directory.
pub open spec fn dir_text(base: Seq<char>, id: Seq<char>) -> Seq<char> {
    base + "/engine/"@ + if id.len() == 0 {
        "unknown"@
    } else {
        id
    }
}

/// The directory that the engine is released to; none without a state directory.
pub fn embedded_dir(b: &Bundle, base: Option<&str>) -> (r: Option<String>)
    ensures
        match base {
            None => r is None,
            Some(dir) => r matches Some(s) && s@ == dir_text(dir@, b.id@),
        },
{
    match base {
        None => None,
        Some(dir) => {
            let mut s = dir.to_owned();
            s.append("/engine/");
            if b.id.as_str().is_empty() {
                s.append("unknown");
            } else {
                s.append(b.id.as_str());
            }
            Some(s)
        },
    }
}

/// The name of the engine's program.
pub fn engine_name(windows: bool) -> (r: &'static str)
    ensures
        r@ == (if windows {
            "7z.exe"@
        } else {
            "7zz"@
        }),
{
    if windows {
        "7z.exe"
    } else {
        "7zz"
    }
}

/// The hash that the first `k` entries give for a file: of the first one that is named
/// like it, whatever the case, and has a hash.
pub open spec fn expected_from(
    entries: Seq<(Option<Seq<char>>, Option<Seq<char>>)>,
    name: Seq<char>,
    i: int,
) -> Option<Seq<char>>
    decreases entries.len() - i,
{
    if i >= entries.len() {
        None
    } else {
        match entries[i] {
            (Some(n), Some(h)) => if text::lower(n) == text::lower(name) {
                Some(text::folded(h))
            } else {
                expected_from(entries, name, i + 1)
            },
            _ => expected_from(entries, name, i + 1),
        }
    }
}

/// The hash that the manifest gives for a file.
pub fn manifest_expectation(entries: &Vec<ManifestEntry>, name: &str) -> (r: Option<String>)
    ensures
        text::text_option(r) == expected_from(entry_views(entries@), name@, 0),
{
    let ghost all = entry_views(entries@);
    let mut i: usize = 0;
    while i < entries.len()
        invariant
            i <= entries@.len(),
            all == entry_views(entries@),
            expected_from(all, name@, 0) == expected_from(all, name@, i as int),
        decreases entries.len() - i,
    {
        let e = &entries[i];
        assert(all[i as int] == (text::text_option(e.name), text::text_option(e.sha256)));
        if let Some(n) = &e.name {
            if let Some(h) = &e.sha256 {
                if text::same_ignoring_case(n.as_str(), name) {
                    return Some(text::fold(h.as_str()));
                }
            }
        }
        i = i + 1;
    }
    None
}

/// The entries of a manifest; nothing where it cannot be used.
pub open spec fn usable_entries(manifest: Seq<char>) -> Option<
    Seq<(Option<Seq<char>>, Option<Seq<char>>)>,
> {
    match manifest_files(manifest) {
        Some(Some(v)) => Some(v),
        _ => None,
    }
}

/// The first `k` files that are carried, with the hash of each; nothing where one has
/// none.
pub open spec fn required_upto(
    files: Seq<EngineFile>,
    entries: Seq<(Option<Seq<char>>, Option<Seq<char>>)>,
    k: int,
) -> Option<Seq<(Seq<char>, Seq<char>)>>
    decreases k,
{
    if k <= 0 {
        Some(Seq::empty())
    } else {
        match (
            required_upto(files, entries, k - 1),
            expected_from(entries, files[k - 1].name@, 0),
        ) {
            (Some(v), Some(h)) => Some(v.push((files[k - 1].name@, h))),
            _ => None,
        }
    }
}

/// The files that a directory with the engine must hold, with their hashes; nothing
/// where the program does not carry the engine.
pub open spec fn required_of(b: Bundle) -> Option<Seq<(Seq<char>, Seq<char>)>> {
    if !is_available(b) {
        None
    } else {
        match usable_entries(b.manifest@) {
            None => None,
            Some(entries) => required_upto(b.files@, entries, b.files@.len() as int),
        }
    }
}

/// Names and hashes as characters.
pub open spec fn pair_views(v: Seq<(String, String)>) -> Seq<(Seq<char>, Seq<char>)> {
    Seq::new(v.len(), |i: int| (v[i].0@, v[i].1@))
}

proof fn required_stays_none(
    files: Seq<EngineFile>,
    entries: Seq<(Option<Seq<char>>, Option<Seq<char>>)>,
    k: int,
    n: int,
)
    requires
        0 <= k <= n,
        required_upto(files, entries, k) is None,
    ensures
        required_upto(files, entries, n) is None,
    decreases n,
{
    if k < n {
        required_stays_none(files, entries, k, n - 1);
    }
}

/// The files that the program carries and that the manifest gives a hash for, name by
/// name.
pub fn required_among(files: &Vec<EngineFile>, entries: &Vec<ManifestEntry>) -> (r: Option<
    Vec<(String, String)>,
>)
    ensures
        match r {
            Some(v) => required_upto(files@, entry_views(entries@), files@.len() as int) == Some(
                pair_views(v@),
            ),
            None => required_upto(files@, entry_views(entries@), files@.len() as int) is None,
        },
{
    let ghost all = entry_views(entries@);
    let mut out: Vec<(String, String)> = Vec::new();
    let mut i: usize = 0;
    assert(pair_views(out@) =~= Seq::<(Seq<char>, Seq<char>)>::empty());
    while i < files.len()
        invariant
            i <= files@.len(),
            all == entry_views(entries@),
            required_upto(files@, all, i as int) == Some(pair_views(out@)),
        decreases files.len() - i,
    {
        let name = files[i].name.as_str();
        match manifest_expectation(entries, name) {
            None => {
                proof {
                    required_stays_none(files@, all, i + 1, files@.len() as int);
                }
                return None;
            },
            Some(h) => {
                let ghost before = out@;
                let copy = name.to_owned();
                out.push((copy, h));
                assert(pair_views(out@) =~= pair_views(before).push((name@, h@)));
            },
        }
        i = i + 1;
    }
    Some(out)
}

/// The files that a directory with the engine must hold, with their hashes.
pub fn required_engine_files(b: &Bundle) -> (r: Option<Vec<(String, String)>>)
    ensures
        match r {
            Some(v) => required_of(*b) == Some(pair_views(v@)) && v@.len() > 0,
            None => required_of(*b) is None,
        },
{
    if !embedded_available(b) {
        return None;
    }
    match parse_manifest(b.manifest.as_str()) {
        Some(Some(entries)) => {
            let r = required_among(&b.files, &entries);
            proof {
                required_len(b.files@, entry_views(entries@), b.files@.len() as int);
                if r is Some {
                    assert(pair_views(r->0@).len() == r->0@.len());
                }
            }
            r
        },
        _ => None,
    }
}

proof fn required_len(
    files: Seq<EngineFile>,
    entries: Seq<(Option<Seq<char>>, Option<Seq<char>>)>,
    k: int,
)
    requires
        0 <= k,
    ensures
        required_upto(files, entries, k) matches Some(v) ==> v.len() == k,
    decreases k,
{
    if k > 0 {
        required_len(files, entries, k - 1);
    }
}

/// Reads a manifest: its entries, or what is wrong with it.
pub fn read_manifest(s: &str) -> (r: Result<Vec<ManifestEntry>, &'static str>)
    ensures
        match r {
            Ok(v) => manifest_files(s@) == Some(Some(entry_views(v@))),
            Err(e) => match manifest_files(s@) {
                None => e@ == "内嵌引擎清单无效"@,
                Some(x) => x is None && e@ == "内嵌引擎清单缺少 files 数组"@,
            },
        },
{
    match parse_manifest(s) {
        None => Err("内嵌引擎清单无效"),
        Some(None) => Err("内嵌引擎清单缺少 files 数组"),
        Some(Some(v)) => Ok(v),
    }
}

/// The hash of a file is that of the first entry that is named like it, whatever the case,
/// and has a hash; it counts in small letters. Entries without a name or a hash are passed
/// over.
pub proof fn law_which_hash_is_expected(
    entries: Seq<(Option<Seq<char>>, Option<Seq<char>>)>,
    name: Seq<char>,
    i: int,
)
    requires
        0 <= i <= entries.len(),
    ensures
        expected_from(entries, name, i) is None <==> forall|k: int|
            i <= k < entries.len() ==> !(#[trigger] entries[k] matches (Some(n), Some(_))
                && text::lower(n) == text::lower(name)),
        expected_from(entries, name, i) matches Some(x) ==> exists|k: int|
            i <= k < entries.len() && ((#[trigger] entries[k]) matches (Some(n), Some(h))
                && text::lower(n) == text::lower(name) && x == text::folded(h)) && forall|j: int|
                i <= j < k ==> !(#[trigger] entries[j] matches (Some(n), Some(_)) && text::lower(n)
                    == text::lower(name)),
    decreases entries.len() - i,
{
    if i < entries.len() {
        law_which_hash_is_expected(entries, name, i + 1);
        let here = entries[i] matches (Some(n), Some(_)) && text::lower(n) == text::lower(name);
        if here {
            assert(entries[i] matches (Some(n), Some(_)) && text::lower(n) == text::lower(name));
        } else if expected_from(entries, name, i + 1) is Some {
            let x = expected_from(entries, name, i + 1)->0;
            let k = choose|k: int|
                i + 1 <= k < entries.len() && ((#[trigger] entries[k]) matches (Some(n), Some(h))
                    && text::lower(n) == text::lower(name) && x == text::folded(h)) && forall|
                    j: int,
                |
                    i + 1 <= j < k ==> !(#[trigger] entries[j] matches (Some(n), Some(_))
                        && text::lower(n) == text::lower(name));
            assert(entries[k] matches (Some(n), Some(h)) && text::lower(n) == text::lower(name) && x
                == text::folded(h));
        }
    }
}

/// A directory with the engine must hold every file that the program carries, each with the
/// hash that the manifest gives for it; a file without one makes the manifest useless.
pub proof fn law_every_carried_file_is_required(
    files: Seq<EngineFile>,
    entries: Seq<(Option<Seq<char>>, Option<Seq<char>>)>,
    k: int,
    i: int,
)
    requires
        0 <= i < k,
    ensures
        required_upto(files, entries, k) matches Some(v) ==> v.len() == k && v[i].0
            == files[i].name@ && Some(v[i].1) == expected_from(entries, files[i].name@, 0),
        expected_from(entries, files[i].name@, 0) is None ==> required_upto(files, entries, k) is None,
        (forall|t: int|
            0 <= t < k ==> expected_from(entries, (#[trigger] files[t]).name@, 0) is Some)
            ==> required_upto(files, entries, k) is Some,
    decreases k,
{
    required_len(files, entries, k - 1);
    if i < k - 1 {
        law_every_carried_file_is_required(files, entries, k - 1, i);
    } else if k > 1 {
        law_every_carried_file_is_required(files, entries, k - 1, 0);
    }
    if forall|t: int|
        0 <= t < k ==> expected_from(entries, (#[trigger] files[t]).name@, 0) is Some {
        assert(expected_from(entries, files[k - 1].name@, 0) is Some);
    }
}

/// The engine is carried where there are files and a manifest; it is released below the
/// state directory, under the mark of the bundle.
pub proof fn law_where_the_engine_is_released(b: Bundle, base: Seq<char>, id: Seq<char>)
    ensures
        is_available(b) <==> b.files@.len() > 0 && b.manifest@.len() > 0,
        id.len() > 0 ==> dir_text(base, id) == base + "/engine/"@ + id,
        dir_text(base, Seq::empty()) == base + "/engine/"@ + "unknown"@,
        required_of(b) is Some ==> is_available(b),
{
}

} // verus!
