//! The volumes of an archive: how their names follow from the first one, which
//! neighbours may belong to it, and what the engine reports of them.

use crate::text;
use vstd::prelude::*;

verus! {

/// How the volumes of an archive are named.
#[derive(Clone, Copy, Debug, PartialEq, Eq, Structural)]
pub enum VolumeScheme {
    Single,
    RarParts,
    Numbered,
    OldRar,
    SplitZip,
}

/// Why the volumes of an archive could not be settled.
#[derive(Clone, Copy, Debug, PartialEq, Eq, Structural)]
pub enum VolumeError {
    /// The engine's format does not go with the naming.
    Incompatible,
    /// A RAR volume number has no name.
    OutOfRange,
    /// The volume with this number is not accessible.
    Inaccessible(usize),
    /// The volume with this number is no regular file.
    NotRegular(usize),
    /// A neighbour could not be examined.
    Unreadable,
    /// The engine gave a volume count that is no number.
    BadCount,
    /// The engine gave a volume count of zero.
    ZeroCount,
    /// The archive has several volumes and the engine did not say how many.
    NoTrustedCount,
}

/// What the engine reports of the volumes of an archive.
#[derive(Debug)]
pub struct ArchiveVolumes {
    pub kind: String,
    pub count: usize,
    pub new_rar_names: bool,
}

/// The part in front of `.partN.rar`, in a lower-case name.
pub open spec fn part_stem(name: Seq<char>) -> Option<Seq<char>> {
    if !text::has_suffix(name, ".rar"@) {
        None
    } else {
        match text::rcut_once(name.subrange(0, name.len() - ".rar"@.len()), ".part"@) {
            Some((stem, part)) => if part.len() > 0 && text::all_digits(part) {
                Some(stem)
            } else {
                None
            },
            None => None,
        }
    }
}

/// Whether all characters are digits.
fn only_digits(s: &str) -> (r: bool)
    ensures
        r == text::all_digits(s@),
{
    let v = text::chars_of(s);
    let mut i: usize = 0;
    while i < v.len()
        invariant
            v@ == s@,
            i <= v@.len(),
            forall|k: int| 0 <= k < i ==> text::is_digit(#[trigger] s@[k]),
        decreases v.len() - i,
    {
        if !text::digit(v[i]) {
            assert(!text::is_digit(s@[i as int]));
            return false;
        }
        i = i + 1;
    }
    true
}

/// The stem of a new-style RAR volume; `report.partial.rar` is none.
pub fn rar_part_stem(name: &str) -> (r: Option<String>)
    ensures
        text::text_option(r) == part_stem(name@),
{
    let base = match text::strip_suffix(name, ".rar") {
        Some(base) => base,
        None => return None,
    };
    match text::rsplit_once(base.as_str(), ".part") {
        Some((stem, part)) => {
            if !part.as_str().is_empty() && only_digits(part.as_str()) {
                Some(stem)
            } else {
                None
            }
        },
        None => None,
    }
}

/// The stem and the naming of an archive, by its name in lower case.
pub open spec fn naming(name: Seq<char>) -> (Seq<char>, VolumeScheme) {
    match part_stem(name) {
        Some(stem) => (stem, VolumeScheme::RarParts),
        None => if text::has_suffix(name, ".7z.001"@) || text::has_suffix(name, ".zip.001"@) {
            (name.subrange(0, name.len() - 4), VolumeScheme::Numbered)
        } else if text::has_suffix(name, ".rar"@) {
            (name.subrange(0, name.len() - ".rar"@.len()), VolumeScheme::OldRar)
        } else if text::has_suffix(name, ".zip"@) {
            (name.subrange(0, name.len() - ".zip"@.len()), VolumeScheme::SplitZip)
        } else {
            (Seq::empty(), VolumeScheme::Single)
        },
    }
}

/// `candidate` is `prefix` and at least `min` digits.
pub open spec fn is_numbered(candidate: Seq<char>, prefix: Seq<char>, min: nat) -> bool {
    &&& text::has_prefix(candidate, prefix)
    &&& candidate.len() - prefix.len() >= min
    &&& text::all_digits(candidate.subrange(prefix.len() as int, candidate.len() as int))
}

/// A name in lower case belongs to the volumes with this stem and naming.
pub open spec fn is_sibling(stem: Seq<char>, scheme: VolumeScheme, candidate: Seq<char>) -> bool {
    match scheme {
        VolumeScheme::RarParts => part_stem(candidate) == Some(stem),
        VolumeScheme::Numbered => is_numbered(candidate, stem + "."@, 3),
        VolumeScheme::OldRar => is_numbered(candidate, stem + ".r"@, 2),
        VolumeScheme::SplitZip => is_numbered(candidate, stem + ".z"@, 2),
        VolumeScheme::Single => false,
    }
}

/// The naming of an archive, by its name in lower case.
pub fn scheme_of(name: &str) -> (r: (String, VolumeScheme))
    ensures
        (r.0@, r.1) == naming(name@),
{
    proof {
        reveal_strlit(".7z.001");
        reveal_strlit(".zip.001");
    }
    if let Some(stem) = rar_part_stem(name) {
        return (stem, VolumeScheme::RarParts);
    }
    if text::ends_with(name, ".7z.001") || text::ends_with(name, ".zip.001") {
        let v = text::chars_of(name);
        return (text::string_of(&v, 0, v.len() - 4), VolumeScheme::Numbered);
    }
    if let Some(stem) = text::strip_suffix(name, ".rar") {
        return (stem, VolumeScheme::OldRar);
    }
    if let Some(stem) = text::strip_suffix(name, ".zip") {
        return (stem, VolumeScheme::SplitZip);
    }
    let empty = String::new();
    assert(empty@ =~= Seq::<char>::empty());
    (empty, VolumeScheme::Single)
}

/// Whether `candidate` is the stem, a separator and at least `min` digits.
fn numbered(candidate: &str, stem: &str, sep: &str, min: usize) -> (r: bool)
    ensures
        r == is_numbered(candidate@, stem@ + sep@, min as nat),
{
    let mut prefix = stem.to_owned();
    prefix.append(sep);
    match text::strip_prefix(candidate, prefix.as_str()) {
        Some(digits) => digits.as_str().unicode_len() >= min && only_digits(digits.as_str()),
        None => false,
    }
}

/// Whether a name in lower case belongs to the volumes with this stem.
pub fn matches_candidate(stem: &str, scheme: VolumeScheme, candidate: &str) -> (r: bool)
    ensures
        r == is_sibling(stem@, scheme, candidate@),
{
    match scheme {
        VolumeScheme::RarParts => match rar_part_stem(candidate) {
            Some(s) => text::same(s.as_str(), stem),
            None => false,
        },
        VolumeScheme::Numbered => numbered(candidate, stem, ".", 3),
        VolumeScheme::OldRar => numbered(candidate, stem, ".r", 2),
        VolumeScheme::SplitZip => numbered(candidate, stem, ".z", 2),
        VolumeScheme::Single => false,
    }
}

/// What a directory entry is.
#[derive(Clone, Copy, Debug, PartialEq, Eq, Structural)]
pub enum EntryKind {
    File,
    Other,
    Unreadable,
}

/// A directory entry beside an archive.
#[derive(Debug)]
pub struct Neighbour {
    pub name: String,
    pub kind: EntryKind,
}

/// The archive and the neighbours that may be volumes of it.
#[derive(Debug)]
pub struct VolumeSet {
    pub names: Vec<String>,
    pub scheme: VolumeScheme,
}

/// The neighbour is a candidate for a volume of the archive `name`.
pub open spec fn is_candidate(name: Seq<char>, n: Neighbour) -> bool {
    let (stem, scheme) = naming(text::folded(name));
    is_sibling(stem, scheme, text::folded(n.name@)) && n.name@ != name
}

/// The archive itself and, in order, the neighbours that are candidates and
/// regular files; an error where one of the candidates cannot be examined.
pub open spec fn group_of(name: Seq<char>, around: Seq<Neighbour>) -> Result<
    Seq<Seq<char>>,
    VolumeError,
>
    decreases around.len(),
{
    if around.len() == 0 {
        Ok(seq![name])
    } else {
        match group_of(name, around.drop_last()) {
            Err(e) => Err(e),
            Ok(found) => if !is_candidate(name, around.last()) {
                Ok(found)
            } else {
                match around.last().kind {
                    EntryKind::File => Ok(found.push(around.last().name@)),
                    EntryKind::Other => Ok(found),
                    EntryKind::Unreadable => Err(VolumeError::Unreadable),
                }
            },
        }
    }
}

/// An error stays when more neighbours follow.
proof fn group_error_stays(name: Seq<char>, around: Seq<Neighbour>, n: int, e: VolumeError)
    requires
        0 <= n <= around.len(),
        group_of(name, around.take(n)) == Err::<Seq<Seq<char>>, VolumeError>(e),
    ensures
        group_of(name, around) == Err::<Seq<Seq<char>>, VolumeError>(e),
    decreases around.len(),
{
    if n < around.len() {
        assert(around.drop_last().take(n) =~= around.take(n));
        group_error_stays(name, around.drop_last(), n, e);
    } else {
        assert(around.take(n) =~= around);
    }
}

/// A single-volume name has no candidates.
proof fn single_has_no_group(name: Seq<char>, around: Seq<Neighbour>)
    requires
        naming(text::folded(name)).1 == VolumeScheme::Single,
    ensures
        group_of(name, around) == Ok::<Seq<Seq<char>>, VolumeError>(seq![name]),
    decreases around.len(),
{
    if around.len() > 0 {
        single_has_no_group(name, around.drop_last());
    }
}

/// The archive with the neighbours that its naming makes candidates. The group
/// serves reversible handling; deleting needs the volumes that the engine
/// confirms.
pub fn volume_set(name: &str, around: &Vec<Neighbour>) -> (r: Result<VolumeSet, VolumeError>)
    ensures
        match r {
            Ok(set) => {
                &&& group_of(name@, around@) == Ok::<Seq<Seq<char>>, VolumeError>(
                    text::texts(set.names@),
                )
                &&& set.scheme == naming(text::folded(name@)).1
            },
            Err(e) => group_of(name@, around@) == Err::<Seq<Seq<char>>, VolumeError>(e),
        },
{
    let lower = text::fold(name);
    let (stem, scheme) = scheme_of(lower.as_str());
    let mut names: Vec<String> = Vec::new();
    names.push(name.to_owned());
    assert(text::texts(names@) =~= seq![name@]);
    if matches!(scheme, VolumeScheme::Single) {
        proof {
            single_has_no_group(name@, around@);
        }
        return Ok(VolumeSet { names, scheme });
    }
    let mut i: usize = 0;
    assert(around@.take(0) =~= Seq::<Neighbour>::empty());
    while i < around.len()
        invariant
            (stem@, scheme) == naming(text::folded(name@)),
            i <= around@.len(),
            group_of(name@, around@.take(i as int)) == Ok::<Seq<Seq<char>>, VolumeError>(
                text::texts(names@),
            ),
        decreases around.len() - i,
    {
        proof {
            assert(around@.take(i + 1).drop_last() =~= around@.take(i as int));
            assert(around@.take(i + 1).last() == around@[i as int]);
        }
        let candidate = text::fold(around[i].name.as_str());
        if matches_candidate(stem.as_str(), scheme, candidate.as_str()) && !text::same(
            around[i].name.as_str(),
            name,
        ) {
            match around[i].kind {
                EntryKind::File => {
                    let ghost before = names@;
                    names.push(around[i].name.clone());
                    assert(text::texts(names@) =~= text::texts(before).push(
                        around@[i as int].name@,
                    ));
                },
                EntryKind::Other => {},
                EntryKind::Unreadable => {
                    proof {
                        group_error_stays(name@, around@, i + 1, VolumeError::Unreadable);
                    }
                    return Err(VolumeError::Unreadable);
                },
            }
        }
        i = i + 1;
    }
    assert(around@.take(i as int) =~= around@);
    Ok(VolumeSet { names, scheme })
}

/// The digit string that follows: its value is one more.
pub open spec fn incremented(d: Seq<char>) -> Seq<char>
    decreases d.len(),
{
    if d.len() == 0 {
        seq!['1']
    } else if d.last() == '9' {
        incremented(d.drop_last()).push('0')
    } else {
        d.drop_last().push(((d.last() as u32 + 1) as u32) as char)
    }
}

/// The digit string after `n` steps.
pub open spec fn advanced(d: Seq<char>, n: nat) -> Seq<char>
    decreases n,
{
    if n == 0 {
        d
    } else {
        incremented(advanced(d, (n - 1) as nat))
    }
}

/// Counting on keeps the digits digits, adds one to their value and never
/// shortens them.
pub proof fn law_incremented(d: Seq<char>)
    requires
        text::all_digits(d),
    ensures
        text::all_digits(incremented(d)),
        text::digits_value(incremented(d)) == text::digits_value(d) + 1,
        d.len() <= incremented(d).len() <= d.len() + 1,
    decreases d.len(),
{
    if d.len() == 0 {
        assert(seq!['1'].drop_last() =~= Seq::<char>::empty());
        assert(text::digits_value(seq!['1'].drop_last()) == 0);
    } else {
        let head = d.drop_last();
        assert(text::is_digit(d[d.len() - 1]));
        assert forall|i: int| 0 <= i < head.len() implies text::is_digit(#[trigger] head[i]) by {
            assert(text::is_digit(d[i]));
        }
        if d.last() == '9' {
            law_incremented(head);
            assert(incremented(d).drop_last() =~= incremented(head));
        } else {
            let c = ((d.last() as u32 + 1) as u32) as char;
            assert(c as u32 == d.last() as u32 + 1);
            assert(incremented(d).drop_last() =~= head);
        }
    }
}

/// Where the last run of digits in `s` ends; 0 when there is none.
pub open spec fn run_end(s: Seq<char>) -> int
    decreases s.len(),
{
    if s.len() == 0 || text::is_digit(s.last()) {
        s.len() as int
    } else {
        run_end(s.drop_last())
    }
}

/// Where the run of digits at the end of `s` starts.
pub open spec fn run_start(s: Seq<char>) -> int
    decreases s.len(),
{
    if s.len() == 0 || !text::is_digit(s.last()) {
        s.len() as int
    } else {
        run_start(s.drop_last())
    }
}

/// A number that is the code of a character.
pub open spec fn is_char_code(n: int) -> bool {
    0 <= n < 0xd800 || 0xdfff < n <= 0x10ffff
}

/// The format goes with the naming.
pub open spec fn is_compatible(scheme: VolumeScheme, kind: Seq<char>) -> bool {
    let k = text::lower(kind);
    match scheme {
        VolumeScheme::RarParts | VolumeScheme::OldRar => k == "rar"@ || k == "rar5"@,
        VolumeScheme::Numbered => k == "split"@,
        VolumeScheme::SplitZip => k == "zip"@,
        VolumeScheme::Single => false,
    }
}

/// The RAR archive counts its volumes in the last number of the name.
pub open spec fn has_new_names(kind: Seq<char>, new_rar_names: bool) -> bool {
    new_rar_names || text::lower(kind) == "rar5"@
}

/// The name of the volume with the given number, counted from 0, for the
/// archive `name` with a four-character ending.
pub open spec fn volume_text(
    scheme: VolumeScheme,
    name: Seq<char>,
    kind: Seq<char>,
    new_rar_names: bool,
    index: nat,
) -> Result<Seq<char>, VolumeError> {
    let base = name.take(name.len() - 4);
    match scheme {
        VolumeScheme::RarParts | VolumeScheme::OldRar => {
            let end = run_end(base);
            if has_new_names(kind, new_rar_names) && end > 0 {
                let start = run_start(base.take(end));
                Ok(
                    name.take(start) + advanced(name.subrange(start, end), index) + name.skip(end),
                )
            } else {
                let code = 'r' as u32 + (index - 1) / 100;
                if is_char_code(code) {
                    Ok(base + "."@ + seq![code as char] + text::padded(((index - 1) % 100) as nat, 2))
                } else {
                    Err(VolumeError::OutOfRange)
                }
            }
        },
        VolumeScheme::Numbered => Ok(base + "."@ + text::padded(index + 1, 3)),
        VolumeScheme::SplitZip => Ok(base + ".z"@ + text::padded(index, 2)),
        VolumeScheme::Single => Err(VolumeError::Incompatible),
    }
}

/// Calls `char::from_u32`: the character with the code, where there is one.
#[verifier::external_body]
fn char_of_code(code: u32) -> (r: Option<char>)
    ensures
        match r {
            Some(c) => is_char_code(code as int) && c == code as char,
            None => !is_char_code(code as int),
        },
{
    char::from_u32(code)
}

/// Adds one to a digit string.
fn increment(digits: &mut Vec<char>)
    requires
        text::all_digits(old(digits)@),
    ensures
        final(digits)@ == incremented(old(digits)@),
        text::all_digits(final(digits)@),
{
    let ghost start = digits@;
    proof {
        law_incremented(start);
    }
    let mut i: usize = digits.len();
    let mut tail: Vec<char> = Vec::new();
    assert(start.take(i as int) =~= start);
    assert(incremented(start) =~= incremented(start.take(i as int)) + zero_tail(0));
    while i > 0 && digits[i - 1] == '9'
        invariant
            i <= start.len(),
            digits@ == start.take(i as int) + tail@,
            tail@ == zero_tail((start.len() - i) as nat),
            incremented(start) == incremented(start.take(i as int)) + tail@,
            digits@.len() == start.len(),
        decreases i,
    {
        let ghost head = start.take(i as int);
        assert(head.last() == '9');
        assert(head.drop_last() =~= start.take(i - 1));
        digits.set(i - 1, '0');
        tail.push('0');
        i = i - 1;
        assert(tail@ =~= zero_tail((start.len() - i) as nat));
        assert(incremented(head) =~= incremented(start.take(i as int)).push('0'));
        assert(incremented(start) =~= incremented(start.take(i as int)) + tail@);
        assert(digits@ =~= start.take(i as int) + tail@);
    }
    let ghost head = start.take(i as int);
    if i == 0 {
        assert(head =~= Seq::<char>::empty());
        digits.insert(0, '1');
        assert(digits@ =~= incremented(head) + tail@);
    } else {
        let c: char = digits[i - 1];
        assert(c == start[i - 1]);
        assert(text::is_digit(start[i - 1]));
        let next: char = (c as u8 + 1) as char;
        digits.set(i - 1, next);
        assert(head.last() == c);
        assert(incremented(head) =~= head.drop_last().push(next));
        assert(digits@ =~= incremented(head) + tail@);
    }
}

/// That many zeros.
spec fn zero_tail(n: nat) -> Seq<char> {
    Seq::new(n, |i: int| '0')
}

/// The last run of digits among the first `to` characters: start and end.
fn last_run(v: &Vec<char>, to: usize) -> (r: (usize, usize))
    requires
        to <= v@.len(),
    ensures
        r.1 == run_end(v@.take(to as int)),
        r.1 > 0 ==> r.0 == run_start(v@.take(r.1 as int)),
        r.0 <= r.1 <= to,
        forall|k: int| r.0 <= k < r.1 ==> text::is_digit(#[trigger] v@[k]),
{
    let mut end: usize = to;
    while end > 0 && !text::digit(v[end - 1])
        invariant
            end <= to <= v@.len(),
            run_end(v@.take(to as int)) == run_end(v@.take(end as int)),
        decreases end,
    {
        assert(v@.take(end as int).drop_last() =~= v@.take(end - 1));
        end = end - 1;
    }
    let mut start: usize = end;
    while start > 0 && text::digit(v[start - 1])
        invariant
            start <= end <= to <= v@.len(),
            run_start(v@.take(end as int)) == run_start(v@.take(start as int)),
            forall|k: int| start <= k < end ==> text::is_digit(#[trigger] v@[k]),
        decreases start,
    {
        assert(v@.take(start as int).drop_last() =~= v@.take(start - 1));
        start = start - 1;
    }
    (start, end)
}

/// Counting on adds the number of steps.
pub proof fn law_advanced(d: Seq<char>, n: nat)
    requires
        text::all_digits(d),
    ensures
        text::all_digits(advanced(d, n)),
        text::digits_value(advanced(d, n)) == text::digits_value(d) + n,
    decreases n,
{
    if n > 0 {
        law_advanced(d, (n - 1) as nat);
        law_incremented(advanced(d, (n - 1) as nat));
    }
}

/// The name of the volume with the given number.
pub fn volume_name(scheme: VolumeScheme, name: &str, info: &ArchiveVolumes, index: usize) -> (r:
    Result<String, VolumeError>)
    requires
        name@.len() >= 4,
        1 <= index < usize::MAX,
    ensures
        match r {
            Ok(s) => volume_text(scheme, name@, info.kind@, info.new_rar_names, index as nat)
                == Ok::<Seq<char>, VolumeError>(s@),
            Err(e) => volume_text(scheme, name@, info.kind@, info.new_rar_names, index as nat)
                == Err::<Seq<char>, VolumeError>(e),
        },
{
    let v = text::chars_of(name);
    let n: usize = v.len();
    let ghost base = name@.take(name@.len() - 4);
    let mut r = text::string_of(&v, 0, n - 4);
    assert(r@ =~= base);
    match scheme {
        VolumeScheme::RarParts | VolumeScheme::OldRar => {
            let (start, end) = last_run(&v, n - 4);
            let new_names = info.new_rar_names || text::same(
                text::lower_text(info.kind.as_str()).as_str(),
                "rar5",
            );
            if new_names && end > 0 {
                assert(base.take(end as int) =~= v@.take(end as int));
                let mut digits: Vec<char> = Vec::new();
                let mut i: usize = start;
                while i < end
                    invariant
                        start <= i <= end <= v@.len(),
                        digits@ == v@.subrange(start as int, i as int),
                        forall|k: int| start <= k < end ==> text::is_digit(#[trigger] v@[k]),
                    decreases end - i,
                {
                    digits.push(v[i]);
                    i = i + 1;
                    assert(digits@ =~= v@.subrange(start as int, i as int));
                }
                let ghost first = digits@;
                assert forall|k: int| 0 <= k < first.len() implies text::is_digit(
                    #[trigger] first[k],
                ) by {
                    assert(first[k] == v@[start + k]);
                }
                let mut k: usize = 0;
                while k < index
                    invariant
                        k <= index,
                        text::all_digits(digits@),
                        digits@ == advanced(first, k as nat),
                    decreases index - k,
                {
                    increment(&mut digits);
                    k = k + 1;
                }
                let mut out = text::string_of(&v, 0, start);
                let middle = text::string_of(&digits, 0, digits.len());
                let tail = text::string_of(&v, end, n);
                assert(middle@ =~= digits@);
                assert(tail@ =~= v@.skip(end as int));
                assert(out@ =~= v@.take(start as int));
                out.append(middle.as_str());
                out.append(tail.as_str());
                Ok(out)
            } else {
                let step: usize = (index - 1) / 100;
                let code: u32 = if step <= 0x11_0000 {
                    step as u32 + 114
                } else {
                    0x11_0000
                };
                match char_of_code(code) {
                    Some(letter) => {
                        r.append(".");
                        let ghost dotted = r@;
                        r.push(letter);
                        assert(r@ =~= dotted + seq![letter]);
                        r.append(text::padded_number(((index - 1) % 100) as u64, 2).as_str());
                        Ok(r)
                    },
                    None => Err(VolumeError::OutOfRange),
                }
            }
        },
        VolumeScheme::Numbered => {
            r.append(".");
            r.append(text::padded_number(index as u64 + 1, 3).as_str());
            Ok(r)
        },
        VolumeScheme::SplitZip => {
            r.append(".z");
            r.append(text::padded_number(index as u64, 2).as_str());
            Ok(r)
        },
        VolumeScheme::Single => Err(VolumeError::Incompatible),
    }
}

/// What stands on the disk under the name of a volume.
#[derive(Clone, Copy, Debug, PartialEq, Eq, Structural)]
pub enum VolumeProbe {
    Regular,
    NotRegular,
    Inaccessible,
}

/// What was found for the volume with the given number; what was not looked at
/// counts as not accessible.
pub open spec fn probe_at(probes: Seq<VolumeProbe>, index: nat) -> VolumeProbe {
    if 1 <= index <= probes.len() {
        probes[index - 1]
    } else {
        VolumeProbe::Inaccessible
    }
}

/// The names of the first `count` volumes, each of which has to be a regular
/// file; an error at the first one that is not.
pub open spec fn volumes_upto(
    scheme: VolumeScheme,
    name: Seq<char>,
    kind: Seq<char>,
    new_rar_names: bool,
    probes: Seq<VolumeProbe>,
    count: nat,
) -> Result<Seq<Seq<char>>, VolumeError>
    decreases count,
{
    if count <= 1 {
        Ok(seq![name])
    } else {
        let index = (count - 1) as nat;
        match volumes_upto(scheme, name, kind, new_rar_names, probes, index) {
            Err(e) => Err(e),
            Ok(names) => match volume_text(scheme, name, kind, new_rar_names, index) {
                Err(e) => Err(e),
                Ok(next) => match probe_at(probes, index) {
                    VolumeProbe::Inaccessible => Err(VolumeError::Inaccessible(index as usize)),
                    VolumeProbe::NotRegular => Err(VolumeError::NotRegular(index as usize)),
                    VolumeProbe::Regular => Ok(names.push(next)),
                },
            },
        }
    }
}

/// The volumes that the engine opened.
pub open spec fn actual_volumes(
    scheme: VolumeScheme,
    name: Seq<char>,
    info: ArchiveVolumes,
    probes: Seq<VolumeProbe>,
) -> Result<Seq<Seq<char>>, VolumeError> {
    if info.count == 1 {
        Ok(seq![name])
    } else if !is_compatible(scheme, info.kind@) {
        Err(VolumeError::Incompatible)
    } else {
        volumes_upto(scheme, name, info.kind@, info.new_rar_names, probes, info.count as nat)
    }
}

/// An error among the first volumes stays.
proof fn volume_error_stays(
    scheme: VolumeScheme,
    name: Seq<char>,
    kind: Seq<char>,
    new_rar_names: bool,
    probes: Seq<VolumeProbe>,
    n: nat,
    count: nat,
    e: VolumeError,
)
    requires
        n <= count,
        volumes_upto(scheme, name, kind, new_rar_names, probes, n) == Err::<
            Seq<Seq<char>>,
            VolumeError,
        >(e),
    ensures
        volumes_upto(scheme, name, kind, new_rar_names, probes, count) == Err::<
            Seq<Seq<char>>,
            VolumeError,
        >(e),
    decreases count,
{
    if n < count {
        volume_error_stays(
            scheme,
            name,
            kind,
            new_rar_names,
            probes,
            n,
            (count - 1) as nat,
            e,
        );
    }
}

impl VolumeScheme {
    fn compatible(self, kind: &str) -> (r: bool)
        ensures
            r == is_compatible(self, kind@),
    {
        let k = text::lower_text(kind);
        let k = k.as_str();
        match self {
            VolumeScheme::RarParts | VolumeScheme::OldRar => text::same(k, "rar") || text::same(
                k,
                "rar5",
            ),
            VolumeScheme::Numbered => text::same(k, "split"),
            VolumeScheme::SplitZip => text::same(k, "zip"),
            VolumeScheme::Single => false,
        }
    }

    /// The names of the volumes that the engine opened for the archive `name`.
    /// `probes[k]` is what stands under the name of volume `k + 1`.
    pub fn actual_paths(
        self,
        name: &str,
        info: &ArchiveVolumes,
        probes: &Vec<VolumeProbe>,
    ) -> (r: Result<Vec<String>, VolumeError>)
        requires
            info.count >= 1,
            info.count > 1 && self != VolumeScheme::Single ==> name@.len() >= 4,
        ensures
            match r {
                Ok(names) => actual_volumes(self, name@, *info, probes@) == Ok::<
                    Seq<Seq<char>>,
                    VolumeError,
                >(text::texts(names@)),
                Err(e) => actual_volumes(self, name@, *info, probes@) == Err::<
                    Seq<Seq<char>>,
                    VolumeError,
                >(e),
            },
    {
        let mut names: Vec<String> = Vec::new();
        names.push(name.to_owned());
        assert(text::texts(names@) =~= seq![name@]);
        if info.count == 1 {
            return Ok(names);
        }
        if !self.compatible(info.kind.as_str()) {
            return Err(VolumeError::Incompatible);
        }
        let mut index: usize = 1;
        while index < info.count
            invariant
                1 <= index <= info.count,
                name@.len() >= 4,
                volumes_upto(
                    self,
                    name@,
                    info.kind@,
                    info.new_rar_names,
                    probes@,
                    index as nat,
                ) == Ok::<Seq<Seq<char>>, VolumeError>(text::texts(names@)),
                actual_volumes(self, name@, *info, probes@) == volumes_upto(
                    self,
                    name@,
                    info.kind@,
                    info.new_rar_names,
                    probes@,
                    info.count as nat,
                ),
            decreases info.count - index,
        {
            let ghost failed = volumes_upto(
                self,
                name@,
                info.kind@,
                info.new_rar_names,
                probes@,
                (index + 1) as nat,
            );
            proof {
                if failed is Err {
                    volume_error_stays(
                        self,
                        name@,
                        info.kind@,
                        info.new_rar_names,
                        probes@,
                        (index + 1) as nat,
                        info.count as nat,
                        failed->Err_0,
                    );
                }
            }
            let next = match volume_name(self, name, info, index) {
                Ok(next) => next,
                Err(e) => return Err(e),
            };
            let probe = if index <= probes.len() {
                probes[index - 1]
            } else {
                VolumeProbe::Inaccessible
            };
            match probe {
                VolumeProbe::Inaccessible => return Err(VolumeError::Inaccessible(index)),
                VolumeProbe::NotRegular => return Err(VolumeError::NotRegular(index)),
                VolumeProbe::Regular => {},
            }
            let ghost before = names@;
            names.push(next);
            assert(text::texts(names@) =~= text::texts(before).push(next@));
            index = index + 1;
        }
        Ok(names)
    }
}

/// The confirmed volumes are as many as the engine counted, and the archive is
/// the first of them.
pub proof fn law_actual_count(
    scheme: VolumeScheme,
    name: Seq<char>,
    kind: Seq<char>,
    new_rar_names: bool,
    probes: Seq<VolumeProbe>,
    count: nat,
)
    requires
        count >= 1,
        volumes_upto(scheme, name, kind, new_rar_names, probes, count) is Ok,
    ensures
        ({
            let names = volumes_upto(scheme, name, kind, new_rar_names, probes, count)->Ok_0;
            names.len() == count && names[0] == name
        }),
        forall|k: nat| 1 <= k < count ==> #[trigger] probe_at(probes, k) == VolumeProbe::Regular,
    decreases count,
{
    if count > 1 {
        law_actual_count(scheme, name, kind, new_rar_names, probes, (count - 1) as nat);
    }
}

/// The sum of the sizes, at most `u64::MAX`.
pub open spec fn capped_sum(sizes: Seq<u64>) -> int
    decreases sizes.len(),
{
    if sizes.len() == 0 {
        0
    } else {
        let sum = capped_sum(sizes.drop_last()) + sizes.last();
        if sum <= u64::MAX {
            sum
        } else {
            u64::MAX as int
        }
    }
}

/// The sum of the sizes; one that does not fit becomes `u64::MAX`.
pub fn total_size(sizes: &Vec<u64>) -> (r: u64)
    ensures
        r == capped_sum(sizes@),
{
    let mut total: u64 = 0;
    let mut i: usize = 0;
    assert(sizes@.take(0) =~= Seq::<u64>::empty());
    while i < sizes.len()
        invariant
            i <= sizes@.len(),
            total == capped_sum(sizes@.take(i as int)),
        decreases sizes.len() - i,
    {
        assert(sizes@.take(i + 1).drop_last() =~= sizes@.take(i as int));
        total = total.saturating_add(sizes[i]);
        i = i + 1;
    }
    assert(sizes@.take(i as int) =~= sizes@);
    total
}

/// The bytes of all volumes together, at least one: what the expansion ratio is
/// measured against.
pub fn volume_bytes(sizes: &Vec<u64>) -> (r: u64)
    ensures
        r == if capped_sum(sizes@) == 0 {
            1
        } else {
            capped_sum(sizes@)
        },
{
    let total: u64 = total_size(sizes);
    if total == 0 {
        1
    } else {
        total
    }
}

/// What has been read of the engine's report on an archive.
#[derive(Debug)]
pub struct HeaderReader {
    in_header: bool,
    header_seen: bool,
    kind: String,
    count: Option<usize>,
    multipart: bool,
    new_rar_names: bool,
}

/// The contents of a [`HeaderReader`].
pub struct HeaderView {
    pub in_header: bool,
    pub header_seen: bool,
    pub kind: Seq<char>,
    pub count: Option<usize>,
    pub multipart: bool,
    pub new_rar_names: bool,
}

impl View for HeaderReader {
    type V = HeaderView;

    closed spec fn view(&self) -> HeaderView {
        HeaderView {
            in_header: self.in_header,
            header_seen: self.header_seen,
            kind: self.kind@,
            count: self.count,
            multipart: self.multipart,
            new_rar_names: self.new_rar_names,
        }
    }
}

/// Before the first line.
pub open spec fn header_start() -> HeaderView {
    HeaderView {
        in_header: false,
        header_seen: false,
        kind: Seq::empty(),
        count: None,
        multipart: false,
        new_rar_names: false,
    }
}

/// A field of the header.
pub open spec fn header_field(h: HeaderView, key: Seq<char>, value: Seq<char>) -> Result<
    HeaderView,
    VolumeError,
> {
    if key == "Type"@ {
        Ok(HeaderView { kind: value, ..h })
    } else if key == "Volumes"@ {
        match text::parsed_u64(value) {
            Some(n) => if n > usize::MAX {
                Err(VolumeError::BadCount)
            } else if n == 0 {
                Err(VolumeError::ZeroCount)
            } else {
                Ok(HeaderView { count: Some(n as usize), ..h })
            },
            None => Err(VolumeError::BadCount),
        }
    } else if key == "Characteristics"@ {
        Ok(HeaderView { new_rar_names: text::words(value).contains("NewVolName"@), ..h })
    } else if key == "Volume Index"@ {
        Ok(HeaderView { multipart: true, ..h })
    } else if key == "Multivolume"@ {
        Ok(HeaderView { multipart: h.multipart || value == "+"@, ..h })
    } else {
        Ok(h)
    }
}

/// One line of the report. Only the block after the first `--` counts; a
/// comment or a nested block ends it for good.
pub open spec fn header_line(h: HeaderView, raw: Seq<char>) -> Result<HeaderView, VolumeError> {
    let line = text::trim_end(raw);
    if line == "--"@ && !h.header_seen {
        Ok(HeaderView { header_seen: true, in_header: true, ..h })
    } else {
        let inside = h.in_header && !(text::has_prefix(line, "----"@) || text::has_prefix(
            line,
            "Comment ="@,
        ) || line == "{"@);
        let h = HeaderView { in_header: inside, ..h };
        if !inside {
            Ok(h)
        } else {
            match text::cut_once(line, " = "@) {
                Some((key, value)) => header_field(h, key, value),
                None => Ok(h),
            }
        }
    }
}

/// What the report says in the end.
pub open spec fn header_result(h: HeaderView) -> Result<(Seq<char>, usize, bool), VolumeError> {
    if h.multipart && h.count is None {
        Err(VolumeError::NoTrustedCount)
    } else {
        Ok(
            (
                h.kind,
                match h.count {
                    Some(n) => n,
                    None => 1,
                },
                h.new_rar_names,
            ),
        )
    }
}

/// Whether one of the words is `word`.
fn has_word(value: &str, word: &str) -> (r: bool)
    ensures
        r == text::words(value@).contains(word@),
{
    let list = text::split_words(value);
    let ghost all = text::texts(list@);
    let mut i: usize = 0;
    while i < list.len()
        invariant
            all == text::texts(list@),
            all == text::words(value@),
            i <= list@.len(),
            forall|k: int| 0 <= k < i ==> all[k] != word@,
        decreases list.len() - i,
    {
        if text::same(list[i].as_str(), word) {
            assert(all[i as int] == word@);
            return true;
        }
        i = i + 1;
    }
    false
}

impl HeaderReader {
    /// A reader that has seen nothing.
    pub fn new() -> (r: HeaderReader)
        ensures
            r@ == header_start(),
    {
        let kind = String::new();
        assert(kind@ =~= Seq::<char>::empty());
        HeaderReader {
            in_header: false,
            header_seen: false,
            kind,
            count: None,
            multipart: false,
            new_rar_names: false,
        }
    }

    /// Reads one line of the report.
    pub fn feed(&mut self, raw: &str) -> (r: Result<(), VolumeError>)
        ensures
            match r {
                Ok(()) => header_line(old(self)@, raw@) == Ok::<HeaderView, VolumeError>(
                    final(self)@,
                ),
                Err(e) => header_line(old(self)@, raw@) == Err::<HeaderView, VolumeError>(e),
            },
    {
        let line = text::trim_right(raw);
        let line = line.as_str();
        if !self.header_seen && text::same(line, "--") {
            self.header_seen = true;
            self.in_header = true;
            return Ok(());
        }
        if text::starts_with(line, "----") || text::starts_with(line, "Comment =") || text::same(
            line,
            "{",
        ) {
            self.in_header = false;
        }
        if !self.in_header {
            return Ok(());
        }
        if let Some((key, value)) = text::split_once(line, " = ") {
            let key = key.as_str();
            if text::same(key, "Type") {
                self.kind = value;
            } else if text::same(key, "Volumes") {
                match text::parse_u64(value.as_str()) {
                    Some(n) => {
                        if n > usize::MAX as u64 {
                            return Err(VolumeError::BadCount);
                        }
                        if n == 0 {
                            return Err(VolumeError::ZeroCount);
                        }
                        self.count = Some(n as usize);
                    },
                    None => return Err(VolumeError::BadCount),
                }
            } else if text::same(key, "Characteristics") {
                self.new_rar_names = has_word(value.as_str(), "NewVolName");
            } else if text::same(key, "Volume Index") {
                self.multipart = true;
            } else if text::same(key, "Multivolume") {
                self.multipart = self.multipart || text::same(value.as_str(), "+");
            }
        }
        Ok(())
    }

    /// The volumes as the engine reported them.
    pub fn finish(self) -> (r: Result<ArchiveVolumes, VolumeError>)
        ensures
            match r {
                Ok(v) => header_result(self@) == Ok::<(Seq<char>, usize, bool), VolumeError>(
                    (v.kind@, v.count, v.new_rar_names),
                ),
                Err(e) => header_result(self@) == Err::<(Seq<char>, usize, bool), VolumeError>(e),
            },
    {
        if self.multipart && self.count.is_none() {
            return Err(VolumeError::NoTrustedCount);
        }
        let count: usize = match self.count {
            Some(n) => n,
            None => 1,
        };
        Ok(ArchiveVolumes { kind: self.kind, count, new_rar_names: self.new_rar_names })
    }
}

/// The report read so far.
pub open spec fn header_read(lines: Seq<Seq<char>>) -> Result<HeaderView, VolumeError>
    decreases lines.len(),
{
    if lines.len() == 0 {
        Ok(header_start())
    } else {
        match header_read(lines.drop_last()) {
            Err(e) => Err(e),
            Ok(h) => header_line(h, lines.last()),
        }
    }
}

/// Reads the format and the number of volumes from the lines of the report.
pub fn archive_volume_count(lines: &Vec<String>) -> (r: Result<ArchiveVolumes, VolumeError>)
    ensures
        match r {
            Ok(v) => {
                &&& header_read(text::texts(lines@)) is Ok
                &&& header_result(header_read(text::texts(lines@))->Ok_0) == Ok::<
                    (Seq<char>, usize, bool),
                    VolumeError,
                >((v.kind@, v.count, v.new_rar_names))
                &&& v.count >= 1
            },
            Err(e) => match header_read(text::texts(lines@)) {
                Err(first) => first == e,
                Ok(h) => header_result(h) == Err::<(Seq<char>, usize, bool), VolumeError>(e),
            },
        },
{
    let ghost all = text::texts(lines@);
    let mut reader = HeaderReader::new();
    let mut i: usize = 0;
    assert(all.take(0) =~= Seq::<Seq<char>>::empty());
    while i < lines.len()
        invariant
            all == text::texts(lines@),
            i <= lines@.len(),
            header_read(all.take(i as int)) == Ok::<HeaderView, VolumeError>(reader@),
        decreases lines.len() - i,
    {
        assert(all.take(i + 1).drop_last() =~= all.take(i as int));
        assert(all.take(i + 1).last() == lines@[i as int]@);
        match reader.feed(lines[i].as_str()) {
            Ok(()) => {},
            Err(e) => {
                proof {
                    header_error_stays(all, i + 1, e);
                }
                return Err(e);
            },
        }
        i = i + 1;
    }
    assert(all.take(i as int) =~= all);
    proof {
        header_counts(all);
    }
    reader.finish()
}

/// An error among the first lines stays.
proof fn header_error_stays(lines: Seq<Seq<char>>, n: int, e: VolumeError)
    requires
        0 <= n <= lines.len(),
        header_read(lines.take(n)) == Err::<HeaderView, VolumeError>(e),
    ensures
        header_read(lines) == Err::<HeaderView, VolumeError>(e),
    decreases lines.len(),
{
    if n < lines.len() {
        assert(lines.drop_last().take(n) =~= lines.take(n));
        header_error_stays(lines.drop_last(), n, e);
    } else {
        assert(lines.take(n) =~= lines);
    }
}

/// A count that was read is never zero.
pub proof fn header_counts(lines: Seq<Seq<char>>)
    ensures
        header_read(lines) matches Ok(h) ==> (h.count matches Some(n) ==> n >= 1),
    decreases lines.len(),
{
    if lines.len() > 0 {
        header_counts(lines.drop_last());
    }
}

/// Once the header block has ended, no line changes what was read.
pub proof fn law_header_stays_closed(h: HeaderView, line: Seq<char>)
    requires
        h.header_seen,
        !h.in_header,
    ensures
        header_line(h, line) == Ok::<HeaderView, VolumeError>(h),
{
}

/// The sum of some sizes.
pub open spec fn plain_sum(sizes: Seq<u64>) -> nat
    decreases sizes.len(),
{
    if sizes.len() == 0 {
        0
    } else {
        plain_sum(sizes.drop_last()) + sizes.last() as nat
    }
}

/// The bytes of all volumes are their sum, as far as it can be counted.
pub proof fn law_sizes_add_up(sizes: Seq<u64>)
    ensures
        capped_sum(sizes) == (if plain_sum(sizes) <= u64::MAX {
            plain_sum(sizes) as int
        } else {
            u64::MAX as int
        }),
    decreases sizes.len(),
{
    if sizes.len() > 0 {
        law_sizes_add_up(sizes.drop_last());
    }
}

#[verifier::spinoff_prover]
proof fn last_part(stem: Seq<char>, part: Seq<char>)
    requires
        text::all_digits(part),
    ensures
        text::rcut_once(stem + ".part"@ + part, ".part"@) == Some((stem, part)),
{
    reveal_strlit(".part");
    let p = ".part"@;
    let s = stem + p + part;
    let at = stem.len() as int;
    assert(p.len() == 5);
    assert(p[0] == '.' && p[1] == 'p' && p[2] == 'a' && p[3] == 'r' && p[4] == 't');
    text::law_cut_at_the_last_place(s, p);
    assert(s.subrange(at, at + p.len()) =~= p);
    assert(text::occurs_at(s, p, at));
    assert(text::rcut_once(s, p) is Some);
    assert forall|k: int| at < k implies !(#[trigger] text::occurs_at(s, p, k)) by {
        if text::occurs_at(s, p, k) {
            let w = s.subrange(k, k + p.len());
            assert(w[0] == p[0]);
            assert(s[k] == '.');
            if k < at + 5 {
                assert(s[k] == p[k - at]);
            } else {
                assert(s[k] == part[k - at - 5]);
                assert(text::is_digit(part[k - at - 5]));
            }
        }
    }
    let (a, b) = text::rcut_once(s, p)->0;
    assert(text::occurs_at(s, p, a.len() as int)) by {
        assert(s == a + p + b);
        assert(s.subrange(a.len() as int, (a.len() + p.len()) as int) =~= p);
    }
    assert(a.len() == at);
    assert(a =~= s.take(at));
    assert(stem =~= s.take(at));
    assert(b =~= s.skip(at + 5));
    assert(part =~= s.skip(at + 5));
}

/// A RAR volume with a part number in its name belongs to its stem, whatever the number,
/// and all those of one stem belong together.
pub proof fn law_rar_parts_belong_together(stem: Seq<char>, a: Seq<char>, b: Seq<char>)
    requires
        a.len() > 0,
        b.len() > 0,
        text::all_digits(a),
        text::all_digits(b),
    ensures
        naming(stem + ".part"@ + a + ".rar"@) == (stem, VolumeScheme::RarParts),
        is_sibling(stem, VolumeScheme::RarParts, stem + ".part"@ + b + ".rar"@),
{
    part_is_read(stem, a);
    part_is_read(stem, b);
}

proof fn part_is_read(stem: Seq<char>, part: Seq<char>)
    requires
        part.len() > 0,
        text::all_digits(part),
    ensures
        part_stem(stem + ".part"@ + part + ".rar"@) == Some(stem),
{
    reveal_strlit(".rar");
    let name = stem + ".part"@ + part + ".rar"@;
    let head = stem + ".part"@ + part;
    assert(name.subrange(name.len() - 4, name.len() as int) =~= ".rar"@);
    assert(name.subrange(0, name.len() - 4) =~= head);
    last_part(stem, part);
}

proof fn ends_with(name: Seq<char>, ending: Seq<char>)
    ensures
        text::has_suffix(name, ending) ==> name.len() >= ending.len() && forall|k: int|
            1 <= k <= ending.len() ==> #[trigger] name[name.len() - k] == ending[ending.len() - k],
{
    if text::has_suffix(name, ending) {
        let tail = name.subrange(name.len() - ending.len(), name.len() as int);
        assert forall|k: int| 1 <= k <= ending.len() implies #[trigger] name[name.len() - k]
            == ending[ending.len() - k] by {
            assert(tail[ending.len() - k] == name[name.len() - k]);
        }
    }
}

/// How the other volumes are named: those of a numbered archive by three digits or more
/// behind its name, those of a split ZIP file and of an old RAR file by a letter and two
/// digits or more.
pub proof fn law_other_volumes_are_named_alike(stem: Seq<char>, digits: Seq<char>)
    requires
        text::all_digits(digits),
    ensures
        naming(stem + ".7z.001"@) == (stem + ".7z"@, VolumeScheme::Numbered),
        naming(stem + ".zip.001"@) == (stem + ".zip"@, VolumeScheme::Numbered),
        naming(stem + ".zip"@) == (stem, VolumeScheme::SplitZip),
        is_sibling(stem, VolumeScheme::Numbered, stem + "."@ + digits) <==> digits.len() >= 3,
        is_sibling(stem, VolumeScheme::SplitZip, stem + ".z"@ + digits) <==> digits.len() >= 2,
        is_sibling(stem, VolumeScheme::OldRar, stem + ".r"@ + digits) <==> digits.len() >= 2,
        !is_sibling(stem, VolumeScheme::Single, stem + "."@ + digits),
{
    reveal_strlit(".rar");
    reveal_strlit(".zip");
    reveal_strlit(".7z");
    reveal_strlit(".7z.001");
    reveal_strlit(".zip.001");
    reveal_strlit(".");
    reveal_strlit(".z");
    reveal_strlit(".r");
    let a = stem + ".7z.001"@;
    let b = stem + ".zip.001"@;
    let c = stem + ".zip"@;
    ends_with(a, ".rar"@);
    ends_with(b, ".rar"@);
    ends_with(c, ".rar"@);
    ends_with(c, ".7z.001"@);
    ends_with(c, ".zip.001"@);
    assert(a[a.len() - 1] == '1' && b[b.len() - 1] == '1' && c[c.len() - 1] == 'p');
    assert(a.subrange(a.len() - 7, a.len() as int) =~= ".7z.001"@);
    assert(b.subrange(b.len() - 8, b.len() as int) =~= ".zip.001"@);
    assert(c.subrange(c.len() - 4, c.len() as int) =~= ".zip"@);
    assert(a.subrange(0, a.len() - 4) =~= stem + ".7z"@);
    assert(b.subrange(0, b.len() - 4) =~= stem + ".zip"@);
    assert(c.subrange(0, c.len() - 4) =~= stem);
    numbered_is(stem + "."@, digits);
    numbered_is(stem + ".z"@, digits);
    numbered_is(stem + ".r"@, digits);
}

proof fn numbered_is(prefix: Seq<char>, digits: Seq<char>)
    requires
        text::all_digits(digits),
    ensures
        forall|min: nat|
            #[trigger] is_numbered(prefix + digits, prefix, min) <==> digits.len() >= min,
{
    let s = prefix + digits;
    assert(s.subrange(0, prefix.len() as int) =~= prefix);
    assert(s.subrange(prefix.len() as int, s.len() as int) =~= digits);
}

/// An archive stands first among its volumes, and of its neighbours just those follow that
/// are named like volumes of it and are files.
pub proof fn law_neighbours_that_may_be_volumes(
    name: Seq<char>,
    around: Seq<Neighbour>,
    found: Seq<Seq<char>>,
    i: int,
)
    requires
        group_of(name, around) == Ok::<Seq<Seq<char>>, VolumeError>(found),
        0 <= i < around.len(),
    ensures
        found.len() > 0 && found[0] == name,
        is_candidate(name, around[i]) && around[i].kind == EntryKind::File ==> found.contains(
            around[i].name@,
        ),
        is_candidate(name, around[i]) ==> around[i].kind != EntryKind::Unreadable,
        forall|x: Seq<char>| #[trigger]
            found.contains(x) ==> x == name || exists|k: int|
                0 <= k < around.len() && (#[trigger] around[k]).name@ == x && is_candidate(
                    name,
                    around[k],
                ) && around[k].kind == EntryKind::File,
    decreases around.len(),
{
    let before = around.drop_last();
    let earlier = group_of(name, before)->Ok_0;
    if i < around.len() - 1 {
        assert(before[i] == around[i]);
    }
    group_starts(name, before);
    assert forall|x: Seq<char>| #[trigger] found.contains(x) implies x == name || exists|k: int|
        0 <= k < around.len() && (#[trigger] around[k]).name@ == x && is_candidate(name, around[k])
            && around[k].kind == EntryKind::File by {
        let m = choose|m: int| 0 <= m < found.len() && found[m] == x;
        if m < earlier.len() {
            assert(earlier[m] == x);
            assert(earlier.contains(x));
            if before.len() == 0 {
                assert(earlier =~= seq![name]);
            } else {
                law_neighbours_that_may_be_volumes(name, before, earlier, 0);
                if x != name {
                    let k = choose|k: int|
                        0 <= k < before.len() && (#[trigger] before[k]).name@ == x && is_candidate(
                            name,
                            before[k],
                        ) && before[k].kind == EntryKind::File;
                    assert(around[k] == before[k]);
                }
            }
        } else {
            assert(around[around.len() - 1].name@ == x);
        }
    }
    if i < around.len() - 1 {
        law_neighbours_that_may_be_volumes(name, before, earlier, i);
        if earlier.contains(around[i].name@) {
            let m = choose|m: int| 0 <= m < earlier.len() && earlier[m] == around[i].name@;
            assert(found[m] == around[i].name@);
        }
    } else if is_candidate(name, around[i]) && around[i].kind == EntryKind::File {
        assert(found[found.len() - 1] == around[i].name@);
    }
}

proof fn group_starts(name: Seq<char>, around: Seq<Neighbour>)
    ensures
        group_of(name, around) matches Ok(found) ==> found.len() > 0 && found[0] == name,
    decreases around.len(),
{
    if around.len() > 0 {
        group_starts(name, around.drop_last());
    }
}

/// A neighbour is a candidate where its name, without regard to case, is that of a volume
/// with the archive's stem and naming, and it is not the archive.
pub proof fn law_candidates_go_by_name(name: Seq<char>, n: Neighbour)
    ensures
        is_candidate(name, n) ==> n.name@ != name && naming(text::folded(name)).1
            != VolumeScheme::Single,
        n.name@ != name && is_sibling(
            naming(text::folded(name)).0,
            naming(text::folded(name)).1,
            text::folded(n.name@),
        ) ==> is_candidate(name, n),
{
}

/// The names of the further volumes: of a numbered archive the number counts on from two;
/// of a split ZIP file from one; of a RAR file with numbers in its name that number counts
/// on; the rest of the name stays.
pub proof fn law_volumes_count_on(name: Seq<char>, kind: Seq<char>, new_names: bool, index: nat)
    requires
        name.len() >= 4,
        index >= 1,
    ensures
        ({
            let base = name.take(name.len() - 4);
            &&& volume_text(VolumeScheme::Numbered, name, kind, new_names, index) matches Ok(s) && {
                let number = s.skip(base.len() as int + 1);
                s == base + "."@ + number && text::all_digits(number) && number.len() >= 3
                    && text::digits_value(number) == index + 1
            }
            &&& volume_text(VolumeScheme::SplitZip, name, kind, new_names, index) matches Ok(s) && {
                let number = s.skip(base.len() as int + 2);
                s == base + ".z"@ + number && text::all_digits(number) && number.len() >= 2
                    && text::digits_value(number) == index
            }
            &&& volume_text(VolumeScheme::Single, name, kind, new_names, index) is Err
        }),
{
    reveal_strlit(".");
    reveal_strlit(".z");
    let base = name.take(name.len() - 4);
    text::law_padded(index + 1, 3);
    text::law_padded(index, 2);
    let a = base + "."@ + text::padded(index + 1, 3);
    let b = base + ".z"@ + text::padded(index, 2);
    assert(a.skip(base.len() as int + 1) =~= text::padded(index + 1, 3));
    assert(b.skip(base.len() as int + 2) =~= text::padded(index, 2));
}

/// The volumes that are confirmed are the archive and, for every further number, the name
/// with that number.
pub proof fn law_confirmed_volumes_are_those_named(
    scheme: VolumeScheme,
    name: Seq<char>,
    kind: Seq<char>,
    new_rar_names: bool,
    probes: Seq<VolumeProbe>,
    count: nat,
    k: nat,
)
    requires
        1 <= k < count,
        volumes_upto(scheme, name, kind, new_rar_names, probes, count) is Ok,
    ensures
        volume_text(scheme, name, kind, new_rar_names, k) == Ok::<Seq<char>, VolumeError>(
            volumes_upto(scheme, name, kind, new_rar_names, probes, count)->Ok_0[k as int],
        ),
    decreases count,
{
    law_actual_count(scheme, name, kind, new_rar_names, probes, count);
    law_actual_count(scheme, name, kind, new_rar_names, probes, (count - 1) as nat);
    if k < count - 1 {
        law_confirmed_volumes_are_those_named(
            scheme,
            name,
            kind,
            new_rar_names,
            probes,
            (count - 1) as nat,
            k,
        );
    }
}

/// An archive of one volume is confirmed as it is; of one with more the format has to go
/// with the names.
pub proof fn law_formats_go_with_names(
    scheme: VolumeScheme,
    name: Seq<char>,
    info: ArchiveVolumes,
    probes: Seq<VolumeProbe>,
)
    ensures
        info.count == 1 ==> actual_volumes(scheme, name, info, probes) == Ok::<
            Seq<Seq<char>>,
            VolumeError,
        >(seq![name]),
        info.count > 1 && actual_volumes(scheme, name, info, probes) is Ok ==> {
            let k = text::lower(info.kind@);
            ||| (scheme == VolumeScheme::RarParts || scheme == VolumeScheme::OldRar) && (k == "rar"@
                || k == "rar5"@)
            ||| scheme == VolumeScheme::Numbered && k == "split"@
            ||| scheme == VolumeScheme::SplitZip && k == "zip"@
        },
{
}

/// What the engine says of the volumes is taken over: the format, how many there are, and
/// whether the names are new ones. Without a number there is one volume, unless the engine
/// says that it is one of several.
pub proof fn law_what_the_report_says(h: HeaderView, value: Seq<char>, n: u64)
    requires
        n <= usize::MAX,
    ensures
        header_field(h, "Type"@, value) == Ok::<HeaderView, VolumeError>(
            HeaderView { kind: value, ..h },
        ),
        n > 0 ==> header_field(h, "Volumes"@, text::decimal(n as nat)) == Ok::<
            HeaderView,
            VolumeError,
        >(HeaderView { count: Some(n as usize), ..h }),
        n == 0 ==> header_field(h, "Volumes"@, text::decimal(n as nat)) == Err::<
            HeaderView,
            VolumeError,
        >(VolumeError::ZeroCount),
        header_field(h, "Volume Index"@, value) == Ok::<HeaderView, VolumeError>(
            HeaderView { multipart: true, ..h },
        ),
        header_field(h, "Multivolume"@, "+"@) == Ok::<HeaderView, VolumeError>(
            HeaderView { multipart: true, ..h },
        ),
        header_result(h) is Err <==> h.multipart && h.count is None,
        header_result(h) matches Ok(r) ==> r.0 == h.kind && r.2 == h.new_rar_names && r.1 == (
        if h.count is Some {
            h.count->0
        } else {
            1usize
        }),
{
    reveal_strlit("Type");
    reveal_strlit("Volumes");
    reveal_strlit("Characteristics");
    reveal_strlit("Volume Index");
    reveal_strlit("Multivolume");
    text::law_parse_decimal(n);
    assert("Type"@.len() == 4 && "Volumes"@.len() == 7 && "Characteristics"@.len() == 15
        && "Volume Index"@.len() == 12 && "Multivolume"@.len() == 11);
}

/// The last run of digits of a text: it ends behind the last digit, and begins behind the
/// last character before that which is none.
pub proof fn law_the_last_run_of_digits(s: Seq<char>)
    ensures
        0 <= run_end(s) <= s.len(),
        run_end(s) > 0 ==> text::is_digit(s[run_end(s) - 1]),
        forall|k: int| run_end(s) <= k < s.len() ==> !text::is_digit(#[trigger] s[k]),
        0 <= run_start(s) <= s.len(),
        forall|k: int| run_start(s) <= k < s.len() ==> text::is_digit(#[trigger] s[k]),
        run_start(s) > 0 ==> !text::is_digit(s[run_start(s) - 1]),
    decreases s.len(),
{
    if s.len() > 0 {
        let t = s.drop_last();
        law_the_last_run_of_digits(t);
        assert(s[s.len() - 1] == s.last());
        assert forall|k: int| 0 <= k < t.len() implies #[trigger] s[k] == t[k] by {}
    }
}

/// Further volumes of a RAR file with new names differ from it only in the last number of
/// its name, which counts on; with old names, or without a number, only in the ending, a
/// letter from `r` on and two digits.
pub proof fn law_rar_volumes_count_on(name: Seq<char>, kind: Seq<char>, new_names: bool, index: nat)
    requires
        name.len() >= 4,
        1 <= index <= 100,
    ensures
        ({
            let base = name.take(name.len() - 4);
            let end = run_end(base);
            let start = run_start(base.take(end));
            let r = volume_text(VolumeScheme::RarParts, name, kind, new_names, index);
            &&& volume_text(VolumeScheme::OldRar, name, kind, new_names, index) == r
            &&& has_new_names(kind, new_names) && end > 0 ==> (r matches Ok(s) && s.take(start)
                == name.take(start) && exists|number: Seq<char>| #[trigger]
                text::all_digits(number) && s == name.take(start) + number + name.skip(end)
                    && text::digits_value(number) == text::digits_value(name.subrange(start, end))
                    + index)
            &&& !has_new_names(kind, new_names) || end == 0 ==> r == Ok::<Seq<char>, VolumeError>(
                base + "."@ + seq!['r'] + text::padded((index - 1) as nat, 2),
            )
        }),
{
    let base = name.take(name.len() - 4);
    let end = run_end(base);
    law_the_last_run_of_digits(base);
    let start = run_start(base.take(end));
    law_the_last_run_of_digits(base.take(end));
    if has_new_names(kind, new_names) && end > 0 {
        let d = name.subrange(start, end);
        assert forall|k: int| 0 <= k < d.len() implies text::is_digit(#[trigger] d[k]) by {
            assert(base.take(end)[start + k] == d[k]);
        }
        law_advanced(d, index);
        let s = name.take(start) + advanced(d, index) + name.skip(end);
        assert(s.take(start) =~= name.take(start));
        assert(text::all_digits(advanced(d, index)));
    } else {
        assert((index - 1) / 100 == 0);
        assert(('r' as u32 + (index - 1) / 100) as char == 'r');
        assert((index - 1) % 100 == index - 1);
    }
}

} // verus!
