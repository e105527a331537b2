//! The user's exclusion rules: glob patterns separated by semicolons.

use crate::fsutil;
use crate::text;
use vstd::prelude::*;

verus! {

/// `globset::GlobSet`, a compiled group of glob patterns.
#[verifier::external_type_specification]
#[verifier::external_body]
pub struct ExGlobSet(globset::GlobSet);

/// `globset::GlobSetBuilder`, the patterns of a group that is being built.
#[verifier::external_type_specification]
#[verifier::external_body]
pub struct ExGlobSetBuilder(globset::GlobSetBuilder);

/// The patterns that were added to a builder, in order.
pub uninterp spec fn builder_patterns(builder: globset::GlobSetBuilder) -> Seq<Seq<char>>;

/// The paths that a compiled group matches.
pub uninterp spec fn matched_paths(set: globset::GlobSet) -> Set<Seq<char>>;

/// Whether `globset::GlobBuilder::build` accepts a pattern, in which a
/// backslash is an ordinary character.
pub uninterp spec fn glob_is_valid(pattern: Seq<char>) -> bool;

/// Whether `globset::GlobSetBuilder::build` accepts a group of valid patterns.
pub uninterp spec fn globs_compile(patterns: Seq<Seq<char>>) -> bool;

/// No backslash, which only some systems take for a separator.
pub open spec fn plain(s: Seq<char>) -> bool {
    forall|i: int| 0 <= i < s.len() ==> #[trigger] s[i] != '\\'
}

/// No backslash in any of the patterns.
pub open spec fn all_plain(patterns: Seq<Seq<char>>) -> bool {
    forall|i: int| 0 <= i < patterns.len() ==> plain(#[trigger] patterns[i])
}

/// The paths that a group of patterns matches, by `globset::GlobSet::is_match`, of
/// paths and patterns without a backslash.
pub uninterp spec fn globs_match(patterns: Seq<Seq<char>>) -> Set<Seq<char>>;

/// Calls `globset::GlobSetBuilder::new`: a builder without patterns.
#[verifier::external_body]
fn new_builder() -> (b: globset::GlobSetBuilder)
    ensures
        builder_patterns(b) == Seq::<Seq<char>>::empty(),
{
    globset::GlobSetBuilder::new()
}

/// Calls `globset::GlobBuilder::build` on the pattern and, where that accepts
/// it, `globset::GlobSetBuilder::add`, which puts it behind the others.
#[verifier::external_body]
fn add_pattern(b: &mut globset::GlobSetBuilder, pattern: &str) -> (ok: bool)
    ensures
        ok == glob_is_valid(pattern@),
        ok ==> builder_patterns(*final(b)) == builder_patterns(*old(b)).push(pattern@),
        !ok ==> builder_patterns(*final(b)) == builder_patterns(*old(b)),
{
    match globset::GlobBuilder::new(pattern).backslash_escape(false).build() {
        Ok(glob) => {
            b.add(glob);
            true
        },
        Err(_) => false,
    }
}

/// Calls `globset::GlobSetBuilder::build`: the compiled group of the patterns
/// that were added, which decide what it matches. A group without patterns matches
/// nothing. What a backslash in a pattern or a path means depends on the system, so
/// nothing is said of those.
#[verifier::external_body]
fn build_set(b: &globset::GlobSetBuilder) -> (r: Option<globset::GlobSet>)
    ensures
        match r {
            Some(set) => {
                &&& globs_compile(builder_patterns(*b))
                &&& all_plain(builder_patterns(*b)) ==> forall|p: Seq<char>| #[trigger]
                    matched_paths(set).contains(p) && plain(p) <==> globs_match(
                        builder_patterns(*b),
                    ).contains(p) && plain(p)
                &&& builder_patterns(*b).len() == 0 ==> matched_paths(set) == Set::<
                    Seq<char>,
                >::empty()
            },
            None => !globs_compile(builder_patterns(*b)),
        },
{
    b.build().ok()
}

/// Calls `globset::GlobSet::is_match`: whether some pattern of the group
/// matches the path.
#[verifier::external_body]
fn set_matches(set: &globset::GlobSet, path: &str) -> (r: bool)
    ensures
        r == matched_paths(*set).contains(path@),
{
    set.is_match(path)
}

/// The trimmed pieces that are not empty.
pub open spec fn nonblank(parts: Seq<Seq<char>>) -> Seq<Seq<char>>
    decreases parts.len(),
{
    if parts.len() == 0 {
        Seq::empty()
    } else if text::trimmed(parts.last()).len() == 0 {
        nonblank(parts.drop_last())
    } else {
        nonblank(parts.drop_last()).push(text::trimmed(parts.last()))
    }
}

/// The patterns of an exclusion text.
pub open spec fn exclusion_patterns(s: Seq<char>) -> Seq<Seq<char>> {
    nonblank(text::split_on(s, ';'))
}

/// Why an exclusion text is refused.
#[derive(Clone, Copy, Debug, PartialEq, Eq, Structural)]
pub enum ExclusionError {
    /// The pattern with this number is not valid.
    InvalidPattern(usize),
    /// The patterns cannot be compiled together.
    NotCompilable,
}

/// Compiled exclusion rules.
pub struct Exclusions {
    set: globset::GlobSet,
}

impl View for Exclusions {
    type V = Set<Seq<char>>;

    closed spec fn view(&self) -> Set<Seq<char>> {
        matched_paths(self.set)
    }
}

/// The patterns of an exclusion text, as strings.
pub fn exclusion_list(s: &str) -> (r: Vec<String>)
    ensures
        text::texts(r@) == exclusion_patterns(s@),
{
    let pieces = text::split(s, ';');
    let ghost all = text::texts(pieces@);
    let mut out: Vec<String> = Vec::new();
    let mut i: usize = 0;
    while i < pieces.len()
        invariant
            all == text::texts(pieces@),
            i <= pieces@.len(),
            text::texts(out@) == nonblank(all.take(i as int)),
        decreases pieces.len() - i,
    {
        assert(all.take(i + 1).drop_last() =~= all.take(i as int));
        assert(all.take(i + 1).last() == pieces@[i as int]@);
        let piece = text::trim(pieces[i].as_str());
        if !piece.as_str().is_empty() {
            let ghost before = out@;
            out.push(piece);
            assert(text::texts(out@) =~= text::texts(before).push(piece@));
        }
        i = i + 1;
    }
    assert(all.take(i as int) =~= all);
    out
}

/// Compiles the exclusion rules of a text.
pub fn build_exclusions(s: &str) -> (r: Result<Exclusions, ExclusionError>)
    ensures
        match r {
            Ok(x) => {
                &&& forall|i: int|
                    0 <= i < exclusion_patterns(s@).len() ==> glob_is_valid(
                        #[trigger] exclusion_patterns(s@)[i],
                    )
                &&& globs_compile(exclusion_patterns(s@))
                &&& all_plain(exclusion_patterns(s@)) ==> forall|p: Seq<char>| #[trigger]
                    x@.contains(p) && plain(p) <==> globs_match(exclusion_patterns(s@)).contains(p)
                        && plain(p)
                &&& exclusion_patterns(s@).len() == 0 ==> x@ == Set::<Seq<char>>::empty()
            },
            Err(ExclusionError::InvalidPattern(k)) => {
                &&& k < exclusion_patterns(s@).len()
                &&& !glob_is_valid(exclusion_patterns(s@)[k as int])
                &&& forall|i: int| 0 <= i < k ==> glob_is_valid(#[trigger] exclusion_patterns(s@)[i])
            },
            Err(ExclusionError::NotCompilable) => {
                &&& forall|i: int|
                    0 <= i < exclusion_patterns(s@).len() ==> glob_is_valid(
                        #[trigger] exclusion_patterns(s@)[i],
                    )
                &&& !globs_compile(exclusion_patterns(s@))
            },
        },
{
    let patterns = exclusion_list(s);
    let ghost all = text::texts(patterns@);
    let mut builder = new_builder();
    let mut i: usize = 0;
    assert(all.take(0) =~= Seq::<Seq<char>>::empty());
    while i < patterns.len()
        invariant
            all == text::texts(patterns@),
            all == exclusion_patterns(s@),
            i <= patterns@.len(),
            builder_patterns(builder) == all.take(i as int),
            forall|k: int| 0 <= k < i ==> glob_is_valid(#[trigger] all[k]),
        decreases patterns.len() - i,
    {
        assert(all[i as int] == patterns@[i as int]@);
        if !add_pattern(&mut builder, patterns[i].as_str()) {
            return Err(ExclusionError::InvalidPattern(i));
        }
        assert(all.take(i as int).push(all[i as int]) =~= all.take(i + 1));
        i = i + 1;
    }
    assert(all.take(i as int) =~= all);
    match build_set(&builder) {
        Some(set) => Ok(Exclusions { set }),
        None => Err(ExclusionError::NotCompilable),
    }
}

/// The rules name the path, or the directory that it is.
pub open spec fn names(rules: Set<Seq<char>>, rel: Seq<char>) -> bool {
    rules.contains(rel) || rules.contains(rel.push('/'))
}

/// The rules name the path or a directory above it.
pub open spec fn names_above(rules: Set<Seq<char>>, rel: Seq<char>) -> bool {
    exists|i: int| #[trigger] ends_component(rel, i) && names(rules, rel.take(i))
}

/// A component of the path ends in front of position `i`.
pub open spec fn ends_component(rel: Seq<char>, i: int) -> bool {
    0 <= i <= rel.len() && (i == rel.len() || rel[i] == '/')
}

impl Exclusions {
    /// Whether the rules name the path itself.
    pub fn excludes(&self, rel: &str) -> (r: bool)
        ensures
            r == names(self@, rel@),
    {
        let mut dir = rel.to_owned();
        dir.push('/');
        set_matches(&self.set, rel) || set_matches(&self.set, dir.as_str())
    }

    /// Whether the rules name the path or a directory above it.
    pub fn member_excluded(&self, rel: &str) -> (r: bool)
        ensures
            r == names_above(self@, rel@),
    {
        let v = text::chars_of(rel);
        let mut i: usize = 0;
        loop
            invariant
                v@ == rel@,
                i <= v@.len(),
                forall|k: int|
                    0 <= k < i && #[trigger] ends_component(rel@, k) ==> !names(
                        self@,
                        rel@.take(k),
                    ),
            decreases v.len() - i,
        {
            if i == v.len() || v[i] == '/' {
                assert(ends_component(rel@, i as int));
                let prefix = text::string_of(&v, 0, i);
                assert(prefix@ =~= rel@.take(i as int));
                if self.excludes(prefix.as_str()) {
                    return true;
                }
            }
            if i == v.len() {
                return false;
            }
            i = i + 1;
        }
    }
}

/// Excluding a directory excludes everything below it.
pub proof fn law_exclusion_covers_tree(rules: Set<Seq<char>>, dir: Seq<char>, below: Seq<char>)
    requires
        names_above(rules, dir),
    ensures
        names_above(rules, dir.push('/') + below),
{
    let rel = dir.push('/') + below;
    let i = choose|i: int| #[trigger] ends_component(dir, i) && names(rules, dir.take(i));
    assert(rel.take(i) =~= dir.take(i));
    assert(ends_component(rel, i));
}

/// A text without patterns excludes nothing.
pub proof fn law_blank_rules_exclude_nothing(rel: Seq<char>)
    ensures
        !names_above(Set::<Seq<char>>::empty(), rel),
{
}

/// The name of an archive that is opened by itself: with an archive's extension, and
/// the first volume where there are several.
pub open spec fn is_archive_name(name: Seq<char>) -> bool {
    let parts = text::split_on(name, '.');
    let n = parts.len() as int;
    let before = parts[n - 2];
    if n < 2 {
        false
    } else if text::lower(parts[n - 1]) == "001"@ {
        n >= 3 && fsutil::is_volume_suffix(before)
    } else if text::lower(parts[n - 1]) == "rar"@ && fsutil::is_part_number(before) {
        text::digits_value(before.skip(4)) == 1
    } else {
        fsutil::is_volume_suffix(parts[n - 1])
    }
}

/// Whether a file is named like an archive that is opened by itself.
pub fn archive_name(name: &str) -> (r: bool)
    ensures
        r == is_archive_name(name@),
{
    let parts = text::split(name, '.');
    let ghost all = text::split_on(name@, '.');
    let n: usize = parts.len();
    if n < 2 {
        return false;
    }
    let last = parts[n - 1].as_str();
    let before = parts[n - 2].as_str();
    assert(last@ == all[n - 1]);
    assert(before@ == all[n - 2]);
    let low = text::lower_text(last);
    if text::same(low.as_str(), "001") {
        return n >= 3 && fsutil::is_volume_suffix_component(before);
    }
    if text::same(low.as_str(), "rar") && fsutil::is_part_rar_component(before) {
        let v = text::chars_of(before);
        let digits = text::string_of(&v, 4, v.len());
        assert(digits@ =~= before@.skip(4));
        assert(text::is_digit(digits@[0]));
        return match text::parse_u64(digits.as_str()) {
            Some(k) => k == 1,
            None => false,
        };
    }
    fsutil::is_volume_suffix_component(last)
}

/// A path is excluded where the rules name it, or any directory above it.
pub proof fn law_what_is_excluded(rules: Set<Seq<char>>, dir: Seq<char>, rest: Seq<char>)
    ensures
        rules.contains(dir) ==> names(rules, dir),
        rules.contains(dir.push('/')) ==> names(rules, dir),
        names(rules, dir) ==> names_above(rules, dir) && names_above(rules, dir.push('/') + rest),
        !rules.contains(dir) && !rules.contains(dir.push('/')) ==> !names(rules, dir),
{
    assert(dir.take(dir.len() as int) =~= dir);
    assert(ends_component(dir, dir.len() as int));
    let below = dir.push('/') + rest;
    assert(below.take(dir.len() as int) =~= dir);
    assert(ends_component(below, dir.len() as int));
}

/// The patterns of a text are its pieces between semicolons, without white space at the
/// ends and without those that are empty, in order.
pub proof fn law_patterns_are_the_pieces(parts: Seq<Seq<char>>, more: Seq<char>)
    ensures
        nonblank(Seq::empty()) == Seq::<Seq<char>>::empty(),
        text::trimmed(more).len() == 0 ==> nonblank(parts.push(more)) == nonblank(parts),
        text::trimmed(more).len() > 0 ==> nonblank(parts.push(more)) == nonblank(parts).push(
            text::trimmed(more),
        ),
        nonblank(parts).len() <= parts.len(),
    decreases parts.len(),
{
    assert(parts.push(more).drop_last() =~= parts);
    if parts.len() > 0 {
        law_patterns_are_the_pieces(parts.drop_last(), more);
    }
}

/// The endings of files that are opened as archives.
pub open spec fn is_archive_ending(e: Seq<char>) -> bool {
    ||| e == "7z"@ || e == "zip"@ || e == "rar"@ || e == "tar"@ || e == "gz"@ || e == "bz2"@
    ||| e == "xz"@ || e == "zst"@ || e == "lzma"@ || e == "z"@ || e == "tgz"@ || e == "tbz2"@
    ||| e == "txz"@ || e == "tzst"@
}

proof fn split_of_two(stem: Seq<char>, ending: Seq<char>)
    requires
        !ending.contains('.'),
    ensures
        ({
            let parts = text::split_on(stem + seq!['.'] + ending, '.');
            &&& parts.len() >= 2
            &&& parts.last() == ending
            &&& parts.drop_last() == text::split_on(stem, '.')
        }),
{
    assert(stem + seq!['.'] + ending =~= stem.push('.') + ending);
    text::split_append(stem, ending, '.');
    text::split_nonempty(stem, '.');
    let parts = text::split_on(stem, '.').push(ending);
    assert(parts.drop_last() =~= text::split_on(stem, '.'));
}

/// A file is opened as an archive by its ending, in whatever case; of a RAR file in parts
/// only the first one is.
pub proof fn law_archives_by_their_ending(stem: Seq<char>, ending: Seq<char>)
    requires
        !ending.contains('.'),
        text::lower(ending) != "001"@,
    ensures
        ({
            let name = stem + seq!['.'] + ending;
            let before = text::split_on(stem, '.').last();
            let part = text::lower(ending) == "rar"@ && fsutil::is_part_number(before);
            &&& !part ==> (is_archive_name(name) <==> is_archive_ending(text::lower(ending)))
            &&& part ==> (is_archive_name(name) <==> text::digits_value(before.skip(4)) == 1)
        }),
{
    split_of_two(stem, ending);
    let parts = text::split_on(stem + seq!['.'] + ending, '.');
    text::split_nonempty(stem, '.');
    assert(parts[parts.len() - 2] == parts.drop_last().last());
}

/// Of an archive in numbered pieces the first one is opened, where an ending for archives
/// stands in front of the number.
pub proof fn law_first_pieces_are_opened(stem: Seq<char>, ending: Seq<char>)
    requires
        !ending.contains('.'),
    ensures
        is_archive_name(stem + seq!['.'] + ending + ".001"@) <==> is_archive_ending(
            text::lower(ending),
        ),
{
    reveal_strlit(".001");
    reveal_strlit("001");
    let inner = stem + seq!['.'] + ending;
    let name = inner + ".001"@;
    assert(name =~= inner + seq!['.'] + "001"@);
    assert(!"001"@.contains('.'));
    split_of_two(inner, "001"@);
    split_of_two(stem, ending);
    text::split_nonempty(stem, '.');
    let parts = text::split_on(name, '.');
    assert(text::lower("001"@) =~= "001"@);
    assert(parts[parts.len() - 2] == parts.drop_last().last());
}

/// A name without a dot is that of no archive.
pub proof fn law_no_archive_without_an_ending(name: Seq<char>)
    requires
        !name.contains('.'),
    ensures
        !is_archive_name(name),
{
    text::split_whole(name, '.');
}

} // verus!
