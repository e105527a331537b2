//! Which entries of the chosen directory take part at all. The scan, the count of
//! archives and the final cleaning share this one rule.

use crate::fsutil;
use crate::fsutil::GitProbe;
use crate::rules;
use crate::rules::Exclusions;
use crate::text;
use vstd::prelude::*;

verus! {

/// The tool's work directory below the chosen one.
pub const WORK_DIR: &'static str = ".jchtools-work";

/// How the names of temporary links start.
pub const LINK_PREFIX: &'static str = ".jchtools-link-";

/// What is known of an entry besides its name.
#[derive(Clone, Copy, Debug, PartialEq, Eq, Structural)]
pub struct EntryFacts {
    /// A symbolic link or another reparse point.
    pub link: bool,
    /// The file attributes, on systems that have them.
    pub attributes: Option<u32>,
}

/// The rules that take entries out.
pub struct ScopeFilter {
    pub excluded: Exclusions,
    pub include_hidden: bool,
    pub include_system: bool,
    /// The directory for failed archives, where it is left out.
    pub quarantine: Option<String>,
    /// The state directory, where it lies below the chosen one.
    pub state_prefix: Option<String>,
    /// The program's directory, where it lies below the chosen one.
    pub exe_prefix: Option<String>,
    /// The chosen directory lies in the state or the program's directory.
    pub root_under_special: bool,
}

/// The path is the directory or lies in it.
pub open spec fn is_within(rel: Seq<char>, dir: Seq<char>) -> bool {
    rel == dir || text::has_prefix(rel, dir.push('/'))
}

/// The path is the given directory or lies in it.
pub open spec fn is_within_option(rel: Seq<char>, dir: Option<String>) -> bool {
    match dir {
        Some(d) => is_within(rel, d@),
        None => false,
    }
}

/// Hidden: by its attribute, or by its name where there are no attributes.
pub open spec fn is_hidden(name: Seq<char>, facts: EntryFacts) -> bool {
    match facts.attributes {
        Some(a) => a & 2 != 0,
        None => text::has_prefix(name, "."@),
    }
}

/// A system file, where there are attributes.
pub open spec fn is_system(facts: EntryFacts) -> bool {
    match facts.attributes {
        Some(a) => a & 4 != 0,
        None => false,
    }
}

/// An entry is left out.
pub open spec fn is_pruned(
    f: ScopeFilter,
    rel: Seq<char>,
    name: Seq<char>,
    facts: EntryFacts,
) -> bool {
    ||| f.root_under_special
    ||| facts.link
    ||| is_within(rel, WORK_DIR@)
    ||| text::has_prefix(name, LINK_PREFIX@)
    ||| is_within_option(rel, f.state_prefix)
    ||| is_within_option(rel, f.exe_prefix)
    ||| is_within_option(rel, f.quarantine)
    ||| rules::names(f.excluded@, rel)
    ||| (!f.include_hidden && is_hidden(name, facts))
    ||| (!f.include_system && is_system(facts))
}

/// Whether a path is a directory or lies in it.
pub fn within(rel: &str, dir: &str) -> (r: bool)
    ensures
        r == is_within(rel@, dir@),
{
    let mut inside = dir.to_owned();
    inside.push('/');
    text::same(rel, dir) || text::starts_with(rel, inside.as_str())
}

fn within_option(rel: &str, dir: &Option<String>) -> (r: bool)
    ensures
        r == is_within_option(rel@, *dir),
{
    match dir {
        Some(d) => within(rel, d.as_str()),
        None => false,
    }
}

impl ScopeFilter {
    /// Whether an entry is left out.
    pub fn prunes(&self, rel: &str, name: &str, facts: EntryFacts) -> (r: bool)
        ensures
            r == is_pruned(*self, rel@, name@, facts),
    {
        if self.root_under_special || facts.link || within(rel, WORK_DIR) || text::starts_with(
            name,
            LINK_PREFIX,
        ) {
            return true;
        }
        if within_option(rel, &self.state_prefix) || within_option(rel, &self.exe_prefix)
            || within_option(rel, &self.quarantine) {
            return true;
        }
        if self.excluded.excludes(rel) {
            return true;
        }
        let hidden: bool = match facts.attributes {
            Some(a) => a & 2 != 0,
            None => text::starts_with(name, "."),
        };
        let system: bool = match facts.attributes {
            Some(a) => a & 4 != 0,
            None => false,
        };
        (!self.include_hidden && hidden) || (!self.include_system && system)
    }
}

/// What is left out stays out with everything else added to the rules: leaving out
/// hidden files and system files only ever takes more entries out.
pub proof fn law_narrower_scope_prunes_more(
    wide: ScopeFilter,
    narrow: ScopeFilter,
    rel: Seq<char>,
    name: Seq<char>,
    facts: EntryFacts,
)
    requires
        narrow == (ScopeFilter {
            include_hidden: narrow.include_hidden,
            include_system: narrow.include_system,
            ..wide
        }),
        narrow.include_hidden ==> wide.include_hidden,
        narrow.include_system ==> wide.include_system,
        is_pruned(wide, rel, name, facts),
    ensures
        is_pruned(narrow, rel, name, facts),
{
}

/// The place of a special directory below the chosen one, unless it is that
/// directory itself.
pub open spec fn prefix_below(root: Seq<Seq<char>>, special: Option<Seq<Seq<char>>>) -> Option<
    Seq<char>,
> {
    match special {
        Some(dir) => if fsutil::is_under(root, dir) && fsutil::relative_text(root, dir).len() > 0 {
            Some(fsutil::relative_text(root, dir))
        } else {
            None
        },
        None => None,
    }
}

/// The chosen directory is or lies in a special one.
pub open spec fn lies_in(root: Seq<Seq<char>>, special: Option<Seq<Seq<char>>>) -> bool {
    match special {
        Some(dir) => fsutil::is_under(dir, root),
        None => false,
    }
}

/// The components of a path, where there is one.
pub open spec fn parts_option(dir: Option<&Vec<String>>) -> Option<Seq<Seq<char>>> {
    match dir {
        Some(v) => Some(text::texts(v@)),
        None => None,
    }
}

fn one_prefix(root: &Vec<String>, special: Option<&Vec<String>>) -> (r: Option<String>)
    ensures
        text::text_option(r) == prefix_below(text::texts(root@), parts_option(special)),
{
    match special {
        Some(dir) => match fsutil::relative_string(root, dir) {
            Ok(rel) => if rel.as_str().is_empty() {
                None
            } else {
                Some(rel)
            },
            Err(_) => None,
        },
        None => None,
    }
}

/// Whether the chosen directory is or lies in a special one. Paths are given by their
/// components.
pub fn root_lies_in(root: &Vec<String>, special: Option<&Vec<String>>) -> (r: bool)
    ensures
        r == lies_in(text::texts(root@), parts_option(special)),
{
    match special {
        Some(dir) => match fsutil::relative_string(dir, root) {
            Ok(_) => true,
            Err(_) => false,
        },
        None => false,
    }
}

/// Where the state directory and the program's directory lie: their places below the
/// chosen directory, and whether that lies in one of them. Paths are given by their
/// components.
pub fn special_prefixes(
    root: &Vec<String>,
    state: Option<&Vec<String>>,
    executable_dir: Option<&Vec<String>>,
) -> (r: (Option<String>, Option<String>, bool))
    ensures
        text::text_option(r.0) == prefix_below(text::texts(root@), parts_option(state)),
        text::text_option(r.1) == prefix_below(text::texts(root@), parts_option(executable_dir)),
        r.2 == (lies_in(text::texts(root@), parts_option(state)) || lies_in(
            text::texts(root@),
            parts_option(executable_dir),
        )),
{
    (
        one_prefix(root, state),
        one_prefix(root, executable_dir),
        root_lies_in(root, state) || root_lies_in(root, executable_dir),
    )
}

/// An entry that the count of archives comes to.
#[derive(Debug)]
pub struct CountEntry {
    /// Whether its metadata could be read.
    pub readable: bool,
    pub is_dir: bool,
    pub is_file: bool,
    /// Whether a `.git` was found in it; of no meaning for files.
    pub git: GitProbe,
    /// The path below the chosen directory, if it can be written.
    pub rel: Option<String>,
    /// The name; with replacement characters where it is no UTF-8.
    pub name: String,
    pub utf8: bool,
    pub facts: EntryFacts,
}

/// The count goes on with an entry and, for a directory, with what is in it.
pub open spec fn is_counted_in(f: ScopeFilter, e: CountEntry) -> bool {
    &&& e.readable
    &&& !(e.is_dir && e.git != GitProbe::Clean)
    &&& match e.rel {
        None => false,
        Some(rel) => rel@.len() == 0 || !is_pruned(f, rel@, e.name@, e.facts),
    }
}

/// An entry is an archive that the extraction would take.
pub open spec fn is_counted(f: ScopeFilter, e: CountEntry) -> bool {
    is_counted_in(f, e) && e.is_file && e.utf8 && rules::is_archive_name(e.name@)
}

/// How many archives are among the first `k` entries.
pub open spec fn archives_among(f: ScopeFilter, entries: Seq<CountEntry>, k: int) -> nat
    decreases k,
{
    if k <= 0 {
        0
    } else {
        archives_among(f, entries, k - 1) + if is_counted(f, entries[k - 1]) {
            1nat
        } else {
            0
        }
    }
}

/// Whether the count goes on with an entry.
pub fn counts_in(f: &ScopeFilter, e: &CountEntry) -> (r: bool)
    ensures
        r == is_counted_in(*f, *e),
{
    if !e.readable || (e.is_dir && !matches!(e.git, GitProbe::Clean)) {
        return false;
    }
    match &e.rel {
        None => false,
        Some(rel) => rel.as_str().is_empty() || !f.prunes(rel.as_str(), e.name.as_str(), e.facts),
    }
}

/// How many archives there are for the extraction to take.
pub fn count_archives(f: &ScopeFilter, entries: &Vec<CountEntry>) -> (r: u64)
    ensures
        r == archives_among(*f, entries@, entries@.len() as int),
        f.root_under_special && (forall|i: int|
            0 <= i < entries@.len() ==> ((#[trigger] entries@[i]).rel matches Some(rel) ==> rel@.len()
                > 0)) ==> r == 0,
{
    let mut n: u64 = 0;
    let mut i: usize = 0;
    while i < entries.len()
        invariant
            i <= entries@.len(),
            n <= i,
            n == archives_among(*f, entries@, i as int),
            f.root_under_special && (forall|i: int|
                0 <= i < entries@.len() ==> ((#[trigger] entries@[i]).rel matches Some(
                    rel,
                ) ==> rel@.len() > 0)) ==> n == 0,
        decreases entries.len() - i,
    {
        let e = &entries[i];
        if counts_in(f, e) && e.is_file && e.utf8 && rules::archive_name(e.name.as_str()) {
            n = n + 1;
        }
        i = i + 1;
    }
    n
}

/// What takes part: an entry does exactly where nothing speaks against it. It is no link,
/// does not lie in the work directory, in that of the state, of the program or of failed
/// archives, is not named like a temporary link, is not excluded, and is hidden or a
/// system file only where those are asked for.
pub proof fn law_what_takes_part(
    f: ScopeFilter,
    rel: Seq<char>,
    name: Seq<char>,
    facts: EntryFacts,
)
    ensures
        ({
            let hidden = match facts.attributes {
                Some(a) => a & 2 != 0,
                None => name.len() > 0 && name[0] == '.',
            };
            let system = facts.attributes matches Some(a) && a & 4 != 0;
            !is_pruned(f, rel, name, facts) <==> {
                &&& !f.root_under_special
                &&& !facts.link
                &&& !is_within(rel, ".jchtools-work"@)
                &&& !text::has_prefix(name, ".jchtools-link-"@)
                &&& f.state_prefix matches Some(d) ==> !is_within(rel, d@)
                &&& f.exe_prefix matches Some(d) ==> !is_within(rel, d@)
                &&& f.quarantine matches Some(d) ==> !is_within(rel, d@)
                &&& !f.excluded@.contains(rel) && !f.excluded@.contains(rel.push('/'))
                &&& hidden ==> f.include_hidden
                &&& system ==> f.include_system
            }
        }),
{
    reveal_strlit(".");
    if name.len() > 0 {
        assert(name.subrange(0, 1)[0] == name[0]);
        if name[0] == '.' {
            assert(name.subrange(0, 1) =~= "."@);
        }
    }
}

/// A directory holds itself and what stands below it, and nothing whose name only starts
/// like its own.
pub proof fn law_what_lies_in_a_directory(dir: Seq<char>, rest: Seq<char>, c: char)
    ensures
        is_within(dir, dir),
        is_within(dir + seq!['/'] + rest, dir),
        c != '/' ==> !is_within(dir.push(c) + rest, dir),
        rest.len() > 0 && is_within(dir + rest, dir) ==> rest[0] == '/',
{
    let below = dir + seq!['/'] + rest;
    assert(below.subrange(0, dir.len() as int + 1) =~= dir.push('/'));
    let beside = dir.push(c) + rest;
    if is_within(beside, dir) {
        assert(beside.len() > dir.len());
        assert(beside.subrange(0, dir.len() as int + 1)[dir.len() as int] == c);
        assert(dir.push('/')[dir.len() as int] == '/');
    }
    let s = dir + rest;
    if rest.len() > 0 && is_within(s, dir) {
        assert(s.len() != dir.len());
        assert(s.subrange(0, dir.len() as int + 1)[dir.len() as int] == rest[0]);
        assert(dir.push('/')[dir.len() as int] == '/');
    }
}

/// Where a directory lies below the chosen one, its place is the rest of its path; one that
/// lies elsewhere, or is the chosen one, has none there.
pub proof fn law_special_places(root: Seq<Seq<char>>, more: Seq<Seq<char>>)
    ensures
        lies_in(root + more, Some(root)),
        lies_in(root, Some(root)),
        !lies_in(root, None),
        prefix_below(root, None) is None,
        prefix_below(root + more, Some(root)) is Some ==> more.len() == 0,
        prefix_below(root, Some(root + more)) matches Some(p) ==> p == fsutil::relative_text(
            root,
            root + more,
        ),
        more.len() > 0 && fsutil::relative_text(root, root + more).len() > 0 ==> prefix_below(
            root,
            Some(root + more),
        ) is Some,
{
    let whole = root + more;
    assert(whole.take(root.len() as int) =~= root);
    assert(root.take(root.len() as int) =~= root);
}

/// The count is of the archives that take part: files with an archive's name that can be
/// read and written down, outside of git projects.
pub proof fn law_which_archives_are_counted(f: ScopeFilter, e: CountEntry)
    ensures
        is_counted(f, e) <==> e.is_file && e.readable && e.utf8 && rules::is_archive_name(e.name@)
            && (e.is_dir ==> e.git == GitProbe::Clean) && (e.rel matches Some(rel) && (rel@.len()
            == 0 || !is_pruned(f, rel@, e.name@, e.facts))),
{
}

/// The count of two stretches is the sum, and each entry counts once at most.
pub proof fn law_archives_are_counted_once(f: ScopeFilter, entries: Seq<CountEntry>, k: int)
    requires
        0 <= k < entries.len(),
    ensures
        archives_among(f, entries, 0) == 0,
        archives_among(f, entries, k + 1) == archives_among(f, entries, k) + if is_counted(
            f,
            entries[k],
        ) {
            1nat
        } else {
            0
        },
{
}

} // verus!
