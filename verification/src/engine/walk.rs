//! What a scan makes of one directory: which entries are taken, which are passed
//! over, and which directories may no longer be taken for empty.

use crate::archive::boundaries;
use crate::engine::scope;
use crate::engine::scope::{EntryFacts, ScopeFilter};
use crate::fsutil;
use crate::fsutil::GitProbe;
use crate::text;
use vstd::prelude::*;

verus! {

/// The kind of an entry.
#[derive(Clone, Copy, Debug, PartialEq, Eq, Structural)]
pub enum EntryType {
    /// A directory, with what was found of a `.git` in it. Only asked where the
    /// scan does not go into directories.
    Dir(GitProbe),
    /// A file, and whether its data could be read.
    File(bool),
    Other,
}

/// An entry of a directory as it was read.
#[derive(Debug)]
pub enum DirEntry {
    /// The listing failed at this point.
    Failed,
    /// The name cannot be written as UTF-8.
    NotUtf8,
    /// The metadata could not be read.
    NoMetadata,
    Seen { name: String, facts: EntryFacts, kind: EntryType },
}

/// What is done with an entry.
#[derive(Clone, Copy, Debug, PartialEq, Eq, Structural)]
pub enum EntryVerdict {
    /// It cannot be read; this is noted.
    Unreadable,
    /// It is out of scope.
    Pruned,
    /// A git project that the scan does not go into.
    GitTree,
    /// Whether it is a git project is not known; this is noted.
    GitUnknown,
    /// A directory that is recorded.
    Directory,
    /// A file that is recorded.
    File,
    /// Neither a file nor a directory.
    Special,
}

/// What is done with an entry of the directory `rel`.
pub open spec fn entry_verdict(
    f: ScopeFilter,
    recursive: bool,
    rel: Seq<char>,
    e: DirEntry,
) -> EntryVerdict {
    match e {
        DirEntry::Failed => EntryVerdict::Unreadable,
        DirEntry::NotUtf8 => EntryVerdict::Unreadable,
        DirEntry::NoMetadata => EntryVerdict::Unreadable,
        DirEntry::Seen { name, facts, kind } => if scope::is_pruned(
            f,
            fsutil::below(rel, name@),
            name@,
            facts,
        ) {
            EntryVerdict::Pruned
        } else {
            match kind {
                EntryType::Dir(git) => if recursive || git == GitProbe::Clean {
                    EntryVerdict::Directory
                } else if git == GitProbe::GitRoot {
                    EntryVerdict::GitTree
                } else {
                    EntryVerdict::GitUnknown
                },
                EntryType::File(true) => EntryVerdict::File,
                EntryType::File(false) => EntryVerdict::Unreadable,
                EntryType::Other => EntryVerdict::Special,
            }
        },
    }
}

/// Decides what is done with an entry of the directory `rel`.
pub fn judge_entry(f: &ScopeFilter, recursive: bool, rel: &str, e: &DirEntry) -> (r: EntryVerdict)
    ensures
        r == entry_verdict(*f, recursive, rel@, *e),
{
    match e {
        DirEntry::Failed => EntryVerdict::Unreadable,
        DirEntry::NotUtf8 => EntryVerdict::Unreadable,
        DirEntry::NoMetadata => EntryVerdict::Unreadable,
        DirEntry::Seen { name, facts, kind } => {
            let child = fsutil::join_below(rel, name.as_str());
            if f.prunes(child.as_str(), name.as_str(), *facts) {
                return EntryVerdict::Pruned;
            }
            match *kind {
                EntryType::Dir(git) => if recursive {
                    EntryVerdict::Directory
                } else {
                    match git {
                        GitProbe::Clean => EntryVerdict::Directory,
                        GitProbe::GitRoot => EntryVerdict::GitTree,
                        GitProbe::Unreadable => EntryVerdict::GitUnknown,
                    }
                },
                EntryType::File(true) => EntryVerdict::File,
                EntryType::File(false) => EntryVerdict::Unreadable,
                EntryType::Other => EntryVerdict::Special,
            }
        },
    }
}

/// The entry stays on disk without being recorded: the directory that it is in must
/// not be taken for empty.
pub open spec fn leaves_content(v: EntryVerdict) -> bool {
    v == EntryVerdict::Unreadable || v == EntryVerdict::Pruned || v == EntryVerdict::Special
}

/// The positions of the entries with one of two verdicts, among the first `k`.
pub open spec fn with_verdict(
    f: ScopeFilter,
    recursive: bool,
    rel: Seq<char>,
    entries: Seq<DirEntry>,
    a: EntryVerdict,
    b: EntryVerdict,
    k: int,
) -> Seq<usize>
    decreases k,
{
    if k <= 0 {
        Seq::empty()
    } else {
        let rest = with_verdict(f, recursive, rel, entries, a, b, k - 1);
        let v = entry_verdict(f, recursive, rel, entries[k - 1]);
        if v == a || v == b {
            rest.push((k - 1) as usize)
        } else {
            rest
        }
    }
}

/// What a scan makes of a directory. Entries are given by their positions.
#[derive(Debug)]
pub struct DirOutcome {
    /// Files and directories to record, in the order of the listing.
    pub children: Vec<usize>,
    /// Directories to go into.
    pub subdirs: Vec<usize>,
    /// Git projects that are passed over.
    pub git_skips: Vec<usize>,
    /// Directories of which it is not known.
    pub git_unknown: Vec<usize>,
    /// Entries that could not be read.
    pub notes: Vec<usize>,
    /// The directory holds something that is not recorded.
    pub tainted: bool,
}

/// What a scan makes of the first `k` entries of a directory.
pub open spec fn is_outcome(
    f: ScopeFilter,
    recursive: bool,
    rel: Seq<char>,
    entries: Seq<DirEntry>,
    k: int,
    o: DirOutcome,
) -> bool {
    &&& o.children@ == with_verdict(
        f,
        recursive,
        rel,
        entries,
        EntryVerdict::Directory,
        EntryVerdict::File,
        k,
    )
    &&& o.subdirs@ == (if recursive {
        with_verdict(
            f,
            recursive,
            rel,
            entries,
            EntryVerdict::Directory,
            EntryVerdict::Directory,
            k,
        )
    } else {
        Seq::empty()
    })
    &&& o.git_skips@ == with_verdict(
        f,
        recursive,
        rel,
        entries,
        EntryVerdict::GitTree,
        EntryVerdict::GitTree,
        k,
    )
    &&& o.git_unknown@ == with_verdict(
        f,
        recursive,
        rel,
        entries,
        EntryVerdict::GitUnknown,
        EntryVerdict::GitUnknown,
        k,
    )
    &&& o.notes@ == with_verdict(
        f,
        recursive,
        rel,
        entries,
        EntryVerdict::Unreadable,
        EntryVerdict::Unreadable,
        k,
    )
    &&& o.tainted <==> exists|i: int|
        0 <= i < k && leaves_content(
            entry_verdict(f, recursive, rel, #[trigger] entries[i]),
        )
}

/// What a scan makes of the entries of the directory `rel`.
pub fn walk_dir(f: &ScopeFilter, recursive: bool, rel: &str, entries: &Vec<DirEntry>) -> (r:
    DirOutcome)
    ensures
        is_outcome(*f, recursive, rel@, entries@, entries@.len() as int, r),
{
    let mut o = DirOutcome {
        children: Vec::new(),
        subdirs: Vec::new(),
        git_skips: Vec::new(),
        git_unknown: Vec::new(),
        notes: Vec::new(),
        tainted: false,
    };
    let mut i: usize = 0;
    while i < entries.len()
        invariant
            i <= entries@.len(),
            is_outcome(*f, recursive, rel@, entries@, i as int, o),
        decreases entries.len() - i,
    {
        let v = judge_entry(f, recursive, rel, &entries[i]);
        let ghost before = o.tainted;
        match v {
            EntryVerdict::Unreadable => {
                o.notes.push(i);
                o.tainted = true;
            },
            EntryVerdict::Pruned => {
                o.tainted = true;
            },
            EntryVerdict::GitTree => {
                o.git_skips.push(i);
            },
            EntryVerdict::GitUnknown => {
                o.git_unknown.push(i);
            },
            EntryVerdict::Directory => {
                o.children.push(i);
                if recursive {
                    o.subdirs.push(i);
                }
            },
            EntryVerdict::File => {
                o.children.push(i);
            },
            EntryVerdict::Special => {
                o.tainted = true;
            },
        }
        proof {
            if leaves_content(v) {
                assert(leaves_content(entry_verdict(*f, recursive, rel@, entries@[i as int])));
            }
            if before {
                let k = choose|k: int|
                    0 <= k < i && leaves_content(
                        entry_verdict(*f, recursive, rel@, #[trigger] entries@[k]),
                    );
                assert(leaves_content(entry_verdict(*f, recursive, rel@, entries@[k])));
            }
        }
        i = i + 1;
    }
    o
}

/// Every entry ends in exactly one place: recorded, passed over as a git project, or
/// remembered as content that keeps the directory from being empty.
pub proof fn law_no_entry_is_lost(f: ScopeFilter, recursive: bool, rel: Seq<char>, e: DirEntry)
    ensures
        ({
            let v = entry_verdict(f, recursive, rel, e);
            let recorded = v == EntryVerdict::Directory || v == EntryVerdict::File;
            let git = v == EntryVerdict::GitTree || v == EntryVerdict::GitUnknown;
            &&& recorded || git || leaves_content(v)
            &&& !(recorded && git) && !(recorded && leaves_content(v)) && !(git && leaves_content(v))
        }),
{
}

/// A directory and the directories above it, from the inside out.
pub open spec fn ancestry(rel: Seq<char>) -> Seq<Seq<char>>
    decreases rel.len(),
{
    match text::last_pos(rel, '/') {
        Some(_) => {
            proof {
                boundaries::parent_shorter(rel);
            }
            if rel.len() == 0 {
                seq![rel]
            } else {
                seq![rel] + ancestry(boundaries::parent_of(rel))
            }
        },
        None => seq![rel],
    }
}

/// The directories that hold a git project and so may not be taken for empty: the
/// project itself and all directories above it.
pub fn taint_git_ancestors(rel: &str) -> (r: Vec<String>)
    ensures
        text::texts(r@) == ancestry(rel@),
{
    let mut out: Vec<String> = Vec::new();
    let mut rest = rel.to_owned();
    let mut more: bool = true;
    proof {
        assert(text::texts(out@) + ancestry(rest@) =~= ancestry(rel@));
    }
    while more
        invariant
            more ==> text::texts(out@) + ancestry(rest@) == ancestry(rel@),
            !more ==> text::texts(out@) == ancestry(rel@),
        decreases (if more {
            1 + rest@.len()
        } else {
            0
        }),
    {
        let v = text::chars_of(rest.as_str());
        let ghost before = out@;
        let ghost now = rest@;
        assert(v@.take(v@.len() as int) =~= v@);
        let found = text::last_index(&v, v.len(), '/');
        let parent = boundaries::parent_rel(rest.as_str());
        out.push(rest);
        proof {
            boundaries::parent_shorter(now);
            assert(text::texts(out@) =~= text::texts(before).push(now));
        }
        match found {
            Some(_) => {
                proof {
                    assert(now.len() > 0);
                    assert(text::texts(out@) + ancestry(parent@) =~= text::texts(before) + ancestry(
                        now,
                    ));
                }
            },
            None => {
                more = false;
                assert(text::texts(out@) =~= text::texts(before) + ancestry(now));
            },
        }
        rest = parent;
    }
    out
}

/// The last slash of a path lies at or behind every other one.
proof fn last_slash(rel: Seq<char>, at: int)
    requires
        0 <= at < rel.len(),
        rel[at] == '/',
    ensures
        text::last_pos(rel, '/') matches Some(i) && at <= i < rel.len() && rel[i] == '/',
    decreases rel.len(),
{
    if rel.last() != '/' {
        assert(rel.drop_last()[at] == '/');
        last_slash(rel.drop_last(), at);
    }
}

/// Every directory above a git project is remembered: none of them can be taken for
/// empty.
pub proof fn law_every_directory_above_is_remembered(rel: Seq<char>, dir: Seq<char>)
    requires
        dir.len() > 0,
        scope::is_within(rel, dir),
    ensures
        ancestry(rel).contains(dir),
    decreases rel.len(),
{
    if rel == dir {
        assert(ancestry(rel)[0] == rel);
    } else {
        let inside = dir.push('/');
        assert(rel[dir.len() as int] == '/') by {
            assert(rel.subrange(0, inside.len() as int)[dir.len() as int] == inside[dir.len() as int]);
        }
        last_slash(rel, dir.len() as int);
        let i = text::last_pos(rel, '/')->0;
        let parent = boundaries::parent_of(rel);
        assert(parent == rel.take(i));
        if i == dir.len() {
            assert(parent =~= dir) by {
                assert forall|k: int| 0 <= k < dir.len() implies rel[k] == dir[k] by {
                    assert(rel.subrange(0, inside.len() as int)[k] == inside[k]);
                }
            }
        } else {
            assert(parent.subrange(0, inside.len() as int) =~= rel.subrange(
                0,
                inside.len() as int,
            ));
        }
        law_every_directory_above_is_remembered(parent, dir);
        let k = choose|k: int| 0 <= k < ancestry(parent).len() && ancestry(parent)[k] == dir;
        assert(ancestry(rel)[k + 1] == dir);
    }
}

/// The note on a directory of which it is not known whether it is a git project.
pub open spec fn unknown_git_text(why: Seq<char>) -> Seq<char> {
    "无法判定是否含 .git，已整树跳过："@ + why
}

/// The note on a directory of which it is not known whether it is a git project.
pub fn unknown_git_note(why: &str) -> (r: String)
    ensures
        r@ == unknown_git_text(why@),
{
    let mut r = String::new();
    r.append("无法判定是否含 .git，已整树跳过：");
    r.append(why);
    assert(r@ =~= unknown_git_text(why@));
    r
}

/// The note on an entry that cannot be read: what the system said, but where its name
/// cannot be written.
pub open spec fn entry_note_text(entry: DirEntry, why: Seq<char>) -> Seq<char> {
    match entry {
        DirEntry::NotUtf8 => "文件名不能无损表示为 UTF-8，已跳过"@,
        _ => why,
    }
}

/// The note on an entry that cannot be read.
pub fn entry_note(entry: &DirEntry, why: &str) -> (r: String)
    ensures
        r@ == entry_note_text(*entry, why@),
{
    let mut r = String::new();
    match entry {
        DirEntry::NotUtf8 => r.append("文件名不能无损表示为 UTF-8，已跳过"),
        _ => r.append(why),
    }
    assert(r@ =~= entry_note_text(*entry, why@));
    r
}

/// What is done with a directory before it is read.
#[derive(Debug)]
pub enum DirGate {
    /// It is read.
    Read,
    /// It is passed over with everything in it, and none of these directories may be
    /// taken for empty. The flag says that it is noted, since what it is is not known.
    Skip { taints: Vec<String>, noted: bool },
}

/// Decides whether a directory is read: a git project is not, nor is a directory of which
/// it is not known.
pub fn enter_dir(rel: &str, git: GitProbe) -> (r: DirGate)
    ensures
        match r {
            DirGate::Read => git == GitProbe::Clean,
            DirGate::Skip { taints, noted } => git != GitProbe::Clean && text::texts(taints@)
                == ancestry(rel@) && noted == (git == GitProbe::Unreadable),
        },
{
    match git {
        GitProbe::Clean => DirGate::Read,
        GitProbe::GitRoot => DirGate::Skip { taints: taint_git_ancestors(rel), noted: false },
        GitProbe::Unreadable => DirGate::Skip { taints: taint_git_ancestors(rel), noted: true },
    }
}

/// A directory that a scan came to: what was found of a `.git` in it, and its entries.
pub struct Visit {
    pub rel: Seq<char>,
    pub git: GitProbe,
    pub entries: Seq<DirEntry>,
}

/// The path of an entry with this verdict.
pub open spec fn has_entry(
    f: ScopeFilter,
    recursive: bool,
    v: Visit,
    i: int,
    verdict: EntryVerdict,
    path: Seq<char>,
) -> bool {
    &&& 0 <= i < v.entries.len()
    &&& entry_verdict(f, recursive, v.rel, v.entries[i]) == verdict
    &&& v.entries[i] matches DirEntry::Seen { name, .. } && path == fsutil::below(v.rel, name@)
}

/// The path is recorded when this directory is read.
pub open spec fn records(f: ScopeFilter, recursive: bool, v: Visit, path: Seq<char>) -> bool {
    v.git == GitProbe::Clean && exists|i: int|
        #![trigger v.entries[i]]
        has_entry(f, recursive, v, i, EntryVerdict::Directory, path) || has_entry(
            f,
            recursive,
            v,
            i,
            EntryVerdict::File,
            path,
        )
}

/// The scan goes from this directory into the one with this path.
pub open spec fn leads_to(f: ScopeFilter, recursive: bool, v: Visit, path: Seq<char>) -> bool {
    v.git == GitProbe::Clean && recursive && exists|i: int|
        #![trigger v.entries[i]]
        has_entry(f, recursive, v, i, EntryVerdict::Directory, path)
}

/// The path is passed over as a git project, or as a directory of which it is not known:
/// before it was read, or, where the scan does not go into directories, as an entry.
pub open spec fn passes_over(f: ScopeFilter, recursive: bool, v: Visit, path: Seq<char>) -> bool {
    ||| v.git != GitProbe::Clean && v.rel == path
    ||| v.git == GitProbe::Clean && exists|i: int|
        #![trigger v.entries[i]]
        has_entry(f, recursive, v, i, EntryVerdict::GitTree, path) || has_entry(
            f,
            recursive,
            v,
            i,
            EntryVerdict::GitUnknown,
            path,
        )
}

/// A name that can stand in a directory.
pub open spec fn is_entry_name(e: DirEntry) -> bool {
    e matches DirEntry::Seen { name, .. } ==> name@.len() > 0 && !name@.contains('/')
}

/// The directories that a scan comes to, in order: the chosen one, then only such as an
/// earlier one leads to. In each a `.git` is looked for with one answer.
pub open spec fn is_walk(f: ScopeFilter, recursive: bool, visits: Seq<Visit>) -> bool {
    &&& visits.len() > 0
    &&& visits[0].rel.len() == 0
    &&& forall|k: int|
        0 < k < visits.len() ==> exists|j: int|
            0 <= j < k && #[trigger] leads_to(
                f,
                recursive,
                visits[j],
                (#[trigger] visits[k]).rel,
            )
    &&& forall|j: int, k: int|
        0 <= j < visits.len() && 0 <= k < visits.len() && (#[trigger] visits[j]).rel == (
        #[trigger] visits[k]).rel ==> visits[j].git == visits[k].git
    &&& forall|k: int, i: int|
        0 <= k < visits.len() && 0 <= i < visits[k].entries.len() ==> is_entry_name(
            #[trigger] visits[k].entries[i],
        )
}

/// The directory of a path that lies below another one is that one or lies below it.
proof fn parent_within(rel: Seq<char>, name: Seq<char>, dir: Seq<char>)
    requires
        name.len() > 0,
        !name.contains('/'),
        scope::is_within(fsutil::below(rel, name), dir),
        fsutil::below(rel, name) != dir,
        dir.len() > 0,
    ensures
        rel.len() > 0,
        scope::is_within(rel, dir),
{
    let path = fsutil::below(rel, name);
    let n = dir.len() as int;
    let inside = dir.push('/');
    assert(path.subrange(0, inside.len() as int) == inside);
    assert(path[n] == '/') by {
        assert(path.subrange(0, inside.len() as int)[n] == inside[n]);
    }
    assert forall|k: int| 0 <= k < n implies path[k] == dir[k] by {
        assert(path.subrange(0, inside.len() as int)[k] == inside[k]);
    }
    if rel.len() == 0 {
        assert(path =~= name);
        assert(name.contains(name[n]));
    } else {
        if n > rel.len() {
            assert(path[n] == name[n - rel.len() - 1]);
            assert(name.contains(name[n - rel.len() - 1]));
        }
        if n == rel.len() {
            assert(rel =~= dir) by {
                assert forall|k: int| 0 <= k < n implies rel[k] == dir[k] by {
                    assert(path[k] == rel[k]);
                }
            }
        } else {
            assert(rel[n] == path[n]);
            assert(rel.subrange(0, inside.len() as int) =~= inside) by {
                assert forall|k: int| 0 <= k < n implies rel[k] == dir[k] by {
                    assert(path[k] == rel[k]);
                }
            }
        }
    }
}

/// Every directory above one that the scan came to was read.
proof fn above_was_read(
    f: ScopeFilter,
    recursive: bool,
    visits: Seq<Visit>,
    k: int,
    dir: Seq<char>,
) -> (j: int)
    requires
        is_walk(f, recursive, visits),
        0 <= k < visits.len(),
        dir.len() > 0,
        scope::is_within(visits[k].rel, dir),
    ensures
        0 <= j <= k,
        visits[j].rel == dir,
        j == k || visits[j].git == GitProbe::Clean,
    decreases k,
{
    if visits[k].rel == dir {
        k
    } else {
        if k == 0 {
            assert(visits[0].rel.subrange(0, dir.push('/').len() as int) == dir.push('/'));
            assert(false);
        }
        let rel = visits[k].rel;
        let j = choose|j: int|
            0 <= j < k && #[trigger] leads_to(f, recursive, visits[j], rel);
        let v = visits[j];
        let i = choose|i: int|
            #![trigger v.entries[i]]
            has_entry(f, recursive, v, i, EntryVerdict::Directory, rel);
        let name = v.entries[i]->Seen_name@;
        assert(is_entry_name(visits[j].entries[i]));
        parent_within(v.rel, name, dir);
        above_was_read(f, recursive, visits, j, dir)
    }
}

/// Nothing below a git project is recorded, nor below a directory of which it is not known
/// whether it is one.
pub proof fn law_nothing_below_a_git_project(
    f: ScopeFilter,
    recursive: bool,
    visits: Seq<Visit>,
    a: int,
    dir: Seq<char>,
    b: int,
    path: Seq<char>,
)
    requires
        is_walk(f, recursive, visits),
        0 <= a < visits.len(),
        0 <= b < visits.len(),
        passes_over(f, recursive, visits[a], dir),
        records(f, recursive, visits[b], path),
    ensures
        dir.len() > 0 ==> !(scope::is_within(path, dir) && path != dir),
{
    if dir.len() > 0 && scope::is_within(path, dir) && path != dir {
        let v = visits[b];
        let i = choose|i: int|
            #![trigger v.entries[i]]
            has_entry(f, recursive, v, i, EntryVerdict::Directory, path) || has_entry(
                f,
                recursive,
                v,
                i,
                EntryVerdict::File,
                path,
            );
        let name = v.entries[i]->Seen_name@;
        assert(is_entry_name(visits[b].entries[i]));
        parent_within(v.rel, name, dir);
        let j = above_was_read(f, recursive, visits, b, dir);
        assert(visits[j].git == GitProbe::Clean);
        if visits[a].git != GitProbe::Clean && visits[a].rel == dir {
            assert(visits[j].rel == visits[a].rel);
        } else {
            let w = visits[a];
            let e = choose|e: int|
                #![trigger w.entries[e]]
                has_entry(f, recursive, w, e, EntryVerdict::GitTree, dir) || has_entry(
                    f,
                    recursive,
                    w,
                    e,
                    EntryVerdict::GitUnknown,
                    dir,
                );
            assert(!recursive);
            if b > 0 {
                let c = choose|c: int|
                    0 <= c < b && #[trigger] leads_to(f, recursive, visits[c], visits[b].rel);
                assert(false);
            }
        }
    }
}

/// A git project at the chosen directory itself: nothing is recorded at all.
pub proof fn law_a_project_at_the_top_is_left_alone(
    f: ScopeFilter,
    recursive: bool,
    visits: Seq<Visit>,
    b: int,
    path: Seq<char>,
)
    requires
        is_walk(f, recursive, visits),
        visits[0].git != GitProbe::Clean,
        0 <= b < visits.len(),
    ensures
        b == 0,
        !records(f, recursive, visits[b], path),
    decreases b,
{
    if b > 0 {
        let j = choose|j: int|
            0 <= j < b && #[trigger] leads_to(f, recursive, visits[j], visits[b].rel);
        law_a_project_at_the_top_is_left_alone(f, recursive, visits, j, path);
    }
}

/// What becomes of an entry that was read: a directory that takes part is recorded, and so
/// is a file whose data could be read; where the scan does not go into directories, a git
/// project is passed over. What takes no part, cannot be read or is neither is not
/// recorded.
pub proof fn law_what_is_recorded(
    f: ScopeFilter,
    recursive: bool,
    rel: Seq<char>,
    name: String,
    facts: EntryFacts,
    kind: EntryType,
)
    ensures
        ({
            let e = DirEntry::Seen { name, facts, kind };
            let v = entry_verdict(f, recursive, rel, e);
            let path = if rel.len() == 0 {
                name@
            } else {
                rel.push('/') + name@
            };
            let out = scope::is_pruned(f, path, name@, facts);
            &&& v == EntryVerdict::Pruned <==> out
            &&& v == EntryVerdict::File <==> !out && kind == EntryType::File(true)
            &&& v == EntryVerdict::Directory <==> !out && (kind matches EntryType::Dir(git) && (
            recursive || git == GitProbe::Clean))
            &&& v == EntryVerdict::GitTree <==> !out && !recursive && kind == EntryType::Dir(
                GitProbe::GitRoot,
            )
            &&& v == EntryVerdict::GitUnknown <==> !out && !recursive && kind == EntryType::Dir(
                GitProbe::Unreadable,
            )
            &&& v == EntryVerdict::Unreadable <==> !out && kind == EntryType::File(false)
            &&& v == EntryVerdict::Special <==> !out && kind == EntryType::Other
        }),
        entry_verdict(f, recursive, rel, DirEntry::Failed) == EntryVerdict::Unreadable,
        entry_verdict(f, recursive, rel, DirEntry::NotUtf8) == EntryVerdict::Unreadable,
        entry_verdict(f, recursive, rel, DirEntry::NoMetadata) == EntryVerdict::Unreadable,
{
}

proof fn verdicts_are_listed(
    f: ScopeFilter,
    recursive: bool,
    rel: Seq<char>,
    entries: Seq<DirEntry>,
    a: EntryVerdict,
    b: EntryVerdict,
    k: int,
    i: int,
)
    requires
        0 <= i < k <= entries.len(),
        k <= usize::MAX,
    ensures
        with_verdict(f, recursive, rel, entries, a, b, k).contains(i as usize) <==> ({
            let v = entry_verdict(f, recursive, rel, entries[i]);
            v == a || v == b
        }),
    decreases k,
{
    let rest = with_verdict(f, recursive, rel, entries, a, b, k - 1);
    let all = with_verdict(f, recursive, rel, entries, a, b, k);
    verdicts_below(f, recursive, rel, entries, a, b, k - 1);
    if i < k - 1 {
        verdicts_are_listed(f, recursive, rel, entries, a, b, k - 1, i);
        if rest.contains(i as usize) {
            let m = choose|m: int| 0 <= m < rest.len() && rest[m] == i as usize;
            assert(all[m] == i as usize);
        }
        if all.contains(i as usize) {
            let m = choose|m: int| 0 <= m < all.len() && all[m] == i as usize;
            assert(rest[m] == i as usize);
        }
    } else {
        if all.len() > rest.len() {
            assert(all[rest.len() as int] == i as usize);
        } else if all.contains(i as usize) {
            let m = choose|m: int| 0 <= m < all.len() && all[m] == i as usize;
            assert(rest[m] < k - 1);
        }
    }
}

proof fn verdicts_below(
    f: ScopeFilter,
    recursive: bool,
    rel: Seq<char>,
    entries: Seq<DirEntry>,
    a: EntryVerdict,
    b: EntryVerdict,
    k: int,
)
    requires
        0 <= k <= entries.len(),
        k <= usize::MAX,
    ensures
        forall|m: int|
            0 <= m < with_verdict(f, recursive, rel, entries, a, b, k).len() ==> (
            #[trigger] with_verdict(f, recursive, rel, entries, a, b, k)[m]) < k,
    decreases k,
{
    if k > 0 {
        verdicts_below(f, recursive, rel, entries, a, b, k - 1);
        let rest = with_verdict(f, recursive, rel, entries, a, b, k - 1);
        let all = with_verdict(f, recursive, rel, entries, a, b, k);
        assert forall|m: int| 0 <= m < all.len() implies (#[trigger] all[m]) < k by {
            if m < rest.len() {
                assert(rest[m] == all[m]);
            }
        }
    }
}

/// The outcome for a directory holds every entry in its place: recorded files and
/// directories, the directories to go into where the scan goes into any, git projects that
/// are passed over, and entries that are noted; and it remembers anything that stays on
/// disk without being recorded.
pub proof fn law_every_entry_has_its_place(
    f: ScopeFilter,
    recursive: bool,
    rel: Seq<char>,
    entries: Seq<DirEntry>,
    o: DirOutcome,
    i: usize,
)
    requires
        is_outcome(f, recursive, rel, entries, entries.len() as int, o),
        entries.len() <= usize::MAX,
        i < entries.len(),
    ensures
        ({
            let v = entry_verdict(f, recursive, rel, entries[i as int]);
            &&& o.children@.contains(i) <==> v == EntryVerdict::Directory || v
                == EntryVerdict::File
            &&& o.subdirs@.contains(i) <==> recursive && v == EntryVerdict::Directory
            &&& o.git_skips@.contains(i) <==> v == EntryVerdict::GitTree
            &&& o.git_unknown@.contains(i) <==> v == EntryVerdict::GitUnknown
            &&& o.notes@.contains(i) <==> v == EntryVerdict::Unreadable
            &&& v == EntryVerdict::Unreadable || v == EntryVerdict::Pruned || v
                == EntryVerdict::Special ==> o.tainted
        }),
{
    let n = entries.len() as int;
    let x = i as int;
    verdicts_are_listed(
        f,
        recursive,
        rel,
        entries,
        EntryVerdict::Directory,
        EntryVerdict::File,
        n,
        x,
    );
    verdicts_are_listed(
        f,
        recursive,
        rel,
        entries,
        EntryVerdict::Directory,
        EntryVerdict::Directory,
        n,
        x,
    );
    verdicts_are_listed(
        f,
        recursive,
        rel,
        entries,
        EntryVerdict::GitTree,
        EntryVerdict::GitTree,
        n,
        x,
    );
    verdicts_are_listed(
        f,
        recursive,
        rel,
        entries,
        EntryVerdict::GitUnknown,
        EntryVerdict::GitUnknown,
        n,
        x,
    );
    verdicts_are_listed(
        f,
        recursive,
        rel,
        entries,
        EntryVerdict::Unreadable,
        EntryVerdict::Unreadable,
        n,
        x,
    );
    assert(entries[x] == entries[i as int]);
}

/// The directories that are remembered for a path are that path and directories above it.
pub proof fn law_only_directories_above_are_remembered(rel: Seq<char>, k: int)
    requires
        0 <= k < ancestry(rel).len(),
    ensures
        ancestry(rel)[0] == rel,
        scope::is_within(rel, ancestry(rel)[k]),
    decreases rel.len(),
{
    if let Some(_) = text::last_pos(rel, '/') {
        boundaries::parent_shorter(rel);
        if rel.len() > 0 {
            let up = boundaries::parent_of(rel);
            assert(ancestry(rel) == seq![rel] + ancestry(up));
            if k > 0 {
                law_only_directories_above_are_remembered(up, k - 1);
                assert(ancestry(rel)[k] == ancestry(up)[k - 1]);
                last_is_slash(rel);
                let dir = ancestry(rel)[k];
                let i = text::last_pos(rel, '/')->0;
                if dir == up {
                    assert(rel.subrange(0, i + 1) =~= up.push('/'));
                } else {
                    assert(up.subrange(0, dir.len() as int + 1) == dir.push('/'));
                    assert(rel.subrange(0, dir.len() as int + 1) =~= up.subrange(
                        0,
                        dir.len() as int + 1,
                    ));
                }
            }
        }
    }
}

proof fn last_is_slash(s: Seq<char>)
    ensures
        text::last_pos(s, '/') matches Some(i) ==> 0 <= i < s.len() && s[i] == '/',
    decreases s.len(),
{
    if s.len() > 0 && s.last() != '/' {
        last_is_slash(s.drop_last());
    }
}

} // verus!
