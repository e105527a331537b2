//! Which directory every file gets: one of at most ten named groups, or the
//! common one for the rest.

use crate::functional::candidates;
use crate::functional::cluster;
use crate::functional::corpus::{Features, FuncFile};
use crate::order;
use crate::text;
use vstd::prelude::*;

verus! {

/// The directory of files that belong to no group.
pub const FALLBACK_DIR: &'static str = "其他";

/// So many groups get a directory of their own.
pub const MAX_FUNCTIONAL_DIRS: usize = 10;

/// A named group. The two scores only order the groups.
#[derive(Debug)]
pub struct Group {
    pub members: Vec<usize>,
    pub confidence: u64,
    pub phrase_score: u64,
    pub phrase_units: Vec<usize>,
    pub name: String,
    /// A directory with this name is there already.
    pub incumbent: bool,
}

/// Larger groups first, then by confidence, by phrase, with a directory that is
/// there already before a new one, then by name.
pub open spec fn group_le(a: Group, b: Group) -> bool {
    let x = a.members@.len();
    let y = b.members@.len();
    if x != y {
        x > y
    } else if a.confidence != b.confidence {
        a.confidence > b.confidence
    } else if a.phrase_score != b.phrase_score {
        a.phrase_score > b.phrase_score
    } else if a.incumbent != b.incumbent {
        a.incumbent
    } else {
        text::at_most(a.name@, b.name@)
    }
}

pub open spec fn group_order(groups: Seq<Group>) -> spec_fn(int, int) -> bool {
    |i: int, j: int| group_le(groups[i], groups[j])
}

/// Any two groups can be compared.
pub proof fn group_order_total(groups: Seq<Group>)
    ensures
        order::is_order(group_order(groups), groups.len() as int),
{
    let le = group_order(groups);
    let n = groups.len() as int;
    assert forall|i: int, j: int| 0 <= i < n && 0 <= j < n implies #[trigger] le(i, j) || le(
        j,
        i,
    ) by {
        text::at_most_total(groups[i].name@, groups[j].name@);
    }
    assert forall|i: int, j: int, k: int|
        0 <= i < n && 0 <= j < n && 0 <= k < n && #[trigger] le(i, j) && #[trigger] le(
            j,
            k,
        ) implies le(i, k) by {
        let a = groups[i];
        let b = groups[j];
        let c = groups[k];
        if text::at_most(a.name@, b.name@) && text::at_most(b.name@, c.name@) {
            text::at_most_chain(a.name@, b.name@, c.name@);
        }
    }
}

fn group_not_behind(a: &Group, b: &Group) -> (r: bool)
    ensures
        r == group_le(*a, *b),
{
    if a.members.len() != b.members.len() {
        a.members.len() > b.members.len()
    } else if a.confidence != b.confidence {
        a.confidence > b.confidence
    } else if a.phrase_score != b.phrase_score {
        a.phrase_score > b.phrase_score
    } else if a.incumbent != b.incumbent {
        a.incumbent
    } else {
        text::not_after(a.name.as_str(), b.name.as_str())
    }
}

/// The groups in their order.
pub fn ranked(groups: &Vec<Group>) -> (r: Vec<usize>)
    ensures
        order::is_sorting(group_order(groups@), r@, groups@.len() as int),
{
    proof {
        group_order_total(groups@);
    }
    let ghost le = group_order(groups@);
    let f = |i: usize, j: usize| -> (b: bool)
        requires
            i < groups@.len(),
            j < groups@.len(),
        ensures
            b == group_le(groups@[i as int], groups@[j as int]),
        { group_not_behind(&groups[i], &groups[j]) };
    order::sorting(&f, groups.len(), Ghost(le))
}

/// How many groups get a directory.
pub open spec fn kept(groups: nat) -> nat {
    if groups < MAX_FUNCTIONAL_DIRS {
        groups
    } else {
        MAX_FUNCTIONAL_DIRS as nat
    }
}

/// A file has a unit, and the unit says something: the file writes it in capitals,
/// or it is rare.
pub open spec fn has_strong_unit(f: Features, rare: Seq<bool>, unit: usize) -> bool {
    ||| f.name.acronyms@.contains(unit)
    ||| f.parent.acronyms@.contains(unit)
    ||| (unit < rare.len() && rare[unit as int] && (candidates::units_of(f).contains(unit)
        || candidates::parts_of(f).contains(unit)))
}

/// A file can be put into a group: it has a strong unit of the group's name.
pub open spec fn can_join(f: Features, rare: Seq<bool>, group: Group) -> bool {
    exists|u: int|
        0 <= u < group.phrase_units@.len() && has_strong_unit(
            f,
            rare,
            #[trigger] group.phrase_units@[u],
        )
}

/// The first of the groups in order, from `k` on, that a file is a member of.
pub open spec fn home_from(
    groups: Seq<Group>,
    perm: Seq<usize>,
    kept: int,
    file: usize,
    k: int,
) -> Option<usize>
    decreases kept - k,
{
    if k >= kept {
        None
    } else if groups[perm[k] as int].members@.contains(file) {
        Some(perm[k])
    } else {
        home_from(groups, perm, kept, file, k + 1)
    }
}

/// The first of the groups in order, from `k` on, that a file can be put into.
pub open spec fn guest_from(
    groups: Seq<Group>,
    perm: Seq<usize>,
    kept: int,
    f: Features,
    rare: Seq<bool>,
    k: int,
) -> Option<usize>
    decreases kept - k,
{
    if k >= kept {
        None
    } else if can_join(f, rare, groups[perm[k] as int]) {
        Some(perm[k])
    } else {
        guest_from(groups, perm, kept, f, rare, k + 1)
    }
}

/// The group whose directory a file gets: its own, if that is kept, else the first
/// one that it can be put into.
pub open spec fn group_for(
    groups: Seq<Group>,
    perm: Seq<usize>,
    all: Seq<Features>,
    rare: Seq<bool>,
    file: usize,
) -> Option<usize> {
    let n = kept(groups.len()) as int;
    match home_from(groups, perm, n, file, 0) {
        Some(g) => Some(g),
        None => guest_from(groups, perm, n, all[file as int], rare, 0),
    }
}

/// The directory of a file.
pub open spec fn dir_of(
    groups: Seq<Group>,
    perm: Seq<usize>,
    all: Seq<Features>,
    rare: Seq<bool>,
    file: usize,
) -> Seq<char> {
    match group_for(groups, perm, all, rare, file) {
        Some(g) => groups[g as int].name@,
        None => FALLBACK_DIR@,
    }
}

fn runs_hold(runs: &Vec<Vec<usize>>, unit: usize) -> (r: bool)
    ensures
        r == candidates::run_set(runs@).contains(unit),
{
    let mut i: usize = 0;
    assert(runs@.take(0) =~= Seq::<Vec<usize>>::empty());
    let mut found: bool = false;
    while i < runs.len()
        invariant
            i <= runs@.len(),
            found == candidates::run_set(runs@.take(i as int)).contains(unit),
        decreases runs.len() - i,
    {
        proof {
            assert(runs@.take(i + 1).drop_last() =~= runs@.take(i as int));
            assert(runs@.take(i + 1).last() == runs@[i as int]);
        }
        let run = &runs[i];
        let mut k: usize = 0;
        let mut here: bool = false;
        assert(run@.take(0) =~= Seq::<usize>::empty());
        while k < run.len()
            invariant
                k <= run@.len(),
                here == run@.take(k as int).contains(unit),
            decreases run.len() - k,
        {
            proof {
                order::taken_more(run@, k as int);
            }
            if run[k] == unit {
                here = true;
            }
            k = k + 1;
        }
        assert(run@.take(k as int) =~= run@);
        if here {
            found = true;
        }
        i = i + 1;
    }
    assert(runs@.take(i as int) =~= runs@);
    found
}

fn strong_unit(f: &Features, rare: &Vec<bool>, unit: usize) -> (r: bool)
    ensures
        r == has_strong_unit(*f, rare@, unit),
{
    if f.name.acronyms.contains(unit) || f.parent.acronyms.contains(unit) {
        return true;
    }
    if unit >= rare.len() || !rare[unit] {
        return false;
    }
    runs_hold(&f.name.runs, unit) || runs_hold(&f.parent.runs, unit)
        || f.name.substrings.contains(unit) || f.parent.substrings.contains(unit)
}

fn joins(f: &Features, rare: &Vec<bool>, group: &Group) -> (r: bool)
    ensures
        r == can_join(*f, rare@, *group),
{
    let mut i: usize = 0;
    while i < group.phrase_units.len()
        invariant
            i <= group.phrase_units@.len(),
            forall|u: int|
                0 <= u < i ==> !has_strong_unit(*f, rare@, #[trigger] group.phrase_units@[u]),
        decreases group.phrase_units.len() - i,
    {
        if strong_unit(f, rare, group.phrase_units[i]) {
            assert(has_strong_unit(*f, rare@, group.phrase_units@[i as int]));
            return true;
        }
        i = i + 1;
    }
    false
}

/// For every file the group whose members it is among, of those that are kept.
fn homes(groups: &Vec<Group>, perm: &Vec<usize>, kept: usize, count: usize) -> (r: Vec<
    Option<usize>,
>)
    requires
        kept <= perm@.len(),
        forall|k: int| 0 <= k < perm@.len() ==> #[trigger] perm@[k] < groups@.len(),
    ensures
        r@.len() == count,
        forall|x: usize|
            x < count ==> #[trigger] r@[x as int] == home_from(
                groups@,
                perm@,
                kept as int,
                x,
                0,
            ),
{
    let mut r: Vec<Option<usize>> = Vec::new();
    let mut c: usize = 0;
    while c < count
        invariant
            c <= count,
            r@.len() == c,
            forall|x: int| 0 <= x < c ==> #[trigger] r@[x] is None,
        decreases count - c,
    {
        r.push(None);
        c = c + 1;
    }
    let mut k: usize = kept;
    while k > 0
        invariant
            k <= kept <= perm@.len(),
            r@.len() == count,
            forall|k: int| 0 <= k < perm@.len() ==> #[trigger] perm@[k] < groups@.len(),
            forall|x: usize|
                x < count ==> #[trigger] r@[x as int] == home_from(
                    groups@,
                    perm@,
                    kept as int,
                    x,
                    k as int,
                ),
        decreases k,
    {
        k = k - 1;
        let ghost before = r@;
        assert(perm@[k as int] < groups@.len());
        let members = &groups[perm[k]].members;
        let mut i: usize = 0;
        assert(members@.take(0) =~= Seq::<usize>::empty());
        while i < members.len()
            invariant
                i <= members@.len(),
                k < perm@.len(),
                r@.len() == count,
                before.len() == count,
                forall|x: usize|
                    x < count ==> #[trigger] r@[x as int] == (if members@.take(i as int).contains(
                        x,
                    ) {
                        Some(perm@[k as int])
                    } else {
                        before[x as int]
                    }),
            decreases members.len() - i,
        {
            proof {
                order::taken_more(members@, i as int);
            }
            let x: usize = members[i];
            if x < count {
                r.set(x, Some(perm[k]));
            }
            i = i + 1;
        }
        assert(members@.take(i as int) =~= members@);
        assert forall|x: usize| x < count implies #[trigger] r@[x as int] == home_from(
            groups@,
            perm@,
            kept as int,
            x,
            k as int,
        ) by {
            assert(before[x as int] == home_from(groups@, perm@, kept as int, x, k + 1));
        }
    }
    r
}

fn copy(s: &str) -> (r: String)
    ensures
        r@ == s@,
{
    let v = text::chars_of(s);
    assert(v@.subrange(0, v@.len() as int) =~= s@);
    text::string_of(&v, 0, v.len())
}

/// A group in the list is one of those that were kept.
pub proof fn homes_are_kept(groups: Seq<Group>, perm: Seq<usize>, kept: int, file: usize, k: int)
    requires
        0 <= k,
        kept <= perm.len(),
    ensures
        home_from(groups, perm, kept, file, k) matches Some(g) ==> perm.take(kept).contains(g),
    decreases kept - k,
{
    if k < kept {
        homes_are_kept(groups, perm, kept, file, k + 1);
        assert(perm.take(kept)[k] == perm[k]);
    }
}

pub proof fn guests_are_kept(
    groups: Seq<Group>,
    perm: Seq<usize>,
    kept: int,
    f: Features,
    rare: Seq<bool>,
    k: int,
)
    requires
        0 <= k,
        kept <= perm.len(),
    ensures
        guest_from(groups, perm, kept, f, rare, k) matches Some(g) ==> perm.take(kept).contains(g),
    decreases kept - k,
{
    if k < kept {
        guests_are_kept(groups, perm, kept, f, rare, k + 1);
        assert(perm.take(kept)[k] == perm[k]);
    }
}

/// Groups of at least two files each, no file in two of them.
pub open spec fn well_grouped(groups: Seq<Group>, count: nat) -> bool {
    &&& forall|g: int|
        0 <= g < groups.len() ==> (#[trigger] groups[g]).members@.len() >= 2
            && groups[g].members@.no_duplicates() && forall|x: usize| #[trigger]
            groups[g].members@.contains(x) ==> x < count
    &&& forall|g: int, h: int, x: usize|
        0 <= g < groups.len() && 0 <= h < groups.len()
            && #[trigger] groups[g].members@.contains(x)
            && #[trigger] groups[h].members@.contains(x) ==> g == h
}

/// A name for a group: how high it scores, and the units that it is made of.
#[derive(Debug)]
pub struct Named {
    pub name: String,
    pub score: u64,
    pub units: Vec<usize>,
}

/// The name of a group: one from the names of the files, else one from their directories.
pub open spec fn name_for(
    by_name: Seq<Option<Named>>,
    by_parent: Seq<Option<Named>>,
    i: int,
) -> Option<Named> {
    match by_name[i] {
        Some(n) => Some(n),
        None => by_parent[i],
    }
}

/// Which of the first `k` parts become groups: those of at least two files with a name.
pub open spec fn named_parts(
    parts: Seq<Vec<usize>>,
    by_name: Seq<Option<Named>>,
    by_parent: Seq<Option<Named>>,
    k: int,
) -> Seq<int>
    decreases k,
{
    if k <= 0 {
        Seq::empty()
    } else {
        let before = named_parts(parts, by_name, by_parent, k - 1);
        if parts[k - 1]@.len() >= 2 && name_for(by_name, by_parent, k - 1) is Some {
            before.push(k - 1)
        } else {
            before
        }
    }
}

/// The group that a part becomes.
pub open spec fn is_group_of(
    g: Group,
    part: Seq<usize>,
    confidence: u64,
    name: Named,
    incumbents: Seq<Seq<char>>,
) -> bool {
    &&& g.members@ == part
    &&& g.confidence == confidence
    &&& g.phrase_score == name.score
    &&& g.phrase_units@ == name.units@
    &&& g.name@ == name.name@
    &&& g.incumbent == incumbents.contains(name.name@)
}

/// The groups that some parts become.
pub open spec fn are_formed(
    groups: Seq<Group>,
    parts: Seq<Vec<usize>>,
    confidences: Seq<u64>,
    by_name: Seq<Option<Named>>,
    by_parent: Seq<Option<Named>>,
    incumbents: Seq<Seq<char>>,
) -> bool {
    let chosen = named_parts(parts, by_name, by_parent, parts.len() as int);
    &&& groups.len() == chosen.len()
    &&& forall|g: int|
        0 <= g < groups.len() ==> is_group_of(
            #[trigger] groups[g],
            parts[chosen[g]]@,
            confidences[chosen[g]],
            name_for(by_name, by_parent, chosen[g])->0,
            incumbents,
        )
}

fn copy_list(v: &Vec<usize>) -> (r: Vec<usize>)
    ensures
        r@ == v@,
{
    let mut r: Vec<usize> = Vec::new();
    let mut i: usize = 0;
    assert(v@.take(0) =~= r@);
    while i < v.len()
        invariant
            i <= v@.len(),
            r@ == v@.take(i as int),
        decreases v.len() - i,
    {
        r.push(v[i]);
        assert(v@.take(i + 1) =~= v@.take(i as int).push(v@[i as int]));
        i = i + 1;
    }
    assert(v@.take(i as int) =~= v@);
    r
}

fn holds_text(list: &Vec<String>, t: &str) -> (r: bool)
    ensures
        r == text::texts(list@).contains(t@),
{
    let mut i: usize = 0;
    while i < list.len()
        invariant
            i <= list@.len(),
            forall|k: int| 0 <= k < i ==> (#[trigger] list@[k])@ != t@,
        decreases list.len() - i,
    {
        if text::same(list[i].as_str(), t) {
            assert(text::texts(list@)[i as int] == t@);
            return true;
        }
        i = i + 1;
    }
    assert forall|k: int| 0 <= k < text::texts(list@).len() implies text::texts(list@)[k] != t@ by {
        assert(list@[k]@ != t@);
    }
    false
}

/// Forms the groups: every part of at least two files that got a name. `incumbents` are
/// the directories that are there already.
pub fn form_groups(
    parts: &Vec<Vec<usize>>,
    confidences: &Vec<u64>,
    by_name: &Vec<Option<Named>>,
    by_parent: &Vec<Option<Named>>,
    incumbents: &Vec<String>,
    count: usize,
) -> (r: Vec<Group>)
    requires
        confidences@.len() == parts@.len(),
        by_name@.len() == parts@.len(),
        by_parent@.len() == parts@.len(),
        cluster::are_parts(cluster::lists(parts@), count as nat),
    ensures
        are_formed(
            r@,
            parts@,
            confidences@,
            by_name@,
            by_parent@,
            text::texts(incumbents@),
        ),
        well_grouped(r@, count as nat),
{
    let mut out: Vec<Group> = Vec::new();
    let mut i: usize = 0;
    while i < parts.len()
        invariant
            i <= parts@.len(),
            confidences@.len() == parts@.len(),
            by_name@.len() == parts@.len(),
            by_parent@.len() == parts@.len(),
            out@.len() == named_parts(parts@, by_name@, by_parent@, i as int).len(),
            forall|g: int|
                #![trigger out@[g]]
                0 <= g < out@.len() ==> ({
                    let c = named_parts(parts@, by_name@, by_parent@, i as int)[g];
                    is_group_of(
                        out@[g],
                        parts@[c]@,
                        confidences@[c],
                        name_for(by_name@, by_parent@, c)->0,
                        text::texts(incumbents@),
                    )
                }),
        decreases parts.len() - i,
    {
        let name = match &by_name[i] {
            Some(n) => Some(n),
            None => match &by_parent[i] {
                Some(n) => Some(n),
                None => None,
            },
        };
        if parts[i].len() >= 2 {
            if let Some(n) = name {
                let ghost before = out@;
                out.push(
                    Group {
                        members: copy_list(&parts[i]),
                        confidence: confidences[i],
                        phrase_score: n.score,
                        phrase_units: copy_list(&n.units),
                        name: copy(n.name.as_str()),
                        incumbent: holds_text(incumbents, n.name.as_str()),
                    },
                );
                assert forall|g: int| #![trigger out@[g]] 0 <= g < before.len() implies out@[g]
                    == before[g] by {}
            }
        }
        i = i + 1;
    }
    proof {
        groups_of_parts(
            parts@,
            confidences@,
            by_name@,
            by_parent@,
            text::texts(incumbents@),
            count as nat,
            out@,
        );
    }
    out
}

/// The parts that become groups are taken from the front.
pub proof fn named_parts_rise(
    parts: Seq<Vec<usize>>,
    by_name: Seq<Option<Named>>,
    by_parent: Seq<Option<Named>>,
    k: int,
)
    requires
        0 <= k <= parts.len(),
    ensures
        ({
            let c = named_parts(parts, by_name, by_parent, k);
            &&& forall|g: int| 0 <= g < c.len() ==> 0 <= #[trigger] c[g] < k && parts[c[g]]@.len() >= 2
            &&& forall|g: int, h: int| 0 <= g < h < c.len() ==> #[trigger] c[g] < #[trigger] c[h]
        }),
    decreases k,
{
    if k > 0 {
        named_parts_rise(parts, by_name, by_parent, k - 1);
        let before = named_parts(parts, by_name, by_parent, k - 1);
        let c = named_parts(parts, by_name, by_parent, k);
        assert forall|g: int| 0 <= g < c.len() implies 0 <= #[trigger] c[g] < k
            && parts[c[g]]@.len() >= 2 by {
            if g < before.len() {
                assert(c[g] == before[g]);
            }
        }
        assert forall|g: int, h: int| 0 <= g < h < c.len() implies #[trigger] c[g] < #[trigger] c[h] by {
            assert(c[g] == before[g]);
            if h < before.len() {
                assert(c[h] == before[h]);
            }
        }
    }
}

proof fn groups_of_parts(
    parts: Seq<Vec<usize>>,
    confidences: Seq<u64>,
    by_name: Seq<Option<Named>>,
    by_parent: Seq<Option<Named>>,
    incumbents: Seq<Seq<char>>,
    count: nat,
    groups: Seq<Group>,
)
    requires
        cluster::are_parts(cluster::lists(parts), count),
        are_formed(groups, parts, confidences, by_name, by_parent, incumbents),
    ensures
        well_grouped(groups, count),
{
    let c = named_parts(parts, by_name, by_parent, parts.len() as int);
    let v = cluster::lists(parts);
    named_parts_rise(parts, by_name, by_parent, parts.len() as int);
    assert forall|g: int| 0 <= g < groups.len() implies (#[trigger] groups[g]).members@.len() >= 2
        && groups[g].members@.no_duplicates() && forall|x: usize| #[trigger]
        groups[g].members@.contains(x) ==> x < count by {
        assert(0 <= c[g] < parts.len());
        assert(v[c[g]] == groups[g].members@);
    }
    assert forall|g: int, h: int, x: usize|
        0 <= g < groups.len() && 0 <= h < groups.len()
            && #[trigger] groups[g].members@.contains(x)
            && #[trigger] groups[h].members@.contains(x) implies g == h by {
        assert(0 <= c[g] < parts.len() && 0 <= c[h] < parts.len());
        assert(v[c[g]].contains(x) && v[c[h]].contains(x));
        if g < h {
            assert(c[g] < c[h]);
        } else if h < g {
            assert(c[h] < c[g]);
        }
    }
}

/// Two files get this directory.
pub open spec fn two_files_get(
    groups: Seq<Group>,
    perm: Seq<usize>,
    all: Seq<Features>,
    rare: Seq<bool>,
    dir: Seq<char>,
) -> bool {
    exists|i: usize, j: usize|
        #![trigger dir_of(groups, perm, all, rare, i), dir_of(groups, perm, all, rare, j)]
        i < j && j < all.len() && dir_of(groups, perm, all, rare, i) == dir && dir_of(
            groups,
            perm,
            all,
            rare,
            j,
        ) == dir
}

/// A member of a kept group has that group as its home.
proof fn member_is_home(
    groups: Seq<Group>,
    perm: Seq<usize>,
    count: nat,
    kept: int,
    file: usize,
    from: int,
    k: int,
)
    requires
        well_grouped(groups, count),
        0 <= from <= k < kept <= perm.len(),
        forall|t: int| 0 <= t < perm.len() ==> #[trigger] perm[t] < groups.len(),
        groups[perm[k] as int].members@.contains(file),
    ensures
        home_from(groups, perm, kept, file, from) == Some(perm[k]),
    decreases k - from,
{
    assert(perm[from] < groups.len() && perm[k] < groups.len());
    if groups[perm[from] as int].members@.contains(file) {
        assert(perm[from] as int == perm[k] as int);
    } else {
        member_is_home(groups, perm, count, kept, file, from + 1, k);
    }
}

/// Every directory but the common one is that of at least two files.
pub proof fn law_directories_hold_two_files(
    groups: Seq<Group>,
    perm: Seq<usize>,
    all: Seq<Features>,
    rare: Seq<bool>,
    file: usize,
)
    requires
        well_grouped(groups, all.len()),
        order::is_sorting(group_order(groups), perm, groups.len() as int),
        dir_of(groups, perm, all, rare, file) != FALLBACK_DIR@,
    ensures
        two_files_get(groups, perm, all, rare, dir_of(groups, perm, all, rare, file)),
{
    let n = kept(groups.len()) as int;
    let dir = dir_of(groups, perm, all, rare, file);
    homes_are_kept(groups, perm, n, file, 0);
    guests_are_kept(groups, perm, n, all[file as int], rare, 0);
    let g = group_for(groups, perm, all, rare, file)->0;
    let k = choose|k: int| 0 <= k < perm.take(n).len() && perm.take(n)[k] == g;
    assert(perm[k] == g);
    assert forall|t: int| 0 <= t < perm.len() implies #[trigger] perm[t] < groups.len() by {
        assert(perm.contains(perm[t]));
    }
    assert(g < groups.len());
    let members = groups[g as int].members@;
    let a = members[0];
    let b = members[1];
    assert(members.contains(a) && members.contains(b));
    assert(a != b);
    member_is_home(groups, perm, all.len(), n, a, 0, k);
    member_is_home(groups, perm, all.len(), n, b, 0, k);
    assert(dir_of(groups, perm, all, rare, a) == dir);
    assert(dir_of(groups, perm, all, rare, b) == dir);
    if a < b {
        assert(dir_of(groups, perm, all, rare, a) == dir && dir_of(groups, perm, all, rare, b)
            == dir);
    } else {
        assert(dir_of(groups, perm, all, rare, b) == dir && dir_of(groups, perm, all, rare, a)
            == dir);
    }
}

/// Gives every file its directory. `files` and `all` belong together through
/// `by_path`: the features of the file at place `by_path[k]` are `all[k]`.
pub fn functional_dirs(
    files: &Vec<FuncFile>,
    by_path: &Vec<usize>,
    all: &Vec<Features>,
    groups: &Vec<Group>,
    rare: &Vec<bool>,
) -> (r: Vec<(i64, String)>)
    requires
        by_path@.len() == all@.len(),
        forall|k: int| 0 <= k < by_path@.len() ==> #[trigger] by_path@[k] < files@.len(),
        well_grouped(groups@, all@.len()),
    ensures
        r@.len() == all@.len(),
        forall|k: int|
            0 <= k < r@.len() ==> (#[trigger] r@[k]).0 == files@[by_path@[k] as int].id,
        exists|perm: Seq<usize>|
            order::is_sorting(group_order(groups@), perm, groups@.len() as int) && forall|k: usize|
                k < r@.len() ==> (#[trigger] r@[k as int]).1@ == dir_of(
                    groups@,
                    perm,
                    all@,
                    rare@,
                    k,
                ),
        forall|k: int|
            0 <= k < r@.len() && (#[trigger] r@[k]).1@ != FALLBACK_DIR@ ==> exists|j: int|
                0 <= j < r@.len() && j != k && (#[trigger] r@[j]).1@ == r@[k].1@,
{
    let perm = ranked(groups);
    let n: usize = if groups.len() < MAX_FUNCTIONAL_DIRS {
        groups.len()
    } else {
        MAX_FUNCTIONAL_DIRS
    };
    assert forall|k: int| 0 <= k < perm@.len() implies #[trigger] perm@[k] < groups@.len() by {
        assert(perm@.contains(perm@[k]));
    }
    let home = homes(groups, &perm, n, all.len());
    let mut out: Vec<(i64, String)> = Vec::new();
    let mut i: usize = 0;
    while i < all.len()
        invariant
            i <= all@.len(),
            n == kept(groups@.len()),
            n <= perm@.len(),
            by_path@.len() == all@.len(),
            home@.len() == all@.len(),
            forall|k: int| 0 <= k < by_path@.len() ==> #[trigger] by_path@[k] < files@.len(),
            forall|k: int| 0 <= k < perm@.len() ==> #[trigger] perm@[k] < groups@.len(),
            forall|x: usize|
                x < all@.len() ==> #[trigger] home@[x as int] == home_from(
                    groups@,
                    perm@,
                    n as int,
                    x,
                    0,
                ),
            out@.len() == i,
            forall|k: int|
                0 <= k < i ==> (#[trigger] out@[k]).0 == files@[by_path@[k] as int].id,
            forall|k: usize|
                k < i ==> (#[trigger] out@[k as int]).1@ == dir_of(groups@, perm@, all@, rare@, k),
        decreases all.len() - i,
    {
        let mut place: Option<usize> = home[i];
        if place.is_none() {
            let mut k: usize = 0;
            while k < n && place.is_none()
                invariant
                    k <= n,
                    i < all@.len(),
                    n <= perm@.len(),
                    forall|k: int| 0 <= k < perm@.len() ==> #[trigger] perm@[k] < groups@.len(),
                    guest_from(groups@, perm@, n as int, all@[i as int], rare@, 0) == match place {
                        Some(g) => Some(g),
                        None => guest_from(
                            groups@,
                            perm@,
                            n as int,
                            all@[i as int],
                            rare@,
                            k as int,
                        ),
                    },
                decreases n - k,
            {
                assert(perm@[k as int] < groups@.len());
                if joins(&all[i], rare, &groups[perm[k]]) {
                    place = Some(perm[k]);
                }
                k = k + 1;
            }
        }
        assert(place == group_for(groups@, perm@, all@, rare@, i));
        proof {
            homes_are_kept(groups@, perm@, n as int, i, 0);
            guests_are_kept(groups@, perm@, n as int, all@[i as int], rare@, 0);
            if let Some(g) = place {
                let k = choose|k: int|
                    0 <= k < perm@.take(n as int).len() && perm@.take(n as int)[k] == g;
                assert(perm@[k] < groups@.len());
            }
        }
        let dir = match place {
            Some(g) => copy(groups[g].name.as_str()),
            None => copy(FALLBACK_DIR),
        };
        assert(by_path@[i as int] < files@.len());
        out.push((files[by_path[i]].id, dir));
        i = i + 1;
    }
    proof {
        assert forall|k: int| 0 <= k < out@.len() && (#[trigger] out@[k]).1@ != FALLBACK_DIR@ implies
            exists|j: int| 0 <= j < out@.len() && j != k && (#[trigger] out@[j]).1@
            == out@[k].1@ by {
            let dir = out@[k].1@;
            let file = k as usize;
            assert(out@[file as int].1@ == dir_of(groups@, perm@, all@, rare@, file));
            law_directories_hold_two_files(groups@, perm@, all@, rare@, file);
            let (a, b) = choose|a: usize, b: usize|
                #![trigger dir_of(groups@, perm@, all@, rare@, a), dir_of(groups@, perm@, all@, rare@, b)]
                a < b && b < all@.len() && dir_of(groups@, perm@, all@, rare@, a) == dir && dir_of(
                    groups@,
                    perm@,
                    all@,
                    rare@,
                    b,
                ) == dir;
            assert(out@[a as int].1@ == dir && out@[b as int].1@ == dir);
        }
    }
    out
}

/// The names of the groups that are kept.
pub open spec fn kept_names(groups: Seq<Group>, perm: Seq<usize>) -> Seq<Seq<char>> {
    Seq::new(kept(groups.len()), |k: int| groups[perm[k] as int].name@)
}

/// Besides the common directory there are never more than ten: every file's
/// directory is the common one or that of one of at most ten groups.
pub proof fn law_at_most_ten_directories(
    groups: Seq<Group>,
    perm: Seq<usize>,
    all: Seq<Features>,
    rare: Seq<bool>,
    file: usize,
)
    requires
        order::is_sorting(group_order(groups), perm, groups.len() as int),
    ensures
        kept_names(groups, perm).len() <= MAX_FUNCTIONAL_DIRS,
        dir_of(groups, perm, all, rare, file) == FALLBACK_DIR@ || kept_names(
            groups,
            perm,
        ).contains(dir_of(groups, perm, all, rare, file)),
{
    let n = kept(groups.len()) as int;
    homes_are_kept(groups, perm, n, file, 0);
    guests_are_kept(groups, perm, n, all[file as int], rare, 0);
    if let Some(g) = group_for(groups, perm, all, rare, file) {
        let k = choose|k: int| 0 <= k < perm.take(n).len() && perm.take(n)[k] == g;
        assert(perm[k] == g);
        assert(kept_names(groups, perm)[k] == dir_of(groups, perm, all, rare, file));
    }
}

/// A file of a kept group gets the directory of a kept group that it is in.
pub proof fn law_members_stay_with_their_group(
    groups: Seq<Group>,
    perm: Seq<usize>,
    all: Seq<Features>,
    rare: Seq<bool>,
    file: usize,
    k: int,
)
    requires
        0 <= k < kept(groups.len()),
        groups[perm[k] as int].members@.contains(file),
    ensures
        exists|g: usize|
            #[trigger] groups[g as int].members@.contains(file) && dir_of(
                groups,
                perm,
                all,
                rare,
                file,
            ) == groups[g as int].name@,
{
    home_found(groups, perm, kept(groups.len()) as int, file, 0, k);
    let g = home_from(groups, perm, kept(groups.len()) as int, file, 0)->0;
    assert(groups[g as int].members@.contains(file));
}

proof fn home_found(
    groups: Seq<Group>,
    perm: Seq<usize>,
    kept: int,
    file: usize,
    from: int,
    k: int,
)
    requires
        from <= k < kept,
        groups[perm[k] as int].members@.contains(file),
    ensures
        home_from(groups, perm, kept, file, from) is Some,
        groups[home_from(groups, perm, kept, file, from)->0 as int].members@.contains(file),
    decreases kept - from,
{
    if !groups[perm[from] as int].members@.contains(file) {
        home_found(groups, perm, kept, file, from + 1, k);
    }
}

/// Larger groups come first. Of groups of one size the more certain one comes first, next
/// the one with the better name, next the one whose directory is there already, next the
/// one whose name comes first in dictionary order.
pub proof fn law_larger_groups_come_first(groups: Seq<Group>, perm: Seq<usize>, i: int, j: int)
    requires
        order::is_sorting(group_order(groups), perm, groups.len() as int),
        0 <= i < j < perm.len(),
    ensures
        ({
            let a = groups[perm[i] as int];
            let b = groups[perm[j] as int];
            let same_size = a.members@.len() == b.members@.len();
            let same_certainty = same_size && a.confidence == b.confidence;
            let same_name_score = same_certainty && a.phrase_score == b.phrase_score;
            &&& a.members@.len() >= b.members@.len()
            &&& same_size ==> a.confidence >= b.confidence
            &&& same_certainty ==> a.phrase_score >= b.phrase_score
            &&& same_name_score && b.incumbent ==> a.incumbent
            &&& same_name_score && a.incumbent == b.incumbent ==> text::at_most(a.name@, b.name@)
            &&& perm[i] != perm[j]
        }),
{
    assert(order::comes_before(group_order(groups), perm[i] as int, perm[j] as int));
}

/// Only where there are more than ten groups does a file not get the directory of its own
/// one, and ten other groups are then at least as large as that.
pub proof fn law_dropped_groups_are_no_larger(
    groups: Seq<Group>,
    perm: Seq<usize>,
    all: Seq<Features>,
    rare: Seq<bool>,
    file: usize,
    g: usize,
)
    requires
        well_grouped(groups, all.len()),
        order::is_sorting(group_order(groups), perm, groups.len() as int),
        g < groups.len(),
        groups[g as int].members@.contains(file),
        dir_of(groups, perm, all, rare, file) != groups[g as int].name@,
    ensures
        groups.len() > 10,
        forall|k: int|
            0 <= k < 10 ==> #[trigger] perm[k] != g && groups[perm[k] as int].members@.len()
                >= groups[g as int].members@.len(),
{
    let n = kept(groups.len()) as int;
    assert(perm.contains(g));
    let k = choose|k: int| 0 <= k < perm.len() && perm[k] == g;
    assert forall|t: int| 0 <= t < perm.len() implies #[trigger] perm[t] < groups.len() by {
        assert(perm.contains(perm[t]));
    }
    if k < n {
        member_is_home(groups, perm, all.len(), n, file, 0, k);
    }
    assert forall|t: int| 0 <= t < 10 implies #[trigger] perm[t] != g
        && groups[perm[t] as int].members@.len() >= groups[g as int].members@.len() by {
        law_larger_groups_come_first(groups, perm, t, k);
    }
}

/// A file says a unit: it writes it in capitals, or the unit is rare and among its words or
/// their parts.
pub open spec fn says_unit(f: Features, rare: Seq<bool>, u: usize) -> bool {
    f.name.acronyms@.contains(u) || f.parent.acronyms@.contains(u) || (u < rare.len()
        && rare[u as int] && (candidates::run_set(f.name.runs@).contains(u) || candidates::run_set(
        f.parent.runs@,
    ).contains(u) || f.name.substrings@.contains(u) || f.parent.substrings@.contains(u)))
}

proof fn guests_found(
    groups: Seq<Group>,
    perm: Seq<usize>,
    n: int,
    f: Features,
    rare: Seq<bool>,
    k: int,
)
    requires
        0 <= k <= n <= perm.len(),
    ensures
        ({
            let found = guest_from(groups, perm, n, f, rare, k);
            &&& found is None ==> forall|t: int, u: int|
                #![trigger groups[perm[t] as int].phrase_units@[u]]
                k <= t < n && 0 <= u < groups[perm[t] as int].phrase_units@.len() ==> !says_unit(
                    f,
                    rare,
                    groups[perm[t] as int].phrase_units@[u],
                )
            &&& found matches Some(g) ==> exists|t: int|
                #![trigger perm[t]]
                k <= t < n && perm[t] == g && (exists|u: int|
                    0 <= u < groups[g as int].phrase_units@.len() && says_unit(
                        f,
                        rare,
                        #[trigger] groups[g as int].phrase_units@[u],
                    )) && forall|s: int, u: int|
                    #![trigger groups[perm[s] as int].phrase_units@[u]]
                    k <= s < t && 0 <= u < groups[perm[s] as int].phrase_units@.len()
                        ==> !says_unit(f, rare, groups[perm[s] as int].phrase_units@[u])
        }),
    decreases n - k,
{
    if k < n {
        let group = groups[perm[k] as int];
        assert forall|u: usize| #[trigger] has_strong_unit(f, rare, u) == says_unit(f, rare, u) by {}
        if can_join(f, rare, group) {
            let u = choose|u: int|
                0 <= u < group.phrase_units@.len() && has_strong_unit(
                    f,
                    rare,
                    #[trigger] group.phrase_units@[u],
                );
            assert(says_unit(f, rare, group.phrase_units@[u]));
            assert(perm[k] == guest_from(groups, perm, n, f, rare, k)->0);
        } else {
            guests_found(groups, perm, n, f, rare, k + 1);
            assert forall|u: int| 0 <= u < group.phrase_units@.len() implies !says_unit(
                f,
                rare,
                #[trigger] group.phrase_units@[u],
            ) by {
                assert(!has_strong_unit(f, rare, group.phrase_units@[u]));
            }
            if let Some(g) = guest_from(groups, perm, n, f, rare, k + 1) {
                let t = choose|t: int|
                    #![trigger perm[t]]
                    k + 1 <= t < n && perm[t] == g && (exists|u: int|
                        0 <= u < groups[g as int].phrase_units@.len() && says_unit(
                            f,
                            rare,
                            #[trigger] groups[g as int].phrase_units@[u],
                        )) && forall|s: int, u: int|
                        #![trigger groups[perm[s] as int].phrase_units@[u]]
                        k + 1 <= s < t && 0 <= u < groups[perm[s] as int].phrase_units@.len()
                            ==> !says_unit(f, rare, groups[perm[s] as int].phrase_units@[u]);
                assert(perm[t] == g);
                assert forall|s: int, u: int|
                    #![trigger groups[perm[s] as int].phrase_units@[u]]
                    k <= s < t && 0 <= u < groups[perm[s] as int].phrase_units@.len() implies !says_unit(
                    f,
                    rare,
                    groups[perm[s] as int].phrase_units@[u],
                ) by {
                    if s == k {
                        assert(!says_unit(f, rare, group.phrase_units@[u]));
                    }
                }
            }
        }
    }
}

/// A file whose own group has no directory gets that of the first group whose name has a
/// unit that the file says, and the common one where there is no such group.
pub proof fn law_strays_go_where_their_words_point(
    groups: Seq<Group>,
    perm: Seq<usize>,
    all: Seq<Features>,
    rare: Seq<bool>,
    file: usize,
)
    requires
        order::is_sorting(group_order(groups), perm, groups.len() as int),
        file < all.len(),
        forall|k: int|
            0 <= k < groups.len() && k < 10 ==> !groups[#[trigger] perm[k] as int].members@.contains(
                file,
            ),
    ensures
        ({
            let f = all[file as int];
            let dir = dir_of(groups, perm, all, rare, file);
            ||| dir == "其他"@ && forall|t: int, u: int|
                #![trigger groups[perm[t] as int].phrase_units@[u]]
                0 <= t < groups.len() && t < 10 && 0 <= u
                    < groups[perm[t] as int].phrase_units@.len() ==> !says_unit(
                    f,
                    rare,
                    groups[perm[t] as int].phrase_units@[u],
                )
            ||| exists|t: int|
                #![trigger perm[t]]
                0 <= t < groups.len() && t < 10 && dir == groups[perm[t] as int].name@ && (exists|
                    u: int,
                |
                    0 <= u < groups[perm[t] as int].phrase_units@.len() && says_unit(
                        f,
                        rare,
                        #[trigger] groups[perm[t] as int].phrase_units@[u],
                    )) && forall|s: int, u: int|
                    #![trigger groups[perm[s] as int].phrase_units@[u]]
                    0 <= s < t && 0 <= u < groups[perm[s] as int].phrase_units@.len()
                        ==> !says_unit(f, rare, groups[perm[s] as int].phrase_units@[u])
        }),
{
    let n = kept(groups.len()) as int;
    homeless(groups, perm, n, file, 0);
    guests_found(groups, perm, n, all[file as int], rare, 0);
}

proof fn homeless(groups: Seq<Group>, perm: Seq<usize>, n: int, file: usize, k: int)
    requires
        0 <= k,
        forall|t: int|
            0 <= t < n ==> !groups[#[trigger] perm[t] as int].members@.contains(file),
    ensures
        home_from(groups, perm, n, file, k) is None,
    decreases n - k,
{
    if k < n {
        homeless(groups, perm, n, file, k + 1);
    }
}

proof fn named_part_taken(
    parts: Seq<Vec<usize>>,
    by_name: Seq<Option<Named>>,
    by_parent: Seq<Option<Named>>,
    k: int,
    i: int,
)
    requires
        0 <= i < k <= parts.len(),
    ensures
        named_parts(parts, by_name, by_parent, k).contains(i) <==> parts[i]@.len() >= 2 && (
        by_name[i] is Some || by_parent[i] is Some),
    decreases k,
{
    let before = named_parts(parts, by_name, by_parent, k - 1);
    let after = named_parts(parts, by_name, by_parent, k);
    named_parts_rise(parts, by_name, by_parent, k - 1);
    if i < k - 1 {
        named_part_taken(parts, by_name, by_parent, k - 1, i);
        if before.contains(i) {
            let m = choose|m: int| 0 <= m < before.len() && before[m] == i;
            assert(after[m] == i);
        }
        if after.contains(i) {
            let m = choose|m: int| 0 <= m < after.len() && after[m] == i;
            assert(before[m] == i);
        }
    } else {
        if before.contains(i) {
            let m = choose|m: int| 0 <= m < before.len() && before[m] == i;
            assert(before[m] < k - 1);
        }
        if after.len() > before.len() {
            assert(after[before.len() as int] == i);
        }
    }
}

/// The groups are just the parts of at least two files that got a name: every such part is
/// one, with its files and its name, that from the files before that from the directories;
/// and every group is such a part.
pub proof fn law_named_parts_become_groups(
    groups: Seq<Group>,
    parts: Seq<Vec<usize>>,
    confidences: Seq<u64>,
    by_name: Seq<Option<Named>>,
    by_parent: Seq<Option<Named>>,
    incumbents: Seq<Seq<char>>,
)
    requires
        are_formed(groups, parts, confidences, by_name, by_parent, incumbents),
    ensures
        forall|i: int|
            0 <= i < parts.len() && (#[trigger] parts[i])@.len() >= 2 && (by_name[i] is Some
                || by_parent[i] is Some) ==> exists|g: int|
                0 <= g < groups.len() && (#[trigger] groups[g]).members@ == parts[i]@
                    && groups[g].name@ == (if by_name[i] is Some {
                    by_name[i]->0.name@
                } else {
                    by_parent[i]->0.name@
                }),
        forall|g: int|
            0 <= g < groups.len() ==> (#[trigger] groups[g]).members@.len() >= 2
                && groups[g].incumbent == incumbents.contains(groups[g].name@) && exists|i: int|
                0 <= i < parts.len() && (#[trigger] parts[i])@ == groups[g].members@
                    && confidences[i] == groups[g].confidence && (match by_name[i] {
                    Some(n) => n.name@ == groups[g].name@ && n.score == groups[g].phrase_score
                        && n.units@ == groups[g].phrase_units@,
                    None => by_parent[i] matches Some(n) && n.name@ == groups[g].name@ && n.score
                        == groups[g].phrase_score && n.units@ == groups[g].phrase_units@,
                }),
{
    let n = parts.len() as int;
    let chosen = named_parts(parts, by_name, by_parent, n);
    named_parts_rise(parts, by_name, by_parent, n);
    assert forall|i: int|
        0 <= i < parts.len() && (#[trigger] parts[i])@.len() >= 2 && (by_name[i] is Some
            || by_parent[i] is Some) implies exists|g: int|
        0 <= g < groups.len() && (#[trigger] groups[g]).members@ == parts[i]@ && groups[g].name@
            == (if by_name[i] is Some {
            by_name[i]->0.name@
        } else {
            by_parent[i]->0.name@
        }) by {
        named_part_taken(parts, by_name, by_parent, n, i);
        let g = choose|g: int| 0 <= g < chosen.len() && chosen[g] == i;
        assert(groups[g].members@ == parts[i]@);
    }
    assert forall|g: int| 0 <= g < groups.len() implies (#[trigger] groups[g]).members@.len() >= 2
        && groups[g].incumbent == incumbents.contains(groups[g].name@) && exists|i: int|
        0 <= i < parts.len() && (#[trigger] parts[i])@ == groups[g].members@ && confidences[i]
            == groups[g].confidence && (match by_name[i] {
            Some(n) => n.name@ == groups[g].name@ && n.score == groups[g].phrase_score && n.units@
                == groups[g].phrase_units@,
            None => by_parent[i] matches Some(n) && n.name@ == groups[g].name@ && n.score
                == groups[g].phrase_score && n.units@ == groups[g].phrase_units@,
        }) by {
        let i = chosen[g];
        named_part_taken(parts, by_name, by_parent, n, i);
        assert(chosen.contains(i));
        assert(parts[i]@ == groups[g].members@);
    }
}

} // verus!
