//! Which pairs of files are compared at all: those that share a feature which is
//! rare enough, within a fixed budget.

use crate::functional::corpus::Features;
use crate::functional::features;
use crate::functional::features::IdSet;
use crate::order;
use vstd::prelude::*;

verus! {

/// At most so many pairs are compared.
pub const MAX_CANDIDATE_PAIRS: u64 = 4_000_000;

/// Up to so many files no feature counts as too common.
pub const SMALL_SET: usize = 64;

/// How many files may share a feature that pairs are taken from.
pub open spec fn cap_of(files: nat) -> nat {
    if files <= SMALL_SET {
        u64::MAX as nat
    } else {
        files / 8
    }
}

/// In more than 64 files, a feature of more than an eighth of them says too little.
pub fn df_cap(files: usize) -> (r: u64)
    ensures
        r == cap_of(files as nat),
{
    if files <= SMALL_SET {
        u64::MAX
    } else {
        (files as u64) / 8
    }
}

/// The first `k` files that have a feature, from the front.
pub open spec fn holders(sets: Seq<Set<usize>>, id: usize, k: int) -> Seq<usize>
    decreases k,
{
    if k <= 0 {
        Seq::empty()
    } else if sets[k - 1].contains(id) {
        holders(sets, id, k - 1).push((k - 1) as usize)
    } else {
        holders(sets, id, k - 1)
    }
}

/// The sets as sets.
pub open spec fn set_views(sets: Seq<IdSet>) -> Seq<Set<usize>> {
    Seq::new(sets.len(), |i: int| sets[i]@)
}

/// The holders of a feature stand in increasing order, and are all of them.
pub proof fn law_holders_exact(sets: Seq<Set<usize>>, id: usize, k: int)
    requires
        0 <= k <= sets.len(),
        k <= usize::MAX,
    ensures
        features::increasing(holders(sets, id, k)),
        holders(sets, id, k).len() <= k,
        forall|f: usize| #[trigger]
            holders(sets, id, k).contains(f) <==> f < k && sets[f as int].contains(id),
    decreases k,
{
    if k > 0 {
        law_holders_exact(sets, id, k - 1);
        let before = holders(sets, id, k - 1);
        let after = holders(sets, id, k);
        assert forall|f: usize| #[trigger] after.contains(f) <==> f < k && sets[f as int].contains(
            id,
        ) by {
            if after.contains(f) {
                let t = choose|t: int| 0 <= t < after.len() && after[t] == f;
                if t < before.len() {
                    assert(before[t] == f);
                    assert(before.contains(f));
                }
            }
            if f < k && sets[f as int].contains(id) {
                if f < k - 1 {
                    assert(before.contains(f));
                    let t = choose|t: int| 0 <= t < before.len() && before[t] == f;
                    assert(after[t] == f);
                } else {
                    assert(after[before.len() as int] == f);
                }
            }
        }
        assert forall|i: int, j: int| 0 <= i < j < after.len() implies after[i] < after[j] by {
            if j == before.len() {
                assert(before.contains(before[i]));
            }
        }
    }
}

/// For every feature the files that have it.
pub fn postings(sets: &Vec<IdSet>, count: usize) -> (r: Vec<Vec<usize>>)
    requires
        forall|f: int, id: usize|
            0 <= f < sets@.len() && (#[trigger] sets@[f]@.contains(id)) ==> id < count,
    ensures
        r@.len() == count,
        forall|id: usize|
            id < count ==> (#[trigger] r@[id as int])@ == holders(
                set_views(sets@),
                id,
                sets@.len() as int,
            ),
{
    let ghost views = set_views(sets@);
    let mut r: Vec<Vec<usize>> = Vec::new();
    let mut c: usize = 0;
    while c < count
        invariant
            c <= count,
            r@.len() == c,
            forall|id: int| 0 <= id < c ==> (#[trigger] r@[id])@ == Seq::<usize>::empty(),
        decreases count - c,
    {
        r.push(Vec::new());
        c = c + 1;
    }
    let mut f: usize = 0;
    while f < sets.len()
        invariant
            f <= sets@.len(),
            views == set_views(sets@),
            forall|f: int, id: usize|
                0 <= f < sets@.len() && (#[trigger] sets@[f]@.contains(id)) ==> id < count,
            r@.len() == count,
            forall|id: usize|
                id < count ==> (#[trigger] r@[id as int])@ == holders(views, id, f as int),
        decreases sets.len() - f,
    {
        let items = sets[f].items();
        let ghost before = r@;
        let mut t: usize = 0;
        while t < items.len()
            invariant
                t <= items@.len(),
                f < sets@.len(),
                views == set_views(sets@),
                features::increasing(items@),
                items@.to_set() == sets@[f as int]@,
                forall|f: int, id: usize|
                    0 <= f < sets@.len() && (#[trigger] sets@[f]@.contains(id)) ==> id < count,
                r@.len() == count,
                before.len() == count,
                forall|id: usize|
                    id < count ==> (#[trigger] r@[id as int])@ == (if items@.take(
                        t as int,
                    ).contains(id) {
                        before[id as int]@.push(f)
                    } else {
                        before[id as int]@
                    }),
            decreases items.len() - t,
        {
            let id: usize = items[t];
            assert(items@.contains(id));
            assert(sets@[f as int]@.contains(id));
            let ghost inner = r@;
            assert(!items@.take(t as int).contains(id)) by {
                if items@.take(t as int).contains(id) {
                    let s = choose|s: int| 0 <= s < t && items@.take(t as int)[s] == id;
                    assert(items@[s] < items@[t as int]);
                }
            }
            r[id].push(f);
            proof {
                order::taken_more(items@, t as int);
                assert forall|x: usize| x < count implies (#[trigger] r@[x as int])@ == (
                if items@.take(t + 1).contains(x) {
                    before[x as int]@.push(f)
                } else {
                    before[x as int]@
                }) by {
                    if x != id {
                        assert(r@[x as int] == inner[x as int]);
                    }
                }
            }
            t = t + 1;
        }
        proof {
            assert(items@.take(t as int) =~= items@);
            assert forall|id: usize| id < count implies (#[trigger] r@[id as int])@ == holders(
                views,
                id,
                f + 1,
            ) by {
                assert(items@.contains(id) == views[f as int].contains(id)) by {
                    assert(items@.to_set().contains(id) == items@.contains(id));
                }
            }
        }
        f = f + 1;
    }
    r
}

/// Everything that a file is compared by.
pub open spec fn tokens_of(f: Features) -> Set<usize> {
    f.name.tokens@.union(f.parent.tokens@)
}

/// The numbers in some runs.
pub open spec fn run_set(runs: Seq<Vec<usize>>) -> Set<usize>
    decreases runs.len(),
{
    if runs.len() == 0 {
        Set::empty()
    } else {
        run_set(runs.drop_last()).union(runs.last()@.to_set())
    }
}

/// Everything that a name for the file may be made of.
pub open spec fn units_of(f: Features) -> Set<usize> {
    run_set(f.name.runs@).union(run_set(f.parent.runs@))
}

/// The parts of the words of a file.
pub open spec fn parts_of(f: Features) -> Set<usize> {
    f.name.substrings@.union(f.parent.substrings@)
}

fn put_runs(set: &mut IdSet, runs: &Vec<Vec<usize>>)
    ensures
        final(set)@ == old(set)@.union(run_set(runs@)),
{
    let ghost before = set@;
    let mut i: usize = 0;
    proof {
        assert(runs@.take(0) =~= Seq::<Vec<usize>>::empty());
        assert(before.union(Set::empty()) =~= before);
    }
    while i < runs.len()
        invariant
            i <= runs@.len(),
            set@ == before.union(run_set(runs@.take(i as int))),
        decreases runs.len() - i,
    {
        set.insert_all(&runs[i]);
        proof {
            assert(runs@.take(i + 1).drop_last() =~= runs@.take(i as int));
            assert(runs@.take(i + 1).last() == runs@[i as int]);
            assert(set@ =~= before.union(run_set(runs@.take(i + 1))));
        }
        i = i + 1;
    }
    assert(runs@.take(i as int) =~= runs@);
}

/// What every file is compared by.
pub fn token_sets(all: &Vec<Features>) -> (r: Vec<IdSet>)
    ensures
        r@.len() == all@.len(),
        forall|i: int| 0 <= i < all@.len() ==> (#[trigger] r@[i])@ == tokens_of(all@[i]),
{
    let mut out: Vec<IdSet> = Vec::new();
    let mut i: usize = 0;
    while i < all.len()
        invariant
            i <= all@.len(),
            out@.len() == i,
            forall|k: int| 0 <= k < i ==> (#[trigger] out@[k])@ == tokens_of(all@[k]),
        decreases all.len() - i,
    {
        let mut set = IdSet::new();
        let a = all[i].name.tokens.items();
        set.insert_all(a);
        let b = all[i].parent.tokens.items();
        set.insert_all(b);
        assert(set@ =~= tokens_of(all@[i as int]));
        out.push(set);
        i = i + 1;
    }
    out
}

/// What a name for every file may be made of.
pub fn unit_sets(all: &Vec<Features>) -> (r: Vec<IdSet>)
    ensures
        r@.len() == all@.len(),
        forall|i: int| 0 <= i < all@.len() ==> (#[trigger] r@[i])@ == units_of(all@[i]),
{
    let mut out: Vec<IdSet> = Vec::new();
    let mut i: usize = 0;
    while i < all.len()
        invariant
            i <= all@.len(),
            out@.len() == i,
            forall|k: int| 0 <= k < i ==> (#[trigger] out@[k])@ == units_of(all@[k]),
        decreases all.len() - i,
    {
        let mut set = IdSet::new();
        put_runs(&mut set, &all[i].name.runs);
        put_runs(&mut set, &all[i].parent.runs);
        assert(set@ =~= units_of(all@[i as int]));
        out.push(set);
        i = i + 1;
    }
    out
}

/// The parts of words of every file.
pub fn part_sets(all: &Vec<Features>) -> (r: Vec<IdSet>)
    ensures
        r@.len() == all@.len(),
        forall|i: int| 0 <= i < all@.len() ==> (#[trigger] r@[i])@ == parts_of(all@[i]),
{
    let mut out: Vec<IdSet> = Vec::new();
    let mut i: usize = 0;
    while i < all.len()
        invariant
            i <= all@.len(),
            out@.len() == i,
            forall|k: int| 0 <= k < i ==> (#[trigger] out@[k])@ == parts_of(all@[k]),
        decreases all.len() - i,
    {
        let mut set = IdSet::new();
        let a = all[i].name.substrings.items();
        set.insert_all(a);
        let b = all[i].parent.substrings.items();
        set.insert_all(b);
        assert(set@ =~= parts_of(all@[i as int]));
        out.push(set);
        i = i + 1;
    }
    out
}

/// In how many files a unit occurs, alone or inside a longer word: the files that
/// have it as a unit, and once more each file that has it as a part of a word.
pub fn effective_frequency(units: &Vec<usize>, parts: &Vec<usize>) -> (r: u64)
    requires
        units@.len() <= u32::MAX,
        parts@.len() <= u32::MAX,
    ensures
        r == units@.len() + parts@.len(),
{
    units.len() as u64 + parts.len() as u64
}

/// Pairs among `n` things.
pub open spec fn pairs_among(n: nat) -> nat
    decreases n,
{
    if n == 0 {
        0
    } else {
        pairs_among((n - 1) as nat) + (n - 1) as nat
    }
}

/// The closed form.
pub proof fn pairs_formula(n: nat)
    ensures
        2 * pairs_among(n) == n * (n - 1),
    decreases n,
{
    if n > 0 {
        let m = (n - 1) as nat;
        pairs_formula(m);
        assert(m * (m - 1) + 2 * m == n * (n - 1)) by (nonlinear_arith)
            requires
                m == n - 1,
        ;
    } else {
        assert(n * (n - 1) == 0) by (nonlinear_arith)
            requires
                n == 0,
        ;
    }
}

/// How many pairs share a feature with so many holders.
pub fn pairs_needed(holders: usize) -> (r: u64)
    requires
        holders <= u32::MAX,
    ensures
        r == pairs_among(holders as nat),
{
    proof {
        pairs_formula(holders as nat);
        assert(holders * (holders - 1) <= 0xffff_ffff * 0xffff_ffff) by (nonlinear_arith)
            requires
                holders <= 0xffff_ffff,
        ;
    }
    if holders == 0 {
        return 0;
    }
    (holders as u64) * ((holders - 1) as u64) / 2
}

/// Features that pairs are taken from: at least two files have them, and not too many.
pub open spec fn is_indexable(posts: Seq<Vec<usize>>, cap: u64, id: usize) -> bool {
    id < posts.len() && 2 <= posts[id as int]@.len() <= cap
}

/// One feature is used before another: fewer pairs first, then by number.
pub open spec fn used_before(posts: Seq<Vec<usize>>, a: usize, b: usize) -> bool {
    let x = pairs_among(posts[a as int]@.len());
    let y = pairs_among(posts[b as int]@.len());
    x < y || (x == y && a < b)
}

/// The features that pairs are taken from, rare ones first.
pub open spec fn is_rare_first(posts: Seq<Vec<usize>>, cap: u64, list: Seq<usize>) -> bool {
    &&& forall|id: usize| #[trigger] list.contains(id) <==> is_indexable(posts, cap, id)
    &&& forall|p: int, q: int|
        0 <= p < q < list.len() ==> used_before(posts, #[trigger] list[p], #[trigger] list[q])
}

/// Files are counted in 32 bits.
pub open spec fn counted(posts: Seq<Vec<usize>>) -> bool {
    forall|id: int| 0 <= id < posts.len() ==> (#[trigger] posts[id])@.len() <= u32::MAX
}

/// The features that pairs are taken from, rare ones first.
pub fn rare_first(posts: &Vec<Vec<usize>>, cap: u64) -> (r: Vec<usize>)
    requires
        counted(posts@),
    ensures
        is_rare_first(posts@, cap, r@),
{
    let mut found: Vec<usize> = Vec::new();
    let mut needs: Vec<u64> = Vec::new();
    let mut id: usize = 0;
    while id < posts.len()
        invariant
            id <= posts@.len(),
            counted(posts@),
            needs@.len() == found@.len(),
            features::increasing(found@),
            forall|k: int|
                0 <= k < found@.len() ==> (#[trigger] found@[k]) < id && is_indexable(
                    posts@,
                    cap,
                    found@[k],
                ) && needs@[k] == pairs_among(posts@[found@[k] as int]@.len()),
            forall|x: usize| x < id && #[trigger] is_indexable(posts@, cap, x) ==> found@.contains(x),
        decreases posts.len() - id,
    {
        let n: usize = posts[id].len();
        if n >= 2 && n as u64 <= cap {
            let ghost before = found@;
            found.push(id);
            needs.push(pairs_needed(n));
            proof {
                assert forall|x: usize| x < id + 1 && #[trigger] is_indexable(
                    posts@,
                    cap,
                    x,
                ) implies found@.contains(x) by {
                    if x < id {
                        assert(before.contains(x));
                        let t = choose|t: int| 0 <= t < before.len() && before[t] == x;
                        assert(found@[t] == x);
                    } else {
                        assert(found@[before.len() as int] == x);
                    }
                }
            }
        }
        id = id + 1;
    }
    let ghost le = |i: int, j: int| needs@[i] <= needs@[j];
    let f = |i: usize, j: usize| -> (b: bool)
        requires
            i < needs@.len(),
            j < needs@.len(),
        ensures
            b == (needs@[i as int] <= needs@[j as int]),
        { needs[i] <= needs[j] };
    let perm = order::sorting(&f, needs.len(), Ghost(le));
    let mut out: Vec<usize> = Vec::new();
    let mut i: usize = 0;
    while i < perm.len()
        invariant
            i <= perm@.len(),
            order::spans(perm@, 0, found@.len() as int),
            out@.len() == i,
            forall|k: int| 0 <= k < i ==> #[trigger] out@[k] == found@[perm@[k] as int],
        decreases perm.len() - i,
    {
        assert(perm@.contains(perm@[i as int]));
        out.push(found[perm[i]]);
        i = i + 1;
    }
    proof {
        assert forall|x: usize| #[trigger] out@.contains(x) <==> is_indexable(posts@, cap, x) by {
            if out@.contains(x) {
                let k = choose|k: int| 0 <= k < out@.len() && out@[k] == x;
                assert(perm@.contains(perm@[k]));
            }
            if is_indexable(posts@, cap, x) {
                let t = choose|t: int| 0 <= t < found@.len() && found@[t] == x;
                assert(perm@.contains(t as usize));
                let k = choose|k: int| 0 <= k < perm@.len() && perm@[k] == t as usize;
                assert(out@[k] == x);
            }
        }
        assert forall|p: int, q: int| 0 <= p < q < out@.len() implies used_before(
            posts@,
            #[trigger] out@[p],
            #[trigger] out@[q],
        ) by {
            assert(perm@.contains(perm@[p]));
            assert(perm@.contains(perm@[q]));
            assert(order::comes_before(le, perm@[p] as int, perm@[q] as int));
            assert(le(perm@[p] as int, perm@[q] as int) == (needs@[perm@[p] as int]
                <= needs@[perm@[q] as int]));
            assert(le(perm@[q] as int, perm@[p] as int) == (needs@[perm@[q] as int]
                <= needs@[perm@[p] as int]));
        }
    }
    out
}

/// How many pairs the first `k` features need together.
pub open spec fn total_need(posts: Seq<Vec<usize>>, list: Seq<usize>, k: int) -> nat
    decreases k,
{
    if k <= 0 {
        0
    } else {
        total_need(posts, list, k - 1) + pairs_among(posts[list[k - 1] as int]@.len())
    }
}

/// How many of the listed features fit into a budget, one after the other.
pub fn affordable(posts: &Vec<Vec<usize>>, list: &Vec<usize>, budget: u64) -> (r: usize)
    requires
        counted(posts@),
        forall|k: int| 0 <= k < list@.len() ==> #[trigger] list@[k] < posts@.len(),
    ensures
        r <= list@.len(),
        total_need(posts@, list@, r as int) <= budget,
        r < list@.len() ==> total_need(posts@, list@, r + 1) > budget,
{
    let mut left: u64 = budget;
    let mut i: usize = 0;
    while i < list.len()
        invariant
            i <= list@.len(),
            counted(posts@),
            forall|k: int| 0 <= k < list@.len() ==> #[trigger] list@[k] < posts@.len(),
            left + total_need(posts@, list@, i as int) == budget,
        decreases list.len() - i,
    {
        assert(list@[i as int] < posts@.len());
        let need: u64 = pairs_needed(posts[list[i]].len());
        if need > left {
            return i;
        }
        left = left - need;
        i = i + 1;
    }
    i
}

/// Puts all pairs of a list behind the pairs.
fn push_pairs(list: &Vec<usize>, out: &mut Vec<(usize, usize)>)
    requires
        features::increasing(list@),
    ensures
        final(out)@.len() == old(out)@.len() + pairs_among(list@.len()),
        forall|p: (usize, usize)| #[trigger]
            final(out)@.contains(p) <==> old(out)@.contains(p) || (list@.contains(p.0)
                && list@.contains(p.1) && p.0 < p.1),
{
    let ghost before = out@;
    let mut j: usize = 0;
    assert(list@.take(0) =~= Seq::<usize>::empty());
    while j < list.len()
        invariant
            j <= list@.len(),
            features::increasing(list@),
            out@.len() == before.len() + pairs_among(j as nat),
            forall|p: (usize, usize)| #[trigger]
                out@.contains(p) <==> before.contains(p) || (list@.take(j as int).contains(p.0)
                    && list@.take(j as int).contains(p.1) && p.0 < p.1),
        decreases list.len() - j,
    {
        let ghost middle = out@;
        let mut i: usize = 0;
        assert(list@.take(0) =~= Seq::<usize>::empty());
        while i < j
            invariant
                i <= j < list@.len(),
                features::increasing(list@),
                out@.len() == middle.len() + i,
                forall|p: (usize, usize)| #[trigger]
                    out@.contains(p) <==> middle.contains(p) || (list@.take(i as int).contains(p.0)
                        && p.1 == list@[j as int]),
            decreases j - i,
        {
            let ghost inner = out@;
            let x: (usize, usize) = (list[i], list[j]);
            out.push(x);
            proof {
                order::taken_more(list@, i as int);
                assert forall|p: (usize, usize)| #[trigger] out@.contains(p) <==> middle.contains(p)
                    || (list@.take(i + 1).contains(p.0) && p.1 == list@[j as int]) by {
                    if out@.contains(p) {
                        let t = choose|t: int| 0 <= t < out@.len() && out@[t] == p;
                        if t < inner.len() {
                            assert(inner[t] == p);
                            assert(inner.contains(p));
                        }
                    }
                    if inner.contains(p) {
                        let t = choose|t: int| 0 <= t < inner.len() && inner[t] == p;
                        assert(out@[t] == p);
                    }
                    assert(out@[inner.len() as int] == x);
                }
            }
            i = i + 1;
        }
        proof {
            order::taken_more(list@, j as int);
            let now = list@.take(j + 1);
            let then_ = list@.take(j as int);
            assert forall|p: (usize, usize)| #[trigger] out@.contains(p) <==> before.contains(p)
                || (now.contains(p.0) && now.contains(p.1) && p.0 < p.1) by {
                if then_.contains(p.0) {
                    let t = choose|t: int| 0 <= t < then_.len() && then_[t] == p.0;
                    assert(list@[t] < list@[j as int]);
                }
                if then_.contains(p.1) {
                    let t = choose|t: int| 0 <= t < then_.len() && then_[t] == p.1;
                    assert(list@[t] < list@[j as int]);
                }
            }
        }
        j = j + 1;
    }
    assert(list@.take(j as int) =~= list@);
}

/// One pair stands before another.
pub open spec fn pair_less(a: (usize, usize), b: (usize, usize)) -> bool {
    a.0 < b.0 || (a.0 == b.0 && a.1 < b.1)
}

/// Pairs in increasing order, none twice.
pub open spec fn pairs_increase(s: Seq<(usize, usize)>) -> bool {
    forall|i: int, j: int| 0 <= i < j < s.len() ==> pair_less(#[trigger] s[i], #[trigger] s[j])
}

/// The same pairs in increasing order, each once.
fn sorted_pairs(raw: &Vec<(usize, usize)>) -> (r: Vec<(usize, usize)>)
    ensures
        pairs_increase(r@),
        r@.len() <= raw@.len(),
        forall|p: (usize, usize)| #[trigger] r@.contains(p) <==> raw@.contains(p),
{
    let ghost le = |i: int, j: int| !pair_less(raw@[j], raw@[i]);
    let f = |i: usize, j: usize| -> (b: bool)
        requires
            i < raw@.len(),
            j < raw@.len(),
        ensures
            b == !pair_less(raw@[j as int], raw@[i as int]),
        { !(raw[j].0 < raw[i].0 || (raw[j].0 == raw[i].0 && raw[j].1 < raw[i].1)) };
    let perm = order::sorting(&f, raw.len(), Ghost(le));
    let mut out: Vec<(usize, usize)> = Vec::new();
    let mut i: usize = 0;
    while i < perm.len()
        invariant
            i <= perm@.len(),
            order::is_sorting(le, perm@, raw@.len() as int),
            le == (|i: int, j: int| !pair_less(raw@[j], raw@[i])),
            pairs_increase(out@),
            out@.len() <= i,
            i == 0 ==> out@.len() == 0,
            i > 0 ==> out@.len() > 0 && out@.last() == raw@[perm@[i - 1] as int],
            forall|p: (usize, usize)| #[trigger]
                out@.contains(p) ==> exists|k: int|
                    0 <= k < i && raw@[(#[trigger] perm@[k]) as int] == p,
            forall|k: int| 0 <= k < i ==> out@.contains(raw@[(#[trigger] perm@[k]) as int]),
        decreases perm.len() - i,
    {
        assert(perm@.contains(perm@[i as int]));
        let x: (usize, usize) = raw[perm[i]];
        let fresh: bool = if out.len() == 0 {
            true
        } else {
            let last: (usize, usize) = out[out.len() - 1];
            last.0 != x.0 || last.1 != x.1
        };
        let ghost before = out@;
        if fresh {
            out.push(x);
            proof {
                if i > 0 {
                    assert(order::comes_before(le, perm@[i - 1] as int, perm@[i as int] as int));
                    assert(le(perm@[i - 1] as int, perm@[i as int] as int));
                    assert(pair_less(before.last(), x));
                }
                assert forall|a: int, b: int| 0 <= a < b < out@.len() implies pair_less(
                    #[trigger] out@[a],
                    #[trigger] out@[b],
                ) by {
                    if b == before.len() {
                        if a < before.len() - 1 {
                            assert(pair_less(before[a], before.last()));
                        }
                    }
                }
            }
        }
        proof {
            assert forall|p: (usize, usize)| #[trigger] out@.contains(p) implies exists|k: int|
                0 <= k < i + 1 && raw@[(#[trigger] perm@[k]) as int] == p by {
                let t = choose|t: int| 0 <= t < out@.len() && out@[t] == p;
                if t < before.len() {
                    assert(before[t] == p);
                    assert(before.contains(p));
                    let k = choose|k: int| 0 <= k < i && raw@[(#[trigger] perm@[k]) as int] == p;
                    assert(raw@[perm@[k] as int] == p);
                } else {
                    assert(raw@[perm@[i as int] as int] == p);
                }
            }
            assert forall|k: int| 0 <= k < i + 1 implies out@.contains(
                raw@[(#[trigger] perm@[k]) as int],
            ) by {
                if k < i {
                    assert(before.contains(raw@[perm@[k] as int]));
                    let t = choose|t: int|
                        0 <= t < before.len() && before[t] == raw@[perm@[k] as int];
                    assert(out@[t] == before[t]);
                } else {
                    assert(out@[out@.len() - 1] == x);
                }
            }
        }
        i = i + 1;
    }
    proof {
        assert forall|p: (usize, usize)| #[trigger] out@.contains(p) <==> raw@.contains(p) by {
            if out@.contains(p) {
                let k = choose|k: int|
                    0 <= k < perm@.len() && raw@[(#[trigger] perm@[k]) as int] == p;
                assert(perm@.contains(perm@[k]));
            }
            if raw@.contains(p) {
                let t = choose|t: int| 0 <= t < raw@.len() && raw@[t] == p;
                assert(perm@.contains(t as usize));
                let k = choose|k: int| 0 <= k < perm@.len() && perm@[k] == t as usize;
                assert(out@.contains(raw@[perm@[k] as int]));
            }
        }
    }
    out
}

/// Two files share one of the first `k` listed features.
pub open spec fn share_one(
    posts: Seq<Vec<usize>>,
    list: Seq<usize>,
    k: int,
    a: usize,
    b: usize,
) -> bool {
    exists|t: int|
        0 <= t < k && posts[(#[trigger] list[t]) as int]@.contains(a)
            && posts[list[t] as int]@.contains(b)
}

/// The pairs of files that share one of the first `k` listed features, in order.
pub fn candidate_pairs(posts: &Vec<Vec<usize>>, list: &Vec<usize>, k: usize) -> (r: Vec<
    (usize, usize),
>)
    requires
        k <= list@.len(),
        forall|t: int| 0 <= t < list@.len() ==> #[trigger] list@[t] < posts@.len(),
        forall|id: int|
            0 <= id < posts@.len() ==> features::increasing((#[trigger] posts@[id])@),
    ensures
        pairs_increase(r@),
        forall|p: (usize, usize)| #[trigger]
            r@.contains(p) <==> p.0 < p.1 && share_one(posts@, list@, k as int, p.0, p.1),
        r@.len() <= total_need(posts@, list@, k as int),
{
    let mut raw: Vec<(usize, usize)> = Vec::new();
    let mut i: usize = 0;
    while i < k
        invariant
            i <= k <= list@.len(),
            forall|t: int| 0 <= t < list@.len() ==> #[trigger] list@[t] < posts@.len(),
            forall|id: int|
                0 <= id < posts@.len() ==> features::increasing((#[trigger] posts@[id])@),
            raw@.len() == total_need(posts@, list@, i as int),
            forall|p: (usize, usize)| #[trigger]
                raw@.contains(p) <==> p.0 < p.1 && share_one(posts@, list@, i as int, p.0, p.1),
        decreases k - i,
    {
        let id: usize = list[i];
        assert(features::increasing(posts@[id as int]@));
        let ghost before = raw@;
        push_pairs(&posts[id], &mut raw);
        proof {
            assert forall|p: (usize, usize)| #[trigger] raw@.contains(p) <==> p.0 < p.1
                && share_one(posts@, list@, i + 1, p.0, p.1) by {
                if share_one(posts@, list@, i + 1, p.0, p.1) {
                    let t = choose|t: int|
                        0 <= t < i + 1 && posts@[(#[trigger] list@[t]) as int]@.contains(p.0)
                            && posts@[list@[t] as int]@.contains(p.1);
                    if t < i {
                        assert(share_one(posts@, list@, i as int, p.0, p.1));
                        if p.0 < p.1 {
                            assert(before.contains(p));
                        }
                    }
                }
                if before.contains(p) {
                    let t = choose|t: int|
                        0 <= t < i && posts@[(#[trigger] list@[t]) as int]@.contains(p.0)
                            && posts@[list@[t] as int]@.contains(p.1);
                    assert(0 <= t < i + 1 && posts@[list@[t] as int]@.contains(p.0));
                }
                if posts@[id as int]@.contains(p.0) && posts@[id as int]@.contains(p.1) {
                    assert(list@[i as int] == id);
                }
            }
        }
        i = i + 1;
    }
    sorted_pairs(&raw)
}

/// The pairs are those that share one of the features which the budget reaches,
/// rare ones first.
pub open spec fn is_within_budget(
    posts: Seq<Vec<usize>>,
    files: nat,
    budget: u64,
    list: Seq<usize>,
    k: int,
    pairs: Seq<(usize, usize)>,
) -> bool {
    &&& is_rare_first(posts, cap_of(files) as u64, list)
    &&& 0 <= k <= list.len()
    &&& total_need(posts, list, k) <= budget
    &&& k < list.len() ==> total_need(posts, list, k + 1) > budget
    &&& pairs_increase(pairs)
    &&& forall|p: (usize, usize)| #[trigger]
        pairs.contains(p) <==> p.0 < p.1 && share_one(posts, list, k, p.0, p.1)
}

/// The pairs of files to compare, by the holders of every feature; never more
/// than the budget allows.
pub fn candidates(posts: &Vec<Vec<usize>>, files: usize) -> (r: Vec<(usize, usize)>)
    requires
        counted(posts@),
        forall|id: int|
            0 <= id < posts@.len() ==> features::increasing((#[trigger] posts@[id])@),
    ensures
        exists|list: Seq<usize>, k: int|
            #[trigger] is_within_budget(
                posts@,
                files as nat,
                MAX_CANDIDATE_PAIRS,
                list,
                k,
                r@,
            ),
        r@.len() <= MAX_CANDIDATE_PAIRS,
{
    let cap: u64 = df_cap(files);
    let list = rare_first(posts, cap);
    assert forall|t: int| 0 <= t < list@.len() implies #[trigger] list@[t] < posts@.len() by {
        assert(list@.contains(list@[t]));
        assert(is_indexable(posts@, cap, list@[t]));
    }
    let k: usize = affordable(posts, &list, MAX_CANDIDATE_PAIRS);
    let pairs = candidate_pairs(posts, &list, k);
    assert(is_within_budget(posts@, files as nat, MAX_CANDIDATE_PAIRS, list@, k as int, pairs@));
    pairs
}

/// Up to 64 files no feature is too common; of more files it is where more than an eighth of
/// them have it.
pub proof fn law_what_is_too_common(files: nat, holders: nat)
    requires
        holders <= files,
        files <= u64::MAX,
    ensures
        files <= 64 ==> holders <= cap_of(files),
        files > 64 ==> (holders <= cap_of(files) <==> 8 * holders <= files),
{
}

proof fn more_pairs(a: nat, b: nat)
    requires
        a <= b,
    ensures
        pairs_among(a) <= pairs_among(b),
        2 <= b && a < b ==> pairs_among(a) < pairs_among(b),
    decreases b,
{
    if a < b {
        more_pairs(a, (b - 1) as nat);
    }
}

/// Pairs are taken from the features that at least two files have and that are not too
/// common, those of fewer files first.
pub proof fn law_rare_features_come_first(posts: Seq<Vec<usize>>, cap: u64, list: Seq<usize>)
    requires
        is_rare_first(posts, cap, list),
    ensures
        forall|id: usize|
            #![trigger posts[id as int]]
            id < posts.len() && 2 <= posts[id as int]@.len() <= cap ==> list.contains(id),
        forall|p: int|
            0 <= p < list.len() ==> (#[trigger] list[p]) < posts.len() && 2
                <= posts[list[p] as int]@.len() <= cap,
        forall|p: int, q: int|
            0 <= p < q < list.len() ==> posts[(#[trigger] list[p]) as int]@.len()
                <= posts[(#[trigger] list[q]) as int]@.len(),
{
    assert forall|id: usize|
        #![trigger posts[id as int]]
        id < posts.len() && 2 <= posts[id as int]@.len() <= cap implies list.contains(id) by {
        assert(is_indexable(posts, cap, id));
    }
    assert forall|p: int| 0 <= p < list.len() implies (#[trigger] list[p]) < posts.len() && 2
        <= posts[list[p] as int]@.len() <= cap by {
        assert(list.contains(list[p]));
        assert(is_indexable(posts, cap, list[p]));
    }
    assert forall|p: int, q: int| 0 <= p < q < list.len() implies posts[(
    #[trigger] list[p]) as int]@.len() <= posts[(#[trigger] list[q]) as int]@.len() by {
        assert(used_before(posts, list[p], list[q]));
        let a = posts[list[p] as int]@.len();
        let b = posts[list[q] as int]@.len();
        if b < a {
            more_pairs(b, a);
        }
    }
}

/// The files that are compared have a feature in common that is not too common; and as long
/// as the budget reaches all such features, all files that have one in common are compared.
pub proof fn law_which_files_are_compared(
    posts: Seq<Vec<usize>>,
    files: nat,
    budget: u64,
    list: Seq<usize>,
    k: int,
    pairs: Seq<(usize, usize)>,
    a: usize,
    b: usize,
)
    requires
        is_within_budget(posts, files, budget, list, k, pairs),
        cap_of(files) <= u64::MAX,
    ensures
        pairs.contains((a, b)) ==> a < b && exists|id: int|
            0 <= id < posts.len() && (#[trigger] posts[id])@.contains(a) && posts[id]@.contains(b)
                && posts[id]@.len() >= 2 && posts[id]@.len() <= cap_of(files),
        total_need(posts, list, list.len() as int) <= budget && a < b && (exists|id: int|
            0 <= id < posts.len() && (#[trigger] posts[id])@.contains(a) && posts[id]@.contains(b)
                && 2 <= posts[id]@.len() <= cap_of(files)) && posts.len() <= usize::MAX
            ==> pairs.contains((a, b)),
{
    if pairs.contains((a, b)) {
        assert(share_one(posts, list, k, a, b));
        let t = choose|t: int|
            0 <= t < k && posts[(#[trigger] list[t]) as int]@.contains(a)
                && posts[list[t] as int]@.contains(b);
        assert(list.contains(list[t]));
        assert(is_indexable(posts, cap_of(files) as u64, list[t]));
        assert(posts[list[t] as int]@.contains(a));
    }
    if total_need(posts, list, list.len() as int) <= budget && a < b && (exists|id: int|
        0 <= id < posts.len() && (#[trigger] posts[id])@.contains(a) && posts[id]@.contains(b) && 2
            <= posts[id]@.len() <= cap_of(files)) && posts.len() <= usize::MAX {
        let id = choose|id: int|
            0 <= id < posts.len() && (#[trigger] posts[id])@.contains(a) && posts[id]@.contains(b)
                && 2 <= posts[id]@.len() <= cap_of(files);
        if k < list.len() {
            need_grows(posts, list, k + 1, list.len() as int);
        }
        assert(is_indexable(posts, cap_of(files) as u64, id as usize));
        assert(list.contains(id as usize));
        let t = choose|t: int| 0 <= t < list.len() && list[t] == id as usize;
        assert(posts[list[t] as int]@.contains(a) && posts[list[t] as int]@.contains(b));
        assert(share_one(posts, list, k, a, b));
    }
}

proof fn need_grows(posts: Seq<Vec<usize>>, list: Seq<usize>, a: int, b: int)
    requires
        0 <= a <= b,
    ensures
        total_need(posts, list, a) <= total_need(posts, list, b),
    decreases b,
{
    if a < b {
        need_grows(posts, list, a, b - 1);
    }
}

/// The numbers in some runs are those that stand in one of them.
pub proof fn law_runs_hold_their_units(runs: Seq<Vec<usize>>, x: usize)
    ensures
        run_set(runs).contains(x) <==> exists|i: int|
            0 <= i < runs.len() && (#[trigger] runs[i])@.contains(x),
    decreases runs.len(),
{
    if runs.len() > 0 {
        let before = runs.drop_last();
        law_runs_hold_their_units(before, x);
        if exists|i: int| 0 <= i < before.len() && (#[trigger] before[i])@.contains(x) {
            let i = choose|i: int| 0 <= i < before.len() && (#[trigger] before[i])@.contains(x);
            assert(runs[i]@.contains(x));
        }
        if exists|i: int| 0 <= i < runs.len() && (#[trigger] runs[i])@.contains(x) {
            let i = choose|i: int| 0 <= i < runs.len() && (#[trigger] runs[i])@.contains(x);
            if i < before.len() {
                assert(before[i]@.contains(x));
            }
        }
        if runs.last()@.contains(x) {
            assert(runs[runs.len() - 1]@.contains(x));
        }
    }
}

/// A file is compared by what its name and the name of its directory hold.
pub proof fn law_names_and_directories_count(f: Features, x: usize)
    ensures
        tokens_of(f).contains(x) <==> f.name.tokens@.contains(x) || f.parent.tokens@.contains(x),
        parts_of(f).contains(x) <==> f.name.substrings@.contains(x)
            || f.parent.substrings@.contains(x),
        units_of(f).contains(x) <==> run_set(f.name.runs@).contains(x) || run_set(
            f.parent.runs@,
        ).contains(x),
{
}

} // verus!
