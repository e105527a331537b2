//! Files that belong together, joined edge by edge.

use crate::functional::features::IdSet;
use crate::order;
use vstd::prelude::*;

verus! {

/// Two files that have something in common. The score only orders the edges.
#[derive(Clone, Copy, Debug, PartialEq, Eq, Structural)]
pub struct Edge {
    pub a: usize,
    pub b: usize,
    pub score: u64,
    /// A strong edge joins whole groups; another one only adds a single file.
    pub strong: bool,
}

/// The files with a label.
pub open spec fn labelled(label: Seq<usize>, r: usize) -> Set<usize> {
    Set::new(|i: usize| i < label.len() && label[i as int] == r)
}

/// How many files have a label.
pub open spec fn size_of(label: Seq<usize>, r: usize) -> nat {
    labelled(label, r).len()
}

/// Gives the files of one label another one.
pub open spec fn relabelled(label: Seq<usize>, small: usize, big: usize) -> Seq<usize> {
    Seq::new(
        label.len(),
        |i: int|
            if label[i] == small {
                big
            } else {
                label[i]
            },
    )
}

/// The groups after an edge: the larger group takes the smaller one in, unless the
/// edge may not join two groups of more than one file.
pub open spec fn merged(label: Seq<usize>, a: usize, b: usize, allow: bool) -> Seq<usize> {
    let ra = label[a as int];
    let rb = label[b as int];
    if ra == rb {
        label
    } else if !allow && size_of(label, ra) > 1 && size_of(label, rb) > 1 {
        label
    } else if size_of(label, ra) >= size_of(label, rb) {
        relabelled(label, rb, ra)
    } else {
        relabelled(label, ra, rb)
    }
}

/// Disjoint groups of the files `0..n`, each with one of its files as label.
pub struct UnionFind {
    label: Vec<usize>,
    members: Vec<Vec<usize>>,
}

impl View for UnionFind {
    type V = Seq<usize>;

    closed spec fn view(&self) -> Seq<usize> {
        self.label@
    }
}

impl UnionFind {
    /// The lists of members say what the labels say.
    pub closed spec fn valid(&self) -> bool {
        &&& self.members@.len() == self.label@.len()
        &&& forall|i: int| 0 <= i < self.label@.len() ==> #[trigger] self.label@[i] < self.label@.len()
        &&& forall|r: int, x: usize|
            0 <= r < self.members@.len() ==> (#[trigger] self.members@[r]@.contains(x) <==> x
                < self.label@.len() && self.label@[x as int] == r)
        &&& forall|r: int|
            0 <= r < self.members@.len() ==> (#[trigger] self.members@[r])@.no_duplicates()
    }

    /// Every file alone.
    pub fn new(count: usize) -> (r: UnionFind)
        ensures
            r.valid(),
            r@ == Seq::new(count as nat, |i: int| i as usize),
    {
        let mut label: Vec<usize> = Vec::new();
        let mut members: Vec<Vec<usize>> = Vec::new();
        let mut i: usize = 0;
        while i < count
            invariant
                i <= count,
                label@.len() == i,
                members@.len() == i,
                forall|k: int| 0 <= k < i ==> #[trigger] label@[k] == k,
                forall|k: int| 0 <= k < i ==> (#[trigger] members@[k])@ == seq![k as usize],
            decreases count - i,
        {
            label.push(i);
            let mut one: Vec<usize> = Vec::new();
            one.push(i);
            assert(one@ =~= seq![i]);
            members.push(one);
            i = i + 1;
        }
        assert(label@ =~= Seq::new(count as nat, |i: int| i as usize));
        let r = UnionFind { label, members };
        assert forall|k: int, x: usize| 0 <= k < members@.len() implies (
        #[trigger] members@[k]@.contains(x) <==> x < label@.len() && label@[x as int] == k) by {
            assert(members@[k]@[0] == k);
        }
        r
    }

    /// A group's list of members is as long as the group is large.
    proof fn size_is_len(&self, r: usize)
        requires
            self.valid(),
            r < self.label@.len(),
        ensures
            self.members@[r as int]@.len() == size_of(self@, r),
    {
        let list = self.members@[r as int]@;
        list.unique_seq_to_set();
        assert(list.to_set() =~= labelled(self@, r));
    }

    /// The label of the group that a file is in.
    pub fn find(&self, node: usize) -> (r: usize)
        requires
            self.valid(),
            node < self@.len(),
        ensures
            r == self@[node as int],
            r < self@.len(),
    {
        self.label[node]
    }

    /// Moves all members of one group into another.
    fn absorb(&mut self, big: usize, small: usize)
        requires
            old(self).valid(),
            big < old(self)@.len(),
            small < old(self)@.len(),
            big != small,
        ensures
            final(self).valid(),
            final(self)@ == relabelled(old(self)@, small, big),
    {
        let ghost before = self.label@;
        let ghost lists = self.members@;
        let mut moved: Vec<usize> = Vec::new();
        std::mem::swap(&mut moved, &mut self.members[small]);
        assert(moved@ == lists[small as int]@);
        let ghost base = lists[big as int]@;
        let mut i: usize = 0;
        while i < moved.len()
            invariant
                i <= moved@.len(),
                big != small,
                big < before.len(),
                small < before.len(),
                lists.len() == before.len(),
                moved@ == lists[small as int]@,
                base == lists[big as int]@,
                moved@.no_duplicates(),
                forall|x: usize|
                    #[trigger] moved@.contains(x) <==> x < before.len() && before[x as int] == small,
                self.label@.len() == before.len(),
                self.members@.len() == before.len(),
                forall|x: usize|
                    x < before.len() ==> #[trigger] self.label@[x as int] == (if moved@.take(
                        i as int,
                    ).contains(x) {
                        big
                    } else {
                        before[x as int]
                    }),
                self.members@[big as int]@ == base + moved@.take(i as int),
                self.members@[small as int]@ == Seq::<usize>::empty(),
                forall|r: int|
                    0 <= r < before.len() && r != big && r != small ==> #[trigger] self.members@[r]
                        == lists[r],
            decreases moved.len() - i,
        {
            let x: usize = moved[i];
            assert(moved@.contains(x));
            self.label.set(x, big);
            self.members[big].push(x);
            proof {
                order::taken_more(moved@, i as int);
                assert(moved@.take(i + 1) =~= moved@.take(i as int).push(x));
                assert(base + moved@.take(i + 1) =~= (base + moved@.take(i as int)).push(x));
            }
            i = i + 1;
        }
        proof {
            assert(moved@.take(i as int) =~= moved@);
            let n: usize = self.label.len();
            assert forall|x: int| 0 <= x < before.len() implies self.label@[x] == relabelled(
                before,
                small,
                big,
            )[x] by {
                let y = x as usize;
                assert(x < n);
                assert(self.label@[y as int] == self.label@[x]);
                assert(moved@.contains(y) == (before[y as int] == small));
            }
            assert(self.label@ =~= relabelled(before, small, big));
            assert forall|r: int, x: usize| 0 <= r < self.members@.len() implies (
            #[trigger] self.members@[r]@.contains(x) <==> x < self.label@.len()
                && self.label@[x as int] == r) by {
                assert(lists[r]@.contains(x) <==> x < before.len() && before[x as int] == r);
                if r == big {
                    let joined = base + moved@;
                    if joined.contains(x) {
                        let k = choose|k: int| 0 <= k < joined.len() && joined[k] == x;
                        if k < base.len() {
                            assert(base[k] == x);
                            assert(base.contains(x));
                        } else {
                            assert(moved@[k - base.len()] == x);
                            assert(moved@.contains(x));
                        }
                    }
                    if base.contains(x) {
                        let k = choose|k: int| 0 <= k < base.len() && base[k] == x;
                        assert(joined[k] == x);
                    }
                    if moved@.contains(x) {
                        let k = choose|k: int| 0 <= k < moved@.len() && moved@[k] == x;
                        assert(joined[base.len() + k] == x);
                    }
                } else if r != small {
                    assert(self.members@[r] == lists[r]);
                }
            }
            assert forall|r: int| 0 <= r < self.members@.len() implies (
            #[trigger] self.members@[r])@.no_duplicates() by {
                if r == big {
                    let joined = base + moved@;
                    assert forall|p: int, q: int|
                        0 <= p < joined.len() && 0 <= q < joined.len() && p != q implies joined[p]
                        != joined[q] by {
                        assert(lists[big as int]@.no_duplicates());
                        if p < base.len() {
                            assert(base.contains(base[p]));
                            assert(lists[big as int]@.contains(base[p]));
                        } else {
                            assert(moved@.contains(moved@[p - base.len()]));
                        }
                        if q < base.len() {
                            assert(base.contains(base[q]));
                            assert(lists[big as int]@.contains(base[q]));
                        } else {
                            assert(moved@.contains(moved@[q - base.len()]));
                        }
                    }
                } else if r != small {
                    assert(self.members@[r] == lists[r]);
                }
            }
        }
    }

    /// Joins the groups of two files, where the edge between them allows it.
    pub fn union(&mut self, a: usize, b: usize, allow_group_merge: bool)
        requires
            old(self).valid(),
            a < old(self)@.len(),
            b < old(self)@.len(),
        ensures
            final(self).valid(),
            final(self)@ == merged(old(self)@, a, b, allow_group_merge),
    {
        let ra: usize = self.find(a);
        let rb: usize = self.find(b);
        if ra == rb {
            return;
        }
        proof {
            self.size_is_len(ra);
            self.size_is_len(rb);
        }
        let size_a: usize = self.members[ra].len();
        let size_b: usize = self.members[rb].len();
        if !allow_group_merge && size_a > 1 && size_b > 1 {
            return;
        }
        if size_a >= size_b {
            self.absorb(ra, rb);
        } else {
            self.absorb(rb, ra);
        }
    }
}

/// Files that are together stay together.
pub proof fn law_together_stays(label: Seq<usize>, a: usize, b: usize, allow: bool, i: int, j: int)
    requires
        0 <= i < label.len(),
        0 <= j < label.len(),
        label[i] == label[j],
    ensures
        merged(label, a, b, allow).len() == label.len(),
        merged(label, a, b, allow)[i] == merged(label, a, b, allow)[j],
{
}

/// A weak edge never joins two groups that both have more than one file.
pub proof fn law_weak_edge_adds_one_file(label: Seq<usize>, a: usize, b: usize)
    requires
        a < label.len(),
        b < label.len(),
        merged(label, a, b, false) != label,
    ensures
        size_of(label, label[a as int]) <= 1 || size_of(label, label[b as int]) <= 1,
{
}

/// Better edges first, then by the files.
pub open spec fn edge_le(x: Edge, y: Edge) -> bool {
    x.score > y.score || (x.score == y.score && (x.a < y.a || (x.a == y.a && x.b <= y.b)))
}

pub open spec fn edge_order(edges: Seq<Edge>) -> spec_fn(int, int) -> bool {
    |i: int, j: int| edge_le(edges[i], edges[j])
}

/// The groups after the first `k` edges of an order.
pub open spec fn linked(label: Seq<usize>, edges: Seq<Edge>, perm: Seq<usize>, k: int) -> Seq<usize>
    decreases k,
{
    if k <= 0 {
        label
    } else {
        let e = edges[perm[k - 1] as int];
        merged(linked(label, edges, perm, k - 1), e.a, e.b, e.strong)
    }
}

/// Every file alone.
pub open spec fn alone(count: nat) -> Seq<usize> {
    Seq::new(count, |i: int| i as usize)
}

/// Joins the files along all edges, the best edge first.
pub fn link(count: usize, edges: &Vec<Edge>) -> (r: UnionFind)
    requires
        forall|i: int|
            0 <= i < edges@.len() ==> (#[trigger] edges@[i]).a < count && edges@[i].b < count,
    ensures
        r.valid(),
        r@.len() == count,
        exists|perm: Seq<usize>|
            order::is_sorting(edge_order(edges@), perm, edges@.len() as int) && r@
                == #[trigger] linked(alone(count as nat), edges@, perm, edges@.len() as int),
{
    let ghost le = edge_order(edges@);
    let f = |i: usize, j: usize| -> (b: bool)
        requires
            i < edges@.len(),
            j < edges@.len(),
        ensures
            b == edge_le(edges@[i as int], edges@[j as int]),
        {
            let x = edges[i];
            let y = edges[j];
            x.score > y.score || (x.score == y.score && (x.a < y.a || (x.a == y.a && x.b <= y.b)))
        };
    let perm = order::sorting(&f, edges.len(), Ghost(le));
    let mut uf = UnionFind::new(count);
    let mut i: usize = 0;
    while i < perm.len()
        invariant
            i <= perm@.len(),
            order::spans(perm@, 0, edges@.len() as int),
            forall|i: int|
                0 <= i < edges@.len() ==> (#[trigger] edges@[i]).a < count && edges@[i].b < count,
            uf.valid(),
            uf@.len() == count,
            uf@ == linked(alone(count as nat), edges@, perm@, i as int),
        decreases perm.len() - i,
    {
        assert(perm@.contains(perm@[i as int]));
        let e = edges[perm[i]];
        uf.union(e.a, e.b, e.strong);
        i = i + 1;
    }
    uf
}

/// The order in which edges of equal standing were given does not matter: there is
/// one result.
pub proof fn law_link_is_determined(
    count: nat,
    edges: Seq<Edge>,
    p: Seq<usize>,
    q: Seq<usize>,
)
    requires
        order::is_sorting(edge_order(edges), p, edges.len() as int),
        order::is_sorting(edge_order(edges), q, edges.len() as int),
    ensures
        linked(alone(count), edges, p, edges.len() as int) == linked(
            alone(count),
            edges,
            q,
            edges.len() as int,
        ),
{
    order::law_sorting_unique(edge_order(edges), p, q, edges.len() as int);
}

/// The best score of the first `k` edges between a file and another one of its group.
pub open spec fn best_score(edges: Seq<Edge>, label: Seq<usize>, m: usize, k: int) -> u64
    decreases k,
{
    if k <= 0 {
        0
    } else {
        let e = edges[k - 1];
        let rest = best_score(edges, label, m, k - 1);
        if (e.a == m || e.b == m) && label[e.a as int] == label[e.b as int] && e.score > rest {
            e.score
        } else {
            rest
        }
    }
}

/// For every file the best score of an edge inside its group; 0 where there is none.
pub fn best_scores(uf: &UnionFind, edges: &Vec<Edge>) -> (r: Vec<u64>)
    requires
        uf.valid(),
        forall|i: int|
            0 <= i < edges@.len() ==> (#[trigger] edges@[i]).a < uf@.len() && edges@[i].b
                < uf@.len(),
    ensures
        r@.len() == uf@.len(),
        forall|m: usize|
            m < uf@.len() ==> #[trigger] r@[m as int] == best_score(
                edges@,
                uf@,
                m,
                edges@.len() as int,
            ),
{
    let n: usize = uf.label.len();
    let mut r: Vec<u64> = Vec::new();
    let mut c: usize = 0;
    while c < n
        invariant
            c <= n,
            r@.len() == c,
            forall|m: int| 0 <= m < c ==> #[trigger] r@[m] == 0,
        decreases n - c,
    {
        r.push(0);
        c = c + 1;
    }
    let mut i: usize = 0;
    while i < edges.len()
        invariant
            i <= edges@.len(),
            uf.valid(),
            n == uf@.len(),
            r@.len() == n,
            forall|i: int|
                0 <= i < edges@.len() ==> (#[trigger] edges@[i]).a < uf@.len() && edges@[i].b
                    < uf@.len(),
            forall|m: usize|
                m < n ==> #[trigger] r@[m as int] == best_score(edges@, uf@, m, i as int),
        decreases edges.len() - i,
    {
        let e = edges[i];
        let ghost before = r@;
        if uf.find(e.a) == uf.find(e.b) {
            if e.score > r[e.a] {
                r.set(e.a, e.score);
            }
            if e.score > r[e.b] {
                r.set(e.b, e.score);
            }
        }
        proof {
            assert forall|m: usize| m < n implies #[trigger] r@[m as int] == best_score(
                edges@,
                uf@,
                m,
                i + 1,
            ) by {
                assert(before[m as int] == best_score(edges@, uf@, m, i as int));
            }
        }
        i = i + 1;
    }
    r
}

/// The files among the first `k` with a label, from the front.
pub open spec fn group_list(label: Seq<usize>, r: usize, k: int) -> Seq<usize>
    decreases k,
{
    if k <= 0 {
        Seq::empty()
    } else if label[k - 1] == r {
        group_list(label, r, k - 1).push((k - 1) as usize)
    } else {
        group_list(label, r, k - 1)
    }
}

/// The groups with one of the first `r` labels, by label; without empty ones.
pub open spec fn group_lists(label: Seq<usize>, r: int) -> Seq<Seq<usize>>
    decreases r,
{
    if r <= 0 {
        Seq::empty()
    } else {
        let list = group_list(label, (r - 1) as usize, label.len() as int);
        if list.len() > 0 {
            group_lists(label, r - 1).push(list)
        } else {
            group_lists(label, r - 1)
        }
    }
}

/// The contents of some lists.
pub open spec fn lists(v: Seq<Vec<usize>>) -> Seq<Seq<usize>> {
    Seq::new(v.len(), |i: int| v[i]@)
}

/// The groups, by label, each with its files from the front.
pub fn components(uf: &UnionFind) -> (r: Vec<Vec<usize>>)
    requires
        uf.valid(),
    ensures
        lists(r@) == group_lists(uf@, uf@.len() as int),
        are_parts(lists(r@), uf@.len()),
{
    let n: usize = uf.label.len();
    proof {
        assert(uf@.len() == n);
        parts_of_labels(uf@, uf@.len() as int);
    }
    let mut all: Vec<Vec<usize>> = Vec::new();
    let mut c: usize = 0;
    while c < n
        invariant
            c <= n,
            all@.len() == c,
            forall|m: int| 0 <= m < c ==> (#[trigger] all@[m])@ == Seq::<usize>::empty(),
        decreases n - c,
    {
        all.push(Vec::new());
        c = c + 1;
    }
    let mut i: usize = 0;
    while i < n
        invariant
            i <= n,
            n == uf@.len(),
            uf.valid(),
            all@.len() == n,
            forall|m: usize|
                m < n ==> (#[trigger] all@[m as int])@ == group_list(uf@, m, i as int),
        decreases n - i,
    {
        let at: usize = uf.find(i);
        let ghost before = all@;
        all[at].push(i);
        proof {
            assert forall|m: usize| m < n implies (#[trigger] all@[m as int])@ == group_list(
                uf@,
                m,
                i + 1,
            ) by {
                assert(before[m as int]@ == group_list(uf@, m, i as int));
                if m != at {
                    assert(all@[m as int] == before[m as int]);
                }
            }
        }
        i = i + 1;
    }
    let mut out: Vec<Vec<usize>> = Vec::new();
    let mut r: usize = 0;
    assert(lists(out@) =~= Seq::<Seq<usize>>::empty());
    while r < n
        invariant
            r <= n,
            n == uf@.len(),
            all@.len() == n,
            forall|m: usize|
                r <= m < n ==> (#[trigger] all@[m as int])@ == group_list(uf@, m, n as int),
            lists(out@) == group_lists(uf@, r as int),
        decreases n - r,
    {
        let ghost before = out@;
        let ghost rest = all@;
        let mut list: Vec<usize> = Vec::new();
        std::mem::swap(&mut list, &mut all[r]);
        proof {
            assert(list@ == rest[r as int]@);
            assert forall|m: usize| r + 1 <= m < n implies (#[trigger] all@[m as int])@
                == group_list(uf@, m, n as int) by {
                assert(all@[m as int] == rest[m as int]);
            }
        }
        if list.len() > 0 {
            out.push(list);
            assert(lists(out@) =~= lists(before).push(list@));
        }
        r = r + 1;
    }
    out
}

/// What the list of a label holds.
pub proof fn group_list_exact(label: Seq<usize>, r: usize, k: int)
    requires
        0 <= k <= label.len(),
        k <= usize::MAX,
    ensures
        forall|x: usize| #[trigger]
            group_list(label, r, k).contains(x) <==> x < k && label[x as int] == r,
    decreases k,
{
    if k > 0 {
        group_list_exact(label, r, k - 1);
        let before = group_list(label, r, k - 1);
        let after = group_list(label, r, k);
        assert forall|x: usize| #[trigger] after.contains(x) <==> x < k && label[x as int] == r by {
            if after.contains(x) {
                let t = choose|t: int| 0 <= t < after.len() && after[t] == x;
                if t < before.len() {
                    assert(before[t] == x);
                    assert(before.contains(x));
                }
            }
            if before.contains(x) {
                let t = choose|t: int| 0 <= t < before.len() && before[t] == x;
                assert(after[t] == x);
            }
            if x == k - 1 && label[x as int] == r {
                assert(after[before.len() as int] == x);
            }
        }
    }
}

/// Every file is in a group, and in no other: in the one with its label.
pub proof fn law_every_file_in_one_group(label: Seq<usize>, x: usize, r: int)
    requires
        0 <= r <= label.len() <= usize::MAX,
        x < label.len(),
        label[x as int] < label.len(),
    ensures
        label[x as int] < r ==> exists|g: int|
            0 <= g < group_lists(label, r).len() && (#[trigger] group_lists(label, r)[g]).contains(
                x,
            ),
        forall|g: int, h: int|
            0 <= g < group_lists(label, r).len() && 0 <= h < group_lists(label, r).len() && (
            #[trigger] group_lists(label, r)[g]).contains(x) && (#[trigger] group_lists(
                label,
                r,
            )[h]).contains(x) ==> g == h,
        label[x as int] >= r ==> forall|g: int|
            0 <= g < group_lists(label, r).len() ==> !(#[trigger] group_lists(
                label,
                r,
            )[g]).contains(x),
    decreases r,
{
    if r > 0 {
        law_every_file_in_one_group(label, x, r - 1);
        let before = group_lists(label, r - 1);
        let after = group_lists(label, r);
        let list = group_list(label, (r - 1) as usize, label.len() as int);
        group_list_exact(label, (r - 1) as usize, label.len() as int);
        assert(list.contains(x) == (label[x as int] == r - 1));
        if label[x as int] == r - 1 {
            assert(list.len() > 0);
            assert(after[before.len() as int].contains(x));
        } else if label[x as int] < r - 1 {
            let g = choose|g: int| 0 <= g < before.len() && (#[trigger] before[g]).contains(x);
            assert(after[g].contains(x));
        }
        assert forall|g: int, h: int|
            0 <= g < after.len() && 0 <= h < after.len() && (#[trigger] after[g]).contains(x) && (
            #[trigger] after[h]).contains(x) implies g == h by {
            if g < before.len() {
                assert(before[g].contains(x));
            }
            if h < before.len() {
                assert(before[h].contains(x));
            }
        }
    }
}

/// Lists of files, each file in at most one of them and only once.
pub open spec fn are_parts(v: Seq<Seq<usize>>, count: nat) -> bool {
    &&& forall|g: int|
        0 <= g < v.len() ==> (#[trigger] v[g]).no_duplicates() && forall|x: usize| #[trigger]
            v[g].contains(x) ==> x < count
    &&& forall|g: int, h: int, x: usize|
        0 <= g < v.len() && 0 <= h < v.len() && #[trigger] v[g].contains(x)
            && #[trigger] v[h].contains(x) ==> g == h
}

proof fn group_list_rises(label: Seq<usize>, r: usize, k: int)
    requires
        0 <= k <= label.len() <= usize::MAX,
    ensures
        group_list(label, r, k).no_duplicates(),
    decreases k,
{
    if k > 0 {
        group_list_rises(label, r, k - 1);
        group_list_exact(label, r, k - 1);
        let before = group_list(label, r, k - 1);
        let x = (k - 1) as usize;
        assert(!before.contains(x));
        let now = before.push(x);
        assert forall|i: int, j: int| 0 <= i < now.len() && 0 <= j < now.len() && i != j implies now[i]
            != now[j] by {
            if i == before.len() {
                assert(before.contains(before[j]));
            } else if j == before.len() {
                assert(before.contains(before[i]));
            }
        }
    }
}

/// The groups by label are such lists.
proof fn parts_of_labels(label: Seq<usize>, r: int)
    requires
        0 <= r <= label.len() <= usize::MAX,
        forall|i: int| 0 <= i < label.len() ==> #[trigger] label[i] < label.len(),
    ensures
        are_parts(group_lists(label, r), label.len()),
    decreases r,
{
    let v = group_lists(label, r);
    if r > 0 {
        parts_of_labels(label, r - 1);
        let before = group_lists(label, r - 1);
        let list = group_list(label, (r - 1) as usize, label.len() as int);
        group_list_exact(label, (r - 1) as usize, label.len() as int);
        group_list_rises(label, (r - 1) as usize, label.len() as int);
        assert forall|g: int, x: usize|
            0 <= g < before.len() && #[trigger] before[g].contains(x) implies !list.contains(x) by {
            if list.contains(x) {
                law_every_file_in_one_group(label, x, r - 1);
            }
        }
        assert forall|g: int, h: int, x: usize|
            0 <= g < v.len() && 0 <= h < v.len() && #[trigger] v[g].contains(x)
                && #[trigger] v[h].contains(x) implies g == h by {
            if g < before.len() && h < before.len() {
                assert(before[g].contains(x) && before[h].contains(x));
            } else if g < before.len() {
                assert(before[g].contains(x) && list.contains(x));
            } else if h < before.len() {
                assert(before[h].contains(x) && list.contains(x));
            }
        }
    }
}

/// What the scores of two files say.
#[derive(Clone, Copy, Debug, PartialEq, Eq, Structural)]
pub struct PairFacts {
    /// The score is high enough for a strong edge.
    pub at_strong: bool,
    /// The score is high enough for a weak edge.
    pub at_medium: bool,
    /// Their names share a strong token.
    pub strong_name: bool,
    /// At least half of the shorter name is shared.
    pub half_name: bool,
    /// Their directories share a strong token.
    pub strong_parent: bool,
    /// The directories are at least half alike.
    pub half_parent: bool,
}

/// The edge between two files, and whether it is a strong one.
pub open spec fn edge_kind(f: PairFacts) -> Option<bool> {
    if f.at_strong {
        Some(true)
    } else if f.at_medium && (f.strong_name || f.half_name || (f.strong_parent && f.half_parent)) {
        Some(false)
    } else {
        None
    }
}

/// The edge between two files.
pub fn edge_of(a: usize, b: usize, score: u64, f: PairFacts) -> (r: Option<Edge>)
    ensures
        r == match edge_kind(f) {
            Some(strong) => Some(Edge { a, b, score, strong }),
            None => None,
        },
{
    if f.at_strong {
        Some(Edge { a, b, score, strong: true })
    } else if f.at_medium && (f.strong_name || f.half_name || (f.strong_parent && f.half_parent)) {
        Some(Edge { a, b, score, strong: false })
    } else {
        None
    }
}

/// Some token of both sets is strong.
pub open spec fn share_strong(a: Set<usize>, b: Set<usize>, strong: Seq<bool>) -> bool {
    exists|x: usize| #[trigger]
        a.contains(x) && b.contains(x) && x < strong.len() && strong[x as int]
}

/// Whether two sets of tokens share a strong one.
pub fn shares_strong(a: &IdSet, b: &IdSet, strong: &Vec<bool>) -> (r: bool)
    ensures
        r == share_strong(a@, b@, strong@),
{
    let list = a.items();
    let mut i: usize = 0;
    while i < list.len()
        invariant
            i <= list@.len(),
            list@.to_set() == a@,
            forall|k: int|
                0 <= k < i ==> !(b@.contains(#[trigger] list@[k]) && list@[k] < strong@.len()
                    && strong@[list@[k] as int]),
        decreases list.len() - i,
    {
        let x: usize = list[i];
        assert(list@.to_set().contains(x)) by {
            assert(list@.contains(list@[i as int]));
        }
        if x < strong.len() && strong[x] && b.contains(x) {
            assert(a@.contains(x) && b@.contains(x));
            return true;
        }
        i = i + 1;
    }
    assert forall|x: usize| a@.contains(x) implies !(b@.contains(x) && x < strong@.len()
        && strong@[x as int]) by {
        assert(list@.contains(x));
        let k = choose|k: int| 0 <= k < list@.len() && list@[k] == x;
        assert(!(b@.contains(list@[k]) && list@[k] < strong@.len() && strong@[list@[k] as int]));
    }
    false
}

/// A strong edge joins the groups of its two files, and so does any edge to a file that is
/// alone: after it two files are together exactly if they were before, or if they are of
/// the two groups. Any other edge changes nothing.
pub proof fn law_edges_join_two_groups(
    label: Seq<usize>,
    a: usize,
    b: usize,
    allow: bool,
    i: int,
    j: int,
)
    requires
        a < label.len(),
        b < label.len(),
        0 <= i < label.len(),
        0 <= j < label.len(),
    ensures
        ({
            let after = merged(label, a, b, allow);
            let ra = label[a as int];
            let rb = label[b as int];
            let joins = allow || size_of(label, ra) <= 1 || size_of(label, rb) <= 1;
            &&& after.len() == label.len()
            &&& joins ==> after[a as int] == after[b as int]
            &&& joins ==> (after[i] == after[j] <==> label[i] == label[j] || (label[i] == ra
                && label[j] == rb) || (label[i] == rb && label[j] == ra))
            &&& !joins ==> (after[i] == after[j] <==> label[i] == label[j])
        }),
{
}

/// The ends of a strong edge are in one group at the end.
pub proof fn law_strong_edges_hold(
    label: Seq<usize>,
    edges: Seq<Edge>,
    perm: Seq<usize>,
    i: int,
    k: int,
)
    requires
        0 <= i < k <= perm.len(),
        forall|t: int|
            0 <= t < perm.len() ==> edges[#[trigger] perm[t] as int].a < label.len()
                && edges[perm[t] as int].b < label.len(),
        edges[perm[i] as int].strong,
    ensures
        linked(label, edges, perm, k).len() == label.len(),
        linked(label, edges, perm, k)[edges[perm[i] as int].a as int] == linked(
            label,
            edges,
            perm,
            k,
        )[edges[perm[i] as int].b as int],
    decreases k,
{
    let e = edges[perm[k - 1] as int];
    linked_keeps_length(label, edges, perm, k - 1);
    let before = linked(label, edges, perm, k - 1);
    let x = edges[perm[i] as int];
    assert(e.a < label.len() && e.b < label.len()) by {
        let p = perm[k - 1];
    }
    assert(x.a < label.len() && x.b < label.len()) by {
        let p = perm[i];
    }
    law_edges_join_two_groups(before, e.a, e.b, e.strong, x.a as int, x.b as int);
    if i < k - 1 {
        law_strong_edges_hold(label, edges, perm, i, k - 1);
    }
}

proof fn linked_keeps_length(label: Seq<usize>, edges: Seq<Edge>, perm: Seq<usize>, k: int)
    ensures
        linked(label, edges, perm, k).len() == label.len(),
    decreases k,
{
    if k > 0 {
        linked_keeps_length(label, edges, perm, k - 1);
    }
}

/// A file that no edge comes to is in no group with another one.
pub proof fn law_files_without_edges_stay_alone(
    count: nat,
    edges: Seq<Edge>,
    perm: Seq<usize>,
    k: int,
    x: int,
    y: int,
)
    requires
        count <= usize::MAX,
        0 <= k <= perm.len(),
        0 <= x < count,
        0 <= y < count,
        x != y,
        forall|t: int|
            0 <= t < perm.len() ==> edges[#[trigger] perm[t] as int].a < count
                && edges[perm[t] as int].b < count && edges[perm[t] as int].a != x
                && edges[perm[t] as int].b != x,
    ensures
        linked(alone(count), edges, perm, k)[x] != linked(alone(count), edges, perm, k)[y],
    decreases k,
{
    if k > 0 {
        let e = edges[perm[k - 1] as int];
        let before = linked(alone(count), edges, perm, k - 1);
        linked_keeps_length(alone(count), edges, perm, k - 1);
        let p = perm[k - 1];
        law_files_without_edges_stay_alone(count, edges, perm, k - 1, x, y);
        law_files_without_edges_stay_alone(count, edges, perm, k - 1, x, e.a as int);
        law_files_without_edges_stay_alone(count, edges, perm, k - 1, x, e.b as int);
        law_edges_join_two_groups(before, e.a, e.b, e.strong, x, y);
    }
}

/// Edges with a higher score are followed first; of equal ones those of earlier files.
pub proof fn law_better_edges_come_first(edges: Seq<Edge>, perm: Seq<usize>, i: int, j: int)
    requires
        order::is_sorting(edge_order(edges), perm, edges.len() as int),
        0 <= i < j < perm.len(),
    ensures
        ({
            let x = edges[perm[i] as int];
            let y = edges[perm[j] as int];
            &&& x.score >= y.score
            &&& x.score == y.score ==> x.a <= y.a
            &&& x.score == y.score && x.a == y.a ==> x.b <= y.b
        }),
{
    assert(order::comes_before(edge_order(edges), perm[i] as int, perm[j] as int));
}

/// The best score of a file is that of an edge to another file of its group, and no such
/// edge has a higher one; without such an edge it is zero.
pub proof fn law_best_score_is_the_highest(edges: Seq<Edge>, label: Seq<usize>, m: usize, k: int)
    requires
        0 <= k <= edges.len(),
    ensures
        forall|i: int|
            0 <= i < k && ((#[trigger] edges[i]).a == m || edges[i].b == m)
                && label[edges[i].a as int] == label[edges[i].b as int] ==> edges[i].score
                <= best_score(edges, label, m, k),
        best_score(edges, label, m, k) == 0 || exists|i: int|
            0 <= i < k && ((#[trigger] edges[i]).a == m || edges[i].b == m)
                && label[edges[i].a as int] == label[edges[i].b as int] && edges[i].score
                == best_score(edges, label, m, k),
    decreases k,
{
    if k > 0 {
        law_best_score_is_the_highest(edges, label, m, k - 1);
        let e = edges[k - 1];
        let rest = best_score(edges, label, m, k - 1);
        if rest != 0 {
            let i = choose|i: int|
                0 <= i < k - 1 && ((#[trigger] edges[i]).a == m || edges[i].b == m)
                    && label[edges[i].a as int] == label[edges[i].b as int] && edges[i].score
                    == rest;
            assert(edges[i].score == rest);
        }
        assert(edges[k - 1] == e);
    }
}

/// A score that is high enough makes a strong edge by itself; a middling one needs names
/// or directories that have something in common, and makes a weak edge; without either
/// there is none.
pub proof fn law_what_makes_an_edge(f: PairFacts)
    ensures
        edge_kind(f) == Some(true) <==> f.at_strong,
        edge_kind(f) == Some(false) ==> f.at_medium && (f.strong_name || f.half_name
            || f.strong_parent),
        edge_kind(f) is None <== !f.at_strong && !f.at_medium,
        f.at_medium && (f.strong_name || f.half_name) ==> edge_kind(f) is Some,
        f.at_medium && f.strong_parent && f.half_parent ==> edge_kind(f) is Some,
        edge_kind(f) is Some && !f.at_strong && !f.strong_name && !f.half_name ==> f.strong_parent
            && f.half_parent,
{
}

/// Files share a strong word where one of those that both have is strong; words that only
/// one of them has do not count.
pub proof fn law_when_strong_words_are_shared(a: Set<usize>, b: Set<usize>, strong: Seq<bool>, x: usize)
    ensures
        a.contains(x) && b.contains(x) && x < strong.len() && strong[x as int] ==> share_strong(
            a,
            b,
            strong,
        ),
        share_strong(a, b, strong) == share_strong(b, a, strong),
        a.disjoint(b) ==> !share_strong(a, b, strong),
        (forall|i: int| 0 <= i < strong.len() ==> !#[trigger] strong[i]) ==> !share_strong(
            a,
            b,
            strong,
        ),
        share_strong(a, b, strong) ==> exists|y: usize|
            #![trigger strong[y as int]]
            a.contains(y) && b.contains(y) && y < strong.len() && strong[y as int],
{
    if share_strong(a, b, strong) {
        let y = choose|y: usize| #[trigger]
            a.contains(y) && b.contains(y) && y < strong.len() && strong[y as int];
        assert(b.contains(y) && a.contains(y));
        assert(strong[y as int]);
    }
    if share_strong(b, a, strong) {
        let y = choose|y: usize| #[trigger]
            b.contains(y) && a.contains(y) && y < strong.len() && strong[y as int];
        assert(a.contains(y) && b.contains(y));
    }
}

} // verus!
