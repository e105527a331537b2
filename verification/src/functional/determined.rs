//! The result is determined: the order in which the files are given does not matter.

use crate::functional::assign;
use crate::functional::assign::{Group, Named};
use crate::functional::candidates;
use crate::functional::cluster;
use crate::functional::cluster::Edge;
use crate::functional::corpus;
use crate::functional::corpus::{Features, FuncFile};
use crate::functional::features;
use crate::functional::features::RawPart;
use crate::functional::naming;
use crate::functional::pieces::PieceView;
use crate::order;
use vstd::prelude::*;

verus! {

/// Everything that is known of two texts is the same.
pub open spec fn same_part(a: RawPart, b: RawPart) -> bool {
    &&& a.tokens@ == b.tokens@
    &&& naming::lists(a.runs@) == naming::lists(b.runs@)
    &&& a.acronyms@ == b.acronyms@
    &&& a.substrings@ == b.substrings@
    &&& a.text@ == b.text@
}

/// Everything that is known of two files is the same.
pub open spec fn same_features(a: Features, b: Features) -> bool {
    same_part(a.name, b.name) && same_part(a.parent, b.parent)
}

/// Two groups with the same members, scores and name.
pub open spec fn same_group(a: Group, b: Group) -> bool {
    &&& a.members@ == b.members@
    &&& a.confidence == b.confidence
    &&& a.phrase_score == b.phrase_score
    &&& a.phrase_units@ == b.phrase_units@
    &&& a.name@ == b.name@
    &&& a.incumbent == b.incumbent
}

/// Two descriptions of the same pieces agree.
proof fn descriptions_agree(
    a: RawPart,
    b: RawPart,
    ps: Seq<PieceView>,
    names: Seq<Seq<char>>,
)
    requires
        features::describes(a, ps, names),
        features::describes(b, ps, names),
        features::distinct(names),
    ensures
        same_part(a, b),
{
    let u = naming::lists(a.runs@);
    let v = naming::lists(b.runs@);
    assert forall|i: int| 0 <= i < u.len() implies u[i] == v[i] by {
        assert(features::spells(names, a.runs@[i]@, features::unit_list(ps[i])));
        assert(features::spells(names, b.runs@[i]@, features::unit_list(ps[i])));
        assert forall|k: int| 0 <= k < u[i].len() implies u[i][k] == v[i][k] by {
            let x = a.runs@[i]@[k];
            let y = b.runs@[i]@[k];
            assert(names[x as int] == names[y as int]);
            if x < y {
                assert(names[x as int] != names[y as int]);
            } else if y < x {
                assert(names[y as int] != names[x as int]);
            }
        }
        assert(u[i] =~= v[i]);
    }
    assert(u =~= v);
}

proof fn run_sets_agree(a: Seq<Vec<usize>>, b: Seq<Vec<usize>>)
    requires
        naming::lists(a) == naming::lists(b),
    ensures
        candidates::run_set(a) == candidates::run_set(b),
    decreases a.len(),
{
    assert(naming::lists(a).len() == a.len() && naming::lists(b).len() == b.len());
    if a.len() > 0 {
        let u = naming::lists(a.drop_last());
        let v = naming::lists(b.drop_last());
        assert forall|i: int| 0 <= i < u.len() implies u[i] == v[i] by {
            assert(a[i]@ == naming::lists(a)[i] && b[i]@ == naming::lists(b)[i]);
        }
        assert(u =~= v);
        run_sets_agree(a.drop_last(), b.drop_last());
        let last = a.len() - 1;
        assert(a[last]@ == naming::lists(a)[last] && b[last]@ == naming::lists(b)[last]);
    }
}

/// Files of which the same is known can be put into the same groups.
proof fn joining_agrees(x: Features, y: Features, rare: Seq<bool>, a: Group, b: Group)
    requires
        same_features(x, y),
        same_group(a, b),
    ensures
        assign::can_join(x, rare, a) == assign::can_join(y, rare, b),
{
    run_sets_agree(x.name.runs@, y.name.runs@);
    run_sets_agree(x.parent.runs@, y.parent.runs@);
    assert forall|u: usize| #[trigger]
        assign::has_strong_unit(x, rare, u) == assign::has_strong_unit(y, rare, u) by {}
    if assign::can_join(x, rare, a) {
        let u = choose|u: int|
            0 <= u < a.phrase_units@.len() && assign::has_strong_unit(
                x,
                rare,
                #[trigger] a.phrase_units@[u],
            );
        assert(assign::has_strong_unit(y, rare, b.phrase_units@[u]));
    }
    if assign::can_join(y, rare, b) {
        let u = choose|u: int|
            0 <= u < b.phrase_units@.len() && assign::has_strong_unit(
                y,
                rare,
                #[trigger] b.phrase_units@[u],
            );
        assert(assign::has_strong_unit(x, rare, a.phrase_units@[u]) == assign::has_strong_unit(
            y,
            rare,
            a.phrase_units@[u],
        ));
    }
}

proof fn guests_agree(
    a: Seq<Group>,
    b: Seq<Group>,
    perm: Seq<usize>,
    kept: int,
    x: Features,
    y: Features,
    rare: Seq<bool>,
    file: usize,
    k: int,
)
    requires
        same_features(x, y),
        a.len() == b.len(),
        forall|g: int| 0 <= g < a.len() ==> same_group(#[trigger] a[g], b[g]),
        0 <= k,
        kept <= perm.len(),
        forall|t: int| 0 <= t < perm.len() ==> #[trigger] perm[t] < a.len(),
    ensures
        assign::guest_from(a, perm, kept, x, rare, k) == assign::guest_from(
            b,
            perm,
            kept,
            y,
            rare,
            k,
        ),
        assign::home_from(a, perm, kept, file, k) == assign::home_from(b, perm, kept, file, k),
    decreases kept - k,
{
    if k < kept {
        assert(perm[k] < a.len());
        let g = perm[k] as int;
        assert(same_group(a[g], b[g]));
        joining_agrees(x, y, rare, a[g], b[g]);
        guests_agree(a, b, perm, kept, x, y, rare, file, k + 1);
    }
}

/// What the files of an order enter is a matter of the files in that order.
proof fn entries_agree(
    a: Seq<FuncFile>,
    b: Seq<FuncFile>,
    p: Seq<usize>,
    q: Seq<usize>,
    k: int,
)
    requires
        0 <= k <= a.len(),
        p.len() == a.len(),
        q.len() == a.len(),
        forall|t: int| 0 <= t < a.len() ==> a[#[trigger] p[t] as int] == b[q[t] as int],
    ensures
        corpus::corpus_entries(a, p, k) == corpus::corpus_entries(b, q, k),
    decreases k,
{
    if k > 0 {
        entries_agree(a, b, p, q, k - 1);
        assert(a[p[k - 1] as int] == b[q[k - 1] as int]);
    }
}

proof fn chosen_parts_agree(
    a: Seq<Vec<usize>>,
    b: Seq<Vec<usize>>,
    by_name: Seq<Option<Named>>,
    by_parent: Seq<Option<Named>>,
    k: int,
)
    requires
        cluster::lists(a) == cluster::lists(b),
        0 <= k <= a.len(),
    ensures
        assign::named_parts(a, by_name, by_parent, k) == assign::named_parts(
            b,
            by_name,
            by_parent,
            k,
        ),
    decreases k,
{
    assert(cluster::lists(a).len() == a.len() && cluster::lists(b).len() == b.len());
    if k > 0 {
        chosen_parts_agree(a, b, by_name, by_parent, k - 1);
        assert(a[k - 1]@ == cluster::lists(a)[k - 1] && b[k - 1]@ == cluster::lists(b)[k - 1]);
    }
}

/// The same edges, scores and names make the same groups.
pub proof fn law_same_scores_make_the_same_groups(
    count: nat,
    edges: Seq<Edge>,
    u: Seq<usize>,
    v: Seq<usize>,
    parts: Seq<Vec<usize>>,
    others: Seq<Vec<usize>>,
    confidences: Seq<u64>,
    by_name: Seq<Option<Named>>,
    by_parent: Seq<Option<Named>>,
    incumbents: Seq<Seq<char>>,
    a: Seq<Group>,
    b: Seq<Group>,
)
    requires
        order::is_sorting(cluster::edge_order(edges), u, edges.len() as int),
        order::is_sorting(cluster::edge_order(edges), v, edges.len() as int),
        cluster::lists(parts) == cluster::group_lists(
            cluster::linked(cluster::alone(count), edges, u, edges.len() as int),
            count as int,
        ),
        cluster::lists(others) == cluster::group_lists(
            cluster::linked(cluster::alone(count), edges, v, edges.len() as int),
            count as int,
        ),
        assign::are_formed(a, parts, confidences, by_name, by_parent, incumbents),
        assign::are_formed(b, others, confidences, by_name, by_parent, incumbents),
    ensures
        a.len() == b.len(),
        forall|g: int| 0 <= g < a.len() ==> same_group(#[trigger] a[g], b[g]),
{
    cluster::law_link_is_determined(count, edges, u, v);
    assert(cluster::lists(parts).len() == parts.len() && cluster::lists(others).len()
        == others.len());
    chosen_parts_agree(parts, others, by_name, by_parent, parts.len() as int);
    let c = assign::named_parts(parts, by_name, by_parent, parts.len() as int);
    assign::named_parts_rise(parts, by_name, by_parent, parts.len() as int);
    assert forall|g: int| 0 <= g < a.len() implies same_group(#[trigger] a[g], b[g]) by {
        assert(0 <= c[g] < parts.len());
        assert(parts[c[g]]@ == cluster::lists(parts)[c[g]] && others[c[g]]@ == cluster::lists(
            others,
        )[c[g]]);
        assert(assign::is_group_of(
            b[g],
            others[c[g]]@,
            confidences[c[g]],
            assign::name_for(by_name, by_parent, c[g])->0,
            incumbents,
        ));
    }
}

/// The order in which the files are given does not matter. The same files, sorted by their
/// paths, have the same texts, and the same is known of every one of them, so that their
/// scores are the same. With the same scores they get the same groups, and every file gets
/// the same directory.
pub proof fn law_input_order_does_not_matter(
    files: Seq<FuncFile>,
    others: Seq<FuncFile>,
    p: Seq<usize>,
    q: Seq<usize>,
    x: Seq<Features>,
    y: Seq<Features>,
    a: Seq<Group>,
    b: Seq<Group>,
    rare: Seq<bool>,
    s: Seq<usize>,
    t: Seq<usize>,
    k: usize,
)
    requires
        files.len() == others.len() <= usize::MAX,
        forall|f: FuncFile| #[trigger] files.contains(f) ==> others.contains(f),
        forall|i: int, j: int| 0 <= i < j < files.len() ==> files[i].rel@ != files[j].rel@,
        forall|i: int, j: int| 0 <= i < j < others.len() ==> others[i].rel@ != others[j].rel@,
        order::is_sorting(corpus::rel_order(files), p, files.len() as int),
        order::is_sorting(corpus::rel_order(others), q, others.len() as int),
        x.len() == files.len(),
        y.len() == others.len(),
        forall|i: int|
            0 <= i < files.len() ==> corpus::features_of(
                #[trigger] x[i],
                files[p[i] as int],
                features::entered_all(
                    Seq::empty(),
                    corpus::corpus_entries(files, p, files.len() as int),
                ),
            ),
        forall|i: int|
            0 <= i < others.len() ==> corpus::features_of(
                #[trigger] y[i],
                others[q[i] as int],
                features::entered_all(
                    Seq::empty(),
                    corpus::corpus_entries(others, q, others.len() as int),
                ),
            ),
        a.len() == b.len(),
        forall|g: int| 0 <= g < a.len() ==> same_group(#[trigger] a[g], b[g]),
        order::is_sorting(assign::group_order(a), s, a.len() as int),
        order::is_sorting(assign::group_order(b), t, b.len() as int),
        k < files.len(),
    ensures
        features::entered_all(Seq::empty(), corpus::corpus_entries(files, p, files.len() as int))
            == features::entered_all(
            Seq::empty(),
            corpus::corpus_entries(others, q, others.len() as int),
        ),
        same_features(x[k as int], y[k as int]),
        files[p[k as int] as int].id == others[q[k as int] as int].id,
        assign::dir_of(a, s, x, rare, k) == assign::dir_of(b, t, y, rare, k),
{
    corpus::law_order_of_input_is_forgotten(files, others, p, q);
    entries_agree(files, others, p, q, files.len() as int);
    let entries = corpus::corpus_entries(files, p, files.len() as int);
    let names = features::entered_all(Seq::empty(), entries);
    features::entered_extends(Seq::empty(), entries);
    let file = files[p[k as int] as int];
    assert(file == others[q[k as int] as int]);
    assert(corpus::features_of(x[k as int], file, names));
    assert(corpus::features_of(y[k as int], file, names));
    descriptions_agree(
        x[k as int].name,
        y[k as int].name,
        features::pieces_in(corpus::stem_of(file)),
        names,
    );
    descriptions_agree(
        x[k as int].parent,
        y[k as int].parent,
        features::pieces_in(file.parent@),
        names,
    );
    same_order(a, b, s, t);
    let kept = assign::kept(a.len()) as int;
    assert forall|i: int| 0 <= i < s.len() implies #[trigger] s[i] < a.len() by {
        assert(s.contains(s[i]));
    }
    guests_agree(a, b, s, kept, x[k as int], y[k as int], rare, k, 0);
    assign::homes_are_kept(a, s, kept, k, 0);
    assign::guests_are_kept(a, s, kept, x[k as int], rare, 0);
}

/// The same groups come in the same order.
proof fn same_order(a: Seq<Group>, b: Seq<Group>, s: Seq<usize>, t: Seq<usize>)
    requires
        a.len() == b.len(),
        forall|g: int| 0 <= g < a.len() ==> same_group(#[trigger] a[g], b[g]),
        order::is_sorting(assign::group_order(a), s, a.len() as int),
        order::is_sorting(assign::group_order(b), t, b.len() as int),
    ensures
        s == t,
{
    let le = assign::group_order(a);
    let other = assign::group_order(b);
    assert forall|i: int, j: int| 0 <= i < a.len() && 0 <= j < a.len() implies #[trigger] le(i, j)
        == other(i, j) by {
        assert(same_group(a[i], b[i]) && same_group(a[j], b[j]));
    }
    assert forall|i: int| 0 <= i < t.len() implies 0 <= #[trigger] t[i] < a.len() by {
        assert(t.contains(t[i]));
    }
    assert(order::in_order(le, t));
    assign::group_order_total(a);
    order::law_sorting_unique(le, s, t, a.len() as int);
}

/// What is compared of every file.
pub open spec fn all_tokens(x: Seq<Features>) -> Seq<Set<usize>> {
    Seq::new(x.len(), |i: int| candidates::tokens_of(x[i]))
}

/// For every token the files that have it.
pub open spec fn are_postings(posts: Seq<Vec<usize>>, x: Seq<Features>, count: nat) -> bool {
    &&& posts.len() == count
    &&& forall|id: usize|
        id < count ==> (#[trigger] posts[id as int])@ == candidates::holders(
            all_tokens(x),
            id,
            x.len() as int,
        )
}

proof fn needs_agree(
    a: Seq<Vec<usize>>,
    b: Seq<Vec<usize>>,
    list: Seq<usize>,
    k: int,
)
    requires
        a.len() == b.len(),
        forall|id: int| 0 <= id < a.len() ==> (#[trigger] a[id])@ == b[id]@,
        0 <= k <= list.len(),
        forall|t: int| 0 <= t < list.len() ==> #[trigger] list[t] < a.len(),
    ensures
        candidates::total_need(a, list, k) == candidates::total_need(b, list, k),
    decreases k,
{
    if k > 0 {
        needs_agree(a, b, list, k - 1);
        assert(list[k - 1] < a.len());
        assert(a[list[k - 1] as int]@ == b[list[k - 1] as int]@);
    }
}

proof fn needs_grow(posts: Seq<Vec<usize>>, list: Seq<usize>, k: int, l: int)
    requires
        0 <= k <= l,
    ensures
        candidates::total_need(posts, list, k) <= candidates::total_need(posts, list, l),
    decreases l - k,
{
    if k < l {
        needs_grow(posts, list, k, l - 1);
    }
}

/// Which files are compared is a matter of what is known of them alone.
pub proof fn law_compared_pairs_are_determined(
    x: Seq<Features>,
    y: Seq<Features>,
    count: nat,
    a: Seq<Vec<usize>>,
    b: Seq<Vec<usize>>,
    budget: u64,
    u: Seq<usize>,
    v: Seq<usize>,
    k: int,
    l: int,
    pairs: Seq<(usize, usize)>,
    others: Seq<(usize, usize)>,
)
    requires
        x.len() == y.len(),
        forall|i: int| 0 <= i < x.len() ==> same_features(#[trigger] x[i], y[i]),
        count <= usize::MAX,
        are_postings(a, x, count),
        are_postings(b, y, count),
        candidates::is_within_budget(a, x.len(), budget, u, k, pairs),
        candidates::is_within_budget(b, y.len(), budget, v, l, others),
    ensures
        pairs == others,
{
    assert(all_tokens(x) =~= all_tokens(y)) by {
        assert forall|i: int| 0 <= i < x.len() implies all_tokens(x)[i] == all_tokens(y)[i] by {
            assert(same_features(x[i], y[i]));
        }
    }
    assert forall|id: int| 0 <= id < a.len() implies (#[trigger] a[id])@ == b[id]@ by {
        let t = id as usize;
        assert(a[t as int]@ == candidates::holders(all_tokens(x), t, x.len() as int));
        assert(b[t as int]@ == candidates::holders(all_tokens(y), t, y.len() as int));
    }
    let cap = candidates::cap_of(x.len()) as u64;
    assert forall|id: usize| #[trigger] u.contains(id) <==> v.contains(id) by {
        assert(candidates::is_indexable(a, cap, id) == candidates::is_indexable(b, cap, id));
    }
    assert forall|t: int| 0 <= t < u.len() implies #[trigger] u[t] < a.len() by {
        assert(u.contains(u[t]));
    }
    assert forall|t: int| 0 <= t < v.len() implies #[trigger] v[t] < a.len() by {
        assert(v.contains(v[t]));
    }
    let before = |p: usize, q: usize| candidates::used_before(a, p, q);
    assert forall|p: int, q: int| #![trigger v[p], v[q]] 0 <= p < q < v.len() implies before(
        v[p],
        v[q],
    ) && !before(v[q], v[p]) by {
        assert(candidates::used_before(b, v[p], v[q]));
        assert(v[p] < a.len() && v[q] < a.len());
        assert(a[v[p] as int]@ == b[v[p] as int]@ && a[v[q] as int]@ == b[v[q] as int]@);
    }
    order::strict_lists_agree(before, u, v);
    if k < l {
        needs_grow(b, u, k + 1, l);
        needs_agree(a, b, u, k + 1);
    } else if l < k {
        needs_grow(a, u, l + 1, k);
        needs_agree(a, b, u, l + 1);
    }
    assert(k == l);
    assert forall|p: (usize, usize)| #[trigger] pairs.contains(p) <==> others.contains(p) by {
        assert(candidates::share_one(a, u, k, p.0, p.1) == candidates::share_one(
            b,
            u,
            k,
            p.0,
            p.1,
        )) by {
            sharing_agrees(a, b, u, k, p.0, p.1);
            sharing_agrees(b, a, u, k, p.0, p.1);
        }
    }
    let less = |p: (usize, usize), q: (usize, usize)| candidates::pair_less(p, q);
    order::strict_lists_agree(less, pairs, others);
}

proof fn sharing_agrees(
    a: Seq<Vec<usize>>,
    b: Seq<Vec<usize>>,
    list: Seq<usize>,
    k: int,
    p: usize,
    q: usize,
)
    requires
        a.len() == b.len(),
        forall|id: int| 0 <= id < a.len() ==> (#[trigger] a[id])@ == b[id]@,
        0 <= k <= list.len(),
        forall|t: int| 0 <= t < list.len() ==> #[trigger] list[t] < a.len(),
    ensures
        candidates::share_one(a, list, k, p, q) ==> candidates::share_one(b, list, k, p, q),
{
    if candidates::share_one(a, list, k, p, q) {
        let t = choose|t: int|
            0 <= t < k && a[(#[trigger] list[t]) as int]@.contains(p)
                && a[list[t] as int]@.contains(q);
        assert(list[t] < a.len());
        assert(b[list[t] as int]@.contains(p) && b[list[t] as int]@.contains(q));
    }
}

} // verus!
