//! Stable sorting of positions by a caller's order.

use vstd::prelude::*;

verus! {

/// Any two positions can be compared, and the comparison chains.
pub open spec fn is_order(le: spec_fn(int, int) -> bool, n: int) -> bool {
    &&& forall|i: int, j: int|
        0 <= i < n && 0 <= j < n ==> #[trigger] le(i, j) || le(j, i)
    &&& forall|i: int, j: int, k: int|
        0 <= i < n && 0 <= j < n && 0 <= k < n && #[trigger] le(i, j) && #[trigger] le(j, k)
            ==> le(i, k)
}

/// One position comes before another: by the order, and by its place where the
/// order does not tell them apart.
pub open spec fn comes_before(le: spec_fn(int, int) -> bool, i: int, j: int) -> bool {
    le(i, j) && (le(j, i) ==> i < j)
}

/// Every position comes before all that stand behind it.
pub open spec fn in_order(le: spec_fn(int, int) -> bool, s: Seq<usize>) -> bool {
    forall|p: int, q: int|
        0 <= p < q < s.len() ==> comes_before(le, #[trigger] s[p] as int, #[trigger] s[q] as int)
}

/// Exactly the positions of a range.
pub open spec fn spans(s: Seq<usize>, low: int, high: int) -> bool {
    &&& s.len() == high - low
    &&& forall|x: usize| #[trigger] s.contains(x) <==> low <= x < high
}

/// The positions `0..n` in the caller's order, equal ones by place.
pub open spec fn is_sorting(le: spec_fn(int, int) -> bool, s: Seq<usize>, n: int) -> bool {
    spans(s, 0, n) && in_order(le, s)
}

/// The comparison answers for every pair of positions as the order says.
pub open spec fn answers<F: Fn(usize, usize) -> bool>(
    f: F,
    le: spec_fn(int, int) -> bool,
    n: int,
) -> bool {
    &&& forall|i: usize, j: usize| i < n && j < n ==> #[trigger] f.requires((i, j))
    &&& forall|i: usize, j: usize, b: bool|
        i < n && j < n && #[trigger] f.ensures((i, j), b) ==> b == le(i as int, j as int)
}

/// Merges two ordered runs, the second of later places.
fn merge<F: Fn(usize, usize) -> bool>(
    a: &Vec<usize>,
    b: &Vec<usize>,
    f: &F,
    n: usize,
    low: usize,
    mid: usize,
    high: usize,
    Ghost(le): Ghost<spec_fn(int, int) -> bool>,
) -> (r: Vec<usize>)
    requires
        low <= mid <= high <= n,
        is_order(le, n as int),
        answers(*f, le, n as int),
        spans(a@, low as int, mid as int),
        spans(b@, mid as int, high as int),
        in_order(le, a@),
        in_order(le, b@),
    ensures
        spans(r@, low as int, high as int),
        in_order(le, r@),
{
    let mut r: Vec<usize> = Vec::new();
    let mut i: usize = 0;
    let mut j: usize = 0;
    while i < a.len() || j < b.len()
        invariant
            i <= a@.len(),
            j <= b@.len(),
            r@.len() == i + j,
            low <= mid <= high <= n,
            is_order(le, n as int),
            answers(*f, le, n as int),
            spans(a@, low as int, mid as int),
            spans(b@, mid as int, high as int),
            in_order(le, a@),
            in_order(le, b@),
            in_order(le, r@),
            forall|x: usize| #[trigger]
                r@.contains(x) <==> a@.take(i as int).contains(x) || b@.take(j as int).contains(x),
            forall|p: int, q: int|
                0 <= p < r@.len() && i <= q < a@.len() ==> comes_before(
                    le,
                    #[trigger] r@[p] as int,
                    #[trigger] a@[q] as int,
                ),
            forall|p: int, q: int|
                0 <= p < r@.len() && j <= q < b@.len() ==> comes_before(
                    le,
                    #[trigger] r@[p] as int,
                    #[trigger] b@[q] as int,
                ),
        decreases a.len() + b.len() - i - j,
    {
        proof {
            if i < a@.len() {
                assert(a@.contains(a@[i as int]));
            }
            if j < b@.len() {
                assert(b@.contains(b@[j as int]));
            }
        }
        let from_a: bool = if i >= a.len() {
            false
        } else if j >= b.len() {
            true
        } else {
            f(a[i], b[j])
        };
        let ghost before = r@;
        if from_a {
            let x: usize = a[i];
            r.push(x);
            proof {
                assert forall|p: int, q: int| 0 <= p < r@.len() && j <= q < b@.len() implies comes_before(
                    le,
                    #[trigger] r@[p] as int,
                    #[trigger] b@[q] as int,
                ) by {
                    if p == before.len() {
                        assert(b@.contains(b@[q]));
                        if q > j {
                            assert(comes_before(le, b@[j as int] as int, b@[q] as int));
                        }
                        assert(le(x as int, b@[j as int] as int));
                        assert(le(x as int, b@[q] as int));
                    }
                }
                merged_more(before, a@, b@, i as int, j as int, true);
            }
            i = i + 1;
        } else {
            let x: usize = b[j];
            r.push(x);
            proof {
                assert forall|p: int, q: int| 0 <= p < r@.len() && i <= q < a@.len() implies comes_before(
                    le,
                    #[trigger] r@[p] as int,
                    #[trigger] a@[q] as int,
                ) by {
                    if p == before.len() {
                        assert(a@.contains(a@[q]));
                        assert(!le(a@[i as int] as int, x as int));
                        assert(le(x as int, a@[i as int] as int));
                        if q > i {
                            assert(comes_before(le, a@[i as int] as int, a@[q] as int));
                        }
                        assert(le(x as int, a@[q] as int));
                        if le(a@[q] as int, x as int) {
                            assert(le(a@[i as int] as int, a@[q] as int) || i == q);
                            assert(le(a@[i as int] as int, x as int));
                        }
                    }
                }
                merged_more(before, a@, b@, i as int, j as int, false);
            }
            j = j + 1;
        }
    }
    proof {
        assert(a@.take(i as int) =~= a@);
        assert(b@.take(j as int) =~= b@);
    }
    r
}

/// One more element of the merged runs.
proof fn merged_more(r: Seq<usize>, a: Seq<usize>, b: Seq<usize>, i: int, j: int, from_a: bool)
    requires
        0 <= i <= a.len(),
        0 <= j <= b.len(),
        from_a ==> i < a.len(),
        !from_a ==> j < b.len(),
        forall|x: usize| #[trigger]
            r.contains(x) <==> a.take(i).contains(x) || b.take(j).contains(x),
    ensures
        from_a ==> forall|x: usize| #[trigger]
            r.push(a[i]).contains(x) <==> a.take(i + 1).contains(x) || b.take(j).contains(x),
        !from_a ==> forall|x: usize| #[trigger]
            r.push(b[j]).contains(x) <==> a.take(i).contains(x) || b.take(j + 1).contains(x),
{
    if from_a {
        taken_more(a, i);
    } else {
        taken_more(b, j);
    }
    let y = if from_a {
        a[i]
    } else {
        b[j]
    };
    assert forall|x: usize| #[trigger] r.push(y).contains(x) <==> r.contains(x) || x == y by {
        if r.contains(x) {
            let k = choose|k: int| 0 <= k < r.len() && r[k] == x;
            assert(r.push(y)[k] == x);
        }
        assert(r.push(y)[r.len() as int] == y);
    }
}

/// What a longer prefix holds.
pub proof fn taken_more(a: Seq<usize>, i: int)
    requires
        0 <= i < a.len(),
    ensures
        forall|x: usize| #[trigger]
            a.take(i + 1).contains(x) <==> a.take(i).contains(x) || x == a[i],
{
    assert forall|x: usize| #[trigger] a.take(i + 1).contains(x) <==> a.take(i).contains(x) || x
        == a[i] by {
        let longer = a.take(i + 1);
        if longer.contains(x) {
            let k = choose|k: int| 0 <= k < longer.len() && longer[k] == x;
            if k < i {
                assert(a.take(i)[k] == x);
            }
        }
        if a.take(i).contains(x) {
            let k = choose|k: int| 0 <= k < i && a.take(i)[k] == x;
            assert(a.take(i + 1)[k] == x);
        }
        assert(a.take(i + 1)[i] == a[i]);
    }
}

fn sort_range<F: Fn(usize, usize) -> bool>(
    f: &F,
    n: usize,
    low: usize,
    high: usize,
    Ghost(le): Ghost<spec_fn(int, int) -> bool>,
) -> (r: Vec<usize>)
    requires
        low <= high <= n,
        is_order(le, n as int),
        answers(*f, le, n as int),
    ensures
        spans(r@, low as int, high as int),
        in_order(le, r@),
    decreases high - low,
{
    let mut r: Vec<usize> = Vec::new();
    if low == high {
        return r;
    }
    if high - low == 1 {
        r.push(low);
        assert(r@[0] == low);
        return r;
    }
    let mid: usize = low + (high - low) / 2;
    let a = sort_range(f, n, low, mid, Ghost(le));
    let b = sort_range(f, n, mid, high, Ghost(le));
    merge(&a, &b, f, n, low, mid, high, Ghost(le))
}

/// The positions `0..n` in the order that `f` decides.
pub(crate) fn sorting<F: Fn(usize, usize) -> bool>(
    f: &F,
    n: usize,
    Ghost(le): Ghost<spec_fn(int, int) -> bool>,
) -> (r: Vec<usize>)
    requires
        is_order(le, n as int),
        answers(*f, le, n as int),
    ensures
        is_sorting(le, r@, n as int),
{
    sort_range(f, n, 0, n, Ghost(le))
}

/// There is only one way to sort: two sortings of the same positions are equal.
pub proof fn law_sorting_unique(
    le: spec_fn(int, int) -> bool,
    a: Seq<usize>,
    b: Seq<usize>,
    n: int,
)
    requires
        is_order(le, n),
        is_sorting(le, a, n),
        is_sorting(le, b, n),
    ensures
        a == b,
{
    sortings_agree(le, a, b, n, n as nat);
    assert(a =~= b);
}

/// Two sortings agree on every prefix.
proof fn sortings_agree(
    le: spec_fn(int, int) -> bool,
    a: Seq<usize>,
    b: Seq<usize>,
    n: int,
    k: nat,
)
    requires
        is_order(le, n),
        is_sorting(le, a, n),
        is_sorting(le, b, n),
        k <= n,
    ensures
        forall|i: int| 0 <= i < k ==> a[i] == b[i],
    decreases k,
{
    if k > 0 {
        sortings_agree(le, a, b, n, (k - 1) as nat);
        let t = k - 1;
        let x = a[t];
        let y = b[t];
        assert(a.contains(x));
        assert(b.contains(y));
        assert(b.contains(x));
        assert(a.contains(y));
        if x != y {
            let p = choose|p: int| 0 <= p < b.len() && b[p] == x;
            let q = choose|q: int| 0 <= q < a.len() && a[q] == y;
            if p < t {
                assert(a[p] == x);
                assert(comes_before(le, a[p] as int, a[t] as int));
            }
            if q < t {
                assert(b[q] == y);
                assert(comes_before(le, b[q] as int, b[t] as int));
            }
            assert(comes_before(le, b[t] as int, b[p] as int));
            assert(comes_before(le, a[t] as int, a[q] as int));
        }
    }
}

/// Another position that the order does not tell apart from this one.
pub open spec fn has_twin(le: spec_fn(int, int) -> bool, n: int, i: int) -> bool {
    exists|j: int| 0 <= j < n && j != i && #[trigger] le(i, j) && le(j, i)
}

/// For every position whether there is another one that the order does not tell apart
/// from it.
pub(crate) fn twins<F: Fn(usize, usize) -> bool>(
    f: &F,
    n: usize,
    Ghost(le): Ghost<spec_fn(int, int) -> bool>,
) -> (r: Vec<bool>)
    requires
        is_order(le, n as int),
        answers(*f, le, n as int),
    ensures
        r@.len() == n,
        forall|i: int| 0 <= i < n ==> #[trigger] r@[i] == has_twin(le, n as int, i),
{
    let perm = sorting(f, n, Ghost(le));
    let mut r: Vec<bool> = Vec::new();
    let mut c: usize = 0;
    while c < n
        invariant
            c <= n,
            r@.len() == c,
            forall|i: int| 0 <= i < c ==> #[trigger] r@[i] == false,
        decreases n - c,
    {
        r.push(false);
        c = c + 1;
    }
    let mut p: usize = 0;
    assert forall|q: int| 0 <= q < n implies !(#[trigger] r@[perm@[q] as int]) by {
        assert(perm@.contains(perm@[q]));
    }
    while p + 1 < n
        invariant
            n == 0 ==> p == 0,
            n > 0 ==> p < n,
            r@.len() == n,
            is_order(le, n as int),
            answers(*f, le, n as int),
            is_sorting(le, perm@, n as int),
            forall|q: int|
                0 <= q < n ==> #[trigger] r@[perm@[q] as int] == ((q > 0 && q <= p && le(
                    perm@[q] as int,
                    perm@[q - 1] as int,
                )) || (q < p && le(perm@[q + 1] as int, perm@[q] as int))),
        decreases n - p,
    {
        let a: usize = perm[p];
        let b: usize = perm[p + 1];
        assert(perm@.contains(a));
        assert(perm@.contains(b));
        let ghost before = r@;
        if f(b, a) {
            r.set(a, true);
            r.set(b, true);
        }
        proof {
            assert forall|q: int| 0 <= q < n implies #[trigger] r@[perm@[q] as int] == ((q > 0 && q
                <= p + 1 && le(perm@[q] as int, perm@[q - 1] as int)) || (q < p + 1 && le(
                perm@[q + 1] as int,
                perm@[q] as int,
            ))) by {
                assert(perm@.contains(perm@[q]));
                assert(before[perm@[q] as int] == ((q > 0 && q <= p && le(
                    perm@[q] as int,
                    perm@[q - 1] as int,
                )) || (q < p && le(perm@[q + 1] as int, perm@[q] as int))));
                if q != p {
                    places_differ(le, perm@, p as int, q);
                }
                if q != p + 1 {
                    places_differ(le, perm@, p + 1, q);
                }
            }
        }
        p = p + 1;
    }
    proof {
        assert forall|i: int| 0 <= i < n implies #[trigger] r@[i] == has_twin(le, n as int, i) by {
            assert(perm@.contains(i as usize));
            let q = choose|q: int| 0 <= q < perm@.len() && perm@[q] == i as usize;
            assert(r@[perm@[q] as int] == r@[i]);
            neighbours_tell(le, perm@, n as int, q);
        }
    }
    r
}

/// Two places of a sorting hold different positions.
proof fn places_differ(le: spec_fn(int, int) -> bool, s: Seq<usize>, p: int, q: int)
    requires
        in_order(le, s),
        0 <= p < s.len(),
        0 <= q < s.len(),
        p != q,
    ensures
        s[p] != s[q],
{
    if p < q {
        assert(comes_before(le, s[p] as int, s[q] as int));
    } else {
        assert(comes_before(le, s[q] as int, s[p] as int));
    }
}

/// A position has a twin exactly if one stands right beside it.
proof fn neighbours_tell(le: spec_fn(int, int) -> bool, s: Seq<usize>, n: int, q: int)
    requires
        is_order(le, n),
        is_sorting(le, s, n),
        0 <= q < n <= usize::MAX,
    ensures
        has_twin(le, n, s[q] as int) == ((q > 0 && le(s[q] as int, s[q - 1] as int)) || (q + 1 < n
            && le(s[q + 1] as int, s[q] as int))),
{
    let i = s[q] as int;
    assert(s.contains(s[q]));
    if q > 0 && le(i, s[q - 1] as int) {
        assert(comes_before(le, s[q - 1] as int, s[q] as int));
        assert(s.contains(s[q - 1]));
        places_differ(le, s, q, q - 1);
    }
    if q + 1 < n && le(s[q + 1] as int, i) {
        assert(comes_before(le, s[q] as int, s[q + 1] as int));
        assert(s.contains(s[q + 1]));
        places_differ(le, s, q, q + 1);
        assert(le(i, s[q + 1] as int));
    }
    if has_twin(le, n, i) {
        let j = choose|j: int| 0 <= j < n && j != i && #[trigger] le(i, j) && le(j, i);
        assert(s.contains(j as usize));
        let t = choose|t: int| 0 <= t < s.len() && s[t] == j as usize;
        if t > q {
            assert(s.contains(s[q + 1]));
            if t > q + 1 {
                assert(comes_before(le, s[q + 1] as int, s[t] as int));
                assert(le(s[q + 1] as int, j));
            }
            assert(le(s[q + 1] as int, i));
        } else {
            assert(s.contains(s[q - 1]));
            if t < q - 1 {
                assert(comes_before(le, s[t] as int, s[q - 1] as int));
                assert(le(j, s[q - 1] as int));
            }
            assert(le(i, s[q - 1] as int));
        }
    }
}

/// Two lists with the same elements, both strictly in the same order, are equal.
pub proof fn strict_lists_agree<T>(less: spec_fn(T, T) -> bool, a: Seq<T>, b: Seq<T>)
    requires
        forall|x: T| #[trigger] a.contains(x) <==> b.contains(x),
        forall|p: int, q: int|
            #![trigger a[p], a[q]]
            0 <= p < q < a.len() ==> less(a[p], a[q]) && !less(a[q], a[p]),
        forall|p: int, q: int|
            #![trigger b[p], b[q]]
            0 <= p < q < b.len() ==> less(b[p], b[q]) && !less(b[q], b[p]),
    ensures
        a == b,
    decreases a.len(),
{
    if a.len() == 0 {
        if b.len() > 0 {
            assert(a.contains(b[0]));
        }
        assert(a =~= b);
    } else {
        let m = a.len() - 1;
        assert(a.contains(a[m]));
        let j = choose|j: int| 0 <= j < b.len() && b[j] == a[m];
        let n = b.len() - 1;
        assert(b.contains(b[n]) && a.contains(b[n]));
        let i = choose|i: int| 0 <= i < a.len() && a[i] == b[n];
        assert(a[m] == b[n]) by {
            if i < m && j < n {
                assert(less(b[j], b[n]) && !less(a[m], a[i]));
            }
        }
        let c = a.drop_last();
        let d = b.drop_last();
        assert forall|x: T| #[trigger] c.contains(x) <==> d.contains(x) by {
            if c.contains(x) {
                let k = choose|k: int| 0 <= k < c.len() && c[k] == x;
                assert(a[k] == x && less(a[k], a[m]) && !less(a[m], a[k]));
                assert(a.contains(x));
                let l = choose|l: int| 0 <= l < b.len() && b[l] == x;
                assert(d[l] == x);
            }
            if d.contains(x) {
                let k = choose|k: int| 0 <= k < d.len() && d[k] == x;
                assert(b[k] == x && less(b[k], b[n]) && !less(b[n], b[k]));
                assert(b.contains(x) && a.contains(x));
                let l = choose|l: int| 0 <= l < a.len() && a[l] == x;
                assert(c[l] == x);
            }
        }
        strict_lists_agree(less, c, d);
        assert(a =~= c.push(a[m]));
        assert(b =~= d.push(b[n]));
    }
}

} // verus!
