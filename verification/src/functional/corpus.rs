//! The files of one category, in a fixed order, with their features.

use crate::fsutil;
use crate::functional::features;
use crate::functional::features::{Interner, RawPart};
use crate::order;
use crate::text;
use vstd::prelude::*;

verus! {

/// A file to be classified.
#[derive(Debug)]
pub struct FuncFile {
    pub id: i64,
    /// The path below the root; decides the order only.
    pub rel: String,
    /// The name with its extension.
    pub name: String,
    /// The name of the directory that the file is in; empty below the root.
    pub parent: String,
}

/// Files are ordered by their paths.
pub open spec fn rel_order(files: Seq<FuncFile>) -> spec_fn(int, int) -> bool {
    |i: int, j: int| text::at_most(files[i].rel@, files[j].rel@)
}

/// The order by path compares any two files.
pub proof fn rel_order_total(files: Seq<FuncFile>)
    ensures
        order::is_order(rel_order(files), files.len() as int),
{
    let le = rel_order(files);
    let n = files.len() as int;
    assert forall|i: int, j: int| 0 <= i < n && 0 <= j < n implies #[trigger] le(i, j) || le(
        j,
        i,
    ) by {
        text::at_most_total(files[i].rel@, files[j].rel@);
    }
    assert forall|i: int, j: int, k: int|
        0 <= i < n && 0 <= j < n && 0 <= k < n && #[trigger] le(i, j) && #[trigger] le(
            j,
            k,
        ) implies le(i, k) by {
        text::at_most_chain(files[i].rel@, files[j].rel@, files[k].rel@);
    }
}

/// The positions of the files in the order of their paths.
pub fn ordered(files: &Vec<FuncFile>) -> (r: Vec<usize>)
    ensures
        order::is_sorting(rel_order(files@), r@, files@.len() as int),
{
    proof {
        rel_order_total(files@);
    }
    let ghost le = rel_order(files@);
    let f = |i: usize, j: usize| -> (b: bool)
        requires
            i < files@.len(),
            j < files@.len(),
        ensures
            b == text::at_most(files@[i as int].rel@, files@[j as int].rel@),
        { text::not_after(files[i].rel.as_str(), files[j].rel.as_str()) };
    order::sorting(&f, files.len(), Ghost(le))
}

/// Files with different paths are put in the same order whichever order they
/// were given in.
pub proof fn law_order_of_input_is_forgotten(
    a: Seq<FuncFile>,
    b: Seq<FuncFile>,
    p: Seq<usize>,
    q: Seq<usize>,
)
    requires
        a.len() == b.len() <= usize::MAX,
        forall|f: FuncFile| #[trigger] a.contains(f) ==> b.contains(f),
        forall|i: int, j: int| 0 <= i < j < a.len() ==> a[i].rel@ != a[j].rel@,
        forall|i: int, j: int| 0 <= i < j < b.len() ==> b[i].rel@ != b[j].rel@,
        order::is_sorting(rel_order(a), p, a.len() as int),
        order::is_sorting(rel_order(b), q, b.len() as int),
    ensures
        forall|k: int| 0 <= k < a.len() ==> a[#[trigger] p[k] as int] == b[q[k] as int],
{
    same_prefix(a, b, p, q, a.len());
}

/// A path occurs in one list of files only if it occurs in the other, too.
proof fn same_files(a: Seq<FuncFile>, b: Seq<FuncFile>, f: FuncFile)
    requires
        a.len() == b.len(),
        forall|f: FuncFile| #[trigger] a.contains(f) ==> b.contains(f),
        forall|i: int, j: int| 0 <= i < j < a.len() ==> a[i].rel@ != a[j].rel@,
        b.contains(f),
    ensures
        a.contains(f),
{
    assert(a.no_duplicates()) by {
        assert forall|i: int, j: int| 0 <= i < a.len() && 0 <= j < a.len() && i != j implies a[i]
            != a[j] by {
            if i < j {
                assert(a[i].rel@ != a[j].rel@);
            } else {
                assert(a[j].rel@ != a[i].rel@);
            }
        }
    }
    a.unique_seq_to_set();
    vstd::seq_lib::seq_to_set_is_finite(b);
    b.lemma_cardinality_of_set();
    assert(a.to_set().subset_of(b.to_set()));
    vstd::set_lib::lemma_len_subset(a.to_set(), b.to_set());
    vstd::set_lib::lemma_set_subset_finite(b.to_set(), a.to_set());
    if !a.to_set().contains(f) {
        assert(a.to_set().subset_of(b.to_set().remove(f)));
        vstd::set_lib::lemma_len_subset(a.to_set(), b.to_set().remove(f));
    }
}

proof fn same_prefix(
    a: Seq<FuncFile>,
    b: Seq<FuncFile>,
    p: Seq<usize>,
    q: Seq<usize>,
    k: nat,
)
    requires
        a.len() == b.len() <= usize::MAX,
        forall|f: FuncFile| #[trigger] a.contains(f) ==> b.contains(f),
        forall|i: int, j: int| 0 <= i < j < a.len() ==> a[i].rel@ != a[j].rel@,
        forall|i: int, j: int| 0 <= i < j < b.len() ==> b[i].rel@ != b[j].rel@,
        order::is_sorting(rel_order(a), p, a.len() as int),
        order::is_sorting(rel_order(b), q, b.len() as int),
        k <= a.len(),
    ensures
        forall|t: int| 0 <= t < k ==> a[#[trigger] p[t] as int] == b[q[t] as int],
    decreases k,
{
    if k > 0 {
        same_prefix(a, b, p, q, (k - 1) as nat);
        let t = k - 1;
        assert(p.contains(p[t]));
        assert(q.contains(q[t]));
        let x = a[p[t] as int];
        let y = b[q[t] as int];
        assert(a.contains(x));
        assert(b.contains(x));
        assert(b.contains(y));
        same_files(a, b, y);
        if x != y {
            let i = choose|i: int| 0 <= i < b.len() && b[i] == x;
            assert(q.contains(i as usize));
            let u = choose|u: int| 0 <= u < q.len() && q[u] == i;
            let j = choose|j: int| 0 <= j < a.len() && a[j] == y;
            assert(p.contains(j as usize));
            let w = choose|w: int| 0 <= w < p.len() && p[w] == j;
            if u < t {
                assert(a[p[u] as int] == b[q[u] as int]);
                assert(p[u] != p[t]) by {
                    assert(order::comes_before(rel_order(a), p[u] as int, p[t] as int));
                }
                assert(p.contains(p[u]));
                assert(a[p[u] as int].rel@ != a[p[t] as int].rel@);
                assert(false);
            }
            if w < t {
                assert(a[p[w] as int] == b[q[w] as int]);
                assert(q[w] != q[t]) by {
                    assert(order::comes_before(rel_order(b), q[w] as int, q[t] as int));
                }
                assert(q.contains(q[w]));
                assert(b[q[w] as int].rel@ != b[q[t] as int].rel@);
                assert(false);
            }
            assert(u != t);
            assert(w != t);
            assert(order::comes_before(rel_order(b), q[t] as int, q[u] as int));
            assert(order::comes_before(rel_order(a), p[t] as int, p[w] as int));
            assert(text::at_most(y.rel@, x.rel@));
            assert(text::at_most(x.rel@, y.rel@));
            text::at_most_total(x.rel@, y.rel@);
            if p[t] < p[w] {
                assert(a[p[t] as int].rel@ != a[p[w] as int].rel@);
            } else {
                assert(a[p[w] as int].rel@ != a[p[t] as int].rel@);
            }
        }
    }
}

/// The features of one file.
pub struct Features {
    pub name: RawPart,
    pub parent: RawPart,
}

/// The name that a file is classified by: without its extension.
pub open spec fn stem_of(file: FuncFile) -> Seq<char> {
    file.name@.take(fsutil::extension_start(file.name@))
}

/// What one file enters: first its name, then its directory.
pub open spec fn file_entries(file: FuncFile) -> Seq<Seq<char>> {
    features::all_entries(features::pieces_in(stem_of(file))) + features::all_entries(
        features::pieces_in(file.parent@),
    )
}

/// What the first `k` files of an order enter.
pub open spec fn corpus_entries(files: Seq<FuncFile>, perm: Seq<usize>, k: int) -> Seq<Seq<char>>
    decreases k,
{
    if k <= 0 {
        Seq::empty()
    } else {
        corpus_entries(files, perm, k - 1) + file_entries(files[perm[k - 1] as int])
    }
}

/// The features are those of a file.
pub open spec fn features_of(f: Features, file: FuncFile, names: Seq<Seq<char>>) -> bool {
    &&& features::describes(f.name, features::pieces_in(stem_of(file)), names)
    &&& features::describes(f.parent, features::pieces_in(file.parent@), names)
}

/// The features of all files, in the given order.
pub fn all_features(files: &Vec<FuncFile>, perm: &Vec<usize>) -> (r: (Interner, Vec<Features>))
    requires
        forall|k: int| 0 <= k < perm@.len() ==> #[trigger] perm@[k] < files@.len(),
    ensures
        r.0.valid(),
        r.0@ == features::entered_all(
            Seq::empty(),
            corpus_entries(files@, perm@, perm@.len() as int),
        ),
        r.1@.len() == perm@.len(),
        forall|k: int|
            0 <= k < perm@.len() ==> features_of(
                #[trigger] r.1@[k],
                files@[perm@[k] as int],
                r.0@,
            ),
{
    let mut interner = Interner::new();
    let mut out: Vec<Features> = Vec::new();
    let mut i: usize = 0;
    while i < perm.len()
        invariant
            i <= perm@.len(),
            forall|k: int| 0 <= k < perm@.len() ==> #[trigger] perm@[k] < files@.len(),
            interner.valid(),
            interner@ == features::entered_all(
                Seq::empty(),
                corpus_entries(files@, perm@, i as int),
            ),
            out@.len() == i,
            forall|k: int|
                0 <= k < i ==> features_of(
                    #[trigger] out@[k],
                    files@[perm@[k] as int],
                    interner@,
                ),
        decreases perm.len() - i,
    {
        let file = &files[perm[i]];
        let parts = fsutil::split_compound_name(file.name.as_str());
        let ghost n0 = interner@;
        let name = features::extract_part(parts.0, &mut interner);
        let ghost n1 = interner@;
        let parent = features::extract_part(file.parent.as_str(), &mut interner);
        let ghost n2 = interner@;
        let ghost before = out@;
        let ghost a = features::all_entries(features::pieces_in(stem_of(*file)));
        let ghost b = features::all_entries(features::pieces_in(file.parent@));
        out.push(Features { name, parent });
        proof {
            interner.valid_distinct();
            features::entered_extends(n0, a);
            features::entered_extends(n1, b);
            features::describes_stays(name, features::pieces_in(stem_of(*file)), n1, n2);
            features::entered_append(n0, a, b);
            features::entered_append(
                Seq::empty(),
                corpus_entries(files@, perm@, i as int),
                a + b,
            );
            assert forall|k: int| 0 <= k < i + 1 implies features_of(
                #[trigger] out@[k],
                files@[perm@[k] as int],
                interner@,
            ) by {
                if k < i {
                    let f = before[k];
                    assert(out@[k] == f);
                    assert(features::extends(n2, n0));
                    let file_k = files@[perm@[k] as int];
                    features::describes_stays(
                        f.name,
                        features::pieces_in(stem_of(file_k)),
                        n0,
                        n2,
                    );
                    features::describes_stays(f.parent, features::pieces_in(file_k.parent@), n0, n2);
                }
            }
        }
        i = i + 1;
    }
    (interner, out)
}

/// Every file enters what its name and its directory hold, in the order of the files, and
/// nothing is entered without a file.
pub proof fn law_files_enter_in_order(files: Seq<FuncFile>, perm: Seq<usize>, k: int)
    requires
        0 <= k < perm.len(),
    ensures
        corpus_entries(files, perm, 0) == Seq::<Seq<char>>::empty(),
        corpus_entries(files, perm, k + 1) == corpus_entries(files, perm, k) + (
        features::all_entries(
            features::pieces_in(
                files[perm[k] as int].name@.take(
                    fsutil::extension_start(files[perm[k] as int].name@),
                ),
            ),
        ) + features::all_entries(features::pieces_in(files[perm[k] as int].parent@))),
{
}

} // verus!
