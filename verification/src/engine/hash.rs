//! Which files are hashed, which hashes are taken from an earlier run, and what is
//! recorded of them.

use crate::hash_cache;
use crate::model::Summary;
use crate::order;
use crate::text;
use vstd::prelude::*;

verus! {

/// A file as the choice of candidates sees it.
#[derive(Debug)]
pub struct HashRow {
    pub size: u64,
    /// The name in lower case.
    pub name: String,
    /// The name without the marks of a copy.
    pub normal: String,
}

/// Two files may turn out to be duplicates: their sizes are equal and, unless all
/// names are compared, so are their names or their plain names.
pub open spec fn may_match(a: HashRow, b: HashRow, other_names: bool) -> bool {
    a.size == b.size && (other_names || a.name@ == b.name@ || a.normal@ == b.normal@)
}

/// A file has to be hashed: there is another one that it may be a duplicate of.
pub open spec fn is_candidate(rows: Seq<HashRow>, other_names: bool, i: int) -> bool {
    exists|j: int| 0 <= j < rows.len() && j != i && may_match(rows[i], #[trigger] rows[j], other_names)
}

/// By size.
spec fn size_order(rows: Seq<HashRow>) -> spec_fn(int, int) -> bool {
    |i: int, j: int| rows[i].size <= rows[j].size
}

/// By size, then by name.
spec fn name_order(rows: Seq<HashRow>) -> spec_fn(int, int) -> bool {
    |i: int, j: int|
        rows[i].size < rows[j].size || (rows[i].size == rows[j].size && text::at_most(
            rows[i].name@,
            rows[j].name@,
        ))
}

/// By size, then by plain name.
spec fn normal_order(rows: Seq<HashRow>) -> spec_fn(int, int) -> bool {
    |i: int, j: int|
        rows[i].size < rows[j].size || (rows[i].size == rows[j].size && text::at_most(
            rows[i].normal@,
            rows[j].normal@,
        ))
}

fn same_size(rows: &Vec<HashRow>) -> (r: Vec<bool>)
    ensures
        r@.len() == rows@.len(),
        forall|i: int|
            0 <= i < rows@.len() ==> #[trigger] r@[i] == is_candidate(rows@, true, i),
{
    let ghost le = size_order(rows@);
    let f = |i: usize, j: usize| -> (b: bool)
        requires
            i < rows@.len(),
            j < rows@.len(),
        ensures
            b == (rows@[i as int].size <= rows@[j as int].size),
        { rows[i].size <= rows[j].size };
    let r = order::twins(&f, rows.len(), Ghost(le));
    assert forall|i: int| 0 <= i < rows@.len() implies #[trigger] r@[i] == is_candidate(
        rows@,
        true,
        i,
    ) by {
        if order::has_twin(le, rows@.len() as int, i) {
            let j = choose|j: int|
                0 <= j < rows@.len() && j != i && #[trigger] le(i, j) && le(j, i);
            assert(may_match(rows@[i], rows@[j], true));
        }
        if is_candidate(rows@, true, i) {
            let j = choose|j: int|
                0 <= j < rows@.len() && j != i && may_match(rows@[i], #[trigger] rows@[j], true);
            assert(le(i, j));
        }
    }
    r
}

fn same_name(rows: &Vec<HashRow>) -> (r: Vec<bool>)
    ensures
        r@.len() == rows@.len(),
        forall|i: int|
            0 <= i < rows@.len() ==> #[trigger] r@[i] == exists|j: int|
                0 <= j < rows@.len() && j != i && (#[trigger] rows@[j]).size == rows@[i].size
                    && rows@[j].name@ == rows@[i].name@,
{
    let ghost le = name_order(rows@);
    let ghost n = rows@.len() as int;
    proof {
        assert forall|i: int, j: int| 0 <= i < n && 0 <= j < n implies #[trigger] le(i, j) || le(
            j,
            i,
        ) by {
            text::at_most_total(rows@[i].name@, rows@[j].name@);
        }
        assert forall|i: int, j: int, k: int|
            0 <= i < n && 0 <= j < n && 0 <= k < n && #[trigger] le(i, j) && #[trigger] le(
                j,
                k,
            ) implies le(i, k) by {
            if rows@[i].size == rows@[j].size && rows@[j].size == rows@[k].size {
                text::at_most_chain(rows@[i].name@, rows@[j].name@, rows@[k].name@);
            }
        }
    }
    let f = |i: usize, j: usize| -> (b: bool)
        requires
            i < rows@.len(),
            j < rows@.len(),
        ensures
            b == (rows@[i as int].size < rows@[j as int].size || (rows@[i as int].size
                == rows@[j as int].size && text::at_most(
                rows@[i as int].name@,
                rows@[j as int].name@,
            ))),
        {
            rows[i].size < rows[j].size || (rows[i].size == rows[j].size && text::not_after(
                rows[i].name.as_str(),
                rows[j].name.as_str(),
            ))
        };
    let r = order::twins(&f, rows.len(), Ghost(le));
    assert forall|i: int| 0 <= i < rows@.len() implies #[trigger] r@[i] == exists|j: int|
        0 <= j < rows@.len() && j != i && (#[trigger] rows@[j]).size == rows@[i].size
            && rows@[j].name@ == rows@[i].name@ by {
        if order::has_twin(le, n, i) {
            let j = choose|j: int| 0 <= j < n && j != i && #[trigger] le(i, j) && le(j, i);
            text::at_most_total(rows@[i].name@, rows@[j].name@);
            assert(rows@[j].size == rows@[i].size && rows@[j].name@ == rows@[i].name@);
        }
        if exists|j: int|
            0 <= j < rows@.len() && j != i && (#[trigger] rows@[j]).size == rows@[i].size
                && rows@[j].name@ == rows@[i].name@ {
            let j = choose|j: int|
                0 <= j < rows@.len() && j != i && (#[trigger] rows@[j]).size == rows@[i].size
                    && rows@[j].name@ == rows@[i].name@;
            text::at_most_total(rows@[i].name@, rows@[j].name@);
            assert(le(i, j));
        }
    }
    r
}

fn same_normal(rows: &Vec<HashRow>) -> (r: Vec<bool>)
    ensures
        r@.len() == rows@.len(),
        forall|i: int|
            0 <= i < rows@.len() ==> #[trigger] r@[i] == exists|j: int|
                0 <= j < rows@.len() && j != i && (#[trigger] rows@[j]).size == rows@[i].size
                    && rows@[j].normal@ == rows@[i].normal@,
{
    let ghost le = normal_order(rows@);
    let ghost n = rows@.len() as int;
    proof {
        assert forall|i: int, j: int| 0 <= i < n && 0 <= j < n implies #[trigger] le(i, j) || le(
            j,
            i,
        ) by {
            text::at_most_total(rows@[i].normal@, rows@[j].normal@);
        }
        assert forall|i: int, j: int, k: int|
            0 <= i < n && 0 <= j < n && 0 <= k < n && #[trigger] le(i, j) && #[trigger] le(
                j,
                k,
            ) implies le(i, k) by {
            if rows@[i].size == rows@[j].size && rows@[j].size == rows@[k].size {
                text::at_most_chain(rows@[i].normal@, rows@[j].normal@, rows@[k].normal@);
            }
        }
    }
    let f = |i: usize, j: usize| -> (b: bool)
        requires
            i < rows@.len(),
            j < rows@.len(),
        ensures
            b == (rows@[i as int].size < rows@[j as int].size || (rows@[i as int].size
                == rows@[j as int].size && text::at_most(
                rows@[i as int].normal@,
                rows@[j as int].normal@,
            ))),
        {
            rows[i].size < rows[j].size || (rows[i].size == rows[j].size && text::not_after(
                rows[i].normal.as_str(),
                rows[j].normal.as_str(),
            ))
        };
    let r = order::twins(&f, rows.len(), Ghost(le));
    assert forall|i: int| 0 <= i < rows@.len() implies #[trigger] r@[i] == exists|j: int|
        0 <= j < rows@.len() && j != i && (#[trigger] rows@[j]).size == rows@[i].size
            && rows@[j].normal@ == rows@[i].normal@ by {
        if order::has_twin(le, n, i) {
            let j = choose|j: int| 0 <= j < n && j != i && #[trigger] le(i, j) && le(j, i);
            text::at_most_total(rows@[i].normal@, rows@[j].normal@);
            assert(rows@[j].size == rows@[i].size && rows@[j].normal@ == rows@[i].normal@);
        }
        if exists|j: int|
            0 <= j < rows@.len() && j != i && (#[trigger] rows@[j]).size == rows@[i].size
                && rows@[j].normal@ == rows@[i].normal@ {
            let j = choose|j: int|
                0 <= j < rows@.len() && j != i && (#[trigger] rows@[j]).size == rows@[i].size
                    && rows@[j].normal@ == rows@[i].normal@;
            text::at_most_total(rows@[i].normal@, rows@[j].normal@);
            assert(le(i, j));
        }
    }
    r
}

/// Place by place, whether one of two lists says so.
fn either(a: Vec<bool>, b: &Vec<bool>) -> (r: Vec<bool>)
    requires
        a@.len() == b@.len(),
    ensures
        r@.len() == a@.len(),
        forall|k: int| 0 <= k < a@.len() ==> #[trigger] r@[k] == (a@[k] || b@[k]),
{
    let mut r: Vec<bool> = Vec::new();
    let mut i: usize = 0;
    while i < a.len()
        invariant
            i <= a@.len(),
            a@.len() == b@.len(),
            r@.len() == i,
            forall|k: int| 0 <= k < i ==> #[trigger] r@[k] == (a@[k] || b@[k]),
        decreases a.len() - i,
    {
        r.push(a[i] || b[i]);
        i = i + 1;
    }
    r
}

/// Which files have to be hashed. With no way of finding duplicates switched on, none.
pub fn hash_candidates(
    rows: &Vec<HashRow>,
    dedup_same_name: bool,
    dedup_copy_names: bool,
    dedup_other_names: bool,
) -> (r: Vec<usize>)
    ensures
        forall|i: usize| #[trigger]
            r@.contains(i) <==> i < rows@.len() && (dedup_same_name || dedup_copy_names
                || dedup_other_names) && is_candidate(rows@, dedup_other_names, i as int),
        forall|i: usize, j: usize|
            #![trigger rows@[i as int], rows@[j as int]]
            i < rows@.len() && j < rows@.len() && i != j && rows@[i as int].size
                == rows@[j as int].size && (dedup_same_name || dedup_copy_names
                || dedup_other_names) && (dedup_other_names || rows@[i as int].name@
                == rows@[j as int].name@ || rows@[i as int].normal@ == rows@[j as int].normal@)
                ==> r@.contains(i) && r@.contains(j),
        forall|p: int, q: int| 0 <= p < q < r@.len() ==> r@[p] < r@[q],
{
    let mut out: Vec<usize> = Vec::new();
    if !dedup_same_name && !dedup_copy_names && !dedup_other_names {
        return out;
    }
    let wanted = if dedup_other_names {
        same_size(rows)
    } else {
        either(same_name(rows), &same_normal(rows))
    };
    let mut i: usize = 0;
    while i < rows.len()
        invariant
            i <= rows@.len(),
            wanted@.len() == rows@.len(),
            forall|k: int|
                0 <= k < rows@.len() ==> #[trigger] wanted@[k] == is_candidate(
                    rows@,
                    dedup_other_names,
                    k,
                ),
            forall|x: usize| #[trigger]
                out@.contains(x) <==> x < i && is_candidate(rows@, dedup_other_names, x as int),
            forall|p: int, q: int| 0 <= p < q < out@.len() ==> out@[p] < out@[q],
        decreases rows.len() - i,
    {
        if wanted[i] {
            let ghost before = out@;
            out.push(i);
            proof {
                assert forall|x: usize| #[trigger] out@.contains(x) <==> x < i + 1 && is_candidate(
                    rows@,
                    dedup_other_names,
                    x as int,
                ) by {
                    if out@.contains(x) {
                        let k = choose|k: int| 0 <= k < out@.len() && out@[k] == x;
                        if k < before.len() {
                            assert(before[k] == x);
                            assert(before.contains(x));
                        }
                    }
                    if before.contains(x) {
                        let k = choose|k: int| 0 <= k < before.len() && before[k] == x;
                        assert(out@[k] == x);
                    }
                    assert(out@[before.len() as int] == i);
                }
                assert forall|p: int, q: int| 0 <= p < q < out@.len() implies out@[p] < out@[q] by {
                    if q == before.len() {
                        assert(before.contains(before[p]));
                    }
                }
            }
        }
        i = i + 1;
    }
    out
}

/// Nothing is missed: files of equal content have equal sizes, so of two files that the
/// switches would compare both are hashed.
pub proof fn law_duplicates_are_hashed(rows: Seq<HashRow>, other_names: bool, i: int, j: int)
    requires
        0 <= i < rows.len(),
        0 <= j < rows.len(),
        i != j,
        may_match(rows[i], rows[j], other_names),
    ensures
        is_candidate(rows, other_names, i),
        is_candidate(rows, other_names, j),
{
    assert(may_match(rows[j], rows[i], other_names));
}

/// Two files of one size are both hashed where their names are equal, where their names
/// without the marks of a copy are equal, or where all names are compared.
pub proof fn law_equal_sizes_and_names_are_hashed(
    rows: Seq<HashRow>,
    other_names: bool,
    i: int,
    j: int,
)
    requires
        0 <= i < rows.len(),
        0 <= j < rows.len(),
        i != j,
        rows[i].size == rows[j].size,
        rows[i].name@ == rows[j].name@ || rows[i].normal@ == rows[j].normal@ || other_names,
    ensures
        is_candidate(rows, other_names, i),
        is_candidate(rows, other_names, j),
{
    assert(may_match(rows[i], rows[j], other_names));
    assert(may_match(rows[j], rows[i], other_names));
}

/// No file is hashed in vain: there is another one of its size and, unless all names are
/// compared, of its name or its plain name.
pub proof fn law_no_file_is_hashed_in_vain(rows: Seq<HashRow>, other_names: bool, i: int)
    requires
        is_candidate(rows, other_names, i),
    ensures
        exists|j: int|
            0 <= j < rows.len() && j != i && (#[trigger] rows[j]).size == rows[i].size && (
            other_names || rows[j].name@ == rows[i].name@ || rows[j].normal@ == rows[i].normal@),
{
    let j = choose|j: int|
        0 <= j < rows.len() && j != i && may_match(rows[i], #[trigger] rows[j], other_names);
    assert(rows[j].size == rows[i].size);
}

/// Comparing all names only adds files, and so does a further file.
pub proof fn law_more_to_compare_hashes_more(rows: Seq<HashRow>, more: HashRow, i: int)
    requires
        0 <= i < rows.len(),
    ensures
        is_candidate(rows, false, i) ==> is_candidate(rows, true, i),
        forall|other: bool|
            #[trigger] is_candidate(rows, other, i) ==> is_candidate(rows.push(more), other, i),
{
    if is_candidate(rows, false, i) {
        let j = choose|j: int|
            0 <= j < rows.len() && j != i && may_match(rows[i], #[trigger] rows[j], false);
        assert(may_match(rows[i], rows[j], true));
    }
    assert forall|other: bool| #[trigger] is_candidate(rows, other, i) implies is_candidate(
        rows.push(more),
        other,
        i,
    ) by {
        let j = choose|j: int|
            0 <= j < rows.len() && j != i && may_match(rows[i], #[trigger] rows[j], other);
        assert(may_match(rows.push(more)[i], rows.push(more)[j], other));
    }
}

/// A file of a page of candidates.
#[derive(Debug)]
pub struct HashFile {
    pub id: i64,
    pub size: u64,
    pub identity: String,
    pub modified_ns: i64,
}

/// What the store of earlier hashes answers.
#[derive(Debug)]
pub enum CacheAnswer {
    Hit(String),
    Miss,
    Failed,
}

/// A hash may be kept for the file: its size can be stored, and its identity tells it
/// apart.
pub open spec fn is_cacheable(f: HashFile) -> bool {
    f.size <= i64::MAX && !hash_cache::is_degenerate(f.identity@)
}

/// Whether a hash may be kept for a file.
pub fn cacheable(f: &HashFile) -> (r: bool)
    ensures
        r == is_cacheable(*f),
{
    f.size <= 0x7fff_ffff_ffff_ffff && !hash_cache::identity_is_degenerate(f.identity.as_str())
}

/// How a page of candidates is divided. Files are given by their positions.
#[derive(Debug)]
pub struct Division {
    /// Files whose hash is known, and the hash.
    pub reused: Vec<(usize, String)>,
    /// Files that are read, in order.
    pub compute: Vec<usize>,
    /// The store of earlier hashes can be used further.
    pub usable: bool,
}

/// The store answers for the file at `i` with a hash, and did not fail before.
pub open spec fn is_reused(
    files: Seq<HashFile>,
    usable: bool,
    answers: Seq<CacheAnswer>,
    i: int,
) -> bool {
    usable && is_cacheable(files[i]) && answers[i] is Hit && !fails_before(files, answers, i)
}

/// The store failed for one of the first `k` files that it was asked for.
pub open spec fn fails_before(files: Seq<HashFile>, answers: Seq<CacheAnswer>, k: int) -> bool {
    exists|j: int| 0 <= j < k && is_cacheable(files[j]) && #[trigger] answers[j] is Failed
}

/// The positions of the first `k` files that are read.
pub open spec fn computed(
    files: Seq<HashFile>,
    usable: bool,
    answers: Seq<CacheAnswer>,
    k: int,
) -> Seq<usize>
    decreases k,
{
    if k <= 0 {
        Seq::empty()
    } else if is_reused(files, usable, answers, k - 1) {
        computed(files, usable, answers, k - 1)
    } else {
        computed(files, usable, answers, k - 1).push((k - 1) as usize)
    }
}

/// The first `k` files whose hash is known.
pub open spec fn reused_texts(
    files: Seq<HashFile>,
    usable: bool,
    answers: Seq<CacheAnswer>,
    k: int,
) -> Seq<(usize, Seq<char>)>
    decreases k,
{
    if k <= 0 {
        Seq::empty()
    } else if is_reused(files, usable, answers, k - 1) {
        reused_texts(files, usable, answers, k - 1).push(((k - 1) as usize, answers[k - 1]->0@))
    } else {
        reused_texts(files, usable, answers, k - 1)
    }
}

/// Positions with their texts.
pub open spec fn pair_texts(v: Seq<(usize, String)>) -> Seq<(usize, Seq<char>)> {
    Seq::new(v.len(), |i: int| (v[i].0, v[i].1@))
}

/// Divides a page of candidates: hashes that the store knows are taken over; all other
/// files are read, and after a failure of the store all the rest. `answers` holds what
/// the store says of each file; of no meaning where it is not asked.
pub fn divide(files: &Vec<HashFile>, usable: bool, answers: &Vec<CacheAnswer>) -> (r: Division)
    requires
        answers@.len() == files@.len(),
    ensures
        pair_texts(r.reused@) == reused_texts(files@, usable, answers@, files@.len() as int),
        r.compute@ == computed(files@, usable, answers@, files@.len() as int),
        r.usable == (usable && !fails_before(files@, answers@, files@.len() as int)),
{
    let mut reused: Vec<(usize, String)> = Vec::new();
    let mut compute: Vec<usize> = Vec::new();
    let mut alive: bool = usable;
    let mut i: usize = 0;
    assert(pair_texts(reused@) =~= Seq::<(usize, Seq<char>)>::empty());
    while i < files.len()
        invariant
            i <= files@.len(),
            answers@.len() == files@.len(),
            alive == (usable && !fails_before(files@, answers@, i as int)),
            pair_texts(reused@) == reused_texts(files@, usable, answers@, i as int),
            compute@ == computed(files@, usable, answers@, i as int),
        decreases files.len() - i,
    {
        let asked: bool = cacheable(&files[i]);
        let ghost before = reused@;
        if alive && asked {
            match &answers[i] {
                CacheAnswer::Hit(hash) => {
                    let copy = hash.as_str().to_owned();
                    reused.push((i, copy));
                    assert(pair_texts(reused@) =~= pair_texts(before).push((i, copy@)));
                },
                CacheAnswer::Miss => {
                    compute.push(i);
                },
                CacheAnswer::Failed => {
                    compute.push(i);
                    alive = false;
                },
            }
        } else {
            compute.push(i);
        }
        proof {
            if fails_before(files@, answers@, i as int) {
                let j = choose|j: int|
                    0 <= j < i && is_cacheable(files@[j]) && #[trigger] answers@[j] is Failed;
                assert(answers@[j] is Failed && j < i + 1);
            }
            if fails_before(files@, answers@, i + 1) && !fails_before(files@, answers@, i as int) {
                let j = choose|j: int|
                    0 <= j < i + 1 && is_cacheable(files@[j]) && #[trigger] answers@[j] is Failed;
                assert(j == i);
            }
            if asked && answers@[i as int] is Failed {
                assert(fails_before(files@, answers@, i + 1));
            }
        }
        i = i + 1;
    }
    Division { reused, compute, usable: alive }
}

/// What is recorded of a file that was read: its hash, or that it is passed over.
#[derive(Clone, Copy, Debug, PartialEq, Eq, Structural)]
pub enum HashRecord {
    Store,
    PassOver,
}

/// How many of the first `k` readings failed.
pub open spec fn failures(results: Seq<bool>, k: int) -> nat
    decreases k,
{
    if k <= 0 {
        0
    } else {
        failures(results, k - 1) + if results[k - 1] {
            0nat
        } else {
            1
        }
    }
}

/// Records the readings of a page. A cancelled task records nothing; otherwise every
/// failure counts as an error and its file is passed over.
pub fn settle_hashes(summary: &Summary, results: &Vec<bool>, cancelled: bool) -> (r: Option<
    (Summary, Vec<HashRecord>),
>)
    requires
        summary.errors + results@.len() <= u64::MAX,
    ensures
        (r is None) == cancelled,
        r matches Some((s, records)) ==> {
            &&& s == (Summary {
                errors: (summary.errors + failures(results@, results@.len() as int)) as u64,
                ..*summary
            })
            &&& records@.len() == results@.len()
            &&& forall|i: int|
                0 <= i < records@.len() ==> #[trigger] records@[i] == (if results@[i] {
                    HashRecord::Store
                } else {
                    HashRecord::PassOver
                })
        },
{
    if cancelled {
        return None;
    }
    let mut s = *summary;
    let mut records: Vec<HashRecord> = Vec::new();
    let mut i: usize = 0;
    while i < results.len()
        invariant
            i <= results@.len(),
            summary.errors + results@.len() <= u64::MAX,
            failures(results@, i as int) <= i,
            s == (Summary {
                errors: (summary.errors + failures(results@, i as int)) as u64,
                ..*summary
            }),
            records@.len() == i,
            forall|k: int|
                0 <= k < i ==> #[trigger] records@[k] == (if results@[k] {
                    HashRecord::Store
                } else {
                    HashRecord::PassOver
                }),
        decreases results.len() - i,
    {
        if results[i] {
            records.push(HashRecord::Store);
        } else {
            s.errors = s.errors + 1;
            records.push(HashRecord::PassOver);
        }
        i = i + 1;
    }
    Some((s, records))
}

/// The line of the log about hashes of an earlier run; none where there were none.
pub fn reuse_note(total: u64) -> (r: Option<String>)
    ensures
        (r is None) == (total == 0),
        r matches Some(s) ==> s@ == "复用上次运行的哈希 "@ + text::decimal(total as nat)
            + " 个（文件标识/大小/修改时间未变，未重读内容）"@,
{
    if total == 0 {
        return None;
    }
    let mut s = "复用上次运行的哈希 ".to_owned();
    s.append(text::number(total).as_str());
    s.append(" 个（文件标识/大小/修改时间未变，未重读内容）");
    Some(s)
}

/// Every file of a page is either read or has its hash from the store, never both; and a
/// hash is only taken over where the store was in use, had not failed, gave that very
/// hash for the file, and the file's size and identity can be trusted.
pub proof fn law_every_file_gets_its_hash(
    files: Seq<HashFile>,
    usable: bool,
    answers: Seq<CacheAnswer>,
    k: int,
    i: usize,
)
    requires
        0 <= k <= files.len(),
        files.len() == answers.len(),
        k <= usize::MAX,
        i < k,
    ensures
        ({
            let read = computed(files, usable, answers, k);
            let known = reused_texts(files, usable, answers, k);
            let trusted = usable && files[i as int].size <= i64::MAX
                && !hash_cache::is_degenerate(files[i as int].identity@)
                && answers[i as int] is Hit && forall|j: int|
                0 <= j < i && #[trigger] answers[j] is Failed ==> files[j].size > i64::MAX
                    || hash_cache::is_degenerate(files[j].identity@);
            &&& read.contains(i) <==> !trusted
            &&& trusted ==> known.contains((i, answers[i as int]->0@))
            &&& !trusted ==> forall|t: Seq<char>| !(#[trigger] known.contains((i, t)))
            &&& read.len() + known.len() == k
        }),
    decreases k,
{
    let read = computed(files, usable, answers, k);
    let known = reused_texts(files, usable, answers, k);
    let before = computed(files, usable, answers, k - 1);
    let known_before = reused_texts(files, usable, answers, k - 1);
    division_adds_up(files, usable, answers, k);
    division_adds_up(files, usable, answers, k - 1);
    if i < k - 1 {
        law_every_file_gets_its_hash(files, usable, answers, k - 1, i);
        if is_reused(files, usable, answers, k - 1) {
            assert(known.last().0 == k - 1);
            assert forall|t: Seq<char>| #[trigger] known.contains((i, t)) <==> known_before.contains(
                (i, t),
            ) by {
                if known.contains((i, t)) {
                    let m = choose|m: int| 0 <= m < known.len() && known[m] == (i, t);
                    assert(known_before[m] == (i, t));
                }
                if known_before.contains((i, t)) {
                    let m = choose|m: int| 0 <= m < known_before.len() && known_before[m] == (i, t);
                    assert(known[m] == (i, t));
                }
            }
            assert(known.contains((i, answers[i as int]->0@)) <==> known_before.contains(
                (i, answers[i as int]->0@),
            ));
        } else {
            if read.contains(i) {
                let m = choose|m: int| 0 <= m < read.len() && read[m] == i;
                assert(before[m] == i);
            }
            if before.contains(i) {
                let m = choose|m: int| 0 <= m < before.len() && before[m] == i;
                assert(read[m] == i);
            }
        }
    } else if is_reused(files, usable, answers, i as int) {
        assert(known.last() == (i, answers[i as int]->0@));
        assert(known[known.len() - 1] == (i, answers[i as int]->0@));
    } else {
        assert(read[read.len() - 1] == i);
    }
}

/// What a page is divided into: positions below its end, and as many as it has files.
proof fn division_adds_up(files: Seq<HashFile>, usable: bool, answers: Seq<CacheAnswer>, k: int)
    requires
        0 <= k <= files.len(),
        k <= usize::MAX,
    ensures
        computed(files, usable, answers, k).len() + reused_texts(files, usable, answers, k).len()
            == k,
        forall|x: usize| #[trigger] computed(files, usable, answers, k).contains(x) ==> x < k,
        forall|m: int|
            0 <= m < reused_texts(files, usable, answers, k).len() ==> (
            #[trigger] reused_texts(files, usable, answers, k)[m]).0 < k,
    decreases k,
{
    if k > 0 {
        division_adds_up(files, usable, answers, k - 1);
        let read = computed(files, usable, answers, k);
        let before = computed(files, usable, answers, k - 1);
        assert forall|x: usize| #[trigger] read.contains(x) implies x < k by {
            let m = choose|m: int| 0 <= m < read.len() && read[m] == x;
            if m < before.len() {
                assert(before[m] == x);
                assert(before.contains(x));
            }
        }
        let known = reused_texts(files, usable, answers, k);
        let known_before = reused_texts(files, usable, answers, k - 1);
        assert forall|m: int| 0 <= m < known.len() implies (#[trigger] known[m]).0 < k by {
            if m < known_before.len() {
                assert(known_before[m] == known[m]);
            }
        }
    }
}

/// The number of failures is that of the readings that did not go well.
pub proof fn law_failures_are_counted(results: Seq<bool>, k: int)
    requires
        0 <= k <= results.len(),
    ensures
        failures(results, 0) == 0,
        k < results.len() ==> failures(results, k + 1) == failures(results, k) + if results[k] {
            0nat
        } else {
            1
        },
        failures(results, k) <= k,
        failures(results, k) == 0 <==> forall|i: int| 0 <= i < k ==> #[trigger] results[i],
    decreases k,
{
    if k > 0 {
        law_failures_are_counted(results, k - 1);
        if forall|i: int| 0 <= i < k ==> #[trigger] results[i] {
            assert(results[k - 1]);
        }
    }
}

} // verus!
