//! The name of a group: what most of its files have in common.

use crate::fsutil;
use crate::functional::corpus::Features;
use crate::functional::features::{Interner, RawPart};
use crate::functional::pieces;
use crate::order;
use crate::text;
use vstd::prelude::*;

verus! {

/// The longest name, in UTF-16 units, and the longest phrase, in units.
pub const NAME_UNIT_LIMIT: usize = 24;

/// One list stands inside another without a gap.
pub open spec fn stands_in(longer: Seq<usize>, part: Seq<usize>) -> bool {
    exists|at: int|
        0 <= at && at + part.len() <= longer.len() && #[trigger] longer.subrange(
            at,
            at + part.len(),
        ) == part
}

/// A phrase of a run: some neighbouring units.
pub open spec fn phrase_of_run(run: Seq<usize>, phrase: Seq<usize>) -> bool {
    1 <= phrase.len() <= NAME_UNIT_LIMIT && stands_in(run, phrase)
}

/// A phrase of one of the first `k` runs.
pub open spec fn phrase_of_runs(runs: Seq<Vec<usize>>, k: int, phrase: Seq<usize>) -> bool {
    exists|r: int| 0 <= r < k && phrase_of_run((#[trigger] runs[r])@, phrase)
}

/// A phrase that a text holds.
pub open spec fn phrase_of(part: RawPart, phrase: Seq<usize>) -> bool {
    phrase_of_runs(part.runs@, part.runs@.len() as int, phrase)
}

/// A text speaks of a phrase: it holds it, or the phrase is one unit that is a part
/// of one of its words.
pub open spec fn speaks_of(part: RawPart, phrase: Seq<usize>) -> bool {
    phrase_of(part, phrase) || (phrase.len() == 1 && part.substrings@.contains(phrase[0]))
}

/// The name of a file, or the name of its directory.
pub open spec fn part_at(all: Seq<Features>, m: usize, use_parent: bool) -> RawPart {
    if use_parent {
        all[m as int].parent
    } else {
        all[m as int].name
    }
}

/// How many of the first `k` members speak of a phrase.
pub open spec fn coverage(
    all: Seq<Features>,
    members: Seq<usize>,
    use_parent: bool,
    phrase: Seq<usize>,
    k: int,
) -> nat
    decreases k,
{
    if k <= 0 {
        0
    } else {
        coverage(all, members, use_parent, phrase, k - 1) + if speaks_of(
            part_at(all, members[k - 1], use_parent),
            phrase,
        ) {
            1nat
        } else {
            0
        }
    }
}

/// So many members have to speak of a phrase: three quarters, and at least two.
pub open spec fn threshold_of(n: nat) -> nat {
    let most = (3 * n + 3) / 4;
    if most < 2 {
        2
    } else {
        most
    }
}

/// One of the first `k` members holds a phrase.
pub open spec fn is_held(
    all: Seq<Features>,
    members: Seq<usize>,
    use_parent: bool,
    phrase: Seq<usize>,
    k: int,
) -> bool {
    exists|t: int|
        0 <= t < k && phrase_of(part_at(all, #[trigger] members[t], use_parent), phrase)
}

/// A phrase that may name the group.
pub open spec fn qualifies(
    all: Seq<Features>,
    members: Seq<usize>,
    use_parent: bool,
    phrase: Seq<usize>,
) -> bool {
    &&& is_held(all, members, use_parent, phrase, members.len() as int)
    &&& coverage(all, members, use_parent, phrase, members.len() as int) >= threshold_of(
        members.len(),
    )
}

/// A phrase that may name the group and is part of no longer one that may, too.
pub open spec fn is_maximal(
    all: Seq<Features>,
    members: Seq<usize>,
    use_parent: bool,
    phrase: Seq<usize>,
) -> bool {
    &&& qualifies(all, members, use_parent, phrase)
    &&& forall|other: Seq<usize>| #[trigger]
        qualifies(all, members, use_parent, other) && other.len() > phrase.len() ==> !stands_in(
            other,
            phrase,
        )
}

/// Not behind the other list, number by number from position `i` on.
pub open spec fn list_le_from(a: Seq<usize>, b: Seq<usize>, i: int) -> bool
    decreases a.len() - i,
{
    if i >= a.len() {
        true
    } else if i >= b.len() {
        false
    } else if a[i] != b[i] {
        a[i] < b[i]
    } else {
        list_le_from(a, b, i + 1)
    }
}

/// Longer phrases first, then by their numbers.
pub open spec fn phrase_le(a: Seq<usize>, b: Seq<usize>) -> bool {
    a.len() > b.len() || (a.len() == b.len() && list_le_from(a, b, 0))
}

proof fn list_le_total(a: Seq<usize>, b: Seq<usize>, i: int)
    requires
        0 <= i <= a.len(),
        a.len() == b.len(),
        a.take(i) == b.take(i),
    ensures
        list_le_from(a, b, i) || list_le_from(b, a, i),
        list_le_from(a, b, i) && list_le_from(b, a, i) ==> a == b,
    decreases a.len() - i,
{
    if i == a.len() {
        assert(a.take(i) =~= a);
        assert(b.take(i) =~= b);
    } else if a[i] == b[i] {
        assert(a.take(i + 1) =~= a.take(i).push(a[i]));
        assert(b.take(i + 1) =~= b.take(i).push(b[i]));
        list_le_total(a, b, i + 1);
    }
}

proof fn list_le_chain(a: Seq<usize>, b: Seq<usize>, c: Seq<usize>, i: int)
    requires
        0 <= i,
        list_le_from(a, b, i),
        list_le_from(b, c, i),
    ensures
        list_le_from(a, c, i),
    decreases a.len() - i,
{
    if i < a.len() && i < b.len() && i < c.len() && a[i] == b[i] && b[i] == c[i] {
        list_le_chain(a, b, c, i + 1);
    }
}

/// Any two phrases can be compared, and only equal ones both ways.
proof fn phrase_le_total(a: Seq<usize>, b: Seq<usize>)
    ensures
        phrase_le(a, b) || phrase_le(b, a),
        phrase_le(a, b) && phrase_le(b, a) ==> a == b,
{
    if a.len() == b.len() {
        assert(a.take(0) =~= b.take(0));
        list_le_total(a, b, 0);
    }
}

fn not_behind(a: &Vec<usize>, b: &Vec<usize>) -> (r: bool)
    ensures
        r == phrase_le(a@, b@),
{
    if a.len() != b.len() {
        return a.len() > b.len();
    }
    let mut i: usize = 0;
    while i < a.len() && a[i] == b[i]
        invariant
            i <= a@.len(),
            a@.len() == b@.len(),
            list_le_from(a@, b@, 0) == list_le_from(a@, b@, i as int),
        decreases a.len() - i,
    {
        i = i + 1;
    }
    i >= a.len() || a[i] < b[i]
}

fn same_list(a: &Vec<usize>, b: &Vec<usize>) -> (r: bool)
    ensures
        r == (a@ == b@),
{
    if a.len() != b.len() {
        return false;
    }
    let mut i: usize = 0;
    while i < a.len()
        invariant
            i <= a@.len(),
            a@.len() == b@.len(),
            forall|k: int| 0 <= k < i ==> a@[k] == b@[k],
        decreases a.len() - i,
    {
        if a[i] != b[i] {
            assert(a@[i as int] != b@[i as int]);
            return false;
        }
        i = i + 1;
    }
    assert(a@ =~= b@);
    true
}

/// A part of a list.
fn cut(v: &Vec<usize>, from: usize, to: usize) -> (r: Vec<usize>)
    requires
        from <= to <= v@.len(),
    ensures
        r@ == v@.subrange(from as int, to as int),
{
    let mut r: Vec<usize> = Vec::new();
    let mut i: usize = from;
    while i < to
        invariant
            from <= i <= to <= v@.len(),
            r@ == v@.subrange(from as int, i as int),
        decreases to - i,
    {
        r.push(v[i]);
        i = i + 1;
        assert(r@ =~= v@.subrange(from as int, i as int));
    }
    r
}

/// Whether the needle stands at a position.
fn stands_at(haystack: &Vec<usize>, needle: &Vec<usize>, at: usize) -> (r: bool)
    requires
        at + needle@.len() <= haystack@.len(),
    ensures
        r == (haystack@.subrange(at as int, at + needle@.len()) == needle@),
{
    let mut i: usize = 0;
    while i < needle.len()
        invariant
            i <= needle@.len(),
            at + needle.len() <= haystack.len(),
            forall|k: int| 0 <= k < i ==> haystack@[at + k] == needle@[k],
        decreases needle.len() - i,
    {
        if haystack[at + i] != needle[i] {
            assert(haystack@.subrange(at as int, at + needle@.len())[i as int]
                != needle@[i as int]);
            return false;
        }
        i = i + 1;
    }
    assert(haystack@.subrange(at as int, at + needle@.len()) =~= needle@);
    true
}

/// Whether a list that is not empty stands inside another without a gap.
pub fn contains_subsequence(haystack: &Vec<usize>, needle: &Vec<usize>) -> (r: bool)
    ensures
        r == (needle@.len() > 0 && stands_in(haystack@, needle@)),
{
    if needle.len() == 0 || needle.len() > haystack.len() {
        return false;
    }
    let last: usize = haystack.len() - needle.len();
    let mut at: usize = 0;
    while at <= last
        invariant
            at <= last + 1,
            last + needle.len() == haystack.len(),
            needle@.len() > 0,
            forall|k: int|
                0 <= k < at ==> #[trigger] haystack@.subrange(k, k + needle@.len()) != needle@,
        decreases last + 1 - at,
    {
        if stands_at(haystack, needle, at) {
            return true;
        }
        at = at + 1;
    }
    false
}

/// A part of a part is a part.
proof fn stands_in_chain(a: Seq<usize>, b: Seq<usize>, c: Seq<usize>)
    requires
        stands_in(a, b),
        stands_in(b, c),
    ensures
        stands_in(a, c),
{
    let p = choose|at: int|
        0 <= at && at + b.len() <= a.len() && #[trigger] a.subrange(at, at + b.len()) == b;
    let q = choose|at: int|
        0 <= at && at + c.len() <= b.len() && #[trigger] b.subrange(at, at + c.len()) == c;
    assert(a.subrange(p + q, p + q + c.len()) =~= c) by {
        assert forall|i: int| 0 <= i < c.len() implies a[p + q + i] == c[i] by {
            assert(a.subrange(p, p + b.len())[q + i] == b[q + i]);
            assert(b.subrange(q, q + c.len())[i] == c[i]);
        }
    }
}

/// The contents of some lists.
pub open spec fn lists(v: Seq<Vec<usize>>) -> Seq<Seq<usize>> {
    Seq::new(v.len(), |i: int| v[i]@)
}

proof fn lists_push(v: Seq<Vec<usize>>, x: Vec<usize>)
    ensures
        lists(v.push(x)) == lists(v).push(x@),
        forall|p: Seq<usize>| #[trigger]
            lists(v.push(x)).contains(p) <==> lists(v).contains(p) || p == x@,
{
    assert(lists(v.push(x)) =~= lists(v).push(x@));
    let a = lists(v);
    let b = lists(v.push(x));
    assert forall|p: Seq<usize>| #[trigger] b.contains(p) <==> a.contains(p) || p == x@ by {
        if b.contains(p) {
            let k = choose|k: int| 0 <= k < b.len() && b[k] == p;
            if k < a.len() {
                assert(a[k] == p);
            }
        }
        if a.contains(p) {
            let k = choose|k: int| 0 <= k < a.len() && a[k] == p;
            assert(b[k] == p);
        }
        assert(b[a.len() as int] == x@);
    }
}

/// A phrase of a run that starts before a position.
spec fn phrase_before(run: Seq<usize>, phrase: Seq<usize>, start: int) -> bool {
    1 <= phrase.len() <= NAME_UNIT_LIMIT && exists|at: int|
        0 <= at < start && at + phrase.len() <= run.len() && #[trigger] run.subrange(
            at,
            at + phrase.len(),
        ) == phrase
}

/// Puts all phrases of a run behind the phrases.
fn push_phrases(run: &Vec<usize>, out: &mut Vec<Vec<usize>>)
    ensures
        forall|p: Seq<usize>| #[trigger]
            lists(final(out)@).contains(p) <==> lists(old(out)@).contains(p) || phrase_of_run(
                run@,
                p,
            ),
{
    let ghost before = lists(out@);
    let mut start: usize = 0;
    while start < run.len()
        invariant
            start <= run@.len(),
            forall|p: Seq<usize>| #[trigger]
                lists(out@).contains(p) <==> before.contains(p) || phrase_before(
                    run@,
                    p,
                    start as int,
                ),
        decreases run.len() - start,
    {
        let room: usize = run.len() - start;
        let span: usize = if room < NAME_UNIT_LIMIT {
            room
        } else {
            NAME_UNIT_LIMIT
        };
        let ghost middle = lists(out@);
        let mut len: usize = 1;
        while len <= span
            invariant
                1 <= len <= span + 1,
                start + span <= run.len(),
                span <= NAME_UNIT_LIMIT,
                start < run@.len(),
                forall|p: Seq<usize>| #[trigger]
                    lists(out@).contains(p) <==> middle.contains(p) || (1 <= p.len() < len
                        && run@.subrange(start as int, start + p.len()) == p),
            decreases span + 1 - len,
        {
            let ghost inner = out@;
            let piece = cut(run, start, start + len);
            out.push(piece);
            proof {
                lists_push(inner, piece);
                assert forall|p: Seq<usize>| #[trigger] lists(out@).contains(p) <==> middle.contains(
                    p,
                ) || (1 <= p.len() < len + 1 && run@.subrange(start as int, start + p.len())
                    == p) by {
                    assert(lists(out@).contains(p) <==> lists(inner).contains(p) || p == piece@);
                }
            }
            len = len + 1;
        }
        proof {
            assert forall|p: Seq<usize>| #[trigger] lists(out@).contains(p) <==> before.contains(p)
                || phrase_before(run@, p, start + 1) by {
                if phrase_before(run@, p, start + 1) {
                    let at = choose|at: int|
                        0 <= at < start + 1 && at + p.len() <= run@.len()
                            && #[trigger] run@.subrange(at, at + p.len()) == p;
                    if at < start {
                        assert(phrase_before(run@, p, start as int));
                        assert(middle.contains(p));
                    }
                }
                if phrase_before(run@, p, start as int) {
                    let at = choose|at: int|
                        0 <= at < start && at + p.len() <= run@.len() && #[trigger] run@.subrange(
                            at,
                            at + p.len(),
                        ) == p;
                    assert(0 <= at < start + 1);
                }
                assert(middle.contains(p) <==> before.contains(p) || phrase_before(
                    run@,
                    p,
                    start as int,
                ));
                if 1 <= p.len() <= span && run@.subrange(start as int, start + p.len()) == p {
                    assert(phrase_before(run@, p, start + 1));
                }
            }
        }
        start = start + 1;
    }
    proof {
        assert forall|p: Seq<usize>| phrase_before(run@, p, start as int) <==> #[trigger] phrase_of_run(
            run@,
            p,
        ) by {
            if phrase_of_run(run@, p) {
                let at = choose|at: int|
                    0 <= at && at + p.len() <= run@.len() && #[trigger] run@.subrange(
                        at,
                        at + p.len(),
                    ) == p;
                assert(0 <= at < start);
            }
        }
    }
}

/// Whether a text holds a phrase that is not empty and not too long.
fn holds_phrase(part: &RawPart, phrase: &Vec<usize>) -> (r: bool)
    requires
        1 <= phrase@.len() <= NAME_UNIT_LIMIT,
    ensures
        r == phrase_of(*part, phrase@),
{
    let mut i: usize = 0;
    while i < part.runs.len()
        invariant
            i <= part.runs@.len(),
            1 <= phrase@.len() <= NAME_UNIT_LIMIT,
            !phrase_of_runs(part.runs@, i as int, phrase@),
        decreases part.runs.len() - i,
    {
        if contains_subsequence(&part.runs[i], phrase) {
            assert(phrase_of_run(part.runs@[i as int]@, phrase@));
            return true;
        }
        proof {
            if phrase_of_runs(part.runs@, i + 1, phrase@) {
                let r = choose|r: int|
                    0 <= r < i + 1 && phrase_of_run((#[trigger] part.runs@[r])@, phrase@);
                assert(r < i);
                assert(phrase_of_runs(part.runs@, i as int, phrase@));
            }
        }
        i = i + 1;
    }
    false
}

fn part_ref<'a>(all: &'a Vec<Features>, m: usize, use_parent: bool) -> (r: &'a RawPart)
    requires
        m < all@.len(),
    ensures
        *r == part_at(all@, m, use_parent),
{
    if use_parent {
        &all[m].parent
    } else {
        &all[m].name
    }
}

/// How many members speak of a phrase.
fn covered(
    all: &Vec<Features>,
    members: &Vec<usize>,
    use_parent: bool,
    phrase: &Vec<usize>,
) -> (r: usize)
    requires
        1 <= phrase@.len() <= NAME_UNIT_LIMIT,
        forall|t: int| 0 <= t < members@.len() ==> #[trigger] members@[t] < all@.len(),
    ensures
        r == coverage(all@, members@, use_parent, phrase@, members@.len() as int),
{
    let mut n: usize = 0;
    let mut i: usize = 0;
    while i < members.len()
        invariant
            i <= members@.len(),
            n <= i,
            1 <= phrase@.len() <= NAME_UNIT_LIMIT,
            forall|t: int| 0 <= t < members@.len() ==> #[trigger] members@[t] < all@.len(),
            n == coverage(all@, members@, use_parent, phrase@, i as int),
        decreases members.len() - i,
    {
        assert(members@[i as int] < all@.len());
        let part = part_ref(all, members[i], use_parent);
        if holds_phrase(part, phrase) || (phrase.len() == 1 && part.substrings.contains(
            phrase[0],
        )) {
            n = n + 1;
        }
        i = i + 1;
    }
    n
}

/// A phrase that may name a group, with the number of members that speak of it.
#[derive(Debug)]
pub struct Phrase {
    pub units: Vec<usize>,
    pub count: usize,
}

/// All phrases that some members hold, in order, each once.
fn held_phrases(all: &Vec<Features>, members: &Vec<usize>, use_parent: bool) -> (r: Vec<Vec<usize>>)
    requires
        forall|t: int| 0 <= t < members@.len() ==> #[trigger] members@[t] < all@.len(),
    ensures
        forall|p: Seq<usize>| #[trigger]
            lists(r@).contains(p) <==> is_held(
                all@,
                members@,
                use_parent,
                p,
                members@.len() as int,
            ),
{
    let mut raw: Vec<Vec<usize>> = Vec::new();
    let mut i: usize = 0;
    while i < members.len()
        invariant
            i <= members@.len(),
            forall|t: int| 0 <= t < members@.len() ==> #[trigger] members@[t] < all@.len(),
            forall|p: Seq<usize>| #[trigger]
                lists(raw@).contains(p) <==> is_held(all@, members@, use_parent, p, i as int),
        decreases members.len() - i,
    {
        assert(members@[i as int] < all@.len());
        let part = part_ref(all, members[i], use_parent);
        let ghost before = lists(raw@);
        let mut k: usize = 0;
        while k < part.runs.len()
            invariant
                k <= part.runs@.len(),
                forall|p: Seq<usize>| #[trigger]
                    lists(raw@).contains(p) <==> before.contains(p) || phrase_of_runs(
                        part.runs@,
                        k as int,
                        p,
                    ),
            decreases part.runs.len() - k,
        {
            let ghost middle = lists(raw@);
            push_phrases(&part.runs[k], &mut raw);
            proof {
                assert forall|p: Seq<usize>| #[trigger] lists(raw@).contains(p) <==> before.contains(
                    p,
                ) || phrase_of_runs(part.runs@, k + 1, p) by {
                    assert(lists(raw@).contains(p) <==> middle.contains(p) || phrase_of_run(
                        part.runs@[k as int]@,
                        p,
                    ));
                    if phrase_of_runs(part.runs@, k + 1, p) {
                        let r = choose|r: int|
                            0 <= r < k + 1 && phrase_of_run((#[trigger] part.runs@[r])@, p);
                        if r < k {
                            assert(phrase_of_runs(part.runs@, k as int, p));
                        }
                    }
                    if phrase_of_runs(part.runs@, k as int, p) {
                        let r = choose|r: int|
                            0 <= r < k && phrase_of_run((#[trigger] part.runs@[r])@, p);
                        assert(phrase_of_run(part.runs@[r]@, p) && r < k + 1);
                    }
                }
            }
            k = k + 1;
        }
        proof {
            assert forall|p: Seq<usize>| #[trigger] lists(raw@).contains(p) <==> is_held(
                all@,
                members@,
                use_parent,
                p,
                i + 1,
            ) by {
                if is_held(all@, members@, use_parent, p, i + 1) {
                    let t = choose|t: int|
                        0 <= t < i + 1 && phrase_of(
                            part_at(all@, #[trigger] members@[t], use_parent),
                            p,
                        );
                    if t < i {
                        assert(is_held(all@, members@, use_parent, p, i as int));
                        assert(before.contains(p));
                    }
                }
                if before.contains(p) {
                    let t = choose|t: int|
                        0 <= t < i && phrase_of(
                            part_at(all@, #[trigger] members@[t], use_parent),
                            p,
                        );
                    assert(phrase_of(part_at(all@, members@[t], use_parent), p) && t < i + 1);
                }
                if phrase_of(*part, p) {
                    assert(phrase_of(part_at(all@, members@[i as int], use_parent), p));
                }
            }
        }
        i = i + 1;
    }
    raw
}

/// Phrases in order, none twice.
pub open spec fn phrases_ordered(s: Seq<Phrase>) -> bool {
    forall|i: int, j: int|
        0 <= i < j < s.len() ==> phrase_le((#[trigger] s[i]).units@, (#[trigger] s[j]).units@)
            && s[i].units@ != s[j].units@
}

/// Some phrase of the list is the given one.
pub open spec fn has_phrase(s: Seq<Phrase>, p: Seq<usize>) -> bool {
    exists|i: int| 0 <= i < s.len() && (#[trigger] s[i]).units@ == p
}

/// Some phrase of the list holds the given one.
pub open spec fn has_holder(s: Seq<Phrase>, p: Seq<usize>) -> bool {
    exists|i: int|
        0 <= i < s.len() && (#[trigger] s[i]).units@.len() > p.len() && stands_in(s[i].units@, p)
}

/// Three quarters of the members, and at least two.
fn threshold(n: usize) -> (r: usize)
    ensures
        r == threshold_of(n as nat),
{
    let most: usize = n - n / 4;
    if most < 2 {
        2
    } else {
        most
    }
}

/// The phrases that may name a group, longest first; none is part of another one.
pub fn naming_phrases(all: &Vec<Features>, members: &Vec<usize>, use_parent: bool) -> (r: Vec<
    Phrase,
>)
    requires
        forall|t: int| 0 <= t < members@.len() ==> #[trigger] members@[t] < all@.len(),
    ensures
        phrases_ordered(r@),
        forall|p: Seq<usize>| #[trigger]
            has_phrase(r@, p) <==> is_maximal(all@, members@, use_parent, p),
        forall|i: int|
            0 <= i < r@.len() ==> (#[trigger] r@[i]).count == coverage(
                all@,
                members@,
                use_parent,
                r@[i].units@,
                members@.len() as int,
            ),
{
    let raw = held_phrases(all, members, use_parent);
    let least: usize = threshold(members.len());
    let ghost le = |i: int, j: int| phrase_le(raw@[i]@, raw@[j]@);
    proof {
        assert forall|i: int, j: int|
            0 <= i < raw@.len() && 0 <= j < raw@.len() implies #[trigger] le(i, j) || le(j, i) by {
            phrase_le_total(raw@[i]@, raw@[j]@);
        }
        assert forall|i: int, j: int, k: int|
            0 <= i < raw@.len() && 0 <= j < raw@.len() && 0 <= k < raw@.len() && #[trigger] le(i, j)
                && #[trigger] le(j, k) implies le(i, k) by {
            if raw@[i]@.len() == raw@[j]@.len() && raw@[j]@.len() == raw@[k]@.len() {
                list_le_chain(raw@[i]@, raw@[j]@, raw@[k]@, 0);
            }
        }
    }
    let f = |i: usize, j: usize| -> (b: bool)
        requires
            i < raw@.len(),
            j < raw@.len(),
        ensures
            b == phrase_le(raw@[i as int]@, raw@[j as int]@),
        { not_behind(&raw[i], &raw[j]) };
    let perm = order::sorting(&f, raw.len(), Ghost(le));
    let mut out: Vec<Phrase> = Vec::new();
    let mut i: usize = 0;
    while i < perm.len()
        invariant
            i <= perm@.len(),
            order::is_sorting(le, perm@, raw@.len() as int),
            le == (|i: int, j: int| phrase_le(raw@[i]@, raw@[j]@)),
            least == threshold_of(members@.len()),
            forall|t: int| 0 <= t < members@.len() ==> #[trigger] members@[t] < all@.len(),
            forall|p: Seq<usize>| #[trigger]
                lists(raw@).contains(p) <==> is_held(
                    all@,
                    members@,
                    use_parent,
                    p,
                    members@.len() as int,
                ),
            phrases_ordered(out@),
            forall|k: int|
                0 <= k < out@.len() ==> (#[trigger] out@[k]).count == coverage(
                    all@,
                    members@,
                    use_parent,
                    out@[k].units@,
                    members@.len() as int,
                ) && is_maximal(all@, members@, use_parent, out@[k].units@),
            forall|k: int, t: int|
                0 <= k < out@.len() && i <= t < perm@.len() ==> phrase_le(
                    (#[trigger] out@[k]).units@,
                    raw@[(#[trigger] perm@[t]) as int]@,
                ),
            forall|t: int|
                0 <= t < i ==> ({
                    let p = raw@[(#[trigger] perm@[t]) as int]@;
                    qualifies(all@, members@, use_parent, p) ==> has_phrase(out@, p) || has_holder(
                        out@,
                        p,
                    )
                }),
        decreases perm.len() - i,
    {
        assert(perm@.contains(perm@[i as int]));
        let phrase = &raw[perm[i]];
        let ghost p = phrase@;
        proof {
            assert(lists(raw@)[perm@[i as int] as int] == p);
            assert(lists(raw@).contains(p));
            held_length(all@, members@, use_parent, p);
        }
        let known: bool = out.len() > 0 && same_list(&out[out.len() - 1].units, phrase);
        let count: usize = covered(all, members, use_parent, phrase);
        let enough: bool = count >= least;
        assert(enough == qualifies(all@, members@, use_parent, p));
        let mut inside: bool = false;
        let mut k: usize = 0;
        while k < out.len()
            invariant
                k <= out@.len(),
                p == phrase@,
                p.len() > 0,
                inside == exists|j: int|
                    0 <= j < k && (#[trigger] out@[j]).units@.len() > p.len() && stands_in(
                        out@[j].units@,
                        p,
                    ),
            decreases out.len() - k,
        {
            if out[k].units.len() > phrase.len() && contains_subsequence(&out[k].units, phrase) {
                inside = true;
            }
            k = k + 1;
        }
        assert(inside == has_holder(out@, p));
        let ghost before = out@;
        if enough && !inside && !known {
            proof {
                assert forall|other: Seq<usize>| #[trigger]
                    qualifies(all@, members@, use_parent, other) && other.len() > p.len() implies
                    !stands_in(other, p) by {
                    if stands_in(other, p) {
                        later_are_not_longer(raw@, perm@, i as int, other);
                        let t = choose|t: int| 0 <= t < i && raw@[(#[trigger] perm@[t]) as int]@
                            == other;
                        if has_phrase(before, other) {
                            let j = choose|j: int|
                                0 <= j < before.len() && (#[trigger] before[j]).units@ == other;
                            assert(has_holder(before, p));
                        } else {
                            let j = choose|j: int|
                                0 <= j < before.len() && (#[trigger] before[j]).units@.len()
                                    > other.len() && stands_in(before[j].units@, other);
                            stands_in_chain(before[j].units@, other, p);
                            assert(has_holder(before, p));
                        }
                    }
                }
                assert(is_maximal(all@, members@, use_parent, p));
            }
            let units = cut(phrase, 0, phrase.len());
            assert(units@ =~= p);
            out.push(Phrase { units, count });
            proof {
                assert forall|a: int, b: int| 0 <= a < b < out@.len() implies phrase_le(
                    (#[trigger] out@[a]).units@,
                    (#[trigger] out@[b]).units@,
                ) && out@[a].units@ != out@[b].units@ by {
                    if b == before.len() {
                        assert(out@[a] == before[a]);
                        assert(phrase_le(before[a].units@, raw@[perm@[i as int] as int]@));
                        if before[a].units@ == p {
                            let l = before[before.len() - 1].units@;
                            if a < before.len() - 1 {
                                assert(phrase_le(before[a].units@, before[before.len() - 1].units@));
                            }
                            assert(phrase_le(before[before.len() - 1].units@, p));
                            phrase_le_total(l, p);
                        }
                    }
                }
            }
        }
        proof {
            assert forall|k: int, t: int| 0 <= k < out@.len() && i + 1 <= t < perm@.len() implies phrase_le(
                (#[trigger] out@[k]).units@,
                raw@[(#[trigger] perm@[t]) as int]@,
            ) by {
                if k < before.len() {
                    assert(out@[k] == before[k]);
                } else {
                    assert(order::comes_before(le, perm@[i as int] as int, perm@[t] as int));
                    assert(le(perm@[i as int] as int, perm@[t] as int));
                }
            }
            assert forall|t: int| 0 <= t < i + 1 implies ({
                let p = raw@[(#[trigger] perm@[t]) as int]@;
                qualifies(all@, members@, use_parent, p) ==> has_phrase(out@, p) || has_holder(
                    out@,
                    p,
                )
            }) by {
                let q = raw@[perm@[t] as int]@;
                if qualifies(all@, members@, use_parent, q) {
                    if t < i {
                        if has_phrase(before, q) {
                            let j = choose|j: int|
                                0 <= j < before.len() && (#[trigger] before[j]).units@ == q;
                            assert(out@[j].units@ == q);
                        } else {
                            let j = choose|j: int|
                                0 <= j < before.len() && (#[trigger] before[j]).units@.len()
                                    > q.len() && stands_in(before[j].units@, q);
                            assert(out@[j] == before[j]);
                        }
                    } else if inside {
                        assert(has_holder(before, p));
                        assert(out@ == before);
                    } else if known {
                        assert(out@[before.len() - 1].units@ == p);
                    } else {
                        assert(out@[before.len() as int].units@ == p);
                    }
                }
            }
        }
        i = i + 1;
    }
    proof {
        assert forall|p: Seq<usize>| #[trigger] has_phrase(out@, p) <==> is_maximal(
            all@,
            members@,
            use_parent,
            p,
        ) by {
            if is_maximal(all@, members@, use_parent, p) {
                assert(lists(raw@).contains(p));
                let x = choose|x: int| 0 <= x < lists(raw@).len() && lists(raw@)[x] == p;
                assert(perm@.contains(x as usize));
                let t = choose|t: int| 0 <= t < perm@.len() && perm@[t] == x as usize;
                assert(raw@[perm@[t] as int]@ == p);
                if has_holder(out@, p) {
                    let j = choose|j: int|
                        0 <= j < out@.len() && (#[trigger] out@[j]).units@.len() > p.len()
                            && stands_in(out@[j].units@, p);
                    assert(qualifies(all@, members@, use_parent, out@[j].units@));
                }
            }
        }
    }
    out
}

/// A held phrase is neither empty nor too long.
proof fn held_length(all: Seq<Features>, members: Seq<usize>, use_parent: bool, p: Seq<usize>)
    requires
        is_held(all, members, use_parent, p, members.len() as int),
    ensures
        1 <= p.len() <= NAME_UNIT_LIMIT,
{
    let t = choose|t: int|
        0 <= t < members.len() && phrase_of(part_at(all, #[trigger] members[t], use_parent), p);
    let part = part_at(all, members[t], use_parent);
    let r = choose|r: int|
        0 <= r < part.runs@.len() && phrase_of_run((#[trigger] part.runs@[r])@, p);
    assert(phrase_of_run(part.runs@[r]@, p));
}

/// A longer phrase stands further in front.
proof fn later_are_not_longer(raw: Seq<Vec<usize>>, perm: Seq<usize>, i: int, other: Seq<usize>)
    requires
        order::is_sorting(
            (|i: int, j: int| phrase_le(raw[i]@, raw[j]@)),
            perm,
            raw.len() as int,
        ),
        0 <= i < perm.len(),
        raw.len() <= usize::MAX,
        lists(raw).contains(other),
        other.len() > raw[perm[i] as int]@.len(),
    ensures
        exists|t: int| 0 <= t < i && raw[(#[trigger] perm[t]) as int]@ == other,
{
    let le = (|i: int, j: int| phrase_le(raw[i]@, raw[j]@));
    let x = choose|x: int| 0 <= x < lists(raw).len() && lists(raw)[x] == other;
    assert(perm.contains(x as usize));
    let t = choose|t: int| 0 <= t < perm.len() && perm[t] == x as usize;
    assert(raw[perm[t] as int]@ == other);
    if t >= i {
        if t > i {
            assert(order::comes_before(le, perm[i] as int, perm[t] as int));
            assert(le(perm[i] as int, perm[t] as int));
        }
    }
}

/// How a unit is shown in a name: a word in capitals, anything else as it is.
pub open spec fn shown(names: Seq<Seq<char>>, id: usize) -> Seq<char> {
    let t = unit_text(names, id);
    if pieces::is_word(t) {
        text::upper(t)
    } else {
        t
    }
}

/// The text of a unit; empty where there is none.
pub open spec fn unit_text(names: Seq<Seq<char>>, id: usize) -> Seq<char> {
    if id < names.len() {
        names[id as int]
    } else {
        Seq::empty()
    }
}

/// How a phrase is shown in a name.
pub open spec fn rendered(names: Seq<Seq<char>>, units: Seq<usize>) -> Seq<char>
    decreases units.len(),
{
    if units.len() == 0 {
        Seq::empty()
    } else {
        rendered(names, units.drop_last()) + shown(names, units.last())
    }
}

/// Shows a phrase.
pub fn render(interner: &Interner, units: &Vec<usize>) -> (r: String)
    ensures
        r@ == rendered(interner@, units@),
{
    let mut r = String::new();
    let mut i: usize = 0;
    assert(units@.take(0) =~= Seq::<usize>::empty());
    while i < units.len()
        invariant
            i <= units@.len(),
            r@ == rendered(interner@, units@.take(i as int)),
        decreases units.len() - i,
    {
        let t = interner.text(units[i]);
        proof {
            assert(units@.take(i + 1).drop_last() =~= units@.take(i as int));
            assert(units@.take(i + 1).last() == units@[i as int]);
        }
        if pieces::is_ascii_word(t) {
            proof {
                assert(text::ascii(t@)) by {
                    assert forall|k: int| 0 <= k < t@.len() implies (#[trigger] t@[k]) as u32
                        <= 127 by {
                        assert(pieces::is_letter(t@[k]));
                    }
                }
            }
            let up = text::to_uppercase(t);
            r.append(up.as_str());
        } else {
            r.append(t);
        }
        i = i + 1;
    }
    assert(units@.take(i as int) =~= units@);
    r
}

/// A phrase of one Latin word.
pub open spec fn is_one_word(names: Seq<Seq<char>>, units: Seq<usize>) -> bool {
    units.len() == 1 && pieces::is_word(unit_text(names, units[0]))
}

/// Higher ranks first, then by the shown text.
pub open spec fn standing(names: Seq<Seq<char>>, phrases: Seq<Phrase>, ranks: Seq<u64>) -> spec_fn(
    int,
    int,
) -> bool {
    |i: int, j: int|
        ranks[i] > ranks[j] || (ranks[i] == ranks[j] && text::at_most(
            rendered(names, phrases[i].units@),
            rendered(names, phrases[j].units@),
        ))
}

/// A phrase may stand beside the best one: one Latin word of which as many members
/// speak, and with nearly the same rank.
pub open spec fn stands_beside(
    names: Seq<Seq<char>>,
    phrases: Seq<Phrase>,
    near: Seq<bool>,
    top: int,
    i: int,
) -> bool {
    phrases[i].count == phrases[top].count && is_one_word(names, phrases[i].units@) && near[i]
}

/// The first phrase from a place on that may stand beside the best one.
pub open spec fn beside_from(
    names: Seq<Seq<char>>,
    phrases: Seq<Phrase>,
    near: Seq<bool>,
    perm: Seq<usize>,
    k: int,
) -> Option<usize>
    decreases perm.len() - k,
{
    if k >= perm.len() {
        None
    } else if stands_beside(names, phrases, near, perm[0] as int, perm[k] as int) {
        Some(perm[k])
    } else {
        beside_from(names, phrases, near, perm, k + 1)
    }
}

/// The phrase beside the best one, if the best one is a Latin word.
pub open spec fn second_of(
    names: Seq<Seq<char>>,
    phrases: Seq<Phrase>,
    near: Seq<bool>,
    perm: Seq<usize>,
) -> Option<usize> {
    if is_one_word(names, phrases[perm[0] as int].units@) {
        beside_from(names, phrases, near, perm, 1)
    } else {
        None
    }
}

/// The name of one or two phrases: both where that is short enough, else the first,
/// cut where even that is too long.
pub open spec fn short_name(top: Seq<char>, second: Option<Seq<char>>) -> Seq<char> {
    let whole = match second {
        Some(x) => top + "_"@ + x,
        None => top,
    };
    let kept = if text::units(whole) > NAME_UNIT_LIMIT {
        top
    } else {
        whole
    };
    fsutil::fitted(kept, NAME_UNIT_LIMIT as nat)
}

/// A name that can be a directory: where it cannot, with an underscore at the end.
pub open spec fn legal_name(name: Seq<char>) -> Seq<char> {
    if fsutil::name_problem(name) is None {
        name
    } else {
        fsutil::fitted(name, (NAME_UNIT_LIMIT - 1) as nat) + "_"@
    }
}

/// A name of underscores only says nothing.
pub open spec fn says_nothing(name: Seq<char>) -> bool {
    forall|i: int| 0 <= i < name.len() ==> #[trigger] name[i] == '_'
}

/// Makes a name one that can be a directory.
pub fn legalize_derived(name: &str) -> (r: String)
    ensures
        r@ == legal_name(name@),
{
    match fsutil::validate_component(name) {
        Ok(_) => {
            let v = text::chars_of(name);
            assert(v@.subrange(0, v@.len() as int) =~= name@);
            text::string_of(&v, 0, v.len())
        },
        Err(_) => {
            let mut r = fsutil::truncate_utf16(name, NAME_UNIT_LIMIT - 1);
            r.append("_");
            r
        },
    }
}

fn nothing_said(name: &str) -> (r: bool)
    ensures
        r == says_nothing(name@),
{
    let v = text::chars_of(name);
    let mut i: usize = 0;
    while i < v.len()
        invariant
            i <= v@.len(),
            v@ == name@,
            forall|k: int| 0 <= k < i ==> #[trigger] v@[k] == '_',
        decreases v.len() - i,
    {
        if v[i] != '_' {
            assert(name@[i as int] != '_');
            return false;
        }
        i = i + 1;
    }
    true
}

/// A name for a group, and the phrases that it was made of.
#[derive(Debug)]
pub struct Choice {
    pub name: String,
    pub top: usize,
    pub second: Option<usize>,
}

/// The name that the best phrases give.
pub open spec fn chosen_name(
    names: Seq<Seq<char>>,
    phrases: Seq<Phrase>,
    near: Seq<bool>,
    perm: Seq<usize>,
) -> Seq<char> {
    let top = rendered(names, phrases[perm[0] as int].units@);
    let second = match second_of(names, phrases, near, perm) {
        Some(i) => Some(rendered(names, phrases[i as int].units@)),
        None => None,
    };
    legal_name(short_name(top, second))
}

/// The choice that an order of the phrases gives.
pub open spec fn is_choice(
    names: Seq<Seq<char>>,
    phrases: Seq<Phrase>,
    near: Seq<bool>,
    perm: Seq<usize>,
    r: Option<Choice>,
) -> bool {
    let name = chosen_name(names, phrases, near, perm);
    match r {
        None => phrases.len() == 0 || says_nothing(name),
        Some(c) => {
            &&& phrases.len() > 0
            &&& !says_nothing(name)
            &&& c.name@ == name
            &&& c.top == perm[0]
            &&& c.second == second_of(names, phrases, near, perm)
        },
    }
}

/// A directory name never has more than 24 UTF-16 units.
pub proof fn law_names_are_short(top: Seq<char>, second: Option<Seq<char>>)
    ensures
        text::units(legal_name(short_name(top, second))) <= NAME_UNIT_LIMIT,
{
    let whole = match second {
        Some(x) => top + "_"@ + x,
        None => top,
    };
    let kept = if text::units(whole) > NAME_UNIT_LIMIT {
        top
    } else {
        whole
    };
    fsutil::fitted_units(kept, NAME_UNIT_LIMIT as nat);
    let name = short_name(top, second);
    let cut = fsutil::fitted(name, (NAME_UNIT_LIMIT - 1) as nat);
    fsutil::fitted_units(name, (NAME_UNIT_LIMIT - 1) as nat);
    reveal_strlit("_");
    assert((cut + "_"@).drop_last() =~= cut);
    assert((cut + "_"@).last() == '_');
}

/// Chooses a group's name from its phrases. `ranks` orders them and `near` says
/// which ones rank nearly as high as the best.
pub fn choose_name(
    interner: &Interner,
    phrases: &Vec<Phrase>,
    ranks: &Vec<u64>,
    near: &Vec<bool>,
) -> (r: Option<Choice>)
    requires
        ranks@.len() == phrases@.len(),
        near@.len() == phrases@.len(),
    ensures
        exists|perm: Seq<usize>|
            order::is_sorting(
                standing(interner@, phrases@, ranks@),
                perm,
                phrases@.len() as int,
            ) && #[trigger] is_choice(interner@, phrases@, near@, perm, r),
{
    let ghost names = interner@;
    let ghost le = standing(names, phrases@, ranks@);
    let mut texts: Vec<String> = Vec::new();
    let mut i: usize = 0;
    while i < phrases.len()
        invariant
            i <= phrases@.len(),
            texts@.len() == i,
            names == interner@,
            forall|k: int|
                0 <= k < i ==> (#[trigger] texts@[k])@ == rendered(names, phrases@[k].units@),
        decreases phrases.len() - i,
    {
        texts.push(render(interner, &phrases[i].units));
        i = i + 1;
    }
    proof {
        let n = phrases@.len() as int;
        assert forall|i: int, j: int| 0 <= i < n && 0 <= j < n implies #[trigger] le(i, j) || le(
            j,
            i,
        ) by {
            text::at_most_total(
                rendered(names, phrases@[i].units@),
                rendered(names, phrases@[j].units@),
            );
        }
        assert forall|i: int, j: int, k: int|
            0 <= i < n && 0 <= j < n && 0 <= k < n && #[trigger] le(i, j) && #[trigger] le(
                j,
                k,
            ) implies le(i, k) by {
            if ranks@[i] == ranks@[j] && ranks@[j] == ranks@[k] {
                text::at_most_chain(
                    rendered(names, phrases@[i].units@),
                    rendered(names, phrases@[j].units@),
                    rendered(names, phrases@[k].units@),
                );
            }
        }
    }
    let f = |i: usize, j: usize| -> (b: bool)
        requires
            i < phrases@.len(),
            j < phrases@.len(),
            texts@.len() == phrases@.len(),
            ranks@.len() == phrases@.len(),
        ensures
            b == (ranks@[i as int] > ranks@[j as int] || (ranks@[i as int] == ranks@[j as int]
                && text::at_most(texts@[i as int]@, texts@[j as int]@))),
        {
            ranks[i] > ranks[j] || (ranks[i] == ranks[j] && text::not_after(
                texts[i].as_str(),
                texts[j].as_str(),
            ))
        };
    let perm = order::sorting(&f, phrases.len(), Ghost(le));
    if phrases.len() == 0 {
        assert(is_choice(names, phrases@, near@, perm@, None));
        return None;
    }
    let top: usize = perm[0];
    assert(perm@.contains(perm@[0]));
    let mut second: Option<usize> = None;
    if phrases[top].units.len() == 1 && pieces::is_ascii_word(
        interner.text(phrases[top].units[0]),
    ) {
        let mut k: usize = 1;
        while k < perm.len() && second.is_none()
            invariant
                1 <= k <= perm@.len(),
                names == interner@,
                order::spans(perm@, 0, phrases@.len() as int),
                near@.len() == phrases@.len(),
                top == perm@[0],
                top < phrases@.len(),
                second_of(names, phrases@, near@, perm@) == match second {
                    Some(x) => Some(x),
                    None => beside_from(names, phrases@, near@, perm@, k as int),
                },
                second matches Some(x) ==> x < phrases@.len(),
            decreases perm.len() - k,
        {
            assert(perm@.contains(perm@[k as int]));
            let at: usize = perm[k];
            if phrases[at].count == phrases[top].count && phrases[at].units.len() == 1
                && pieces::is_ascii_word(interner.text(phrases[at].units[0])) && near[at] {
                second = Some(at);
            }
            k = k + 1;
        }
    }
    assert(second == second_of(names, phrases@, near@, perm@));
    let mut whole = render(interner, &phrases[top].units);
    let ghost top_text = whole@;
    if let Some(at) = second {
        whole.append("_");
        let other = render(interner, &phrases[at].units);
        whole.append(other.as_str());
    }
    let cut = fsutil::truncate_utf16(whole.as_str(), NAME_UNIT_LIMIT);
    let short = if text::same(cut.as_str(), whole.as_str()) {
        cut
    } else {
        let alone = render(interner, &phrases[top].units);
        fsutil::truncate_utf16(alone.as_str(), NAME_UNIT_LIMIT)
    };
    proof {
        fsutil::fitted_units(whole@, NAME_UNIT_LIMIT as nat);
        if text::units(whole@) <= NAME_UNIT_LIMIT {
            assert(whole@.take(whole@.len() as int) =~= whole@);
        }
        let second_text = match second {
            Some(i) => Some(rendered(names, phrases@[i as int].units@)),
            None => None,
        };
        assert(short@ == short_name(top_text, second_text));
    }
    let name = legalize_derived(short.as_str());
    if nothing_said(name.as_str()) {
        assert(is_choice(names, phrases@, near@, perm@, None));
        return None;
    }
    let r = Some(Choice { name, top, second });
    assert(is_choice(names, phrases@, near@, perm@, r));
    r
}

/// The units of the phrases that a name was made of.
pub fn chosen_units(phrases: &Vec<Phrase>, choice: &Choice) -> (r: Vec<usize>)
    requires
        choice.top < phrases@.len(),
        choice.second matches Some(i) ==> i < phrases@.len(),
    ensures
        r@ == phrases@[choice.top as int].units@ + (match choice.second {
            Some(i) => phrases@[i as int].units@,
            None => Seq::empty(),
        }),
{
    let top = &phrases[choice.top].units;
    let mut r = cut(top, 0, top.len());
    assert(r@ =~= top@);
    if let Some(at) = choice.second {
        let more = &phrases[at].units;
        let mut i: usize = 0;
        while i < more.len()
            invariant
                i <= more@.len(),
                r@ == top@ + more@.take(i as int),
            decreases more.len() - i,
        {
            r.push(more[i]);
            proof {
                assert(more@.take(i + 1) =~= more@.take(i as int).push(more@[i as int]));
                assert(r@ =~= top@ + more@.take(i + 1));
            }
            i = i + 1;
        }
        assert(more@.take(i as int) =~= more@);
    }
    assert(top@ + Seq::<usize>::empty() =~= top@);
    r
}

/// So many members have to speak of a phrase that names them: at least three quarters of
/// them and at least two, and no more than that takes.
pub proof fn law_most_members_have_to_speak(n: nat)
    ensures
        4 * threshold_of(n) >= 3 * n,
        threshold_of(n) >= 2,
        threshold_of(n) > 2 ==> 4 * (threshold_of(n) - 1) < 3 * n,
{
}

/// The members that speak of a phrase are counted, each once.
pub proof fn law_speakers_are_counted(
    all: Seq<Features>,
    members: Seq<usize>,
    use_parent: bool,
    phrase: Seq<usize>,
    k: int,
)
    requires
        0 <= k <= members.len(),
    ensures
        coverage(all, members, use_parent, phrase, k) <= k,
        coverage(all, members, use_parent, phrase, k) == k <==> forall|t: int|
            0 <= t < k ==> speaks_of(part_at(all, #[trigger] members[t], use_parent), phrase),
        k < members.len() ==> coverage(all, members, use_parent, phrase, k + 1) == coverage(
            all,
            members,
            use_parent,
            phrase,
            k,
        ) + if speaks_of(part_at(all, members[k], use_parent), phrase) {
            1nat
        } else {
            0
        },
    decreases k,
{
    if k > 0 {
        law_speakers_are_counted(all, members, use_parent, phrase, k - 1);
        if forall|t: int|
            0 <= t < k ==> speaks_of(part_at(all, #[trigger] members[t], use_parent), phrase) {
            assert(speaks_of(part_at(all, members[k - 1], use_parent), phrase));
        }
    }
}

/// A phrase that names a group stands in one of its files, has one to 24 units, and three
/// quarters of the files speak of it, at least two; and no longer phrase of which that can
/// be said holds it.
pub proof fn law_names_speak_for_most(
    all: Seq<Features>,
    members: Seq<usize>,
    use_parent: bool,
    phrase: Seq<usize>,
)
    requires
        is_maximal(all, members, use_parent, phrase),
    ensures
        4 * coverage(all, members, use_parent, phrase, members.len() as int) >= 3 * members.len(),
        coverage(all, members, use_parent, phrase, members.len() as int) >= 2,
        1 <= phrase.len() <= 24,
        exists|t: int|
            0 <= t < members.len() && speaks_of(
                part_at(all, #[trigger] members[t], use_parent),
                phrase,
            ),
        forall|other: Seq<usize>| #[trigger]
            qualifies(all, members, use_parent, other) && other.len() > phrase.len() ==> !stands_in(
                other,
                phrase,
            ),
{
    held_length(all, members, use_parent, phrase);
    let t = choose|t: int|
        0 <= t < members.len() && phrase_of(part_at(all, #[trigger] members[t], use_parent), phrase);
    assert(speaks_of(part_at(all, members[t], use_parent), phrase));
}

/// A file speaks of every phrase of up to 24 neighbouring units of one of its runs, and of
/// every single part of its words.
pub proof fn law_what_a_file_speaks_of(part: RawPart, run: int, from: int, to: int, u: usize)
    requires
        0 <= run < part.runs@.len(),
        0 <= from < to <= part.runs@[run]@.len(),
        to - from <= 24,
    ensures
        speaks_of(part, part.runs@[run]@.subrange(from, to)),
        part.substrings@.contains(u) ==> speaks_of(part, seq![u]),
        !phrase_of(part, Seq::empty()),
{
    let r = part.runs@[run]@;
    let p = r.subrange(from, to);
    assert(r.subrange(from, from + p.len()) == p);
    assert(stands_in(r, p));
    assert(phrase_of_run(part.runs@[run]@, p));
}

/// Longer phrases come first.
pub proof fn law_longer_phrases_come_first(s: Seq<Phrase>, i: int, j: int)
    requires
        phrases_ordered(s),
        0 <= i < j < s.len(),
    ensures
        s[i].units@.len() >= s[j].units@.len(),
        s[i].units@ != s[j].units@,
{
    assert(phrase_le(s[i].units@, s[j].units@));
}

/// A word is shown in capitals, anything else as it is, one unit after the other.
pub proof fn law_how_phrases_are_shown(names: Seq<Seq<char>>, units: Seq<usize>, id: usize)
    ensures
        rendered(names, Seq::empty()) == Seq::<char>::empty(),
        id < names.len() && pieces::is_word(names[id as int]) ==> rendered(names, units.push(id))
            == rendered(names, units) + text::upper(names[id as int]),
        id < names.len() && !pieces::is_word(names[id as int]) ==> rendered(names, units.push(id))
            == rendered(names, units) + names[id as int],
{
    assert(units.push(id).drop_last() =~= units);
}

/// The best phrase has the highest rank, and of those of one rank it comes first in
/// dictionary order.
pub proof fn law_the_best_phrase_names_the_group(
    names: Seq<Seq<char>>,
    phrases: Seq<Phrase>,
    ranks: Seq<u64>,
    perm: Seq<usize>,
    i: int,
)
    requires
        order::is_sorting(standing(names, phrases, ranks), perm, phrases.len() as int),
        phrases.len() <= usize::MAX,
        0 <= i < phrases.len(),
    ensures
        ranks[perm[0] as int] >= ranks[i],
        ranks[perm[0] as int] == ranks[i] ==> perm[0] == i || text::at_most(
            rendered(names, phrases[perm[0] as int].units@),
            rendered(names, phrases[i].units@),
        ),
{
    assert(perm.contains(i as usize));
    let k = choose|k: int| 0 <= k < perm.len() && perm[k] == i as usize;
    if k > 0 {
        assert(order::comes_before(
            standing(names, phrases, ranks),
            perm[0] as int,
            perm[k] as int,
        ));
    }
}

proof fn beside_is_sound(
    names: Seq<Seq<char>>,
    phrases: Seq<Phrase>,
    near: Seq<bool>,
    perm: Seq<usize>,
    k: int,
)
    requires
        0 <= k <= perm.len(),
    ensures
        beside_from(names, phrases, near, perm, k) matches Some(x) ==> phrases[x as int].count
            == phrases[perm[0] as int].count && is_one_word(names, phrases[x as int].units@)
            && near[x as int] && perm.contains(x),
    decreases perm.len() - k,
{
    if k < perm.len() {
        beside_is_sound(names, phrases, near, perm, k + 1);
        assert(perm.contains(perm[k]));
    }
}

/// A second phrase stands beside the best one only where both are single words of which
/// equally many files speak, and it ranks nearly as high.
pub proof fn law_when_two_words_name_a_group(
    names: Seq<Seq<char>>,
    phrases: Seq<Phrase>,
    near: Seq<bool>,
    perm: Seq<usize>,
)
    requires
        perm.len() > 0,
    ensures
        second_of(names, phrases, near, perm) matches Some(x) ==> {
            let top = phrases[perm[0] as int];
            let other = phrases[x as int];
            &&& top.units@.len() == 1 && pieces::is_word(unit_text(names, top.units@[0]))
            &&& other.units@.len() == 1 && pieces::is_word(unit_text(names, other.units@[0]))
            &&& other.count == top.count
            &&& near[x as int]
        },
{
    beside_is_sound(names, phrases, near, perm, 1);
}

/// A name of one phrase that is short and can be a directory is that phrase; two phrases
/// stand with an underscore between them where that is short enough, else only the first.
pub proof fn law_short_names_stay(top: Seq<char>, second: Seq<char>)
    ensures
        text::units(top) <= 24 ==> short_name(top, None) == top,
        text::units(top + "_"@ + second) <= 24 ==> short_name(top, Some(second)) == top + "_"@
            + second,
        text::units(top) <= 24 && text::units(top + "_"@ + second) > 24 ==> short_name(
            top,
            Some(second),
        ) == top,
        fsutil::name_problem(top) is None ==> legal_name(top) == top,
{
    assert(top.take(top.len() as int) =~= top);
    let both = top + "_"@ + second;
    assert(both.take(both.len() as int) =~= both);
}

/// A name that is chosen says something, fits into 24 units, and is that of the best phrase;
/// none is chosen only where there is no phrase, or the name would be underscores alone.
pub proof fn law_chosen_names_say_something(
    names: Seq<Seq<char>>,
    phrases: Seq<Phrase>,
    near: Seq<bool>,
    perm: Seq<usize>,
    r: Option<Choice>,
)
    requires
        is_choice(names, phrases, near, perm, r),
    ensures
        r matches Some(c) ==> phrases.len() > 0 && c.top == perm[0] && text::units(c.name@) <= 24 && (
        exists|i: int| 0 <= i < c.name@.len() && #[trigger] c.name@[i] != '_'),
        r matches Some(c) ==> c.second == second_of(names, phrases, near, perm),
        r is None ==> phrases.len() == 0 || forall|i: int|
            0 <= i < chosen_name(names, phrases, near, perm).len() ==> #[trigger] chosen_name(
                names,
                phrases,
                near,
                perm,
            )[i] == '_',
{
    let top = rendered(names, phrases[perm[0] as int].units@);
    let second = match second_of(names, phrases, near, perm) {
        Some(i) => Some(rendered(names, phrases[i as int].units@)),
        None => None,
    };
    law_names_are_short(top, second);
}

} // verus!
