//! The archives that wait for their extraction: at most one for each path, the less
//! deeply nested first.

use crate::text;
use vstd::prelude::*;

verus! {

/// How far a queued archive has come.
#[derive(Clone, Copy, Debug, PartialEq, Eq, Structural)]
pub enum Progress {
    Pending,
    Running,
    Done,
    Failed,
}

/// An archive in the queue.
#[derive(Debug)]
pub struct QueueRow {
    pub rel: String,
    /// What it was when it was queued.
    pub fingerprint: String,
    /// How many archives it was nested in.
    pub depth: u32,
    pub progress: Progress,
}

/// An archive in the queue.
pub struct RowView {
    pub rel: Seq<char>,
    pub fingerprint: Seq<char>,
    pub depth: u32,
    pub progress: Progress,
}

impl View for QueueRow {
    type V = RowView;

    open spec fn view(&self) -> RowView {
        RowView {
            rel: self.rel@,
            fingerprint: self.fingerprint@,
            depth: self.depth,
            progress: self.progress,
        }
    }
}

/// The rows of a queue.
pub open spec fn views(rows: Seq<QueueRow>) -> Seq<RowView> {
    Seq::new(rows.len(), |i: int| rows[i]@)
}

/// The row waits for its turn.
pub open spec fn waits(row: RowView) -> bool {
    row.progress == Progress::Pending
}

/// The rows without those that wait under this path.
pub open spec fn without_waiting(rows: Seq<RowView>, rel: Seq<char>) -> Seq<RowView>
    decreases rows.len(),
{
    if rows.len() == 0 {
        Seq::empty()
    } else if waits(rows.last()) && rows.last().rel == rel {
        without_waiting(rows.drop_last(), rel)
    } else {
        without_waiting(rows.drop_last(), rel).push(rows.last())
    }
}

/// Some row was queued as exactly this archive.
pub open spec fn knows(rows: Seq<RowView>, fingerprint: Seq<char>) -> bool {
    exists|i: int| 0 <= i < rows.len() && (#[trigger] rows[i]).fingerprint == fingerprint
}

/// The rows once an archive was queued: what waited under its path is gone, and it
/// waits behind the others unless it is known.
pub open spec fn enqueued(
    rows: Seq<RowView>,
    rel: Seq<char>,
    fingerprint: Seq<char>,
    depth: u32,
) -> Seq<RowView> {
    let kept = without_waiting(rows, rel);
    if knows(kept, fingerprint) {
        kept
    } else {
        kept.push(RowView { rel, fingerprint, depth, progress: Progress::Pending })
    }
}

/// The row whose turn it is: of those that wait, the first one of the least depth.
pub open spec fn is_next(rows: Seq<RowView>, i: int) -> bool {
    &&& 0 <= i < rows.len() && waits(rows[i])
    &&& forall|j: int|
        0 <= j < rows.len() && waits(#[trigger] rows[j]) ==> rows[i].depth < rows[j].depth || (
        rows[i].depth == rows[j].depth && i <= j)
}

/// How many rows wait.
pub open spec fn waiting_count(rows: Seq<RowView>) -> nat
    decreases rows.len(),
{
    if rows.len() == 0 {
        0
    } else if waits(rows.last()) {
        waiting_count(rows.drop_last()) + 1
    } else {
        waiting_count(rows.drop_last())
    }
}

/// No archive is in the queue twice, and no path waits twice.
pub open spec fn is_clean(rows: Seq<RowView>) -> bool {
    &&& forall|i: int, j: int|
        0 <= i < j < rows.len() ==> (#[trigger] rows[i]).fingerprint != (
        #[trigger] rows[j]).fingerprint
    &&& forall|i: int, j: int|
        0 <= i < j < rows.len() && waits(#[trigger] rows[i]) && waits(#[trigger] rows[j])
            ==> rows[i].rel != rows[j].rel
}

/// The archives of a task, in the order in which they were queued.
#[derive(Debug)]
pub struct ArchiveQueue {
    rows: Vec<QueueRow>,
}

impl View for ArchiveQueue {
    type V = Seq<RowView>;

    closed spec fn view(&self) -> Seq<RowView> {
        views(self.rows@)
    }
}

impl ArchiveQueue {
    /// A queue without archives.
    pub fn new() -> (r: ArchiveQueue)
        ensures
            r@ == Seq::<RowView>::empty(),
    {
        let r = ArchiveQueue { rows: Vec::new() };
        assert(r@ =~= Seq::<RowView>::empty());
        r
    }

    /// How many archives are or were in the queue.
    pub fn len(&self) -> (r: usize)
        ensures
            r == self@.len(),
    {
        self.rows.len()
    }

    /// A row of the queue.
    pub fn row(&self, i: usize) -> (r: &QueueRow)
        requires
            i < self@.len(),
        ensures
            r@ == self@[i as int],
    {
        &self.rows[i]
    }

    /// Takes the rows that wait under a path out of the queue.
    fn drop_waiting(&mut self, rel: &str)
        ensures
            final(self)@ == without_waiting(old(self)@, rel@),
    {
        let ghost all = self@;
        let ghost mut k: int = 0;
        let mut i: usize = 0;
        assert(all.take(0) =~= Seq::<RowView>::empty());
        assert(Seq::<RowView>::empty() + all.skip(0) =~= all);
        while i < self.rows.len()
            invariant
                0 <= k <= all.len(),
                self@ == without_waiting(all.take(k), rel@) + all.skip(k),
                i == without_waiting(all.take(k), rel@).len(),
            decreases self.rows.len() - i,
        {
            assert(self@.len() == self.rows@.len());
            assert(self@[i as int] == self.rows@[i as int]@);
            assert(self@[i as int] == all[k]);
            assert(all.take(k + 1).drop_last() =~= all.take(k));
            let gone: bool = match self.rows[i].progress {
                Progress::Pending => text::same(self.rows[i].rel.as_str(), rel),
                _ => false,
            };
            if gone {
                let ghost before = self@;
                let _ = self.rows.remove(i);
                assert(self@ =~= before.remove(i as int));
                assert(self@ =~= without_waiting(all.take(k + 1), rel@) + all.skip(k + 1));
            } else {
                assert(self@ =~= without_waiting(all.take(k + 1), rel@) + all.skip(k + 1));
                i = i + 1;
            }
            proof {
                k = k + 1;
            }
        }
        assert(k == all.len());
        assert(all.take(k) =~= all);
        assert(self@ =~= without_waiting(all, rel@));
    }

    /// Whether some row was queued as exactly this archive.
    fn knows_archive(&self, fingerprint: &str) -> (r: bool)
        ensures
            r == knows(self@, fingerprint@),
    {
        let mut i: usize = 0;
        while i < self.rows.len()
            invariant
                i <= self.rows@.len(),
                forall|k: int| 0 <= k < i ==> (#[trigger] self@[k]).fingerprint != fingerprint@,
            decreases self.rows.len() - i,
        {
            assert(self@[i as int] == self.rows@[i as int]@);
            if text::same(self.rows[i].fingerprint.as_str(), fingerprint) {
                return true;
            }
            i = i + 1;
        }
        false
    }

    /// Queues an archive. What still waits under its path is another, older one and
    /// leaves the queue; an archive that is known is not queued again.
    pub fn enqueue(&mut self, rel: &str, fingerprint: &str, depth: u32)
        ensures
            final(self)@ == enqueued(old(self)@, rel@, fingerprint@, depth),
    {
        self.drop_waiting(rel);
        if self.knows_archive(fingerprint) {
            return;
        }
        let ghost before = self@;
        let row = QueueRow {
            rel: rel.to_owned(),
            fingerprint: fingerprint.to_owned(),
            depth,
            progress: Progress::Pending,
        };
        self.rows.push(row);
        assert(self@ =~= before.push(row@));
    }

    /// The row whose turn it is; none when no row waits.
    pub fn next(&self) -> (r: Option<usize>)
        ensures
            match r {
                Some(i) => is_next(self@, i as int),
                None => forall|j: int| 0 <= j < self@.len() ==> !waits(#[trigger] self@[j]),
            },
    {
        let mut best: Option<usize> = None;
        let mut i: usize = 0;
        while i < self.rows.len()
            invariant
                i <= self.rows@.len(),
                self@.len() == self.rows@.len(),
                match best {
                    Some(b) => b < i && waits(self@[b as int]) && forall|j: int|
                        0 <= j < i && waits(#[trigger] self@[j]) ==> self@[b as int].depth
                            < self@[j].depth || (self@[b as int].depth == self@[j].depth && b
                            <= j),
                    None => forall|j: int| 0 <= j < i ==> !waits(#[trigger] self@[j]),
                },
            decreases self.rows.len() - i,
        {
            assert(self@[i as int] == self.rows@[i as int]@);
            if let Progress::Pending = self.rows[i].progress {
                match best {
                    None => {
                        best = Some(i);
                    },
                    Some(b) => {
                        assert(self@[b as int] == self.rows@[b as int]@);
                        if self.rows[i].depth < self.rows[b].depth {
                            best = Some(i);
                        }
                    },
                }
            }
            i = i + 1;
        }
        best
    }

    /// How many rows wait.
    pub fn waiting(&self) -> (r: usize)
        ensures
            r == waiting_count(self@),
    {
        let mut n: usize = 0;
        let mut i: usize = 0;
        assert(self@.take(0) =~= Seq::<RowView>::empty());
        while i < self.rows.len()
            invariant
                i <= self.rows@.len(),
                self@.len() == self.rows@.len(),
                n <= i,
                n == waiting_count(self@.take(i as int)),
            decreases self.rows.len() - i,
        {
            assert(self@[i as int] == self.rows@[i as int]@);
            assert(self@.take(i + 1).drop_last() =~= self@.take(i as int));
            if let Progress::Pending = self.rows[i].progress {
                n = n + 1;
            }
            i = i + 1;
        }
        assert(self@.take(i as int) =~= self@);
        n
    }

    /// Records how far a row has come.
    pub fn set_progress(&mut self, i: usize, progress: Progress)
        requires
            i < old(self)@.len(),
        ensures
            final(self)@ == old(self)@.update(
                i as int,
                (RowView { progress, ..old(self)@[i as int] }),
            ),
    {
        let ghost before = self@;
        let mut row = self.rows.remove(i);
        row.progress = progress;
        self.rows.insert(i, row);
        assert(self@ =~= before.update(i as int, RowView { progress, ..before[i as int] }));
    }

    /// Takes a row out of the queue.
    pub fn remove(&mut self, i: usize)
        requires
            i < old(self)@.len(),
        ensures
            final(self)@ == old(self)@.remove(i as int),
    {
        let ghost before = self@;
        let _ = self.rows.remove(i);
        assert(self@ =~= before.remove(i as int));
    }
}

/// Each row that is left was there, in the same order, and does not wait under the
/// path; every other row is left.
proof fn kept_rows(rows: Seq<RowView>, rel: Seq<char>)
    ensures
        forall|x: RowView| #[trigger]
            without_waiting(rows, rel).contains(x) <==> rows.contains(x) && !(waits(x) && x.rel
                == rel),
    decreases rows.len(),
{
    let kept = without_waiting(rows, rel);
    if rows.len() > 0 {
        let front = rows.drop_last();
        let part = without_waiting(front, rel);
        kept_rows(front, rel);
        assert forall|x: RowView| #[trigger] kept.contains(x) <==> rows.contains(x) && !(waits(x)
            && x.rel == rel) by {
            if rows.contains(x) {
                let i = choose|i: int| 0 <= i < rows.len() && rows[i] == x;
                if i < front.len() {
                    assert(front[i] == x);
                    assert(front.contains(x));
                }
            }
            if front.contains(x) {
                let i = choose|i: int| 0 <= i < front.len() && front[i] == x;
                assert(rows[i] == x);
            }
            assert(rows[rows.len() - 1] == rows.last());
            if kept.len() > part.len() {
                assert(kept[kept.len() - 1] == rows.last());
                if part.contains(x) {
                    let i = choose|i: int| 0 <= i < part.len() && part[i] == x;
                    assert(kept[i] == x);
                }
                if kept.contains(x) && x != rows.last() {
                    let i = choose|i: int| 0 <= i < kept.len() && kept[i] == x;
                    assert(part[i] == x);
                }
            }
        }
    }
}

/// Taking waiting rows out keeps the rest clean.
proof fn kept_clean(rows: Seq<RowView>, rel: Seq<char>)
    requires
        is_clean(rows),
    ensures
        is_clean(without_waiting(rows, rel)),
    decreases rows.len(),
{
    if rows.len() > 0 {
        let front = rows.drop_last();
        let part = without_waiting(front, rel);
        let kept = without_waiting(rows, rel);
        assert(is_clean(front)) by {
            assert forall|i: int, j: int| 0 <= i < j < front.len() implies (
            #[trigger] front[i]).fingerprint != (#[trigger] front[j]).fingerprint by {
                assert(rows[i].fingerprint != rows[j].fingerprint);
            }
            assert forall|i: int, j: int|
                0 <= i < j < front.len() && waits(#[trigger] front[i]) && waits(
                    #[trigger] front[j],
                ) implies front[i].rel != front[j].rel by {
                assert(waits(rows[i]) && waits(rows[j]));
            }
        }
        kept_clean(front, rel);
        kept_rows(front, rel);
        if kept.len() > part.len() {
            let last = rows.last();
            assert forall|i: int| 0 <= i < part.len() implies (
            #[trigger] part[i]).fingerprint != last.fingerprint && (waits(part[i]) && waits(last)
                ==> part[i].rel != last.rel) by {
                assert(part.contains(part[i]));
                let k = choose|k: int| 0 <= k < front.len() && front[k] == part[i];
                assert(rows[k] == part[i]);
                assert(rows[rows.len() - 1] == last);
            }
            assert(kept =~= part.push(last));
        }
    }
}

/// Queueing keeps the queue clean: no archive is in it twice, and no path waits twice.
pub proof fn law_queue_stays_clean(
    rows: Seq<RowView>,
    rel: Seq<char>,
    fingerprint: Seq<char>,
    depth: u32,
)
    requires
        is_clean(rows),
    ensures
        is_clean(enqueued(rows, rel, fingerprint, depth)),
{
    let kept = without_waiting(rows, rel);
    kept_clean(rows, rel);
    kept_rows(rows, rel);
    if !knows(kept, fingerprint) {
        let after = enqueued(rows, rel, fingerprint, depth);
        assert forall|i: int, j: int| 0 <= i < j < after.len() implies (
        #[trigger] after[i]).fingerprint != (#[trigger] after[j]).fingerprint by {
            assert(after[i] == kept[i]);
            if j < kept.len() {
                assert(after[j] == kept[j]);
            }
        }
        assert forall|i: int, j: int|
            0 <= i < j < after.len() && waits(#[trigger] after[i]) && waits(
                #[trigger] after[j],
            ) implies after[i].rel != after[j].rel by {
            assert(after[i] == kept[i]);
            assert(kept.contains(kept[i]));
            if j < kept.len() {
                assert(after[j] == kept[j]);
            }
        }
    }
}

/// Taking a row, and taking it out of the queue, keep the queue clean too.
pub proof fn law_taking_keeps_it_clean(rows: Seq<RowView>, i: int, progress: Progress)
    requires
        is_clean(rows),
        0 <= i < rows.len(),
        progress != Progress::Pending,
    ensures
        is_clean(rows.update(i, (RowView { progress, ..rows[i] }))),
        is_clean(rows.remove(i)),
{
    let taken = rows.update(i, RowView { progress, ..rows[i] });
    let less = rows.remove(i);
    let at = |k: int|
        if k < i {
            k
        } else {
            k + 1
        };
    assert forall|a: int, b: int| 0 <= a < b < taken.len() implies (
    #[trigger] taken[a]).fingerprint != (#[trigger] taken[b]).fingerprint by {
        assert(rows[a].fingerprint != rows[b].fingerprint);
    }
    assert forall|a: int, b: int|
        0 <= a < b < taken.len() && waits(#[trigger] taken[a]) && waits(
            #[trigger] taken[b],
        ) implies taken[a].rel != taken[b].rel by {
        assert(waits(rows[a]) && waits(rows[b]));
    }
    assert forall|a: int, b: int| 0 <= a < b < less.len() implies (
    #[trigger] less[a]).fingerprint != (#[trigger] less[b]).fingerprint by {
        assert(rows[at(a)].fingerprint != rows[at(b)].fingerprint);
    }
    assert forall|a: int, b: int|
        0 <= a < b < less.len() && waits(#[trigger] less[a]) && waits(
            #[trigger] less[b],
        ) implies less[a].rel != less[b].rel by {
        assert(waits(rows[at(a)]) && waits(rows[at(b)]));
    }
}

/// The newest archive of a path is the only one that waits there, unless it was
/// already taken: such an archive never waits again.
pub proof fn law_only_the_newest_waits(
    rows: Seq<RowView>,
    rel: Seq<char>,
    fingerprint: Seq<char>,
    depth: u32,
    x: RowView,
)
    requires
        enqueued(rows, rel, fingerprint, depth).contains(x),
        waits(x),
        x.rel == rel,
    ensures
        x == (RowView { rel, fingerprint, depth, progress: Progress::Pending }),
        forall|i: int|
            0 <= i < rows.len() && !waits(#[trigger] rows[i]) ==> rows[i].fingerprint
                != fingerprint,
{
    let kept = without_waiting(rows, rel);
    let after = enqueued(rows, rel, fingerprint, depth);
    kept_rows(rows, rel);
    let k = choose|k: int| 0 <= k < after.len() && after[k] == x;
    if k < kept.len() {
        assert(kept[k] == x);
        assert(kept.contains(x));
    }
    assert forall|i: int| 0 <= i < rows.len() && !waits(#[trigger] rows[i]) implies rows[i].fingerprint
        != fingerprint by {
        assert(rows.contains(rows[i]));
        assert(kept.contains(rows[i]));
        let p = choose|p: int| 0 <= p < kept.len() && kept[p] == rows[i];
        assert(kept[p].fingerprint == rows[i].fingerprint);
    }
}

/// Queueing an archive does not touch the rows of other paths, nor those that were
/// already taken.
pub proof fn law_other_rows_stay(
    rows: Seq<RowView>,
    rel: Seq<char>,
    fingerprint: Seq<char>,
    depth: u32,
    x: RowView,
)
    requires
        x.rel != rel || !waits(x),
    ensures
        enqueued(rows, rel, fingerprint, depth).contains(x) <==> rows.contains(x),
{
    let kept = without_waiting(rows, rel);
    let after = enqueued(rows, rel, fingerprint, depth);
    kept_rows(rows, rel);
    if kept.contains(x) {
        let k = choose|k: int| 0 <= k < kept.len() && kept[k] == x;
        assert(after[k] == x);
    }
    if after.contains(x) {
        let k = choose|k: int| 0 <= k < after.len() && after[k] == x;
        if k < kept.len() {
            assert(kept[k] == x);
        }
    }
}

/// Whose turn it is, is never open.
pub proof fn law_one_turn(rows: Seq<RowView>, i: int, j: int)
    requires
        is_next(rows, i),
        is_next(rows, j),
    ensures
        i == j,
{
    assert(waits(rows[i]) && waits(rows[j]));
}

/// Every turn that is taken leaves one less waiting.
pub proof fn law_turns_run_out(rows: Seq<RowView>, i: int, progress: Progress)
    requires
        is_next(rows, i),
        progress != Progress::Pending,
    ensures
        waiting_count(rows.update(i, (RowView { progress, ..rows[i] }))) + 1 == waiting_count(
            rows,
        ),
        waiting_count(rows.remove(i)) + 1 == waiting_count(rows),
{
    one_less(rows, i, progress);
}

proof fn one_less(rows: Seq<RowView>, i: int, progress: Progress)
    requires
        0 <= i < rows.len(),
        waits(rows[i]),
        progress != Progress::Pending,
    ensures
        waiting_count(rows.update(i, (RowView { progress, ..rows[i] }))) + 1 == waiting_count(
            rows,
        ),
        waiting_count(rows.remove(i)) + 1 == waiting_count(rows),
    decreases rows.len(),
{
    let row = RowView { progress, ..rows[i] };
    let front = rows.drop_last();
    if i == rows.len() - 1 {
        assert(rows.update(i, row).drop_last() =~= front);
        assert(rows.remove(i) =~= front);
    } else {
        one_less(front, i, progress);
        assert(rows.update(i, row).drop_last() =~= front.update(i, row));
        assert(rows.remove(i).drop_last() =~= front.remove(i));
        assert(rows.update(i, row).last() == rows.last());
        assert(rows.remove(i).last() == rows.last());
    }
}

/// The archive whose turn it is waits, no other that waits is less deeply nested, and of
/// those equally deep it was queued first.
pub proof fn law_the_least_nested_comes_first(rows: Seq<RowView>, i: int, j: int)
    requires
        is_next(rows, i),
        0 <= j < rows.len(),
        rows[j].progress == Progress::Pending,
    ensures
        0 <= i < rows.len(),
        rows[i].progress == Progress::Pending,
        rows[i].depth <= rows[j].depth,
        rows[i].depth == rows[j].depth ==> i <= j,
{
    assert(waits(rows[j]));
}

/// A new archive waits behind all others, as deep as it was found; one that was queued
/// before, and is not what still waits under its path, is not queued again.
pub proof fn law_new_archives_wait(
    rows: Seq<RowView>,
    rel: Seq<char>,
    fingerprint: Seq<char>,
    depth: u32,
)
    ensures
        ({
            let after = enqueued(rows, rel, fingerprint, depth);
            let known = exists|i: int|
                0 <= i < rows.len() && (#[trigger] rows[i]).fingerprint == fingerprint && !(
                rows[i].progress == Progress::Pending && rows[i].rel == rel);
            &&& !known ==> after.len() > 0 && after.last() == (RowView {
                rel,
                fingerprint,
                depth,
                progress: Progress::Pending,
            })
            &&& known ==> forall|x: RowView| #[trigger] after.contains(x) ==> rows.contains(x)
        }),
{
    kept_rows(rows, rel);
    let kept = without_waiting(rows, rel);
    if knows(kept, fingerprint) {
        let k = choose|k: int| 0 <= k < kept.len() && (#[trigger] kept[k]).fingerprint == fingerprint;
        assert(kept.contains(kept[k]));
        assert(rows.contains(kept[k]));
        let i = choose|i: int| 0 <= i < rows.len() && rows[i] == kept[k];
        assert(rows[i].fingerprint == fingerprint);
    }
    if exists|i: int|
        0 <= i < rows.len() && (#[trigger] rows[i]).fingerprint == fingerprint && !(
        rows[i].progress == Progress::Pending && rows[i].rel == rel) {
        let i = choose|i: int|
            0 <= i < rows.len() && (#[trigger] rows[i]).fingerprint == fingerprint && !(
            rows[i].progress == Progress::Pending && rows[i].rel == rel);
        assert(rows.contains(rows[i]));
        assert(kept.contains(rows[i]));
        let k = choose|k: int| 0 <= k < kept.len() && kept[k] == rows[i];
        assert(kept[k].fingerprint == fingerprint);
    }
}

/// As many wait as rows say so.
pub proof fn law_the_waiting_are_counted(rows: Seq<RowView>, row: RowView)
    ensures
        waiting_count(Seq::empty()) == 0,
        waiting_count(rows.push(row)) == waiting_count(rows) + if row.progress == Progress::Pending {
            1nat
        } else {
            0
        },
        waiting_count(rows) == 0 <==> forall|i: int|
            0 <= i < rows.len() ==> (#[trigger] rows[i]).progress != Progress::Pending,
    decreases rows.len(),
{
    assert(rows.push(row).drop_last() =~= rows);
    if rows.len() > 0 {
        law_the_waiting_are_counted(rows.drop_last(), row);
        if forall|i: int| 0 <= i < rows.len() ==> (#[trigger] rows[i]).progress != Progress::Pending {
            assert forall|i: int| 0 <= i < rows.drop_last().len() implies (
            #[trigger] rows.drop_last()[i]).progress != Progress::Pending by {
                assert(rows[i].progress != Progress::Pending);
            }
            assert(rows[rows.len() - 1].progress != Progress::Pending);
        }
        if waiting_count(rows) == 0 {
            assert forall|i: int| 0 <= i < rows.len() implies (#[trigger] rows[i]).progress
                != Progress::Pending by {
                if i < rows.len() - 1 {
                    assert(rows.drop_last()[i].progress != Progress::Pending);
                }
            }
        }
    }
}

} // verus!
