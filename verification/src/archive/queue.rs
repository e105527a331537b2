//! The queue of archives: which one is taken, what is recorded of it, and what
//! happens to the archive in the end.

use crate::archive::listing::QUARANTINE_DIR_NAME;
use crate::fsutil::Snapshot;
use crate::model::Summary;
use crate::text;
use vstd::prelude::*;

verus! {

/// What tells whether a queued archive is still the one that was queued.
pub open spec fn fingerprint_text(rel: Seq<char>, s: Snapshot) -> Seq<char> {
    rel + ":"@ + text::decimal(s.size as nat) + ":"@ + text::signed(s.modified_ns as int) + ":"@
        + s.identity@
}

/// The fingerprint of an archive: its path, size, time and identity.
pub fn fingerprint(rel: &str, s: &Snapshot) -> (r: String)
    ensures
        r@ == fingerprint_text(rel@, *s),
{
    let mut r = rel.to_owned();
    r.append(":");
    r.append(text::number(s.size).as_str());
    r.append(":");
    r.append(text::signed_number(s.modified_ns).as_str());
    r.append(":");
    r.append(s.identity.as_str());
    r
}

/// What is done with the next archive of the queue.
#[derive(Clone, Copy, Debug, PartialEq, Eq, Structural)]
pub enum RowVerdict {
    /// Its path is not valid; it is taken off the queue.
    Drop,
    /// It is no longer what was queued; it is taken off and logged.
    Superseded,
    /// It is nested too deeply.
    TooDeep,
    /// It is extracted.
    Run,
}

/// What is done with the next archive of the queue.
pub open spec fn row_verdict(
    path_valid: bool,
    current: Option<Seq<char>>,
    stored: Seq<char>,
    depth: u32,
    max_depth: u32,
) -> RowVerdict {
    if !path_valid {
        RowVerdict::Drop
    } else if current != Some(stored) {
        RowVerdict::Superseded
    } else if depth >= max_depth {
        RowVerdict::TooDeep
    } else {
        RowVerdict::Run
    }
}

/// Decides what is done with the next archive of the queue. `current` is its
/// fingerprint now, if the file can be read.
pub fn judge_row(
    path_valid: bool,
    current: Option<&str>,
    stored: &str,
    depth: u32,
    max_depth: u32,
) -> (r: RowVerdict)
    ensures
        r == row_verdict(
            path_valid,
            match current {
                Some(s) => Some(s@),
                None => None,
            },
            stored@,
            depth,
            max_depth,
        ),
{
    if !path_valid {
        return RowVerdict::Drop;
    }
    match current {
        Some(s) => if !text::same(s, stored) {
            return RowVerdict::Superseded;
        },
        None => return RowVerdict::Superseded,
    }
    if depth >= max_depth {
        RowVerdict::TooDeep
    } else {
        RowVerdict::Run
    }
}

/// How the extraction of an archive ended.
#[derive(Clone, Copy, Debug, PartialEq, Eq, Structural)]
pub enum PackageResult {
    /// Every member is in its place; the archive was deleted.
    Complete,
    /// Some member is not; the archive stays.
    Incomplete,
    /// It failed, because the user cancelled, because the task has to stop, or
    /// because of the archive.
    Failed { cancelled: bool, stops: bool },
}

/// What is recorded of an archive.
#[derive(Clone, Copy, Debug, PartialEq, Eq, Structural)]
pub enum RowState {
    Done,
    Failed,
}

/// How the queue goes on.
#[derive(Clone, Copy, Debug, PartialEq, Eq, Structural)]
pub enum QueueNext {
    /// With the next archive.
    Continue,
    /// With the next one, after this one was moved aside.
    Quarantine,
    /// Not at all: the user cancelled.
    Cancelled,
    /// Not at all: the task has to stop.
    Stop,
}

/// What an archive leaves behind in the records.
#[derive(Clone, Copy, Debug, PartialEq, Eq, Structural)]
pub struct Settlement {
    pub summary: Summary,
    pub state: RowState,
    pub next: QueueNext,
}

/// The counters have room for one more archive.
pub open spec fn has_room(s: Summary) -> bool {
    &&& s.archives_ok < u64::MAX
    &&& s.archives_failed < u64::MAX
    &&& s.errors < u64::MAX
}

/// What an archive leaves behind in the records.
pub open spec fn settled(s: Summary, result: PackageResult) -> Settlement {
    match result {
        PackageResult::Complete => Settlement {
            summary: Summary { archives_ok: (s.archives_ok + 1) as u64, ..s },
            state: RowState::Done,
            next: QueueNext::Continue,
        },
        PackageResult::Incomplete => Settlement {
            summary: Summary { archives_failed: (s.archives_failed + 1) as u64, ..s },
            state: RowState::Done,
            next: QueueNext::Quarantine,
        },
        PackageResult::Failed { cancelled, stops } => if cancelled {
            Settlement { summary: s, state: RowState::Failed, next: QueueNext::Cancelled }
        } else if stops {
            Settlement {
                summary: Summary { errors: (s.errors + 1) as u64, ..s },
                state: RowState::Failed,
                next: QueueNext::Stop,
            }
        } else {
            Settlement {
                summary: Summary {
                    archives_failed: (s.archives_failed + 1) as u64,
                    errors: (s.errors + 1) as u64,
                    ..s
                },
                state: RowState::Failed,
                next: QueueNext::Quarantine,
            }
        },
    }
}

/// Settles an archive: counts it, and decides how the queue goes on.
pub fn settle(s: Summary, result: PackageResult) -> (r: Settlement)
    requires
        has_room(s),
    ensures
        r == settled(s, result),
{
    let mut summary = s;
    match result {
        PackageResult::Complete => {
            summary.archives_ok = summary.archives_ok + 1;
            Settlement { summary, state: RowState::Done, next: QueueNext::Continue }
        },
        PackageResult::Incomplete => {
            summary.archives_failed = summary.archives_failed + 1;
            Settlement { summary, state: RowState::Done, next: QueueNext::Quarantine }
        },
        PackageResult::Failed { cancelled, stops } => {
            if cancelled {
                return Settlement {
                    summary,
                    state: RowState::Failed,
                    next: QueueNext::Cancelled,
                };
            }
            summary.errors = summary.errors + 1;
            if stops {
                return Settlement { summary, state: RowState::Failed, next: QueueNext::Stop };
            }
            summary.archives_failed = summary.archives_failed + 1;
            Settlement { summary, state: RowState::Failed, next: QueueNext::Quarantine }
        },
    }
}

/// Records an archive that is no longer what was queued: it is skipped, and
/// counts neither as extracted nor as failed.
pub fn settle_superseded(s: Summary) -> (r: Summary)
    requires
        s.skipped < u64::MAX,
    ensures
        r == (Summary { skipped: (s.skipped + 1) as u64, ..s }),
{
    Summary { skipped: s.skipped + 1, ..s }
}

/// The records after some archives, and whether the queue still goes on.
pub open spec fn settled_all(s: Summary, results: Seq<PackageResult>) -> (Summary, bool)
    decreases results.len(),
{
    if results.len() == 0 {
        (s, true)
    } else {
        let (before, open) = settled_all(s, results.drop_last());
        if !open {
            (before, false)
        } else {
            let after = settled(before, results.last());
            (after.summary, after.next == QueueNext::Continue || after.next == QueueNext::Quarantine)
        }
    }
}

/// Runs through the results of the queue until it stops.
pub fn extract_queued(s: Summary, results: &Vec<PackageResult>) -> (r: (Summary, bool))
    requires
        s.archives_ok + results@.len() <= u64::MAX,
        s.archives_failed + results@.len() <= u64::MAX,
        s.errors + results@.len() <= u64::MAX,
    ensures
        r == settled_all(s, results@),
{
    let mut summary = s;
    let mut i: usize = 0;
    assert(results@.take(0) =~= Seq::<PackageResult>::empty());
    while i < results.len()
        invariant
            i <= results@.len(),
            settled_all(s, results@.take(i as int)) == (summary, true),
            summary.archives_ok + results@.len() - i <= u64::MAX,
            summary.archives_failed + results@.len() - i <= u64::MAX,
            summary.errors + results@.len() - i <= u64::MAX,
        decreases results.len() - i,
    {
        assert(results@.take(i + 1).drop_last() =~= results@.take(i as int));
        let after = settle(summary, results[i]);
        match after.next {
            QueueNext::Continue | QueueNext::Quarantine => {
                summary = after.summary;
            },
            QueueNext::Cancelled | QueueNext::Stop => {
                proof {
                    closed_stays(s, results@, i + 1);
                }
                return (after.summary, false);
            },
        }
        i = i + 1;
    }
    assert(results@.take(i as int) =~= results@);
    (summary, true)
}

/// A queue that has stopped stays as it is.
proof fn closed_stays(s: Summary, results: Seq<PackageResult>, n: int)
    requires
        0 <= n <= results.len(),
        !settled_all(s, results.take(n)).1,
    ensures
        settled_all(s, results) == settled_all(s, results.take(n)),
    decreases results.len(),
{
    if n < results.len() {
        assert(results.drop_last().take(n) =~= results.take(n));
        closed_stays(s, results.drop_last(), n);
    } else {
        assert(results.take(n) =~= results);
    }
}

/// While the queue goes on, every archive counts once: as extracted or as not.
pub proof fn law_every_archive_counts(s: Summary, results: Seq<PackageResult>)
    requires
        settled_all(s, results).1,
        s.archives_ok + results.len() <= u64::MAX,
        s.archives_failed + results.len() <= u64::MAX,
    ensures
        ({
            let after = settled_all(s, results).0;
            &&& after.archives_ok + after.archives_failed == s.archives_ok + s.archives_failed
                + results.len()
            &&& after.archives_ok <= s.archives_ok + results.len()
            &&& after.archives_failed <= s.archives_failed + results.len()
        }),
    decreases results.len(),
{
    if results.len() > 0 {
        law_every_archive_counts(s, results.drop_last());
    }
}

/// An archive is moved aside exactly when it was not extracted completely, the
/// user did not cancel and the task need not stop.
pub proof fn law_quarantine_only_bad(s: Summary, result: PackageResult)
    ensures
        settled(s, result).next == QueueNext::Quarantine <==> match result {
            PackageResult::Complete => false,
            PackageResult::Incomplete => true,
            PackageResult::Failed { cancelled, stops } => !cancelled && !stops,
        },
{
}

/// What comes next while the volumes of an extracted archive are deleted.
#[derive(Clone, Copy, Debug, PartialEq, Eq, Structural)]
pub enum SourceStep {
    /// Delete the volume with this number.
    Delete(usize),
    /// All are deleted.
    Done,
    /// The user cancelled; nothing more is deleted.
    Cancelled,
    /// A volume could not be deleted; that many were not tried.
    Stop(usize),
}

/// How one volume ended.
#[derive(Clone, Copy, Debug, PartialEq, Eq, Structural)]
pub enum VolumeEnd {
    Deleted,
    Failed,
    /// The user had cancelled before it was tried.
    Cancelled,
}

/// What comes next after some volumes have ended.
pub open spec fn source_step(count: usize, ends: Seq<VolumeEnd>) -> SourceStep
    decreases ends.len(),
{
    if ends.len() == 0 {
        if count == 0 {
            SourceStep::Done
        } else {
            SourceStep::Delete(0)
        }
    } else {
        match source_step(count, ends.drop_last()) {
            SourceStep::Delete(k) => match ends.last() {
                VolumeEnd::Deleted => if k + 1 < count {
                    SourceStep::Delete((k + 1) as usize)
                } else {
                    SourceStep::Done
                },
                VolumeEnd::Failed => SourceStep::Stop((count - k - 1) as usize),
                VolumeEnd::Cancelled => SourceStep::Cancelled,
            },
            ended => ended,
        }
    }
}

/// Deletes the volumes of a completely extracted archive, one after the other:
/// what comes next after the volumes so far have ended.
pub fn delete_successful_source(count: usize, ends: &Vec<VolumeEnd>) -> (r: SourceStep)
    ensures
        r == source_step(count, ends@),
{
    let mut step = if count == 0 {
        SourceStep::Done
    } else {
        SourceStep::Delete(0)
    };
    let mut i: usize = 0;
    assert(ends@.take(0) =~= Seq::<VolumeEnd>::empty());
    while i < ends.len()
        invariant
            i <= ends@.len(),
            step == source_step(count, ends@.take(i as int)),
            step matches SourceStep::Delete(k) ==> k < count,
        decreases ends.len() - i,
    {
        assert(ends@.take(i + 1).drop_last() =~= ends@.take(i as int));
        if let SourceStep::Delete(k) = step {
            step = match ends[i] {
                VolumeEnd::Deleted => if k + 1 < count {
                    SourceStep::Delete(k + 1)
                } else {
                    SourceStep::Done
                },
                VolumeEnd::Failed => SourceStep::Stop(count - k - 1),
                VolumeEnd::Cancelled => SourceStep::Cancelled,
            };
        }
        i = i + 1;
    }
    assert(ends@.take(i as int) =~= ends@);
    step
}

/// Once a volume was cancelled or failed, no further one is deleted.
pub proof fn law_no_delete_after_end(count: usize, ends: Seq<VolumeEnd>, more: VolumeEnd)
    requires
        !(source_step(count, ends) is Delete),
    ensures
        source_step(count, ends.push(more)) == source_step(count, ends),
{
    assert(ends.push(more).drop_last() =~= ends);
}

/// Where an archive goes that was not extracted completely.
#[derive(Debug)]
pub enum Quarantine {
    /// It is gone; nothing to do.
    Gone,
    /// To this path, which is free.
    To(String),
    /// To a free name near this path, which is taken.
    Near(String),
}

/// The path in the directory for such archives.
pub open spec fn quarantine_path(name: Seq<char>) -> Seq<char> {
    QUARANTINE_DIR_NAME@ + "/"@ + name
}

/// Where an archive or volume goes that was not extracted completely.
pub fn quarantine(name: &str, exists: bool, taken: bool) -> (r: Quarantine)
    ensures
        match r {
            Quarantine::Gone => !exists,
            Quarantine::To(p) => exists && !taken && p@ == quarantine_path(name@),
            Quarantine::Near(p) => exists && taken && p@ == quarantine_path(name@),
        },
{
    if !exists {
        return Quarantine::Gone;
    }
    let mut p = QUARANTINE_DIR_NAME.to_owned();
    p.append("/");
    p.append(name);
    if taken {
        Quarantine::Near(p)
    } else {
        Quarantine::To(p)
    }
}

/// Whether a staging directory was left behind by a run that ended early: it
/// names itself as its owner, and it is old enough. `age` is missing where it
/// could not be found out.
pub fn is_orphan_staging(is_dir: bool, owner: &str, name: &str, age: Option<u64>, max_age: u64) -> (r:
    bool)
    ensures
        r == (is_dir && owner@ == name@ && (age matches Some(a) && a >= max_age)),
{
    if !is_dir || !text::same(owner, name) {
        return false;
    }
    match age {
        Some(a) => a >= max_age,
        None => false,
    }
}

/// An archive whose path is valid and that is still the one that was queued runs exactly
/// where it is not nested too deeply: one that lies in the chosen directory itself always
/// does, and what runs at one depth runs at every smaller one and under every larger limit.
pub proof fn law_unchanged_archives_run(
    fingerprint: Seq<char>,
    depth: u32,
    max_depth: u32,
    less: u32,
    more: u32,
)
    requires
        less <= depth,
        max_depth <= more,
    ensures
        row_verdict(true, Some(fingerprint), fingerprint, depth, max_depth) == RowVerdict::Run
            <==> depth < max_depth,
        row_verdict(true, Some(fingerprint), fingerprint, depth, max_depth) == RowVerdict::TooDeep
            <==> depth >= max_depth,
        max_depth >= 1 ==> row_verdict(true, Some(fingerprint), fingerprint, 0, max_depth)
            == RowVerdict::Run,
        row_verdict(true, Some(fingerprint), fingerprint, depth, max_depth) == RowVerdict::Run
            ==> row_verdict(true, Some(fingerprint), fingerprint, less, more) == RowVerdict::Run,
{
}

/// An archive is extracted only where its path is valid and it is still what was queued;
/// one that changed or is gone is passed over at any depth.
pub proof fn law_changed_archives_do_not_run(
    path_valid: bool,
    current: Option<Seq<char>>,
    stored: Seq<char>,
    depth: u32,
    max_depth: u32,
)
    ensures
        ({
            let verdict = row_verdict(path_valid, current, stored, depth, max_depth);
            &&& verdict == RowVerdict::Drop <==> !path_valid
            &&& verdict == RowVerdict::Superseded <==> path_valid && !(current matches Some(now)
                && now == stored)
            &&& verdict == RowVerdict::Run ==> path_valid && current == Some(stored) && depth
                < max_depth
        }),
{
}

/// The place of the first colon of a text that starts with other characters.
proof fn heads_agree(a: Seq<char>, b: Seq<char>, x: Seq<char>, y: Seq<char>)
    requires
        !a.contains(':'),
        !b.contains(':'),
        a + seq![':'] + x == b + seq![':'] + y,
    ensures
        a == b,
        x == y,
{
    let s = a + seq![':'] + x;
    let t = b + seq![':'] + y;
    assert(s[a.len() as int] == ':');
    assert(t[b.len() as int] == ':');
    if a.len() < b.len() {
        assert(t[a.len() as int] == b[a.len() as int]);
        assert(false);
    }
    if b.len() < a.len() {
        assert(s[b.len() as int] == a[b.len() as int]);
        assert(false);
    }
    assert(a =~= s.take(a.len() as int));
    assert(b =~= t.take(b.len() as int));
    assert(x =~= s.skip(a.len() as int + 1));
    assert(y =~= t.skip(b.len() as int + 1));
}

proof fn no_colon(n: int)
    ensures
        !text::signed(n).contains(':'),
{
    let m = if n < 0 {
        (-n) as nat
    } else {
        n as nat
    };
    text::law_decimal_value(m);
    let s = text::signed(n);
    let d = text::decimal(m);
    if s.contains(':') {
        let i = choose|i: int| 0 <= i < s.len() && s[i] == ':';
        if n < 0 {
            if i > 0 {
                assert(s[i] == d[i - 1]);
                assert(text::is_digit(d[i - 1]));
            }
        } else {
            assert(text::is_digit(d[i]));
        }
    }
}

proof fn signed_tells_apart(a: int, b: int)
    requires
        text::signed(a) == text::signed(b),
    ensures
        a == b,
{
    let m = if a < 0 {
        (-a) as nat
    } else {
        a as nat
    };
    let n = if b < 0 {
        (-b) as nat
    } else {
        b as nat
    };
    text::law_decimal_value(m);
    text::law_decimal_value(n);
    let s = text::signed(a);
    let t = text::signed(b);
    assert(text::is_digit(text::decimal(m)[0]));
    assert(text::is_digit(text::decimal(n)[0]));
    if a < 0 {
        assert(s[0] == '-');
        assert(b < 0);
        assert(s.skip(1) =~= text::decimal(m));
        assert(t.skip(1) =~= text::decimal(n));
    } else if b < 0 {
        assert(t[0] == '-');
    }
}

/// An archive that changed has another fingerprint: two of one path are equal only where
/// size, time and identity are.
pub proof fn law_changes_change_the_fingerprint(rel: Seq<char>, a: Snapshot, b: Snapshot)
    requires
        fingerprint_text(rel, a) == fingerprint_text(rel, b),
    ensures
        a.size == b.size,
        a.modified_ns == b.modified_ns,
        a.identity@ == b.identity@,
{
    reveal_strlit(":");
    let colon = ":"@;
    assert(colon =~= seq![':']);
    let ta = text::signed(a.modified_ns as int);
    let tb = text::signed(b.modified_ns as int);
    let da = text::decimal(a.size as nat);
    let db = text::decimal(b.size as nat);
    let xa = ta + colon + a.identity@;
    let xb = tb + colon + b.identity@;
    let ya = da + colon + xa;
    let yb = db + colon + xb;
    let fa = fingerprint_text(rel, a);
    let fb = fingerprint_text(rel, b);
    assert(fa =~= rel + colon + ya);
    assert(fb =~= rel + colon + yb);
    assert(ya =~= fa.skip(rel.len() as int + 1));
    assert(yb =~= fb.skip(rel.len() as int + 1));
    no_colon(a.size as int);
    no_colon(b.size as int);
    no_colon(a.modified_ns as int);
    no_colon(b.modified_ns as int);
    heads_agree(da, db, xa, xb);
    heads_agree(ta, tb, a.identity@, b.identity@);
    signed_tells_apart(a.size as int, b.size as int);
    signed_tells_apart(a.modified_ns as int, b.modified_ns as int);
}

/// What an archive counts as: extracted only where it is complete, failed where it is not,
/// with an error where something went wrong; a cancelled one counts as nothing. It is
/// recorded as failed exactly where it failed.
pub proof fn law_archives_are_counted(s: Summary, result: PackageResult)
    requires
        has_room(s),
    ensures
        ({
            let after = settled(s, result);
            let cancelled = result matches PackageResult::Failed { cancelled, stops } && cancelled;
            let stopped = result matches PackageResult::Failed { cancelled, stops } && !cancelled
                && stops;
            &&& after.summary.archives_ok == s.archives_ok + if result == PackageResult::Complete {
                1int
            } else {
                0
            }
            &&& after.summary.archives_failed == s.archives_failed + if result
                == PackageResult::Complete || cancelled || stopped {
                0int
            } else {
                1
            }
            &&& after.summary.errors == s.errors + if result is Failed && !cancelled {
                1int
            } else {
                0
            }
            &&& after.summary == (Summary {
                archives_ok: after.summary.archives_ok,
                archives_failed: after.summary.archives_failed,
                errors: after.summary.errors,
                ..s
            })
            &&& after.state == RowState::Failed <==> result is Failed
            &&& after.next == QueueNext::Cancelled <==> cancelled
            &&& after.next == QueueNext::Stop <==> stopped
            &&& after.next == QueueNext::Continue <==> result == PackageResult::Complete
        }),
{
}

/// The volumes of an extracted archive are deleted in order, each once: as long as every
/// one was deleted the next one follows, and all of them are gone at the end.
pub proof fn law_volumes_are_deleted_in_order(count: usize, ends: Seq<VolumeEnd>)
    requires
        forall|i: int| 0 <= i < ends.len() ==> ends[i] == VolumeEnd::Deleted,
        ends.len() <= count,
    ensures
        source_step(count, ends) == (if ends.len() < count {
            SourceStep::Delete(ends.len() as usize)
        } else {
            SourceStep::Done
        }),
    decreases ends.len(),
{
    if ends.len() > 0 {
        law_volumes_are_deleted_in_order(count, ends.drop_last());
    }
}

/// At the first volume that is not deleted the deletion ends: a cancellation says so, a
/// failure tells how many volumes were not tried. Only where all volumes were deleted it
/// is done.
pub proof fn law_the_first_volume_that_stays_ends_it(
    count: usize,
    ends: Seq<VolumeEnd>,
    last: VolumeEnd,
)
    requires
        forall|i: int| 0 <= i < ends.len() ==> ends[i] == VolumeEnd::Deleted,
        ends.len() < count,
        last != VolumeEnd::Deleted,
    ensures
        source_step(count, ends.push(last)) == (if last == VolumeEnd::Cancelled {
            SourceStep::Cancelled
        } else {
            SourceStep::Stop((count - ends.len() - 1) as usize)
        }),
{
    law_volumes_are_deleted_in_order(count, ends);
    assert(ends.push(last).drop_last() =~= ends);
}

/// Archives that were not extracted completely all go to the one directory for them, and
/// keep their names.
pub proof fn law_quarantine_keeps_the_name(a: Seq<char>, b: Seq<char>)
    ensures
        text::has_prefix(quarantine_path(a), "解压失败/"@),
        text::has_suffix(quarantine_path(a), a),
        quarantine_path(a) == quarantine_path(b) ==> a == b,
        quarantine_path(a).len() == "解压失败/"@.len() + a.len(),
{
    reveal_strlit("解压失败/");
    reveal_strlit("解压失败");
    reveal_strlit("/");
    let head = QUARANTINE_DIR_NAME@ + "/"@;
    assert(head =~= "解压失败/"@);
    let p = quarantine_path(a);
    assert(p =~= head + a);
    assert(p.subrange(0, head.len() as int) =~= head);
    assert(p.subrange(p.len() - a.len(), p.len() as int) =~= a);
    let q = quarantine_path(b);
    if p == q {
        assert(a =~= p.skip(head.len() as int));
        assert(b =~= q.skip(head.len() as int));
    }
}

} // verus!
