//! One archive from its listing to its end: whether it is extracted at all,
//! where each member goes, and when the archive itself may be deleted.

use crate::archive::boundaries;
use crate::archive::listing;
use crate::archive::volumes;
use crate::fsutil;
use crate::fsutil::PathError;
use crate::rules;
use crate::text;
use vstd::prelude::*;

verus! {

/// What the members of an archive are measured against while they are placed.
#[derive(Clone, Copy, Debug, PartialEq, Eq, Structural)]
pub struct MergeLimits {
    /// The bytes that the listing declares.
    pub total: u64,
    /// The listing gives the size of every member.
    pub sizes_complete: bool,
    /// Most bytes of an archive whose sizes are not known.
    pub cap: Option<u64>,
    /// Most bytes of a file whose size was not known.
    pub max_file: Option<u64>,
}

/// What is known of an archive before it is extracted.
#[derive(Clone, Copy, Debug, PartialEq, Eq, Structural)]
pub struct ArchiveFacts {
    pub total: u64,
    pub sizes_complete: bool,
    /// Its root directly holds `.git`.
    pub git_at_root: bool,
    /// The bytes of all its volumes.
    pub packed: u64,
    pub max_ratio: u64,
    /// Bytes that stay free on the disk.
    pub reserve: u64,
    /// Bytes that are free, if that could be found out.
    pub free: Option<u64>,
    pub max_file_gib: u64,
    pub max_unpacked_gib: u64,
}

/// The limits in bytes fit in a `u64`.
pub open spec fn facts_fit(f: ArchiveFacts) -> bool {
    f.max_file_gib < 0x4_0000_0000 && f.max_unpacked_gib < 0x4_0000_0000
}

/// Whether an archive is extracted.
#[derive(Clone, Copy, Debug, PartialEq, Eq, Structural)]
pub enum Admission {
    /// Its root holds `.git`: nothing of it is extracted and it stays.
    SkipGitRoot,
    /// It expands more than allowed.
    RatioExceeded,
    /// The free space could not be found out; the task stops.
    SpaceUnknown,
    /// The space that it needs cannot be computed.
    CapacityOverflow,
    /// There is not enough space; the task stops.
    NotEnoughSpace,
    /// It is extracted.
    Extract(MergeLimits),
}

/// The limits for an archive that is extracted.
pub open spec fn merge_limits(f: ArchiveFacts) -> MergeLimits {
    MergeLimits {
        total: f.total,
        sizes_complete: f.sizes_complete,
        cap: if f.sizes_complete || f.max_unpacked_gib == 0 {
            None
        } else {
            Some((f.max_unpacked_gib * 0x4000_0000) as u64)
        },
        max_file: if f.sizes_complete || f.max_file_gib == 0 {
            None
        } else {
            Some((f.max_file_gib * 0x4000_0000) as u64)
        },
    }
}

/// Whether an archive is extracted: a git project at its root comes first, then
/// the ratio, then the space.
pub open spec fn admission(f: ArchiveFacts) -> Admission {
    if f.git_at_root {
        Admission::SkipGitRoot
    } else if f.max_ratio > 0 && f.sizes_complete && f.total > f.packed * f.max_ratio {
        Admission::RatioExceeded
    } else {
        match f.free {
            None => Admission::SpaceUnknown,
            Some(free) => if f.sizes_complete && f.total + f.reserve > u64::MAX {
                Admission::CapacityOverflow
            } else if f.sizes_complete && f.total + f.reserve > free {
                Admission::NotEnoughSpace
            } else {
                Admission::Extract(merge_limits(f))
            },
        }
    }
}

/// `total > packed * ratio`, where the product is too large for nothing else to
/// be larger.
fn exceeds(total: u64, packed: u64, ratio: u64) -> (r: bool)
    ensures
        r == (total > packed * ratio),
{
    match packed.checked_mul(ratio) {
        Some(limit) => total > limit,
        None => false,
    }
}

/// Decides whether an archive is extracted.
pub fn admission_of(f: &ArchiveFacts) -> (r: Admission)
    requires
        facts_fit(*f),
    ensures
        r == admission(*f),
{
    if f.git_at_root {
        return Admission::SkipGitRoot;
    }
    if f.max_ratio > 0 && f.sizes_complete && exceeds(f.total, f.packed, f.max_ratio) {
        return Admission::RatioExceeded;
    }
    let free: u64 = match f.free {
        Some(free) => free,
        None => return Admission::SpaceUnknown,
    };
    if f.sizes_complete {
        match f.total.checked_add(f.reserve) {
            None => return Admission::CapacityOverflow,
            Some(need) => if need > free {
                return Admission::NotEnoughSpace;
            },
        }
    }
    let cap: Option<u64> = if f.sizes_complete || f.max_unpacked_gib == 0 {
        None
    } else {
        Some(f.max_unpacked_gib * 0x4000_0000)
    };
    let max_file: Option<u64> = if f.sizes_complete || f.max_file_gib == 0 {
        None
    } else {
        Some(f.max_file_gib * 0x4000_0000)
    };
    Admission::Extract(
        MergeLimits { total: f.total, sizes_complete: f.sizes_complete, cap, max_file },
    )
}

/// An archive with known sizes is only extracted when afterwards the reserve is
/// still free.
pub proof fn law_reserve_stays_free(f: ArchiveFacts)
    requires
        admission(f) is Extract,
        f.sizes_complete,
    ensures
        f.free matches Some(free) && free - f.total >= f.reserve,
        f.max_ratio > 0 ==> f.total <= f.packed * f.max_ratio,
{
}

/// Why the engine is stopped while it writes.
#[derive(Clone, Copy, Debug, PartialEq, Eq, Structural)]
pub enum SpaceStop {
    /// The free space could not be found out; the task stops.
    Unknown,
    /// Less than the reserve is free; the task stops.
    BelowReserve,
    /// An archive of unknown size has written more than allowed.
    StreamTooLarge,
}

/// The first reason to stop the engine.
pub open spec fn space_stop(
    free: Option<u64>,
    reserve: u64,
    cap: Option<u64>,
    staged: Seq<u64>,
) -> Option<SpaceStop> {
    match free {
        None => Some(SpaceStop::Unknown),
        Some(bytes) => if bytes < reserve {
            Some(SpaceStop::BelowReserve)
        } else {
            match cap {
                Some(limit) => if volumes::capped_sum(staged) > limit {
                    Some(SpaceStop::StreamTooLarge)
                } else {
                    None
                },
                None => None,
            }
        },
    }
}

/// Whether the engine goes on writing: `staged` holds the sizes of the files
/// that it has written so far.
pub fn watch_space(free: Option<u64>, reserve: u64, cap: Option<u64>, staged: &Vec<u64>) -> (r:
    Option<SpaceStop>)
    ensures
        r == space_stop(free, reserve, cap, staged@),
{
    let bytes: u64 = match free {
        Some(bytes) => bytes,
        None => return Some(SpaceStop::Unknown),
    };
    if bytes < reserve {
        return Some(SpaceStop::BelowReserve);
    }
    match cap {
        Some(limit) => if volumes::total_size(staged) > limit {
            Some(SpaceStop::StreamTooLarge)
        } else {
            None
        },
        None => None,
    }
}

/// What an entry of the staging directory is.
#[derive(Clone, Copy, Debug, PartialEq, Eq, Structural)]
pub enum EntryShape {
    Link,
    Directory,
    File,
    Other,
}

/// What happens while the members of an archive are placed.
#[derive(Clone, Copy, Debug, PartialEq, Eq, Structural)]
pub enum MemberEvent {
    /// The next entry of the staging directory, with its size.
    Seen(EntryShape, u64),
    /// The file is not placed.
    Skipped,
    /// The file is in its place; the flag tells whether it can be seen there.
    Placed(bool),
    /// All files have been seen.
    FilesDone,
    /// The directory is not created.
    DirSkipped,
    /// The directory is in its place.
    DirReady,
}

/// Why the members of an archive are no longer placed.
#[derive(Clone, Copy, Debug, PartialEq, Eq, Structural)]
pub enum MergeError {
    /// A link appeared among the members.
    Link,
    /// Something appeared that is neither file nor directory.
    NotRegular,
    /// The bytes can no longer be counted.
    ByteOverflow,
    /// More bytes than the listing declares.
    MoreThanDeclared,
    /// More bytes than an archive of unknown size may have.
    StreamTooLarge,
    /// A file larger than allowed.
    FileTooLarge,
    /// Other bytes in the end than the listing declares.
    SizeMismatch,
    /// The members can no longer be counted.
    CountOverflow,
    /// Something was told that does not come now.
    OutOfTurn,
}

/// What is told next of the members.
#[derive(Clone, Copy, Debug, PartialEq, Eq, Structural)]
pub enum MergePhase {
    /// The next entry, or that all have been seen.
    Files,
    /// What became of the file that was seen.
    Member,
    /// What became of a directory.
    Directories,
}

/// How far the members of an archive have been placed.
#[derive(Clone, Copy, Debug, PartialEq, Eq, Structural)]
pub struct MergeState {
    pub limits: MergeLimits,
    /// Bytes of the files seen so far.
    pub expanded: u64,
    /// Files placed so far.
    pub extracted: u64,
    /// Members left out so far.
    pub skipped: u64,
    /// Every member so far is in its place and can be seen there.
    pub complete: bool,
    pub phase: MergePhase,
}

/// Before the first member.
pub open spec fn merge_start(limits: MergeLimits) -> MergeState {
    MergeState {
        limits,
        expanded: 0,
        extracted: 0,
        skipped: 0,
        complete: true,
        phase: MergePhase::Files,
    }
}

/// When an event comes.
pub open spec fn phase_of(event: MemberEvent) -> MergePhase {
    match event {
        MemberEvent::Seen(_, _) => MergePhase::Files,
        MemberEvent::Skipped => MergePhase::Member,
        MemberEvent::Placed(_) => MergePhase::Member,
        MemberEvent::FilesDone => MergePhase::Files,
        MemberEvent::DirSkipped => MergePhase::Directories,
        MemberEvent::DirReady => MergePhase::Directories,
    }
}

/// The next entry of the staging directory.
pub open spec fn after_seen(s: MergeState, shape: EntryShape, size: u64) -> Result<
    MergeState,
    MergeError,
> {
    match shape {
        EntryShape::Link => Err(MergeError::Link),
        EntryShape::Directory => Ok(s),
        EntryShape::Other => Err(MergeError::NotRegular),
        EntryShape::File => {
            let expanded = s.expanded + size;
            if expanded > u64::MAX {
                Err(MergeError::ByteOverflow)
            } else if s.limits.sizes_complete && expanded > s.limits.total {
                Err(MergeError::MoreThanDeclared)
            } else if s.limits.cap matches Some(cap) && expanded > cap {
                Err(MergeError::StreamTooLarge)
            } else if s.limits.max_file matches Some(most) && size > most {
                Err(MergeError::FileTooLarge)
            } else {
                Ok(MergeState { expanded: expanded as u64, phase: MergePhase::Member, ..s })
            }
        },
    }
}

/// A member left out.
pub open spec fn after_skip(s: MergeState, phase: MergePhase) -> Result<MergeState, MergeError> {
    if s.skipped == u64::MAX {
        Err(MergeError::CountOverflow)
    } else {
        Ok(MergeState { skipped: (s.skipped + 1) as u64, complete: false, phase, ..s })
    }
}

/// What an event makes of the state.
pub open spec fn after_event(s: MergeState, event: MemberEvent) -> Result<
    MergeState,
    MergeError,
> {
    if s.phase != phase_of(event) {
        Err(MergeError::OutOfTurn)
    } else {
        match event {
            MemberEvent::Seen(shape, size) => after_seen(s, shape, size),
            MemberEvent::Skipped => after_skip(s, MergePhase::Files),
            MemberEvent::Placed(visible) => if s.extracted == u64::MAX {
                Err(MergeError::CountOverflow)
            } else {
                Ok(
                    MergeState {
                        extracted: (s.extracted + 1) as u64,
                        complete: s.complete && visible,
                        phase: MergePhase::Files,
                        ..s
                    },
                )
            },
            MemberEvent::FilesDone => if s.limits.sizes_complete && s.expanded != s.limits.total {
                Err(MergeError::SizeMismatch)
            } else {
                Ok(MergeState { phase: MergePhase::Directories, ..s })
            },
            MemberEvent::DirSkipped => after_skip(s, MergePhase::Directories),
            MemberEvent::DirReady => Ok(s),
        }
    }
}

/// The state after some events.
pub open spec fn after_events(s: MergeState, events: Seq<MemberEvent>) -> Result<
    MergeState,
    MergeError,
>
    decreases events.len(),
{
    if events.len() == 0 {
        Ok(s)
    } else {
        match after_events(s, events.drop_last()) {
            Err(e) => Err(e),
            Ok(before) => after_event(before, events.last()),
        }
    }
}

impl MergeState {
    /// Before the first member.
    pub fn new(limits: MergeLimits) -> (r: MergeState)
        ensures
            r == merge_start(limits),
    {
        MergeState {
            limits,
            expanded: 0,
            extracted: 0,
            skipped: 0,
            complete: true,
            phase: MergePhase::Files,
        }
    }

    /// Takes an event; after an error the state stays as it was.
    pub fn take(&mut self, event: MemberEvent) -> (r: Result<(), MergeError>)
        ensures
            match r {
                Ok(()) => after_event(*old(self), event) == Ok::<MergeState, MergeError>(
                    *final(self),
                ),
                Err(e) => after_event(*old(self), event) == Err::<MergeState, MergeError>(e)
                    && *final(self) == *old(self),
            },
    {
        let turn = match event {
            MemberEvent::Seen(_, _) | MemberEvent::FilesDone => MergePhase::Files,
            MemberEvent::Skipped | MemberEvent::Placed(_) => MergePhase::Member,
            MemberEvent::DirSkipped | MemberEvent::DirReady => MergePhase::Directories,
        };
        if self.phase != turn {
            return Err(MergeError::OutOfTurn);
        }
        match event {
            MemberEvent::Seen(shape, size) => {
                match shape {
                    EntryShape::Link => return Err(MergeError::Link),
                    EntryShape::Directory => return Ok(()),
                    EntryShape::Other => return Err(MergeError::NotRegular),
                    EntryShape::File => {},
                }
                let expanded: u64 = match self.expanded.checked_add(size) {
                    Some(sum) => sum,
                    None => return Err(MergeError::ByteOverflow),
                };
                if self.limits.sizes_complete && expanded > self.limits.total {
                    return Err(MergeError::MoreThanDeclared);
                }
                if let Some(cap) = self.limits.cap {
                    if expanded > cap {
                        return Err(MergeError::StreamTooLarge);
                    }
                }
                if let Some(most) = self.limits.max_file {
                    if size > most {
                        return Err(MergeError::FileTooLarge);
                    }
                }
                self.expanded = expanded;
                self.phase = MergePhase::Member;
                Ok(())
            },
            MemberEvent::Skipped | MemberEvent::DirSkipped => {
                if self.skipped == u64::MAX {
                    return Err(MergeError::CountOverflow);
                }
                self.skipped = self.skipped + 1;
                self.complete = false;
                if turn == MergePhase::Member {
                    self.phase = MergePhase::Files;
                }
                Ok(())
            },
            MemberEvent::Placed(visible) => {
                if self.extracted == u64::MAX {
                    return Err(MergeError::CountOverflow);
                }
                self.extracted = self.extracted + 1;
                self.complete = self.complete && visible;
                self.phase = MergePhase::Files;
                Ok(())
            },
            MemberEvent::FilesDone => {
                if self.limits.sizes_complete && self.expanded != self.limits.total {
                    return Err(MergeError::SizeMismatch);
                }
                self.phase = MergePhase::Directories;
                Ok(())
            },
            MemberEvent::DirReady => Ok(()),
        }
    }

    /// How placing the members ended: whether nothing is missing, once all files have
    /// been seen and each was handled; before that, it failed.
    pub fn stage_end(&self) -> (r: StageEnd)
        ensures
            r == placed_end(*self),
    {
        if self.phase == MergePhase::Directories {
            StageEnd::Placed(self.complete)
        } else {
            StageEnd::Failed(false)
        }
    }
}

/// How placing the members ended.
pub open spec fn placed_end(s: MergeState) -> StageEnd {
    if s.phase == MergePhase::Directories {
        StageEnd::Placed(s.complete)
    } else {
        StageEnd::Failed(false)
    }
}

/// Runs through the events of one archive.
pub fn merge_all(limits: MergeLimits, events: &Vec<MemberEvent>) -> (r: Result<
    MergeState,
    MergeError,
>)
    ensures
        r == after_events(merge_start(limits), events@),
{
    let mut s = MergeState::new(limits);
    let mut i: usize = 0;
    assert(events@.take(0) =~= Seq::<MemberEvent>::empty());
    while i < events.len()
        invariant
            i <= events@.len(),
            after_events(merge_start(limits), events@.take(i as int)) == Ok::<
                MergeState,
                MergeError,
            >(s),
        decreases events.len() - i,
    {
        assert(events@.take(i + 1).drop_last() =~= events@.take(i as int));
        if let Err(e) = s.take(events[i]) {
            proof {
                merge_error_stays(merge_start(limits), events@, i + 1, e);
            }
            return Err(e);
        }
        i = i + 1;
    }
    assert(events@.take(i as int) =~= events@);
    Ok(s)
}

/// An error among the first events stays.
proof fn merge_error_stays(s: MergeState, events: Seq<MemberEvent>, n: int, e: MergeError)
    requires
        0 <= n <= events.len(),
        after_events(s, events.take(n)) == Err::<MergeState, MergeError>(e),
    ensures
        after_events(s, events) == Err::<MergeState, MergeError>(e),
    decreases events.len(),
{
    if n < events.len() {
        assert(events.drop_last().take(n) =~= events.take(n));
        merge_error_stays(s, events.drop_last(), n, e);
    } else {
        assert(events.take(n) =~= events);
    }
}

/// The event leaves something out or puts it where it cannot be seen.
pub open spec fn loses(event: MemberEvent) -> bool {
    match event {
        MemberEvent::Skipped => true,
        MemberEvent::DirSkipped => true,
        MemberEvent::Placed(visible) => !visible,
        _ => false,
    }
}

/// Nothing is missing exactly when no member was left out or placed where it cannot be
/// seen.
pub proof fn law_delete_only_complete(s: MergeState, events: Seq<MemberEvent>)
    requires
        s.complete,
        after_events(s, events) is Ok,
    ensures
        after_events(s, events)->Ok_0.complete <==> forall|i: int|
            0 <= i < events.len() ==> !loses(#[trigger] events[i]),
    decreases events.len(),
{
    if events.len() > 0 {
        law_delete_only_complete(s, events.drop_last());
        let head = events.drop_last();
        let before = after_events(s, head)->Ok_0;
        if after_events(s, events)->Ok_0.complete {
            assert(before.complete);
            assert forall|i: int| 0 <= i < events.len() implies !loses(#[trigger] events[i]) by {
                if i < head.len() {
                    assert(!loses(head[i]));
                }
            }
        } else {
            if before.complete {
                assert(loses(events[events.len() - 1]));
            } else {
                let i = choose|i: int| 0 <= i < head.len() && loses(#[trigger] head[i]);
                assert(loses(events[i]));
            }
        }
    }
}

/// How many of the events are as the predicate says.
pub open spec fn count_events(events: Seq<MemberEvent>, f: spec_fn(MemberEvent) -> bool) -> nat
    decreases events.len(),
{
    if events.len() == 0 {
        0
    } else {
        count_events(events.drop_last(), f) + if f(events.last()) {
            1nat
        } else {
            0nat
        }
    }
}

/// The bytes of the files that were seen.
pub open spec fn bytes_seen(events: Seq<MemberEvent>) -> nat
    decreases events.len(),
{
    if events.len() == 0 {
        0
    } else {
        bytes_seen(events.drop_last()) + match events.last() {
            MemberEvent::Seen(EntryShape::File, size) => size as nat,
            _ => 0nat,
        }
    }
}

/// The counts of an archive are those of its events, and no more bytes were
/// seen than allowed.
pub proof fn law_merge_counts(limits: MergeLimits, events: Seq<MemberEvent>)
    requires
        after_events(merge_start(limits), events) is Ok,
    ensures
        ({
            let s = after_events(merge_start(limits), events)->Ok_0;
            &&& s.limits == limits
            &&& s.expanded == bytes_seen(events)
            &&& s.extracted == count_events(events, |e: MemberEvent| e is Placed)
            &&& s.skipped == count_events(
                events,
                |e: MemberEvent| e is Skipped || e is DirSkipped,
            )
            &&& limits.sizes_complete ==> s.expanded <= limits.total
            &&& limits.cap matches Some(cap) ==> s.expanded <= cap
        }),
    decreases events.len(),
{
    if events.len() > 0 {
        law_merge_counts(limits, events.drop_last());
    }
}

/// The last component of a relative path.
pub open spec fn name_in(rel: Seq<char>) -> Seq<char> {
    match text::last_pos(rel, '/') {
        Some(i) => rel.skip(i + 1),
        None => rel,
    }
}

/// The last component of a relative path.
pub fn file_name(rel: &str) -> (r: String)
    ensures
        r@ == name_in(rel@),
{
    let v = text::chars_of(rel);
    assert(v@.take(v@.len() as int) =~= v@);
    match text::last_index(&v, v.len(), '/') {
        Some(i) => {
            let r = text::string_of(&v, i + 1, v.len());
            assert(r@ =~= rel@.skip(i + 1));
            r
        },
        None => rel.to_owned(),
    }
}

/// Two paths name the same file: Windows does not tell upper and lower case
/// apart.
pub open spec fn same_file(a: Seq<char>, b: Seq<char>, windows: bool) -> bool {
    if windows {
        text::folded(a) == text::folded(b)
    } else {
        a == b
    }
}

/// Where a member of an archive goes: beside the archive, at its own path. One
/// that would replace the archive itself goes to the archive's name without its
/// compression suffix, or else needs a name of its own, which the flag tells.
pub open spec fn destination(archive: Seq<char>, member: Seq<char>, windows: bool) -> Result<
    (Seq<char>, bool),
    PathError,
> {
    match fsutil::safe_path(member) {
        Err(e) => Err(e),
        Ok(m) => {
            let base = boundaries::parent_of(archive);
            let dest = fsutil::below(base, m);
            if !same_file(dest, archive, windows) {
                Ok((dest, false))
            } else {
                match listing::unpacked_name(name_in(archive)) {
                    Some(stem) => Ok((fsutil::below(base, stem), false)),
                    None => Ok((dest, true)),
                }
            }
        },
    }
}

/// Where a member of an archive goes; the flag tells that the path is taken by
/// the archive itself and a free name has to be found.
pub fn destination_of(archive: &str, member: &str, windows: bool) -> (r: Result<
    (String, bool),
    PathError,
>)
    ensures
        match r {
            Ok(d) => destination(archive@, member@, windows) == Ok::<(Seq<char>, bool), PathError>(
                (d.0@, d.1),
            ),
            Err(e) => destination(archive@, member@, windows) == Err::<
                (Seq<char>, bool),
                PathError,
            >(e),
        },
{
    let m = match fsutil::safe_relative(member) {
        Ok(m) => m,
        Err(e) => return Err(e),
    };
    let base = boundaries::parent_rel(archive);
    let dest = fsutil::join_below(base.as_str(), m.as_str());
    let collides = if windows {
        text::same(
            text::fold(dest.as_str()).as_str(),
            text::fold(archive).as_str(),
        )
    } else {
        text::same(dest.as_str(), archive)
    };
    if !collides {
        return Ok((dest, false));
    }
    match listing::stream_stem(file_name(archive).as_str()) {
        Some(stem) => Ok((fsutil::join_below(base.as_str(), stem.as_str()), false)),
        None => Ok((dest, true)),
    }
}

/// A stream suffix is not empty, and one that stands for a tar file does not
/// end in `r`.
proof fn suffix_shape(name: Seq<char>)
    ensures
        listing::stream_suffix(name) matches Some(suffix) ==> suffix.len() > 0
            && text::has_suffix(name, suffix) && (listing::is_tar_suffix(suffix) ==> name.last()
            != 'r'),
{
    reveal_strlit(".tgz");
    reveal_strlit(".tbz2");
    reveal_strlit(".tbz");
    reveal_strlit(".txz");
    reveal_strlit(".tzst");
    reveal_strlit(".bz2");
    reveal_strlit(".gz");
    reveal_strlit(".xz");
    reveal_strlit(".lzma");
    reveal_strlit(".zst");
    reveal_strlit(".lz4");
    reveal_strlit(".lz");
    reveal_strlit(".z");
    reveal_strlit(".br");
    if let Some(suffix) = listing::stream_suffix(name) {
        let tail = name.subrange(name.len() - suffix.len(), name.len() as int);
        assert(tail == suffix);
        assert(tail.last() == name.last());
    }
}

/// The last position of a slash lies in the path.
proof fn slash_in(s: Seq<char>)
    ensures
        text::last_pos(s, '/') matches Some(i) ==> 0 <= i < s.len(),
    decreases s.len(),
{
    if s.len() > 0 && s.last() != '/' {
        slash_in(s.drop_last());
    }
}

/// A member that needs no name of its own never goes to the path of its archive.
pub proof fn law_archive_not_replaced(archive: Seq<char>, member: Seq<char>, windows: bool)
    requires
        name_in(archive).len() > 0,
        destination(archive, member, windows) matches Ok(d) && !d.1,
    ensures
        destination(archive, member, windows)->Ok_0.0 != archive,
{
    let m = fsutil::safe_path(member)->Ok_0;
    let base = boundaries::parent_of(archive);
    if same_file(fsutil::below(base, m), archive, windows) {
        let name = name_in(archive);
        let stem = listing::unpacked_name(name)->0;
        let lower = text::lower(name);
        let suffix = listing::stream_suffix(lower)->0;
        suffix_shape(lower);
        slash_in(archive);
        assert(name.last() == archive.last());
        assert(lower.last() == text::lower_char(name.last()));
        reveal_strlit(".tar");
        if listing::is_tar_suffix(suffix) && !text::has_suffix(
            text::lower(name.subrange(0, name.len() - suffix.len())),
            ".tar"@,
        ) {
            assert(stem.last() == 'r');
            assert(fsutil::below(base, stem).last() == 'r');
            assert(text::lower_char('r') == 'r');
        } else {
            assert(stem.len() < name.len());
            assert(fsutil::below(base, stem).len() < archive.len());
        }
    }
}

/// A component of the path starts with a dot.
pub open spec fn has_dotted(rel: Seq<char>) -> bool {
    exists|i: int|
        0 <= i < text::split_on(rel, '/').len() && text::has_prefix(
            #[trigger] text::split_on(rel, '/')[i],
            "."@,
        )
}

/// Whether a component of the path starts with a dot, which hides it except on
/// Windows.
pub fn has_hidden_component(rel: &str) -> (r: bool)
    ensures
        r == has_dotted(rel@),
{
    let parts = text::split(rel, '/');
    let ghost all = text::texts(parts@);
    let mut i: usize = 0;
    while i < parts.len()
        invariant
            all == text::texts(parts@),
            all == text::split_on(rel@, '/'),
            i <= parts@.len(),
            forall|k: int| 0 <= k < i ==> !text::has_prefix(#[trigger] all[k], "."@),
        decreases parts.len() - i,
    {
        assert(all[i as int] == parts@[i as int]@);
        if text::starts_with(parts[i].as_str(), ".") {
            return true;
        }
        i = i + 1;
    }
    false
}

/// The attributes of a directory or file on the way to the chosen directory.
#[derive(Clone, Copy, Debug, PartialEq, Eq, Structural)]
pub struct LevelFlags {
    pub hidden: bool,
    pub system: bool,
}

/// A level is left out by the user's choice.
pub open spec fn level_left_out(f: LevelFlags, include_hidden: bool, include_system: bool) -> bool {
    (!include_hidden && f.hidden) || (!include_system && f.system)
}

/// Whether a place is left out: it lies in a git project, or it or a directory
/// above it, below the chosen one, is hidden or a system directory and those
/// are not asked for.
pub fn excluded_destination(
    in_git_project: bool,
    levels: &Vec<LevelFlags>,
    include_hidden: bool,
    include_system: bool,
) -> (r: bool)
    ensures
        r == (in_git_project || exists|i: int|
            0 <= i < levels@.len() && level_left_out(
                #[trigger] levels@[i],
                include_hidden,
                include_system,
            )),
{
    if in_git_project {
        return true;
    }
    let mut i: usize = 0;
    while i < levels.len()
        invariant
            i <= levels@.len(),
            forall|k: int|
                0 <= k < i ==> !level_left_out(
                    #[trigger] levels@[k],
                    include_hidden,
                    include_system,
                ),
        decreases levels.len() - i,
    {
        let f = levels[i];
        if (!include_hidden && f.hidden) || (!include_system && f.system) {
            assert(level_left_out(levels@[i as int], include_hidden, include_system));
            return true;
        }
        i = i + 1;
    }
    false
}

/// Why a member is not placed.
#[derive(Clone, Copy, Debug, PartialEq, Eq, Structural)]
pub enum SkipReason {
    /// It lies in a directory of the archive that holds `.git`.
    GitTree,
    /// Its place is left out by the user or lies in a git project.
    Excluded,
    /// Its path holds a dotted component and hidden files are not asked for.
    Dotted,
}

/// The log text of a member that is not placed.
pub open spec fn skip_text(reason: SkipReason) -> Seq<char> {
    match reason {
        SkipReason::GitTree => "成员位于含 .git 的目录树内：H-06 整树排除，不解压；原包保留"@,
        SkipReason::Excluded => "目标命中排除/隐藏/系统文件或 Git 目录树设置；原包保留"@,
        SkipReason::Dotted => "路径含点开头（隐藏）组件，未开启包含隐藏文件；原包保留"@,
    }
}

impl SkipReason {
    /// The log text of a member that is not placed.
    pub fn message(self) -> (r: &'static str)
        ensures
            r@ == skip_text(self),
    {
        match self {
            SkipReason::GitTree => "成员位于含 .git 的目录树内：H-06 整树排除，不解压；原包保留",
            SkipReason::Excluded => "目标命中排除/隐藏/系统文件或 Git 目录树设置；原包保留",
            SkipReason::Dotted => "路径含点开头（隐藏）组件，未开启包含隐藏文件；原包保留",
        }
    }

    /// The log text of a directory of the archive that is not made.
    pub fn directory_message(self, member: &str) -> (r: String)
        ensures
            r@ == directory_skip_text(self, member@),
    {
        let mut r = String::new();
        match self {
            SkipReason::GitTree => {
                r.append("空目录位于含 .git 的目录树内（");
                r.append(member);
                r.append("）：H-06 整树排除，不创建；原包保留");
                assert(r@ =~= directory_skip_text(self, member@));
            },
            _ => {
                r.append(self.message());
                assert(r@ =~= skip_text(self));
            },
        }
        r
    }
}

/// The log text of a directory of the archive that is not made.
pub open spec fn directory_skip_text(reason: SkipReason, member: Seq<char>) -> Seq<char> {
    match reason {
        SkipReason::GitTree => "空目录位于含 .git 的目录树内（"@ + member
            + "）：H-06 整树排除，不创建；原包保留"@,
        _ => skip_text(reason),
    }
}

/// Why a member is not placed, if it is not.
pub open spec fn skip_reason(
    git_subtrees: Set<Seq<char>>,
    member: Seq<char>,
    exclusions: Set<Seq<char>>,
    dest: Seq<char>,
    dest_left_out: bool,
    dots_hide: bool,
) -> Option<SkipReason> {
    if listing::is_inside(git_subtrees, member) {
        Some(SkipReason::GitTree)
    } else if rules::names_above(exclusions, dest) || dest_left_out {
        Some(SkipReason::Excluded)
    } else if dots_hide && has_dotted(dest) {
        Some(SkipReason::Dotted)
    } else {
        None
    }
}

/// Decides whether a member, a file or a directory, is placed. `dots_hide` says
/// that a dotted name is hidden and hidden files are not asked for.
pub fn judge_member(
    git_subtrees: &Vec<String>,
    member: &str,
    exclusions: &rules::Exclusions,
    dest: &str,
    dest_left_out: bool,
    dots_hide: bool,
) -> (r: Option<SkipReason>)
    ensures
        r == skip_reason(
            listing::text_set(git_subtrees@),
            member@,
            exclusions@,
            dest@,
            dest_left_out,
            dots_hide,
        ),
{
    if listing::inside_git_subtree(git_subtrees, member) {
        return Some(SkipReason::GitTree);
    }
    if exclusions.member_excluded(dest) || dest_left_out {
        return Some(SkipReason::Excluded);
    }
    if dots_hide && has_hidden_component(dest) {
        return Some(SkipReason::Dotted);
    }
    None
}

/// A step of putting a member into its place.
#[derive(Clone, Copy, Debug, PartialEq, Eq, Structural)]
pub enum PlaceStep {
    /// Rename it to its place, replacing nothing.
    TryTarget,
    /// Rename it to a free name beside its place; the flag tells that its place
    /// was taken in between.
    TryUnique(bool),
    /// It is in its place.
    Placed,
    /// It is beside its place.
    Renamed,
    /// Both names failed; the first error counts.
    FailedFirst,
    /// The place was taken and the other name failed.
    FailedUnique,
}

/// The first step: what exists is never replaced.
pub fn merge_start_step(target_exists: bool) -> (r: PlaceStep)
    ensures
        r == if target_exists {
            PlaceStep::TryUnique(false)
        } else {
            PlaceStep::TryTarget
        },
{
    if target_exists {
        PlaceStep::TryUnique(false)
    } else {
        PlaceStep::TryTarget
    }
}

/// The step that follows a rename that worked or did not.
pub open spec fn after_place(step: PlaceStep, worked: bool) -> PlaceStep {
    match step {
        PlaceStep::TryTarget => if worked {
            PlaceStep::Placed
        } else {
            PlaceStep::TryUnique(true)
        },
        PlaceStep::TryUnique(again) => if worked {
            PlaceStep::Renamed
        } else if again {
            PlaceStep::FailedFirst
        } else {
            PlaceStep::FailedUnique
        },
        ended => ended,
    }
}

/// Puts a member into its place, step by step: at its own name where that is
/// free, else at a free name; nothing that exists is replaced or deleted.
pub fn merge_extracted(step: PlaceStep, worked: bool) -> (r: PlaceStep)
    ensures
        r == after_place(step, worked),
{
    match step {
        PlaceStep::TryTarget => if worked {
            PlaceStep::Placed
        } else {
            PlaceStep::TryUnique(true)
        },
        PlaceStep::TryUnique(again) => if worked {
            PlaceStep::Renamed
        } else if again {
            PlaceStep::FailedFirst
        } else {
            PlaceStep::FailedUnique
        },
        ended => ended,
    }
}

/// What is logged of a placed member.
#[derive(Clone, Copy, Debug, PartialEq, Eq, Structural)]
pub enum PlacedNote {
    Plain,
    Renamed,
    /// It cannot be seen there, so the archive stays.
    Invisible,
}

/// The log text of a placed member.
pub open spec fn placed_text(note: PlacedNote) -> Seq<char> {
    match note {
        PlacedNote::Plain => "解压并同卷移动"@,
        PlacedNote::Renamed => "目标已存在：既有文件保持不动，新成员按 H-07 改名落盘（保留扩展名）"@,
        PlacedNote::Invisible => "成员已解压，但隐藏/系统属性剥离失败（将成扫描不可见的影子文件）；原包强制保留"@,
    }
}

impl PlacedNote {
    /// The log text of a placed member.
    pub fn message(self) -> (r: &'static str)
        ensures
            r@ == placed_text(self),
    {
        match self {
            PlacedNote::Plain => "解压并同卷移动",
            PlacedNote::Renamed => "目标已存在：既有文件保持不动，新成员按 H-07 改名落盘（保留扩展名）",
            PlacedNote::Invisible => "成员已解压，但隐藏/系统属性剥离失败（将成扫描不可见的影子文件）；原包强制保留",
        }
    }
}

/// What is logged of a placed member, and whether it is queued as an archive of
/// its own.
pub fn placed_note(renamed: bool, visible: bool, is_archive: bool, in_git_project: bool) -> (r: (
    PlacedNote,
    bool,
))
    ensures
        r.0 == if !visible {
            PlacedNote::Invisible
        } else if renamed {
            PlacedNote::Renamed
        } else {
            PlacedNote::Plain
        },
        r.1 == (is_archive && !in_git_project),
{
    let note = if !visible {
        PlacedNote::Invisible
    } else if renamed {
        PlacedNote::Renamed
    } else {
        PlacedNote::Plain
    };
    (note, is_archive && !in_git_project)
}

/// What stands where a directory of the archive goes.
#[derive(Clone, Copy, Debug, PartialEq, Eq, Structural)]
pub enum DirPlace {
    Directory,
    SomethingElse,
    /// Nothing, and it could be created.
    Created,
    /// Nothing to be seen, but the name is taken and nothing could be created.
    Taken,
    /// Nothing, and it could not be created.
    Failed,
}

/// The event of a directory that is not left out; `None` where the archive
/// fails.
pub fn directory_event(place: DirPlace) -> (r: Option<MemberEvent>)
    ensures
        r == match place {
            DirPlace::Directory => Some(MemberEvent::DirReady),
            DirPlace::Created => Some(MemberEvent::DirReady),
            DirPlace::SomethingElse => Some(MemberEvent::DirSkipped),
            DirPlace::Taken => Some(MemberEvent::DirSkipped),
            DirPlace::Failed => None,
        },
{
    match place {
        DirPlace::Directory => Some(MemberEvent::DirReady),
        DirPlace::Created => Some(MemberEvent::DirReady),
        DirPlace::SomethingElse => Some(MemberEvent::DirSkipped),
        DirPlace::Taken => Some(MemberEvent::DirSkipped),
        DirPlace::Failed => None,
    }
}

/// The log text of a directory whose place is taken; `why` tells why it could not be made.
pub open spec fn directory_note_text(place: DirPlace, why: Seq<char>) -> Option<Seq<char>> {
    match place {
        DirPlace::SomethingElse => Some("空目录名与目标处已有文件冲突；原包保留"@),
        DirPlace::Taken => Some(
            "空目录名被既有文件/链接占用且无法创建："@ + why + "；原包保留"@,
        ),
        _ => None,
    }
}

/// The log text of a directory whose place is taken, if there is one.
pub fn directory_note(place: DirPlace, why: &str) -> (r: Option<String>)
    ensures
        match r {
            Some(s) => directory_note_text(place, why@) == Some(s@),
            None => directory_note_text(place, why@) is None,
        },
{
    let mut r = String::new();
    match place {
        DirPlace::SomethingElse => {
            r.append("空目录名与目标处已有文件冲突；原包保留");
            assert(r@ =~= "空目录名与目标处已有文件冲突；原包保留"@);
            Some(r)
        },
        DirPlace::Taken => {
            r.append("空目录名被既有文件/链接占用且无法创建：");
            r.append(why);
            r.append("；原包保留");
            assert(r@ =~= "空目录名被既有文件/链接占用且无法创建："@ + why@ + "；原包保留"@);
            Some(r)
        },
        _ => None,
    }
}

/// The attributes that a placed file gets: hidden and system are taken away
/// where files with them would not be seen.
pub open spec fn visible_attributes(attrs: u32, include_hidden: bool, include_system: bool) -> u32 {
    let a = if include_hidden {
        attrs
    } else {
        attrs & !2u32
    };
    if include_system {
        a
    } else {
        a & !4u32
    }
}

/// The attributes that a placed file gets.
pub fn normalize_new_member_attributes(attrs: u32, include_hidden: bool, include_system: bool) -> (r:
    u32)
    ensures
        r == visible_attributes(attrs, include_hidden, include_system),
        !include_hidden ==> r & 2 == 0,
        !include_system ==> r & 4 == 0,
{
    assert((attrs & !2u32) & 2 == 0) by (bit_vector);
    assert((attrs & !4u32) & 4 == 0) by (bit_vector);
    assert(((attrs & !2u32) & !4u32) & 2 == 0) by (bit_vector);
    assert(((attrs & !2u32) & !4u32) & 4 == 0) by (bit_vector);
    let mut a: u32 = attrs;
    if !include_hidden {
        a = a & !2u32;
    }
    if !include_system {
        a = a & !4u32;
    }
    a
}

/// A path in UTF-16 starts with the given units.
pub open spec fn starts_units(path: Seq<u16>, head: Seq<u16>) -> bool {
    head.len() <= path.len() && path.take(head.len() as int) == head
}

/// The form of a Windows path that may have any length, with the zero that ends
/// it: the verbatim prefix in front, that for shares where it is one, unless it is
/// there already.
pub open spec fn verbatim(path: Seq<u16>) -> Seq<u16> {
    let body = if starts_units(path, seq![0x5cu16, 0x5c, 0x3f, 0x5c]) {
        path
    } else if starts_units(path, seq![0x5cu16, 0x5c]) {
        seq![0x5cu16, 0x5c, 0x3f, 0x5c, 0x55, 0x4e, 0x43, 0x5c] + path.skip(2)
    } else {
        seq![0x5cu16, 0x5c, 0x3f, 0x5c] + path
    };
    body.push(0)
}

/// The form of a Windows path that may have any length.
pub fn verbatim_path(path: &Vec<u16>) -> (r: Vec<u16>)
    ensures
        r@ == verbatim(path@),
{
    let n: usize = path.len();
    let unc = n >= 2 && path[0] == 0x5c && path[1] == 0x5c;
    let done = unc && n >= 4 && path[2] == 0x3f && path[3] == 0x5c;
    let ghost long = seq![0x5cu16, 0x5c, 0x3f, 0x5c];
    let ghost short = seq![0x5cu16, 0x5c];
    proof {
        if done {
            assert(path@.take(4) =~= long);
        } else if starts_units(path@, long) {
            assert(path@.take(4)[0] == 0x5c && path@.take(4)[1] == 0x5c && path@.take(4)[2] == 0x3f
                && path@.take(4)[3] == 0x5c);
        }
        if unc {
            assert(path@.take(2) =~= short);
        } else if starts_units(path@, short) {
            assert(path@.take(2)[0] == 0x5c && path@.take(2)[1] == 0x5c);
        }
    }
    let mut r: Vec<u16> = Vec::new();
    let mut from: usize = 0;
    if done {
    } else if unc {
        r = vec![0x5c, 0x5c, 0x3f, 0x5c, 0x55, 0x4e, 0x43, 0x5c];
        from = 2;
    } else {
        r = vec![0x5c, 0x5c, 0x3f, 0x5c];
    }
    let ghost head = r@;
    let mut i: usize = from;
    assert(head + path@.subrange(from as int, i as int) =~= head);
    while i < n
        invariant
            n == path@.len(),
            from <= i <= n,
            r@ == head + path@.subrange(from as int, i as int),
        decreases n - i,
    {
        r.push(path[i]);
        i = i + 1;
        assert(r@ =~= head + path@.subrange(from as int, i as int));
    }
    r.push(0);
    assert(path@.subrange(from as int, n as int) =~= path@.skip(from as int));
    assert(path@.skip(0) =~= path@);
    assert(Seq::<u16>::empty() + path@ =~= path@);
    r
}

/// The volumes have to be confirmed by the engine: there are several candidates,
/// or the naming is that of RAR.
pub open spec fn needs_confirmation(names: nat, scheme: volumes::VolumeScheme) -> bool {
    names > 1 || scheme == volumes::VolumeScheme::RarParts || scheme
        == volumes::VolumeScheme::OldRar
}

/// A stage in the extraction of one archive.
#[derive(Clone, Copy, Debug, PartialEq, Eq, Structural)]
pub enum Stage {
    /// Find the candidates for volumes by their names.
    FindVolumes,
    /// Let the engine confirm the volumes.
    ConfirmVolumes,
    /// Read the listing and decide on it.
    List,
    /// Let the engine write the members to the staging directory.
    Unpack,
    /// Put the files into their places.
    PlaceFiles,
    /// Create the directories.
    PlaceDirectories,
    /// Delete the archive and its volumes.
    DeleteSource,
    /// It has ended.
    Ended(Ending),
}

/// How the extraction of one archive ended.
#[derive(Clone, Copy, Debug, PartialEq, Eq, Structural)]
pub enum Ending {
    Complete,
    Incomplete,
    /// It failed; the flag tells that the task has to stop.
    Failed(bool),
}

/// How a stage ended.
#[derive(Clone, Copy, Debug, PartialEq, Eq, Structural)]
pub enum StageEnd {
    /// The candidates: how many, and how they are named.
    Found(usize, volumes::VolumeScheme),
    /// The stage is done.
    Done,
    /// The listing is read and this is decided.
    Decided(Admission),
    /// All directories are handled; the flag tells that no member is missing.
    Placed(bool),
    /// It failed; the flag tells that the task has to stop.
    Failed(bool),
}

/// The stage that follows. A stage that ends in a way that it cannot end fails.
pub open spec fn next_stage(stage: Stage, end: StageEnd) -> Stage {
    match (stage, end) {
        (Stage::Ended(e), _) => Stage::Ended(e),
        (_, StageEnd::Failed(stops)) => Stage::Ended(Ending::Failed(stops)),
        (Stage::FindVolumes, StageEnd::Found(n, scheme)) => if needs_confirmation(
            n as nat,
            scheme,
        ) {
            Stage::ConfirmVolumes
        } else {
            Stage::List
        },
        (Stage::ConfirmVolumes, StageEnd::Done) => Stage::List,
        (Stage::List, StageEnd::Decided(a)) => match a {
            Admission::SkipGitRoot => Stage::Ended(Ending::Incomplete),
            Admission::RatioExceeded => Stage::Ended(Ending::Failed(false)),
            Admission::SpaceUnknown => Stage::Ended(Ending::Failed(true)),
            Admission::CapacityOverflow => Stage::Ended(Ending::Failed(false)),
            Admission::NotEnoughSpace => Stage::Ended(Ending::Failed(true)),
            Admission::Extract(_) => Stage::Unpack,
        },
        (Stage::Unpack, StageEnd::Done) => Stage::PlaceFiles,
        (Stage::PlaceFiles, StageEnd::Done) => Stage::PlaceDirectories,
        (Stage::PlaceDirectories, StageEnd::Placed(complete)) => if complete {
            Stage::DeleteSource
        } else {
            Stage::Ended(Ending::Incomplete)
        },
        (Stage::DeleteSource, StageEnd::Done) => Stage::Ended(Ending::Complete),
        _ => Stage::Ended(Ending::Failed(false)),
    }
}

/// The stage of an archive after some of its stages have ended.
pub open spec fn stage_after(ends: Seq<StageEnd>) -> Stage
    decreases ends.len(),
{
    if ends.len() == 0 {
        Stage::FindVolumes
    } else {
        next_stage(stage_after(ends.drop_last()), ends.last())
    }
}

/// Extracts one archive, stage by stage: the stage that follows.
pub fn extract_one(stage: Stage, end: StageEnd) -> (r: Stage)
    ensures
        r == next_stage(stage, end),
{
    match (stage, end) {
        (Stage::Ended(e), _) => Stage::Ended(e),
        (_, StageEnd::Failed(stops)) => Stage::Ended(Ending::Failed(stops)),
        (Stage::FindVolumes, StageEnd::Found(n, scheme)) => {
            let rar = match scheme {
                volumes::VolumeScheme::RarParts => true,
                volumes::VolumeScheme::OldRar => true,
                _ => false,
            };
            if n > 1 || rar {
                Stage::ConfirmVolumes
            } else {
                Stage::List
            }
        },
        (Stage::ConfirmVolumes, StageEnd::Done) => Stage::List,
        (Stage::List, StageEnd::Decided(a)) => match a {
            Admission::SkipGitRoot => Stage::Ended(Ending::Incomplete),
            Admission::RatioExceeded => Stage::Ended(Ending::Failed(false)),
            Admission::SpaceUnknown => Stage::Ended(Ending::Failed(true)),
            Admission::CapacityOverflow => Stage::Ended(Ending::Failed(false)),
            Admission::NotEnoughSpace => Stage::Ended(Ending::Failed(true)),
            Admission::Extract(_) => Stage::Unpack,
        },
        (Stage::Unpack, StageEnd::Done) => Stage::PlaceFiles,
        (Stage::PlaceFiles, StageEnd::Done) => Stage::PlaceDirectories,
        (Stage::PlaceDirectories, StageEnd::Placed(complete)) => if complete {
            Stage::DeleteSource
        } else {
            Stage::Ended(Ending::Incomplete)
        },
        (Stage::DeleteSource, StageEnd::Done) => Stage::Ended(Ending::Complete),
        _ => Stage::Ended(Ending::Failed(false)),
    }
}

/// The archive is deleted only after the engine wrote all members, every file
/// was handled and every directory too, with nothing missing.
pub proof fn law_delete_is_last(ends: Seq<StageEnd>)
    requires
        stage_after(ends) == Stage::DeleteSource,
    ensures
        ends.len() >= 3,
        ends.last() == StageEnd::Placed(true),
        stage_after(ends.drop_last()) == Stage::PlaceDirectories,
        stage_after(ends.drop_last().drop_last()) == Stage::PlaceFiles,
        stage_after(ends.drop_last().drop_last().drop_last()) == Stage::Unpack,
{
    reveal_with_fuel(stage_after, 4);
}

/// The first events of some that are taken are taken, too.
proof fn events_so_far(s: MergeState, events: Seq<MemberEvent>, k: int)
    requires
        0 <= k <= events.len(),
        after_events(s, events) is Ok,
    ensures
        after_events(s, events.take(k)) is Ok,
    decreases events.len(),
{
    if k < events.len() {
        assert(events.drop_last().take(k) =~= events.take(k));
        events_so_far(s, events.drop_last(), k);
    } else {
        assert(events.take(k) =~= events);
    }
}

/// A file that was seen is settled by the very next event.
proof fn seen_is_settled(s: MergeState, events: Seq<MemberEvent>, i: int)
    requires
        0 <= i < events.len(),
        after_events(s, events) is Ok,
        after_events(s, events)->Ok_0.phase != MergePhase::Member,
        events[i] matches MemberEvent::Seen(EntryShape::File, _),
    ensures
        i + 1 < events.len(),
        events[i + 1] == MemberEvent::Skipped || events[i + 1] is Placed,
{
    events_so_far(s, events, i + 1);
    assert(events.take(i + 1).drop_last() =~= events.take(i));
    if i + 1 < events.len() {
        events_so_far(s, events, i + 2);
        assert(events.take(i + 2).drop_last() =~= events.take(i + 1));
        assert(events.take(i + 2).last() == events[i + 1]);
    } else {
        assert(events.take(i + 1) =~= events);
    }
}

/// Once all files were seen, the bytes are those of the listing, where it knows them, and
/// no more come.
proof fn bytes_at_the_end(limits: MergeLimits, events: Seq<MemberEvent>)
    requires
        after_events(merge_start(limits), events) is Ok,
    ensures
        ({
            let s = after_events(merge_start(limits), events)->Ok_0;
            s.phase == MergePhase::Directories && limits.sizes_complete ==> s.expanded
                == limits.total
        }),
        ({
            let s = after_events(merge_start(limits), events)->Ok_0;
            count_events(events, |e: MemberEvent| is_file_seen(e)) == count_events(
                events,
                |e: MemberEvent| e is Placed || e is Skipped,
            ) + if s.phase == MergePhase::Member {
                1nat
            } else {
                0nat
            }
        }),
        after_events(merge_start(limits), events)->Ok_0.limits == limits,
    decreases events.len(),
{
    if events.len() > 0 {
        bytes_at_the_end(limits, events.drop_last());
    }
}

/// A file was seen.
pub open spec fn is_file_seen(event: MemberEvent) -> bool {
    event matches MemberEvent::Seen(EntryShape::File, _)
}

/// An archive and its volumes are deleted only when it was extracted as a whole: no member
/// was left out or put where it cannot be seen, every file that was seen was put into its
/// place right away, as many as were seen, and their bytes are those of the listing, where
/// it knows them.
pub proof fn law_source_goes_only_when_whole(
    ends: Seq<StageEnd>,
    limits: MergeLimits,
    events: Seq<MemberEvent>,
)
    requires
        stage_after(ends) == Stage::DeleteSource,
        after_events(merge_start(limits), events) is Ok,
        ends.last() == placed_end(after_events(merge_start(limits), events)->Ok_0),
    ensures
        forall|i: int| 0 <= i < events.len() ==> !loses(#[trigger] events[i]),
        forall|i: int|
            0 <= i < events.len() && is_file_seen(#[trigger] events[i]) ==> i + 1 < events.len()
                && events[i + 1] == MemberEvent::Placed(true),
        count_events(events, |e: MemberEvent| is_file_seen(e)) == count_events(
            events,
            |e: MemberEvent| e is Placed,
        ),
        limits.sizes_complete ==> bytes_seen(events) == limits.total,
{
    let start = merge_start(limits);
    law_delete_is_last(ends);
    law_delete_only_complete(start, events);
    law_merge_counts(limits, events);
    bytes_at_the_end(limits, events);
    assert forall|i: int| 0 <= i < events.len() && is_file_seen(#[trigger] events[i]) implies i + 1
        < events.len() && events[i + 1] == MemberEvent::Placed(true) by {
        seen_is_settled(start, events, i);
        assert(!loses(events[i + 1]));
    }
    nothing_skipped(events);
}

/// Without skipped files, those settled are those placed.
proof fn nothing_skipped(events: Seq<MemberEvent>)
    requires
        forall|i: int| 0 <= i < events.len() ==> !loses(#[trigger] events[i]),
    ensures
        count_events(events, |e: MemberEvent| e is Placed || e is Skipped) == count_events(
            events,
            |e: MemberEvent| e is Placed,
        ),
    decreases events.len(),
{
    if events.len() > 0 {
        let head = events.drop_last();
        assert forall|i: int| 0 <= i < head.len() implies !loses(#[trigger] head[i]) by {
            assert(head[i] == events[i]);
        }
        nothing_skipped(head);
        assert(!loses(events[events.len() - 1]));
    }
}

/// What has ended stays ended.
pub proof fn law_ended_stays(ending: Ending, end: StageEnd)
    ensures
        next_stage(Stage::Ended(ending), end) == Stage::Ended(ending),
{
}

/// An archive is extracted exactly where its root holds no git project, it does not expand
/// more than allowed, and the space is known and leaves the reserve free; sizes that are
/// not known are not held against it. Otherwise the first reason is told.
pub proof fn law_which_archives_are_extracted(f: ArchiveFacts)
    ensures
        ({
            let a = admission(f);
            let in_ratio = f.max_ratio == 0 || !f.sizes_complete || f.total <= f.packed
                * f.max_ratio;
            let needs = f.total + f.reserve;
            &&& a is Extract <==> !f.git_at_root && in_ratio && (f.free matches Some(free) && (
            f.sizes_complete ==> needs <= free))
            &&& a is SkipGitRoot <==> f.git_at_root
            &&& a is RatioExceeded <==> !f.git_at_root && !in_ratio
            &&& a is SpaceUnknown <==> !f.git_at_root && in_ratio && f.free is None
            &&& a is CapacityOverflow <==> !f.git_at_root && in_ratio && f.free is Some
                && f.sizes_complete && needs > u64::MAX
            &&& a is NotEnoughSpace <==> !f.git_at_root && in_ratio && (f.free matches Some(free)
                && f.sizes_complete && needs <= u64::MAX && needs > free)
        }),
{
}

/// An archive whose sizes are all known is held to their sum and to no other limit; of one
/// whose sizes are not known the bytes of all files and of each are limited, in units of
/// 2 to the 30th bytes, where a limit is set.
pub proof fn law_which_limits_apply(f: ArchiveFacts)
    requires
        facts_fit(f),
        admission(f) is Extract,
    ensures
        admission(f) matches Admission::Extract(limits) && {
            &&& limits.total == f.total
            &&& limits.sizes_complete == f.sizes_complete
            &&& f.sizes_complete ==> limits.cap is None && limits.max_file is None
            &&& !f.sizes_complete ==> {
                &&& limits.cap is Some <==> f.max_unpacked_gib > 0
                &&& limits.cap matches Some(cap) ==> cap == f.max_unpacked_gib * 1024 * 1024 * 1024
                &&& limits.max_file is Some <==> f.max_file_gib > 0
                &&& limits.max_file matches Some(most) ==> most == f.max_file_gib * 1024 * 1024
                    * 1024
            }
        },
{
}

/// More free space, a smaller reserve and a larger allowance never keep an archive from
/// being extracted.
pub proof fn law_more_room_refuses_nothing(f: ArchiveFacts, free: u64, reserve: u64, ratio: u64)
    requires
        admission(f) is Extract,
        f.free matches Some(before) && before <= free,
        reserve <= f.reserve,
        ratio == 0 || (f.max_ratio > 0 && ratio >= f.max_ratio),
    ensures
        admission((ArchiveFacts { free: Some(free), reserve, max_ratio: ratio, ..f })) is Extract,
{
    if ratio > 0 {
        assert(f.packed * f.max_ratio <= f.packed * ratio) by (nonlinear_arith)
            requires
                ratio >= f.max_ratio,
        ;
    }
}

/// While the engine writes, it is stopped exactly where the free space is not known or is
/// less than the reserve, or where it has written more than allowed.
pub proof fn law_when_the_engine_is_stopped(
    free: Option<u64>,
    reserve: u64,
    cap: Option<u64>,
    staged: Seq<u64>,
)
    ensures
        space_stop(free, reserve, cap, staged) == Some(SpaceStop::Unknown) <==> free is None,
        space_stop(free, reserve, cap, staged) == Some(SpaceStop::BelowReserve) <==> (
        free matches Some(bytes) && bytes < reserve),
        space_stop(free, reserve, cap, staged) == Some(SpaceStop::StreamTooLarge) <==> (
        free matches Some(bytes) && bytes >= reserve) && (cap matches Some(limit)
            && volumes::capped_sum(staged) > limit),
        space_stop(free, reserve, cap, staged) is None <==> (free matches Some(bytes) && bytes
            >= reserve) && (cap matches Some(limit) ==> volumes::capped_sum(staged) <= limit),
{
}

/// The next entry is taken exactly where it is a directory, or a file with which nothing
/// exceeds its limit; what is neither, links above all, ends the extraction.
pub proof fn law_which_entries_are_taken(s: MergeState, shape: EntryShape, size: u64)
    requires
        s.phase == MergePhase::Files,
    ensures
        ({
            let r = after_event(s, MemberEvent::Seen(shape, size));
            let all = s.expanded + size;
            let fits = all <= u64::MAX && (s.limits.sizes_complete ==> all <= s.limits.total) && (
            s.limits.cap matches Some(cap) ==> all <= cap) && (s.limits.max_file matches Some(most)
                ==> size <= most);
            &&& r is Ok <==> shape == EntryShape::Directory || (shape == EntryShape::File && fits)
            &&& shape == EntryShape::Link ==> r == Err::<MergeState, MergeError>(MergeError::Link)
            &&& shape == EntryShape::Other ==> r == Err::<MergeState, MergeError>(
                MergeError::NotRegular,
            )
            &&& shape == EntryShape::Directory ==> r == Ok::<MergeState, MergeError>(s)
            &&& shape == EntryShape::File && fits ==> (r matches Ok(t) && t.expanded == all && t
                == (MergeState { expanded: t.expanded, phase: MergePhase::Member, ..s }))
        }),
{
}

/// What is told of files that all find their place: each is seen and put there.
pub open spec fn smooth_events(sizes: Seq<u64>) -> Seq<MemberEvent>
    decreases sizes.len(),
{
    if sizes.len() == 0 {
        Seq::empty()
    } else {
        smooth_events(sizes.drop_last()).push(
            MemberEvent::Seen(EntryShape::File, sizes.last()),
        ).push(MemberEvent::Placed(true))
    }
}

/// The sum of some sizes.
pub open spec fn sum_of(sizes: Seq<u64>) -> nat
    decreases sizes.len(),
{
    if sizes.len() == 0 {
        0
    } else {
        sum_of(sizes.drop_last()) + sizes.last() as nat
    }
}

proof fn smooth_so_far(limits: MergeLimits, sizes: Seq<u64>)
    requires
        sum_of(sizes) <= u64::MAX,
        sizes.len() <= u64::MAX,
        limits.sizes_complete ==> sum_of(sizes) <= limits.total,
        limits.cap matches Some(cap) ==> sum_of(sizes) <= cap,
        forall|i: int|
            0 <= i < sizes.len() ==> (limits.max_file matches Some(most) ==> #[trigger] sizes[i]
                <= most),
    ensures
        after_events(merge_start(limits), smooth_events(sizes)) == Ok::<MergeState, MergeError>(
            MergeState {
                limits,
                expanded: sum_of(sizes) as u64,
                extracted: sizes.len() as u64,
                skipped: 0,
                complete: true,
                phase: MergePhase::Files,
            },
        ),
    decreases sizes.len(),
{
    let events = smooth_events(sizes);
    if sizes.len() > 0 {
        let before = sizes.drop_last();
        assert forall|i: int| 0 <= i < before.len() implies (limits.max_file matches Some(most)
            ==> #[trigger] before[i] <= most) by {
            assert(before[i] == sizes[i]);
        }
        smooth_so_far(limits, before);
        let seen = MemberEvent::Seen(EntryShape::File, sizes.last());
        let first = smooth_events(before);
        assert(events.drop_last() =~= first.push(seen));
        assert(first.push(seen).drop_last() =~= first);
        assert(sizes.last() == sizes[sizes.len() - 1]);
        let start = merge_start(limits);
        let s = after_events(start, first)->Ok_0;
        assert(after_events(start, first.push(seen)) == after_event(s, seen));
        let t = after_event(s, seen)->Ok_0;
        assert(after_events(start, events) == after_event(t, MemberEvent::Placed(true)));
    }
}

/// An archive whose files all keep their limits and find their places is extracted as a
/// whole, with every file counted, and is deleted next.
pub proof fn law_smooth_archives_are_complete(limits: MergeLimits, sizes: Seq<u64>)
    requires
        sum_of(sizes) <= u64::MAX,
        sizes.len() <= u64::MAX,
        limits.sizes_complete ==> sum_of(sizes) == limits.total,
        limits.cap matches Some(cap) ==> sum_of(sizes) <= cap,
        forall|i: int|
            0 <= i < sizes.len() ==> (limits.max_file matches Some(most) ==> #[trigger] sizes[i]
                <= most),
    ensures
        after_events(
            merge_start(limits),
            smooth_events(sizes).push(MemberEvent::FilesDone),
        ) matches Ok(s) && s.extracted == sizes.len() && s.expanded == sum_of(sizes) && s.skipped
            == 0 && placed_end(s) == StageEnd::Placed(true) && next_stage(
            Stage::PlaceDirectories,
            placed_end(s),
        ) == Stage::DeleteSource,
{
    smooth_so_far(limits, sizes);
    let first = smooth_events(sizes);
    assert(first.push(MemberEvent::FilesDone).drop_last() =~= first);
}

/// Other bytes than the listing declares, where it declares them, end the extraction.
pub proof fn law_missing_bytes_are_found(s: MergeState)
    requires
        s.phase == MergePhase::Files,
    ensures
        after_event(s, MemberEvent::FilesDone) is Ok <==> !s.limits.sizes_complete || s.expanded
            == s.limits.total,
        after_event(s, MemberEvent::FilesDone) matches Err(e) ==> e == MergeError::SizeMismatch,
{
}

/// Where a member goes: to its own path, which is made safe, in the directory of its
/// archive. Only one that would take the archive's own place goes elsewhere.
pub proof fn law_members_go_beside_their_archive(
    archive: Seq<char>,
    member: Seq<char>,
    windows: bool,
)
    ensures
        ({
            let base = boundaries::parent_of(archive);
            match fsutil::safe_path(member) {
                Err(e) => destination(archive, member, windows) == Err::<
                    (Seq<char>, bool),
                    PathError,
                >(e),
                Ok(m) => {
                    let own = if base.len() == 0 {
                        m
                    } else {
                        base.push('/') + m
                    };
                    &&& destination(archive, member, windows) is Ok
                    &&& !same_file(own, archive, windows) ==> destination(archive, member, windows)
                        == Ok::<(Seq<char>, bool), PathError>((own, false))
                    &&& same_file(own, archive, windows) && listing::unpacked_name(
                        name_in(archive),
                    ) is None ==> destination(archive, member, windows) == Ok::<
                        (Seq<char>, bool),
                        PathError,
                    >((own, true))
                },
            }
        }),
        archive == member ==> same_file(archive, member, windows),
        !windows && archive != member ==> !same_file(archive, member, windows),
{
}

/// The name and the directory of a path make up the path, and the name has no slash.
pub proof fn law_names_and_directories(rel: Seq<char>)
    ensures
        !name_in(rel).contains('/'),
        rel.contains('/') ==> rel == boundaries::parent_of(rel).push('/') + name_in(rel),
        !rel.contains('/') ==> name_in(rel) == rel && boundaries::parent_of(rel).len() == 0,
{
    last_slash(rel);
    if let Some(i) = text::last_pos(rel, '/') {
        assert(rel =~= rel.take(i).push('/') + rel.skip(i + 1));
        if name_in(rel).contains('/') {
            let k = choose|k: int| 0 <= k < name_in(rel).len() && name_in(rel)[k] == '/';
            assert(rel[i + 1 + k] == '/');
        }
        assert(rel[i] == '/');
    }
}

proof fn last_slash(s: Seq<char>)
    ensures
        match text::last_pos(s, '/') {
            Some(i) => 0 <= i < s.len() && s[i] == '/' && forall|k: int|
                i < k < s.len() ==> #[trigger] s[k] != '/',
            None => !s.contains('/'),
        },
    decreases s.len(),
{
    if s.len() > 0 {
        last_slash(s.drop_last());
        if s.last() != '/' {
            match text::last_pos(s.drop_last(), '/') {
                Some(i) => {
                    assert forall|k: int| i < k < s.len() implies #[trigger] s[k] != '/' by {
                        if k < s.len() - 1 {
                            assert(s.drop_last()[k] == s[k]);
                        }
                    }
                },
                None => {
                    if s.contains('/') {
                        let k = choose|k: int| 0 <= k < s.len() && s[k] == '/';
                        assert(s.drop_last()[k] == '/');
                    }
                },
            }
        }
    }
}

/// Every member is placed unless there is a reason: it lies in a git project of the
/// archive, its place is excluded or left out, or its name hides it where hidden files are
/// not asked for. The first reason is told.
pub proof fn law_why_members_are_left_out(
    git_subtrees: Set<Seq<char>>,
    member: Seq<char>,
    exclusions: Set<Seq<char>>,
    dest: Seq<char>,
    dest_left_out: bool,
    dots_hide: bool,
)
    ensures
        ({
            let r = skip_reason(git_subtrees, member, exclusions, dest, dest_left_out, dots_hide);
            let in_git = listing::is_inside(git_subtrees, member);
            let excluded = rules::names_above(exclusions, dest) || dest_left_out;
            let dotted = dots_hide && exists|i: int|
                0 <= i < text::split_on(dest, '/').len() && (#[trigger] text::split_on(
                    dest,
                    '/',
                )[i]).len() > 0 && text::split_on(dest, '/')[i][0] == '.';
            &&& r is None <==> !in_git && !excluded && !dotted
            &&& r == Some(SkipReason::GitTree) <==> in_git
            &&& r == Some(SkipReason::Excluded) <==> !in_git && excluded
            &&& r == Some(SkipReason::Dotted) <==> !in_git && !excluded && dotted
        }),
{
    reveal_strlit(".");
    let parts = text::split_on(dest, '/');
    assert forall|i: int| 0 <= i < parts.len() implies text::has_prefix(#[trigger] parts[i], "."@)
        == (parts[i].len() > 0 && parts[i][0] == '.') by {
        if parts[i].len() > 0 {
            assert(parts[i].subrange(0, 1)[0] == parts[i][0]);
            if parts[i][0] == '.' {
                assert(parts[i].subrange(0, 1) =~= "."@);
            }
        }
    }
}

/// A member is in its place only after a renaming that worked, there where its place was
/// free, else under another name. It fails only after the other name failed, too, and the
/// first error counts where its own place was tried.
pub proof fn law_how_a_member_is_placed(target_worked: bool, other_worked: bool)
    ensures
        after_place(PlaceStep::TryTarget, true) == PlaceStep::Placed,
        after_place(PlaceStep::TryTarget, false) is TryUnique,
        after_place(after_place(PlaceStep::TryTarget, false), other_worked) == if other_worked {
            PlaceStep::Renamed
        } else {
            PlaceStep::FailedFirst
        },
        after_place(PlaceStep::TryUnique(false), other_worked) == if other_worked {
            PlaceStep::Renamed
        } else {
            PlaceStep::FailedUnique
        },
        forall|s: PlaceStep, w: bool|
            (#[trigger] after_place(s, w)) == PlaceStep::Placed ==> s == PlaceStep::Placed || (s
                == PlaceStep::TryTarget && w),
        forall|s: PlaceStep, w: bool|
            (#[trigger] after_place(s, w)) == PlaceStep::Renamed ==> s == PlaceStep::Renamed || (
            s is TryUnique && w),
{
}

/// Of the attributes of a placed file only the two that hide it are taken away, each where
/// files with it are not asked for.
pub proof fn law_only_hiding_attributes_go(attrs: u32, include_hidden: bool, include_system: bool)
    ensures
        ({
            let after = visible_attributes(attrs, include_hidden, include_system);
            &&& after & !6u32 == attrs & !6u32
            &&& after & 2 == (if include_hidden {
                attrs & 2
            } else {
                0
            })
            &&& after & 4 == (if include_system {
                attrs & 4
            } else {
                0
            })
        }),
{
    assert((attrs & !2u32) & !6u32 == attrs & !6u32 && (attrs & !4u32) & !6u32 == attrs & !6u32 && (
    (attrs & !2u32) & !4u32) & !6u32 == attrs & !6u32 && (attrs & !2u32) & 2 == 0 && (attrs & !2u32)
        & 4 == attrs & 4 && (attrs & !4u32) & 4 == 0 && (attrs & !4u32) & 2 == attrs & 2 && ((attrs
        & !2u32) & !4u32) & 2 == 0 && ((attrs & !2u32) & !4u32) & 4 == 0) by (bit_vector);
}

/// The long form of a path starts with the prefix for it, ends with a zero and otherwise
/// keeps the path; that of a path which has the prefix already is the path.
pub proof fn law_long_paths_keep_the_path(path: Seq<u16>)
    ensures
        ({
            let long = verbatim(path);
            let prefix = seq![0x5cu16, 0x5c, 0x3f, 0x5c];
            &&& long.len() >= 5 && long.take(4) == prefix
            &&& long.last() == 0
            &&& path.len() >= 4 && path.take(4) == prefix ==> long.drop_last() == path
            &&& path.len() >= 2 && path[0] == 0x5c && path[1] == 0x5c && path.take(4) != prefix
                ==> long.drop_last() == prefix + seq![0x55u16, 0x4e, 0x43, 0x5c] + path.skip(2)
            &&& path.len() < 2 || path[0] != 0x5c || path[1] != 0x5c ==> long.drop_last() == prefix
                + path
        }),
{
    let prefix = seq![0x5cu16, 0x5c, 0x3f, 0x5c];
    let short = seq![0x5cu16, 0x5c];
    let long = verbatim(path);
    let share = seq![0x5cu16, 0x5c, 0x3f, 0x5c, 0x55, 0x4e, 0x43, 0x5c];
    if starts_units(path, prefix) {
        assert(long.drop_last() =~= path);
        assert(long.take(4) =~= path.take(4));
        assert(path.take(4)[0] == path[0] && path.take(4)[1] == path[1]);
        assert(prefix[0] == 0x5c && prefix[1] == 0x5c);
    } else if starts_units(path, short) {
        assert(path.take(2)[0] == path[0] && path.take(2)[1] == path[1]);
        assert(long.drop_last() =~= share + path.skip(2));
        assert(share + path.skip(2) =~= prefix + seq![0x55u16, 0x4e, 0x43, 0x5c] + path.skip(2));
        assert(long.take(4) =~= prefix);
    } else {
        if path.len() >= 2 && path[0] == 0x5c && path[1] == 0x5c {
            assert(path.take(2) =~= short);
        }
        assert(long.drop_last() =~= prefix + path);
        assert(long.take(4) =~= prefix);
    }
}

/// The engine has to confirm the volumes wherever there may be more than one: where a
/// further file is named like one, and always with the names of RAR.
pub proof fn law_which_volumes_are_confirmed(n: usize, scheme: volumes::VolumeScheme)
    ensures
        next_stage(Stage::FindVolumes, StageEnd::Found(n, scheme)) == Stage::ConfirmVolumes <==> n
            > 1 || scheme == volumes::VolumeScheme::RarParts || scheme
            == volumes::VolumeScheme::OldRar,
        next_stage(Stage::FindVolumes, StageEnd::Found(n, scheme)) == Stage::ConfirmVolumes
            || next_stage(Stage::FindVolumes, StageEnd::Found(n, scheme)) == Stage::List,
{
}

/// An archive that goes well from stage to stage is complete in the end, with its source
/// deleted; one of which a member is missing is not, and stays.
pub proof fn law_the_stages_of_a_good_archive(
    n: usize,
    scheme: volumes::VolumeScheme,
    limits: MergeLimits,
    whole: bool,
)
    ensures
        ({
            let found = next_stage(Stage::FindVolumes, StageEnd::Found(n, scheme));
            let listing = if found == Stage::ConfirmVolumes {
                next_stage(found, StageEnd::Done)
            } else {
                found
            };
            let unpacking = next_stage(listing, StageEnd::Decided(Admission::Extract(limits)));
            let placing = next_stage(unpacking, StageEnd::Done);
            let directories = next_stage(placing, StageEnd::Done);
            let placed = next_stage(directories, StageEnd::Placed(whole));
            &&& unpacking == Stage::Unpack
            &&& placing == Stage::PlaceFiles
            &&& directories == Stage::PlaceDirectories
            &&& whole ==> placed == Stage::DeleteSource && next_stage(placed, StageEnd::Done)
                == Stage::Ended(Ending::Complete)
            &&& !whole ==> placed == Stage::Ended(Ending::Incomplete)
        }),
{
}

/// A failure ends the archive wherever it happens, and it says whether the task has to
/// stop, as it does for want of space. An archive is complete only once its source is
/// deleted, and incomplete only with a member missing or a git project at its root.
pub proof fn law_how_archives_end(stage: Stage, end: StageEnd)
    requires
        !(stage is Ended),
    ensures
        end matches StageEnd::Failed(stops) ==> next_stage(stage, end) == Stage::Ended(
            Ending::Failed(stops),
        ),
        next_stage(stage, end) == Stage::Ended(Ending::Complete) <==> stage == Stage::DeleteSource
            && end == StageEnd::Done,
        next_stage(stage, end) == Stage::Ended(Ending::Incomplete) <==> (stage
            == Stage::PlaceDirectories && end == StageEnd::Placed(false)) || (stage == Stage::List
            && end == StageEnd::Decided(Admission::SkipGitRoot)),
        next_stage(stage, end) == Stage::Ended(Ending::Failed(true)) <==> end
            == StageEnd::Failed(true) || (stage == Stage::List && (end == StageEnd::Decided(
            Admission::SpaceUnknown,
        ) || end == StageEnd::Decided(Admission::NotEnoughSpace))),
        next_stage(stage, end) == Stage::Unpack ==> stage == Stage::List && (
        end matches StageEnd::Decided(a) && a is Extract),
{
}

/// A directory on the way to a place is left out where it is hidden and hidden ones are not
/// asked for, or where it belongs to the system and those are not asked for.
pub proof fn law_which_levels_are_left_out(f: LevelFlags)
    ensures
        !level_left_out(f, true, true),
        level_left_out(f, false, true) <==> f.hidden,
        level_left_out(f, true, false) <==> f.system,
        level_left_out(f, false, false) <==> f.hidden || f.system,
{
}

} // verus!
