//! The final cleaning: directories that are really empty are removed from the inside
//! out.

use crate::engine::scope;
use crate::engine::scope::{EntryFacts, ScopeFilter};
use crate::fsutil;
use crate::fsutil::GitProbe;
use crate::model::{DeleteResult, Summary};
use crate::text;
use vstd::prelude::*;

verus! {

/// An entry of a directory that may be empty.
#[derive(Debug)]
pub enum SweepEntry {
    /// The listing failed at this point.
    Failed,
    /// The name cannot be written, or the metadata cannot be read.
    Unknown,
    Seen { name: String, facts: EntryFacts, is_dir: bool, git: GitProbe },
}

/// What is done with an entry.
#[derive(Clone, Copy, Debug, PartialEq, Eq, Structural)]
pub enum SweepVerdict {
    /// It stays, and so does the directory.
    Keep,
    /// It stays, and this is noted.
    KeepNoted,
    /// A directory to look into.
    Enter,
}

/// What is done with an entry of the directory `rel`. Without `collect`, directories
/// are not looked into.
pub open spec fn sweep_verdict(
    f: ScopeFilter,
    collect: bool,
    rel: Seq<char>,
    e: SweepEntry,
) -> SweepVerdict {
    match e {
        SweepEntry::Failed => SweepVerdict::KeepNoted,
        SweepEntry::Unknown => SweepVerdict::Keep,
        SweepEntry::Seen { name, facts, is_dir, git } => if scope::is_pruned(
            f,
            fsutil::below(rel, name@),
            name@,
            facts,
        ) || !is_dir || !collect || git == GitProbe::GitRoot {
            SweepVerdict::Keep
        } else if git == GitProbe::Unreadable {
            SweepVerdict::KeepNoted
        } else {
            SweepVerdict::Enter
        },
    }
}

fn judge(f: &ScopeFilter, collect: bool, rel: &str, e: &SweepEntry) -> (r: SweepVerdict)
    ensures
        r == sweep_verdict(*f, collect, rel@, *e),
{
    match e {
        SweepEntry::Failed => SweepVerdict::KeepNoted,
        SweepEntry::Unknown => SweepVerdict::Keep,
        SweepEntry::Seen { name, facts, is_dir, git } => {
            let child = fsutil::join_below(rel, name.as_str());
            if f.prunes(child.as_str(), name.as_str(), *facts) || !*is_dir || !collect {
                return SweepVerdict::Keep;
            }
            match *git {
                GitProbe::GitRoot => SweepVerdict::Keep,
                GitProbe::Unreadable => SweepVerdict::KeepNoted,
                GitProbe::Clean => SweepVerdict::Enter,
            }
        },
    }
}

/// The positions of the first `k` entries with a verdict.
pub open spec fn swept(
    f: ScopeFilter,
    collect: bool,
    rel: Seq<char>,
    entries: Seq<SweepEntry>,
    v: SweepVerdict,
    k: int,
) -> Seq<usize>
    decreases k,
{
    if k <= 0 {
        Seq::empty()
    } else if sweep_verdict(f, collect, rel, entries[k - 1]) == v {
        swept(f, collect, rel, entries, v, k - 1).push((k - 1) as usize)
    } else {
        swept(f, collect, rel, entries, v, k - 1)
    }
}

/// What the entries of a directory come to.
#[derive(Debug)]
pub struct SweepList {
    /// The directories to look into.
    pub children: Vec<usize>,
    /// Something stays in any case.
    pub keep: bool,
    /// The entries to note.
    pub notes: Vec<usize>,
}

/// What the first `k` entries of a directory come to.
pub open spec fn is_sweep_list(
    f: ScopeFilter,
    collect: bool,
    rel: Seq<char>,
    entries: Seq<SweepEntry>,
    k: int,
    r: SweepList,
) -> bool {
    &&& r.children@ == swept(f, collect, rel, entries, SweepVerdict::Enter, k)
    &&& r.notes@ == swept(f, collect, rel, entries, SweepVerdict::KeepNoted, k)
    &&& r.keep <==> exists|i: int|
        0 <= i < k && sweep_verdict(f, collect, rel, #[trigger] entries[i]) != SweepVerdict::Enter
}

/// Sorts the entries of a directory that may be empty.
pub fn sweep_entries(f: &ScopeFilter, collect: bool, rel: &str, entries: &Vec<SweepEntry>) -> (r:
    SweepList)
    ensures
        is_sweep_list(*f, collect, rel@, entries@, entries@.len() as int, r),
{
    let mut r = SweepList { children: Vec::new(), keep: false, notes: Vec::new() };
    let mut i: usize = 0;
    while i < entries.len()
        invariant
            i <= entries@.len(),
            is_sweep_list(*f, collect, rel@, entries@, i as int, r),
        decreases entries.len() - i,
    {
        let v = judge(f, collect, rel, &entries[i]);
        let ghost before = r.keep;
        match v {
            SweepVerdict::Enter => {
                r.children.push(i);
            },
            SweepVerdict::Keep => {
                r.keep = true;
            },
            SweepVerdict::KeepNoted => {
                r.keep = true;
                r.notes.push(i);
            },
        }
        proof {
            if v != SweepVerdict::Enter {
                assert(sweep_verdict(*f, collect, rel@, entries@[i as int]) != SweepVerdict::Enter);
            }
            if before {
                let k = choose|k: int|
                    0 <= k < i && sweep_verdict(*f, collect, rel@, #[trigger] entries@[k])
                        != SweepVerdict::Enter;
                assert(sweep_verdict(*f, collect, rel@, entries@[k]) != SweepVerdict::Enter);
            }
        }
        i = i + 1;
    }
    r
}

/// A directory that is being looked at.
#[derive(Debug)]
pub struct SweepFrame {
    /// The path below the chosen directory; empty for that one.
    pub rel: String,
    /// The directories in it that are looked into.
    pub children: Vec<String>,
    /// How many of them were.
    pub next: usize,
    /// Something in it stays.
    pub keep: bool,
}

/// A directory that is being looked at, as characters.
pub struct FrameView {
    pub rel: Seq<char>,
    pub children: Seq<Seq<char>>,
    pub next: int,
    pub keep: bool,
}

impl View for SweepFrame {
    type V = FrameView;

    open spec fn view(&self) -> FrameView {
        FrameView {
            rel: self.rel@,
            children: text::texts(self.children@),
            next: self.next as int,
            keep: self.keep,
        }
    }
}

/// The directories from the chosen one down to the current, as characters.
pub open spec fn frame_views(stack: Seq<SweepFrame>) -> Seq<FrameView> {
    Seq::new(stack.len(), |i: int| stack[i]@)
}

/// All directories in the current one were looked into.
pub open spec fn all_entered(stack: Seq<FrameView>) -> bool {
    stack.len() > 0 && stack.last().next >= stack.last().children.len()
}

/// The directories after the next one was read.
pub open spec fn with_entered(
    stack: Seq<FrameView>,
    children: Seq<Seq<char>>,
    keep: bool,
) -> Seq<FrameView> {
    let top = stack.last();
    stack.drop_last().push(FrameView { next: top.next + 1, ..top }).push(
        FrameView { rel: top.children[top.next], children, next: 0, keep },
    )
}

/// The directories after the current one is done with: where it stayed, so does the one
/// above it.
pub open spec fn with_removed(stack: Seq<FrameView>, gone: bool) -> Seq<FrameView> {
    let rest = stack.drop_last();
    if rest.len() == 0 {
        rest
    } else {
        let above = rest.last();
        rest.drop_last().push(FrameView { keep: above.keep || !gone, ..above })
    }
}

/// What is to be done next.
#[derive(Debug)]
pub enum SweepStep {
    /// Read this directory and hand the result to [`Sweep::entered`].
    Enter(String),
    /// Remove this directory and hand the result to [`Sweep::removed`].
    Remove(String),
    /// The directory stays: hand that to [`Sweep::removed`].
    Leave,
    Finished,
}

/// The state of the cleaning: the directories from the chosen one down to the current.
pub struct Sweep {
    pub stack: Vec<SweepFrame>,
}

impl View for Sweep {
    type V = Seq<FrameView>;

    open spec fn view(&self) -> Seq<FrameView> {
        frame_views(self.stack@)
    }
}

impl Sweep {
    /// Starts with the chosen directory.
    pub fn new(children: Vec<String>, keep: bool) -> (r: Sweep)
        ensures
            r@ == seq![
                FrameView {
                    rel: Seq::empty(),
                    children: text::texts(children@),
                    next: 0,
                    keep,
                },
            ],
    {
        let mut stack: Vec<SweepFrame> = Vec::new();
        let empty = String::new();
        assert(empty@ =~= Seq::<char>::empty());
        stack.push(SweepFrame { rel: empty, children, next: 0, keep });
        assert(frame_views(stack@) =~= seq![stack@[0]@]);
        Sweep { stack }
    }

    /// What is to be done next: look into the next directory; when all were looked
    /// into, remove the current one where nothing in it stays. The chosen directory is
    /// never removed.
    pub fn step(&self) -> (r: SweepStep)
        ensures
            match r {
                SweepStep::Finished => self@.len() == 0,
                SweepStep::Enter(p) => self@.len() > 0 && !all_entered(self@) && p@
                    == self@.last().children[self@.last().next],
                SweepStep::Remove(p) => all_entered(self@) && p@ == self@.last().rel && p@.len() > 0
                    && !self@.last().keep,
                SweepStep::Leave => all_entered(self@) && (self@.last().rel.len() == 0
                    || self@.last().keep),
            },
    {
        if self.stack.len() == 0 {
            return SweepStep::Finished;
        }
        let top = &self.stack[self.stack.len() - 1];
        assert(self@.last() == top@);
        if top.next < top.children.len() {
            return SweepStep::Enter(top.children[top.next].as_str().to_owned());
        }
        if top.rel.as_str().is_empty() || top.keep {
            SweepStep::Leave
        } else {
            SweepStep::Remove(top.rel.as_str().to_owned())
        }
    }

    /// Takes over what was read of the next directory.
    pub fn entered(&mut self, children: Vec<String>, keep: bool)
        requires
            old(self)@.len() > 0,
            !all_entered(old(self)@),
        ensures
            final(self)@ == with_entered(old(self)@, text::texts(children@), keep),
    {
        let ghost was = self.stack@;
        assert(self@.last() == was.last()@);
        let mut top = self.stack.pop().unwrap();
        let rel = top.children[top.next].as_str().to_owned();
        let n: usize = top.children.len();
        assert(top.next < n);
        top.next = top.next + 1;
        self.stack.push(top);
        self.stack.push(SweepFrame { rel, children, next: 0, keep });
        proof {
            let now = frame_views(self.stack@);
            let expected = with_entered(frame_views(was), text::texts(children@), keep);
            assert(now.len() == expected.len());
            assert forall|i: int| 0 <= i < now.len() implies now[i] == expected[i] by {
                if i < was.len() - 1 {
                    assert(self.stack@[i] == was[i]);
                }
            }
            assert(now =~= expected);
        }
    }

    /// Goes back from a directory that is done with. Where it stayed, so does the one
    /// above it.
    pub fn removed(&mut self, gone: bool)
        requires
            all_entered(old(self)@),
        ensures
            final(self)@ == with_removed(old(self)@, gone),
    {
        let ghost was = self.stack@;
        let _done = self.stack.pop();
        if self.stack.len() > 0 && !gone {
            let mut above = self.stack.pop().unwrap();
            above.keep = true;
            self.stack.push(above);
        }
        proof {
            let now = frame_views(self.stack@);
            let expected = with_removed(frame_views(was), gone);
            assert(now.len() == expected.len());
            assert forall|i: int| 0 <= i < now.len() implies now[i] == expected[i] by {
                if i < was.len() - 2 {
                    assert(self.stack@[i] == was[i]);
                }
            }
            assert(now =~= expected);
        }
    }
}

/// What is recorded of a directory that was offered for removal.
#[derive(Clone, Copy, Debug, PartialEq, Eq, Structural)]
pub enum SweepRemoval {
    Removed(DeleteResult),
    Failed,
}

/// The counts after a removal, and whether the directory is gone; nothing where it
/// failed because the task was cancelled.
pub open spec fn sweep_counted(s: Summary, result: SweepRemoval, cancelled: bool) -> Option<
    (Summary, bool),
> {
    match result {
        SweepRemoval::Removed(DeleteResult::Permanent) => Some(
            (Summary { deleted: (s.deleted + 1) as u64, ..s }, true),
        ),
        SweepRemoval::Removed(DeleteResult::Kept) => Some(
            (Summary { skipped: (s.skipped + 1) as u64, ..s }, false),
        ),
        SweepRemoval::Failed => if cancelled {
            None
        } else {
            Some((Summary { errors: (s.errors + 1) as u64, ..s }, false))
        },
    }
}

/// Counts a removal of the final cleaning.
pub fn sweep_remove(s: &Summary, result: SweepRemoval, cancelled: bool) -> (r: Option<
    (Summary, bool),
>)
    requires
        s.deleted < u64::MAX,
        s.skipped < u64::MAX,
        s.errors < u64::MAX,
    ensures
        r == sweep_counted(*s, result, cancelled),
{
    let mut t = *s;
    match result {
        SweepRemoval::Removed(DeleteResult::Permanent) => {
            t.deleted = t.deleted + 1;
            Some((t, true))
        },
        SweepRemoval::Removed(DeleteResult::Kept) => {
            t.skipped = t.skipped + 1;
            Some((t, false))
        },
        SweepRemoval::Failed => {
            if cancelled {
                return None;
            }
            t.errors = t.errors + 1;
            Some((t, false))
        },
    }
}

/// Whether the cleaning was complete: no error was added.
pub fn final_empty_cleanup(errors_before: u64, errors_after: u64) -> (r: Result<(), &'static str>)
    ensures
        r is Ok <==> errors_before == errors_after,
        r matches Err(e) ==> e@ == "空目录清理未完成：有目录无法读取或删除，详情见进度与日志"@,
{
    if errors_before == errors_after {
        Ok(())
    } else {
        Err("空目录清理未完成：有目录无法读取或删除，详情见进度与日志")
    }
}

/// What a cleaning meets: the directories to look into and whether something stays, for
/// every directory that is read; and which removals work.
pub struct Tree {
    pub inner: spec_fn(Seq<char>) -> Seq<Seq<char>>,
    pub keep: spec_fn(Seq<char>) -> bool,
    pub goes: spec_fn(Seq<char>) -> bool,
}

/// How far a cleaning has come: the directories that it is in, and those that were looked
/// into, that were removed and that stayed.
pub struct Cleaning {
    pub stack: Seq<FrameView>,
    pub seen: Set<Seq<char>>,
    pub removed: Set<Seq<char>>,
    pub stayed: Set<Seq<char>>,
}

/// The next step of a cleaning, with what is met in the tree.
pub open spec fn next_cleaning(t: Tree, c: Cleaning) -> Cleaning {
    if c.stack.len() == 0 {
        c
    } else if !all_entered(c.stack) {
        let p = c.stack.last().children[c.stack.last().next];
        Cleaning {
            stack: with_entered(c.stack, (t.inner)(p), (t.keep)(p)),
            seen: c.seen.insert(p),
            ..c
        }
    } else {
        let top = c.stack.last();
        if top.rel.len() > 0 && !top.keep && (t.goes)(top.rel) {
            Cleaning {
                stack: with_removed(c.stack, true),
                removed: c.removed.insert(top.rel),
                ..c
            }
        } else {
            Cleaning {
                stack: with_removed(c.stack, false),
                stayed: c.stayed.insert(top.rel),
                ..c
            }
        }
    }
}

/// A cleaning after so many steps.
pub open spec fn cleaning(t: Tree, n: nat) -> Cleaning
    decreases n,
{
    if n == 0 {
        let root = Seq::<char>::empty();
        Cleaning {
            stack: seq![
                FrameView { rel: root, children: (t.inner)(root), next: 0, keep: (t.keep)(root) },
            ],
            seen: Set::empty().insert(root),
            removed: Set::empty(),
            stayed: Set::empty(),
        }
    } else {
        next_cleaning(t, cleaning(t, (n - 1) as nat))
    }
}

/// Nothing is left in the directory: it held only directories, and all of them were
/// removed.
pub open spec fn is_emptied(t: Tree, removed: Set<Seq<char>>, p: Seq<char>) -> bool {
    !(t.keep)(p) && forall|i: int|
        0 <= i < (t.inner)(p).len() ==> removed.contains(#[trigger] (t.inner)(p)[i])
}

/// Something is left in the directory: something that stays in any case, or a directory
/// that stayed.
pub open spec fn holds_something(t: Tree, stayed: Set<Seq<char>>, p: Seq<char>) -> bool {
    (t.keep)(p) || exists|i: int|
        0 <= i < (t.inner)(p).len() && stayed.contains(#[trigger] (t.inner)(p)[i])
}

/// A directory that is being looked at: those in it that are done with.
spec fn frame_holds(t: Tree, c: Cleaning, k: int) -> bool {
    let f = c.stack[k];
    let done = if k == c.stack.len() - 1 {
        f.next
    } else {
        f.next - 1
    };
    &&& f.children == (t.inner)(f.rel)
    &&& 0 <= f.next <= f.children.len()
    &&& 0 <= done
    &&& c.seen.contains(f.rel)
    &&& k > 0 ==> c.stack[k - 1].next > 0 && f.rel == c.stack[k - 1].children[c.stack[k - 1].next
        - 1]
    &&& k == 0 ==> f.rel.len() == 0
    &&& f.keep ==> holds_something(t, c.stayed, f.rel)
    &&& !f.keep ==> !(t.keep)(f.rel) && forall|i: int|
        0 <= i < done ==> c.removed.contains(#[trigger] f.children[i])
    &&& forall|i: int| 0 <= i < f.next ==> c.seen.contains(#[trigger] f.children[i])
}

/// The path is one of the directories that the cleaning is in.
spec fn is_open(c: Cleaning, p: Seq<char>) -> bool {
    exists|k: int| 0 <= k < c.stack.len() && (#[trigger] c.stack[k]).rel == p
}

/// What holds at every step of a cleaning.
spec fn is_cleaning(t: Tree, c: Cleaning) -> bool {
    &&& c.seen.contains(Seq::empty())
    &&& forall|k: int| 0 <= k < c.stack.len() ==> #[trigger] frame_holds(t, c, k)
    &&& forall|p: Seq<char>| #[trigger]
        c.removed.contains(p) ==> p.len() > 0 && is_emptied(t, c.removed, p) && c.seen.contains(p)
            && (t.goes)(p)
    &&& forall|p: Seq<char>| #[trigger]
        c.stayed.contains(p) ==> p.len() == 0 || holds_something(t, c.stayed, p) || !(t.goes)(p)
    &&& forall|p: Seq<char>| #[trigger]
        c.seen.contains(p) ==> is_open(c, p) || c.removed.contains(p) || c.stayed.contains(p)
    &&& forall|p: Seq<char>, i: int|
        c.seen.contains(p) && 0 <= i < (t.inner)(p).len() ==> is_open(c, p) || c.seen.contains(
            #[trigger] (t.inner)(p)[i],
        )
}

proof fn still_holds(t: Tree, a: Set<Seq<char>>, b: Set<Seq<char>>, p: Seq<char>)
    requires
        a.subset_of(b),
    ensures
        is_emptied(t, a, p) ==> is_emptied(t, b, p),
        holds_something(t, a, p) ==> holds_something(t, b, p),
{
    if holds_something(t, a, p) && !(t.keep)(p) {
        let i = choose|i: int| 0 <= i < (t.inner)(p).len() && a.contains(#[trigger] (t.inner)(p)[i]);
        assert(b.contains((t.inner)(p)[i]));
    }
}

proof fn entering_keeps(t: Tree, c: Cleaning)
    requires
        is_cleaning(t, c),
        c.stack.len() > 0,
        !all_entered(c.stack),
    ensures
        is_cleaning(t, next_cleaning(t, c)),
{
    let d = next_cleaning(t, c);
    let top = c.stack.last();
    let p = top.children[top.next];
    let m = c.stack.len() - 1;
    assert(frame_holds(t, c, m));
    assert(d.stack.len() == c.stack.len() + 1);
    assert forall|k: int| 0 <= k < d.stack.len() implies #[trigger] frame_holds(t, d, k) by {
        if k <= m {
            assert(frame_holds(t, c, k));
            if k > 0 {
                assert(frame_holds(t, c, k - 1));
            }
        }
    }
    assert forall|q: Seq<char>| is_open(c, q) implies is_open(d, q) by {
        let k = choose|k: int| 0 <= k < c.stack.len() && (#[trigger] c.stack[k]).rel == q;
        assert(d.stack[k].rel == q);
    }
    assert(d.stack[m + 1].rel == p);
    assert(is_open(d, p));
    assert forall|q: Seq<char>, i: int|
        d.seen.contains(q) && 0 <= i < (t.inner)(q).len() implies is_open(d, q)
        || d.seen.contains(#[trigger] (t.inner)(q)[i]) by {
        if q != p {
            assert(c.seen.contains(q));
        }
    }
}

proof fn leaving_keeps(t: Tree, c: Cleaning)
    requires
        is_cleaning(t, c),
        all_entered(c.stack),
    ensures
        is_cleaning(t, next_cleaning(t, c)),
{
    let d = next_cleaning(t, c);
    let top = c.stack.last();
    let m = c.stack.len() - 1;
    let gone = top.rel.len() > 0 && !top.keep && (t.goes)(top.rel);
    assert(frame_holds(t, c, m));
    assert(d.stack.len() == m);
    assert forall|q: Seq<char>| #![auto] true implies (is_emptied(t, c.removed, q) ==> is_emptied(
        t,
        d.removed,
        q,
    )) && (holds_something(t, c.stayed, q) ==> holds_something(t, d.stayed, q)) by {
        still_holds(t, c.removed, d.removed, q);
        still_holds(t, c.stayed, d.stayed, q);
    }
    if gone {
        assert(is_emptied(t, c.removed, top.rel));
    }
    assert forall|k: int| 0 <= k < d.stack.len() implies #[trigger] frame_holds(t, d, k) by {
        assert(frame_holds(t, c, k));
        assert(d.stack[k].rel == c.stack[k].rel && d.stack[k].children == c.stack[k].children
            && d.stack[k].next == c.stack[k].next);
        if k == m - 1 {
            let f = c.stack[k];
            assert(top.rel == f.children[f.next - 1]);
            if !gone {
                assert(d.stayed.contains((t.inner)(f.rel)[f.next - 1]));
                assert(holds_something(t, d.stayed, f.rel));
            }
        } else {
            assert(d.stack[k] == c.stack[k]);
        }
        if k > 0 {
            assert(frame_holds(t, c, k - 1));
            assert(d.stack[k - 1].children == c.stack[k - 1].children && d.stack[k - 1].next
                == c.stack[k - 1].next);
        }
    }
    assert forall|q: Seq<char>| is_open(c, q) implies is_open(d, q) || q == top.rel by {
        let k = choose|k: int| 0 <= k < c.stack.len() && (#[trigger] c.stack[k]).rel == q;
        if k < m {
            assert(d.stack[k].rel == q);
        }
    }
    assert forall|q: Seq<char>, i: int|
        d.seen.contains(q) && 0 <= i < (t.inner)(q).len() implies is_open(d, q)
        || d.seen.contains(#[trigger] (t.inner)(q)[i]) by {
        assert(c.seen.contains(q));
        if q == top.rel {
            assert(top.children[i] == (t.inner)(q)[i]);
        }
    }
}

proof fn every_step_keeps(t: Tree, n: nat)
    ensures
        is_cleaning(t, cleaning(t, n)),
    decreases n,
{
    let c = cleaning(t, n);
    if n == 0 {
        assert(frame_holds(t, c, 0));
        assert(c.stack[0].rel == Seq::<char>::empty());
        assert(is_open(c, Seq::empty()));
    } else {
        let before = cleaning(t, (n - 1) as nat);
        every_step_keeps(t, (n - 1) as nat);
        if before.stack.len() > 0 {
            if all_entered(before.stack) {
                leaving_keeps(t, before);
            } else {
                entering_keeps(t, before);
            }
        }
    }
}

/// At every step of a cleaning, the chosen directory stands, and whatever was removed held
/// nothing any more.
pub proof fn law_only_empty_directories_go(t: Tree, n: nat, p: Seq<char>)
    requires
        cleaning(t, n).removed.contains(p),
    ensures
        p.len() > 0,
        cleaning(t, n).seen.contains(p),
        is_emptied(t, cleaning(t, n).removed, p),
{
    every_step_keeps(t, n);
}

/// A whole cleaning looks into every directory in scope, and each of them that stays holds
/// something, unless it could not be removed; the chosen directory always stays.
pub proof fn law_no_empty_directory_stays(t: Tree, n: nat, p: Seq<char>)
    requires
        cleaning(t, n).stack.len() == 0,
        cleaning(t, n).seen.contains(p),
    ensures
        cleaning(t, n).seen.contains(Seq::empty()),
        cleaning(t, n).removed.contains(p) || cleaning(t, n).stayed.contains(p),
        cleaning(t, n).stayed.contains(p) && p.len() > 0 && (t.goes)(p) ==> holds_something(
            t,
            cleaning(t, n).stayed,
            p,
        ),
        forall|i: int|
            0 <= i < (t.inner)(p).len() ==> cleaning(t, n).seen.contains(
                #[trigger] (t.inner)(p)[i],
            ),
{
    every_step_keeps(t, n);
    let c = cleaning(t, n);
    assert(!is_open(c, p));
}

/// The cleaning looks into a directory exactly where that takes part, holds no git project
/// and directories are looked into at all; everything else stays, and so does what is
/// around it. What could not be found out is noted.
pub proof fn law_what_is_looked_into(
    f: ScopeFilter,
    collect: bool,
    rel: Seq<char>,
    name: String,
    facts: EntryFacts,
    is_dir: bool,
    git: GitProbe,
)
    ensures
        ({
            let e = SweepEntry::Seen { name, facts, is_dir, git };
            let v = sweep_verdict(f, collect, rel, e);
            let path = if rel.len() == 0 {
                name@
            } else {
                rel.push('/') + name@
            };
            let open = is_dir && collect && !scope::is_pruned(f, path, name@, facts);
            &&& v == SweepVerdict::Enter <==> open && git == GitProbe::Clean
            &&& v == SweepVerdict::KeepNoted <==> open && git == GitProbe::Unreadable
            &&& v == SweepVerdict::Keep <==> !open || git == GitProbe::GitRoot
        }),
        sweep_verdict(f, collect, rel, SweepEntry::Failed) == SweepVerdict::KeepNoted,
        sweep_verdict(f, collect, rel, SweepEntry::Unknown) == SweepVerdict::Keep,
{
}

/// A removal is counted as what it was: the directory is gone only where it was removed,
/// and only a failure is an error; of a cancelled task a failure is none.
pub proof fn law_removals_are_counted(s: Summary, result: SweepRemoval, cancelled: bool)
    requires
        s.deleted < u64::MAX,
        s.skipped < u64::MAX,
        s.errors < u64::MAX,
    ensures
        sweep_counted(s, result, cancelled) is None <==> result == SweepRemoval::Failed && cancelled,
        sweep_counted(s, result, cancelled) matches Some(r) ==> {
            let gone = result == SweepRemoval::Removed(DeleteResult::Permanent);
            &&& r.1 == gone
            &&& r.0.deleted == s.deleted + if gone {
                1int
            } else {
                0
            }
            &&& r.0.skipped == s.skipped + if result == SweepRemoval::Removed(DeleteResult::Kept) {
                1int
            } else {
                0
            }
            &&& r.0.errors == s.errors + if result == SweepRemoval::Failed {
                1int
            } else {
                0
            }
            &&& r.0 == (Summary {
                deleted: r.0.deleted,
                skipped: r.0.skipped,
                errors: r.0.errors,
                ..s
            })
        },
{
}

/// The entries of a directory are sorted by what is to be done: those to look into, those to
/// note; each in the order in which they were found, and none left out.
pub proof fn law_entries_are_sorted(
    f: ScopeFilter,
    collect: bool,
    rel: Seq<char>,
    entries: Seq<SweepEntry>,
    v: SweepVerdict,
    k: int,
    i: usize,
)
    requires
        0 <= k <= entries.len(),
        k <= usize::MAX,
    ensures
        swept(f, collect, rel, entries, v, k).contains(i) <==> i < k && sweep_verdict(
            f,
            collect,
            rel,
            entries[i as int],
        ) == v,
        forall|a: int, b: int|
            0 <= a < b < swept(f, collect, rel, entries, v, k).len() ==> #[trigger] swept(
                f,
                collect,
                rel,
                entries,
                v,
                k,
            )[a] < #[trigger] swept(f, collect, rel, entries, v, k)[b],
        forall|a: int|
            0 <= a < swept(f, collect, rel, entries, v, k).len() ==> (#[trigger] swept(
                f,
                collect,
                rel,
                entries,
                v,
                k,
            )[a]) < k,
    decreases k,
{
    if k > 0 {
        let before = swept(f, collect, rel, entries, v, k - 1);
        let now = swept(f, collect, rel, entries, v, k);
        law_entries_are_sorted(f, collect, rel, entries, v, k - 1, i);
        if before.contains(i) {
            let t = choose|t: int| 0 <= t < before.len() && before[t] == i;
            assert(now[t] == i);
        }
        if now.contains(i) && !before.contains(i) {
            let t = choose|t: int| 0 <= t < now.len() && now[t] == i;
            if t < before.len() {
                assert(before[t] == i);
            }
        }
        if now.len() > before.len() {
            assert(now[before.len() as int] == (k - 1) as usize);
        }
    }
}

} // verus!
