//! Which directories lie inside a git project, remembered during one run.

use crate::fsutil::GitProbe;
use crate::text;
use vstd::prelude::*;

verus! {

/// The directory above a relative path; empty for the chosen directory.
pub open spec fn parent_of(rel: Seq<char>) -> Seq<char> {
    match text::last_pos(rel, '/') {
        Some(i) => rel.take(i),
        None => Seq::empty(),
    }
}

/// The last position of a character lies in the text and holds it.
proof fn last_pos_in(s: Seq<char>, c: char)
    ensures
        text::last_pos(s, c) matches Some(i) ==> 0 <= i < s.len() && s[i] == c,
    decreases s.len(),
{
    if s.len() > 0 && s.last() != c {
        last_pos_in(s.drop_last(), c);
    }
}

/// The directory above is a shorter path.
pub proof fn parent_shorter(rel: Seq<char>)
    ensures
        rel.len() > 0 ==> parent_of(rel).len() < rel.len(),
{
    last_pos_in(rel, '/');
}

/// The directory above a relative path.
pub fn parent_rel(rel: &str) -> (r: String)
    ensures
        r@ == parent_of(rel@),
{
    let v = text::chars_of(rel);
    assert(v@.take(v@.len() as int) =~= v@);
    match text::last_index(&v, v.len(), '/') {
        Some(i) => {
            assert(v@.subrange(0, i as int) =~= v@.take(i as int));
            text::string_of(&v, 0, i)
        },
        None => {
            let empty = String::new();
            assert(empty@ =~= Seq::<char>::empty());
            empty
        },
    }
}

/// Whether a directory lies inside a git project: what is known of it, or else
/// what is found in it and in the directories above. `probes` holds what was
/// found, from the directory itself upwards; an error names the place in it.
pub open spec fn verdict(
    known: Map<Seq<char>, bool>,
    rel: Seq<char>,
    probes: Seq<GitProbe>,
    at: nat,
) -> Result<bool, nat>
    decreases rel.len(),
{
    if known.contains_key(rel) {
        Ok(known[rel])
    } else if rel.len() == 0 {
        Ok(false)
    } else {
        proof {
            parent_shorter(rel);
        }
        match verdict(known, parent_of(rel), probes, at + 1) {
            Err(e) => Err(e),
            Ok(true) => Ok(true),
            Ok(false) => if at >= probes.len() {
                Err(at)
            } else {
                match probes[at as int] {
                    GitProbe::Clean => Ok(false),
                    GitProbe::GitRoot => Ok(true),
                    GitProbe::Unreadable => Err(at),
                }
            },
        }
    }
}

/// What is known afterwards: also the directories that were looked at, down to
/// the first one that could not be examined.
pub open spec fn learned(
    known: Map<Seq<char>, bool>,
    rel: Seq<char>,
    probes: Seq<GitProbe>,
    at: nat,
) -> Map<Seq<char>, bool>
    decreases rel.len(),
{
    if known.contains_key(rel) || rel.len() == 0 {
        known
    } else {
        proof {
            parent_shorter(rel);
        }
        let above = learned(known, parent_of(rel), probes, at + 1);
        match verdict(known, rel, probes, at) {
            Ok(b) => above.insert(rel, b),
            Err(_) => above,
        }
    }
}

/// Remembers which directories lie inside a git project.
pub struct GitBoundaries {
    known: Vec<(String, bool)>,
}

/// The directories and verdicts of a list; the last one of a directory counts.
pub closed spec fn known_map(v: Seq<(String, bool)>) -> Map<Seq<char>, bool>
    decreases v.len(),
{
    if v.len() == 0 {
        Map::empty()
    } else {
        known_map(v.drop_last()).insert(v.last().0@, v.last().1)
    }
}

impl View for GitBoundaries {
    type V = Map<Seq<char>, bool>;

    closed spec fn view(&self) -> Map<Seq<char>, bool> {
        known_map(self.known@)
    }
}

impl GitBoundaries {
    /// Nothing is known yet.
    pub fn new() -> (r: GitBoundaries)
        ensures
            r@ == Map::<Seq<char>, bool>::empty(),
    {
        GitBoundaries { known: Vec::new() }
    }

    fn recall(&self, rel: &str) -> (r: Option<bool>)
        ensures
            match r {
                Some(b) => self@.contains_key(rel@) && self@[rel@] == b,
                None => !self@.contains_key(rel@),
            },
    {
        let mut i: usize = self.known.len();
        assert(self.known@.take(i as int) =~= self.known@);
        while i > 0
            invariant
                i <= self.known@.len(),
                self@.contains_key(rel@) == known_map(self.known@.take(i as int)).contains_key(
                    rel@,
                ),
                self@.contains_key(rel@) ==> self@[rel@] == known_map(
                    self.known@.take(i as int),
                )[rel@],
            decreases i,
        {
            assert(self.known@.take(i as int).drop_last() =~= self.known@.take(i - 1));
            if text::same(self.known[i - 1].0.as_str(), rel) {
                return Some(self.known[i - 1].1);
            }
            i = i - 1;
        }
        None
    }

    /// Whether the directory lies inside a git project below the chosen
    /// directory, which itself is not looked at. `probes` holds what was found
    /// in the directory, in the one above it, and so on; an error names the
    /// place of one that could not be examined.
    pub fn blocked(&mut self, rel: &str, probes: &Vec<GitProbe>, at: usize) -> (r: Result<
        bool,
        usize,
    >)
        requires
            at + rel@.len() <= usize::MAX,
        ensures
            final(self)@ == learned(old(self)@, rel@, probes@, at as nat),
            match r {
                Ok(b) => verdict(old(self)@, rel@, probes@, at as nat) == Ok::<bool, nat>(b),
                Err(e) => verdict(old(self)@, rel@, probes@, at as nat) == Err::<bool, nat>(
                    e as nat,
                ),
            },
        decreases rel@.len(),
    {
        if let Some(b) = self.recall(rel) {
            return Ok(b);
        }
        if rel.is_empty() {
            return Ok(false);
        }
        proof {
            parent_shorter(rel@);
        }
        let parent = parent_rel(rel);
        let above = match self.blocked(parent.as_str(), probes, at + 1) {
            Ok(b) => b,
            Err(e) => return Err(e),
        };
        let result = if above {
            true
        } else if at >= probes.len() {
            return Err(at);
        } else {
            match probes[at] {
                GitProbe::Clean => false,
                GitProbe::GitRoot => true,
                GitProbe::Unreadable => return Err(at),
            }
        };
        let ghost before = self.known@;
        self.known.push((rel.to_owned(), result));
        assert(self.known@.drop_last() =~= before);
        Ok(result)
    }
}

/// A directory is a git root or lies below one.
pub open spec fn inside_project(roots: Set<Seq<char>>, rel: Seq<char>) -> bool
    decreases rel.len(),
{
    if rel.len() == 0 {
        false
    } else {
        proof {
            parent_shorter(rel);
        }
        roots.contains(rel) || inside_project(roots, parent_of(rel))
    }
}

/// What is remembered is true.
pub open spec fn is_sound(known: Map<Seq<char>, bool>, roots: Set<Seq<char>>) -> bool {
    forall|d: Seq<char>| #[trigger]
        known.contains_key(d) ==> known[d] == inside_project(roots, d)
}

/// The probes tell of each directory from `rel` upwards whether it is a root.
pub open spec fn are_probes(
    roots: Set<Seq<char>>,
    rel: Seq<char>,
    probes: Seq<GitProbe>,
    at: nat,
) -> bool
    decreases rel.len(),
{
    rel.len() == 0 || {
        proof {
            parent_shorter(rel);
        }
        &&& at < probes.len()
        &&& probes[at as int] == (if roots.contains(rel) {
            GitProbe::GitRoot
        } else {
            GitProbe::Clean
        })
        &&& are_probes(roots, parent_of(rel), probes, at + 1)
    }
}

/// With a true memory and true probes the answer is true, and the memory stays
/// true: a verdict covers what lies below a directory, never its neighbours,
/// and a clean directory does not vouch for those below it.
pub proof fn law_boundaries_sound(
    known: Map<Seq<char>, bool>,
    roots: Set<Seq<char>>,
    rel: Seq<char>,
    probes: Seq<GitProbe>,
    at: nat,
)
    requires
        is_sound(known, roots),
        are_probes(roots, rel, probes, at),
    ensures
        verdict(known, rel, probes, at) == Ok::<bool, nat>(inside_project(roots, rel)),
        is_sound(learned(known, rel, probes, at), roots),
    decreases rel.len(),
{
    if !known.contains_key(rel) && rel.len() > 0 {
        parent_shorter(rel);
        law_boundaries_sound(known, roots, parent_of(rel), probes, at + 1);
    }
}

/// The directory above is what stands before the last name; above a single name is the
/// chosen directory.
pub proof fn law_the_directory_above(dir: Seq<char>, name: Seq<char>)
    requires
        !name.contains('/'),
    ensures
        parent_of(dir + seq!['/'] + name) == dir,
        parent_of(name) == Seq::<char>::empty(),
{
    let s = dir + seq!['/'] + name;
    text::law_last_place_of_a_character(s, '/');
    text::law_last_place_of_a_character(name, '/');
    assert(s[dir.len() as int] == '/');
    assert forall|k: int| dir.len() < k < s.len() implies s[k] != '/' by {
        assert(name[k - dir.len() - 1] == s[k]);
        assert(name.contains(name[k - dir.len() - 1]));
    }
    assert(s.take(dir.len() as int) =~= dir);
    assert forall|k: int| 0 <= k < name.len() implies name[k] != '/' by {
        assert(name.contains(name[k]));
    }
}

/// A directory that cannot be examined is an error where nothing above it is a project, and
/// the error names it; below a project it does not matter.
pub proof fn law_unreadable_directories(
    known: Map<Seq<char>, bool>,
    rel: Seq<char>,
    probes: Seq<GitProbe>,
    at: nat,
)
    requires
        rel.len() > 0,
        !known.contains_key(rel),
        at < probes.len(),
        probes[at as int] == GitProbe::Unreadable,
    ensures
        verdict(known, parent_of(rel), probes, at + 1) == Ok::<bool, nat>(false) ==> verdict(
            known,
            rel,
            probes,
            at,
        ) == Err::<bool, nat>(at) && learned(known, rel, probes, at) == learned(
            known,
            parent_of(rel),
            probes,
            at + 1,
        ),
        verdict(known, parent_of(rel), probes, at + 1) == Ok::<bool, nat>(true) ==> verdict(
            known,
            rel,
            probes,
            at,
        ) == Ok::<bool, nat>(true),
{
}

} // verus!
