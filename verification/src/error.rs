//! The error of a task: a chain of causes, the outermost first.

use crate::text;
use vstd::prelude::*;

verus! {

/// One link of an error chain.
#[derive(Debug)]
pub struct Cause {
    pub text: String,
    /// The task as a whole has to stop.
    pub stop: bool,
}

/// One link of an error chain: its text, and whether the task has to stop.
pub type CauseView = (Seq<char>, bool);

/// The links of a chain.
pub open spec fn cause_views(v: Seq<Cause>) -> Seq<CauseView> {
    Seq::new(v.len(), |i: int| (v[i].text@, v[i].stop))
}

/// An error with the circumstances under which it came up.
#[derive(Debug)]
pub struct TaskError {
    causes: Vec<Cause>,
}

impl View for TaskError {
    type V = Seq<CauseView>;

    closed spec fn view(&self) -> Seq<CauseView> {
        cause_views(self.causes@)
    }
}

/// The texts of a chain.
pub open spec fn cause_texts(chain: Seq<CauseView>) -> Seq<Seq<char>> {
    Seq::new(chain.len(), |i: int| chain[i].0)
}

impl TaskError {
    /// An error with one cause.
    pub fn new(message: &str) -> (r: TaskError)
        ensures
            r@ == seq![(message@, false)],
    {
        let mut causes: Vec<Cause> = Vec::new();
        causes.push(Cause { text: message.to_owned(), stop: false });
        let r = TaskError { causes };
        assert(r@ =~= seq![(message@, false)]);
        r
    }

    /// An error after which the whole task stops: nothing is wrong with the
    /// archive at hand.
    pub fn stop(message: &str) -> (r: TaskError)
        ensures
            r@ == seq![(message@, true)],
    {
        let mut causes: Vec<Cause> = Vec::new();
        causes.push(Cause { text: message.to_owned(), stop: true });
        let r = TaskError { causes };
        assert(r@ =~= seq![(message@, true)]);
        r
    }

    /// The error with a circumstance put in front.
    pub fn context(self, message: &str) -> (r: TaskError)
        ensures
            r@ == seq![(message@, false)] + self@,
    {
        let mut causes = self.causes;
        let ghost before = causes@;
        causes.insert(0, Cause { text: message.to_owned(), stop: false });
        let r = TaskError { causes };
        assert(r@ =~= seq![(message@, false)] + cause_views(before));
        r
    }

    /// The whole chain in one line, the outermost cause first.
    pub fn message(&self) -> (r: String)
        ensures
            r@ == text::join_with(cause_texts(self@), ": "@),
    {
        let mut parts: Vec<String> = Vec::new();
        let mut i: usize = 0;
        while i < self.causes.len()
            invariant
                i <= self.causes@.len(),
                text::texts(parts@) == cause_texts(self@).take(i as int),
            decreases self.causes.len() - i,
        {
            let ghost before = parts@;
            parts.push(self.causes[i].text.clone());
            assert(text::texts(parts@) =~= text::texts(before).push(self.causes@[i as int].text@));
            i = i + 1;
            assert(text::texts(parts@) =~= cause_texts(self@).take(i as int));
        }
        assert(cause_texts(self@).take(i as int) =~= cause_texts(self@));
        text::join(&parts, ": ")
    }
}

/// Some cause says that the whole task stops.
pub open spec fn has_stop(chain: Seq<CauseView>) -> bool {
    exists|i: int| 0 <= i < chain.len() && (#[trigger] chain[i]).1
}

/// Whether the error stops the whole extraction: the archive at hand stays where
/// it is and no further one is processed. Every cause of the chain counts.
pub fn stops_extraction(error: &TaskError) -> (r: bool)
    ensures
        r == has_stop(error@),
{
    let mut i: usize = 0;
    while i < error.causes.len()
        invariant
            i <= error.causes@.len(),
            forall|k: int| 0 <= k < i ==> !(#[trigger] error@[k]).1,
        decreases error.causes.len() - i,
    {
        if error.causes[i].stop {
            assert(error@[i as int].1);
            return true;
        }
        i = i + 1;
    }
    false
}

/// A circumstance put in front changes nothing about stopping.
pub proof fn law_context_keeps_stop(chain: Seq<CauseView>, message: Seq<char>)
    ensures
        has_stop(seq![(message, false)] + chain) == has_stop(chain),
{
    let longer = seq![(message, false)] + chain;
    if has_stop(chain) {
        let i = choose|i: int| 0 <= i < chain.len() && (#[trigger] chain[i]).1;
        assert(longer[i + 1] == chain[i]);
    }
    if has_stop(longer) {
        let i = choose|i: int| 0 <= i < longer.len() && (#[trigger] longer[i]).1;
        assert(longer[i] == chain[i - 1]);
    }
}

} // verus!
