//! The features of a name: which texts it is compared by, and the units that a
//! group may be named after.

use crate::functional::pieces;
use crate::functional::pieces::{Piece, PieceView};
use crate::text;
use vstd::hash_map::StringHashMap;
use vstd::prelude::*;

verus! {

/// A set of numbers, kept in increasing order.
#[derive(Debug)]
pub struct IdSet {
    items: Vec<usize>,
}

/// Strictly increasing.
pub open spec fn increasing(s: Seq<usize>) -> bool {
    forall|i: int, j: int| 0 <= i < j < s.len() ==> s[i] < s[j]
}

impl View for IdSet {
    type V = Set<usize>;

    closed spec fn view(&self) -> Set<usize> {
        self.items@.to_set()
    }
}

impl IdSet {
    /// The numbers in increasing order.
    pub closed spec fn list(&self) -> Seq<usize> {
        self.items@
    }

    #[verifier::type_invariant]
    spec fn ordered(&self) -> bool {
        increasing(self.items@)
    }

    /// The empty set.
    pub fn new() -> (r: IdSet)
        ensures
            r@ == Set::<usize>::empty(),
    {
        let r = IdSet { items: Vec::new() };
        assert(r@ =~= Set::<usize>::empty());
        r
    }

    /// The numbers in increasing order, each once.
    pub fn items(&self) -> (r: &Vec<usize>)
        ensures
            r@ == self.list(),
            increasing(r@),
            r@.to_set() == self@,
    {
        proof {
            use_type_invariant(self);
        }
        &self.items
    }

    /// Where a number stands or would have to stand.
    fn place(&self, id: usize) -> (r: usize)
        ensures
            r <= self.items@.len(),
            forall|k: int| 0 <= k < r ==> self.items@[k] < id,
            forall|k: int| r <= k < self.items@.len() ==> self.items@[k] >= id,
    {
        proof {
            use_type_invariant(self);
        }
        let mut low: usize = 0;
        let mut high: usize = self.items.len();
        while low < high
            invariant
                low <= high <= self.items@.len(),
                increasing(self.items@),
                forall|k: int| 0 <= k < low ==> self.items@[k] < id,
                forall|k: int| high <= k < self.items@.len() ==> self.items@[k] >= id,
            decreases high - low,
        {
            let mid: usize = low + (high - low) / 2;
            if self.items[mid] < id {
                low = mid + 1;
            } else {
                high = mid;
            }
        }
        low
    }

    pub fn contains(&self, id: usize) -> (r: bool)
        ensures
            r == self@.contains(id),
    {
        let at: usize = self.place(id);
        if at < self.items.len() && self.items[at] == id {
            assert(self.items@.contains(id));
            return true;
        }
        proof {
            use_type_invariant(self);
            if self.items@.contains(id) {
                let k = choose|k: int| 0 <= k < self.items@.len() && self.items@[k] == id;
                assert(k >= at);
                if at < k {
                    assert(self.items@[at as int] < self.items@[k]);
                }
            }
        }
        false
    }

    pub fn insert(&mut self, id: usize)
        ensures
            final(self)@ == old(self)@.insert(id),
    {
        proof {
            use_type_invariant(&*self);
        }
        if self.contains(id) {
            assert(self@.insert(id) =~= self@);
            return;
        }
        let at: usize = self.place(id);
        let ghost before = self.items@;
        let mut items: Vec<usize> = Vec::new();
        std::mem::swap(&mut items, &mut self.items);
        assert(items@ == before);
        items.insert(at, id);
        let ghost after = items@;
        assert forall|i: int, j: int| 0 <= i < j < after.len() implies after[i] < after[j] by {
            if at < before.len() {
                assert(before[at as int] >= id);
                assert(before.to_set().contains(before[at as int]));
            }
            if i < at && j < at {
                assert(before[i] < before[j]);
            } else if i < at && j > at {
                assert(before[i] < before[j - 1]);
            } else if i > at {
                assert(before[i - 1] < before[j - 1]);
            } else if i == at {
                assert(before[j - 1] >= id);
                if before[j - 1] == id {
                    assert(before.contains(id));
                }
            }
        }
        self.items = items;
        assert(self@ =~= old(self)@.insert(id)) by {
            assert forall|x: usize| self@.contains(x) <==> old(self)@.insert(id).contains(x) by {
                if before.contains(x) {
                    let k = choose|k: int| 0 <= k < before.len() && before[k] == x;
                    if k < at {
                        assert(after[k] == x);
                    } else {
                        assert(after[k + 1] == x);
                    }
                }
                if x == id {
                    assert(after[at as int] == x);
                }
                if after.contains(x) {
                    let k = choose|k: int| 0 <= k < after.len() && after[k] == x;
                    if k < at {
                        assert(before[k] == x);
                    } else if k > at {
                        assert(before[k - 1] == x);
                    }
                }
            }
        }
    }
}

/// Numbers for texts: each text that was entered has one, in order.
pub struct Interner {
    map: StringHashMap<usize>,
    names: Vec<String>,
}

/// No text stands twice.
pub open spec fn distinct(names: Seq<Seq<char>>) -> bool {
    forall|i: int, j: int| 0 <= i < j < names.len() ==> names[i] != names[j]
}

/// The list after one more text was entered.
pub open spec fn entered(names: Seq<Seq<char>>, t: Seq<char>) -> Seq<Seq<char>> {
    if names.contains(t) {
        names
    } else {
        names.push(t)
    }
}

/// The list after some texts were entered one after the other.
pub open spec fn entered_all(names: Seq<Seq<char>>, ts: Seq<Seq<char>>) -> Seq<Seq<char>>
    decreases ts.len(),
{
    if ts.len() == 0 {
        names
    } else {
        entered(entered_all(names, ts.drop_last()), ts.last())
    }
}

impl View for Interner {
    type V = Seq<Seq<char>>;

    closed spec fn view(&self) -> Seq<Seq<char>> {
        text::texts(self.names@)
    }
}

impl Interner {
    /// The map knows exactly the texts of the list, with their places.
    pub closed spec fn valid(&self) -> bool {
        &&& distinct(self@)
        &&& forall|i: int| 0 <= i < self@.len() ==> self.map@.contains_key(#[trigger] self@[i])
        &&& forall|t: Seq<char>| #[trigger]
            self.map@.contains_key(t) ==> self.map@[t] < self@.len() && self@[self.map@[t] as int]
                == t
    }

    /// Nothing was entered yet.
    pub fn new() -> (r: Interner)
        ensures
            r.valid(),
            r@ == Seq::<Seq<char>>::empty(),
    {
        let r = Interner { map: StringHashMap::new(), names: Vec::new() };
        assert(r@ =~= Seq::<Seq<char>>::empty());
        r
    }

    /// The number of a text; a text that was not entered yet gets the next one.
    pub fn intern(&mut self, value: &str) -> (r: usize)
        requires
            old(self).valid(),
        ensures
            final(self).valid(),
            r < final(self)@.len(),
            final(self)@[r as int] == value@,
            final(self)@ == entered(old(self)@, value@),
    {
        if let Some(id) = self.map.get(value) {
            assert(self@.contains(self@[*id as int]));
            return *id;
        }
        let id: usize = self.names.len();
        let ghost before = self@;
        let ghost old_map = self.map@;
        assert(!before.contains(value@)) by {
            if before.contains(value@) {
                let k = choose|k: int| 0 <= k < before.len() && before[k] == value@;
                assert(old_map.contains_key(before[k]));
            }
        }
        self.names.push(value.to_owned());
        self.map.insert(value.to_owned(), id);
        proof {
            assert(self@ =~= before.push(value@));
            assert forall|i: int, j: int| 0 <= i < j < self@.len() implies self@[i] != self@[j] by {
                if j == before.len() {
                    assert(before.contains(before[i]));
                }
            }
            assert forall|t: Seq<char>| #[trigger] self.map@.contains_key(t) implies self.map@[t]
                < self@.len() && self@[self.map@[t] as int] == t by {
                if t != value@ {
                    assert(old_map.contains_key(t));
                }
            }
            assert forall|i: int| 0 <= i < self@.len() implies self.map@.contains_key(
                #[trigger] self@[i],
            ) by {
                if i < before.len() {
                    assert(old_map.contains_key(before[i]));
                }
            }
        }
        id
    }

    /// How many texts were entered.
    pub fn len(&self) -> (r: usize)
        ensures
            r == self@.len(),
    {
        self.names.len()
    }

    /// The text with a number; empty where there is none.
    pub fn text(&self, id: usize) -> (r: &str)
        ensures
            r@ == (if id < self@.len() {
                self@[id as int]
            } else {
                Seq::empty()
            }),
    {
        if id < self.names.len() {
            self.names[id].as_str()
        } else {
            let empty = "";
            proof {
                reveal_strlit("");
                assert(empty@ =~= Seq::<char>::empty());
            }
            empty
        }
    }
}

/// The numbers of some texts.
pub open spec fn ids(names: Seq<Seq<char>>, texts: Set<Seq<char>>) -> Set<usize> {
    Set::new(|i: usize| i < names.len() && texts.contains(names[i as int]))
}

/// Every one of the texts has a number.
pub open spec fn all_named(names: Seq<Seq<char>>, texts: Set<Seq<char>>) -> bool {
    forall|t: Seq<char>| #[trigger] texts.contains(t) ==> names.contains(t)
}

/// Numbers that stand for the given texts, one by one.
pub open spec fn spells(names: Seq<Seq<char>>, list: Seq<usize>, ts: Seq<Seq<char>>) -> bool {
    &&& list.len() == ts.len()
    &&& forall|i: int|
        0 <= i < list.len() ==> (#[trigger] list[i]) < names.len() && names[list[i] as int] == ts[i]
}

/// One list of texts starts with the other.
pub open spec fn extends(longer: Seq<Seq<char>>, names: Seq<Seq<char>>) -> bool {
    &&& names.len() <= longer.len()
    &&& forall|i: int| 0 <= i < names.len() ==> #[trigger] longer[i] == names[i]
}

/// Entering texts keeps what was there, and every one of them is there afterwards.
pub proof fn entered_extends(names: Seq<Seq<char>>, ts: Seq<Seq<char>>)
    ensures
        extends(entered_all(names, ts), names),
        all_named(entered_all(names, ts), ts.to_set()),
        distinct(names) ==> distinct(entered_all(names, ts)),
    decreases ts.len(),
{
    if ts.len() > 0 {
        entered_extends(names, ts.drop_last());
        let before = entered_all(names, ts.drop_last());
        let after = entered_all(names, ts);
        assert forall|t: Seq<char>| #[trigger] ts.to_set().contains(t) implies after.contains(t) by {
            let k = choose|k: int| 0 <= k < ts.len() && ts[k] == t;
            if k < ts.len() - 1 {
                assert(ts.drop_last()[k] == t);
                assert(ts.drop_last().to_set().contains(t));
                let j = choose|j: int| 0 <= j < before.len() && before[j] == t;
                assert(after[j] == t);
            } else if !before.contains(t) {
                assert(after[before.len() as int] == t);
            }
        }
        if distinct(names) {
            assert forall|i: int, j: int| 0 <= i < j < after.len() implies after[i] != after[j] by {
                if j == before.len() {
                    assert(before.contains(before[i]));
                }
            }
        }
    }
}

/// Entering one list and then another is entering both in a row.
pub proof fn entered_append(names: Seq<Seq<char>>, a: Seq<Seq<char>>, b: Seq<Seq<char>>)
    ensures
        entered_all(names, a + b) == entered_all(entered_all(names, a), b),
    decreases b.len(),
{
    if b.len() == 0 {
        assert(a + b =~= a);
    } else {
        assert((a + b).drop_last() =~= a + b.drop_last());
        entered_append(names, a, b.drop_last());
    }
}

/// Entering more texts changes no set of numbers.
pub proof fn ids_stay(names: Seq<Seq<char>>, longer: Seq<Seq<char>>, texts: Set<Seq<char>>)
    requires
        distinct(longer),
        extends(longer, names),
        all_named(names, texts),
    ensures
        ids(longer, texts) == ids(names, texts),
        all_named(longer, texts),
{
    assert forall|i: usize| ids(longer, texts).contains(i) <==> ids(names, texts).contains(i) by {
        if names.len() <= i < longer.len() && texts.contains(longer[i as int]) {
            assert(names.contains(longer[i as int]));
            let k = choose|k: int| 0 <= k < names.len() && names[k] == longer[i as int];
            assert(longer[k] == names[k]);
        }
    }
    assert(ids(longer, texts) =~= ids(names, texts));
    assert forall|t: Seq<char>| #[trigger] texts.contains(t) implies longer.contains(t) by {
        assert(names.contains(t));
        let k = choose|k: int| 0 <= k < names.len() && names[k] == t;
        assert(longer[k] == t);
    }
}

/// The numbers that spell a list are the numbers of its texts.
pub proof fn spelled_ids(names: Seq<Seq<char>>, list: Seq<usize>, ts: Seq<Seq<char>>)
    requires
        distinct(names),
        spells(names, list, ts),
    ensures
        list.to_set() == ids(names, ts.to_set()),
        all_named(names, ts.to_set()),
{
    assert forall|i: usize| list.to_set().contains(i) <==> ids(names, ts.to_set()).contains(i) by {
        if list.contains(i) {
            let k = choose|k: int| 0 <= k < list.len() && list[k] == i;
            assert(ts.contains(ts[k]));
        }
        if i < names.len() && ts.contains(names[i as int]) {
            let k = choose|k: int| 0 <= k < ts.len() && ts[k] == names[i as int];
            assert(names[list[k] as int] == ts[k]);
            assert(list[k] == i);
        }
    }
    assert(list.to_set() =~= ids(names, ts.to_set()));
    assert forall|t: Seq<char>| #[trigger] ts.to_set().contains(t) implies names.contains(t) by {
        let k = choose|k: int| 0 <= k < ts.len() && ts[k] == t;
        assert(names[list[k] as int] == t);
    }
}

impl Interner {
    /// Enters some texts, in order, and says which numbers they have.
    pub fn intern_all(&mut self, list: &Vec<String>) -> (r: Vec<usize>)
        requires
            old(self).valid(),
        ensures
            final(self).valid(),
            final(self)@ == entered_all(old(self)@, text::texts(list@)),
            spells(final(self)@, r@, text::texts(list@)),
    {
        let ghost before = self@;
        let ghost all = text::texts(list@);
        let mut r: Vec<usize> = Vec::new();
        let mut i: usize = 0;
        assert(all.take(0) =~= Seq::<Seq<char>>::empty());
        while i < list.len()
            invariant
                i <= list@.len(),
                all == text::texts(list@),
                self.valid(),
                self@ == entered_all(before, all.take(i as int)),
                spells(self@, r@, all.take(i as int)),
            decreases list.len() - i,
        {
            let id: usize = self.intern(list[i].as_str());
            r.push(id);
            proof {
                assert(all.take(i + 1).drop_last() =~= all.take(i as int));
                assert(all.take(i + 1).last() == list@[i as int]@);
                assert forall|k: int| 0 <= k < r@.len() implies (#[trigger] r@[k]) < self@.len()
                    && self@[r@[k] as int] == all.take(i + 1)[k] by {
                    if k < i {
                        assert(all.take(i as int)[k] == all[k]);
                    }
                }
            }
            i = i + 1;
        }
        assert(all.take(i as int) =~= all);
        r
    }

    /// No text has two numbers.
    pub proof fn valid_distinct(&self)
        requires
            self.valid(),
        ensures
            distinct(self@),
    {
    }
}

/// All texts with `len` characters that occur in `s`, from the front.
pub open spec fn grams(s: Seq<char>, len: int) -> Seq<Seq<char>> {
    if s.len() < len {
        Seq::empty()
    } else {
        Seq::new((s.len() - len + 1) as nat, |i: int| s.subrange(i, i + len))
    }
}

/// Puts all texts with `len` characters behind a list.
fn push_grams(v: &Vec<char>, len: usize, out: &mut Vec<String>)
    requires
        len >= 1,
    ensures
        text::texts(final(out)@) == text::texts(old(out)@) + grams(v@, len as int),
{
    let ghost before = text::texts(out@);
    let ghost all = grams(v@, len as int);
    if v.len() < len {
        assert(before + all =~= before);
        return;
    }
    let last: usize = v.len() - len;
    let mut i: usize = 0;
    assert(before + all.take(0) =~= before);
    while i <= last
        invariant
            i <= last + 1,
            last == v@.len() - len,
            last + len == v.len(),
            len >= 1,
            all == grams(v@, len as int),
            text::texts(out@) == before + all.take(i as int),
        decreases last + 1 - i,
    {
        let ghost sofar = out@;
        let gram = text::string_of(v, i, i + len);
        out.push(gram);
        proof {
            text::texts_push(sofar, gram);
            assert(all.take(i + 1) =~= all.take(i as int).push(all[i as int]));
            assert(text::texts(out@) =~= before + all.take(i + 1));
        }
        i = i + 1;
    }
    assert(all.take(i as int) =~= all);
}

/// What a piece is compared by: a word itself and, from five letters on, its
/// four-letter parts; two and three neighbouring characters otherwise.
pub open spec fn token_list(p: PieceView) -> Seq<Seq<char>> {
    match p {
        PieceView::Word(w, _) => if w.len() >= 5 {
            seq![w] + grams(w, 4)
        } else {
            seq![w]
        },
        PieceView::Cjk(s) => grams(s, 2) + grams(s, 3),
    }
}

/// The parts of a word with `len` letters, where it is longer.
pub open spec fn inner_grams(w: Seq<char>, len: int) -> Seq<Seq<char>> {
    if w.len() > len {
        grams(w, len)
    } else {
        Seq::empty()
    }
}

/// The parts of a word with three to six letters.
pub open spec fn part_list(p: PieceView) -> Seq<Seq<char>> {
    match p {
        PieceView::Word(w, _) => inner_grams(w, 3) + inner_grams(w, 4) + inner_grams(w, 5)
            + inner_grams(w, 6),
        PieceView::Cjk(_) => Seq::empty(),
    }
}

/// The units that a name may be made of: a word, or single characters.
pub open spec fn unit_list(p: PieceView) -> Seq<Seq<char>> {
    match p {
        PieceView::Word(w, _) => seq![w],
        PieceView::Cjk(s) => Seq::new(s.len(), |i: int| seq![s[i]]),
    }
}

/// A word that was written in capitals.
pub open spec fn acronym_list(p: PieceView) -> Seq<Seq<char>> {
    match p {
        PieceView::Word(w, true) => seq![w],
        _ => Seq::empty(),
    }
}

/// What a piece adds to the whole text.
pub open spec fn piece_text(p: PieceView) -> Seq<char> {
    match p {
        PieceView::Word(w, _) => w,
        PieceView::Cjk(s) => s,
    }
}

fn tokens_of(p: &Piece) -> (r: Vec<String>)
    ensures
        text::texts(r@) == token_list(p@),
{
    let mut out: Vec<String> = Vec::new();
    match p {
        Piece::Word(w, _) => {
            let v = text::chars_of(w.as_str());
            out.push(text::string_of(&v, 0, v.len()));
            assert(v@.subrange(0, v@.len() as int) =~= w@);
            assert(text::texts(out@) =~= seq![w@]);
            if v.len() >= 5 {
                push_grams(&v, 4, &mut out);
            }
        },
        Piece::Cjk(s) => {
            assert(text::texts(out@) =~= Seq::<Seq<char>>::empty());
            push_grams(s, 2, &mut out);
            assert(text::texts(out@) =~= grams(s@, 2));
            push_grams(s, 3, &mut out);
        },
    }
    out
}

fn parts_of(p: &Piece) -> (r: Vec<String>)
    ensures
        text::texts(r@) == part_list(p@),
{
    let mut out: Vec<String> = Vec::new();
    assert(text::texts(out@) =~= Seq::<Seq<char>>::empty());
    match p {
        Piece::Word(w, _) => {
            let v = text::chars_of(w.as_str());
            if v.len() > 3 {
                push_grams(&v, 3, &mut out);
            }
            assert(text::texts(out@) =~= inner_grams(v@, 3));
            if v.len() > 4 {
                push_grams(&v, 4, &mut out);
            }
            assert(text::texts(out@) =~= inner_grams(v@, 3) + inner_grams(v@, 4));
            if v.len() > 5 {
                push_grams(&v, 5, &mut out);
            }
            assert(text::texts(out@) =~= inner_grams(v@, 3) + inner_grams(v@, 4) + inner_grams(
                v@,
                5,
            ));
            if v.len() > 6 {
                push_grams(&v, 6, &mut out);
            }
            assert(text::texts(out@) =~= part_list(p@));
        },
        Piece::Cjk(_) => {},
    }
    out
}

fn units_of(p: &Piece) -> (r: Vec<String>)
    ensures
        text::texts(r@) == unit_list(p@),
{
    let mut out: Vec<String> = Vec::new();
    match p {
        Piece::Word(w, _) => {
            out.push(text::string_of(&text::chars_of(w.as_str()), 0, w.as_str().unicode_len()));
            assert(w@.subrange(0, w@.len() as int) =~= w@);
            assert(text::texts(out@) =~= seq![w@]);
        },
        Piece::Cjk(s) => {
            let mut i: usize = 0;
            while i < s.len()
                invariant
                    i <= s@.len(),
                    text::texts(out@) == Seq::new(i as nat, |k: int| seq![s@[k]]),
                decreases s.len() - i,
            {
                let ghost sofar = out@;
                let unit = text::string_of(s, i, i + 1);
                out.push(unit);
                proof {
                    text::texts_push(sofar, unit);
                    assert(s@.subrange(i as int, i + 1) =~= seq![s@[i as int]]);
                    assert(text::texts(out@) =~= Seq::new((i + 1) as nat, |k: int| seq![s@[k]]));
                }
                i = i + 1;
            }
            assert(text::texts(out@) =~= unit_list(p@));
        },
    }
    out
}

fn acronyms_of(p: &Piece) -> (r: Vec<String>)
    ensures
        text::texts(r@) == acronym_list(p@),
{
    let mut out: Vec<String> = Vec::new();
    match p {
        Piece::Word(w, mark) => {
            if *mark {
                out.push(text::string_of(&text::chars_of(w.as_str()), 0, w.as_str().unicode_len()));
                assert(w@.subrange(0, w@.len() as int) =~= w@);
            }
        },
        Piece::Cjk(_) => {},
    }
    assert(text::texts(out@) =~= acronym_list(p@));
    out
}

fn text_of(p: &Piece) -> (r: String)
    ensures
        r@ == piece_text(p@),
{
    match p {
        Piece::Word(w, _) => {
            assert(w@.subrange(0, w@.len() as int) =~= w@);
            text::string_of(&text::chars_of(w.as_str()), 0, w.as_str().unicode_len())
        },
        Piece::Cjk(s) => {
            assert(s@.subrange(0, s@.len() as int) =~= s@);
            text::string_of(s, 0, s.len())
        },
    }
}

/// What a piece enters, in order.
pub open spec fn piece_entries(p: PieceView) -> Seq<Seq<char>> {
    unit_list(p) + token_list(p) + acronym_list(p) + part_list(p)
}

/// What some pieces enter, in order.
pub open spec fn all_entries(ps: Seq<PieceView>) -> Seq<Seq<char>>
    decreases ps.len(),
{
    if ps.len() == 0 {
        Seq::empty()
    } else {
        all_entries(ps.drop_last()) + piece_entries(ps.last())
    }
}

/// All that some pieces are compared by.
pub open spec fn token_texts(ps: Seq<PieceView>) -> Set<Seq<char>>
    decreases ps.len(),
{
    if ps.len() == 0 {
        Set::empty()
    } else {
        token_texts(ps.drop_last()).union(token_list(ps.last()).to_set())
    }
}

/// All parts of the words among some pieces.
pub open spec fn part_texts(ps: Seq<PieceView>) -> Set<Seq<char>>
    decreases ps.len(),
{
    if ps.len() == 0 {
        Set::empty()
    } else {
        part_texts(ps.drop_last()).union(part_list(ps.last()).to_set())
    }
}

/// All words in capitals among some pieces.
pub open spec fn acronym_texts(ps: Seq<PieceView>) -> Set<Seq<char>>
    decreases ps.len(),
{
    if ps.len() == 0 {
        Set::empty()
    } else {
        acronym_texts(ps.drop_last()).union(acronym_list(ps.last()).to_set())
    }
}

/// The features of one text, as numbers of an interner.
pub struct RawPart {
    pub tokens: IdSet,
    pub runs: Vec<Vec<usize>>,
    pub acronyms: IdSet,
    pub substrings: IdSet,
    pub text: String,
}

/// The features are those of some pieces.
pub open spec fn describes(part: RawPart, ps: Seq<PieceView>, names: Seq<Seq<char>>) -> bool {
    &&& part.tokens@ == ids(names, token_texts(ps)) && all_named(names, token_texts(ps))
    &&& part.acronyms@ == ids(names, acronym_texts(ps)) && all_named(names, acronym_texts(ps))
    &&& part.substrings@ == ids(names, part_texts(ps)) && all_named(names, part_texts(ps))
    &&& part.runs@.len() == ps.len()
    &&& forall|i: int|
        0 <= i < ps.len() ==> spells(names, (#[trigger] part.runs@[i])@, unit_list(ps[i]))
    &&& part.text@ == text::join_with(ps.map_values(|p: PieceView| piece_text(p)), " "@)
}

/// A description stays true when more texts are entered.
pub proof fn describes_stays(
    part: RawPart,
    ps: Seq<PieceView>,
    names: Seq<Seq<char>>,
    longer: Seq<Seq<char>>,
)
    requires
        describes(part, ps, names),
        distinct(longer),
        extends(longer, names),
    ensures
        describes(part, ps, longer),
{
    ids_stay(names, longer, token_texts(ps));
    ids_stay(names, longer, acronym_texts(ps));
    ids_stay(names, longer, part_texts(ps));
    assert forall|i: int| 0 <= i < ps.len() implies spells(
        longer,
        (#[trigger] part.runs@[i])@,
        unit_list(ps[i]),
    ) by {
        assert(spells(names, part.runs@[i]@, unit_list(ps[i])));
    }
}

impl IdSet {
    /// Puts some numbers in.
    pub fn insert_all(&mut self, list: &Vec<usize>)
        ensures
            final(self)@ == old(self)@.union(list@.to_set()),
    {
        let ghost before = self@;
        let mut i: usize = 0;
        assert(before.union(list@.take(0).to_set()) =~= before);
        while i < list.len()
            invariant
                i <= list@.len(),
                self@ == before.union(list@.take(i as int).to_set()),
            decreases list.len() - i,
        {
            self.insert(list[i]);
            proof {
                let now = list@.take(i + 1);
                assert(now =~= list@.take(i as int).push(list@[i as int]));
                assert forall|x: usize| now.to_set().contains(x) <==> list@.take(
                    i as int,
                ).to_set().insert(list@[i as int]).contains(x) by {
                    if now.contains(x) {
                        let k = choose|k: int| 0 <= k < now.len() && now[k] == x;
                        if k < i {
                            assert(list@.take(i as int)[k] == x);
                        }
                    }
                    if list@.take(i as int).contains(x) {
                        let k = choose|k: int|
                            0 <= k < i && list@.take(i as int)[k] == x;
                        assert(now[k] == x);
                    }
                    assert(now[i as int] == list@[i as int]);
                }
                assert(before.union(now.to_set()) =~= before.union(
                    list@.take(i as int).to_set(),
                ).insert(list@[i as int]));
            }
            i = i + 1;
        }
        assert(list@.take(i as int) =~= list@);
    }
}

/// Union with the numbers of one more piece.
proof fn ids_union(
    names: Seq<Seq<char>>,
    longer: Seq<Seq<char>>,
    texts: Set<Seq<char>>,
    list: Seq<usize>,
    ts: Seq<Seq<char>>,
)
    requires
        distinct(longer),
        extends(longer, names),
        all_named(names, texts),
        spells(longer, list, ts),
    ensures
        ids(names, texts).union(list.to_set()) == ids(longer, texts.union(ts.to_set())),
        all_named(longer, texts.union(ts.to_set())),
{
    ids_stay(names, longer, texts);
    spelled_ids(longer, list, ts);
    assert(ids(longer, texts).union(ids(longer, ts.to_set())) =~= ids(
        longer,
        texts.union(ts.to_set()),
    ));
}

/// The features of some pieces.
pub fn describe(pieces: &Vec<Piece>, interner: &mut Interner) -> (r: RawPart)
    requires
        old(interner).valid(),
    ensures
        final(interner).valid(),
        final(interner)@ == entered_all(old(interner)@, all_entries(pieces::piece_views(pieces@))),
        describes(r, pieces::piece_views(pieces@), final(interner)@),
{
    let ghost ps = pieces::piece_views(pieces@);
    let ghost start = interner@;
    let mut tokens = IdSet::new();
    let mut acronyms = IdSet::new();
    let mut substrings = IdSet::new();
    let mut runs: Vec<Vec<usize>> = Vec::new();
    let mut texts: Vec<String> = Vec::new();
    let mut i: usize = 0;
    proof {
        assert(ps.take(0) =~= Seq::<PieceView>::empty());
        assert(ids(interner@, Set::empty()) =~= Set::<usize>::empty());
        assert(text::texts(texts@) =~= Seq::<Seq<char>>::empty());
        assert(ps.take(0).map_values(|p: PieceView| piece_text(p)) =~= Seq::<Seq<char>>::empty());
    }
    while i < pieces.len()
        invariant
            i <= pieces@.len(),
            ps == pieces::piece_views(pieces@),
            interner.valid(),
            interner@ == entered_all(start, all_entries(ps.take(i as int))),
            tokens@ == ids(interner@, token_texts(ps.take(i as int))),
            all_named(interner@, token_texts(ps.take(i as int))),
            acronyms@ == ids(interner@, acronym_texts(ps.take(i as int))),
            all_named(interner@, acronym_texts(ps.take(i as int))),
            substrings@ == ids(interner@, part_texts(ps.take(i as int))),
            all_named(interner@, part_texts(ps.take(i as int))),
            runs@.len() == i,
            forall|k: int|
                0 <= k < i ==> spells(interner@, (#[trigger] runs@[k])@, unit_list(ps[k])),
            text::texts(texts@) == ps.take(i as int).map_values(|p: PieceView| piece_text(p)),
        decreases pieces.len() - i,
    {
        let piece = &pieces[i];
        let ghost n0 = interner@;
        let units = interner.intern_all(&units_of(piece));
        let ghost n1 = interner@;
        let token_ids = interner.intern_all(&tokens_of(piece));
        let ghost n2 = interner@;
        let acronym_ids = interner.intern_all(&acronyms_of(piece));
        let ghost n3 = interner@;
        let part_ids = interner.intern_all(&parts_of(piece));
        let ghost n4 = interner@;
        let ghost v = ps[i as int];
        let ghost so_far = ps.take(i as int);
        proof {
            interner.valid_distinct();
            assert(v == piece@);
            entered_extends(n0, unit_list(v));
            entered_extends(n1, token_list(v));
            entered_extends(n2, acronym_list(v));
            entered_extends(n3, part_list(v));
            assert(extends(n4, n0));
            assert(spells(n4, token_ids@, token_list(v)));
            assert(spells(n4, acronym_ids@, acronym_list(v)));
            assert(spells(n4, units@, unit_list(v)));
            ids_union(n0, n4, token_texts(so_far), token_ids@, token_list(v));
            ids_union(n0, n4, acronym_texts(so_far), acronym_ids@, acronym_list(v));
            ids_union(n0, n4, part_texts(so_far), part_ids@, part_list(v));
            assert(ps.take(i + 1).drop_last() =~= so_far);
            assert(ps.take(i + 1).last() == v);
            entered_append(n0, unit_list(v), token_list(v));
            entered_append(n0, unit_list(v) + token_list(v), acronym_list(v));
            entered_append(n0, unit_list(v) + token_list(v) + acronym_list(v), part_list(v));
            entered_append(start, all_entries(so_far), piece_entries(v));
        }
        tokens.insert_all(&token_ids);
        acronyms.insert_all(&acronym_ids);
        substrings.insert_all(&part_ids);
        let ghost before_runs = runs@;
        runs.push(units);
        let whole = text_of(piece);
        let ghost before_texts = texts@;
        texts.push(whole);
        proof {
            text::texts_push(before_texts, whole);
            assert(ps.take(i + 1).map_values(|p: PieceView| piece_text(p)) =~= so_far.map_values(
                |p: PieceView| piece_text(p),
            ).push(whole@));
            assert forall|k: int| 0 <= k < i + 1 implies spells(
                interner@,
                (#[trigger] runs@[k])@,
                unit_list(ps[k]),
            ) by {
                if k < i {
                    assert(runs@[k] == before_runs[k]);
                    assert(spells(n0, before_runs[k]@, unit_list(ps[k])));
                }
            }
        }
        i = i + 1;
    }
    let joined = text::join(&texts, " ");
    assert(ps.take(i as int) =~= ps);
    RawPart { tokens, runs, acronyms, substrings, text: joined }
}

/// The pieces of a raw text.
pub open spec fn pieces_in(raw: Seq<char>) -> Seq<PieceView> {
    pieces::text_pieces(pieces::normal_form(raw))
}

/// The features of a text: of a file's name without its extension, or of the
/// name of its directory.
pub fn extract_part(raw: &str, interner: &mut Interner) -> (r: RawPart)
    requires
        old(interner).valid(),
    ensures
        final(interner).valid(),
        final(interner)@ == entered_all(old(interner)@, all_entries(pieces_in(raw@))),
        describes(r, pieces_in(raw@), final(interner)@),
{
    let pieces = pieces::pieces_of(raw);
    describe(&pieces, interner)
}

/// The parts of a text are all that stand in it with that length.
pub proof fn law_parts_of_a_text(s: Seq<char>, len: int, x: Seq<char>)
    requires
        len >= 0,
    ensures
        grams(s, len).contains(x) <==> x.len() == len && exists|i: int|
            0 <= i && i + len <= s.len() && #[trigger] s.subrange(i, i + len) == x,
{
    if grams(s, len).contains(x) {
        let i = choose|i: int| 0 <= i < grams(s, len).len() && grams(s, len)[i] == x;
        assert(s.subrange(i, i + len) == x);
    }
    if x.len() == len && exists|i: int|
        0 <= i && i + len <= s.len() && #[trigger] s.subrange(i, i + len) == x {
        let i = choose|i: int| 0 <= i && i + len <= s.len() && #[trigger] s.subrange(i, i + len) == x;
        assert(grams(s, len)[i] == x);
    }
}

/// What a word is compared by: itself always, and its parts of four letters where it is
/// longer than they are. Chinese characters are compared by two and three neighbours.
pub proof fn law_what_pieces_are_compared_by(w: Seq<char>, mark: bool, x: Seq<char>)
    ensures
        token_list(PieceView::Word(w, mark)).contains(x) <==> x == w || (w.len() >= 5 && x.len()
            == 4 && exists|i: int| 0 <= i && i + 4 <= w.len() && #[trigger] w.subrange(i, i + 4) == x),
        token_list(PieceView::Cjk(w)).contains(x) <==> (x.len() == 2 || x.len() == 3) && exists|
            i: int,
        |
            0 <= i && i + x.len() <= w.len() && #[trigger] w.subrange(i, i + x.len()) == x,
{
    law_parts_of_a_text(w, 4, x);
    law_parts_of_a_text(w, 2, x);
    law_parts_of_a_text(w, 3, x);
    let a = seq![w];
    let g = grams(w, 4);
    joined_lists(a, g, x);
    joined_lists(grams(w, 2), grams(w, 3), x);
    assert(a.contains(x) <==> x == w) by {
        if x == w {
            assert(a[0] == x);
        }
    }
}

proof fn joined_lists(a: Seq<Seq<char>>, b: Seq<Seq<char>>, x: Seq<char>)
    ensures
        (a + b).contains(x) <==> a.contains(x) || b.contains(x),
{
    let s = a + b;
    if s.contains(x) {
        let i = choose|i: int| 0 <= i < s.len() && s[i] == x;
        if i < a.len() {
            assert(a[i] == x);
        } else {
            assert(b[i - a.len()] == x);
        }
    }
    if a.contains(x) {
        let i = choose|i: int| 0 <= i < a.len() && a[i] == x;
        assert(s[i] == x);
    }
    if b.contains(x) {
        let i = choose|i: int| 0 <= i < b.len() && b[i] == x;
        assert(s[a.len() + i] == x);
    }
}

/// A word may name a group as a whole, Chinese characters one by one; only a word that was
/// written in capitals is an acronym.
pub proof fn law_what_names_are_made_of(w: Seq<char>, mark: bool)
    ensures
        unit_list(PieceView::Word(w, mark)) == seq![w],
        unit_list(PieceView::Cjk(w)).len() == w.len(),
        forall|i: int|
            0 <= i < w.len() ==> #[trigger] unit_list(PieceView::Cjk(w))[i] == seq![w[i]],
        acronym_list(PieceView::Word(w, mark)).contains(w) <==> mark,
        acronym_list(PieceView::Word(w, true)) == seq![w],
        acronym_list(PieceView::Cjk(w)).len() == 0,
        piece_text(PieceView::Word(w, mark)) == w,
        piece_text(PieceView::Cjk(w)) == w,
{
    assert(seq![w][0] == w);
    assert(seq![w].contains(w));
}

/// A text is compared by all that its pieces are compared by, and by nothing else; the same
/// of its acronyms and of the parts of its words.
pub proof fn law_a_text_has_the_features_of_its_pieces(ps: Seq<PieceView>, x: Seq<char>)
    ensures
        token_texts(ps).contains(x) <==> exists|i: int|
            0 <= i < ps.len() && token_list(#[trigger] ps[i]).contains(x),
        acronym_texts(ps).contains(x) <==> exists|i: int|
            0 <= i < ps.len() && acronym_list(#[trigger] ps[i]).contains(x),
        part_texts(ps).contains(x) <==> exists|i: int|
            0 <= i < ps.len() && part_list(#[trigger] ps[i]).contains(x),
    decreases ps.len(),
{
    if ps.len() > 0 {
        let before = ps.drop_last();
        law_a_text_has_the_features_of_its_pieces(before, x);
        assert(forall|i: int| 0 <= i < before.len() ==> #[trigger] before[i] == ps[i]);
        assert(ps[ps.len() - 1] == ps.last());
        assert forall|i: int| 0 <= i < ps.len() - 1 implies #[trigger] ps[i] == before[i] by {}
    }
}

/// Words have parts of three to six letters, where they are longer than those.
pub proof fn law_parts_of_words(w: Seq<char>, mark: bool, x: Seq<char>)
    ensures
        part_list(PieceView::Word(w, mark)).contains(x) <==> 3 <= x.len() <= 6 && x.len() < w.len()
            && exists|i: int|
            0 <= i && i + x.len() <= w.len() && #[trigger] w.subrange(i, i + x.len()) == x,
{
    law_parts_of_a_text(w, 3, x);
    law_parts_of_a_text(w, 4, x);
    law_parts_of_a_text(w, 5, x);
    law_parts_of_a_text(w, 6, x);
    let a = inner_grams(w, 3);
    let b = inner_grams(w, 4);
    let c = inner_grams(w, 5);
    let d = inner_grams(w, 6);
    joined_lists(a, b, x);
    joined_lists(a + b, c, x);
    joined_lists(a + b + c, d, x);
}

} // verus!
