//! The pieces of a name: words with capital letters as marks, and runs of
//! Chinese characters without filler words.

use crate::text;
use unicode_normalization::UnicodeNormalization;
use vstd::prelude::*;

verus! {

/// What `unicode_normalization::UnicodeNormalization::nfkc` makes of a text.
pub uninterp spec fn nfkc(s: Seq<char>) -> Seq<char>;

/// Calls `unicode_normalization::UnicodeNormalization::nfkc`: the text in
/// compatibility composed form, a function of the text alone. ASCII text is in
/// that form already.
#[verifier::external_body]
fn normalized(s: &str) -> (r: String)
    ensures
        r@ == nfkc(s@),
        text::ascii(s@) ==> r@ == s@,
{
    s.nfkc().collect()
}

/// A text in compatibility composed form: itself, where it is ASCII.
pub open spec fn normal_form(s: Seq<char>) -> Seq<char> {
    if text::ascii(s) {
        s
    } else {
        nfkc(s)
    }
}

pub open spec fn is_letter(c: char) -> bool {
    'a' <= c <= 'z' || 'A' <= c <= 'Z'
}

pub open spec fn is_upper(c: char) -> bool {
    'A' <= c <= 'Z'
}

pub open spec fn is_lower(c: char) -> bool {
    'a' <= c <= 'z'
}

/// A Chinese or Japanese character.
pub open spec fn is_han(c: char) -> bool {
    let u = c as u32;
    ||| 0x3400 <= u <= 0x4dbf
    ||| 0x4e00 <= u <= 0x9fff
    ||| 0xf900 <= u <= 0xfaff
    ||| 0x3040 <= u <= 0x30ff
    ||| 0x20000 <= u <= 0x2a6df
}

/// Whether a character is Chinese or Japanese.
pub fn is_cjk(c: char) -> (r: bool)
    ensures
        r == is_han(c),
{
    let u: u32 = c as u32;
    (u >= 0x3400 && u <= 0x4dbf) || (u >= 0x4e00 && u <= 0x9fff) || (u >= 0xf900 && u <= 0xfaff)
        || (u >= 0x3040 && u <= 0x30ff) || (u >= 0x20000 && u <= 0x2a6df)
}

fn letter(c: char) -> (r: bool)
    ensures
        r == is_letter(c),
{
    ('a' <= c && c <= 'z') || ('A' <= c && c <= 'Z')
}

/// Only letters, and at least one.
pub open spec fn is_word(s: Seq<char>) -> bool {
    s.len() > 0 && forall|i: int| 0 <= i < s.len() ==> is_letter(#[trigger] s[i])
}

/// Whether a text is a word of ASCII letters.
pub fn is_ascii_word(s: &str) -> (r: bool)
    ensures
        r == is_word(s@),
{
    let v = text::chars_of(s);
    if v.len() == 0 {
        return false;
    }
    let mut i: usize = 0;
    while i < v.len()
        invariant
            v@ == s@,
            i <= v@.len(),
            forall|k: int| 0 <= k < i ==> is_letter(#[trigger] s@[k]),
        decreases v.len() - i,
    {
        if !letter(v[i]) {
            assert(!is_letter(s@[i as int]));
            return false;
        }
        i = i + 1;
    }
    true
}

/// A hump starts here: a capital letter after a small one, or before a small
/// one.
pub open spec fn starts_hump(run: Seq<char>, i: int) -> bool {
    i > 0 && is_upper(run[i]) && (is_lower(run[i - 1]) || (i + 1 < run.len() && is_lower(
        run[i + 1],
    )))
}

/// The humps of the first `n` letters.
pub open spec fn humps(run: Seq<char>, n: int) -> Seq<Seq<char>>
    decreases n,
{
    if n <= 0 {
        Seq::empty()
    } else {
        let before = humps(run, n - 1);
        if before.len() == 0 || starts_hump(run, n - 1) {
            before.push(seq![run[n - 1]])
        } else {
            before.drop_last().push(before.last().push(run[n - 1]))
        }
    }
}

/// A word, and whether it was written in capital letters.
pub type WordView = (Seq<char>, bool);

/// All letters are capital, and there are at least two.
pub open spec fn is_acronym(hump: Seq<char>) -> bool {
    hump.len() >= 2 && forall|i: int| 0 <= i < hump.len() ==> is_upper(#[trigger] hump[i])
}

/// The words of some humps.
pub open spec fn hump_words(h: Seq<Seq<char>>) -> Seq<WordView> {
    Seq::new(h.len(), |i: int| (text::lower(h[i]), is_acronym(h[i])))
}

/// Words and whether they were written in capital letters.
pub open spec fn word_views(v: Seq<(String, bool)>) -> Seq<WordView> {
    Seq::new(v.len(), |i: int| (v[i].0@, v[i].1))
}

/// Character lists as sequences.
pub open spec fn char_lists(v: Seq<Vec<char>>) -> Seq<Seq<char>> {
    Seq::new(v.len(), |i: int| v[i]@)
}

/// A copy of a list of characters.
fn copy_chars(v: &Vec<char>) -> (r: Vec<char>)
    ensures
        r@ == v@,
{
    let mut r: Vec<char> = Vec::new();
    let mut i: usize = 0;
    while i < v.len()
        invariant
            i <= v@.len(),
            r@ == v@.take(i as int),
        decreases v.len() - i,
    {
        r.push(v[i]);
        i = i + 1;
        assert(r@ =~= v@.take(i as int));
    }
    assert(v@.take(i as int) =~= v@);
    r
}

/// The humps of a run of letters.
fn find_humps(run: &Vec<char>) -> (r: Vec<Vec<char>>)
    ensures
        char_lists(r@) == humps(run@, run@.len() as int),
{
    let mut out: Vec<Vec<char>> = Vec::new();
    let mut i: usize = 0;
    assert(char_lists(out@) =~= humps(run@, 0));
    while i < run.len()
        invariant
            i <= run@.len(),
            char_lists(out@) == humps(run@, i as int),
        decreases run.len() - i,
    {
        let c: char = run[i];
        let upper = 'A' <= c && c <= 'Z';
        let before = i > 0 && 'a' <= run[i - 1] && run[i - 1] <= 'z';
        let after = i + 1 < run.len() && 'a' <= run[i + 1] && run[i + 1] <= 'z';
        let boundary = i > 0 && upper && (before || after);
        let ghost old_out = out@;
        if boundary || out.len() == 0 {
            let mut hump: Vec<char> = Vec::new();
            hump.push(c);
            assert(hump@ =~= seq![c]);
            out.push(hump);
            assert(char_lists(out@) =~= char_lists(old_out).push(seq![c]));
        } else {
            let mut hump = out.pop().unwrap();
            hump.push(c);
            out.push(hump);
            assert(char_lists(out@) =~= char_lists(old_out).drop_last().push(
                char_lists(old_out).last().push(c),
            ));
        }
        i = i + 1;
    }
    out
}

/// The small letters of a list, as a string.
fn lower_string(v: &Vec<char>) -> (r: String)
    ensures
        r@ == text::lower(v@),
{
    let s = text::string_of(v, 0, v.len());
    assert(s@ =~= v@);
    text::lower_text(s.as_str())
}

fn acronym(v: &Vec<char>) -> (r: bool)
    ensures
        r == is_acronym(v@),
{
    if v.len() < 2 {
        return false;
    }
    let mut i: usize = 0;
    while i < v.len()
        invariant
            i <= v@.len(),
            forall|k: int| 0 <= k < i ==> is_upper(#[trigger] v@[k]),
        decreases v.len() - i,
    {
        if !('A' <= v[i] && v[i] <= 'Z') {
            assert(!is_upper(v@[i as int]));
            return false;
        }
        i = i + 1;
    }
    true
}

/// Splits a run of letters at its humps; a hump of capital letters is an
/// acronym.
pub fn split_ascii_word(run: &Vec<char>) -> (r: Vec<(String, bool)>)
    ensures
        word_views(r@) == hump_words(humps(run@, run@.len() as int)),
{
    let list = find_humps(run);
    let ghost all = char_lists(list@);
    let mut out: Vec<(String, bool)> = Vec::new();
    let mut i: usize = 0;
    while i < list.len()
        invariant
            all == char_lists(list@),
            i <= list@.len(),
            word_views(out@) == hump_words(all.take(i as int)),
        decreases list.len() - i,
    {
        let ghost before = out@;
        let word = lower_string(&list[i]);
        let mark = acronym(&list[i]);
        out.push((word, mark));
        assert(word_views(out@) =~= word_views(before).push((word@, mark)));
        i = i + 1;
        assert(word_views(out@) =~= hump_words(all.take(i as int)));
    }
    assert(all.take(i as int) =~= all);
    out
}

/// The humps of a run, put together, are the run.
pub proof fn law_humps_cover(run: Seq<char>, n: int)
    requires
        0 <= n <= run.len(),
    ensures
        humps(run, n).flatten_alt() == run.take(n),
    decreases n,
{
    if n > 0 {
        law_humps_cover(run, n - 1);
        let before = humps(run, n - 1);
        let after = humps(run, n);
        let c = run[n - 1];
        if before.len() == 0 || starts_hump(run, n - 1) {
            assert(after.drop_last() =~= before);
            assert(after.flatten_alt() =~= run.take(n));
        } else {
            assert(after.drop_last() =~= before.drop_last());
            assert(before.drop_last().flatten_alt() + before.last() == run.take(n - 1));
            assert(after.flatten_alt() =~= run.take(n - 1).push(c));
            assert(run.take(n - 1).push(c) =~= run.take(n));
        }
    } else {
        assert(run.take(0) =~= Seq::<char>::empty());
    }
}

/// The filler words that separate phrases.
pub open spec fn filler_words() -> Seq<Seq<char>> {
    seq![
        "副本"@,
        "最终版"@,
        "最新版"@,
        "版本"@,
        "文档"@,
        "资料"@,
        "说明"@,
        "介绍"@,
        "流程"@,
        "最终"@,
        "其他"@,
        "文件"@,
        "的"@,
        "与"@,
        "及"@,
        "和"@,
        "或"@,
    ]
}

fn filler_list() -> (r: Vec<&'static str>)
    ensures
        r@.len() == filler_words().len(),
        forall|k: int| 0 <= k < r@.len() ==> (#[trigger] r@[k])@ == filler_words()[k],
{
    let r: Vec<&'static str> = vec![
        "副本",
        "最终版",
        "最新版",
        "版本",
        "文档",
        "资料",
        "说明",
        "介绍",
        "流程",
        "最终",
        "其他",
        "文件",
        "的",
        "与",
        "及",
        "和",
        "或",
    ];
    r
}

/// An occurrence of the word covers position `i`.
pub open spec fn covers(s: Seq<char>, word: Seq<char>, i: int) -> bool {
    exists|start: int|
        #[trigger] text::occurs_at(s, word, start) && start <= i < start + word.len()
}

/// Position `i` is not part of a filler word.
pub open spec fn is_kept(s: Seq<char>, i: int) -> bool {
    forall|k: int| 0 <= k < filler_words().len() ==> !covers(s, #[trigger] filler_words()[k], i)
}

/// The maximal runs of kept positions among the first `n`.
pub open spec fn kept_runs(s: Seq<char>, n: int) -> Seq<Seq<char>>
    decreases n,
{
    if n <= 0 {
        Seq::empty()
    } else {
        let before = kept_runs(s, n - 1);
        if !is_kept(s, n - 1) {
            before
        } else if n >= 2 && is_kept(s, n - 2) {
            before.drop_last().push(before.last().push(s[n - 1]))
        } else {
            before.push(seq![s[n - 1]])
        }
    }
}

/// Marks the positions that occurrences of one word cover.
fn mark_word(s: &Vec<char>, word: &str, keep: &mut Vec<bool>)
    requires
        old(keep)@.len() == s@.len(),
    ensures
        final(keep)@.len() == s@.len(),
        forall|i: int|
            0 <= i < s@.len() ==> #[trigger] final(keep)@[i] == (old(keep)@[i] && !covers(
                s@,
                word@,
                i,
            )),
{
    let w = text::chars_of(word);
    let ghost first = keep@;
    let mut start: usize = 0;
    while start < s.len()
        invariant
            w@ == word@,
            start <= s@.len(),
            keep@.len() == s@.len(),
            first.len() == s@.len(),
            forall|i: int|
                0 <= i < s@.len() ==> #[trigger] keep@[i] == (first[i] && !covered_before(
                    s@,
                    w@,
                    i,
                    start as int,
                )),
        decreases s.len() - start,
    {
        let ghost before = keep@;
        if text::occurs(s, &w, start) {
            let mut i: usize = 0;
            while i < w.len()
                invariant
                    start + w.len() <= s.len(),
                    i <= w@.len(),
                    keep@.len() == s@.len(),
                    before.len() == s@.len(),
                    forall|k: int|
                        0 <= k < s@.len() ==> #[trigger] keep@[k] == (before[k] && !(start <= k
                            < start + i)),
                decreases w.len() - i,
            {
                keep.set(start + i, false);
                i = i + 1;
            }
        }
        assert forall|i: int| 0 <= i < s@.len() implies #[trigger] keep@[i] == (first[i]
            && !covered_before(s@, w@, i, start + 1)) by {
            assert(before[i] == (first[i] && !covered_before(s@, w@, i, start as int)));
            if covered_before(s@, w@, i, start + 1) && !covered_before(s@, w@, i, start as int) {
                assert(text::occurs_at(s@, w@, start as int) && start <= i < start + w@.len());
            }
            if text::occurs_at(s@, w@, start as int) && start <= i < start + w@.len() {
                assert(covered_before(s@, w@, i, start + 1));
            }
        }
        start = start + 1;
    }
    assert forall|i: int| 0 <= i < s@.len() implies #[trigger] keep@[i] == (first[i] && !covers(
        s@,
        word@,
        i,
    )) by {
        assert(covered_before(s@, w@, i, start as int) == covers(s@, word@, i)) by {
            if covers(s@, word@, i) {
                let k = choose|k: int|
                    #[trigger] text::occurs_at(s@, word@, k) && k <= i < k + word@.len();
                assert(0 <= k < start);
            }
        }
    }
}

/// An occurrence that starts before `n` covers position `i`.
spec fn covered_before(s: Seq<char>, word: Seq<char>, i: int, n: int) -> bool {
    exists|start: int|
        #[trigger] text::occurs_at(s, word, start) && start <= i < start + word.len() && start < n
}

/// Splits a run of Chinese characters at the filler words.
pub fn split_cjk_segment(s: &Vec<char>) -> (r: Vec<Vec<char>>)
    ensures
        char_lists(r@) == kept_runs(s@, s@.len() as int),
{
    let mut keep: Vec<bool> = Vec::new();
    let mut i: usize = 0;
    while i < s.len()
        invariant
            i <= s@.len(),
            keep@.len() == i,
            forall|k: int| 0 <= k < i ==> #[trigger] keep@[k],
        decreases s.len() - i,
    {
        keep.push(true);
        i = i + 1;
    }
    let words = filler_list();
    let mut k: usize = 0;
    while k < words.len()
        invariant
            words@.len() == filler_words().len(),
            forall|j: int| 0 <= j < words@.len() ==> (#[trigger] words@[j])@ == filler_words()[j],
            k <= words@.len(),
            keep@.len() == s@.len(),
            forall|p: int|
                0 <= p < s@.len() ==> #[trigger] keep@[p] == (forall|j: int|
                    0 <= j < k ==> !covers(s@, #[trigger] filler_words()[j], p)),
        decreases words.len() - k,
    {
        mark_word(s, words[k], &mut keep);
        k = k + 1;
    }
    let mut out: Vec<Vec<char>> = Vec::new();
    let mut n: usize = 0;
    assert(char_lists(out@) =~= kept_runs(s@, 0));
    while n < s.len()
        invariant
            n <= s@.len(),
            keep@.len() == s@.len(),
            forall|p: int| 0 <= p < s@.len() ==> #[trigger] keep@[p] == is_kept(s@, p),
            char_lists(out@) == kept_runs(s@, n as int),
            n > 0 && is_kept(s@, n - 1) ==> out@.len() > 0,
        decreases s.len() - n,
    {
        let ghost before = out@;
        if keep[n] {
            if n > 0 && keep[n - 1] {
                let mut run = out.pop().unwrap();
                run.push(s[n]);
                out.push(run);
                assert(char_lists(out@) =~= char_lists(before).drop_last().push(
                    char_lists(before).last().push(s@[n as int]),
                ));
            } else {
                let mut run: Vec<char> = Vec::new();
                run.push(s[n]);
                assert(run@ =~= seq![s@[n as int]]);
                out.push(run);
                assert(char_lists(out@) =~= char_lists(before).push(seq![s@[n as int]]));
            }
        }
        n = n + 1;
    }
    out
}

/// What a character counts as.
#[derive(Clone, Copy, Debug, PartialEq, Eq, Structural)]
pub enum Class {
    Letter,
    Han,
    Other,
}

pub open spec fn class_of(c: char) -> Class {
    if is_letter(c) {
        Class::Letter
    } else if is_han(c) {
        Class::Han
    } else {
        Class::Other
    }
}

fn classify(c: char) -> (r: Class)
    ensures
        r == class_of(c),
{
    if letter(c) {
        Class::Letter
    } else if is_cjk(c) {
        Class::Han
    } else {
        Class::Other
    }
}

/// A maximal run of letters or of Chinese characters.
pub type RunView = (Class, Seq<char>);

/// The maximal runs of letters and of Chinese characters; anything else, digits
/// too, separates them.
pub open spec fn class_runs(s: Seq<char>) -> Seq<RunView>
    decreases s.len(),
{
    if s.len() == 0 {
        Seq::empty()
    } else {
        let before = class_runs(s.drop_last());
        let c = s.last();
        if class_of(c) == Class::Other {
            before
        } else if s.len() >= 2 && class_of(s[s.len() - 2]) == class_of(c) {
            before.drop_last().push((class_of(c), before.last().1.push(c)))
        } else {
            before.push((class_of(c), seq![c]))
        }
    }
}

/// Runs as sequences.
pub open spec fn run_views(v: Seq<(Class, Vec<char>)>) -> Seq<RunView> {
    Seq::new(v.len(), |i: int| (v[i].0, v[i].1@))
}

fn find_runs(s: &Vec<char>) -> (r: Vec<(Class, Vec<char>)>)
    ensures
        run_views(r@) == class_runs(s@),
{
    let mut out: Vec<(Class, Vec<char>)> = Vec::new();
    let mut i: usize = 0;
    assert(s@.take(0) =~= Seq::<char>::empty());
    while i < s.len()
        invariant
            i <= s@.len(),
            run_views(out@) == class_runs(s@.take(i as int)),
            i > 0 && class_of(s@[i - 1]) != Class::Other ==> out@.len() > 0,
        decreases s.len() - i,
    {
        let c: char = s[i];
        let class = classify(c);
        let ghost before = out@;
        proof {
            assert(s@.take(i + 1).drop_last() =~= s@.take(i as int));
            assert(s@.take(i + 1).last() == c);
        }
        if class != Class::Other {
            if i > 0 && classify(s[i - 1]) == class {
                let (_, mut run) = out.pop().unwrap();
                run.push(c);
                out.push((class, run));
                assert(run_views(out@) =~= run_views(before).drop_last().push(
                    (class, run_views(before).last().1.push(c)),
                ));
            } else {
                let mut run: Vec<char> = Vec::new();
                run.push(c);
                assert(run@ =~= seq![c]);
                out.push((class, run));
                assert(run_views(out@) =~= run_views(before).push((class, seq![c])));
            }
        }
        i = i + 1;
    }
    assert(s@.take(i as int) =~= s@);
    out
}

/// A piece of a name: a word with its mark, or a run of Chinese characters.
#[derive(Debug)]
pub enum Piece {
    Word(String, bool),
    Cjk(Vec<char>),
}

/// A piece of a name, as characters.
pub enum PieceView {
    Word(Seq<char>, bool),
    Cjk(Seq<char>),
}

impl View for Piece {
    type V = PieceView;

    open spec fn view(&self) -> PieceView {
        match self {
            Piece::Word(w, mark) => PieceView::Word(w@, *mark),
            Piece::Cjk(run) => PieceView::Cjk(run@),
        }
    }
}

/// Pieces as characters.
pub open spec fn piece_views(v: Seq<Piece>) -> Seq<PieceView> {
    Seq::new(v.len(), |i: int| v[i]@)
}

/// A word that says something: at least two letters, and no filler.
pub open spec fn is_telling(word: Seq<char>) -> bool {
    word.len() >= 2 && word != "final"@ && word != "copy"@
}

/// The telling words among some words.
pub open spec fn word_pieces(words: Seq<WordView>) -> Seq<PieceView>
    decreases words.len(),
{
    if words.len() == 0 {
        Seq::empty()
    } else if is_telling(words.last().0) {
        word_pieces(words.drop_last()).push(PieceView::Word(words.last().0, words.last().1))
    } else {
        word_pieces(words.drop_last())
    }
}

/// The pieces of a run.
pub open spec fn run_pieces(run: RunView) -> Seq<PieceView> {
    if run.0 == Class::Letter {
        word_pieces(hump_words(humps(run.1, run.1.len() as int)))
    } else {
        let parts = kept_runs(run.1, run.1.len() as int);
        Seq::new(parts.len(), |i: int| PieceView::Cjk(parts[i]))
    }
}

/// The pieces of some runs, in order.
pub open spec fn all_pieces(runs: Seq<RunView>) -> Seq<PieceView>
    decreases runs.len(),
{
    if runs.len() == 0 {
        Seq::empty()
    } else {
        all_pieces(runs.drop_last()) + run_pieces(runs.last())
    }
}

/// The pieces of a normalised text.
pub open spec fn text_pieces(s: Seq<char>) -> Seq<PieceView> {
    all_pieces(class_runs(s))
}

fn telling(word: &str) -> (r: bool)
    ensures
        r == is_telling(word@),
{
    word.unicode_len() >= 2 && !text::same(word, "final") && !text::same(word, "copy")
}

/// Puts the telling words of a run of letters behind the pieces.
fn push_words(run: &Vec<char>, out: &mut Vec<Piece>)
    ensures
        piece_views(final(out)@) == piece_views(old(out)@) + word_pieces(
            hump_words(humps(run@, run@.len() as int)),
        ),
{
    let words = split_ascii_word(run);
    let ghost all = word_views(words@);
    let ghost start = out@;
    let mut i: usize = 0;
    assert(all.take(0) =~= Seq::<WordView>::empty());
    assert(piece_views(out@) =~= piece_views(start) + word_pieces(all.take(0)));
    while i < words.len()
        invariant
            all == word_views(words@),
            i <= words@.len(),
            piece_views(out@) == piece_views(start) + word_pieces(all.take(i as int)),
        decreases words.len() - i,
    {
        let ghost before = out@;
        proof {
            assert(all.take(i + 1).drop_last() =~= all.take(i as int));
            assert(all.take(i + 1).last() == all[i as int]);
        }
        if telling(words[i].0.as_str()) {
            out.push(Piece::Word(words[i].0.clone(), words[i].1));
            let ghost piece = PieceView::Word(all[i as int].0, all[i as int].1);
            assert(piece_views(out@) =~= piece_views(before).push(piece));
            assert(piece_views(start) + word_pieces(all.take(i as int)).push(piece) =~= (
            piece_views(start) + word_pieces(all.take(i as int))).push(piece));
        }
        i = i + 1;
    }
    assert(all.take(i as int) =~= all);
}

/// Puts the runs of Chinese characters behind the pieces.
fn push_cjk(run: &Vec<char>, out: &mut Vec<Piece>)
    ensures
        piece_views(final(out)@) == piece_views(old(out)@) + run_pieces((Class::Han, run@)),
{
    let parts = split_cjk_segment(run);
    let ghost all = run_pieces((Class::Han, run@));
    let ghost lists = char_lists(parts@);
    let ghost start = out@;
    let mut i: usize = 0;
    assert(piece_views(out@) =~= piece_views(start) + all.take(0));
    while i < parts.len()
        invariant
            lists == char_lists(parts@),
            lists == kept_runs(run@, run@.len() as int),
            all == run_pieces((Class::Han, run@)),
            i <= parts@.len(),
            piece_views(out@) == piece_views(start) + all.take(i as int),
        decreases parts.len() - i,
    {
        let ghost before = out@;
        out.push(Piece::Cjk(copy_chars(&parts[i])));
        assert(lists[i as int] == parts@[i as int]@);
        assert(piece_views(out@) =~= piece_views(before).push(all[i as int]));
        i = i + 1;
        assert(piece_views(out@) =~= piece_views(start) + all.take(i as int));
    }
    assert(all.take(i as int) =~= all);
}

/// The pieces of a text that is normalised already.
pub fn pieces_of_normalized(s: &str) -> (r: Vec<Piece>)
    ensures
        piece_views(r@) == text_pieces(s@),
{
    let runs = find_runs(&text::chars_of(s));
    let ghost all = run_views(runs@);
    let mut out: Vec<Piece> = Vec::new();
    let mut i: usize = 0;
    assert(all.take(0) =~= Seq::<RunView>::empty());
    assert(piece_views(out@) =~= all_pieces(all.take(0)));
    while i < runs.len()
        invariant
            all == run_views(runs@),
            i <= runs@.len(),
            piece_views(out@) == all_pieces(all.take(i as int)),
        decreases runs.len() - i,
    {
        proof {
            assert(all.take(i + 1).drop_last() =~= all.take(i as int));
            assert(all.take(i + 1).last() == all[i as int]);
        }
        if runs[i].0 == Class::Letter {
            push_words(&runs[i].1, &mut out);
        } else {
            push_cjk(&runs[i].1, &mut out);
        }
        i = i + 1;
    }
    assert(all.take(i as int) =~= all);
    out
}

/// The pieces of a name: normalised, without numbers and filler words.
pub fn pieces_of(raw: &str) -> (r: Vec<Piece>)
    ensures
        piece_views(r@) == text_pieces(normal_form(raw@)),
{
    pieces_of_normalized(normalized(raw).as_str())
}

/// Letters are the Latin ones of ASCII; Chinese characters are those of the usual blocks;
/// digits, signs and spaces are neither.
pub proof fn law_what_characters_are(c: char)
    ensures
        'a' <= c <= 'z' || 'A' <= c <= 'Z' <==> class_of(c) == Class::Letter,
        0x4e00 <= c as u32 <= 0x9fff || 0x3400 <= c as u32 <= 0x4dbf || 0x3040 <= c as u32 <= 0x30ff
            ==> class_of(c) == Class::Han,
        '0' <= c <= '9' || c == '_' || c == '-' || c == ' ' || c == '.' || c == '(' || c == ')'
            ==> class_of(c) == Class::Other,
{
}

/// A word begins at the first letter of a run, at a capital letter behind a small one, and
/// at the last capital letter in front of a small one; nowhere else.
pub proof fn law_where_words_begin(run: Seq<char>, n: int)
    requires
        0 <= n < run.len(),
    ensures
        humps(run, n + 1).len() == humps(run, n).len() + if n == 0 || ('A' <= run[n] <= 'Z' && (('a'
            <= run[n - 1] <= 'z') || (n + 1 < run.len() && 'a' <= run[n + 1] <= 'z'))) {
            1nat
        } else {
            0
        },
        humps(run, n + 1).last().last() == run[n],
    decreases n,
{
    if n > 0 {
        law_where_words_begin(run, n - 1);
        hump_count(run, n);
    }
}

proof fn hump_count(run: Seq<char>, n: int)
    requires
        0 <= n <= run.len(),
    ensures
        n > 0 ==> humps(run, n).len() > 0,
    decreases n,
{
    if n > 0 {
        hump_count(run, n - 1);
    }
}

proof fn one_hump(run: Seq<char>, n: int)
    requires
        0 < n <= run.len(),
        (forall|i: int| 0 <= i < run.len() ==> is_lower(#[trigger] run[i])) || (forall|i: int|
            0 <= i < run.len() ==> is_upper(#[trigger] run[i])),
    ensures
        humps(run, n) == seq![run.take(n)],
    decreases n,
{
    if n == 1 {
        assert(humps(run, 0) =~= Seq::<Seq<char>>::empty());
        assert(run.take(1) =~= seq![run[0]]);
    } else {
        one_hump(run, n - 1);
        assert(!starts_hump(run, n - 1)) by {
            if starts_hump(run, n - 1) {
                assert(is_upper(run[n - 1]));
                assert(is_upper(run[n - 2]) || is_lower(run[n - 2]));
                if n < run.len() {
                    assert(is_upper(run[n]) || is_lower(run[n]));
                }
            }
        }
        let before = humps(run, n - 1);
        assert(before.drop_last() =~= Seq::<Seq<char>>::empty());
        assert(run.take(n - 1).push(run[n - 1]) =~= run.take(n));
        assert(humps(run, n) =~= seq![run.take(n)]);
    }
}

proof fn one_run(s: Seq<char>)
    requires
        s.len() > 0,
        forall|i: int| 0 <= i < s.len() ==> is_letter(#[trigger] s[i]),
    ensures
        class_runs(s) == seq![(Class::Letter, s)],
    decreases s.len(),
{
    let t = s.drop_last();
    assert(is_letter(s[s.len() - 1]));
    if t.len() == 0 {
        assert(class_runs(t) =~= Seq::<RunView>::empty());
        assert(seq![s.last()] =~= s);
    } else {
        assert forall|i: int| 0 <= i < t.len() implies is_letter(#[trigger] t[i]) by {
            assert(is_letter(s[i]));
        }
        one_run(t);
        assert(is_letter(s[s.len() - 2]));
        let before = class_runs(t);
        assert(before.drop_last() =~= Seq::<RunView>::empty());
        assert(t.push(s.last()) =~= s);
        assert(class_runs(s) =~= seq![(Class::Letter, s)]);
    }
}

/// A text of small letters is one word, and so is one of capital letters, which is known to
/// have been in capitals; but for those of one letter, and the two words that say nothing.
pub proof fn law_one_word_is_one_piece(s: Seq<char>)
    requires
        s.len() > 0,
        (forall|i: int| 0 <= i < s.len() ==> is_lower(#[trigger] s[i])) || (forall|i: int|
            0 <= i < s.len() ==> is_upper(#[trigger] s[i])),
    ensures
        ({
            let word = text::lower(s);
            let capitals = forall|i: int| 0 <= i < s.len() ==> is_upper(#[trigger] s[i]);
            &&& word.len() >= 2 && word != "final"@ && word != "copy"@ ==> text_pieces(s) == seq![
                PieceView::Word(word, capitals),
            ]
            &&& word.len() < 2 || word == "final"@ || word == "copy"@ ==> text_pieces(s).len() == 0
        }),
{
    assert forall|i: int| 0 <= i < s.len() implies is_letter(#[trigger] s[i]) by {
        assert(is_lower(s[i]) || is_upper(s[i]));
    }
    one_run(s);
    let n = s.len() as int;
    one_hump(s, n);
    assert(s.take(n) =~= s);
    let runs = class_runs(s);
    assert(runs.drop_last() =~= Seq::<RunView>::empty());
    assert(all_pieces(runs.drop_last()) =~= Seq::<PieceView>::empty());
    let words = hump_words(humps(s, n));
    assert(words.len() == 1);
    assert(words[0] == (text::lower(s), is_acronym(s)));
    assert(words.drop_last() =~= Seq::<WordView>::empty());
    reveal_with_fuel(word_pieces, 2);
    assert(word_pieces(words.drop_last()) =~= Seq::<PieceView>::empty());
    let piece = run_pieces(runs.last());
    assert(text_pieces(s) =~= piece);
    if is_telling(text::lower(s)) {
        assert(piece =~= seq![PieceView::Word(text::lower(s), is_acronym(s))]);
    }
}

proof fn runs_apart(a: Seq<char>, c: char, b: Seq<char>)
    requires
        class_of(c) == Class::Other,
    ensures
        class_runs(a + seq![c] + b) == class_runs(a) + class_runs(b),
    decreases b.len(),
{
    let s = a + seq![c] + b;
    if b.len() == 0 {
        assert(s.last() == c);
        assert(s.drop_last() =~= a);
        assert(class_runs(b) =~= Seq::<RunView>::empty());
        assert(class_runs(a) + class_runs(b) =~= class_runs(a));
    } else {
        let d = b.drop_last();
        runs_apart(a, c, d);
        assert(s.drop_last() =~= a + seq![c] + d);
        assert(s.last() == b.last());
        let x = b.last();
        if class_of(x) != Class::Other {
            if b.len() >= 2 {
                assert(s[s.len() - 2] == b[b.len() - 2]);
                if class_of(b[b.len() - 2]) == class_of(x) {
                    run_is_there(d);
                    let r = class_runs(d);
                    let all = class_runs(a) + r;
                    assert(all.last() == r.last());
                    assert(all.drop_last() =~= class_runs(a) + r.drop_last());
                    assert(class_runs(s) =~= class_runs(a) + class_runs(b));
                } else {
                    assert(class_runs(s) =~= class_runs(a) + class_runs(b));
                }
            } else {
                assert(s[s.len() - 2] == c);
                assert(class_runs(s) =~= class_runs(a) + class_runs(b));
            }
        }
    }
}

proof fn run_is_there(s: Seq<char>)
    requires
        s.len() > 0,
        class_of(s.last()) != Class::Other,
    ensures
        class_runs(s).len() > 0,
    decreases s.len(),
{
}

proof fn pieces_apart(a: Seq<RunView>, b: Seq<RunView>)
    ensures
        all_pieces(a + b) == all_pieces(a) + all_pieces(b),
    decreases b.len(),
{
    if b.len() == 0 {
        assert(a + b =~= a);
        assert(all_pieces(a) + all_pieces(b) =~= all_pieces(a));
    } else {
        pieces_apart(a, b.drop_last());
        assert((a + b).drop_last() =~= a + b.drop_last());
        assert((all_pieces(a) + all_pieces(b.drop_last())) + run_pieces(b.last()) =~= all_pieces(a)
            + (all_pieces(b.drop_last()) + run_pieces(b.last())));
    }
}

/// A digit, a sign or a space parts a text: its pieces are those of what stands before it
/// and of what stands behind it.
pub proof fn law_other_characters_part_a_text(a: Seq<char>, c: char, b: Seq<char>)
    requires
        !('a' <= c <= 'z'),
        !('A' <= c <= 'Z'),
        (c as u32) < 0x3040,
    ensures
        text_pieces(a + seq![c] + b) == text_pieces(a) + text_pieces(b),
{
    runs_apart(a, c, b);
    pieces_apart(class_runs(a), class_runs(b));
}

proof fn kept_whole(s: Seq<char>, n: int)
    requires
        0 < n <= s.len(),
        forall|i: int| 0 <= i < s.len() ==> is_kept(s, i),
    ensures
        kept_runs(s, n) == seq![s.take(n)],
    decreases n,
{
    assert(is_kept(s, n - 1));
    if n == 1 {
        assert(kept_runs(s, 0) =~= Seq::<Seq<char>>::empty());
        assert(s.take(1) =~= seq![s[0]]);
        assert(kept_runs(s, 1) =~= seq![s.take(1)]);
    } else {
        kept_whole(s, n - 1);
        assert(is_kept(s, n - 2));
        let before = kept_runs(s, n - 1);
        assert(before.drop_last() =~= Seq::<Seq<char>>::empty());
        assert(s.take(n - 1).push(s[n - 1]) =~= s.take(n));
        assert(kept_runs(s, n) =~= seq![s.take(n)]);
    }
}

proof fn kept_none(s: Seq<char>, n: int)
    requires
        0 <= n <= s.len(),
        forall|i: int| 0 <= i < s.len() ==> !is_kept(s, i),
    ensures
        kept_runs(s, n).len() == 0,
    decreases n,
{
    if n > 0 {
        kept_none(s, n - 1);
        assert(!is_kept(s, n - 1));
    }
}

/// A run of Chinese characters in which no filler word stands is one piece; a filler word by
/// itself is none.
pub proof fn law_filler_words_are_left_out(s: Seq<char>, k: int)
    requires
        s.len() > 0,
        0 <= k < filler_words().len(),
    ensures
        (forall|w: int, at: int|
            0 <= w < filler_words().len() ==> !(#[trigger] text::occurs_at(
                s,
                filler_words()[w],
                at,
            ))) ==> kept_runs(s, s.len() as int) == seq![s],
        kept_runs(filler_words()[k], filler_words()[k].len() as int).len() == 0,
{
    let n = s.len() as int;
    if forall|w: int, at: int|
        0 <= w < filler_words().len() ==> !(#[trigger] text::occurs_at(s, filler_words()[w], at)) {
        assert forall|i: int| 0 <= i < s.len() implies is_kept(s, i) by {
            assert forall|w: int| 0 <= w < filler_words().len() implies !covers(
                s,
                #[trigger] filler_words()[w],
                i,
            ) by {
                if covers(s, filler_words()[w], i) {
                    let at = choose|at: int|
                        #[trigger] text::occurs_at(s, filler_words()[w], at) && at <= i < at
                            + filler_words()[w].len();
                    assert(text::occurs_at(s, filler_words()[w], at));
                }
            }
        }
        kept_whole(s, n);
        assert(s.take(n) =~= s);
    }
    let f = filler_words()[k];
    assert forall|i: int| 0 <= i < f.len() implies !is_kept(f, i) by {
        assert(f.subrange(0, f.len() as int) =~= f);
        assert(text::occurs_at(f, f, 0));
        assert(covers(f, filler_words()[k], i));
    }
    kept_none(f, f.len() as int);
}

} // verus!
