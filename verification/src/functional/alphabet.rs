//! The characters that the names of groups are made of, and why every such name can be
//! a directory.

use crate::fsutil;
use crate::functional::corpus;
use crate::functional::corpus::FuncFile;
use crate::functional::features;
use crate::functional::naming;
use crate::functional::naming::Phrase;
use crate::functional::pieces;
use crate::functional::pieces::{Class, PieceView};
use crate::text;
use vstd::prelude::*;

verus! {

/// A Latin letter, a Chinese or Japanese character, or the underscore.
pub open spec fn is_name_char(c: char) -> bool {
    pieces::is_letter(c) || pieces::is_han(c) || c == '_'
}

/// Only such characters.
pub open spec fn is_name_text(s: Seq<char>) -> bool {
    forall|i: int| 0 <= i < s.len() ==> is_name_char(#[trigger] s[i])
}

/// Only such texts.
pub open spec fn are_name_texts(ts: Seq<Seq<char>>) -> bool {
    forall|i: int| 0 <= i < ts.len() ==> is_name_text(#[trigger] ts[i])
}

/// A piece of such characters.
pub open spec fn is_name_piece(p: PieceView) -> bool {
    is_name_text(features::piece_text(p))
}

/// Only such pieces.
pub open spec fn are_name_pieces(ps: Seq<PieceView>) -> bool {
    forall|i: int| 0 <= i < ps.len() ==> is_name_piece(#[trigger] ps[i])
}

proof fn runs_are_names(s: Seq<char>)
    ensures
        forall|i: int|
            0 <= i < pieces::class_runs(s).len() ==> is_name_text(
                (#[trigger] pieces::class_runs(s)[i]).1,
            ),
        s.len() > 0 && pieces::class_of(s.last()) != Class::Other ==> pieces::class_runs(s).len()
            > 0,
    decreases s.len(),
{
    if s.len() > 0 {
        runs_are_names(s.drop_last());
        let before = pieces::class_runs(s.drop_last());
        let c = s.last();
        let now = pieces::class_runs(s);
        if pieces::class_of(c) != Class::Other {
            assert(is_name_char(c));
            if s.len() >= 2 && pieces::class_of(s[s.len() - 2]) == pieces::class_of(c) {
                assert(s.drop_last().last() == s[s.len() - 2]);
                assert(is_name_text(before[before.len() - 1].1));
                assert(is_name_text(before.last().1.push(c)));
            } else {
                assert(is_name_text(seq![c]));
            }
            assert forall|i: int| 0 <= i < now.len() implies is_name_text((#[trigger] now[i]).1) by {
                if i < now.len() - 1 {
                    assert(now[i] == before[i]);
                }
            }
        }
    }
}

proof fn humps_are_names(run: Seq<char>, n: int)
    requires
        is_name_text(run),
        0 <= n <= run.len(),
    ensures
        are_name_texts(pieces::humps(run, n)),
    decreases n,
{
    if n > 0 {
        humps_are_names(run, n - 1);
        let before = pieces::humps(run, n - 1);
        let now = pieces::humps(run, n);
        assert(is_name_char(run[n - 1]));
        if before.len() > 0 {
            assert(is_name_text(before[before.len() - 1]));
        }
        assert forall|i: int| 0 <= i < now.len() implies is_name_text(#[trigger] now[i]) by {
            if i < now.len() - 1 {
                assert(now[i] == before[i]);
            }
        }
    }
}

proof fn kept_are_names(s: Seq<char>, n: int)
    requires
        is_name_text(s),
        0 <= n <= s.len(),
    ensures
        are_name_texts(pieces::kept_runs(s, n)),
        n > 0 && pieces::is_kept(s, n - 1) ==> pieces::kept_runs(s, n).len() > 0,
    decreases n,
{
    if n > 0 {
        kept_are_names(s, n - 1);
        let before = pieces::kept_runs(s, n - 1);
        let now = pieces::kept_runs(s, n);
        assert(is_name_char(s[n - 1]));
        if n >= 2 && pieces::is_kept(s, n - 2) {
            assert(is_name_text(before[before.len() - 1]));
        }
        assert forall|i: int| 0 <= i < now.len() implies is_name_text(#[trigger] now[i]) by {
            if i < now.len() - 1 {
                assert(now[i] == before[i]);
            } else if !pieces::is_kept(s, n - 1) {
                assert(now[i] == before[i]);
            }
        }
    }
}

proof fn lower_is_name(s: Seq<char>)
    requires
        is_name_text(s),
    ensures
        is_name_text(text::lower(s)),
        is_name_text(text::upper(s)),
{
    assert forall|i: int| 0 <= i < s.len() implies is_name_char(#[trigger] text::lower(s)[i]) by {
        assert(is_name_char(s[i]));
        assert(text::lower(s)[i] == text::lower_char(s[i]));
    }
    assert forall|i: int| 0 <= i < s.len() implies is_name_char(#[trigger] text::upper(s)[i]) by {
        assert(is_name_char(s[i]));
        assert(text::upper(s)[i] == text::upper_char(s[i]));
    }
}

proof fn words_are_names(words: Seq<pieces::WordView>)
    requires
        forall|i: int| 0 <= i < words.len() ==> is_name_text((#[trigger] words[i]).0),
    ensures
        are_name_pieces(pieces::word_pieces(words)),
    decreases words.len(),
{
    if words.len() > 0 {
        assert forall|i: int| 0 <= i < words.drop_last().len() implies is_name_text(
            (#[trigger] words.drop_last()[i]).0,
        ) by {
            assert(words.drop_last()[i] == words[i]);
        }
        words_are_names(words.drop_last());
        assert(is_name_text(words[words.len() - 1].0));
        let before = pieces::word_pieces(words.drop_last());
        let now = pieces::word_pieces(words);
        assert forall|i: int| 0 <= i < now.len() implies is_name_piece(#[trigger] now[i]) by {
            if i < before.len() {
                assert(now[i] == before[i]);
            }
        }
    }
}

proof fn run_is_name(run: pieces::RunView)
    requires
        is_name_text(run.1),
    ensures
        are_name_pieces(pieces::run_pieces(run)),
{
    let n = run.1.len() as int;
    if run.0 == Class::Letter {
        humps_are_names(run.1, n);
        let h = pieces::humps(run.1, n);
        let words = pieces::hump_words(h);
        assert forall|i: int| 0 <= i < words.len() implies is_name_text((#[trigger] words[i]).0) by {
            assert(is_name_text(h[i]));
            lower_is_name(h[i]);
        }
        words_are_names(words);
    } else {
        kept_are_names(run.1, n);
        let parts = pieces::kept_runs(run.1, n);
        let now = pieces::run_pieces(run);
        assert forall|i: int| 0 <= i < now.len() implies is_name_piece(#[trigger] now[i]) by {
            assert(is_name_text(parts[i]));
        }
    }
}

proof fn all_are_names(runs: Seq<pieces::RunView>)
    requires
        forall|i: int| 0 <= i < runs.len() ==> is_name_text((#[trigger] runs[i]).1),
    ensures
        are_name_pieces(pieces::all_pieces(runs)),
    decreases runs.len(),
{
    if runs.len() > 0 {
        assert forall|i: int| 0 <= i < runs.drop_last().len() implies is_name_text(
            (#[trigger] runs.drop_last()[i]).1,
        ) by {
            assert(runs.drop_last()[i] == runs[i]);
        }
        all_are_names(runs.drop_last());
        assert(is_name_text(runs[runs.len() - 1].1));
        run_is_name(runs.last());
        let before = pieces::all_pieces(runs.drop_last());
        let more = pieces::run_pieces(runs.last());
        let now = pieces::all_pieces(runs);
        assert forall|i: int| 0 <= i < now.len() implies is_name_piece(#[trigger] now[i]) by {
            if i < before.len() {
                assert(now[i] == before[i]);
            } else {
                assert(now[i] == more[i - before.len()]);
            }
        }
    }
}

proof fn together(a: Seq<Seq<char>>, b: Seq<Seq<char>>)
    requires
        are_name_texts(a),
        are_name_texts(b),
    ensures
        are_name_texts(a + b),
{
    assert forall|i: int| 0 <= i < (a + b).len() implies is_name_text(#[trigger] (a + b)[i]) by {
        if i < a.len() {
            assert((a + b)[i] == a[i]);
        } else {
            assert((a + b)[i] == b[i - a.len()]);
        }
    }
}

proof fn grams_are_names(s: Seq<char>, len: int)
    requires
        is_name_text(s),
        0 <= len,
    ensures
        are_name_texts(features::grams(s, len)),
{
    let now = features::grams(s, len);
    assert forall|i: int| 0 <= i < now.len() implies is_name_text(#[trigger] now[i]) by {
        assert(now[i] == s.subrange(i, i + len));
    }
}

proof fn piece_enters_names(p: PieceView)
    requires
        is_name_piece(p),
    ensures
        are_name_texts(features::piece_entries(p)),
{
    let s = features::piece_text(p);
    grams_are_names(s, 2);
    grams_are_names(s, 3);
    grams_are_names(s, 4);
    grams_are_names(s, 5);
    grams_are_names(s, 6);
    assert(are_name_texts(seq![s]));
    let none = Seq::<Seq<char>>::empty();
    assert(are_name_texts(none));
    together(seq![s], features::grams(s, 4));
    together(features::grams(s, 2), features::grams(s, 3));
    let i3 = features::inner_grams(s, 3);
    let i4 = features::inner_grams(s, 4);
    let i5 = features::inner_grams(s, 5);
    let i6 = features::inner_grams(s, 6);
    together(i3, i4);
    together(i3 + i4, i5);
    together(i3 + i4 + i5, i6);
    let units = features::unit_list(p);
    assert forall|i: int| 0 <= i < units.len() implies is_name_text(#[trigger] units[i]) by {
        if p is Cjk {
            assert(units[i] == seq![s[i]]);
            assert(is_name_char(s[i]));
        }
    }
    together(units, features::token_list(p));
    together(units + features::token_list(p), features::acronym_list(p));
    together(
        units + features::token_list(p) + features::acronym_list(p),
        features::part_list(p),
    );
}

proof fn pieces_enter_names(ps: Seq<PieceView>)
    requires
        are_name_pieces(ps),
    ensures
        are_name_texts(features::all_entries(ps)),
    decreases ps.len(),
{
    if ps.len() > 0 {
        assert forall|i: int| 0 <= i < ps.drop_last().len() implies is_name_piece(
            #[trigger] ps.drop_last()[i],
        ) by {
            assert(ps.drop_last()[i] == ps[i]);
        }
        pieces_enter_names(ps.drop_last());
        assert(is_name_piece(ps[ps.len() - 1]));
        piece_enters_names(ps.last());
        together(features::all_entries(ps.drop_last()), features::piece_entries(ps.last()));
    }
}

proof fn text_enters_names(s: Seq<char>)
    ensures
        are_name_texts(features::all_entries(features::pieces_in(s))),
{
    let t = pieces::normal_form(s);
    runs_are_names(t);
    all_are_names(pieces::class_runs(t));
    pieces_enter_names(features::pieces_in(s));
}

proof fn corpus_enters_names(files: Seq<FuncFile>, perm: Seq<usize>, k: int)
    ensures
        are_name_texts(corpus::corpus_entries(files, perm, k)),
    decreases k,
{
    if k > 0 {
        corpus_enters_names(files, perm, k - 1);
        let file = files[perm[k - 1] as int];
        text_enters_names(corpus::stem_of(file));
        text_enters_names(file.parent@);
        together(
            features::all_entries(features::pieces_in(corpus::stem_of(file))),
            features::all_entries(features::pieces_in(file.parent@)),
        );
        together(corpus::corpus_entries(files, perm, k - 1), corpus::file_entries(file));
    }
}

proof fn entered_are_names(names: Seq<Seq<char>>, ts: Seq<Seq<char>>)
    requires
        are_name_texts(names),
        are_name_texts(ts),
    ensures
        are_name_texts(features::entered_all(names, ts)),
    decreases ts.len(),
{
    if ts.len() > 0 {
        assert forall|i: int| 0 <= i < ts.drop_last().len() implies is_name_text(
            #[trigger] ts.drop_last()[i],
        ) by {
            assert(ts.drop_last()[i] == ts[i]);
        }
        entered_are_names(names, ts.drop_last());
        assert(is_name_text(ts[ts.len() - 1]));
    }
}

proof fn rendered_is_name(names: Seq<Seq<char>>, units: Seq<usize>)
    requires
        are_name_texts(names),
    ensures
        is_name_text(naming::rendered(names, units)),
    decreases units.len(),
{
    if units.len() > 0 {
        rendered_is_name(names, units.drop_last());
        let t = naming::unit_text(names, units.last());
        assert(is_name_text(t));
        lower_is_name(t);
        let a = naming::rendered(names, units.drop_last());
        let b = naming::shown(names, units.last());
        assert(is_name_text(b));
        assert forall|i: int| 0 <= i < (a + b).len() implies is_name_char(#[trigger] (a + b)[i]) by {
            if i < a.len() {
                assert((a + b)[i] == a[i]);
            } else {
                assert((a + b)[i] == b[i - a.len()]);
            }
        }
    }
}

/// Such a name is in order unless it is empty, too long or a device.
proof fn name_problems(name: Seq<char>)
    requires
        is_name_text(name),
        name.len() > 0,
        text::units(name) <= 255,
        !fsutil::is_device(text::upper(name)),
    ensures
        fsutil::name_problem(name) is None,
{
    assert(!name.contains('.')) by {
        if name.contains('.') {
            let i = choose|i: int| 0 <= i < name.len() && name[i] == '.';
            assert(is_name_char(name[i]));
        }
    }
    text::split_whole(name, '.');
    assert forall|i: int| 0 <= i < name.len() implies text::is_plain(#[trigger] name[i]) by {
        assert(is_name_char(name[i]));
    }
    assert(is_name_char(name[name.len() - 1]));
    assert forall|i: int| 0 <= i < name.len() implies !fsutil::is_forbidden(#[trigger] name[i]) by {
        assert(is_name_char(name[i]));
    }
}

/// Nothing that ends with an underscore is a device.
proof fn underscores_are_no_devices(name: Seq<char>)
    requires
        name.len() > 0,
        name.last() == '_',
    ensures
        !fsutil::is_device(text::upper(name)),
{
    reveal_strlit("CON");
    reveal_strlit("PRN");
    reveal_strlit("AUX");
    reveal_strlit("NUL");
    reveal_strlit("CLOCK$");
    let up = text::upper(name);
    assert(up.last() == text::upper_char(name.last()));
    assert(up.last() == '_');
}

/// A shortened name is one of such characters, too.
proof fn fitted_is_name(s: Seq<char>, max: nat)
    requires
        is_name_text(s),
    ensures
        is_name_text(fsutil::fitted(s, max)),
{
    fsutil::fitted_units(s, max);
    let cut = fsutil::fitted(s, max);
    assert forall|i: int| 0 <= i < cut.len() implies is_name_char(#[trigger] cut[i]) by {
        assert(cut[i] == s[i]);
    }
}

/// A name made of one or two texts of such characters can be a directory.
pub proof fn law_derived_names_are_legal(top: Seq<char>, second: Option<Seq<char>>)
    requires
        is_name_text(top),
        second matches Some(x) ==> is_name_text(x),
    ensures
        fsutil::name_problem(naming::legal_name(naming::short_name(top, second))) is None,
{
    naming::law_names_are_short(top, second);
    let short = naming::short_name(top, second);
    let name = naming::legal_name(short);
    reveal_strlit("_");
    let whole = match second {
        Some(x) => top + "_"@ + x,
        None => top,
    };
    assert(is_name_text(whole)) by {
        if let Some(x) = second {
            assert forall|i: int| 0 <= i < whole.len() implies is_name_char(#[trigger] whole[i]) by {
                if i < top.len() {
                    assert(whole[i] == top[i]);
                } else if i > top.len() {
                    assert(whole[i] == x[i - top.len() - 1]);
                }
            }
        }
    }
    let kept = if text::units(whole) > naming::NAME_UNIT_LIMIT {
        top
    } else {
        whole
    };
    fitted_is_name(kept, naming::NAME_UNIT_LIMIT as nat);
    if fsutil::name_problem(short) is Some {
        let cut = fsutil::fitted(short, (naming::NAME_UNIT_LIMIT - 1) as nat);
        fitted_is_name(short, (naming::NAME_UNIT_LIMIT - 1) as nat);
        assert(name =~= cut.push('_'));
        assert(is_name_text(name));
        underscores_are_no_devices(name);
        name_problems(name);
    }
}

/// The name that is chosen for a group of files can be a directory.
pub proof fn law_group_names_can_be_directories(
    files: Seq<FuncFile>,
    order: Seq<usize>,
    phrases: Seq<Phrase>,
    near: Seq<bool>,
    perm: Seq<usize>,
)
    ensures
        fsutil::name_problem(
            naming::chosen_name(
                features::entered_all(
                    Seq::empty(),
                    corpus::corpus_entries(files, order, order.len() as int),
                ),
                phrases,
                near,
                perm,
            ),
        ) is None,
{
    let entries = corpus::corpus_entries(files, order, order.len() as int);
    let names = features::entered_all(Seq::empty(), entries);
    corpus_enters_names(files, order, order.len() as int);
    entered_are_names(Seq::empty(), entries);
    let top = naming::rendered(names, phrases[perm[0] as int].units@);
    rendered_is_name(names, phrases[perm[0] as int].units@);
    let second = match naming::second_of(names, phrases, near, perm) {
        Some(i) => {
            rendered_is_name(names, phrases[i as int].units@);
            Some(naming::rendered(names, phrases[i as int].units@))
        },
        None => None,
    };
    law_derived_names_are_legal(top, second);
}

} // verus!
