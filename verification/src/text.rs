//! Strings as sequences of characters: the vocabulary that the contracts of
//! this crate use for text, and the executable operations that meet it.

use vstd::prelude::*;

verus! {

/// `String::push` appends one character at the end.
pub assume_specification[ String::push ](s: &mut String, ch: char)
    ensures
        final(s)@ == old(s)@.push(ch),
;

/// The character sequences of a sequence of strings.
pub open spec fn texts(v: Seq<String>) -> Seq<Seq<char>> {
    Seq::new(v.len(), |i: int| v[i]@)
}

/// One more string is one more text.
pub proof fn texts_push(v: Seq<String>, x: String)
    ensures
        texts(v.push(x)) == texts(v).push(x@),
{
    assert(texts(v.push(x)) =~= texts(v).push(x@));
}

/// The characters of an optional string.
pub open spec fn text_option(v: Option<String>) -> Option<Seq<char>> {
    match v {
        Some(s) => Some(s@),
        None => None,
    }
}

/// Unicode `White_Space`.
pub open spec fn is_space(c: char) -> bool {
    ||| 0x09 <= c as u32 <= 0x0d
    ||| c as u32 == 0x20
    ||| c as u32 == 0x85
    ||| c as u32 == 0xa0
    ||| c as u32 == 0x1680
    ||| 0x2000 <= c as u32 <= 0x200a
    ||| c as u32 == 0x2028
    ||| c as u32 == 0x2029
    ||| c as u32 == 0x202f
    ||| c as u32 == 0x205f
    ||| c as u32 == 0x3000
}

pub open spec fn is_digit(c: char) -> bool {
    '0' <= c <= '9'
}

/// ASCII lower case of one character; every other character stays.
pub open spec fn lower_char(c: char) -> char {
    if 'A' <= c <= 'Z' {
        ((c as u32 + 32) as u32) as char
    } else {
        c
    }
}

/// ASCII lower case, character by character.
pub open spec fn lower(s: Seq<char>) -> Seq<char> {
    s.map_values(|c: char| lower_char(c))
}

/// Without the white space at the start.
pub open spec fn trim_start(s: Seq<char>) -> Seq<char>
    decreases s.len(),
{
    if s.len() == 0 || !is_space(s[0]) {
        s
    } else {
        trim_start(s.drop_first())
    }
}

/// Without the white space at the end.
pub open spec fn trim_end(s: Seq<char>) -> Seq<char>
    decreases s.len(),
{
    if s.len() == 0 || !is_space(s.last()) {
        s
    } else {
        trim_end(s.drop_last())
    }
}

/// Without the white space at both ends.
pub open spec fn trimmed(s: Seq<char>) -> Seq<char> {
    trim_end(trim_start(s))
}

pub open spec fn has_prefix(s: Seq<char>, p: Seq<char>) -> bool {
    p.len() <= s.len() && s.subrange(0, p.len() as int) == p
}

pub open spec fn has_suffix(s: Seq<char>, p: Seq<char>) -> bool {
    p.len() <= s.len() && s.subrange(s.len() - p.len(), s.len() as int) == p
}

/// `p` occurs in `s` at position `i`.
pub open spec fn occurs_at(s: Seq<char>, p: Seq<char>, i: int) -> bool {
    0 <= i && i + p.len() <= s.len() && s.subrange(i, i + p.len()) == p
}

/// `p` occurs somewhere in `s`.
pub open spec fn has_text(s: Seq<char>, p: Seq<char>) -> bool {
    exists|i: int| #[trigger] occurs_at(s, p, i)
}

/// The pieces of `s` between the occurrences of `sep`; one more than there are
/// separators.
pub open spec fn split_on(s: Seq<char>, sep: char) -> Seq<Seq<char>>
    decreases s.len(),
{
    if s.len() == 0 {
        seq![Seq::<char>::empty()]
    } else {
        let before = split_on(s.drop_last(), sep);
        if s.last() == sep {
            before.push(Seq::<char>::empty())
        } else {
            before.drop_last().push(before.last().push(s.last()))
        }
    }
}

/// The parts one after the other with `sep` between them.
pub open spec fn join_with(parts: Seq<Seq<char>>, sep: Seq<char>) -> Seq<char>
    decreases parts.len(),
{
    if parts.len() == 0 {
        Seq::empty()
    } else if parts.len() == 1 {
        parts[0]
    } else {
        join_with(parts.drop_last(), sep) + sep + parts.last()
    }
}

/// UTF-16 code units of one character.
pub open spec fn char_units(c: char) -> nat {
    if c as u32 >= 0x10000 {
        2
    } else {
        1
    }
}

/// Length in UTF-16 code units.
pub open spec fn units(s: Seq<char>) -> nat
    decreases s.len(),
{
    if s.len() == 0 {
        0
    } else {
        units(s.drop_last()) + char_units(s.last())
    }
}

/// The bytes of a character in UTF-8.
pub open spec fn char_bytes(c: char) -> nat {
    let u = c as u32;
    if u < 0x80 {
        1
    } else if u < 0x800 {
        2
    } else if u < 0x10000 {
        3
    } else {
        4
    }
}

/// The longest start of a text with at most so many bytes.
pub open spec fn start_in_bytes(s: Seq<char>, max: nat) -> Seq<char>
    decreases s.len(),
{
    if s.len() == 0 || char_bytes(s[0]) > max {
        Seq::empty()
    } else {
        seq![s[0]] + start_in_bytes(s.drop_first(), (max - char_bytes(s[0])) as nat)
    }
}

/// The decimal digit with the given value.
pub open spec fn digit_char(d: nat) -> char {
    ((48 + d) as u32) as char
}

/// Decimal notation without leading zeros.
pub open spec fn decimal(n: nat) -> Seq<char>
    decreases n,
{
    if n < 10 {
        seq![digit_char(n)]
    } else {
        decimal(n / 10).push(digit_char(n % 10))
    }
}

/// The value of a string of decimal digits.
pub open spec fn digits_value(s: Seq<char>) -> nat
    decreases s.len(),
{
    if s.len() == 0 {
        0
    } else {
        digits_value(s.drop_last()) * 10 + (s.last() as u32 - '0' as u32) as nat
    }
}

pub open spec fn all_digits(s: Seq<char>) -> bool {
    forall|i: int| 0 <= i < s.len() ==> is_digit(#[trigger] s[i])
}

/// What `str::parse::<u64>` gives: digits with an optional plus sign in front,
/// whose value fits.
pub open spec fn parsed_u64(s: Seq<char>) -> Option<u64> {
    let body = if s.len() > 0 && s[0] == '+' {
        s.drop_first()
    } else {
        s
    };
    if body.len() > 0 && all_digits(body) && digits_value(body) <= u64::MAX {
        Some(digits_value(body) as u64)
    } else {
        None
    }
}

/// `s` with every occurrence of `from` replaced by `to`, found from the left.
pub open spec fn replaced(s: Seq<char>, from: Seq<char>, to: Seq<char>) -> Seq<char>
    decreases s.len(),
{
    if from.len() == 0 || s.len() < from.len() {
        s
    } else if has_prefix(s, from) {
        to + replaced(s.subrange(from.len() as int, s.len() as int), from, to)
    } else {
        seq![s[0]] + replaced(s.drop_first(), from, to)
    }
}

/// Only ASCII characters.
pub open spec fn ascii(s: Seq<char>) -> bool {
    forall|i: int| 0 <= i < s.len() ==> (#[trigger] s[i]) as u32 <= 127
}

/// ASCII upper case of one character; every other character stays.
pub open spec fn upper_char(c: char) -> char {
    if 'a' <= c <= 'z' {
        ((c as u32 - 32) as u32) as char
    } else {
        c
    }
}

/// ASCII upper case, character by character.
pub open spec fn upper(s: Seq<char>) -> Seq<char> {
    s.map_values(|c: char| upper_char(c))
}

/// A character of ASCII, or one of the Chinese and Japanese characters, which have no
/// case.
pub open spec fn is_plain(c: char) -> bool {
    let u = c as u32;
    ||| u <= 127
    ||| 0x3040 <= u <= 0x30ff
    ||| 0x3400 <= u <= 0x4dbf
    ||| 0x4e00 <= u <= 0x9fff
    ||| 0xf900 <= u <= 0xfaff
    ||| 0x20000 <= u <= 0x2a6df
}

/// Only such characters.
pub open spec fn is_plain_text(s: Seq<char>) -> bool {
    forall|i: int| 0 <= i < s.len() ==> is_plain(#[trigger] s[i])
}

/// The upper case of a text: known where its characters have none but in ASCII.
pub open spec fn upper_text(s: Seq<char>) -> Seq<char> {
    if is_plain_text(s) {
        upper(s)
    } else {
        unicode_upper(s)
    }
}

/// What `str::to_lowercase` gives.
pub uninterp spec fn unicode_lower(s: Seq<char>) -> Seq<char>;

/// What `str::to_uppercase` gives.
pub uninterp spec fn unicode_upper(s: Seq<char>) -> Seq<char>;

/// The lower case of a text: known where its characters have none but in ASCII.
pub open spec fn folded(s: Seq<char>) -> Seq<char> {
    if is_plain_text(s) {
        lower(s)
    } else {
        unicode_lower(s)
    }
}

/// Calls `str::to_lowercase`: the Unicode lower case of the text, which is a
/// function of the text alone. On ASCII text it is the ASCII lower case, and
/// characters of scripts without case are not changed.
#[verifier::external_body]
fn to_lowercase(s: &str) -> (r: String)
    ensures
        r@ == unicode_lower(s@),
        is_plain_text(s@) ==> r@ == lower(s@),
{
    s.to_lowercase()
}

/// The lower case of a text.
pub(crate) fn fold(s: &str) -> (r: String)
    ensures
        r@ == folded(s@),
{
    to_lowercase(s)
}

/// Calls `str::to_uppercase`: the Unicode upper case of the text, which is a
/// function of the text alone. On ASCII text it is the ASCII upper case, and
/// characters of scripts without case are not changed.
#[verifier::external_body]
pub(crate) fn to_uppercase(s: &str) -> (r: String)
    ensures
        r@ == unicode_upper(s@),
        is_plain_text(s@) ==> r@ == upper(s@),
{
    s.to_uppercase()
}

/// What `{:?}` writes for a text.
pub uninterp spec fn debug_text(s: Seq<char>) -> Seq<char>;

/// Calls `format!` with `{:?}` on a text: the text in quotes, with escapes where std
/// writes them, which is a function of the text alone.
#[verifier::external_body]
pub(crate) fn quoted(s: &str) -> (r: String)
    ensures
        r@ == debug_text(s@),
{
    format!("{:?}", s)
}

/// The characters of a string.
pub fn chars_of(s: &str) -> (v: Vec<char>)
    ensures
        v@ == s@,
{
    let mut v: Vec<char> = Vec::new();
    for c in it: s.chars()
        invariant
            v@.len() == it.index(),
            it.seq() == s@,
            forall|i: int| 0 <= i < v@.len() ==> v@[i] == it.seq()[i],
    {
        v.push(c);
    }
    assert(v@ =~= s@);
    v
}

/// The string of the characters `v[from..to]`.
pub fn string_of(v: &Vec<char>, from: usize, to: usize) -> (s: String)
    requires
        from <= to <= v@.len(),
    ensures
        s@ == v@.subrange(from as int, to as int),
{
    let mut s = String::new();
    let mut i: usize = from;
    while i < to
        invariant
            from <= i <= to <= v@.len(),
            s@ == v@.subrange(from as int, i as int),
        decreases to - i,
    {
        s.push(v[i]);
        i = i + 1;
        assert(s@ =~= v@.subrange(from as int, i as int));
    }
    s
}

/// Whether two character sequences are equal.
pub fn same_chars(a: &Vec<char>, b: &Vec<char>) -> (r: bool)
    ensures
        r == (a@ == b@),
{
    if a.len() != b.len() {
        return false;
    }
    let mut i: usize = 0;
    while i < a.len()
        invariant
            a@.len() == b@.len(),
            i <= a@.len(),
            forall|k: int| 0 <= k < i ==> a@[k] == b@[k],
        decreases a.len() - i,
    {
        if a[i] != b[i] {
            return false;
        }
        i = i + 1;
    }
    assert(a@ =~= b@);
    true
}

/// Whether two strings hold the same characters.
pub fn same(a: &str, b: &str) -> (r: bool)
    ensures
        r == (a@ == b@),
{
    same_chars(&chars_of(a), &chars_of(b))
}

pub fn space(c: char) -> (r: bool)
    ensures
        r == is_space(c),
{
    let u: u32 = c as u32;
    (u >= 0x09 && u <= 0x0d) || u == 0x20 || u == 0x85 || u == 0xa0 || u == 0x1680 || (u >= 0x2000
        && u <= 0x200a) || u == 0x2028 || u == 0x2029 || u == 0x202f || u == 0x205f || u == 0x3000
}

pub fn digit(c: char) -> (r: bool)
    ensures
        r == is_digit(c),
{
    '0' <= c && c <= '9'
}

/// One character in ASCII lower case.
pub fn lowered(c: char) -> (r: char)
    ensures
        r == lower_char(c),
{
    if 'A' <= c && c <= 'Z' {
        (c as u8 + 32) as char
    } else {
        c
    }
}

/// A string in ASCII lower case (`str::to_ascii_lowercase`).
pub fn lower_text(s: &str) -> (r: String)
    ensures
        r@ == lower(s@),
{
    let v = chars_of(s);
    let mut r = String::new();
    let mut i: usize = 0;
    while i < v.len()
        invariant
            v@ == s@,
            i <= v@.len(),
            r@ == lower(v@.take(i as int)),
        decreases v.len() - i,
    {
        r.push(lowered(v[i]));
        i = i + 1;
        assert(r@ =~= lower(v@.take(i as int)));
    }
    assert(v@.take(i as int) =~= v@);
    r
}

/// `str::trim`.
pub fn trim(s: &str) -> (r: String)
    ensures
        r@ == trimmed(s@),
{
    let v = chars_of(s);
    let mut from: usize = 0;
    let mut to: usize = v.len();
    assert(v@.subrange(0, v@.len() as int) =~= v@);
    while from < to && space(v[from])
        invariant
            to == v@.len(),
            from <= to,
            trim_start(v@) == trim_start(v@.subrange(from as int, to as int)),
        decreases to - from,
    {
        assert(v@.subrange(from as int, to as int).drop_first() =~= v@.subrange(
            from + 1,
            to as int,
        ));
        from = from + 1;
    }
    assert(trim_start(v@) == v@.subrange(from as int, to as int));
    while to > from && space(v[to - 1])
        invariant
            from <= to <= v@.len(),
            trimmed(v@) == trim_end(v@.subrange(from as int, to as int)),
        decreases to - from,
    {
        assert(v@.subrange(from as int, to as int).drop_last() =~= v@.subrange(
            from as int,
            to - 1,
        ));
        to = to - 1;
    }
    string_of(&v, from, to)
}

/// `str::starts_with` on a string.
pub fn starts_with(s: &str, p: &str) -> (r: bool)
    ensures
        r == has_prefix(s@, p@),
{
    occurs(&chars_of(s), &chars_of(p), 0)
}

/// `str::ends_with` on a string.
pub fn ends_with(s: &str, p: &str) -> (r: bool)
    ensures
        r == has_suffix(s@, p@),
{
    let v = chars_of(s);
    let w = chars_of(p);
    w.len() <= v.len() && occurs(&v, &w, v.len() - w.len())
}

/// Whether `p` occurs in `s` at position `at`.
pub fn occurs(s: &Vec<char>, p: &Vec<char>, at: usize) -> (r: bool)
    requires
        at <= s@.len(),
    ensures
        r == occurs_at(s@, p@, at as int),
{
    if p.len() > s.len() - at {
        return false;
    }
    let mut i: usize = 0;
    while i < p.len()
        invariant
            at + p.len() <= s.len(),
            i <= p@.len(),
            forall|k: int| 0 <= k < i ==> s@[at + k] == p@[k],
        decreases p.len() - i,
    {
        if s[at + i] != p[i] {
            assert(s@.subrange(at as int, at + p@.len())[i as int] != p@[i as int]);
            return false;
        }
        i = i + 1;
    }
    assert(s@.subrange(at as int, at + p@.len()) =~= p@);
    true
}

/// `str::contains` on a string.
pub fn contains(s: &str, p: &str) -> (r: bool)
    ensures
        r == has_text(s@, p@),
{
    let v = chars_of(s);
    let w = chars_of(p);
    let mut i: usize = 0;
    while i <= v.len()
        invariant
            v@ == s@,
            w@ == p@,
            i <= v@.len() + 1,
            forall|k: int| 0 <= k < i ==> !occurs_at(s@, p@, k),
        decreases v.len() + 1 - i,
    {
        if occurs(&v, &w, i) {
            return true;
        }
        if i == v.len() {
            assert forall|k: int| !occurs_at(s@, p@, k) by {}
            return false;
        }
        i = i + 1;
    }
    false
}

/// Every split has at least one piece.
pub proof fn split_nonempty(s: Seq<char>, sep: char)
    ensures
        split_on(s, sep).len() > 0,
    decreases s.len(),
{
    if s.len() > 0 {
        split_nonempty(s.drop_last(), sep);
    }
}

/// `str::split` on a character, collected.
pub fn split(s: &str, sep: char) -> (r: Vec<String>)
    ensures
        texts(r@) == split_on(s@, sep),
{
    let v = chars_of(s);
    let mut out: Vec<String> = Vec::new();
    let mut from: usize = 0;
    let mut i: usize = 0;
    assert(v@.take(0) =~= Seq::<char>::empty());
    assert(split_on(v@.take(0), sep) =~= texts(out@).push(v@.subrange(0, 0)));
    while i < v.len()
        invariant
            v@ == s@,
            from <= i <= v@.len(),
            split_on(v@.take(i as int), sep) == texts(out@).push(
                v@.subrange(from as int, i as int),
            ),
        decreases v.len() - i,
    {
        proof {
            let next = v@.take(i + 1);
            assert(next.drop_last() =~= v@.take(i as int));
            assert(next.last() == v@[i as int]);
            assert(texts(out@).push(v@.subrange(from as int, i as int)).drop_last() =~= texts(out@));
            assert(v@.subrange(from as int, i as int).push(v@[i as int]) =~= v@.subrange(
                from as int,
                i + 1,
            ));
        }
        if v[i] == sep {
            let piece = string_of(&v, from, i);
            let ghost before = out@;
            out.push(piece);
            from = i + 1;
            assert(texts(out@) =~= texts(before).push(piece@));
            assert(v@.subrange(i + 1, i + 1) =~= Seq::<char>::empty());
        }
        i = i + 1;
    }
    assert(v@.take(i as int) =~= v@);
    let ghost before = out@;
    let last = string_of(&v, from, i);
    out.push(last);
    assert(texts(out@) =~= texts(before).push(last@));
    out
}

/// The parts joined with a separator (`[String]::join`).
pub fn join(parts: &Vec<String>, sep: &str) -> (r: String)
    ensures
        r@ == join_with(texts(parts@), sep@),
{
    let mut r = String::new();
    let mut i: usize = 0;
    while i < parts.len()
        invariant
            i <= parts@.len(),
            r@ == join_with(texts(parts@).take(i as int), sep@),
        decreases parts.len() - i,
    {
        proof {
            let next = texts(parts@).take(i + 1);
            assert(next.drop_last() =~= texts(parts@).take(i as int));
            assert(next.last() == parts@[i as int]@);
        }
        if i > 0 {
            r.append(sep);
        }
        r.append(parts[i].as_str());
        assert(i == 0 ==> r@ =~= parts@[0]@);
        i = i + 1;
    }
    assert(texts(parts@).take(i as int) =~= texts(parts@));
    r
}

/// Length in UTF-16 code units (`encode_utf16().count()`).
pub fn utf16_len(s: &str) -> (r: usize)
    requires
        units(s@) <= usize::MAX,
    ensures
        r == units(s@),
{
    let v = chars_of(s);
    let mut n: usize = 0;
    let mut i: usize = 0;
    assert(v@.take(0) =~= Seq::<char>::empty());
    while i < v.len()
        invariant
            v@ == s@,
            i <= v@.len(),
            n == units(v@.take(i as int)),
            units(s@) <= usize::MAX,
        decreases v.len() - i,
    {
        proof {
            assert(v@.take(i + 1).drop_last() =~= v@.take(i as int));
            units_monotone(v@, i + 1);
        }
        n = n + (if v[i] as u32 >= 0x10000 {
            2
        } else {
            1
        });
        i = i + 1;
    }
    assert(v@.take(i as int) =~= v@);
    n
}

/// A prefix has no more UTF-16 units than the whole.
pub proof fn units_monotone(s: Seq<char>, n: int)
    requires
        0 <= n <= s.len(),
    ensures
        units(s.take(n)) <= units(s),
    decreases s.len(),
{
    if n < s.len() {
        units_monotone(s.drop_last(), n);
        assert(s.drop_last().take(n) =~= s.take(n));
    } else {
        assert(s.take(n) =~= s);
    }
}

/// Decimal notation of a number (`to_string`).
pub fn number(n: u64) -> (r: String)
    ensures
        r@ == decimal(n as nat),
    decreases n,
{
    let d: u8 = (n % 10) as u8;
    let c: char = (48 + d) as char;
    if n < 10 {
        let mut r = String::new();
        r.push(c);
        assert(r@ =~= decimal(n as nat));
        r
    } else {
        let mut r = number(n / 10);
        r.push(c);
        r
    }
}

/// `str::parse::<u64>`.
pub fn parse_u64(s: &str) -> (r: Option<u64>)
    ensures
        r == parsed_u64(s@),
{
    let v = chars_of(s);
    let from: usize = if v.len() > 0 && v[0] == '+' {
        1
    } else {
        0
    };
    let ghost body = v@.subrange(from as int, v@.len() as int);
    assert(from == 0 ==> body =~= s@);
    assert(from == 1 ==> body =~= s@.drop_first());
    if from == v.len() {
        return None;
    }
    let mut value: u64 = 0;
    let mut i: usize = from;
    let mut fits: bool = true;
    assert(body.take(0) =~= Seq::<char>::empty());
    while i < v.len()
        invariant
            from <= i <= v@.len(),
            body == v@.subrange(from as int, v@.len() as int),
            body.len() > 0 && !all_digits(body) ==> parsed_u64(s@) is None,
            all_digits(body.take(i - from)),
            fits ==> value == digits_value(body.take(i - from)),
            !fits ==> digits_value(body.take(i - from)) > u64::MAX,
        decreases v.len() - i,
    {
        let c: char = v[i];
        proof {
            assert(body[i - from] == c);
            assert(body.take(i + 1 - from).drop_last() =~= body.take(i - from));
        }
        if !digit(c) {
            assert(!all_digits(body));
            return None;
        }
        let d: u64 = c as u64 - 48;
        assert(digits_value(body.take(i + 1 - from)) == digits_value(body.take(i - from)) * 10 + d);
        if fits && value <= (u64::MAX - d) / 10 {
            value = value * 10 + d;
        } else {
            fits = false;
        }
        i = i + 1;
    }
    assert(body.take(i - from) =~= body);
    if fits {
        Some(value)
    } else {
        None
    }
}


/// The first position of `p` in `s`, at or after `i`.
pub open spec fn find_from(s: Seq<char>, p: Seq<char>, i: int) -> Option<int>
    decreases s.len() + 1 - i,
{
    if i < 0 || i > s.len() {
        None
    } else if occurs_at(s, p, i) {
        Some(i)
    } else {
        find_from(s, p, i + 1)
    }
}

/// The text before and after the first occurrence of `p`.
pub open spec fn cut_once(s: Seq<char>, p: Seq<char>) -> Option<(Seq<char>, Seq<char>)> {
    match find_from(s, p, 0) {
        Some(i) => Some((s.subrange(0, i), s.subrange(i + p.len(), s.len() as int))),
        None => None,
    }
}

/// The last position of `c` in `s`.
pub open spec fn last_pos(s: Seq<char>, c: char) -> Option<int>
    decreases s.len(),
{
    if s.len() == 0 {
        None
    } else if s.last() == c {
        Some(s.len() - 1)
    } else {
        last_pos(s.drop_last(), c)
    }
}

/// The last position of `p` in `s`, at or before `i`.
pub open spec fn rfind_from(s: Seq<char>, p: Seq<char>, i: int) -> Option<int>
    decreases i + 1,
{
    if i < 0 {
        None
    } else if occurs_at(s, p, i) {
        Some(i)
    } else {
        rfind_from(s, p, i - 1)
    }
}

/// The text before and after the last occurrence of `p`.
pub open spec fn rcut_once(s: Seq<char>, p: Seq<char>) -> Option<(Seq<char>, Seq<char>)> {
    match rfind_from(s, p, s.len() as int) {
        Some(i) => Some((s.subrange(0, i), s.subrange(i + p.len(), s.len() as int))),
        None => None,
    }
}

/// The maximal runs without white space, in order.
pub open spec fn words(s: Seq<char>) -> Seq<Seq<char>>
    decreases s.len(),
{
    if s.len() == 0 {
        Seq::empty()
    } else {
        let before = words(s.drop_last());
        let c = s.last();
        if is_space(c) {
            before
        } else if s.len() == 1 || is_space(s[s.len() - 2]) {
            before.push(seq![c])
        } else {
            before.drop_last().push(before.last().push(c))
        }
    }
}

/// `str::split_once` on a string.
pub fn split_once(s: &str, p: &str) -> (r: Option<(String, String)>)
    ensures
        match r {
            Some(x) => cut_once(s@, p@) == Some((x.0@, x.1@)),
            None => cut_once(s@, p@) is None,
        },
{
    let v = chars_of(s);
    let w = chars_of(p);
    let mut i: usize = 0;
    loop
        invariant
            v@ == s@,
            w@ == p@,
            i <= v@.len(),
            find_from(s@, p@, 0) == find_from(s@, p@, i as int),
        decreases v.len() - i,
    {
        if occurs(&v, &w, i) {
            assert(i + w@.len() <= v.len());
            let a = string_of(&v, 0, i);
            let b = string_of(&v, i + w.len(), v.len());
            return Some((a, b));
        }
        if i == v.len() {
            assert(find_from(s@, p@, i + 1) is None);
            return None;
        }
        i = i + 1;
    }
}

/// `str::rsplit_once` on a string.
pub fn rsplit_once(s: &str, p: &str) -> (r: Option<(String, String)>)
    ensures
        match r {
            Some(x) => rcut_once(s@, p@) == Some((x.0@, x.1@)),
            None => rcut_once(s@, p@) is None,
        },
{
    let v = chars_of(s);
    let w = chars_of(p);
    let mut i: usize = v.len();
    loop
        invariant
            v@ == s@,
            w@ == p@,
            i <= v@.len(),
            rfind_from(s@, p@, s@.len() as int) == rfind_from(s@, p@, i as int),
        decreases i,
    {
        if occurs(&v, &w, i) {
            assert(i + w@.len() <= v.len());
            let a = string_of(&v, 0, i);
            let b = string_of(&v, i + w.len(), v.len());
            return Some((a, b));
        }
        if i == 0 {
            assert(rfind_from(s@, p@, -1) is None);
            return None;
        }
        i = i - 1;
    }
}

/// The last position of `c` among the first `to` characters.
pub fn last_index(v: &Vec<char>, to: usize, c: char) -> (r: Option<usize>)
    requires
        to <= v@.len(),
    ensures
        match r {
            Some(i) => last_pos(v@.take(to as int), c) == Some(i as int) && i < to,
            None => last_pos(v@.take(to as int), c) is None,
        },
{
    let mut n: usize = to;
    while n > 0
        invariant
            n <= to <= v@.len(),
            last_pos(v@.take(to as int), c) == last_pos(v@.take(n as int), c),
        decreases n,
    {
        assert(v@.take(n as int).drop_last() =~= v@.take(n - 1));
        if v[n - 1] == c {
            return Some(n - 1);
        }
        n = n - 1;
    }
    None
}

/// `str::eq_ignore_ascii_case`.
pub fn same_ignoring_case(a: &str, b: &str) -> (r: bool)
    ensures
        r == (lower(a@) == lower(b@)),
{
    same(lower_text(a).as_str(), lower_text(b).as_str())
}

/// `str::split_whitespace`, collected.
pub fn split_words(s: &str) -> (r: Vec<String>)
    ensures
        texts(r@) == words(s@),
{
    let v = chars_of(s);
    let mut out: Vec<String> = Vec::new();
    let mut i: usize = 0;
    assert(v@.take(0) =~= Seq::<char>::empty());
    while i < v.len()
        invariant
            v@ == s@,
            i <= v@.len(),
            texts(out@) == words(v@.take(i as int)),
            i > 0 && !is_space(v@[i - 1]) ==> out@.len() > 0,
        decreases v.len() - i,
    {
        let c: char = v[i];
        let ghost before = out@;
        proof {
            assert(v@.take(i + 1).drop_last() =~= v@.take(i as int));
            assert(v@.take(i + 1).last() == c);
        }
        if !space(c) {
            if i == 0 || space(v[i - 1]) {
                let mut word = String::new();
                word.push(c);
                assert(word@ =~= seq![c]);
                out.push(word);
                assert(texts(out@) =~= texts(before).push(seq![c]));
            } else {
                let mut word = out.pop().unwrap();
                word.push(c);
                out.push(word);
                assert(texts(out@) =~= texts(before).drop_last().push(texts(before).last().push(c)));
            }
        }
        i = i + 1;
    }
    assert(v@.take(i as int) =~= v@);
    out
}

/// `str::strip_suffix` on a string.
pub fn strip_suffix(s: &str, p: &str) -> (r: Option<String>)
    ensures
        match r {
            Some(x) => has_suffix(s@, p@) && x@ == s@.subrange(0, s@.len() - p@.len()),
            None => !has_suffix(s@, p@),
        },
{
    if ends_with(s, p) {
        let v = chars_of(s);
        let n: usize = v.len() - chars_of(p).len();
        Some(string_of(&v, 0, n))
    } else {
        None
    }
}

/// `str::strip_prefix` on a string.
pub fn strip_prefix(s: &str, p: &str) -> (r: Option<String>)
    ensures
        match r {
            Some(x) => has_prefix(s@, p@) && x@ == s@.subrange(p@.len() as int, s@.len() as int),
            None => !has_prefix(s@, p@),
        },
{
    if starts_with(s, p) {
        let v = chars_of(s);
        Some(string_of(&v, chars_of(p).len(), v.len()))
    } else {
        None
    }
}

/// `str::replace` of one non-empty string by another.
pub fn replace(s: &str, from: &str, to: &str) -> (r: String)
    requires
        from@.len() > 0,
    ensures
        r@ == replaced(s@, from@, to@),
{
    let v = chars_of(s);
    let w = chars_of(from);
    let mut out = String::new();
    let mut i: usize = 0;
    assert(v@.subrange(0, v@.len() as int) =~= v@);
    assert(out@ + replaced(v@, from@, to@) =~= replaced(v@, from@, to@));
    while i < v.len() && w.len() <= v.len() - i
        invariant
            v@ == s@,
            w@ == from@,
            w@.len() > 0,
            i <= v@.len(),
            replaced(s@, from@, to@) == out@ + replaced(
                v@.subrange(i as int, v@.len() as int),
                from@,
                to@,
            ),
        decreases v.len() - i,
    {
        let ghost rest = v@.subrange(i as int, v@.len() as int);
        let ghost before = out@;
        assert(rest.subrange(0, w@.len() as int) =~= v@.subrange(i as int, i + w@.len()));
        if occurs(&v, &w, i) {
            out.append(to);
            assert(rest.subrange(w@.len() as int, rest.len() as int) =~= v@.subrange(
                i + w@.len(),
                v@.len() as int,
            ));
            i = i + w.len();
            assert(before + (to@ + replaced(v@.subrange(i as int, v@.len() as int), from@, to@))
                =~= out@ + replaced(v@.subrange(i as int, v@.len() as int), from@, to@));
        } else {
            out.push(v[i]);
            assert(rest.drop_first() =~= v@.subrange(i + 1, v@.len() as int));
            assert(before + (seq![v@[i as int]] + replaced(rest.drop_first(), from@, to@)) =~= out@
                + replaced(rest.drop_first(), from@, to@));
            i = i + 1;
        }
    }
    let tail = string_of(&v, i, v.len());
    out.append(tail.as_str());
    out
}

/// Joining the pieces of a split with the separator gives the text back.
pub proof fn law_split_join(s: Seq<char>, sep: char)
    ensures
        join_with(split_on(s, sep), seq![sep]) == s,
    decreases s.len(),
{
    if s.len() == 0 {
    } else {
        let before = split_on(s.drop_last(), sep);
        law_split_join(s.drop_last(), sep);
        split_nonempty(s.drop_last(), sep);
        let after = split_on(s, sep);
        if s.last() == sep {
            assert(after.drop_last() =~= before);
            assert(join_with(after, seq![sep]) =~= s);
        } else {
            assert(after.drop_last() =~= before.drop_last());
            if before.len() > 1 {
                let head = join_with(before.drop_last(), seq![sep]) + seq![sep];
                assert(head + before.last() == s.drop_last());
                assert(head + before.last().push(s.last()) =~= (head + before.last()).push(s.last()));
                assert(s.drop_last().push(s.last()) =~= s);
            } else {
                assert(before[0].push(s.last()) =~= s);
            }
        }
    }
}

/// The decimal notation of a number is digits, and their value is the number.
pub proof fn law_decimal_value(n: nat)
    ensures
        decimal(n).len() > 0,
        all_digits(decimal(n)),
        digits_value(decimal(n)) == n,
    decreases n,
{
    if n < 10 {
        assert(decimal(n).drop_last() =~= Seq::<char>::empty());
        assert(decimal(n).last() as u32 == 48 + n);
        assert(digits_value(decimal(n).drop_last()) == 0);
    } else {
        law_decimal_value(n / 10);
        assert(decimal(n).drop_last() =~= decimal(n / 10));
        assert(decimal(n).last() as u32 == 48 + n % 10);
    }
}

/// Reading back the decimal notation of a `u64` gives the number.
pub proof fn law_parse_decimal(n: u64)
    ensures
        parsed_u64(decimal(n as nat)) == Some(n),
{
    law_decimal_value(n as nat);
    assert(is_digit(decimal(n as nat)[0]));
}

/// A text without the separator is one piece.
pub proof fn split_whole(s: Seq<char>, sep: char)
    requires
        !s.contains(sep),
    ensures
        split_on(s, sep) == seq![s],
    decreases s.len(),
{
    if s.len() > 0 {
        assert(!s.drop_last().contains(sep)) by {
            if s.drop_last().contains(sep) {
                let i = choose|i: int| 0 <= i < s.drop_last().len() && s.drop_last()[i] == sep;
                assert(s[i] == sep);
            }
        }
        split_whole(s.drop_last(), sep);
        assert(s[s.len() - 1] != sep);
        let before = split_on(s.drop_last(), sep);
        assert(before.drop_last().push(before.last().push(s.last())) =~= seq![s]) by {
            assert(s.drop_last().push(s.last()) =~= s);
        }
    } else {
        assert(s =~= Seq::<char>::empty());
    }
}

/// Splitting a text after a separator splits off the last piece.
pub proof fn split_append(a: Seq<char>, b: Seq<char>, sep: char)
    requires
        !b.contains(sep),
    ensures
        split_on(a.push(sep) + b, sep) == split_on(a, sep).push(b),
    decreases b.len(),
{
    let whole = a.push(sep) + b;
    if b.len() == 0 {
        assert(whole =~= a.push(sep));
        assert(whole.drop_last() =~= a);
        assert(b =~= Seq::<char>::empty());
    } else {
        assert(!b.drop_last().contains(sep)) by {
            if b.drop_last().contains(sep) {
                let i = choose|i: int| 0 <= i < b.drop_last().len() && b.drop_last()[i] == sep;
                assert(b[i] == sep);
            }
        }
        split_append(a, b.drop_last(), sep);
        assert(whole.drop_last() =~= a.push(sep) + b.drop_last());
        assert(b[b.len() - 1] != sep);
        assert(whole.last() == b.last());
        let before = split_on(whole.drop_last(), sep);
        assert(before.drop_last() =~= split_on(a, sep));
        assert(b.drop_last().push(b.last()) =~= b);
    }
}

/// Splitting a join gives the parts back, when no part holds the separator.
pub proof fn law_join_split(parts: Seq<Seq<char>>, sep: char)
    requires
        parts.len() > 0,
        forall|i: int| 0 <= i < parts.len() ==> !(#[trigger] parts[i]).contains(sep),
    ensures
        split_on(join_with(parts, seq![sep]), sep) == parts,
    decreases parts.len(),
{
    if parts.len() == 1 {
        split_whole(parts[0], sep);
        assert(seq![parts[0]] =~= parts);
    } else {
        assert forall|i: int| 0 <= i < parts.drop_last().len() implies !(
        #[trigger] parts.drop_last()[i]).contains(sep) by {
            assert(!parts[i].contains(sep));
        }
        law_join_split(parts.drop_last(), sep);
        let a = join_with(parts.drop_last(), seq![sep]);
        split_append(a, parts.last(), sep);
        assert(a.push(sep) + parts.last() =~= a + seq![sep] + parts.last());
        assert(parts.drop_last().push(parts.last()) =~= parts);
    }
}

/// `str::trim_end`.
pub fn trim_right(s: &str) -> (r: String)
    ensures
        r@ == trim_end(s@),
{
    let v = chars_of(s);
    let mut to: usize = v.len();
    assert(v@.subrange(0, to as int) =~= v@);
    while to > 0 && space(v[to - 1])
        invariant
            v@ == s@,
            to <= v@.len(),
            trim_end(s@) == trim_end(v@.subrange(0, to as int)),
        decreases to,
    {
        assert(v@.subrange(0, to as int).drop_last() =~= v@.subrange(0, to - 1));
        to = to - 1;
    }
    string_of(&v, 0, to)
}

/// Decimal notation, filled with zeros in front up to a width.
pub open spec fn padded(n: nat, width: nat) -> Seq<char> {
    let d = decimal(n);
    if d.len() < width {
        zeros((width - d.len()) as nat) + d
    } else {
        d
    }
}

/// That many zeros.
pub open spec fn zeros(n: nat) -> Seq<char> {
    Seq::new(n, |i: int| '0')
}

/// A number with at least `width` digits, as `format!("{:0width$}")` writes it.
pub fn padded_number(n: u64, width: usize) -> (r: String)
    ensures
        r@ == padded(n as nat, width as nat),
{
    let d = number(n);
    let len: usize = d.as_str().unicode_len();
    let mut r = String::new();
    let mut i: usize = len;
    assert(r@ =~= zeros(0));
    while i < width
        invariant
            len == decimal(n as nat).len(),
            i >= len,
            i > len ==> i <= width,
            r@ == zeros((i - len) as nat),
        decreases width - i,
    {
        r.push('0');
        i = i + 1;
        assert(r@ =~= zeros((i - len) as nat));
    }
    r.append(d.as_str());
    assert(zeros(0) + d@ =~= d@);
    r
}

/// Decimal notation with a minus sign in front of what is negative.
pub open spec fn signed(n: int) -> Seq<char> {
    if n < 0 {
        seq!['-'] + decimal((-n) as nat)
    } else {
        decimal(n as nat)
    }
}

/// Decimal notation of an `i64` (`to_string`).
pub fn signed_number(n: i64) -> (r: String)
    ensures
        r@ == signed(n as int),
{
    if n >= 0 {
        return number(n as u64);
    }
    let magnitude: u64 = if n == i64::MIN {
        0x8000_0000_0000_0000
    } else {
        (-n) as u64
    };
    let mut r = String::new();
    r.push('-');
    assert(r@ =~= seq!['-']);
    r.append(number(magnitude).as_str());
    r
}

/// Not behind the other text in dictionary order, from position `i` on.
pub open spec fn at_most_from(a: Seq<char>, b: Seq<char>, i: int) -> bool
    decreases a.len() - i,
{
    if i >= a.len() {
        true
    } else if i >= b.len() {
        false
    } else if a[i] != b[i] {
        a[i] < b[i]
    } else {
        at_most_from(a, b, i + 1)
    }
}

/// Not behind the other text in dictionary order of the characters.
pub open spec fn at_most(a: Seq<char>, b: Seq<char>) -> bool {
    at_most_from(a, b, 0)
}

/// Whether `a` does not come behind `b`: what `<=` says of two strings.
pub fn not_after(a: &str, b: &str) -> (r: bool)
    ensures
        r == at_most(a@, b@),
{
    let v = chars_of(a);
    let w = chars_of(b);
    let mut i: usize = 0;
    while i < v.len() && i < w.len() && v[i] == w[i]
        invariant
            i <= v@.len(),
            i <= w@.len(),
            v@ == a@,
            w@ == b@,
            at_most(a@, b@) == at_most_from(a@, b@, i as int),
        decreases v.len() - i,
    {
        i = i + 1;
    }
    i >= v.len() || (i < w.len() && v[i] < w[i])
}

proof fn at_most_total_from(a: Seq<char>, b: Seq<char>, i: int)
    requires
        0 <= i,
        i <= a.len(),
        i <= b.len(),
        a.take(i) == b.take(i),
    ensures
        at_most_from(a, b, i) || at_most_from(b, a, i),
        at_most_from(a, b, i) && at_most_from(b, a, i) ==> a == b,
    decreases a.len() - i,
{
    if i < a.len() && i < b.len() && a[i] == b[i] {
        assert(a.take(i + 1) =~= a.take(i).push(a[i]));
        assert(b.take(i + 1) =~= b.take(i).push(b[i]));
        at_most_total_from(a, b, i + 1);
    } else if i == a.len() && i == b.len() {
        assert(a.take(i) =~= a);
        assert(b.take(i) =~= b);
    }
}

proof fn at_most_chain_from(a: Seq<char>, b: Seq<char>, c: Seq<char>, i: int)
    requires
        0 <= i,
        at_most_from(a, b, i),
        at_most_from(b, c, i),
    ensures
        at_most_from(a, c, i),
    decreases a.len() - i,
{
    if i < a.len() && i < b.len() && i < c.len() && a[i] == b[i] && b[i] == c[i] {
        at_most_chain_from(a, b, c, i + 1);
    }
}

/// Dictionary order compares any two texts, and only equal ones both ways.
pub proof fn at_most_total(a: Seq<char>, b: Seq<char>)
    ensures
        at_most(a, b) || at_most(b, a),
        at_most(a, b) && at_most(b, a) ==> a == b,
{
    assert(a.take(0) =~= b.take(0));
    at_most_total_from(a, b, 0);
}

/// Dictionary order chains.
pub proof fn at_most_chain(a: Seq<char>, b: Seq<char>, c: Seq<char>)
    requires
        at_most(a, b),
        at_most(b, c),
    ensures
        at_most(a, c),
{
    at_most_chain_from(a, b, c, 0);
}

/// The longest start of a text with at most so many bytes.
pub fn cut_bytes(s: &str, max: usize) -> (r: String)
    ensures
        r@ == start_in_bytes(s@, max as nat),
{
    let v = chars_of(s);
    let mut left: usize = max;
    let mut i: usize = 0;
    assert(v@.skip(0) =~= v@);
    assert(v@.take(0) + start_in_bytes(v@, max as nat) =~= start_in_bytes(v@, max as nat));
    while i < v.len()
        invariant
            v@ == s@,
            i <= v@.len(),
            start_in_bytes(v@, max as nat) == v@.take(i as int) + start_in_bytes(
                v@.skip(i as int),
                left as nat,
            ),
        decreases v.len() - i,
    {
        let u: u32 = v[i] as u32;
        let n: usize = if u < 0x80 {
            1
        } else if u < 0x800 {
            2
        } else if u < 0x10000 {
            3
        } else {
            4
        };
        assert(v@.skip(i as int)[0] == v@[i as int]);
        if n > left {
            let r = string_of(&v, 0, i);
            assert(r@ =~= v@.take(i as int) + Seq::<char>::empty());
            return r;
        }
        proof {
            let rest = start_in_bytes(v@.skip(i + 1), (left - n) as nat);
            assert(v@.skip(i as int).drop_first() =~= v@.skip(i + 1));
            assert(v@.take(i as int) + (seq![v@[i as int]] + rest) =~= v@.take(i + 1) + rest);
        }
        left = left - n;
        i = i + 1;
    }
    let r = string_of(&v, 0, v.len());
    assert(v@.skip(i as int) =~= Seq::<char>::empty());
    assert(r@ =~= v@.take(i as int) + Seq::<char>::empty());
    r
}

/// Dictionary order is decided by the first character in which two texts differ; a start
/// of a text is not behind it.
pub proof fn law_dictionary_order(a: Seq<char>, b: Seq<char>, i: int)
    requires
        0 <= i <= a.len(),
        i <= b.len(),
        a.take(i) == b.take(i),
    ensures
        i < a.len() && i < b.len() && a[i] != b[i] ==> (at_most(a, b) <==> a[i] < b[i]),
        i == a.len() ==> at_most(a, b),
        i == b.len() && i < a.len() ==> !at_most(a, b),
{
    same_start_skipped(a, b, i, 0);
}

proof fn same_start_skipped(a: Seq<char>, b: Seq<char>, i: int, k: int)
    requires
        0 <= k <= i <= a.len(),
        i <= b.len(),
        a.take(i) == b.take(i),
    ensures
        at_most_from(a, b, k) == at_most_from(a, b, i),
    decreases i - k,
{
    if k < i {
        assert(a.take(i)[k] == a[k]);
        assert(b.take(i)[k] == b[k]);
        same_start_skipped(a, b, i, k + 1);
    }
}

/// What is found is the first place at which the text stands; nothing is found only where
/// it stands nowhere.
pub proof fn law_first_place(s: Seq<char>, p: Seq<char>, from: int)
    requires
        0 <= from,
    ensures
        match find_from(s, p, from) {
            Some(i) => from <= i && i + p.len() <= s.len() && s.subrange(i, i + p.len()) == p
                && forall|k: int|
                from <= k < i ==> !(#[trigger] occurs_at(s, p, k)),
            None => forall|k: int| from <= k ==> !(#[trigger] occurs_at(s, p, k)),
        },
    decreases s.len() + 1 - from,
{
    if from <= s.len() && !occurs_at(s, p, from) {
        law_first_place(s, p, from + 1);
    }
}

/// A text that is cut is the piece before, the separator and the piece behind, and the
/// separator does not stand before that place; without it the text is not cut.
pub proof fn law_cut_at_the_first_place(s: Seq<char>, p: Seq<char>)
    ensures
        match cut_once(s, p) {
            Some((a, b)) => s == a + p + b && forall|k: int|
                0 <= k < a.len() ==> !(#[trigger] occurs_at(s, p, k)),
            None => forall|k: int| !(#[trigger] occurs_at(s, p, k)),
        },
{
    law_first_place(s, p, 0);
    if let Some(i) = find_from(s, p, 0) {
        assert(s =~= s.subrange(0, i) + p + s.subrange(i + p.len(), s.len() as int)) by {
            let q = s.subrange(i, i + p.len());
            assert(q == p);
            assert(s =~= s.subrange(0, i) + q + s.subrange(i + p.len(), s.len() as int));
        }
    }
}

proof fn last_place(s: Seq<char>, p: Seq<char>, from: int)
    requires
        from <= s.len(),
    ensures
        match rfind_from(s, p, from) {
            Some(i) => 0 <= i <= from && occurs_at(s, p, i) && forall|k: int|
                i < k <= from ==> !(#[trigger] occurs_at(s, p, k)),
            None => forall|k: int| k <= from ==> !(#[trigger] occurs_at(s, p, k)),
        },
    decreases from + 1,
{
    if from >= 0 && !occurs_at(s, p, from) {
        last_place(s, p, from - 1);
    }
}

/// The same of a cut at the last place.
pub proof fn law_cut_at_the_last_place(s: Seq<char>, p: Seq<char>)
    ensures
        match rcut_once(s, p) {
            Some((a, b)) => s == a + p + b && forall|k: int|
                a.len() < k ==> !(#[trigger] occurs_at(s, p, k)),
            None => forall|k: int| !(#[trigger] occurs_at(s, p, k)),
        },
{
    last_place(s, p, s.len() as int);
    if let Some(i) = rfind_from(s, p, s.len() as int) {
        let q = s.subrange(i, i + p.len());
        assert(q == p);
        assert(s =~= s.subrange(0, i) + q + s.subrange(i + p.len(), s.len() as int));
        if p.len() > 0 {
        }
        assert forall|k: int| s.subrange(0, i).len() < k implies !(#[trigger] occurs_at(s, p, k)) by {
            if k > s.len() {
                assert(!occurs_at(s, p, k));
            }
        }
    }
}

/// Only white space is taken from the ends, and none is left there.
pub proof fn law_trimmed(s: Seq<char>)
    ensures
        trimmed(s).len() > 0 ==> !is_space(trimmed(s)[0]) && !is_space(trimmed(s).last()),
        exists|i: int, j: int|
            #![trigger s.subrange(i, j)]
            0 <= i <= j <= s.len() && trimmed(s) == s.subrange(i, j) && (forall|k: int|
                0 <= k < i ==> is_space(#[trigger] s[k])) && forall|k: int|
                j <= k < s.len() ==> is_space(#[trigger] s[k]),
        trimmed(s).len() == 0 <==> forall|k: int| 0 <= k < s.len() ==> is_space(#[trigger] s[k]),
{
    start_trimmed(s);
    let i = choose|i: int|
        0 <= i <= s.len() && trim_start(s) == s.skip(i) && (forall|k: int|
            0 <= k < i ==> is_space(#[trigger] s[k])) && (i < s.len() ==> !is_space(s[i]));
    let t = trim_start(s);
    end_trimmed(t);
    let j = choose|j: int|
        0 <= j <= t.len() && trim_end(t) == t.take(j) && (forall|k: int|
            j <= k < t.len() ==> is_space(#[trigger] t[k])) && (j > 0 ==> !is_space(t[j - 1]));
    assert(trimmed(s) =~= s.subrange(i, i + j));
    assert forall|k: int| i + j <= k < s.len() implies is_space(#[trigger] s[k]) by {
        assert(t[k - i] == s[k]);
    }
    if j > 0 {
        assert(t[0] == s[i]);
        assert(t[j - 1] == s[i + j - 1]);
        assert(trimmed(s)[0] == s[i]);
        assert(trimmed(s).last() == s[i + j - 1]);
        assert(!is_space(s[i + j - 1]));
    }
}

proof fn start_trimmed(s: Seq<char>)
    ensures
        exists|i: int|
            0 <= i <= s.len() && trim_start(s) == #[trigger] s.skip(i) && (forall|k: int|
                0 <= k < i ==> is_space(#[trigger] s[k])) && (i < s.len() ==> !is_space(s[i])),
    decreases s.len(),
{
    if s.len() == 0 || !is_space(s[0]) {
        assert(s.skip(0) =~= s);
    } else {
        let t = s.drop_first();
        start_trimmed(t);
        let i = choose|i: int|
            0 <= i <= t.len() && trim_start(t) == #[trigger] t.skip(i) && (forall|k: int|
                0 <= k < i ==> is_space(#[trigger] t[k])) && (i < t.len() ==> !is_space(t[i]));
        assert(t.skip(i) =~= s.skip(i + 1));
        assert forall|k: int| 0 <= k < i + 1 implies is_space(#[trigger] s[k]) by {
            if k > 0 {
                assert(t[k - 1] == s[k]);
            }
        }
        if i < t.len() {
            assert(t[i] == s[i + 1]);
        }
    }
}

proof fn end_trimmed(s: Seq<char>)
    ensures
        exists|j: int|
            0 <= j <= s.len() && trim_end(s) == #[trigger] s.take(j) && (forall|k: int|
                j <= k < s.len() ==> is_space(#[trigger] s[k])) && (j > 0 ==> !is_space(s[j - 1])),
    decreases s.len(),
{
    if s.len() == 0 || !is_space(s.last()) {
        assert(s.take(s.len() as int) =~= s);
    } else {
        let t = s.drop_last();
        end_trimmed(t);
        let j = choose|j: int|
            0 <= j <= t.len() && trim_end(t) == #[trigger] t.take(j) && (forall|k: int|
                j <= k < t.len() ==> is_space(#[trigger] t[k])) && (j > 0 ==> !is_space(t[j - 1]));
        assert(t.take(j) =~= s.take(j));
        assert forall|k: int| j <= k < s.len() implies is_space(#[trigger] s[k]) by {
            if k < t.len() {
                assert(t[k] == s[k]);
            }
        }
        if j > 0 {
            assert(t[j - 1] == s[j - 1]);
        }
    }
}

/// Lower case changes the letters from A to Z to those from a to z, one for one, and nothing
/// else; what is in lower case stays.
pub proof fn law_lower_case(s: Seq<char>, i: int)
    requires
        0 <= i < s.len(),
    ensures
        lower(s).len() == s.len(),
        'A' <= s[i] <= 'Z' ==> lower(s)[i] as u32 == s[i] as u32 + 32 && 'a' <= lower(s)[i] <= 'z',
        !('A' <= s[i] <= 'Z') ==> lower(s)[i] == s[i],
        lower(lower(s)) == lower(s),
{
    assert(lower(lower(s)) =~= lower(s));
}

/// A padded number has the value of the number and at least so many digits; zeros stand in
/// front only where they are needed.
pub proof fn law_padded(n: nat, width: nat)
    ensures
        all_digits(padded(n, width)),
        digits_value(padded(n, width)) == n,
        padded(n, width).len() >= width,
        padded(n, width).len() > width ==> padded(n, width) == decimal(n),
{
    law_decimal_value(n);
    let d = decimal(n);
    if d.len() < width {
        let z = zeros((width - d.len()) as nat);
        leading_zeros(z, d);
        assert forall|i: int| 0 <= i < (z + d).len() implies is_digit(#[trigger] (z + d)[i]) by {
            if i >= z.len() {
                assert(is_digit(d[i - z.len()]));
            }
        }
    }
}

proof fn leading_zeros(z: Seq<char>, d: Seq<char>)
    requires
        forall|i: int| 0 <= i < z.len() ==> z[i] == '0',
        all_digits(d),
    ensures
        digits_value(z + d) == digits_value(d),
    decreases z.len() + d.len(),
{
    if d.len() == 0 {
        assert(z + d =~= z);
        if z.len() > 0 {
            leading_zeros(z.drop_last(), d);
            assert(z.drop_last() + d =~= z.drop_last());
            assert(z.last() == '0');
        }
    } else {
        assert forall|i: int| 0 <= i < d.drop_last().len() implies is_digit(
            #[trigger] d.drop_last()[i],
        ) by {
            assert(is_digit(d[i]));
        }
        leading_zeros(z, d.drop_last());
        assert((z + d).drop_last() =~= z + d.drop_last());
    }
}

/// Replacing goes from the front to the back: what stands before the first place stays, the
/// place is replaced, and the rest is treated alike. A text without the part stays.
pub proof fn law_replaced(s: Seq<char>, from: Seq<char>, to: Seq<char>, i: int)
    requires
        from.len() > 0,
    ensures
        (forall|k: int| !(#[trigger] occurs_at(s, from, k))) ==> replaced(s, from, to) == s,
        occurs_at(s, from, i) && (forall|k: int| 0 <= k < i ==> !(#[trigger] occurs_at(s, from, k)))
            ==> replaced(s, from, to) == s.take(i) + to + replaced(
            s.skip(i + from.len()),
            from,
            to,
        ),
    decreases s.len(),
{
    if s.len() >= from.len() {
        let rest = s.drop_first();
        assert forall|k: int| #[trigger] occurs_at(rest, from, k) implies occurs_at(
            s,
            from,
            k + 1,
        ) by {
            assert(s.subrange(k + 1, k + 1 + from.len()) =~= rest.subrange(k, k + from.len()));
        }
        if has_prefix(s, from) {
            assert(s.subrange(0, from.len() as int) == from);
            assert(occurs_at(s, from, 0));
            if i == 0 {
                assert(s.take(0) + to =~= to);
                assert(s.skip(from.len() as int) =~= s.subrange(from.len() as int, s.len() as int));
                assert(s.skip(i + from.len()) =~= s.skip(from.len() as int));
            }
        } else {
            assert(!occurs_at(s, from, 0));
            law_replaced(rest, from, to, i - 1);
            if forall|k: int| !(#[trigger] occurs_at(s, from, k)) {
                assert forall|k: int| !(#[trigger] occurs_at(rest, from, k)) by {
                    if occurs_at(rest, from, k) {
                        assert(occurs_at(s, from, k + 1));
                    }
                }
                assert(seq![s[0]] + rest =~= s);
            }
            if occurs_at(s, from, i) && forall|k: int|
                0 <= k < i ==> !(#[trigger] occurs_at(s, from, k)) {
                assert(rest.subrange(i - 1, i - 1 + from.len()) =~= s.subrange(i, i + from.len()));
                assert(occurs_at(rest, from, i - 1));
                assert forall|k: int| 0 <= k < i - 1 implies !(#[trigger] occurs_at(
                    rest,
                    from,
                    k,
                )) by {
                    if occurs_at(rest, from, k) {
                        assert(occurs_at(s, from, k + 1));
                    }
                }
                assert(rest.skip(i - 1 + from.len()) =~= s.skip(i + from.len()));
                assert(seq![s[0]] + (rest.take(i - 1) + to + replaced(
                    s.skip(i + from.len()),
                    from,
                    to,
                )) =~= s.take(i) + to + replaced(s.skip(i + from.len()), from, to));
            }
        }
    }
}

/// The last place of a character: behind it there is none of it.
pub proof fn law_last_place_of_a_character(s: Seq<char>, c: char)
    ensures
        match last_pos(s, c) {
            Some(i) => 0 <= i < s.len() && s[i] == c && forall|k: int|
                i < k < s.len() ==> #[trigger] s[k] != c,
            None => forall|k: int| 0 <= k < s.len() ==> #[trigger] s[k] != c,
        },
    decreases s.len(),
{
    if s.len() > 0 && s.last() != c {
        let t = s.drop_last();
        law_last_place_of_a_character(t, c);
        assert forall|k: int| 0 <= k < t.len() implies #[trigger] s[k] == t[k] by {}
    }
}

/// How long texts are: a character of ASCII is one byte and one unit, one of the first plane
/// is one unit and up to three bytes, any other is two units and four bytes; lengths add up.
pub proof fn law_lengths_of_texts(a: Seq<char>, c: char)
    ensures
        (c as u32) < 0x80 ==> char_bytes(c) == 1,
        0x80 <= (c as u32) < 0x800 ==> char_bytes(c) == 2,
        0x800 <= (c as u32) < 0x1_0000 ==> char_bytes(c) == 3,
        (c as u32) >= 0x1_0000 ==> char_bytes(c) == 4 && char_units(c) == 2,
        (c as u32) < 0x1_0000 ==> char_units(c) == 1,
        units(Seq::empty()) == 0,
        units(a.push(c)) == units(a) + (if (c as u32) < 0x1_0000 {
            1nat
        } else {
            2
        }),
{
    assert(a.push(c).drop_last() =~= a);
}

} // verus!
