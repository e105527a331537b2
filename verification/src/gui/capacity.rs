//! Numbers that the user types: counts, and amounts of bytes with a unit.

use crate::text;
use vstd::prelude::*;

verus! {

/// A power of ten.
pub open spec fn pow10(n: nat) -> nat
    decreases n,
{
    if n == 0 {
        1
    } else {
        10 * pow10((n - 1) as nat)
    }
}

/// How many bytes a unit stands for.
pub open spec fn unit_bytes(unit: Seq<char>) -> Option<nat> {
    if unit == ""@ || unit == "b"@ {
        Some(1)
    } else if unit == "kib"@ {
        Some(0x400)
    } else if unit == "mib"@ {
        Some(0x10_0000)
    } else if unit == "gib"@ {
        Some(0x4000_0000)
    } else if unit == "tib"@ {
        Some(0x100_0000_0000)
    } else {
        None
    }
}

/// The digits in front of the first point of a number, and those behind it.
pub open spec fn halves(number: Seq<char>) -> (Seq<char>, Seq<char>) {
    match text::cut_once(number, "."@) {
        Some((whole, fraction)) => (whole, fraction),
        None => (number, Seq::empty()),
    }
}

/// A number of units in bytes. It has to come to whole bytes, no more than fit: nothing
/// is rounded or cut.
pub open spec fn amount(number: Seq<char>, unit: nat) -> Option<nat> {
    let (whole, fraction) = halves(number);
    let part = text::digits_value(fraction) * unit;
    let parts = pow10(fraction.len());
    let total = text::digits_value(whole) * unit + part / parts;
    if !text::all_digits(whole) || !text::all_digits(fraction) {
        None
    } else if whole.len() == 0 && fraction.len() == 0 {
        None
    } else if part % parts != 0 || total > u64::MAX {
        None
    } else {
        Some(total)
    }
}

/// Where the number at the front of a text ends.
pub open spec fn number_end(s: Seq<char>, i: int) -> int
    decreases s.len() - i,
{
    if 0 <= i < s.len() && (text::is_digit(s[i]) || s[i] == '.') {
        number_end(s, i + 1)
    } else {
        i
    }
}

/// The amount of bytes that a text stands for, where its unit reads as `unit` in lower
/// case.
pub open spec fn capacity_with(s: Seq<char>, unit: Seq<char>) -> Option<nat> {
    match unit_bytes(unit) {
        Some(u) => amount(s.take(number_end(s, 0)), u),
        None => None,
    }
}

/// The unit at the end of a text.
pub open spec fn unit_text(s: Seq<char>) -> Seq<char> {
    text::trimmed(s.skip(number_end(s, 0)))
}

/// What a number that the user typed stands for.
pub open spec fn typed_number(s: Seq<char>, capacity: bool) -> Option<nat> {
    if !capacity {
        match text::parsed_u64(s) {
            Some(n) => Some(n as nat),
            None => None,
        }
    } else {
        let t = text::trimmed(s);
        capacity_with(t, text::folded(unit_text(t)))
    }
}

proof fn pow10_positive(n: nat)
    ensures
        pow10(n) >= 1,
    decreases n,
{
    if n > 0 {
        pow10_positive((n - 1) as nat);
    }
}

/// `a` times a power of ten is a multiple of a power that is at least one higher only
/// where `a` is a multiple of ten.
proof fn no_multiple(a: nat, m: nat, n: nat)
    requires
        m < n,
        a % 10 != 0,
    ensures
        (a * pow10(m)) % pow10(n) != 0,
    decreases m,
{
    pow10_positive(n);
    pow10_positive(m);
    let p = pow10((n - 1) as nat);
    pow10_positive((n - 1) as nat);
    assert(pow10(n) == 10 * p);
    if m == 0 {
        if a % pow10(n) == 0 {
            let q = a / pow10(n);
            vstd::arithmetic::div_mod::lemma_fundamental_div_mod(a as int, pow10(n) as int);
            assert(a == 10 * (p * q)) by (nonlinear_arith)
                requires
                    a == (10 * p) * q,
            ;
            assert(false);
        }
        assert(a * pow10(m) == a);
    } else {
        let b = a * pow10((m - 1) as nat);
        no_multiple(a, (m - 1) as nat, (n - 1) as nat);
        assert(a * pow10(m) == 10 * b) by (nonlinear_arith)
            requires
                b == a * pow10((m - 1) as nat),
                pow10(m) == 10 * pow10((m - 1) as nat),
        ;
        if (10 * b) % (10 * p) == 0 {
            let q = (10 * b) / (10 * p);
            vstd::arithmetic::div_mod::lemma_fundamental_div_mod((10 * b) as int, (10 * p) as int);
            assert(b == p * q) by (nonlinear_arith)
                requires
                    10 * b == (10 * p) * q,
            ;
            vstd::arithmetic::div_mod::lemma_mod_multiples_basic(q as int, p as int);
            assert(p * q == q * p) by (nonlinear_arith);
            assert(false);
        }
    }
}

/// The value of the digits times the unit, divided by as many tens as there are digits,
/// if that leaves no rest.
fn fraction_bytes(digits: &Vec<char>, unit: u64) -> (r: Option<u64>)
    requires
        text::all_digits(digits@),
        unit > 0,
    ensures
        ({
            let part = text::digits_value(digits@) * unit as nat;
            let parts = pow10(digits@.len());
            match r {
                Some(n) => part == n * parts && n < unit,
                None => part % parts != 0,
            }
        }),
{
    let mut carry: u64 = 0;
    let mut i: usize = digits.len();
    assert(digits@.take(i as int) =~= digits@);
    proof {
        assert(pow10(0) == 1);
        assert((text::digits_value(digits@) * unit + 0) * 1 == text::digits_value(digits@) * unit)
            by (nonlinear_arith);
    }
    while i > 0
        invariant
            i <= digits@.len(),
            text::all_digits(digits@),
            unit > 0,
            carry < unit,
            text::digits_value(digits@) * unit == (text::digits_value(digits@.take(i as int)) * unit
                + carry) * pow10((digits@.len() - i) as nat),
        decreases i,
    {
        let ghost m = (digits@.len() - i) as nat;
        let ghost before = text::digits_value(digits@.take(i - 1));
        let ghost value = text::digits_value(digits@.take(i as int));
        let c: char = digits[i - 1];
        assert(text::is_digit(digits@[i - 1]));
        let d: u64 = (c as u32 - '0' as u32) as u64;
        assert(digits@.take(i as int).drop_last() =~= digits@.take(i - 1));
        assert(digits@.take(i as int).last() == c);
        assert(value == before * 10 + d);
        assert(d * unit <= 9 * unit) by (nonlinear_arith)
            requires
                d <= 9,
        ;
        assert(9 * unit + carry <= 10 * unit);
        let t: u128 = d as u128 * unit as u128 + carry as u128;
        assert(value * unit + carry == 10 * (before * unit) + t) by (nonlinear_arith)
            requires
                value == before * 10 + d,
                t == d * unit + carry,
        ;
        if t % 10 != 0 {
            proof {
                let a = (value * unit + carry) as nat;
                assert(a % 10 != 0);
                no_multiple(a, m, digits@.len());
            }
            return None;
        }
        let next: u64 = (t / 10) as u64;
        proof {
            assert(t == 10 * next);
            assert(pow10((m + 1) as nat) == 10 * pow10(m));
            assert((10 * (before * unit) + 10 * next) * pow10(m) == (before * unit + next) * (10
                * pow10(m))) by (nonlinear_arith);
        }
        carry = next;
        i = i - 1;
    }
    assert(digits@.take(0) =~= Seq::<char>::empty());
    proof {
        assert((0 * unit + carry) * pow10(digits@.len()) == carry * pow10(digits@.len()))
            by (nonlinear_arith);
    }
    Some(carry)
}

fn digits_only(s: &str) -> (r: bool)
    ensures
        r == text::all_digits(s@),
{
    let v = text::chars_of(s);
    let mut i: usize = 0;
    while i < v.len()
        invariant
            v@ == s@,
            i <= v@.len(),
            forall|k: int| 0 <= k < i ==> text::is_digit(#[trigger] v@[k]),
        decreases v.len() - i,
    {
        if !text::digit(v[i]) {
            return false;
        }
        i = i + 1;
    }
    true
}

fn digits_number(s: &str) -> (r: Option<u64>)
    requires
        text::all_digits(s@),
    ensures
        match r {
            Some(n) => n == text::digits_value(s@),
            None => text::digits_value(s@) > u64::MAX,
        },
{
    if s.is_empty() {
        assert(s@ =~= Seq::<char>::empty());
        return Some(0);
    }
    assert(text::is_digit(s@[0]));
    text::parse_u64(s)
}

fn bytes_of(unit: &str) -> (r: Option<u64>)
    ensures
        match r {
            Some(u) => u > 0 && unit_bytes(unit@) == Some(u as nat),
            None => unit_bytes(unit@) is None,
        },
{
    if text::same(unit, "") || text::same(unit, "b") {
        Some(1)
    } else if text::same(unit, "kib") {
        Some(0x400)
    } else if text::same(unit, "mib") {
        Some(0x10_0000)
    } else if text::same(unit, "gib") {
        Some(0x4000_0000)
    } else if text::same(unit, "tib") {
        Some(0x100_0000_0000)
    } else {
        None
    }
}

/// A number of units in bytes.
pub fn amount_in(number: &str, unit: u64) -> (r: Option<u64>)
    requires
        unit > 0,
    ensures
        match r {
            Some(n) => amount(number@, unit as nat) == Some(n as nat),
            None => amount(number@, unit as nat) is None,
        },
{
    let (whole, fraction) = match text::split_once(number, ".") {
        Some((a, b)) => (a, b),
        None => {
            let none = String::new();
            assert(none@ =~= Seq::<char>::empty());
            (number.to_owned(), none)
        },
    };
    assert(halves(number@) == (whole@, fraction@));
    if !digits_only(whole.as_str()) || !digits_only(fraction.as_str()) {
        return None;
    }
    if whole.as_str().is_empty() && fraction.as_str().is_empty() {
        return None;
    }
    let digits = text::chars_of(fraction.as_str());
    let ghost parts = pow10(fraction@.len());
    proof {
        pow10_positive(fraction@.len());
    }
    let part: u64 = match fraction_bytes(&digits, unit) {
        Some(n) => n,
        None => return None,
    };
    proof {
        vstd::arithmetic::div_mod::lemma_div_multiples_vanish(part as int, parts as int);
        vstd::arithmetic::div_mod::lemma_mod_multiples_basic(part as int, parts as int);
        assert(part * parts == parts * part) by (nonlinear_arith);
    }
    let w: u64 = match digits_number(whole.as_str()) {
        Some(n) => n,
        None => {
            assert(text::digits_value(whole@) * unit >= text::digits_value(whole@))
                by (nonlinear_arith)
                requires
                    unit > 0,
            ;
            return None;
        },
    };
    match w.checked_mul(unit) {
        Some(total) => total.checked_add(part),
        None => None,
    }
}

fn end_of_number(v: &Vec<char>) -> (r: usize)
    ensures
        r == number_end(v@, 0),
        r <= v@.len(),
{
    let mut i: usize = 0;
    while i < v.len() && (text::digit(v[i]) || v[i] == '.')
        invariant
            i <= v@.len(),
            number_end(v@, 0) == number_end(v@, i as int),
        decreases v.len() - i,
    {
        i = i + 1;
    }
    i
}

/// Reads a number that the user typed: a whole number, or an amount of bytes with an
/// optional unit.
pub fn parse_capacity(value: &str, capacity: bool) -> (r: Result<u64, ()>)
    ensures
        match r {
            Ok(n) => typed_number(value@, capacity) == Some(n as nat),
            Err(_) => typed_number(value@, capacity) is None,
        },
{
    if !capacity {
        return match text::parse_u64(value) {
            Some(n) => Ok(n),
            None => Err(()),
        };
    }
    let t = text::trim(value);
    let v = text::chars_of(t.as_str());
    let end: usize = end_of_number(&v);
    let number = text::string_of(&v, 0, end);
    let rest = text::string_of(&v, end, v.len());
    assert(number@ =~= t@.take(end as int));
    assert(rest@ =~= t@.skip(end as int));
    let lowered = text::fold(text::trim(rest.as_str()).as_str());
    parse_parts(number.as_str(), lowered.as_str())
}

/// The amount of bytes of a number with a unit, which is in lower case.
pub fn parse_parts(number: &str, unit: &str) -> (r: Result<u64, ()>)
    ensures
        match r {
            Ok(n) => unit_bytes(unit@) is Some && amount(number@, unit_bytes(unit@)->0) == Some(
                n as nat,
            ),
            Err(_) => unit_bytes(unit@) is Some ==> amount(number@, unit_bytes(unit@)->0) is None,
        },
{
    match bytes_of(unit) {
        None => Err(()),
        Some(u) => match amount_in(number, u) {
            Some(n) => Ok(n),
            None => Err(()),
        },
    }
}

proof fn decimal_is_digits(n: nat)
    ensures
        text::all_digits(text::decimal(n)),
        text::decimal(n).len() > 0,
    decreases n,
{
    if n >= 10 {
        decimal_is_digits(n / 10);
    }
}

proof fn no_point(s: Seq<char>, i: int)
    requires
        text::all_digits(s),
        0 <= i,
    ensures
        text::find_from(s, "."@, i) is None,
    decreases s.len() + 1 - i,
{
    reveal_strlit(".");
    if i <= s.len() {
        no_point(s, i + 1);
        if text::occurs_at(s, "."@, i) {
            assert(s.subrange(i, i + 1)[0] == s[i]);
            assert("."@[0] == '.');
        }
    }
}

/// A whole number of units is that many times the unit, as long as it fits.
pub proof fn law_whole_amounts(n: u64, unit: nat)
    requires
        n * unit <= u64::MAX,
    ensures
        amount(text::decimal(n as nat), unit) == Some(n as nat * unit),
{
    decimal_is_digits(n as nat);
    no_point(text::decimal(n as nat), 0);
    text::law_decimal_value(n as nat);
    let none = Seq::<char>::empty();
    assert(halves(text::decimal(n as nat)) == (text::decimal(n as nat), none));
    assert(text::digits_value(none) * unit == 0) by (nonlinear_arith)
        requires
            text::digits_value(none) == 0,
    ;
    assert(pow10(0) == 1);
    assert(n * unit == n as nat * unit);
}

/// A longer way to write an amount is the same amount: zeros at the end of a fraction
/// do not matter.
pub proof fn law_zeros_at_the_end(whole: Seq<char>, fraction: Seq<char>, unit: nat)
    requires
        text::all_digits(whole),
        text::all_digits(fraction),
        fraction.len() > 0,
    ensures
        amount(whole + seq!['.'] + fraction + seq!['0'], unit) == amount(
            whole + seq!['.'] + fraction,
            unit,
        ),
{
    point_parts(whole, fraction);
    let longer = fraction.push('0');
    assert(text::all_digits(longer));
    point_parts(whole, longer);
    assert(whole + seq!['.'] + fraction + seq!['0'] =~= whole + seq!['.'] + longer);
    assert(longer.drop_last() =~= fraction);
    let v = text::digits_value(fraction);
    let p = pow10(fraction.len());
    pow10_positive(fraction.len());
    assert(text::digits_value(longer) == v * 10);
    assert(pow10(longer.len()) == 10 * p);
    assert((v * 10) * unit == 10 * (v * unit)) by (nonlinear_arith);
    vstd::arithmetic::div_mod::lemma_fundamental_div_mod((v * unit) as int, p as int);
    let q = (v * unit) / p;
    let m = (v * unit) % p;
    vstd::arithmetic::div_mod::lemma_mod_bound((v * unit) as int, p as int);
    assert(10 * (v * unit) == (10 * p) * q + 10 * m) by (nonlinear_arith)
        requires
            v * unit == p * q + m,
    ;
    vstd::arithmetic::div_mod::lemma_fundamental_div_mod_converse(
        (10 * (v * unit)) as int,
        (10 * p) as int,
        q as int,
        (10 * m) as int,
    );
}

/// A number with one point is cut there.
proof fn point_parts(whole: Seq<char>, fraction: Seq<char>)
    requires
        text::all_digits(whole),
    ensures
        halves(whole + seq!['.'] + fraction) == (whole, fraction),
{
    let s = whole + seq!['.'] + fraction;
    reveal_strlit(".");
    point_found(s, whole.len() as int, 0);
    assert(s.subrange(0, whole.len() as int) =~= whole);
    assert(s.subrange(whole.len() as int + 1, s.len() as int) =~= fraction);
}

proof fn point_found(s: Seq<char>, at: int, i: int)
    requires
        0 <= i <= at < s.len(),
        s[at] == '.',
        forall|k: int| 0 <= k < at ==> text::is_digit(#[trigger] s[k]),
    ensures
        text::find_from(s, "."@, i) == Some(at),
    decreases at - i,
{
    reveal_strlit(".");
    if i < at {
        point_found(s, at, i + 1);
        if text::occurs_at(s, "."@, i) {
            assert(s.subrange(i, i + 1)[0] == s[i]);
            assert("."@[0] == '.');
        }
    } else {
        assert(s.subrange(i, i + 1) =~= "."@);
    }
}

/// The units are bytes and the powers of 1024; no other word is one.
pub proof fn law_units_are_powers_of_1024()
    ensures
        unit_bytes(""@) == Some(1nat),
        unit_bytes("b"@) == Some(1nat),
        unit_bytes("kib"@) == Some(1024nat),
        unit_bytes("mib"@) == Some(1024nat * 1024),
        unit_bytes("gib"@) == Some(1024nat * 1024 * 1024),
        unit_bytes("tib"@) == Some(1024nat * 1024 * 1024 * 1024),
        unit_bytes("kb"@) is None,
        unit_bytes("pib"@) is None,
{
    reveal_strlit("");
    reveal_strlit("b");
    reveal_strlit("kib");
    reveal_strlit("mib");
    reveal_strlit("gib");
    reveal_strlit("tib");
    reveal_strlit("kb");
    reveal_strlit("pib");
    assert(""@.len() == 0 && "b"@.len() == 1 && "kb"@.len() == 2);
    assert("kib"@[0] == 'k' && "mib"@[0] == 'm' && "gib"@[0] == 'g' && "tib"@[0] == 't' && "pib"@[0]
        == 'p');
    assert("kib"@.len() == 3 && "mib"@.len() == 3 && "gib"@.len() == 3 && "tib"@.len() == 3
        && "pib"@.len() == 3);
}

/// An amount is exact: with as many tens as the fraction has digits it is all digits, with
/// the point left out, times the unit. It is refused where that leaves a rest, is too much,
/// or where there is anything but digits.
pub proof fn law_amounts_are_exact(whole: Seq<char>, fraction: Seq<char>, unit: nat)
    requires
        text::all_digits(whole),
        text::all_digits(fraction),
    ensures
        ({
            let number = whole + seq!['.'] + fraction;
            let parts = pow10(fraction.len());
            let all = (text::digits_value(whole) * parts + text::digits_value(fraction)) * unit;
            &&& amount(number, unit) matches Some(n) ==> n * parts == all && n <= u64::MAX
            &&& whole.len() + fraction.len() == 0 ==> amount(number, unit) is None
            &&& amount(number, unit) is None && whole.len() + fraction.len() > 0 ==> (
            text::digits_value(fraction) * unit) % parts != 0 || all > u64::MAX * parts
        }),
{
    point_parts(whole, fraction);
    pow10_positive(fraction.len());
    let w = text::digits_value(whole) as int;
    let f = text::digits_value(fraction) as int;
    let u = unit as int;
    let p = pow10(fraction.len()) as int;
    let part = f * u;
    assert((w * p + f) * u == w * u * p + part) by (nonlinear_arith)
        requires
            part == f * u,
    ;
    if part % p == 0 {
        let q = part / p;
        assert(q * p == part) by {
            vstd::arithmetic::div_mod::lemma_fundamental_div_mod(part, p);
            vstd::arithmetic::mul::lemma_mul_is_commutative(p, q);
        }
        assert((w * u + q) * p == w * u * p + q * p) by (nonlinear_arith);
        if w * u + q > u64::MAX {
            let t = w * u + q;
            assert(t * p > u64::MAX * p) by (nonlinear_arith)
                requires
                    t > u64::MAX,
                    p >= 1,
            ;
        }
    }
}

/// The number at the front of a text is as long as there are digits and points.
pub proof fn law_where_a_number_ends(s: Seq<char>, i: int)
    requires
        0 <= i <= s.len(),
    ensures
        i <= number_end(s, i) <= s.len(),
        forall|k: int|
            i <= k < number_end(s, i) ==> text::is_digit(#[trigger] s[k]) || s[k] == '.',
        number_end(s, i) < s.len() ==> !text::is_digit(s[number_end(s, i)]) && s[number_end(s, i)]
            != '.',
    decreases s.len() - i,
{
    if i < s.len() && (text::is_digit(s[i]) || s[i] == '.') {
        law_where_a_number_ends(s, i + 1);
    }
}

/// A count is a whole number without a unit, an amount may have one behind it; both numbers
/// that the program itself writes are read back.
pub proof fn law_numbers_are_read_back(n: u64)
    ensures
        typed_number(text::decimal(n as nat), false) == Some(n as nat),
{
    text::law_parse_decimal(n);
}

} // verus!
