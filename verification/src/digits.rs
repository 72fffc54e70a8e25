//! Decimal digits: the spec-level meaning of digit characters and digit
//! strings, and small executable helpers to read and render them.

use vstd::prelude::*;
use vstd::arithmetic::div_mod::lemma_fundamental_div_mod_converse;
use vstd::string::StringExecFns;

verus! {

/// `c` is one of the characters `'0'` through `'9'`.
pub open spec fn is_digit(c: char) -> bool {
    48 <= c as int && c as int <= 57
}

/// Numeric value of a digit character.
pub open spec fn digit_val(c: char) -> int {
    c as int - 48
}

/// The character that renders a value below ten.
pub open spec fn digit_char(d: int) -> char {
    if d == 0 {
        '0'
    } else if d == 1 {
        '1'
    } else if d == 2 {
        '2'
    } else if d == 3 {
        '3'
    } else if d == 4 {
        '4'
    } else if d == 5 {
        '5'
    } else if d == 6 {
        '6'
    } else if d == 7 {
        '7'
    } else if d == 8 {
        '8'
    } else {
        '9'
    }
}

pub proof fn lemma_digit_char_val(d: int)
    requires
        0 <= d < 10,
    ensures
        is_digit(digit_char(d)),
        digit_val(digit_char(d)) == d,
{
}

/// Reading a digit character and rendering the value back yields the same
/// character.
pub proof fn lemma_digit_round_trip(c: char)
    requires
        is_digit(c),
    ensures
        digit_char(digit_val(c)) == c,
{
    assert(digit_char(digit_val(c)) as int == c as int);
}

/// Every character of `s` is a decimal digit.
pub open spec fn all_digits(s: Seq<char>) -> bool {
    forall|i: int| 0 <= i < s.len() ==> is_digit(#[trigger] s[i])
}

/// Ten to the power `n` (one for non-positive `n`).
pub open spec fn pow10(n: int) -> int
    decreases n,
{
    if n <= 0 {
        1
    } else {
        10 * pow10(n - 1)
    }
}

/// Value of a digit string, most significant digit first.
pub open spec fn digits_val(s: Seq<char>) -> int
    decreases s.len(),
{
    if s.len() == 0 {
        0
    } else {
        digits_val(s.drop_last()) * 10 + digit_val(s.last())
    }
}

/// Fixed-width decimal rendering of `n`, low digit last, truncating high
/// digits that do not fit in `w` places.
pub open spec fn padded_dec(n: int, w: int) -> Seq<char>
    decreases w,
{
    if w <= 0 {
        Seq::empty()
    } else {
        padded_dec(n / 10, w - 1).push(digit_char(n % 10))
    }
}

/// A two-digit rendering recovers the two digit characters it was read from.
pub proof fn lemma_padded_dec2(a: char, b: char)
    requires
        is_digit(a),
        is_digit(b),
    ensures
        padded_dec(digit_val(a) * 10 + digit_val(b), 2) =~= seq![a, b],
{
    let n = digit_val(a) * 10 + digit_val(b);
    lemma_fundamental_div_mod_converse(n, 10, digit_val(a), digit_val(b));
    lemma_digit_round_trip(a);
    lemma_digit_round_trip(b);
    let q = digit_val(a);
    assert(q / 10 == 0 && q % 10 == q) by {
        lemma_fundamental_div_mod_converse(q, 10, 0, q);
    }
    assert(padded_dec(q / 10, 0) =~= Seq::<char>::empty());
    assert(padded_dec(q, 1) =~= seq![a]);
    assert(padded_dec(n, 2) =~= padded_dec(q, 1).push(b));
}

/// A four-digit rendering recovers the four digit characters it was read
/// from.
pub proof fn lemma_padded_dec4(a: char, b: char, c: char, d: char)
    requires
        is_digit(a),
        is_digit(b),
        is_digit(c),
        is_digit(d),
    ensures
        padded_dec(
            digit_val(a) * 1000 + digit_val(b) * 100 + digit_val(c) * 10 + digit_val(d),
            4,
        ) =~= seq![a, b, c, d],
{
    let n = digit_val(a) * 1000 + digit_val(b) * 100 + digit_val(c) * 10 + digit_val(d);
    let q1 = digit_val(a) * 100 + digit_val(b) * 10 + digit_val(c);
    let q2 = digit_val(a) * 10 + digit_val(b);
    lemma_fundamental_div_mod_converse(n, 10, q1, digit_val(d));
    lemma_fundamental_div_mod_converse(q1, 10, q2, digit_val(c));
    lemma_padded_dec2(a, b);
    lemma_digit_round_trip(c);
    lemma_digit_round_trip(d);
    assert(padded_dec(q1, 3) =~= padded_dec(q2, 2).push(c));
    assert(padded_dec(n, 4) =~= padded_dec(q1, 3).push(d));
}

/// A two-place rendering spelt out: the two digit characters of a value
/// below one hundred, which recompose to that value.
pub proof fn lemma_padded_dec2_chars(n: int)
    requires
        0 <= n < 100,
    ensures
        padded_dec(n, 2) =~= seq![digit_char(n / 10), digit_char(n % 10)],
        is_digit(digit_char(n / 10)),
        is_digit(digit_char(n % 10)),
        digit_val(digit_char(n / 10)) * 10 + digit_val(digit_char(n % 10)) == n,
{
    lemma_digit_char_val(n / 10);
    lemma_digit_char_val(n % 10);
    let q = n / 10;
    assert(q / 10 == 0 && q % 10 == q) by {
        lemma_fundamental_div_mod_converse(q, 10, 0, q);
    }
    assert(padded_dec(q / 10, 0) =~= Seq::<char>::empty());
    assert(padded_dec(q, 1) =~= seq![digit_char(q)]);
    assert(padded_dec(n, 2) =~= padded_dec(q, 1).push(digit_char(n % 10)));
}

/// A four-place rendering spelt out: the four digit characters of a
/// value below ten thousand, which recompose to that value.
pub proof fn lemma_padded_dec4_chars(n: int)
    requires
        0 <= n < 10000,
    ensures
        padded_dec(n, 4) =~= seq![
            digit_char(n / 1000),
            digit_char((n / 100) % 10),
            digit_char((n / 10) % 10),
            digit_char(n % 10),
        ],
        is_digit(digit_char(n / 1000)),
        is_digit(digit_char((n / 100) % 10)),
        is_digit(digit_char((n / 10) % 10)),
        is_digit(digit_char(n % 10)),
        digit_val(digit_char(n / 1000)) * 1000 + digit_val(digit_char((n / 100) % 10)) * 100
            + digit_val(digit_char((n / 10) % 10)) * 10 + digit_val(digit_char(n % 10)) == n,
{
    lemma_digit_char_val(n / 1000);
    lemma_digit_char_val((n / 100) % 10);
    lemma_digit_char_val((n / 10) % 10);
    lemma_digit_char_val(n % 10);
    assert((n / 10) / 10 == n / 100) by {
        lemma_fundamental_div_mod_converse(n / 10, 10, n / 100, n / 10 - (n / 100) * 10);
    }
    assert((n / 100) / 10 == n / 1000) by {
        lemma_fundamental_div_mod_converse(n / 100, 10, n / 1000, n / 100 - (n / 1000) * 10);
    }
    lemma_padded_dec2_chars(n / 100);
    assert(padded_dec(n / 10, 3) =~= padded_dec(n / 100, 2).push(digit_char((n / 10) % 10)));
    assert(padded_dec(n, 4) =~= padded_dec(n / 10, 3).push(digit_char(n % 10)));
}

/// Shortest decimal rendering of a non-negative value.
pub open spec fn dec_str(n: int) -> Seq<char>
    decreases n,
{
    if n < 10 {
        seq![digit_char(n)]
    } else {
        dec_str(n / 10).push(digit_char(n % 10))
    }
}

/// The digit character rendering a value below ten, as a string slice.
pub fn digit_str(d: u8) -> (r: &'static str)
    requires
        d < 10,
    ensures
        r@ =~= seq![digit_char(d as int)],
{
    proof {
        reveal_strlit("0");
        reveal_strlit("1");
        reveal_strlit("2");
        reveal_strlit("3");
        reveal_strlit("4");
        reveal_strlit("5");
        reveal_strlit("6");
        reveal_strlit("7");
        reveal_strlit("8");
        reveal_strlit("9");
    }
    match d {
        0 => "0",
        1 => "1",
        2 => "2",
        3 => "3",
        4 => "4",
        5 => "5",
        6 => "6",
        7 => "7",
        8 => "8",
        _ => "9",
    }
}

/// Append the fixed-width decimal rendering of `n` to `out`.
pub fn push_padded_dec(out: &mut String, n: u64, w: u8)
    ensures
        final(out)@ == old(out)@ + padded_dec(n as int, w as int),
    decreases w,
{
    if w == 0 {
        assert(old(out)@ + padded_dec(n as int, 0) =~= old(out)@);
    } else {
        push_padded_dec(out, n / 10, w - 1);
        out.append(digit_str((n % 10) as u8));
        assert(out@ =~= old(out)@ + padded_dec(n as int, w as int));
    }
}

/// Append the shortest decimal rendering of `n` to `out`.
pub fn push_dec(out: &mut String, n: u64)
    ensures
        final(out)@ == old(out)@ + dec_str(n as int),
    decreases n,
{
    if n < 10 {
        out.append(digit_str(n as u8));
        assert(out@ =~= old(out)@ + dec_str(n as int));
    } else {
        push_dec(out, n / 10);
        out.append(digit_str((n % 10) as u8));
        assert(out@ =~= old(out)@ + dec_str(n as int));
    }
}

} // verus!
