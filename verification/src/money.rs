//! Money parsing: a compact currency-prefixed string such as `EUR194.56`
//! becomes a three-letter currency code and a fixed-decimal amount.
//!
//! The accepted shape is exactly three letters, an optional minus sign,
//! one or more digits, and optionally a dot followed by one or more
//! digits, with nothing else before or after.

use crate::digits::{
    all_digits, dec_str, digits_val, is_digit, padded_dec, pow10, push_dec, push_padded_dec,
};
use crate::{Error, ErrorView};
use vstd::prelude::*;
use vstd::string::{StrSliceExecFns, StringExecFns};

verus! {

/// A fixed-decimal amount: the represented value is `scaled / 10^scale`;
/// `scale` is the number of digits that stood after the decimal dot (zero
/// when there was none), kept as received.
#[derive(Clone, Copy, Debug, PartialEq, Eq, Structural)]
pub struct Amount {
    pub scaled: i64,
    pub scale: u32,
}

impl Amount {
    /// The amount can be rendered and stored: the scale stays within
    /// the eighteen digit positions parsing allows, and the magnitude
    /// can be negated.
    pub open spec fn wf(self) -> bool {
        self.scale <= 18 && self.scaled > i64::MIN
    }
}

/// The canonical decimal rendering of an amount: an optional minus
/// sign, the integer digits, and, for a positive scale, a dot followed
/// by exactly `scale` fractional digits.
pub open spec fn amount_dec_str(a: Amount) -> Seq<char> {
    let m = if a.scaled < 0 {
        -(a.scaled as int)
    } else {
        a.scaled as int
    };
    let sign: Seq<char> = if a.scaled < 0 {
        seq!['-']
    } else {
        Seq::empty()
    };
    if a.scale == 0 {
        sign + dec_str(m)
    } else {
        sign + dec_str(m / pow10(a.scale as int)) + seq!['.'] + padded_dec(
            m % pow10(a.scale as int),
            a.scale as int,
        )
    }
}

/// Ten to the power `w`, executable.
fn pow10_u64(w: u32) -> (r: u64)
    requires
        w <= 18,
    ensures
        r == pow10(w as int),
        1 <= r <= 1_000_000_000_000_000_000,
    decreases w,
{
    proof {
        reveal_with_fuel(pow10, 20);
    }
    if w == 0 {
        1
    } else {
        let rest = pow10_u64(w - 1);
        proof {
            lemma_pow10_mono(w as int - 1, 17);
        }
        10 * rest
    }
}

/// Render an amount as a decimal string such as `194.56` or `-12.00`.
pub fn amount_to_string(a: &Amount) -> (r: String)
    requires
        a.wf(),
    ensures
        r@ == amount_dec_str(*a),
{
    proof {
        reveal_strlit("-");
        reveal_strlit(".");
    }
    let neg = a.scaled < 0;
    let m: u64 = if neg {
        (-a.scaled) as u64
    } else {
        a.scaled as u64
    };
    let mut out = String::new();
    if neg {
        out.append("-");
    }
    if a.scale == 0 {
        push_dec(&mut out, m);
    } else {
        let p = pow10_u64(a.scale);
        push_dec(&mut out, m / p);
        out.append(".");
        push_padded_dec(&mut out, m % p, a.scale as u8);
    }
    assert(out@ =~= amount_dec_str(*a));
    out
}

/// An amount together with its three-letter currency code.
#[derive(Debug)]
pub struct Money {
    pub amount: Amount,
    pub currency: String,
}

/// An ASCII letter, as allowed in a currency code.
pub open spec fn is_currency_char(c: char) -> bool {
    (65 <= c as int && c as int <= 90) || (97 <= c as int && c as int <= 122)
}

/// Length of the maximal digit prefix of `s`.
pub open spec fn digit_prefix_len(s: Seq<char>) -> int
    decreases s.len(),
{
    if s.len() == 0 || !is_digit(s[0]) {
        0
    } else {
        1 + digit_prefix_len(s.subrange(1, s.len() as int))
    }
}

/// The numeric body: digits, optionally one dot followed by more digits.
pub open spec fn num_shape(s: Seq<char>) -> bool {
    let k = digit_prefix_len(s);
    &&& k >= 1
    &&& (k == s.len() || (s[k] == '.' && s.len() >= k + 2 && all_digits(
        s.subrange(k + 1, s.len() as int),
    )))
}

/// Number of digits after the dot (zero when there is none).
pub open spec fn num_scale(s: Seq<char>) -> int {
    let k = digit_prefix_len(s);
    if k == s.len() {
        0
    } else {
        s.len() - k - 1
    }
}

/// All digits of the body with the dot struck out: the value of this
/// digit string is the amount scaled by `10^num_scale`.
pub open spec fn num_digits_seq(s: Seq<char>) -> Seq<char> {
    let k = digit_prefix_len(s);
    if k == s.len() {
        s
    } else {
        s.subrange(0, k) + s.subrange(k + 1, s.len() as int)
    }
}

/// The whole input has the accepted money shape.
pub open spec fn money_shape(s: Seq<char>) -> bool {
    &&& s.len() >= 4
    &&& is_currency_char(s[0])
    &&& is_currency_char(s[1])
    &&& is_currency_char(s[2])
    &&& num_shape(money_body(s))
}

/// Whether the amount is negated by a leading minus sign.
pub open spec fn money_neg(s: Seq<char>) -> bool {
    s.len() > 3 && s[3] == '-'
}

/// The numeric part, after the currency code and the optional sign.
pub open spec fn money_body(s: Seq<char>) -> Seq<char> {
    if money_neg(s) {
        s.subrange(4, s.len() as int)
    } else {
        s.subrange(3, s.len() as int)
    }
}

/// The amount fits the fixed-decimal representation: at most 18
/// significant digit positions in all.
pub open spec fn money_fits(s: Seq<char>) -> bool {
    num_digits_seq(money_body(s)).len() <= 18
}

/// The signed, scaled amount encoded by a well-shaped input.
pub open spec fn money_scaled(s: Seq<char>) -> int {
    if money_neg(s) {
        -digits_val(num_digits_seq(money_body(s)))
    } else {
        digits_val(num_digits_seq(money_body(s)))
    }
}

/// The scale (digits after the dot) of a well-shaped input.
pub open spec fn money_scale(s: Seq<char>) -> int {
    num_scale(money_body(s))
}

/// The three-letter currency code of a well-shaped input.
pub open spec fn money_currency(s: Seq<char>) -> Seq<char> {
    s.subrange(0, 3)
}

/// Parsing succeeds on `s`: the shape is met and the digits fit.
pub open spec fn money_ok(s: Seq<char>) -> bool {
    money_shape(s) && money_fits(s)
}

/// The amount a well-shaped input parses to.
pub open spec fn money_amount(s: Seq<char>) -> Amount {
    Amount { scaled: money_scaled(s) as i64, scale: money_scale(s) as u32 }
}

/// A maximal digit run of length `k` pins `digit_prefix_len` to `k`.
proof fn lemma_digit_prefix_len_from_chars(s: Seq<char>, k: int)
    requires
        0 <= k <= s.len(),
        forall|i: int| 0 <= i < k ==> is_digit(#[trigger] s[i]),
        k == s.len() || !is_digit(s[k]),
    ensures
        digit_prefix_len(s) == k,
    decreases k,
{
    if k == 0 {
    } else {
        let t = s.subrange(1, s.len() as int);
        assert(forall|i: int| 0 <= i < k - 1 ==> is_digit(#[trigger] t[i]));
        assert(k - 1 == t.len() || !is_digit(t[k - 1]));
        lemma_digit_prefix_len_from_chars(t, k - 1);
    }
}

/// `digit_prefix_len` lies between zero and the length.
proof fn lemma_digit_prefix_len_bounds(s: Seq<char>)
    ensures
        0 <= digit_prefix_len(s) <= s.len(),
    decreases s.len(),
{
    if s.len() > 0 && is_digit(s[0]) {
        lemma_digit_prefix_len_bounds(s.subrange(1, s.len() as int));
    }
}

/// At least `k` leading digits push `digit_prefix_len` to at least `k`.
proof fn lemma_digit_prefix_len_at_least(s: Seq<char>, k: int)
    requires
        0 <= k <= s.len(),
        forall|i: int| 0 <= i < k ==> is_digit(#[trigger] s[i]),
    ensures
        digit_prefix_len(s) >= k,
    decreases k,
{
    lemma_digit_prefix_len_bounds(s);
    if k > 0 {
        assert(is_digit(s[0]));
        let t = s.subrange(1, s.len() as int);
        assert(forall|i: int| 0 <= i < k - 1 ==> is_digit(#[trigger] t[i]));
        lemma_digit_prefix_len_at_least(t, k - 1);
    }
}

/// Ten to any power is positive.
proof fn lemma_pow10_pos(a: int)
    ensures
        pow10(a) >= 1,
    decreases a,
{
    if a > 0 {
        lemma_pow10_pos(a - 1);
    }
}

/// Ten to a smaller power is no larger.
proof fn lemma_pow10_mono(a: int, b: int)
    requires
        a <= b,
    ensures
        pow10(a) <= pow10(b),
    decreases b - a,
{
    if a < b {
        lemma_pow10_mono(a, b - 1);
        lemma_pow10_pos(b - 1);
    }
}

/// Parse a currency-prefixed decimal amount such as `EUR194.56` or
/// `USD-12.00`.
///
/// Succeeds exactly on inputs of the accepted shape whose digits fit the
/// fixed-decimal representation; everything else is reported as a money
/// parse error carrying the offending input.
pub fn parse(input: &str) -> (result: Result<Money, Error>)
    ensures
        match result {
            Ok(m) => {
                &&& money_shape(input@)
                &&& money_fits(input@)
                &&& m.amount.scaled == money_scaled(input@)
                &&& m.amount.scale == money_scale(input@)
                &&& m.currency@ == money_currency(input@)
            },
            Err(e) => {
                &&& !(money_shape(input@) && money_fits(input@))
                &&& e@ == ErrorView::ParsingMoney(input@)
            },
        },
{
    let n = input.unicode_len();
    if n < 4 {
        return Err(Error::ParsingMoney(input.to_owned()));
    }
    let c0 = input.get_char(0);
    let c1 = input.get_char(1);
    let c2 = input.get_char(2);
    if !(is_letter(c0) && is_letter(c1) && is_letter(c2)) {
        return Err(Error::ParsingMoney(input.to_owned()));
    }
    let c3 = input.get_char(3);
    let neg = c3 == '-';
    let start: usize = if neg {
        4
    } else {
        3
    };
    let ghost body = money_body(input@);
    assert(body =~= input@.subrange(start as int, n as int));

    // Integer digit run.
    let mut i: usize = start;
    let mut val: u64 = 0;
    let mut cnt: u64 = 0;
    proof {
        assert(input@.subrange(start as int, start as int) =~= Seq::<char>::empty());
    }
    loop
        invariant
            start <= i <= n,
            n == input@.len(),
            start == 3 || start == 4,
            body == money_body(input@),
            body =~= input@.subrange(start as int, n as int),
            cnt == i - start,
            cnt <= 18,
            forall|j: int| start <= j < i ==> is_digit(#[trigger] input@[j]),
            val == digits_val(input@.subrange(start as int, i as int)),
            val < pow10(cnt as int),
        ensures
            start <= i <= n,
            cnt == i - start,
            cnt <= 18,
            forall|j: int| start <= j < i ==> is_digit(#[trigger] input@[j]),
            val == digits_val(input@.subrange(start as int, i as int)),
            val < pow10(cnt as int),
            i == n || !is_digit(input@[i as int]),
        decreases n - i,
    {
        if i == n {
            break ;
        }
        let c = input.get_char(i);
        if !is_digit_char(c) {
            break ;
        }
        if cnt == 18 {
            proof {
                assert(forall|t: int| 0 <= t < 19 ==> is_digit(#[trigger] body[t]));
                lemma_digit_prefix_len_at_least(body, 19);
                let k = digit_prefix_len(body);
                if money_shape(input@) {
                    if k == body.len() {
                        assert(num_digits_seq(body).len() >= 19);
                    } else {
                        assert(body.len() >= k + 2);
                        assert(num_digits_seq(body).len() == body.len() - 1);
                    }
                    assert(!money_fits(input@));
                }
            }
            return Err(Error::ParsingMoney(input.to_owned()));
        }
        let d = (c as u32) - 48;
        proof {
            reveal_with_fuel(pow10, 20);
            let pre = input@.subrange(start as int, i as int);
            let post = input@.subrange(start as int, i + 1);
            assert(post.drop_last() =~= pre);
        }
        val = val * 10 + (d as u64);
        cnt = cnt + 1;
        i = i + 1;
    }
    let k = i - start;
    proof {
        lemma_digit_prefix_len_from_chars(body, k as int);
    }
    if k == 0 {
        return Err(Error::ParsingMoney(input.to_owned()));
    }
    if i == n {
        // No fractional part.
        proof {
            reveal_with_fuel(pow10, 20);
            lemma_pow10_mono(cnt as int, 18);
            assert(num_digits_seq(body) =~= body);
        }
        let scaled = signed_scaled(val, neg);
        let currency = currency_of(input);
        return Ok(Money { amount: Amount { scaled, scale: 0 }, currency });
    }
    let dot = input.get_char(i);
    if dot != '.' {
        return Err(Error::ParsingMoney(input.to_owned()));
    }
    if i + 1 == n {
        return Err(Error::ParsingMoney(input.to_owned()));
    }

    // Fractional digit run; every remaining character must be a digit.
    let frac_start = i + 1;
    let mut j: usize = frac_start;
    let ghost int_part = input@.subrange(start as int, i as int);
    proof {
        assert(input@.subrange(frac_start as int, frac_start as int) =~= Seq::<char>::empty());
        assert(int_part + input@.subrange(frac_start as int, frac_start as int) =~= int_part);
    }
    loop
        invariant
            frac_start <= j <= n,
            frac_start == start + k + 1,
            start + k == i < n,
            k == i - start,
            n == input@.len(),
            start == 3 || start == 4,
            body == money_body(input@),
            body =~= input@.subrange(start as int, n as int),
            int_part == input@.subrange(start as int, i as int),
            digit_prefix_len(body) == k,
            input@[i as int] == '.',
            forall|t: int| start <= t < i ==> is_digit(#[trigger] input@[t]),
            forall|t: int| frac_start <= t < j ==> is_digit(#[trigger] input@[t]),
            cnt == k + (j - frac_start),
            cnt <= 18,
            val == digits_val(int_part + input@.subrange(frac_start as int, j as int)),
            val < pow10(cnt as int),
        ensures
            j == n,
            forall|t: int| frac_start <= t < j ==> is_digit(#[trigger] input@[t]),
            cnt == k + (j - frac_start),
            cnt <= 18,
            val == digits_val(int_part + input@.subrange(frac_start as int, j as int)),
            val < pow10(cnt as int),
        decreases n - j,
    {
        if j == n {
            break ;
        }
        let c = input.get_char(j);
        if !is_digit_char(c) {
            // A non-digit after the dot: the shape is not met.
            proof {
                let fr = body.subrange(k as int + 1, body.len() as int);
                assert(fr[j - start - k - 1] == input@[j as int]);
                assert(!all_digits(fr));
            }
            return Err(Error::ParsingMoney(input.to_owned()));
        }
        if cnt == 18 {
            proof {
                assert(body.len() == n - start);
                assert(num_digits_seq(body).len() == body.len() - 1);
            }
            return Err(Error::ParsingMoney(input.to_owned()));
        }
        let d = (c as u32) - 48;
        proof {
            reveal_with_fuel(pow10, 20);
            let pre = int_part + input@.subrange(frac_start as int, j as int);
            let post = int_part + input@.subrange(frac_start as int, j + 1);
            assert(post.drop_last() =~= pre);
        }
        val = val * 10 + (d as u64);
        cnt = cnt + 1;
        j = j + 1;
    }
    proof {
        reveal_with_fuel(pow10, 20);
        lemma_pow10_mono(cnt as int, 18);
        assert(body.subrange(0, k as int) =~= int_part);
        assert(body.subrange(k as int + 1, body.len() as int) =~= input@.subrange(
            frac_start as int,
            n as int,
        ));
        assert(num_digits_seq(body) =~= int_part + input@.subrange(frac_start as int, n as int));
    }
    let scale = (n - frac_start) as u32;
    let scaled = signed_scaled(val, neg);
    let currency = currency_of(input);
    Ok(Money { amount: Amount { scaled, scale }, currency })
}

/// The three leading characters, as the currency code.
fn currency_of(input: &str) -> (r: String)
    requires
        input@.len() >= 3,
    ensures
        r@ == money_currency(input@),
{
    input.substring_char(0, 3).to_owned()
}

/// Sign application: the parsed magnitude with the optional minus sign.
fn signed_scaled(val: u64, neg: bool) -> (r: i64)
    requires
        val < 0x7fff_ffff_ffff_ffff,
    ensures
        r == if neg {
            -(val as int)
        } else {
            val as int
        },
{
    if neg {
        -(val as i64)
    } else {
        val as i64
    }
}

/// ASCII-letter test on a character.
fn is_letter(c: char) -> (r: bool)
    ensures
        r == is_currency_char(c),
{
    let v = c as u32;
    (65 <= v && v <= 90) || (97 <= v && v <= 122)
}

/// Decimal-digit test on a character.
fn is_digit_char(c: char) -> (r: bool)
    ensures
        r == is_digit(c),
{
    let v = c as u32;
    48 <= v && v <= 57
}

} // verus!
