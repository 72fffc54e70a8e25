//! Timestamp parsing and formatting.
//!
//! The accepted shape is `YYYY-MM-DDTHH:MM±HHMM` (minute precision, no
//! seconds), with the colon form `±HH:MM` of the offset tolerated on
//! input.  A parsed [`Instant`] keeps both the absolute instant (epoch
//! seconds) and the signed UTC offset under which it was written, so it
//! can be rendered back in its own local time.

use crate::digits::{
    digit_char, digit_val, is_digit, lemma_padded_dec2, lemma_padded_dec2_chars,
    lemma_padded_dec4, lemma_padded_dec4_chars, padded_dec, push_padded_dec,
};
use crate::{Error, ErrorView};
use vstd::arithmetic::div_mod::{
    lemma_div_is_ordered, lemma_fundamental_div_mod, lemma_fundamental_div_mod_converse,
    lemma_mod_bound, lemma_mod_mod,
};
use vstd::prelude::*;
use vstd::string::{StrSliceExecFns, StringExecFns};

verus! {

/// An absolute point in time together with the UTC offset (in seconds)
/// under which it was originally expressed.  The civil fields record the
/// local wall-clock reading; `epoch_seconds` is the same point on the
/// UTC epoch scale, as the well-formedness predicate [`Instant::wf`]
/// ties down.
#[derive(Clone, Copy, Debug, PartialEq, Eq, Structural)]
pub struct Instant {
    pub year: u16,
    pub month: u8,
    pub day: u8,
    pub hour: u8,
    pub minute: u8,
    pub offset_seconds: i32,
    pub epoch_seconds: i64,
}

/// Proleptic Gregorian leap year.
pub open spec fn is_leap(y: int) -> bool {
    y % 4 == 0 && (y % 100 != 0 || y % 400 == 0)
}

/// Days in month `m` of year `y`.
pub open spec fn days_in_month(y: int, m: int) -> int {
    if m == 2 {
        if is_leap(y) {
            29
        } else {
            28
        }
    } else if m == 4 || m == 6 || m == 9 || m == 11 {
        30
    } else {
        31
    }
}

/// Days in the months of year `y` that precede month `m`.
pub open spec fn days_before_month(y: int, m: int) -> int
    decreases m,
{
    if m <= 1 {
        0
    } else {
        days_before_month(y, m - 1) + days_in_month(y, m - 1)
    }
}

/// Days from year 0 (proleptic Gregorian) to the start of year `y`:
/// 365 per year plus one for each leap year before `y`.
pub open spec fn days_before_year(y: int) -> int {
    365 * y + (y + 3) / 4 - (y + 99) / 100 + (y + 399) / 400
}

/// Days from the Unix epoch to the civil date `y-m-d`.
pub open spec fn days_from_epoch(y: int, m: int, d: int) -> int {
    days_before_year(y) + days_before_month(y, m) + (d - 1) - 719528
}

/// Epoch seconds of the local reading `y-m-d h:mi` expressed under the
/// signed UTC offset `off` (seconds).
pub open spec fn epoch_of(y: int, m: int, d: int, h: int, mi: int, off: int) -> int {
    days_from_epoch(y, m, d) * 86400 + h * 3600 + mi * 60 - off
}

impl Instant {
    /// The fields are in range and the epoch view agrees with the civil
    /// fields and the recorded offset.
    pub open spec fn wf(self) -> bool {
        &&& self.year <= 9999
        &&& 1 <= self.month <= 12
        &&& 1 <= self.day <= days_in_month(self.year as int, self.month as int)
        &&& self.hour <= 23
        &&& self.minute <= 59
        &&& -359940 <= self.offset_seconds <= 359940
        &&& self.epoch_seconds == epoch_of(
            self.year as int,
            self.month as int,
            self.day as int,
            self.hour as int,
            self.minute as int,
            self.offset_seconds as int,
        )
    }
}

/// Value of the two digit characters at `p`.
pub open spec fn two_digit(s: Seq<char>, p: int) -> int {
    digit_val(s[p]) * 10 + digit_val(s[p + 1])
}

/// Value of the four digit characters at `p`.
pub open spec fn four_digit(s: Seq<char>, p: int) -> int {
    digit_val(s[p]) * 1000 + digit_val(s[p + 1]) * 100 + digit_val(s[p + 2]) * 10 + digit_val(
        s[p + 3],
    )
}

/// Index of the offset's minute pair: one further right when the offset
/// carries a colon.
pub open spec fn om_lo(s: Seq<char>) -> int {
    if s.len() == 21 {
        19
    } else {
        20
    }
}

pub open spec fn t_year(s: Seq<char>) -> int {
    four_digit(s, 0)
}

pub open spec fn t_month(s: Seq<char>) -> int {
    two_digit(s, 5)
}

pub open spec fn t_day(s: Seq<char>) -> int {
    two_digit(s, 8)
}

pub open spec fn t_hour(s: Seq<char>) -> int {
    two_digit(s, 11)
}

pub open spec fn t_minute(s: Seq<char>) -> int {
    two_digit(s, 14)
}

pub open spec fn t_off_hour(s: Seq<char>) -> int {
    two_digit(s, 17)
}

pub open spec fn t_off_minute(s: Seq<char>) -> int {
    two_digit(s, om_lo(s))
}

/// The field values make a real date, time of day and offset; a minus
/// sign on a zero offset is rejected.
pub open spec fn time_fields_valid(s: Seq<char>) -> bool {
    &&& 1 <= t_month(s) <= 12
    &&& 1 <= t_day(s) <= days_in_month(t_year(s), t_month(s))
    &&& t_hour(s) <= 23
    &&& t_minute(s) <= 59
    &&& t_off_minute(s) <= 59
    &&& !(s[16] == '-' && t_off_hour(s) == 0 && t_off_minute(s) == 0)
}

/// The full accepted timestamp shape.
pub open spec fn time_shape(s: Seq<char>) -> bool {
    &&& (s.len() == 21 || s.len() == 22)
    &&& is_digit(s[0]) && is_digit(s[1]) && is_digit(s[2]) && is_digit(s[3])
    &&& s[4] == '-'
    &&& is_digit(s[5]) && is_digit(s[6])
    &&& s[7] == '-'
    &&& is_digit(s[8]) && is_digit(s[9])
    &&& s[10] == 'T'
    &&& is_digit(s[11]) && is_digit(s[12])
    &&& s[13] == ':'
    &&& is_digit(s[14]) && is_digit(s[15])
    &&& (s[16] == '+' || s[16] == '-')
    &&& is_digit(s[17]) && is_digit(s[18])
    &&& (s.len() == 22 ==> s[19] == ':')
    &&& is_digit(s[om_lo(s)]) && is_digit(s[om_lo(s) + 1])
    &&& time_fields_valid(s)
}

/// The signed offset, in seconds, encoded by a well-shaped timestamp.
pub open spec fn offset_val(s: Seq<char>) -> int {
    if s[16] == '-' {
        -(t_off_hour(s) * 3600 + t_off_minute(s) * 60)
    } else {
        t_off_hour(s) * 3600 + t_off_minute(s) * 60
    }
}

/// The instant denoted by a well-shaped timestamp; `None` on anything
/// else.
pub open spec fn parse_time_spec(s: Seq<char>) -> Option<Instant> {
    if time_shape(s) {
        Some(
            Instant {
                year: t_year(s) as u16,
                month: t_month(s) as u8,
                day: t_day(s) as u8,
                hour: t_hour(s) as u8,
                minute: t_minute(s) as u8,
                offset_seconds: offset_val(s) as i32,
                epoch_seconds: epoch_of(
                    t_year(s),
                    t_month(s),
                    t_day(s),
                    t_hour(s),
                    t_minute(s),
                    offset_val(s),
                ) as i64,
            },
        )
    } else {
        None
    }
}

/// The canonical rendering `YYYY-MM-DDTHH:MM±HHMM` of an instant, in its
/// own recorded offset.
pub open spec fn format_time_spec(t: Instant) -> Seq<char> {
    let off_abs = if t.offset_seconds < 0 {
        -(t.offset_seconds as int)
    } else {
        t.offset_seconds as int
    };
    padded_dec(t.year as int, 4) + seq!['-'] + padded_dec(t.month as int, 2) + seq!['-']
        + padded_dec(t.day as int, 2) + seq!['T'] + padded_dec(t.hour as int, 2) + seq![':']
        + padded_dec(t.minute as int, 2) + seq![
        if t.offset_seconds < 0 {
            '-'
        } else {
            '+'
        },
    ] + padded_dec(off_abs / 3600, 2) + padded_dec((off_abs % 3600) / 60, 2)
}

/// Formatting a parsed timestamp gives back exactly the input, for every
/// input in the canonical (colon-free) shape.
pub proof fn lemma_time_round_trip(s: Seq<char>, t: Instant)
    requires
        parse_time_spec(s) == Some(t),
        s.len() == 21,
    ensures
        format_time_spec(t) == s,
{
    let oh = t_off_hour(s);
    let om = t_off_minute(s);
    let mag = oh * 3600 + om * 60;
    assert(0 <= oh <= 99 && 0 <= om <= 59);
    assert(t.year as int == t_year(s));
    assert(t.month as int == t_month(s));
    assert(t.day as int == t_day(s));
    assert(t.hour as int == t_hour(s));
    assert(t.minute as int == t_minute(s));
    assert(t.offset_seconds as int == offset_val(s));
    let off_abs = if t.offset_seconds < 0 {
        -(t.offset_seconds as int)
    } else {
        t.offset_seconds as int
    };
    assert(off_abs == mag);
    assert(t.offset_seconds < 0 <==> s[16] == '-') by {
        if s[16] == '-' {
            assert(mag > 0);
        }
    }
    assert(mag / 3600 == oh && mag % 3600 == om * 60) by {
        lemma_fundamental_div_mod_converse(mag, 3600, oh, om * 60);
    }
    assert((om * 60) / 60 == om) by {
        lemma_fundamental_div_mod_converse(om * 60, 60, om, 0);
    }
    lemma_padded_dec4(s[0], s[1], s[2], s[3]);
    lemma_padded_dec2(s[5], s[6]);
    lemma_padded_dec2(s[8], s[9]);
    lemma_padded_dec2(s[11], s[12]);
    lemma_padded_dec2(s[14], s[15]);
    lemma_padded_dec2(s[17], s[18]);
    lemma_padded_dec2(s[19], s[20]);
    assert(padded_dec(t.year as int, 4) =~= seq![s[0], s[1], s[2], s[3]]);
    assert(padded_dec(t.month as int, 2) =~= seq![s[5], s[6]]);
    assert(padded_dec(t.day as int, 2) =~= seq![s[8], s[9]]);
    assert(padded_dec(t.hour as int, 2) =~= seq![s[11], s[12]]);
    assert(padded_dec(t.minute as int, 2) =~= seq![s[14], s[15]]);
    assert(padded_dec(off_abs / 3600, 2) =~= seq![s[17], s[18]]);
    assert(padded_dec((off_abs % 3600) / 60, 2) =~= seq![s[19], s[20]]);
    assert(format_time_spec(t) =~= s);
}

/// The rendering of a well-formed instant parses back to exactly that
/// instant, whenever the recorded offset is of whole minutes (as every
/// parsed offset is).
pub proof fn lemma_format_parse_round_trip(t: Instant)
    requires
        t.wf(),
        t.offset_seconds as int % 60 == 0,
    ensures
        parse_time_spec(format_time_spec(t)) == Some(t),
{
    let s = format_time_spec(t);
    let off = t.offset_seconds as int;
    let off_abs = if off < 0 {
        -off
    } else {
        off
    };
    let oh = off_abs / 3600;
    let om = (off_abs % 3600) / 60;
    lemma_padded_dec4_chars(t.year as int);
    lemma_padded_dec2_chars(t.month as int);
    lemma_padded_dec2_chars(t.day as int);
    lemma_padded_dec2_chars(t.hour as int);
    lemma_padded_dec2_chars(t.minute as int);
    assert(0 <= oh <= 99) by {
        lemma_div_is_ordered(off_abs, 359940, 3600);
        lemma_fundamental_div_mod_converse(359940, 3600, 99, 3540);
        lemma_div_is_ordered(0, off_abs, 3600);
    }
    assert(0 <= om <= 59) by {
        lemma_mod_bound(off_abs, 3600);
        lemma_div_is_ordered(off_abs % 3600, 3599, 60);
        lemma_fundamental_div_mod_converse(3599, 60, 59, 59);
        lemma_div_is_ordered(0, off_abs % 3600, 60);
    }
    lemma_padded_dec2_chars(oh);
    lemma_padded_dec2_chars(om);
    let y = t.year as int;
    let expanded = seq![
        digit_char(y / 1000),
        digit_char((y / 100) % 10),
        digit_char((y / 10) % 10),
        digit_char(y % 10),
        '-',
        digit_char((t.month as int) / 10),
        digit_char((t.month as int) % 10),
        '-',
        digit_char((t.day as int) / 10),
        digit_char((t.day as int) % 10),
        'T',
        digit_char((t.hour as int) / 10),
        digit_char((t.hour as int) % 10),
        ':',
        digit_char((t.minute as int) / 10),
        digit_char((t.minute as int) % 10),
        if off < 0 {
            '-'
        } else {
            '+'
        },
        digit_char(oh / 10),
        digit_char(oh % 10),
        digit_char(om / 10),
        digit_char(om % 10),
    ];
    assert(s =~= expanded);
    assert(s.len() == 21);

    // The offset's minute part recomposes because the offset has whole
    // minutes: (off_abs % 3600) % 60 == 0.
    assert(off_abs % 60 == 0) by {
        lemma_fundamental_div_mod(off, 60);
        lemma_fundamental_div_mod_converse(-off, 60, -(off / 60), 0);
    }
    assert((off_abs % 3600) % 60 == 0) by {
        lemma_mod_mod(off_abs, 60, 60);
    }
    assert(om * 60 == off_abs % 3600) by {
        lemma_fundamental_div_mod(off_abs % 3600, 60);
    }
    assert(oh * 3600 + om * 60 == off_abs) by {
        lemma_fundamental_div_mod(off_abs, 3600);
    }
    assert(time_fields_valid(s)) by {
        assert(t_month(s) == t.month as int);
        assert(t_day(s) == t.day as int);
        assert(t_year(s) == t.year as int);
        assert(t_hour(s) == t.hour as int);
        assert(t_minute(s) == t.minute as int);
        assert(t_off_hour(s) == oh);
        assert(t_off_minute(s) == om);
        if s[16] == '-' {
            // A negative whole-minute offset is at least one minute.
            assert(off <= -60) by {
                lemma_fundamental_div_mod(off, 60);
                lemma_mod_bound(off, 60);
            }
            assert(oh > 0 || om > 0) by {
                if oh == 0 {
                    lemma_fundamental_div_mod(off_abs, 3600);
                    lemma_div_is_ordered(60, off_abs, 60);
                    lemma_fundamental_div_mod_converse(60, 60, 1, 0);
                }
            }
        }
    }
    assert(time_shape(s));
    assert(offset_val(s) == off);
    let p = parse_time_spec(s);
    assert(p is Some);
    let u = p.unwrap();
    assert(u.year == t.year);
    assert(u.month == t.month);
    assert(u.day == t.day);
    assert(u.hour == t.hour);
    assert(u.minute == t.minute);
    assert(u.offset_seconds == t.offset_seconds);
    assert(u.epoch_seconds == t.epoch_seconds);
}

/// Leap-year test.
fn leap_year(y: u16) -> (r: bool)
    ensures
        r == is_leap(y as int),
{
    y % 4 == 0 && (y % 100 != 0 || y % 400 == 0)
}

/// Days in a month of a year.
fn month_days(y: u16, m: u8) -> (r: u8)
    ensures
        r as int == days_in_month(y as int, m as int),
{
    if m == 2 {
        if leap_year(y) {
            29
        } else {
            28
        }
    } else if m == 4 || m == 6 || m == 9 || m == 11 {
        30
    } else {
        31
    }
}

/// Days from the Unix epoch to the civil date `y-m-d`.
fn days_from_civil(y: u16, m: u8, d: u8) -> (r: i64)
    requires
        y <= 9999,
        1 <= m <= 12,
        1 <= d <= 31,
    ensures
        r == days_from_epoch(y as int, m as int, d as int),
        -719529 <= r < 3660000,
{
    let yy = y as i64;
    let before_year: i64 = 365 * yy + (yy + 3) / 4 - (yy + 99) / 100 + (yy + 399) / 400;
    let mut before_month: i64 = 0;
    let mut mm: u8 = 1;
    while mm < m
        invariant
            1 <= mm <= m <= 12,
            y <= 9999,
            0 <= before_month <= 31 * (mm - 1),
            before_month == days_before_month(y as int, mm as int),
        decreases m - mm,
    {
        before_month = before_month + (month_days(y, mm) as i64);
        mm = mm + 1;
    }
    before_year + before_month + ((d - 1) as i64) - 719528
}

/// Read two digit characters at `p` as a number below one hundred.
fn read2(input: &str, p: usize) -> (r: Option<u8>)
    requires
        p + 2 <= input@.len(),
        input@.len() <= usize::MAX,
    ensures
        match r {
            Some(v) => {
                &&& is_digit(input@[p as int])
                &&& is_digit(input@[p as int + 1])
                &&& v as int == two_digit(input@, p as int)
                &&& v <= 99
            },
            None => !(is_digit(input@[p as int]) && is_digit(input@[p as int + 1])),
        },
{
    let c0 = input.get_char(p);
    let c1 = input.get_char(p + 1);
    let v0 = c0 as u32;
    let v1 = c1 as u32;
    if 48 <= v0 && v0 <= 57 && 48 <= v1 && v1 <= 57 {
        Some((((v0 - 48) * 10 + (v1 - 48)) as u8))
    } else {
        None
    }
}

/// Read four digit characters at `p` as a number below ten thousand.
fn read4(input: &str, p: usize) -> (r: Option<u16>)
    requires
        p + 4 <= input@.len(),
        input@.len() <= usize::MAX,
    ensures
        match r {
            Some(v) => {
                &&& is_digit(input@[p as int])
                &&& is_digit(input@[p as int + 1])
                &&& is_digit(input@[p as int + 2])
                &&& is_digit(input@[p as int + 3])
                &&& v as int == four_digit(input@, p as int)
                &&& v <= 9999
            },
            None => !(is_digit(input@[p as int]) && is_digit(input@[p as int + 1]) && is_digit(
                input@[p as int + 2],
            ) && is_digit(input@[p as int + 3])),
        },
{
    let h = read2(input, p);
    let l = read2(input, p + 2);
    match (h, l) {
        (Some(a), Some(b)) => Some((a as u16) * 100 + (b as u16)),
        _ => None,
    }
}

/// Parse a timestamp of the shape `YYYY-MM-DDTHH:MM±HHMM` (a colon
/// inside the offset is tolerated).
///
/// Succeeds exactly on well-shaped inputs with a real calendar date,
/// time of day and offset, returning the instant together with its
/// recorded offset; everything else is reported as a time parse error
/// carrying the offending input.
pub fn parse_time(input: &str) -> (result: Result<Instant, Error>)
    ensures
        match result {
            Ok(t) => parse_time_spec(input@) == Some(t) && t.wf(),
            Err(e) => {
                &&& parse_time_spec(input@) is None
                &&& e@ == ErrorView::ParsingTime(input@)
            },
        },
{
    let n = input.unicode_len();
    if !(n == 21 || n == 22) {
        return Err(Error::ParsingTime(input.to_owned()));
    }
    let year = match read4(input, 0) {
        Some(v) => v,
        None => {
            return Err(Error::ParsingTime(input.to_owned()));
        },
    };
    if input.get_char(4) != '-' {
        return Err(Error::ParsingTime(input.to_owned()));
    }
    let month = match read2(input, 5) {
        Some(v) => v,
        None => {
            return Err(Error::ParsingTime(input.to_owned()));
        },
    };
    if input.get_char(7) != '-' {
        return Err(Error::ParsingTime(input.to_owned()));
    }
    let day = match read2(input, 8) {
        Some(v) => v,
        None => {
            return Err(Error::ParsingTime(input.to_owned()));
        },
    };
    if input.get_char(10) != 'T' {
        return Err(Error::ParsingTime(input.to_owned()));
    }
    let hour = match read2(input, 11) {
        Some(v) => v,
        None => {
            return Err(Error::ParsingTime(input.to_owned()));
        },
    };
    if input.get_char(13) != ':' {
        return Err(Error::ParsingTime(input.to_owned()));
    }
    let minute = match read2(input, 14) {
        Some(v) => v,
        None => {
            return Err(Error::ParsingTime(input.to_owned()));
        },
    };
    let sign = input.get_char(16);
    if !(sign == '+' || sign == '-') {
        return Err(Error::ParsingTime(input.to_owned()));
    }
    let off_hour = match read2(input, 17) {
        Some(v) => v,
        None => {
            return Err(Error::ParsingTime(input.to_owned()));
        },
    };
    let om_pos: usize = if n == 21 {
        19
    } else {
        if input.get_char(19) != ':' {
            return Err(Error::ParsingTime(input.to_owned()));
        }
        20
    };
    let off_minute = match read2(input, om_pos) {
        Some(v) => v,
        None => {
            return Err(Error::ParsingTime(input.to_owned()));
        },
    };
    // Field validation.
    if !(1 <= month && month <= 12) {
        return Err(Error::ParsingTime(input.to_owned()));
    }
    if !(1 <= day && day <= month_days(year, month)) {
        return Err(Error::ParsingTime(input.to_owned()));
    }
    if !(hour <= 23) {
        return Err(Error::ParsingTime(input.to_owned()));
    }
    if !(minute <= 59) {
        return Err(Error::ParsingTime(input.to_owned()));
    }
    if !(off_minute <= 59) {
        return Err(Error::ParsingTime(input.to_owned()));
    }
    if sign == '-' && off_hour == 0 && off_minute == 0 {
        return Err(Error::ParsingTime(input.to_owned()));
    }
    let mag: i32 = (off_hour as i32) * 3600 + (off_minute as i32) * 60;
    let offset_seconds: i32 = if sign == '-' {
        -mag
    } else {
        mag
    };
    let days = days_from_civil(year, month, day);
    let epoch_seconds: i64 = days * 86400 + (hour as i64) * 3600 + (minute as i64) * 60 - (
    offset_seconds as i64);
    let t = Instant { year, month, day, hour, minute, offset_seconds, epoch_seconds };
    proof {
        assert(time_shape(input@));
        assert(offset_val(input@) == offset_seconds as int);
    }
    Ok(t)
}

/// Render an instant as `YYYY-MM-DDTHH:MM±HHMM`, in the instant's own
/// recorded offset.
pub fn format_time(t: &Instant) -> (r: String)
    requires
        t.wf(),
    ensures
        r@ == format_time_spec(*t),
{
    proof {
        reveal_strlit("-");
        reveal_strlit("T");
        reveal_strlit(":");
        reveal_strlit("+");
    }
    let mut out = String::new();
    push_padded_dec(&mut out, t.year as u64, 4);
    out.append("-");
    push_padded_dec(&mut out, t.month as u64, 2);
    out.append("-");
    push_padded_dec(&mut out, t.day as u64, 2);
    out.append("T");
    push_padded_dec(&mut out, t.hour as u64, 2);
    out.append(":");
    push_padded_dec(&mut out, t.minute as u64, 2);
    let off = t.offset_seconds;
    let mag: u32 = if off < 0 {
        out.append("-");
        (-(off as i64)) as u32
    } else {
        out.append("+");
        off as u32
    };
    push_padded_dec(&mut out, (mag / 3600) as u64, 2);
    push_padded_dec(&mut out, ((mag % 3600) / 60) as u64, 2);
    assert(out@ =~= format_time_spec(*t));
    out
}

} // verus!
