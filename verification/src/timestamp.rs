//! A moment in UTC, written the one way every record writes it.
//!
//! The core never asks what time it is. A timestamp arrives as a parameter,
//! already made by the boundary, and this type only knows how to read and
//! write the `2026-08-21T21:40:01Z` shape the wire format uses.

use vstd::prelude::*;

use crate::number::{
    all_digits, digits_value, is_digit, padded_int, push_padded_int,
};
use crate::text::{chars_of, copy_str};

verus! {

/// Seconds in a day.
pub const DAY: i64 = 86_400;

/// Division that rounds toward zero, which is what `/` does on an `i64`.
pub open spec fn tdiv(a: int, b: int) -> int {
    if a >= 0 {
        a / b
    } else {
        -((-a) / b)
    }
}

/// Whether a year of the proleptic Gregorian calendar has a 29th of February.
pub open spec fn is_leap(year: int) -> bool {
    year % 4 == 0 && (year % 100 != 0 || year % 400 == 0)
}

/// How many days a month of a year has.
pub open spec fn days_in_month(year: int, month: int) -> int {
    if month == 2 {
        if is_leap(year) {
            29
        } else {
            28
        }
    } else if month == 4 || month == 6 || month == 9 || month == 11 {
        30
    } else {
        31
    }
}

/// Days since 1970-01-01 for a proleptic Gregorian date.
pub open spec fn days_from_civil(year: int, month: int, day: int) -> int {
    let y = if month <= 2 {
        year - 1
    } else {
        year
    };
    let era = y / 400;
    let year_of_era = y - era * 400;
    let month_index = if month > 2 {
        month - 3
    } else {
        month + 9
    };
    let day_of_year = (153 * month_index + 2) / 5 + day - 1;
    let day_of_era = year_of_era * 365 + year_of_era / 4 - year_of_era / 100 + day_of_year;
    era * 146_097 + day_of_era - 719_468
}

/// The date of a day counted from 1970-01-01, as (year, month, day).
pub open spec fn civil_from_days(days: int) -> (int, int, int) {
    let shifted = days + 719_468;
    let era = shifted / 146_097;
    let day_of_era = shifted - era * 146_097;
    let year_of_era = tdiv(
        day_of_era - tdiv(day_of_era, 1460) + tdiv(day_of_era, 36_524) - tdiv(day_of_era, 146_096),
        365,
    );
    let day_of_year = day_of_era - (365 * year_of_era + tdiv(year_of_era, 4) - tdiv(
        year_of_era,
        100,
    ));
    let month_index = tdiv(5 * day_of_year + 2, 153);
    let day = day_of_year - tdiv(153 * month_index + 2, 5) + 1;
    let month = if month_index < 10 {
        month_index + 3
    } else {
        month_index - 9
    };
    let year = year_of_era + era * 400 + if month <= 2 {
        1int
    } else {
        0int
    };
    (year, month, day)
}

/// The text of an instant: `YYYY-MM-DDTHH:MM:SSZ`.
pub open spec fn timestamp_text(unix: int) -> Seq<char> {
    let days = unix / DAY as int;
    let seconds = unix % DAY as int;
    let (year, month, day) = civil_from_days(days);
    padded_int(year, 4) + seq!['-'] + padded_int(month, 2) + seq!['-'] + padded_int(day, 2)
        + seq!['T'] + padded_int(seconds / 3600, 2) + seq![':'] + padded_int(
        seconds % 3600 / 60,
        2,
    ) + seq![':'] + padded_int(seconds % 60, 2) + seq!['Z']
}

/// The text of an instant is at least twenty characters, so its clock is
/// always there to read.
pub proof fn lemma_timestamp_text_len(unix: int)
    ensures
        timestamp_text(unix).len() >= 20,
{
    let days = unix / DAY as int;
    let seconds = unix % DAY as int;
    let (year, month, day) = civil_from_days(days);
    crate::number::lemma_padded_int_len(year, 4);
    crate::number::lemma_padded_int_len(month, 2);
    crate::number::lemma_padded_int_len(day, 2);
    crate::number::lemma_padded_int_len(seconds / 3600, 2);
    crate::number::lemma_padded_int_len(seconds % 3600 / 60, 2);
    crate::number::lemma_padded_int_len(seconds % 60, 2);
}

/// The number the digits of `s` from `a` up to `b` spell.
pub open spec fn field(s: Seq<char>, a: int, b: int) -> int {
    digits_value(s.subrange(a, b))
}

/// Whether `s` has the shape `YYYY-MM-DDTHH:MM:SSZ`, digits where digits go.
pub open spec fn timestamp_shape(s: Seq<char>) -> bool {
    &&& s.len() == 20
    &&& s[4] == '-' && s[7] == '-' && s[10] == 'T' && s[13] == ':' && s[16] == ':' && s[19] == 'Z'
    &&& all_digits(s.subrange(0, 4)) && all_digits(s.subrange(5, 7)) && all_digits(
        s.subrange(8, 10),
    )
    &&& all_digits(s.subrange(11, 13)) && all_digits(s.subrange(14, 16)) && all_digits(
        s.subrange(17, 19),
    )
}

/// Whether the fields of a well-shaped text name a real moment.
pub open spec fn timestamp_fields_valid(s: Seq<char>) -> bool {
    let (year, month, day) = (field(s, 0, 4), field(s, 5, 7), field(s, 8, 10));
    &&& 1 <= month <= 12
    &&& 1 <= day <= days_in_month(year, month)
    &&& field(s, 11, 13) <= 23
    &&& field(s, 14, 16) <= 59
    &&& field(s, 17, 19) <= 59
}

/// The instant a text names, when it is exactly `YYYY-MM-DDTHH:MM:SSZ` with a
/// real calendar date.
pub open spec fn parse_timestamp(s: Seq<char>) -> Option<int> {
    if timestamp_shape(s) && timestamp_fields_valid(s) {
        Some(
            days_from_civil(field(s, 0, 4), field(s, 5, 7), field(s, 8, 10)) * DAY + field(
                s,
                11,
                13,
            ) * 3600 + field(s, 14, 16) * 60 + field(s, 17, 19),
        )
    } else {
        None
    }
}

/// A UTC instant with second precision, as it appears on the wire.
#[derive(Debug, Clone, Copy, PartialEq, Eq, PartialOrd, Ord, Hash)]
pub struct Timestamp {
    unix: i64,
}

impl View for Timestamp {
    type V = i64;

    closed spec fn view(&self) -> i64 {
        self.unix
    }
}

/// Why a timestamp could not be read: the text that was refused.
#[derive(Debug, Clone, PartialEq, Eq)]
pub struct ParseTimestampError(String);

impl View for ParseTimestampError {
    type V = Seq<char>;

    closed spec fn view(&self) -> Seq<char> {
        self.0@
    }
}

impl ParseTimestampError {
    /// The sentence a person reads.
    pub fn to_string(&self) -> (s: String)
        ensures
            s@ == seq!['n'] + parse_timestamp_error_tail() + self@,
    {
        let mut s = String::new();
        s.push('n');
        s.append("ot a timestamp of the form 2026-08-21T21:40:01Z: ");
        proof {
            reveal_strlit("ot a timestamp of the form 2026-08-21T21:40:01Z: ");
        }
        s.append(self.0.as_str());
        s
    }
}

/// What the refusal says before the text it refused.
pub open spec fn parse_timestamp_error_tail() -> Seq<char> {
    "ot a timestamp of the form 2026-08-21T21:40:01Z: "@
}

/// Floor division of an `i64` by a positive divisor.
fn floor_div(a: i64, b: i64) -> (q: i64)
    requires
        b > 0,
    ensures
        q == a as int / b as int,
{
    if a >= 0 {
        a / b
    } else {
        let p: i64 = -(a + 1);
        let t: i64 = p / b;
        proof {
            lemma_floor_of_negative(a as int, b as int, t as int);
        }
        -t - 1
    }
}

/// The remainder of floor division of an `i64` by a positive divisor.
fn floor_mod(a: i64, b: i64) -> (r: i64)
    requires
        b > 0,
    ensures
        r == a as int % b as int,
        0 <= r < b,
{
    if a >= 0 {
        a % b
    } else {
        let p: i64 = -(a + 1);
        let t: i64 = p / b;
        let m: i64 = p % b;
        proof {
            lemma_floor_of_negative(a as int, b as int, t as int);
            vstd::arithmetic::div_mod::lemma_fundamental_div_mod(p as int, b as int);
            vstd::arithmetic::div_mod::lemma_fundamental_div_mod(a as int, b as int);
            vstd::arithmetic::div_mod::lemma_mod_bound(a as int, b as int);
            assert(a as int % b as int == b - 1 - m) by (nonlinear_arith)
                requires
                    p == b * t + m,
                    p == -(a + 1),
                    a as int / b as int == -t - 1,
                    a == b * (a as int / b as int) + a as int % b as int,
            ;
        }
        b - 1 - m
    }
}

proof fn lemma_floor_of_negative(a: int, b: int, t: int)
    requires
        b > 0,
        a < 0,
        t == (-(a + 1)) / b,
    ensures
        a / b == -t - 1,
{
    let p = -(a + 1);
    assert(p == t * b + p % b) by {
        vstd::arithmetic::div_mod::lemma_fundamental_div_mod(p, b);
    }
    assert(0 <= p % b < b) by {
        vstd::arithmetic::div_mod::lemma_mod_bound(p, b);
    }
    let q = -t - 1;
    let r = b - 1 - p % b;
    assert(a == q * b + r) by (nonlinear_arith)
        requires
            p == t * b + p % b,
            p == -(a + 1),
            q == -t - 1,
            r == b - 1 - p % b,
    ;
    vstd::arithmetic::div_mod::lemma_fundamental_div_mod_converse(a, b, q, r);
}

/// Days since 1970-01-01 for a date whose fields were read off four and two
/// digits.
fn days_from_civil_exec(year: i64, month: i64, day: i64) -> (days: i64)
    requires
        0 <= year <= 9999,
        1 <= month <= 12,
        1 <= day <= 31,
    ensures
        days == days_from_civil(year as int, month as int, day as int),
{
    let y = if month <= 2 {
        year - 1
    } else {
        year
    };
    let era = floor_div(y, 400);
    assert(-1 <= era <= 24) by (nonlinear_arith)
        requires
            -1 <= y <= 9999,
            era == y / 400,
    ;
    let year_of_era = y - era * 400;
    assert(0 <= year_of_era < 400) by (nonlinear_arith)
        requires
            era == y / 400,
            year_of_era == y - era * 400,
    ;
    let month_index = if month > 2 {
        month - 3
    } else {
        month + 9
    };
    let day_of_year = (153 * month_index + 2) / 5 + day - 1;
    let day_of_era = year_of_era * 365 + year_of_era / 4 - year_of_era / 100 + day_of_year;
    era * 146_097 + day_of_era - 719_468
}

/// The date of a day, by the same arithmetic as [`civil_from_days`].
fn civil_from_days_exec(days: i64) -> (date: (i64, i64, i64))
    requires
        -200_000_000_000_000 <= days <= 200_000_000_000_000,
    ensures
        date.0 as int == civil_from_days(days as int).0,
        date.1 as int == civil_from_days(days as int).1,
        date.2 as int == civil_from_days(days as int).2,
{
    let shifted = days + 719_468;
    let era = floor_div(shifted, 146_097);
    assert(-2_000_000_000 <= era <= 2_000_000_000) by (nonlinear_arith)
        requires
            -200_000_000_000_000 <= shifted - 719_468 <= 200_000_000_000_000,
            era == shifted / 146_097,
    ;
    let day_of_era = shifted - era * 146_097;
    assert(0 <= day_of_era < 146_097) by (nonlinear_arith)
        requires
            era == shifted / 146_097,
            day_of_era == shifted - era * 146_097,
    ;
    let year_of_era = (day_of_era - day_of_era / 1460 + day_of_era / 36_524 - day_of_era
        / 146_096) / 365;
    assert(0 <= year_of_era <= 400) by (nonlinear_arith)
        requires
            0 <= day_of_era < 146_097,
            year_of_era == (day_of_era - day_of_era / 1460 + day_of_era / 36_524 - day_of_era
                / 146_096) / 365,
    ;
    let day_of_year = day_of_era - (365 * year_of_era + year_of_era / 4 - year_of_era / 100);
    let month_index = (5 * day_of_year + 2) / 153;
    let day = day_of_year - (153 * month_index + 2) / 5 + 1;
    let month = if month_index < 10 {
        month_index + 3
    } else {
        month_index - 9
    };
    let year = year_of_era + era * 400 + if month <= 2 {
        1
    } else {
        0
    };
    (year, month, day)
}

impl Timestamp {
    /// The instant that many seconds after 1970-01-01T00:00:00Z.
    pub fn from_unix(unix: i64) -> (t: Timestamp)
        ensures
            t@ == unix,
    {
        Timestamp { unix }
    }

    /// Seconds since 1970-01-01T00:00:00Z.
    pub fn unix(self) -> (u: i64)
        ensures
            u == self@,
    {
        self.unix
    }

    /// Whole seconds from `earlier` to this instant, negative if it came first.
    pub fn seconds_since(self, earlier: Timestamp) -> (s: i64)
        requires
            i64::MIN <= self@ - earlier@ <= i64::MAX,
        ensures
            s == self@ - earlier@,
    {
        self.unix - earlier.unix
    }

    /// Whether this instant is not before `other`.
    pub fn not_before(self, other: Timestamp) -> (b: bool)
        ensures
            b == (self@ >= other@),
    {
        self.unix >= other.unix
    }

    /// Read `YYYY-MM-DDTHH:MM:SSZ`, and nothing looser: anything that is not
    /// exactly that shape with a real calendar date is refused, and the
    /// refusal carries the text.
    pub fn parse(text: &str) -> (r: Result<Timestamp, ParseTimestampError>)
        ensures
            parse_timestamp(text@) matches Some(u) ==> (r matches Ok(t) && t@ == u),
            parse_timestamp(text@) is None ==> (r matches Err(e) && e@ == text@),
    {
        let v = chars_of(text);
        if v.len() != 20 || v[4] != '-' || v[7] != '-' || v[10] != 'T' || v[13] != ':' || v[16]
            != ':' || v[19] != 'Z' {
            return Err(ParseTimestampError(copy_str(text)));
        }
        let year = digits(&v, 0, 4);
        let month = digits(&v, 5, 7);
        let day = digits(&v, 8, 10);
        let hour = digits(&v, 11, 13);
        let minute = digits(&v, 14, 16);
        let second = digits(&v, 17, 19);
        match (year, month, day, hour, minute, second) {
            (Some(year), Some(month), Some(day), Some(hour), Some(minute), Some(second)) => {
                if month < 1 || month > 12 || day < 1 || day > days_in_month_exec(year, month)
                    || hour > 23 || minute > 59 || second > 59 {
                    return Err(ParseTimestampError(copy_str(text)));
                }
                let days = days_from_civil_exec(year, month, day);
                Ok(Timestamp { unix: days * DAY + hour * 3600 + minute * 60 + second })
            },
            _ => Err(ParseTimestampError(copy_str(text))),
        }
    }

    /// The instant as the wire writes it, `YYYY-MM-DDTHH:MM:SSZ`.
    pub fn to_string(&self) -> (s: String)
        ensures
            s@ == timestamp_text(self@ as int),
    {
        let days = floor_div(self.unix, DAY);
        let seconds = floor_mod(self.unix, DAY);
        assert(-200_000_000_000_000 <= days <= 200_000_000_000_000) by (nonlinear_arith)
            requires
                days == self.unix as int / DAY as int,
        ;
        let (year, month, day) = civil_from_days_exec(days);
        let mut s = String::new();
        push_padded_int(&mut s, year, 4);
        s.push('-');
        push_padded_int(&mut s, month, 2);
        s.push('-');
        push_padded_int(&mut s, day, 2);
        s.push('T');
        push_padded_int(&mut s, seconds / 3600, 2);
        s.push(':');
        push_padded_int(&mut s, seconds % 3600 / 60, 2);
        s.push(':');
        push_padded_int(&mut s, seconds % 60, 2);
        s.push('Z');
        s
    }
}

/// How many days a month has, for a year read off four digits.
fn days_in_month_exec(year: i64, month: i64) -> (n: i64)
    requires
        0 <= year <= 9999,
    ensures
        n == days_in_month(year as int, month as int),
{
    if month == 2 {
        if year % 4 == 0 && (year % 100 != 0 || year % 400 == 0) {
            29
        } else {
            28
        }
    } else if month == 4 || month == 6 || month == 9 || month == 11 {
        30
    } else {
        31
    }
}

/// The value of the digits of `v` from `a` up to `b`, when they are all digits.
fn digits(v: &Vec<char>, a: usize, b: usize) -> (r: Option<i64>)
    requires
        a <= b <= v@.len(),
        b - a <= 4,
    ensures
        all_digits(v@.subrange(a as int, b as int)) ==> (r matches Some(n) && n as int
            == digits_value(v@.subrange(a as int, b as int)) && 0 <= n < 10000),
        !all_digits(v@.subrange(a as int, b as int)) ==> r is None,
{
    let mut value: i64 = 0;
    let mut i = a;
    while i < b
        invariant
            a <= i <= b <= v@.len(),
            b - a <= 4,
            all_digits(v@.subrange(a as int, i as int)),
            value as int == digits_value(v@.subrange(a as int, i as int)),
            0 <= value < crate::number::pow10((i - a) as nat),
        decreases b - i,
    {
        let c = v[i];
        if !('0' <= c && c <= '9') {
            assert(!is_digit(v@.subrange(a as int, b as int)[i - a]));
            return None;
        }
        assert(v@.subrange(a as int, i + 1).drop_last() =~= v@.subrange(a as int, i as int));
        proof {
            assert(crate::number::pow10((i + 1 - a) as nat) == 10 * crate::number::pow10(
                (i - a) as nat,
            ));
        }
        proof {
            lemma_pow10_le((i - a) as nat, 3);
            reveal_with_fuel(crate::number::pow10, 4);
        }
        value = value * 10 + ((c as u32) - 48) as i64;
        i = i + 1;
    }
    proof {
        reveal_with_fuel(crate::number::pow10, 5);
        assert(crate::number::pow10(4) == 10000);
        if b - a < 4 {
            lemma_pow10_le((b - a) as nat, 4);
        }
    }
    Some(value)
}

proof fn lemma_pow10_le(j: nat, k: nat)
    requires
        j <= k,
    ensures
        crate::number::pow10(j) <= crate::number::pow10(k),
    decreases k,
{
    if j < k {
        lemma_pow10_le(j, (k - 1) as nat);
    }
}

} // verus!
