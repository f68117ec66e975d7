//! Why the day count and the calendar date are two names for one thing.
//!
//! `days_from_civil` and `civil_from_days` count days in eras of four hundred
//! years that start on the first of March. Within an era, a year begins a
//! fixed number of days in, a month a fixed number of days into its year,
//! and each is recovered by dividing back; the lemmas here prove that the two
//! directions undo each other, for every date and every day.

use vstd::prelude::*;

use crate::number::{
    lemma_digits_below, lemma_digits_bound, lemma_padded_of_digits,
    lemma_padded_value, padded, padded_int, pow10,
};
use crate::timestamp::{
    civil_from_days, days_from_civil, days_in_month, field, is_leap, parse_timestamp,
    tdiv, timestamp_fields_valid, timestamp_shape, timestamp_text, DAY,
};

verus! {

/// Days from the start of an era to the start of its year `yoe`, years
/// starting in March.
pub open spec fn days_before(yoe: int) -> int {
    365 * yoe + yoe / 4 - yoe / 100
}

/// Whether the year `yoe` of an era ends on a 29th of February.
pub open spec fn leap_in_era(yoe: int) -> bool {
    (yoe + 1) % 4 == 0 && ((yoe + 1) % 100 != 0 || yoe == 399)
}

/// How many days the year `yoe` of an era has.
pub open spec fn year_length(yoe: int) -> int {
    if leap_in_era(yoe) {
        366
    } else {
        365
    }
}

/// The year of an era a day of the era falls in, as the algorithm divides it.
pub open spec fn year_from_doe(doe: int) -> int {
    (doe - doe / 1460 + doe / 36524 - doe / 146096) / 365
}

/// Days from the first of March to the start of the month `mi` after it.
pub open spec fn month_start(mi: int) -> int {
    (153 * mi + 2) / 5
}

/// The month after March a day of the year falls in, as the algorithm
/// divides it.
pub open spec fn month_from_doy(doy: int) -> int {
    (5 * doy + 2) / 153
}

/// Dividing a day of the era back gives the year it was counted from.
proof fn lemma_year_from_doe(yoe: int, doy: int)
    requires
        0 <= yoe <= 399,
        0 <= doy < year_length(yoe),
    ensures
        year_from_doe(days_before(yoe) + doy) == yoe,
{
    let c = yoe / 100;
    let q = (yoe % 100) / 4;
    let r = yoe % 4;
    assert(yoe == 100 * c + 4 * q + r);
    assert(0 <= c <= 3 && 0 <= q <= 24 && 0 <= r <= 3);
    assert(yoe / 4 == 25 * c + q);
    assert(yoe / 100 == c);
    let doe = days_before(yoe) + doy;
    assert(doe == 36524 * c + 1461 * q + 365 * r + doy);
    let s = 24 * c + q + 365 * r + doy;
    assert(doe == 1460 * (25 * c + q) + s);
    assert(doy == 365 ==> r == 3);
    if s >= 1460 {
        assert(r == 3);
        assert(doe / 1460 == 25 * c + q + 1);
    } else {
        assert(doe / 1460 == 25 * c + q);
    }
    if doe == 146096 {
        assert(c == 3);
        assert(doe / 36524 == 4);
        assert(doe / 146096 == 1);
    } else {
        assert(doe < 146096);
        if c < 3 {
            assert(1461 * q + 365 * r + doy < 36524);
        } else {
            assert(1461 * q + 365 * r + doy <= 36524);
        }
        assert(doe / 36524 == c);
        assert(doe / 146096 == 0);
    }
    let n = doe - doe / 1460 + doe / 36524 - doe / 146096;
    let extra: int = if s >= 1460 {
        1
    } else {
        0
    };
    assert(n == 365 * yoe + doy - extra);
    assert(0 <= doy - extra < 365);
}

/// The years of an era follow each other with no gap.
proof fn lemma_days_before_next(yoe: int)
    requires
        0 <= yoe <= 398,
    ensures
        days_before(yoe + 1) == days_before(yoe) + year_length(yoe),
{
    let a = yoe + 1;
    if a % 4 == 0 {
        assert(a / 4 == yoe / 4 + 1);
    } else {
        assert(a / 4 == yoe / 4);
    }
    if a % 100 == 0 {
        assert(a / 100 == yoe / 100 + 1);
    } else {
        assert(a / 100 == yoe / 100);
    }
}

/// Every day of an era falls in one of its years.
proof fn lemma_doe_covered(doe: int, k: int)
    requires
        0 <= k <= 399,
        days_before(k) <= doe <= 146096,
    ensures
        exists|yoe: int|
            #![trigger year_length(yoe)]
            k <= yoe <= 399 && days_before(yoe) <= doe < days_before(yoe) + year_length(yoe),
    decreases 399 - k,
{
    if doe < days_before(k) + year_length(k) {
        assert(days_before(k) <= doe < days_before(k) + year_length(k));
    } else {
        if k == 399 {
            assert(days_before(399) + year_length(399) == 146097);
        } else {
            lemma_days_before_next(k);
            lemma_doe_covered(doe, k + 1);
        }
    }
}

/// Dividing a day of the year back gives the month it was counted from, and
/// the day lands inside that month.
proof fn lemma_month_from_doy(doy: int)
    requires
        0 <= doy <= 365,
    ensures
        0 <= month_from_doy(doy) <= 11,
        month_start(month_from_doy(doy)) <= doy < month_start(month_from_doy(doy) + 1),
{
    let mp = month_from_doy(doy);
    assert(153 * mp <= 5 * doy + 2 < 153 * mp + 153);
}

/// A day counted from the start of a month divides back to that month.
proof fn lemma_month_back(mi: int, d: int)
    requires
        0 <= mi <= 11,
        1 <= d <= month_start(mi + 1) - month_start(mi),
    ensures
        month_from_doy(month_start(mi) + d - 1) == mi,
{
    let doy = month_start(mi) + d - 1;
    assert(0 <= doy <= 366) by {
        if mi == 11 {
            assert(month_start(12) == 367);
        }
    }
    if mi == 0 {
    } else if mi == 1 {
    } else if mi == 2 {
    } else if mi == 3 {
    } else if mi == 4 {
    } else if mi == 5 {
    } else if mi == 6 {
    } else if mi == 7 {
    } else if mi == 8 {
    } else if mi == 9 {
    } else if mi == 10 {
    } else {
    }
}

/// The month index `mi` after March is month `m` of the calendar, and its
/// days are the calendar's days of that month, but for the 29th of
/// February, which only a leap year has.
proof fn lemma_month_lengths(mi: int, year: int)
    requires
        0 <= mi <= 10,
    ensures
        month_start(mi + 1) - month_start(mi) == days_in_month(
            year,
            if mi < 10 {
                mi + 3
            } else {
                mi - 9
            },
        ),
{
    if mi == 0 {
    } else if mi == 1 {
    } else if mi == 2 {
    } else if mi == 3 {
    } else if mi == 4 {
    } else if mi == 5 {
    } else if mi == 6 {
    } else if mi == 7 {
    } else if mi == 8 {
    } else if mi == 9 {
    } else {
    }
}

/// A civil year ends a leap February exactly when its year of the era does.
proof fn lemma_leap_year(era: int, yoe: int)
    requires
        0 <= yoe <= 399,
    ensures
        is_leap(era * 400 + yoe + 1) == leap_in_era(yoe),
{
    let y = era * 400 + yoe + 1;
    let x = yoe + 1;
    assert(y == 4 * (era * 100) + x);
    assert(y == 100 * (era * 4) + x);
    assert(y == 400 * era + x);
    assert(y % 4 == x % 4) by {
        vstd::arithmetic::div_mod::lemma_mod_multiples_vanish(era * 100, x, 4);
    }
    assert(y % 100 == x % 100) by {
        vstd::arithmetic::div_mod::lemma_mod_multiples_vanish(era * 4, x, 100);
    }
    assert(y % 400 == x % 400) by {
        vstd::arithmetic::div_mod::lemma_mod_multiples_vanish(era, x, 400);
    }
}

/// Any real date of the proleptic Gregorian calendar, in any year, counted
/// to a day since 1970-01-01 and back is the same date.
pub proof fn law_a_date_counts_to_a_day_and_back(year: int, month: int, day: int)
    requires
        1 <= month <= 12,
        1 <= day <= days_in_month(year, month),
    ensures
        civil_from_days(days_from_civil(year, month, day)) == (year, month, day),
{
    let y = if month <= 2 {
        year - 1
    } else {
        year
    };
    let era = y / 400;
    let yoe = y - era * 400;
    let mi = if month > 2 {
        month - 3
    } else {
        month + 9
    };
    let doy = month_start(mi) + day - 1;
    assert(0 <= yoe <= 399);
    // The day is inside its month, and the month inside its year.
    if mi <= 10 {
        lemma_month_lengths(mi, year);
        assert(mi < 10 ==> mi + 3 == month);
        assert(mi == 10 ==> month == 1);
    } else {
        assert(month == 2);
        lemma_leap_year(era, yoe);
        assert(year == era * 400 + yoe + 1);
        assert(month_start(11) == 337);
        assert(month_start(12) == 367);
    }
    lemma_month_back(mi, day);
    assert(0 <= doy < year_length(yoe)) by {
        assert(month_start(11) == 337);
        if mi == 11 {
            lemma_leap_year(era, yoe);
        }
    }
    lemma_year_from_doe(yoe, doy);
    let doe = days_before(yoe) + doy;
    assert(0 <= doe < 146097) by {
        if yoe < 399 {
            lemma_days_before_next(yoe);
            assert(days_before(yoe + 1) <= days_before(399)) by {
                lemma_days_before_monotone(yoe + 1, 399);
            }
        }
        assert(days_before(399) + year_length(399) == 146097);
    }
    let days = days_from_civil(year, month, day);
    assert(days == era * 146_097 + doe - 719_468);
    let shifted = days + 719_468;
    assert(shifted / 146_097 == era);
    assert(shifted - era * 146_097 == doe);
    assert(tdiv(doe, 1460) == doe / 1460);
    assert(tdiv(doe, 36_524) == doe / 36524);
    assert(tdiv(doe, 146_096) == doe / 146096);
    assert(tdiv(doe - doe / 1460 + doe / 36524 - doe / 146096, 365) == yoe);
    assert(tdiv(yoe, 4) == yoe / 4 && tdiv(yoe, 100) == yoe / 100);
    assert(tdiv(5 * doy + 2, 153) == mi);
    assert(tdiv(153 * mi + 2, 5) == month_start(mi));
}

/// Later years of an era begin later.
proof fn lemma_days_before_monotone(a: int, b: int)
    requires
        0 <= a <= b <= 399,
    ensures
        days_before(a) <= days_before(b),
    decreases b - a,
{
    if a < b {
        lemma_days_before_next(a);
        lemma_days_before_monotone(a + 1, b);
    }
}

/// Any day since 1970-01-01, before or after it, turned into a date is a
/// real date, and counts back to the same day.
pub proof fn law_a_day_counts_to_a_date_and_back(days: int)
    ensures
        1 <= civil_from_days(days).1 <= 12,
        1 <= civil_from_days(days).2 <= days_in_month(
            civil_from_days(days).0,
            civil_from_days(days).1,
        ),
        days_from_civil(
            civil_from_days(days).0,
            civil_from_days(days).1,
            civil_from_days(days).2,
        ) == days,
{
    let shifted = days + 719_468;
    let era = shifted / 146_097;
    let doe = shifted - era * 146_097;
    assert(0 <= doe <= 146_096);
    lemma_doe_covered(doe, 0);
    let yoe = choose|yoe: int|
        #![trigger year_length(yoe)]
        0 <= yoe <= 399 && days_before(yoe) <= doe < days_before(yoe) + year_length(yoe);
    let doy = doe - days_before(yoe);
    lemma_year_from_doe(yoe, doy);
    assert(tdiv(doe, 1460) == doe / 1460);
    assert(tdiv(doe, 36_524) == doe / 36524);
    assert(tdiv(doe, 146_096) == doe / 146096);
    assert(tdiv(doe - doe / 1460 + doe / 36524 - doe / 146096, 365) == yoe);
    assert(tdiv(yoe, 4) == yoe / 4 && tdiv(yoe, 100) == yoe / 100);
    lemma_month_from_doy(doy);
    let mp = month_from_doy(doy);
    assert(tdiv(5 * doy + 2, 153) == mp);
    assert(tdiv(153 * mp + 2, 5) == month_start(mp));
    let d = doy - month_start(mp) + 1;
    let month = if mp < 10 {
        mp + 3
    } else {
        mp - 9
    };
    let year = yoe + era * 400 + if month <= 2 {
        1int
    } else {
        0int
    };
    assert(civil_from_days(days) == (year, month, d));
    // The day fits its month.
    if mp <= 10 {
        lemma_month_lengths(mp, year);
    } else {
        assert(month == 2);
        lemma_leap_year(era, yoe);
        assert(year == era * 400 + yoe + 1);
        assert(month_start(11) == 337);
    }
    // And counting it back lands on the same day.
    let y = if month <= 2 {
        year - 1
    } else {
        year
    };
    assert(y == era * 400 + yoe);
    assert(y / 400 == era);
    assert(y - era * 400 == yoe);
    let mi = if month > 2 {
        month - 3
    } else {
        month + 9
    };
    assert(mi == mp);
}

/// The earliest moment whose text has a four-digit year: 0000-01-01T00:00:00Z.
pub open spec fn first_writable() -> int {
    -62_167_219_200
}

/// The latest moment whose text has a four-digit year: 9999-12-31T23:59:59Z.
pub open spec fn last_writable() -> int {
    253_402_300_799
}

/// The days of the years 0 to 9999 fall in those years.
proof fn lemma_year_range(days: int)
    requires
        -719_528 <= days <= 2_932_896,
    ensures
        0 <= civil_from_days(days).0 <= 9999,
{
    let shifted = days + 719_468;
    let era = shifted / 146_097;
    let doe = shifted - era * 146_097;
    lemma_doe_covered(doe, 0);
    let yoe = choose|yoe: int|
        #![trigger year_length(yoe)]
        0 <= yoe <= 399 && days_before(yoe) <= doe < days_before(yoe) + year_length(yoe);
    let doy = doe - days_before(yoe);
    lemma_year_from_doe(yoe, doy);
    lemma_month_from_doy(doy);
    let mp = month_from_doy(doy);
    assert(tdiv(doe - doe / 1460 + doe / 36524 - doe / 146096, 365) == yoe);
    assert(tdiv(yoe, 4) == yoe / 4 && tdiv(yoe, 100) == yoe / 100);
    assert(tdiv(5 * doy + 2, 153) == mp);
    assert(-1 <= era <= 24);
    if era == -1 {
        assert(doe >= 146_037);
        if yoe < 399 {
            lemma_days_before_next(yoe);
            lemma_days_before_monotone(yoe + 1, 399);
        }
        assert(yoe == 399);
        assert(doy >= 306);
        assert(mp >= 10);
    } else if era == 24 {
        assert(doe <= 146_036);
        if yoe == 399 {
            assert(doy <= 305);
            assert(mp <= 9);
        }
    }
}

/// A moment written with a four-digit year reads back as the same moment.
#[verifier::spinoff_prover]
#[verifier::rlimit(40)]
pub proof fn law_written_moment_reads_back(t: int)
    requires
        first_writable() <= t <= last_writable(),
    ensures
        parse_timestamp(timestamp_text(t)) == Some(t),
{
    let days = t / DAY as int;
    let secs = t % DAY as int;
    let (y, m, d) = civil_from_days(days);
    law_a_day_counts_to_a_date_and_back(days);
    lemma_year_range(days);
    let h = secs / 3600;
    let mi = secs % 3600 / 60;
    let sc = secs % 60;
    reveal_with_fuel(pow10, 5);
    lemma_digits_below(y as nat, 4);
    lemma_digits_below(m as nat, 2);
    lemma_digits_below(d as nat, 2);
    lemma_digits_below(h as nat, 2);
    lemma_digits_below(mi as nat, 2);
    lemma_digits_below(sc as nat, 2);
    lemma_padded_value(y as nat, 4);
    lemma_padded_value(m as nat, 2);
    lemma_padded_value(d as nat, 2);
    lemma_padded_value(h as nat, 2);
    lemma_padded_value(mi as nat, 2);
    lemma_padded_value(sc as nat, 2);
    let a = padded(y as nat, 4);
    let b = padded(m as nat, 2);
    let c = padded(d as nat, 2);
    let e = padded(h as nat, 2);
    let f = padded(mi as nat, 2);
    let g = padded(sc as nat, 2);
    let s = timestamp_text(t);
    assert(s == a + seq!['-'] + b + seq!['-'] + c + seq!['T'] + e + seq![':'] + f + seq![':'] + g
        + seq!['Z']);
    assert(s.len() == 20);
    assert(s.subrange(0, 4) =~= a);
    assert(s.subrange(5, 7) =~= b);
    assert(s.subrange(8, 10) =~= c);
    assert(s.subrange(11, 13) =~= e);
    assert(s.subrange(14, 16) =~= f);
    assert(s.subrange(17, 19) =~= g);
    assert(s[4] == '-' && s[7] == '-' && s[10] == 'T' && s[13] == ':' && s[16] == ':' && s[19]
        == 'Z');
    assert(timestamp_shape(s));
    assert(field(s, 0, 4) == y && field(s, 5, 7) == m && field(s, 8, 10) == d);
    assert(field(s, 11, 13) == h && field(s, 14, 16) == mi && field(s, 17, 19) == sc);
    assert(timestamp_fields_valid(s));
    assert(h * 3600 + mi * 60 + sc == secs);
}

/// A text that reads as a moment is the text that moment is written as.
#[verifier::spinoff_prover]
#[verifier::rlimit(40)]
pub proof fn law_read_moment_writes_back(s: Seq<char>)
    requires
        parse_timestamp(s) is Some,
    ensures
        timestamp_text(parse_timestamp(s)->0) == s,
{
    let y = field(s, 0, 4);
    let m = field(s, 5, 7);
    let d = field(s, 8, 10);
    let h = field(s, 11, 13);
    let mi = field(s, 14, 16);
    let sc = field(s, 17, 19);
    lemma_digits_bound(s.subrange(0, 4));
    lemma_digits_bound(s.subrange(5, 7));
    lemma_digits_bound(s.subrange(8, 10));
    lemma_digits_bound(s.subrange(11, 13));
    lemma_digits_bound(s.subrange(14, 16));
    lemma_digits_bound(s.subrange(17, 19));
    law_a_date_counts_to_a_day_and_back(y, m, d);
    let days = days_from_civil(y, m, d);
    let secs = h * 3600 + mi * 60 + sc;
    let t = days * DAY as int + secs;
    assert(parse_timestamp(s) == Some(t));
    assert(0 <= secs < 86400);
    assert(t / DAY as int == days);
    assert(t % DAY as int == secs);
    assert(secs / 3600 == h);
    assert(secs % 3600 / 60 == mi);
    assert(secs % 60 == sc);
    lemma_padded_of_digits(s.subrange(0, 4));
    lemma_padded_of_digits(s.subrange(5, 7));
    lemma_padded_of_digits(s.subrange(8, 10));
    lemma_padded_of_digits(s.subrange(11, 13));
    lemma_padded_of_digits(s.subrange(14, 16));
    lemma_padded_of_digits(s.subrange(17, 19));
    assert(padded_int(y, 4) == s.subrange(0, 4));
    assert(timestamp_text(t) =~= s);
}

} // verus!
