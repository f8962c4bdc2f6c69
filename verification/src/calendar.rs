//! Civil (proleptic Gregorian) dates from day counts, and the ISO-8601
//! timestamp the tuner records.

use vstd::prelude::*;
use vstd::arithmetic::div_mod::{lemma_fundamental_div_mod, lemma_fundamental_div_mod_converse};
use crate::fmt::{decimal, push_decimal_padded, zero_pad};
use crate::sys::unix_secs;

verus! {

/// Days in a 400-year Gregorian era.
pub const DAYS_PER_ERA: i64 = 146097;

/// Days from 0000-03-01 to 1970-01-01.
pub const EPOCH_SHIFT: i64 = 719468;

/// Gregorian leap years: divisible by 4, and not by 100 unless by 400.
pub open spec fn is_leap_year(y: int) -> bool {
    y % 4 == 0 && (y % 100 != 0 || y % 400 == 0)
}

/// Number of days of month `m` (1-12) of year `y`.
pub open spec fn month_length(y: int, m: int) -> int {
    if m == 2 {
        if is_leap_year(y) { 29 } else { 28 }
    } else if m == 4 || m == 6 || m == 9 || m == 11 {
        30
    } else {
        31
    }
}

/// Days of year `y` before the first of month `m` (1-12).
pub open spec fn days_before_month(y: int, m: int) -> int {
    let common: int = if m <= 1 {
        0
    } else if m == 2 {
        31
    } else if m == 3 {
        59
    } else if m == 4 {
        90
    } else if m == 5 {
        120
    } else if m == 6 {
        151
    } else if m == 7 {
        181
    } else if m == 8 {
        212
    } else if m == 9 {
        243
    } else if m == 10 {
        273
    } else if m == 11 {
        304
    } else {
        334
    };
    common + if m > 2 && is_leap_year(y) { 1int } else { 0int }
}

/// Leap years among the years 1 through `p` (for `p <= 0`, minus those
/// among `p + 1` through 0).
pub open spec fn leaps_through(p: int) -> int {
    p / 4 - p / 100 + p / 400
}

/// Days from 1970-01-01 to the date `d` of month `m` of year `y`
/// (negative before it).
pub open spec fn days_from_civil(y: int, m: int, d: int) -> int {
    365 * (y - 1970) + leaps_through(y - 1) - leaps_through(1969) + days_before_month(y, m) + d - 1
}

/// A date: a month 1-12 and a day of that month.
pub open spec fn valid_date(y: int, m: int, d: int) -> bool {
    1 <= m <= 12 && 1 <= d <= month_length(y, m)
}

/// The date `days` days after 1970-01-01 (before it when negative).
pub open spec fn civil_date(days: int) -> (int, int, int) {
    choose|t: (int, int, int)| valid_date(t.0, t.1, t.2) && days_from_civil(t.0, t.1, t.2) == days
}

/// `x / k` goes up by one exactly where `x` reaches a multiple of `k`.
proof fn lemma_div_step(x: int, k: int)
    requires
        k > 0,
    ensures
        (x + 1) / k - x / k == if (x + 1) % k == 0 { 1int } else { 0int },
{
    lemma_fundamental_div_mod(x, k);
    lemma_fundamental_div_mod(x + 1, k);
    let q = x / k;
    let r = x % k;
    if r == k - 1 {
        assert(x + 1 == (q + 1) * k + 0) by (nonlinear_arith)
            requires
                x == k * q + r,
                r == k - 1,
        ;
        lemma_fundamental_div_mod_converse(x + 1, k, q + 1, 0);
    } else {
        assert(x + 1 == q * k + (r + 1)) by (nonlinear_arith)
            requires
                x == k * q + r,
        ;
        lemma_fundamental_div_mod_converse(x + 1, k, q, r + 1);
    }
}

/// Each year adds a leap year to the count exactly when it is one.
proof fn lemma_leaps_step(p: int)
    ensures
        leaps_through(p + 1) - leaps_through(p) == if is_leap_year(p + 1) { 1int } else { 0int },
{
    lemma_div_step(p, 4);
    lemma_div_step(p, 100);
    lemma_div_step(p, 400);
    lemma_fundamental_div_mod(p + 1, 4);
    lemma_fundamental_div_mod(p + 1, 100);
    lemma_fundamental_div_mod(p + 1, 400);
    if (p + 1) % 100 == 0 {
        let k = (p + 1) / 100;
        lemma_fundamental_div_mod_converse(p + 1, 4, 25 * k, 0);
    }
    if (p + 1) % 400 == 0 {
        let k = (p + 1) / 400;
        lemma_fundamental_div_mod_converse(p + 1, 100, 4 * k, 0);
    }
}

/// The leap-year count never decreases.
proof fn lemma_leaps_monotonic(a: int, b: int)
    requires
        a <= b,
    ensures
        leaps_through(a) <= leaps_through(b),
    decreases b - a,
{
    if a < b {
        lemma_leaps_step(b - 1);
        lemma_leaps_monotonic(a, b - 1);
    }
}

/// The leap-year count at a year given by its era, century, four-year
/// cycle and year of the cycle.
proof fn lemma_leaps_decomposed(era: int, c: int, q: int, yy: int)
    requires
        0 <= c <= 3,
        0 <= q <= 24,
        0 <= yy <= 3,
    ensures
        leaps_through(400 * era + 100 * c + 4 * q + yy) == 97 * era + 24 * c + q,
{
    let y = 400 * era + 100 * c + 4 * q + yy;
    lemma_fundamental_div_mod_converse(y, 4, 100 * era + 25 * c + q, yy);
    lemma_fundamental_div_mod_converse(y, 100, 4 * era + c, 4 * q + yy);
    lemma_fundamental_div_mod_converse(y, 400, era, 100 * c + 4 * q + yy);
}

/// The date a day of a March-based year `y0` (day 0 = March 1) falls on.
pub open spec fn date_in_march_year(y0: int, doy: int) -> (int, int, int) {
    let mp = (5 * doy + 2) / 153;
    let d = doy - (153 * mp + 2) / 5 + 1;
    let m = if mp < 10 { mp + 3 } else { mp - 9 };
    (y0 + if m <= 2 { 1int } else { 0int }, m, d)
}

/// Day `doy` of the March-based year `y0`, when within its length, is a
/// valid date whose day count from 0000-03-01 is the start of `y0` plus
/// `doy`.
proof fn lemma_date_in_march_year(y0: int, doy: int)
    requires
        0 <= doy <= 365,
        doy == 365 ==> is_leap_year(y0 + 1),
    ensures
        valid_date(date_in_march_year(y0, doy).0, date_in_march_year(y0, doy).1, date_in_march_year(y0, doy).2),
        days_from_civil(date_in_march_year(y0, doy).0, date_in_march_year(y0, doy).1, date_in_march_year(y0, doy).2)
            + 719468 == 365 * y0 + leaps_through(y0) + doy,
{
    let mp = (5 * doy + 2) / 153;
    lemma_fundamental_div_mod(5 * doy + 2, 153);
    assert(0 <= mp <= 11);
    let start = (153 * mp + 2) / 5;
    lemma_fundamental_div_mod(153 * mp + 2, 5);
    let next = (153 * (mp + 1) + 2) / 5;
    lemma_fundamental_div_mod(153 * (mp + 1) + 2, 5);
    assert(start <= doy < next);
    let d = doy - start + 1;
    let (y, m, dd) = date_in_march_year(y0, doy);
    assert(dd == d);
    lemma_leaps_step(y0);
    assert(start == 0 || start == 31 || start == 61 || start == 92 || start == 122 || start == 153 || start == 184
        || start == 214 || start == 245 || start == 275 || start == 306 || start == 337);
    if mp == 0 { assert(start == 0 && next == 31); }
    if mp == 1 { assert(start == 31 && next == 61); }
    if mp == 2 { assert(start == 61 && next == 92); }
    if mp == 3 { assert(start == 92 && next == 122); }
    if mp == 4 { assert(start == 122 && next == 153); }
    if mp == 5 { assert(start == 153 && next == 184); }
    if mp == 6 { assert(start == 184 && next == 214); }
    if mp == 7 { assert(start == 214 && next == 245); }
    if mp == 8 { assert(start == 245 && next == 275); }
    if mp == 9 { assert(start == 275 && next == 306); }
    if mp == 10 { assert(start == 306 && next == 337); }
    if mp == 11 { assert(start == 337 && next == 367); }
    if mp < 10 {
        assert(y == y0);
        assert(leaps_through(y - 1) == leaps_through(y0) - if is_leap_year(y0) { 1int } else { 0int }) by {
            lemma_leaps_step(y0 - 1);
        }
    } else {
        assert(y == y0 + 1);
    }
}

/// The March-based year and day of year that `z` days after 0000-03-01
/// fall on, through the 400-year era, the century (the fourth one a day
/// longer), the four-year cycle and the year of the cycle (the fourth one a
/// day longer).
pub open spec fn march_year_of(z: int) -> (int, int) {
    let era = z / 146097;
    let doe = z - era * 146097;
    let c = if doe / 36524 < 3 { doe / 36524 } else { 3 };
    let r1 = doe - 36524 * c;
    let q = r1 / 1461;
    let r2 = r1 - 1461 * q;
    let yy = if r2 / 365 < 3 { r2 / 365 } else { 3 };
    (400 * era + 100 * c + 4 * q + yy, r2 - 365 * yy)
}

/// The decomposition lands on a day within its March-based year, and that
/// year starts `z` minus the day of year after 0000-03-01.
proof fn lemma_march_year_of(z: int)
    ensures
        0 <= march_year_of(z).1 <= 365,
        march_year_of(z).1 == 365 ==> is_leap_year(march_year_of(z).0 + 1),
        365 * march_year_of(z).0 + leaps_through(march_year_of(z).0) + march_year_of(z).1 == z,
{
    let era = z / 146097;
    lemma_fundamental_div_mod(z, 146097);
    let doe = z - era * 146097;
    assert(0 <= doe < 146097);
    lemma_fundamental_div_mod(doe, 36524);
    let c = if doe / 36524 < 3 { doe / 36524 } else { 3 };
    let r1 = doe - 36524 * c;
    assert(0 <= r1 <= 36524);
    assert(r1 == 36524 ==> c == 3);
    lemma_fundamental_div_mod(r1, 1461);
    let q = r1 / 1461;
    assert(0 <= q <= 24);
    let r2 = r1 - 1461 * q;
    assert(0 <= r2 < 1461);
    lemma_fundamental_div_mod(r2, 365);
    let yy = if r2 / 365 < 3 { r2 / 365 } else { 3 };
    let doy = r2 - 365 * yy;
    assert(0 <= doy <= 365);
    let y0 = 400 * era + 100 * c + 4 * q + yy;
    lemma_leaps_decomposed(era, c, q, yy);
    if doy == 365 {
        assert(yy == 3 && r2 == 1460);
        let y1 = y0 + 1;
        if q == 24 {
            assert(r1 == 36524);
            assert(c == 3);
            lemma_fundamental_div_mod_converse(y1, 400, era + 1, 0);
            lemma_fundamental_div_mod_converse(y1, 4, 100 * (era + 1), 0);
        } else {
            lemma_fundamental_div_mod_converse(y1, 4, 100 * era + 25 * c + q + 1, 0);
            lemma_fundamental_div_mod_converse(y1, 100, 4 * era + c, 4 * q + 4);
        }
    }
}

/// The date `days` days after 1970-01-01, computed from its March-based
/// year and day of year.
pub open spec fn computed_date(days: int) -> (int, int, int) {
    let (y0, doy) = march_year_of(days + 719468);
    date_in_march_year(y0, doy)
}

/// Valid dates with equal day counts are the same date.
pub proof fn lemma_civil_dates_are_unique(y1: int, m1: int, d1: int, y2: int, m2: int, d2: int)
    requires
        valid_date(y1, m1, d1),
        valid_date(y2, m2, d2),
        days_from_civil(y1, m1, d1) == days_from_civil(y2, m2, d2),
    ensures
        y1 == y2 && m1 == m2 && d1 == d2,
{
    if y1 < y2 {
        lemma_date_before_next_year(y1, m1, d1);
        lemma_leaps_monotonic(y1, y2 - 1);
        assert(false);
    } else if y2 < y1 {
        lemma_date_before_next_year(y2, m2, d2);
        lemma_leaps_monotonic(y2, y1 - 1);
        assert(false);
    } else {
        if m1 < m2 {
            assert(days_before_month(y1, m1) + month_length(y1, m1) <= days_before_month(y1, m2));
        } else if m2 < m1 {
            assert(days_before_month(y1, m2) + month_length(y1, m2) <= days_before_month(y1, m1));
        }
    }
}

/// A date's day count is below that of January 1 of the next year.
proof fn lemma_date_before_next_year(y: int, m: int, d: int)
    requires
        valid_date(y, m, d),
    ensures
        days_from_civil(y, m, d) < days_from_civil(y + 1, 1, 1),
{
    lemma_leaps_step(y - 1);
    assert(days_before_month(y, m) + month_length(y, m) <= 365 + if is_leap_year(y) { 1int } else { 0int });
}

/// The computed date is the date `days` days after 1970-01-01.
pub proof fn lemma_computed_date(days: int)
    ensures
        valid_date(computed_date(days).0, computed_date(days).1, computed_date(days).2),
        days_from_civil(computed_date(days).0, computed_date(days).1, computed_date(days).2) == days,
        computed_date(days) == civil_date(days),
{
    let z = days + 719468;
    lemma_march_year_of(z);
    let (y0, doy) = march_year_of(z);
    lemma_date_in_march_year(y0, doy);
    let t = computed_date(days);
    assert(valid_date(t.0, t.1, t.2) && days_from_civil(t.0, t.1, t.2) == days);
    let u = civil_date(days);
    lemma_civil_dates_are_unique(t.0, t.1, t.2, u.0, u.1, u.2);
}

/// For `z < 0`, rounding `(z - (d - 1)) / d` toward zero rounds `z / d`
/// down.
proof fn lemma_floor_div_negative(z: int, d: int)
    requires
        d > 0,
        z < 0,
    ensures
        -((d - 1 - z) / d) == z / d,
{
    let w = d - 1 - z;
    lemma_fundamental_div_mod(w, d);
    let q = w / d;
    let r = w % d;
    assert(z == (-q) * d + (d - 1 - r)) by (nonlinear_arith)
        requires
            w == d * q + r,
            w == d - 1 - z,
    ;
    lemma_fundamental_div_mod_converse(z, d, -q, d - 1 - r);
}

/// Convert days since 1970-01-01 to (year, month, day) in the proleptic
/// Gregorian calendar.
#[verifier::spinoff_prover]
#[verifier::rlimit(40)]
pub fn civil_from_days(days: i64) -> (r: (i64, u32, u32))
    requires
        days <= 9223372036854056339,
    ensures
        valid_date(r.0 as int, r.1 as int, r.2 as int),
        days_from_civil(r.0 as int, r.1 as int, r.2 as int) == days,
        (r.0 as int, r.1 as int, r.2 as int) == civil_date(days as int),
        days >= 0 ==> r.0 >= 1970,
{
    let z = days + EPOCH_SHIFT;
    let era = if z >= 0 {
        z / DAYS_PER_ERA
    } else {
        let w = DAYS_PER_ERA - 1 - z;
        let q = w / DAYS_PER_ERA;
        proof {
            lemma_floor_div_negative(z as int, 146097);
        }
        -q
    };
    proof {
        lemma_fundamental_div_mod(z as int, 146097);
        assert(era == (z as int) / 146097);
        assert(-63131837319416 <= era <= 63131837319416) by (nonlinear_arith)
            requires
                era == (z as int) / 146097,
                i64::MIN + 719468 <= z <= i64::MAX,
        ;
    }
    let doe = z - era * DAYS_PER_ERA;
    let c0 = doe / 36524;
    let c = if c0 < 3 { c0 } else { 3 };
    let r1 = doe - 36524 * c;
    let q = r1 / 1461;
    let r2 = r1 - 1461 * q;
    let yy0 = r2 / 365;
    let yy = if yy0 < 3 { yy0 } else { 3 };
    let doy = r2 - 365 * yy;
    proof {
        lemma_march_year_of(z as int);
        lemma_fundamental_div_mod(doe as int, 36524);
        lemma_fundamental_div_mod(r1 as int, 1461);
        lemma_fundamental_div_mod(r2 as int, 365);
    }
    let mp = (5 * doy + 2) / 153;
    let d = doy - (153 * mp + 2) / 5 + 1;
    let m = if mp < 10 { mp + 3 } else { mp - 9 };
    let y0 = era * 400 + 100 * c + 4 * q + yy;
    let y = if m <= 2 { y0 + 1 } else { y0 };
    proof {
        lemma_computed_date(days as int);
        let t = computed_date(days as int);
        assert(t.0 == y && t.1 == m && t.2 == d);
        if days >= 0 {
            if y < 1970 {
                lemma_date_before_next_year(y as int, m as int, d as int);
                lemma_leaps_monotonic(y as int, 1969);
            }
        }
    }
    (y, m as u32, d as u32)
}

/// The ISO-8601 UTC timestamp (`YYYY-MM-DDTHH:MM:SSZ`) of `secs` seconds
/// after the Unix epoch.
pub open spec fn iso8601_of(secs: u64) -> Seq<char> {
    let days = secs / 86400;
    let rem = secs % 86400;
    let (y, m, d) = civil_date(days as int);
    zero_pad(decimal(y as nat), 4) + "-"@ + zero_pad(decimal(m as nat), 2) + "-"@ + zero_pad(decimal(d as nat), 2) + "T"@
        + zero_pad(decimal((rem / 3600) as nat), 2) + ":"@ + zero_pad(decimal(((rem % 3600) / 60) as nat), 2) + ":"@
        + zero_pad(decimal((rem % 60) as nat), 2) + "Z"@
}

/// Format `secs` seconds after the Unix epoch as an ISO-8601 UTC
/// timestamp.
pub fn iso8601_at(secs: u64) -> (s: String)
    ensures
        s@ == iso8601_of(secs),
{
    let days = secs / 86400;
    let remaining = secs % 86400;
    let hours = remaining / 3600;
    let minutes = (remaining % 3600) / 60;
    let seconds = remaining % 60;
    let (year, month, day) = civil_from_days(days as i64);
    let mut s = String::new();
    push_decimal_padded(&mut s, year as u64, 4);
    s.append("-");
    push_decimal_padded(&mut s, month as u64, 2);
    s.append("-");
    push_decimal_padded(&mut s, day as u64, 2);
    s.append("T");
    push_decimal_padded(&mut s, hours, 2);
    s.append(":");
    push_decimal_padded(&mut s, minutes, 2);
    s.append(":");
    push_decimal_padded(&mut s, seconds, 2);
    s.append("Z");
    s
}

/// The current time as an ISO-8601 UTC timestamp.
pub fn now_iso8601() -> (s: String)
    ensures
        exists|secs: u64| s@ == iso8601_of(secs),
{
    iso8601_at(unix_secs())
}

} // verus!
