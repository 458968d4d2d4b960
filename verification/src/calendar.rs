//! Proleptic Gregorian calendar arithmetic on UTC epoch seconds.
//!
//! Timestamps are unsigned epoch seconds.  Every function here works on years
//! 1970 through 9999; `MAX_EPOCH` is the first second of year 10000, the
//! first timestamp whose year no longer fits four decimal digits.

use vstd::prelude::*;

verus! {

pub const SECS_PER_MINUTE: u64 = 60;

pub const SECS_PER_HOUR: u64 = 3600;

pub const SECS_PER_DAY: u64 = 86400;

/// The first epoch second of year 10000.
pub const MAX_EPOCH: u64 = 253402300800;

/// Days from 1970-01-01 to 10000-01-01.
pub const MAX_DAY_NUMBER: u64 = 2932897;

/// A timestamp broken into its UTC calendar parts.
#[derive(Clone, Copy, Debug, PartialEq, Eq, Structural)]
pub struct DateParts {
    pub year: u64,
    pub month: u64,
    pub day: u64,
    pub hour: u64,
    pub minute: u64,
    pub second: u64,
}

pub open spec fn is_leap_year(y: int) -> bool {
    (y % 4 == 0 && y % 100 != 0) || y % 400 == 0
}

pub open spec fn spec_days_in_year(y: int) -> int {
    if is_leap_year(y) {
        366
    } else {
        365
    }
}

pub open spec fn spec_days_in_month(y: int, m: int) -> int {
    if m == 2 {
        if is_leap_year(y) {
            29
        } else {
            28
        }
    } else if m == 4 || m == 6 || m == 9 || m == 11 {
        30
    } else {
        31
    }
}

/// Days from 1970-01-01 to the first day of year `y`.
pub open spec fn days_before_year(y: int) -> int
    decreases y,
{
    if y <= 1970 {
        0
    } else {
        days_before_year(y - 1) + spec_days_in_year(y - 1)
    }
}

/// Days from the first day of year `y` to the first day of its month `m`.
pub open spec fn days_before_month(y: int, m: int) -> int
    decreases m,
{
    if m <= 1 {
        0
    } else {
        days_before_month(y, m - 1) + spec_days_in_month(y, m - 1)
    }
}

/// Days from 1970-01-01 to the civil date (y, m, d).
pub open spec fn spec_day_number(y: int, m: int, d: int) -> int {
    days_before_year(y) + days_before_month(y, m) + d - 1
}

pub open spec fn valid_parts(p: DateParts) -> bool {
    &&& 1970 <= p.year < 10000
    &&& 1 <= p.month <= 12
    &&& 1 <= p.day <= spec_days_in_month(p.year as int, p.month as int)
    &&& p.hour < 24
    &&& p.minute < 60
    &&& p.second < 60
}

/// The epoch second of a set of calendar parts.
pub open spec fn spec_epoch_of_parts(p: DateParts) -> int {
    spec_day_number(p.year as int, p.month as int, p.day as int) * 86400 + p.hour * 3600
        + p.minute * 60 + p.second
}

/// Walks year by year from `y` until the remaining day count `d` falls
/// inside one year; yields that year and the days left over.
pub open spec fn spec_find_year(y: int, d: int) -> (int, int)
    decreases d,
{
    if d < spec_days_in_year(y) || d < 0 {
        (y, d)
    } else {
        spec_find_year(y + 1, d - spec_days_in_year(y))
    }
}

/// Walks month by month inside year `y` from month `m` until the remaining
/// day count `d` falls inside one month; yields that month and the days left.
pub open spec fn spec_find_month(y: int, m: int, d: int) -> (int, int)
    decreases 12 - m,
{
    if m >= 12 || d < spec_days_in_month(y, m) {
        (m, d)
    } else {
        spec_find_month(y, m + 1, d - spec_days_in_month(y, m))
    }
}

/// The calendar parts of an epoch second.
pub open spec fn spec_parts_of_epoch(t: int) -> DateParts {
    let days = t / 86400;
    let sod = t % 86400;
    let yr = spec_find_year(1970, days);
    let mr = spec_find_month(yr.0, 1, yr.1);
    DateParts {
        year: yr.0 as u64,
        month: mr.0 as u64,
        day: (mr.1 + 1) as u64,
        hour: (sod / 3600) as u64,
        minute: (sod % 3600 / 60) as u64,
        second: (sod % 60) as u64,
    }
}

pub proof fn lemma_days_before_year_mono(y1: int, y2: int)
    requires
        1970 <= y1 <= y2,
    ensures
        days_before_year(y1) <= days_before_year(y2),
        y1 < y2 ==> days_before_year(y1) + spec_days_in_year(y1) <= days_before_year(y2),
    decreases y2 - y1,
{
    if y1 < y2 {
        lemma_days_before_year_mono(y1, y2 - 1);
    }
}

pub proof fn lemma_days_before_year_bound(y: int)
    requires
        1970 <= y,
    ensures
        365 * (y - 1970) <= days_before_year(y) <= 366 * (y - 1970),
    decreases y,
{
    if y > 1970 {
        lemma_days_before_year_bound(y - 1);
    }
}

pub proof fn lemma_days_before_month_mono(y: int, m1: int, m2: int)
    requires
        1 <= m1 <= m2,
    ensures
        days_before_month(y, m1) <= days_before_month(y, m2),
        m1 < m2 ==> days_before_month(y, m1) + spec_days_in_month(y, m1) <= days_before_month(
            y,
            m2,
        ),
    decreases m2 - m1,
{
    if m1 < m2 {
        lemma_days_before_month_mono(y, m1, m2 - 1);
    }
}

/// The twelve months of a year sum to its day count.
pub proof fn lemma_days_before_month_full(y: int)
    ensures
        days_before_month(y, 13) == spec_days_in_year(y),
{
    assert(days_before_month(y, 2) == days_before_month(y, 1) + spec_days_in_month(y, 1));
    assert(days_before_month(y, 3) == days_before_month(y, 2) + spec_days_in_month(y, 2));
    assert(days_before_month(y, 4) == days_before_month(y, 3) + spec_days_in_month(y, 3));
    assert(days_before_month(y, 5) == days_before_month(y, 4) + spec_days_in_month(y, 4));
    assert(days_before_month(y, 6) == days_before_month(y, 5) + spec_days_in_month(y, 5));
    assert(days_before_month(y, 7) == days_before_month(y, 6) + spec_days_in_month(y, 6));
    assert(days_before_month(y, 8) == days_before_month(y, 7) + spec_days_in_month(y, 7));
    assert(days_before_month(y, 9) == days_before_month(y, 8) + spec_days_in_month(y, 8));
    assert(days_before_month(y, 10) == days_before_month(y, 9) + spec_days_in_month(y, 9));
    assert(days_before_month(y, 11) == days_before_month(y, 10) + spec_days_in_month(y, 10));
    assert(days_before_month(y, 12) == days_before_month(y, 11) + spec_days_in_month(y, 11));
    assert(days_before_month(y, 13) == days_before_month(y, 12) + spec_days_in_month(y, 12));
}

/// A valid civil date sits inside its own year's day count.
pub proof fn lemma_day_in_year(y: int, m: int, d: int)
    requires
        1 <= m <= 12,
        1 <= d <= spec_days_in_month(y, m),
    ensures
        0 <= days_before_month(y, m) + d - 1 < spec_days_in_year(y),
{
    lemma_days_before_month_mono(y, 1, m);
    lemma_days_before_month_mono(y, m, 12);
    lemma_days_before_month_full(y);
    if m < 12 {
        lemma_days_before_month_mono(y, m + 1, 13);
    } else {
        assert(days_before_month(y, 13) == days_before_month(y, 12) + spec_days_in_month(y, 12));
    }
}

/// Stepping a numerator down by one drops the quotient exactly on multiples.
proof fn lemma_div_step(n: int, k: int)
    requires
        n >= 1,
        k >= 1,
    ensures
        n / k == (n - 1) / k + if n % k == 0 {
            1int
        } else {
            0int
        },
{
    let q = n / k;
    let r = n % k;
    vstd::arithmetic::div_mod::lemma_fundamental_div_mod(n, k);
    vstd::arithmetic::div_mod::lemma_mod_division_less_than_divisor(n, k);
    if r == 0 {
        assert(n - 1 == (q - 1) * k + (k - 1)) by (nonlinear_arith)
            requires
                n == k * q,
        ;
        vstd::arithmetic::div_mod::lemma_fundamental_div_mod_converse(n - 1, k, q - 1, k - 1);
    } else {
        assert(n - 1 == q * k + (r - 1)) by (nonlinear_arith)
            requires
                n == k * q + r,
        ;
        vstd::arithmetic::div_mod::lemma_fundamental_div_mod_converse(n - 1, k, q, r - 1);
    }
}

/// A multiple of 400 is a multiple of 100, and a multiple of 100 one of 4.
proof fn lemma_mod_coarsen(y: int, a: int, b: int)
    requires
        y % (a * b) == 0,
        a >= 1,
        b >= 1,
    ensures
        y % a == 0,
{
    assert(a * b >= 1) by (nonlinear_arith)
        requires
            a >= 1,
            b >= 1,
    ;
    let q = y / (a * b);
    vstd::arithmetic::div_mod::lemma_fundamental_div_mod(y, a * b);
    assert(y == (a * b) * q);
    assert(y == (b * q) * a + 0) by (nonlinear_arith)
        requires
            y == (a * b) * q,
    ;
    vstd::arithmetic::div_mod::lemma_fundamental_div_mod_converse(y, a, b * q, 0);
}

/// Closed form for the day count: 365 days a year plus one for each leap
/// year since 1970, counted through quotients.
proof fn lemma_days_before_year_closed(y: int)
    requires
        1970 <= y,
    ensures
        days_before_year(y) == 365 * (y - 1970) + ((y - 1) / 4 - (y - 1) / 100 + (y - 1) / 400)
            - 477,
    decreases y,
{
    if y == 1970 {
        assert(1969int / 4 == 492 && 1969int / 100 == 19 && 1969int / 400 == 4);
    } else {
        lemma_days_before_year_closed(y - 1);
        lemma_div_step(y - 1, 4);
        lemma_div_step(y - 1, 100);
        lemma_div_step(y - 1, 400);
        if (y - 1) % 400 == 0 {
            lemma_mod_coarsen(y - 1, 100, 4);
            lemma_mod_coarsen(y - 1, 4, 100);
        }
        if (y - 1) % 100 == 0 {
            lemma_mod_coarsen(y - 1, 4, 25);
        }
    }
}

/// Day count from 1970 to year 10000.
pub proof fn lemma_max_day_number()
    ensures
        days_before_year(10000) == 2932897,
{
    lemma_days_before_year_closed(10000);
    assert(9999int / 4 == 2499 && 9999int / 100 == 99 && 9999int / 400 == 24);
}

/// The day number of a valid date determines and is determined by the date:
/// the year/month walk starting at 1970 recovers (y, m, d).
pub proof fn lemma_find_year_of_day_number(y0: int, y: int, rem: int)
    requires
        1970 <= y0 <= y,
        0 <= rem < spec_days_in_year(y),
    ensures
        spec_find_year(y0, days_before_year(y) - days_before_year(y0) + rem) == (y, rem),
    decreases y - y0,
{
    if y0 == y {
    } else {
        lemma_days_before_year_mono(y0 + 1, y);
        lemma_find_year_of_day_number(y0 + 1, y, rem);
    }
}

pub proof fn lemma_find_month_of_day_number(y: int, m0: int, m: int, rem: int)
    requires
        1 <= m0 <= m <= 12,
        0 <= rem < spec_days_in_month(y, m),
    ensures
        spec_find_month(y, m0, days_before_month(y, m) - days_before_month(y, m0) + rem) == (
            m,
            rem,
        ),
    decreases m - m0,
{
    if m0 == m {
    } else {
        lemma_days_before_month_mono(y, m0 + 1, m);
        lemma_find_month_of_day_number(y, m0 + 1, m, rem);
    }
}

/// Splitting an epoch second built from valid parts gives those parts back.
pub proof fn lemma_parts_of_epoch_of_parts(p: DateParts)
    requires
        valid_parts(p),
    ensures
        spec_parts_of_epoch(spec_epoch_of_parts(p)) == p,
{
    let y = p.year as int;
    let m = p.month as int;
    let d = p.day as int;
    let dn = spec_day_number(y, m, d);
    let sod = p.hour * 3600 + p.minute * 60 + p.second;
    let t = spec_epoch_of_parts(p);
    lemma_day_in_year(y, m, d);
    assert(0 <= dn) by {
        lemma_days_before_year_mono(1970, y);
    }
    assert(t == dn * 86400 + sod);
    assert(0 <= sod < 86400);
    assert(t / 86400 == dn && t % 86400 == sod) by (nonlinear_arith)
        requires
            t == dn * 86400 + sod,
            0 <= sod < 86400,
            0 <= dn,
    ;
    assert(sod / 3600 == p.hour && sod % 3600 == p.minute * 60 + p.second) by (nonlinear_arith)
        requires
            sod == p.hour * 3600 + p.minute * 60 + p.second,
            p.minute < 60,
            p.second < 60,
    ;
    assert((p.minute * 60 + p.second) / 60 == p.minute && (p.minute * 60 + p.second) % 60
        == p.second) by (nonlinear_arith)
        requires
            p.second < 60,
    ;
    let in_year = days_before_month(y, m) + d - 1;
    lemma_find_year_of_day_number(1970, y, in_year);
    assert(spec_find_year(1970, dn) == (y, in_year));
    lemma_find_month_of_day_number(y, 1, m, d - 1);
    assert(spec_find_month(y, 1, in_year) == (m, d - 1));
}

fn days_in_year(y: u64) -> (r: u64)
    ensures
        r == spec_days_in_year(y as int),
{
    if (y % 4 == 0 && y % 100 != 0) || y % 400 == 0 {
        366
    } else {
        365
    }
}

/// The number of days in the given month of the given year.
pub fn days_in_month(y: u64, m: u64) -> (r: u64)
    requires
        1 <= m <= 12,
    ensures
        r == spec_days_in_month(y as int, m as int),
{
    if m == 2 {
        if (y % 4 == 0 && y % 100 != 0) || y % 400 == 0 {
            29
        } else {
            28
        }
    } else if m == 4 || m == 6 || m == 9 || m == 11 {
        30
    } else {
        31
    }
}

/// Breaks an epoch second into its UTC calendar parts.
pub fn epoch_to_parts(t: u64) -> (p: DateParts)
    requires
        t < MAX_EPOCH,
    ensures
        p == spec_parts_of_epoch(t as int),
        valid_parts(p),
        spec_epoch_of_parts(p) == t,
{
    let days: u64 = t / 86400;
    let sod: u64 = t % 86400;
    proof {
        lemma_max_day_number();
        assert(days < 2932897);
    }

    let mut year: u64 = 1970;
    let mut d: u64 = days;
    loop
        invariant
            1970 <= year < 10000,
            days_before_year(year as int) + d == days,
            days < 2932897,
            days_before_year(10000) == 2932897,
            spec_find_year(1970, days as int) == spec_find_year(year as int, d as int),
        ensures
            1970 <= year < 10000,
            days_before_year(year as int) + d == days,
            d < spec_days_in_year(year as int),
            spec_find_year(1970, days as int) == spec_find_year(year as int, d as int),
        decreases d,
    {
        let diy = days_in_year(year);
        if d < diy {
            break ;
        }
        proof {
            lemma_days_before_year_mono(1970, year as int);
            if year as int + 1 >= 10000 {
                lemma_days_before_year_mono(10000, year as int + 1);
                assert(false);
            }
        }
        d = d - diy;
        year = year + 1;
    }
    proof {
        assert(spec_find_year(year as int, d as int) == (year as int, d as int));
    }

    let mut month: u64 = 1;
    let mut rem: u64 = d;
    loop
        invariant
            1 <= month <= 12,
            1970 <= year < 10000,
            days_before_month(year as int, month as int) + rem == d,
            d < spec_days_in_year(year as int),
            spec_find_month(year as int, 1, d as int) == spec_find_month(
                year as int,
                month as int,
                rem as int,
            ),
        ensures
            1 <= month <= 12,
            days_before_month(year as int, month as int) + rem == d,
            d < spec_days_in_year(year as int),
            rem < spec_days_in_month(year as int, month as int),
            spec_find_month(year as int, 1, d as int) == spec_find_month(
                year as int,
                month as int,
                rem as int,
            ),
        decreases 12 - month,
    {
        let dim = days_in_month(year, month);
        if rem < dim {
            break ;
        }
        proof {
            if month as int + 1 > 12 {
                lemma_days_before_month_full(year as int);
                assert(days_before_month(year as int, 13) == days_before_month(year as int, 12)
                    + spec_days_in_month(year as int, 12));
                assert(false);
            }
        }
        rem = rem - dim;
        month = month + 1;
    }
    proof {
        assert(spec_find_month(year as int, month as int, rem as int) == (
            month as int,
            rem as int,
        ));
    }

    let p = DateParts {
        year,
        month,
        day: rem + 1,
        hour: sod / 3600,
        minute: sod % 3600 / 60,
        second: sod % 60,
    };
    proof {
        assert(p == spec_parts_of_epoch(t as int));
        lemma_days_before_year_mono(1970, year as int);
        lemma_days_before_month_mono(year as int, 1, month as int);
        assert(spec_epoch_of_parts(p) == t) by (nonlinear_arith)
            requires
                p.year == year,
                p.month == month,
                p.day == rem + 1,
                p.hour == sod / 3600,
                p.minute == sod % 3600 / 60,
                p.second == sod % 60,
                sod == t % 86400,
                days == t as int / 86400,
                t >= 0,
                sod < 86400,
                spec_day_number(year as int, month as int, rem + 1 as int) == days,
        ;
    }
    p
}

/// Rebuilds the epoch second of a set of valid calendar parts.
pub fn parts_to_epoch(p: DateParts) -> (t: u64)
    requires
        valid_parts(p),
    ensures
        t == spec_epoch_of_parts(p),
        t < MAX_EPOCH,
{
    let mut year: u64 = 1970;
    let mut days: u64 = 0;
    while year < p.year
        invariant
            1970 <= year <= p.year < 10000,
            days == days_before_year(year as int),
            days <= 366 * (year - 1970),
        decreases p.year - year,
    {
        proof {
            lemma_days_before_year_bound(year as int + 1);
        }
        days = days + days_in_year(year);
        year = year + 1;
    }

    let mut month: u64 = 1;
    while month < p.month
        invariant
            1 <= month <= p.month,
            valid_parts(p),
            days == days_before_year(p.year as int) + days_before_month(p.year as int, month as int),
            days_before_year(p.year as int) <= 366 * (p.year - 1970),
            days_before_month(p.year as int, month as int) <= 31 * (month - 1),
        decreases p.month - month,
    {
        days = days + days_in_month(p.year, month);
        month = month + 1;
    }

    proof {
        lemma_day_in_year(p.year as int, p.month as int, p.day as int);
        lemma_days_before_year_mono(1970, p.year as int);
        lemma_days_before_year_mono(p.year as int + 1, 10000);
        lemma_max_day_number();
        assert(days_before_year(p.year as int + 1) == days_before_year(p.year as int)
            + spec_days_in_year(p.year as int));
    }
    let dn: u64 = days + (p.day - 1);
    dn * 86400 + p.hour * 3600 + p.minute * 60 + p.second
}

/// The first epoch second of year 9999.  The partition walk steps at most
/// one calendar month at a time and stays below year 10000 as long as it
/// starts below this bound.
pub const YEAR_9999_EPOCH: u64 = 253370764800;

/// Day count from 1970 to year 9999.
pub proof fn lemma_year_9999()
    ensures
        days_before_year(9999) == 2932532,
        YEAR_9999_EPOCH == 2932532 * 86400,
{
    lemma_days_before_year_closed(9999);
    assert(9998int / 4 == 2499 && 9998int / 100 == 99 && 9998int / 400 == 24);
}

/// One calendar month later, keeping the time of day and clamping the day
/// of month to the shorter month when needed.
pub open spec fn spec_add_one_month(t: int) -> int {
    let p = spec_parts_of_epoch(t);
    let y2 = if p.month == 12 {
        p.year + 1
    } else {
        p.year as int
    };
    let m2 = if p.month == 12 {
        1
    } else {
        p.month + 1
    };
    let d2 = if p.day <= spec_days_in_month(y2, m2) {
        p.day as int
    } else {
        spec_days_in_month(y2, m2)
    };
    spec_epoch_of_parts(
        DateParts {
            year: y2 as u64,
            month: m2 as u64,
            day: d2 as u64,
            hour: p.hour,
            minute: p.minute,
            second: p.second,
        },
    )
}

/// Steps a timestamp one calendar month forward.  The result is strictly
/// later; the clamped day can pull it back by at most three days against a
/// full month, never to or before the start.
pub fn add_one_month(t: u64) -> (r: u64)
    requires
        t < YEAR_9999_EPOCH,
    ensures
        r == spec_add_one_month(t as int),
        t < r,
        r < MAX_EPOCH,
{
    proof {
        lemma_year_9999();
        lemma_max_day_number();
        assert(t < MAX_EPOCH);
    }
    let p = epoch_to_parts(t);
    proof {
        if p.year >= 9999 {
            lemma_days_before_year_mono(9999, p.year as int);
            lemma_days_before_year_mono(1970, p.year as int);
            lemma_day_in_year(p.year as int, p.month as int, p.day as int);
            assert(spec_epoch_of_parts(p) >= days_before_year(9999) * 86400) by (nonlinear_arith)
                requires
                    spec_epoch_of_parts(p) == spec_day_number(
                        p.year as int,
                        p.month as int,
                        p.day as int,
                    ) * 86400 + p.hour * 3600 + p.minute * 60 + p.second,
                    spec_day_number(p.year as int, p.month as int, p.day as int)
                        >= days_before_year(9999),
                    p.hour >= 0 && p.minute >= 0 && p.second >= 0,
            ;
            assert(false);
        }
    }
    let (y2, m2): (u64, u64) = if p.month == 12 {
        (p.year + 1, 1)
    } else {
        (p.year, p.month + 1)
    };
    let dim2 = days_in_month(y2, m2);
    let d2 = if p.day <= dim2 {
        p.day
    } else {
        dim2
    };
    let q = DateParts { year: y2, month: m2, day: d2, hour: p.hour, minute: p.minute, second: p.second };
    let r = parts_to_epoch(q);
    proof {
        let dn_p = spec_day_number(p.year as int, p.month as int, p.day as int);
        let dn_q = spec_day_number(q.year as int, q.month as int, q.day as int);
        assert(d2 >= p.day - 3 && d2 >= 1);
        if p.month == 12 {
            lemma_days_before_month_full(p.year as int);
            lemma_days_before_month_mono(p.year as int, p.month as int, 13);
            assert(days_before_year(p.year as int + 1) == days_before_year(p.year as int)
                + spec_days_in_year(p.year as int));
            assert(dn_q > dn_p);
        } else {
            lemma_days_before_month_mono(p.year as int, p.month as int, p.month as int + 1);
            assert(dn_q > dn_p);
        }
        assert(spec_epoch_of_parts(q) > spec_epoch_of_parts(p)) by (nonlinear_arith)
            requires
                spec_epoch_of_parts(p) == dn_p * 86400 + p.hour * 3600 + p.minute * 60 + p.second,
                spec_epoch_of_parts(q) == dn_q * 86400 + q.hour * 3600 + q.minute * 60 + q.second,
                q.hour == p.hour && q.minute == p.minute && q.second == p.second,
                p.hour < 24 && p.minute < 60 && p.second < 60,
                p.hour >= 0 && p.minute >= 0 && p.second >= 0,
                dn_q > dn_p,
        ;
    }
    r
}

/// The first second of the UTC calendar month containing `t`.
pub open spec fn spec_month_start(t: int) -> int {
    let p = spec_parts_of_epoch(t);
    spec_epoch_of_parts(
        DateParts { year: p.year, month: p.month, day: 1, hour: 0, minute: 0, second: 0 },
    )
}

/// The first second of the UTC calendar month containing `t`.
pub fn month_start(t: u64) -> (r: u64)
    requires
        t < MAX_EPOCH,
    ensures
        r == spec_month_start(t as int),
        r <= t,
{
    let p = epoch_to_parts(t);
    let first = DateParts { year: p.year, month: p.month, day: 1, hour: 0, minute: 0, second: 0 };
    let r = parts_to_epoch(first);
    proof {
        lemma_days_before_year_mono(1970, p.year as int);
        lemma_days_before_month_mono(p.year as int, 1, p.month as int);
        assert(spec_epoch_of_parts(first) <= spec_epoch_of_parts(p)) by (nonlinear_arith)
            requires
                spec_day_number(first.year as int, first.month as int, 1)
                    <= spec_day_number(p.year as int, p.month as int, p.day as int),
                first.year == p.year && first.month == p.month && first.day == 1,
                first.hour == 0 && first.minute == 0 && first.second == 0,
                1 <= p.day,
                p.hour >= 0 && p.minute >= 0 && p.second >= 0,
        ;
    }
    r
}

/// Taking the month start twice is the same as taking it once.
pub proof fn lemma_month_start_idempotent(t: int)
    requires
        0 <= t < MAX_EPOCH,
    ensures
        spec_month_start(spec_month_start(t)) == spec_month_start(t),
{
    let p = lemma_parts_of_epoch_wf(t);
    let first = DateParts { year: p.year, month: p.month, day: 1, hour: 0, minute: 0, second: 0 };
    assert(valid_parts(first));
    lemma_parts_of_epoch_of_parts(first);
}

/// The parts of any in-range epoch second are valid and rebuild it.
pub proof fn lemma_parts_of_epoch_wf(t: int) -> (p: DateParts)
    requires
        0 <= t < MAX_EPOCH,
    ensures
        p == spec_parts_of_epoch(t),
        valid_parts(p),
        spec_epoch_of_parts(p) == t,
{
    let days = t / 86400;
    let sod = t % 86400;
    lemma_max_day_number();
    assert(0 <= days < 2932897 && 0 <= sod < 86400 && t == days * 86400 + sod) by (
    nonlinear_arith)
        requires
            0 <= t < 253402300800,
            days == t / 86400,
            sod == t % 86400,
    ;
    let yr = spec_find_year(1970, days);
    lemma_find_year_fits(1970, days);
    let y = yr.0;
    let rem = yr.1;
    assert(days_before_year(y) + rem == days && 0 <= rem < spec_days_in_year(y) && 1970 <= y);
    if y >= 10000 {
        lemma_days_before_year_mono(10000, y);
        assert(false);
    }
    let mr = spec_find_month(y, 1, rem);
    lemma_find_month_fits(y, 1, rem);
    let m = mr.0;
    let inm = mr.1;
    if !(inm < spec_days_in_month(y, m)) {
        lemma_days_before_month_full(y);
        assert(days_before_month(y, 13) == days_before_month(y, 12) + spec_days_in_month(y, 12));
        assert(false);
    }
    let p = spec_parts_of_epoch(t);
    assert(sod / 3600 < 24 && sod % 3600 / 60 < 60 && sod % 60 < 60) by (nonlinear_arith)
        requires
            0 <= sod < 86400,
    ;
    assert(spec_epoch_of_parts(p) == t) by (nonlinear_arith)
        requires
            p.year == y && p.month == m && p.day == inm + 1,
            p.hour == sod / 3600 && p.minute == sod % 3600 / 60 && p.second == sod % 60,
            spec_day_number(y, m, inm + 1) == days,
            t == days * 86400 + sod,
            0 <= sod < 86400,
    ;
    p
}

/// The year walk keeps the running day count as an exact decomposition.
proof fn lemma_find_year_fits(y0: int, d: int)
    requires
        0 <= d,
        1970 <= y0,
    ensures
        ({
            let r = spec_find_year(y0, d);
            &&& y0 <= r.0
            &&& 0 <= r.1 < spec_days_in_year(r.0)
            &&& days_before_year(r.0) - days_before_year(y0) + r.1 == d
        }),
    decreases d,
{
    if d < spec_days_in_year(y0) {
    } else {
        lemma_find_year_fits(y0 + 1, d - spec_days_in_year(y0));
    }
}

/// The month walk keeps the running day count as an exact decomposition.
proof fn lemma_find_month_fits(y: int, m0: int, d: int)
    requires
        0 <= d,
        1 <= m0 <= 12,
    ensures
        ({
            let r = spec_find_month(y, m0, d);
            &&& m0 <= r.0 <= 12
            &&& 0 <= r.1
            &&& days_before_month(y, r.0) - days_before_month(y, m0) + r.1 == d
            &&& r.0 < 12 ==> r.1 < spec_days_in_month(y, r.0)
        }),
    decreases 12 - m0,
{
    if m0 >= 12 || d < spec_days_in_month(y, m0) {
    } else {
        lemma_find_month_fits(y, m0 + 1, d - spec_days_in_month(y, m0));
    }
}

} // verus!
