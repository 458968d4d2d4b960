//! The four candle granularities and their time-bucket arithmetic.

use vstd::prelude::*;

use crate::calendar::{month_start, spec_month_start, MAX_EPOCH};

verus! {

/// One of the four fixed granularities.  The stable ordinal codes
/// (0 = Minute, 1 = Hour, 2 = Day, 3 = Month) appear in the durable format
/// and in table names.
#[derive(Clone, Copy, Debug, PartialEq, Eq, Hash, Structural)]
pub enum CandleType {
    Minute,
    Hour,
    Day,
    Month,
}

impl CandleType {
    /// The stable ordinal code of this granularity.
    pub open spec fn spec_code(self) -> int {
        match self {
            CandleType::Minute => 0,
            CandleType::Hour => 1,
            CandleType::Day => 2,
            CandleType::Month => 3,
        }
    }

    /// The stable ordinal code of this granularity.
    pub fn code(self) -> (r: u8)
        ensures
            r == self.spec_code(),
    {
        match self {
            CandleType::Minute => 0,
            CandleType::Hour => 1,
            CandleType::Day => 2,
            CandleType::Month => 3,
        }
    }

    /// The granularity of a stable ordinal code; codes above 3 name none.
    pub fn from_code(code: u8) -> (r: Option<CandleType>)
        ensures
            match r {
                Some(ct) => ct.spec_code() == code,
                None => code > 3,
            },
    {
        match code {
            0 => Some(CandleType::Minute),
            1 => Some(CandleType::Hour),
            2 => Some(CandleType::Day),
            3 => Some(CandleType::Month),
            _ => None,
        }
    }
}

/// The start of the bucket of granularity `ct` that contains second `t`:
/// `t` rounded down to the minute, hour, UTC day, or UTC calendar month.
pub open spec fn spec_bucket_start(ct: CandleType, t: int) -> int {
    match ct {
        CandleType::Minute => t - t % 60,
        CandleType::Hour => t - t % 3600,
        CandleType::Day => t - t % 86400,
        CandleType::Month => spec_month_start(t),
    }
}

/// Rounding `t` down to a multiple of `k` stays in `[0, t]` and lands on a
/// multiple of `k`.
pub proof fn lemma_mod_align(t: int, k: int)
    requires
        t >= 0,
        k > 0,
    ensures
        0 <= t - t % k <= t,
        (t - t % k) % k == 0,
{
    vstd::arithmetic::div_mod::lemma_fundamental_div_mod(t, k);
    vstd::arithmetic::div_mod::lemma_mod_division_less_than_divisor(t, k);
    assert(k * (t / k) >= 0) by (nonlinear_arith)
        requires
            t >= 0,
            k > 0,
            t == k * (t / k) + t % k,
            0 <= t % k < k,
    ;
    assert(t - t % k == k * (t / k));
    assert(k * (t / k) == (t / k) * k) by (nonlinear_arith);
    vstd::arithmetic::div_mod::lemma_mod_multiples_basic(t / k, k);
}

impl CandleType {
    /// Rounds an epoch second down to the start of its bucket.
    pub fn format_date_by_type(&self, date: u64) -> (r: u64)
        requires
            date < MAX_EPOCH,
        ensures
            r == spec_bucket_start(*self, date as int),
            r <= date,
    {
        match self {
            CandleType::Minute => date - date % 60,
            CandleType::Hour => date - date % 3600,
            CandleType::Day => date - date % 86400,
            CandleType::Month => month_start(date),
        }
    }

    /// Rounds an epoch second down to the start of its bucket.
    pub fn candle_timestamp_sec(&self, timestamp_sec: u64) -> (r: u64)
        requires
            timestamp_sec < MAX_EPOCH,
        ensures
            r == spec_bucket_start(*self, timestamp_sec as int),
    {
        self.format_date_by_type(timestamp_sec)
    }
}

/// A bucket start is its own bucket start: every candle's `datetime` is a
/// fixed point of the bucket arithmetic of its granularity.
pub proof fn lemma_bucket_start_idempotent(ct: CandleType, t: int)
    requires
        0 <= t < MAX_EPOCH,
    ensures
        spec_bucket_start(ct, spec_bucket_start(ct, t)) == spec_bucket_start(ct, t),
        0 <= spec_bucket_start(ct, t) <= t,
{
    match ct {
        CandleType::Minute => {
            lemma_mod_align(t, 60);
        },
        CandleType::Hour => {
            lemma_mod_align(t, 3600);
        },
        CandleType::Day => {
            lemma_mod_align(t, 86400);
        },
        CandleType::Month => {
            crate::calendar::lemma_month_start_idempotent(t);
            lemma_month_start_bounds(t);
        },
    }
}

/// The calendar parts of a bucket start: the coordinates finer than the
/// granularity are all zero (day one for a month start).
pub proof fn lemma_aligned_parts(ct: CandleType, t: int)
    requires
        0 <= t < MAX_EPOCH,
        spec_bucket_start(ct, t) == t,
    ensures
        ({
            let p = crate::calendar::spec_parts_of_epoch(t);
            match ct {
                CandleType::Minute => p.second == 0,
                CandleType::Hour => p.second == 0 && p.minute == 0,
                CandleType::Day => p.second == 0 && p.minute == 0 && p.hour == 0,
                CandleType::Month => p.second == 0 && p.minute == 0 && p.hour == 0 && p.day == 1,
            }
        }),
{
    let p = crate::calendar::spec_parts_of_epoch(t);
    let sod = t % 86400;
    match ct {
        CandleType::Minute => {
            assert(t % 60 == 0);
            vstd::arithmetic::div_mod::lemma_mod_mod(t, 60, 1440);
            assert(sod % 60 == t % 60);
        },
        CandleType::Hour => {
            assert(t % 3600 == 0);
            vstd::arithmetic::div_mod::lemma_mod_mod(t, 3600, 24);
            assert(sod % 3600 == t % 3600);
            vstd::arithmetic::div_mod::lemma_mod_mod(t, 60, 60);
            assert((t % 3600) % 60 == t % 60);
            vstd::arithmetic::div_mod::lemma_mod_mod(t, 60, 1440);
            assert(sod % 60 == t % 60);
            assert(p.minute == sod % 3600 / 60);
            assert(sod % 3600 == 0 ==> p.minute == 0);
        },
        CandleType::Day => {
            assert(t % 86400 == 0);
            assert(p.hour == sod / 3600 && p.minute == sod % 3600 / 60 && p.second == sod % 60);
        },
        CandleType::Month => {
            let q = crate::calendar::lemma_parts_of_epoch_wf(t);
            let first = crate::calendar::DateParts {
                year: q.year,
                month: q.month,
                day: 1,
                hour: 0,
                minute: 0,
                second: 0,
            };
            assert(crate::calendar::valid_parts(first));
            crate::calendar::lemma_parts_of_epoch_of_parts(first);
            assert(t == crate::calendar::spec_epoch_of_parts(first));
            assert(crate::calendar::spec_parts_of_epoch(t) == first);
        },
    }
}

/// The month start lies between zero and the second it was taken from.
pub proof fn lemma_month_start_bounds(t: int)
    requires
        0 <= t < MAX_EPOCH,
    ensures
        0 <= spec_month_start(t) <= t,
{
    let p = crate::calendar::lemma_parts_of_epoch_wf(t);
    let first = crate::calendar::DateParts {
        year: p.year,
        month: p.month,
        day: 1,
        hour: 0,
        minute: 0,
        second: 0,
    };
    crate::calendar::lemma_days_before_year_mono(1970, p.year as int);
    crate::calendar::lemma_days_before_month_mono(p.year as int, 1, p.month as int);
    let dn1 = crate::calendar::spec_day_number(first.year as int, first.month as int, 1);
    let dnp = crate::calendar::spec_day_number(p.year as int, p.month as int, p.day as int);
    assert(0 <= dn1 <= dnp);
    assert(crate::calendar::spec_epoch_of_parts(first) <= crate::calendar::spec_epoch_of_parts(p))
        by (nonlinear_arith)
        requires
            0 <= dn1 <= dnp,
            crate::calendar::spec_epoch_of_parts(first) == dn1 * 86400,
            crate::calendar::spec_epoch_of_parts(p) == dnp * 86400 + p.hour * 3600 + p.minute * 60
                + p.second,
            p.hour >= 0 && p.minute >= 0 && p.second >= 0,
    ;
}

} // verus!
