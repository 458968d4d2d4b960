//! The OHLC candle value and its update-by-tick arithmetic.

use vstd::prelude::*;

use crate::calendar::MAX_EPOCH;
use crate::candle_type::{spec_bucket_start, CandleType};

verus! {

/// One OHLC candle: the open, close, high and low rate observed inside one
/// time bucket, plus the bucket-start timestamp (epoch seconds, UTC).
///
/// Rates are 64-bit order keys (see the crate documentation): `<` on two
/// fields agrees with the order of the prices they stand for.
#[derive(Clone, Copy, Debug, PartialEq, Eq, Structural)]
pub struct CandleModel {
    pub open: u64,
    pub close: u64,
    pub high: u64,
    pub low: u64,
    pub datetime: u64,
}

/// The OHLC invariant: the low is below open and close, the high above both.
pub open spec fn candle_ohlc_wf(c: CandleModel) -> bool {
    &&& c.low <= c.open <= c.high
    &&& c.low <= c.close <= c.high
}

/// A fresh candle built from a single rate: all four fields equal the rate.
pub open spec fn spec_new_from_rate(datetime: u64, rate: u64) -> CandleModel {
    CandleModel { open: rate, close: rate, high: rate, low: rate, datetime }
}

/// One tick folded into a candle: the close becomes the rate, the high and
/// low widen to cover it, open and datetime stay.
pub open spec fn spec_update_by_rate(c: CandleModel, rate: u64) -> CandleModel {
    CandleModel {
        open: c.open,
        close: rate,
        high: if c.high < rate { rate } else { c.high },
        low: if c.low > rate { rate } else { c.low },
        datetime: c.datetime,
    }
}

impl CandleModel {
    /// A fresh candle from one rate, stamped with the start of the bucket
    /// of granularity `candle_type` that contains `date`.
    pub fn new_from_rate(candle_type: CandleType, date: u64, rate: u64) -> (r: CandleModel)
        requires
            date < MAX_EPOCH,
        ensures
            r == spec_new_from_rate(spec_bucket_start(candle_type, date as int) as u64, rate),
            r.datetime == spec_bucket_start(candle_type, date as int),
    {
        let bucket = candle_type.format_date_by_type(date);
        CandleModel { open: rate, close: rate, high: rate, low: rate, datetime: bucket }
    }

    /// Folds one tick into this candle in place.
    pub fn update_by_rate(&mut self, rate: u64)
        ensures
            *final(self) == spec_update_by_rate(*old(self), rate),
    {
        self.close = rate;

        if self.high < rate {
            self.high = rate;
        }

        if self.low > rate {
            self.low = rate;
        }
    }
}

/// A fresh candle satisfies the OHLC invariant.
pub proof fn lemma_new_from_rate_wf(datetime: u64, rate: u64)
    ensures
        candle_ohlc_wf(spec_new_from_rate(datetime, rate)),
{
}

/// Folding a tick preserves the OHLC invariant.
pub proof fn lemma_update_preserves_wf(c: CandleModel, rate: u64)
    requires
        candle_ohlc_wf(c),
    ensures
        candle_ohlc_wf(spec_update_by_rate(c, rate)),
{
}

/// Applying the same tick twice leaves the same candle as applying it once:
/// the close is overwritten with the same rate, and the high and low are
/// already wide enough after the first application.
pub proof fn lemma_update_idempotent(c: CandleModel, rate: u64)
    ensures
        spec_update_by_rate(spec_update_by_rate(c, rate), rate) == spec_update_by_rate(c, rate),
{
}

/// Two ticks inside the same bucket commute on the high and the low, and
/// never touch open or datetime; the close keeps whichever rate came last,
/// so swapping two distinct rates changes it.
pub proof fn lemma_update_order(c: CandleModel, r1: u64, r2: u64)
    ensures
        spec_update_by_rate(spec_update_by_rate(c, r1), r2).high == spec_update_by_rate(
            spec_update_by_rate(c, r2),
            r1,
        ).high,
        spec_update_by_rate(spec_update_by_rate(c, r1), r2).low == spec_update_by_rate(
            spec_update_by_rate(c, r2),
            r1,
        ).low,
        spec_update_by_rate(spec_update_by_rate(c, r1), r2).open == c.open,
        spec_update_by_rate(spec_update_by_rate(c, r1), r2).datetime == c.datetime,
        spec_update_by_rate(spec_update_by_rate(c, r1), r2).close == r2,
        spec_update_by_rate(spec_update_by_rate(c, r2), r1).close == r1,
{
}

} // verus!
