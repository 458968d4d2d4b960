//! The per-instrument cache: one `CandlesCache` for each of the four
//! granularities, with every tick fanned out to all four.

use vstd::prelude::*;

use crate::calendar::MAX_EPOCH;
use crate::candle::{candle_ohlc_wf, CandleModel};
use crate::candle_cache::{spec_range, CacheType, CandlesCache};
use crate::candle_type::{spec_bucket_start, CandleType};

verus! {

/// Four candle caches for one instrument on one side: bounded for minutes
/// and hours, unbounded for days and months.
#[derive(Clone, Debug)]
pub struct CandleTypeCache {
    pub instrument_id: String,
    pub candles_by_minute: CandlesCache,
    pub candles_by_hour: CandlesCache,
    pub candles_by_day: CandlesCache,
    pub candles_by_month: CandlesCache,
}

impl CandleTypeCache {
    /// The cache that holds this granularity's candles.
    pub open spec fn spec_cache(self, ct: CandleType) -> CandlesCache {
        match ct {
            CandleType::Minute => self.candles_by_minute,
            CandleType::Hour => self.candles_by_hour,
            CandleType::Day => self.candles_by_day,
            CandleType::Month => self.candles_by_month,
        }
    }

    /// Each granularity's cache is well formed and tagged with its own
    /// granularity.
    pub open spec fn wf(self) -> bool {
        &&& self.candles_by_minute.wf() && self.candles_by_minute.candle_type
            == CandleType::Minute
        &&& self.candles_by_hour.wf() && self.candles_by_hour.candle_type == CandleType::Hour
        &&& self.candles_by_day.wf() && self.candles_by_day.candle_type == CandleType::Day
        &&& self.candles_by_month.wf() && self.candles_by_month.candle_type == CandleType::Month
    }

    /// All four caches respect their capacity bounds.
    pub open spec fn within_capacity(self) -> bool {
        &&& self.candles_by_minute.within_capacity()
        &&& self.candles_by_hour.within_capacity()
        &&& self.candles_by_day.within_capacity()
        &&& self.candles_by_month.within_capacity()
    }

    /// Empty caches for one instrument: minute and hour bounded by the two
    /// capacities, day and month unbounded.
    pub fn new(instrument_id: String, minute_capacity: usize, hour_capacity: usize) -> (r:
        CandleTypeCache)
        requires
            minute_capacity >= 1,
            hour_capacity >= 1,
        ensures
            r.wf(),
            r.within_capacity(),
            r.instrument_id == instrument_id,
            r.candles_by_minute.cache_type == CacheType::Limited(minute_capacity),
            r.candles_by_hour.cache_type == CacheType::Limited(hour_capacity),
            r.candles_by_day.cache_type == CacheType::UnLimited,
            r.candles_by_month.cache_type == CacheType::UnLimited,
            forall|ct: CandleType| (#[trigger] r.spec_cache(ct)).candles@.len() == 0,
    {
        CandleTypeCache {
            instrument_id,
            candles_by_minute: CandlesCache::with_capacity(CandleType::Minute, minute_capacity),
            candles_by_hour: CandlesCache::with_capacity(CandleType::Hour, hour_capacity),
            candles_by_day: CandlesCache::new(CandleType::Day),
            candles_by_month: CandlesCache::new(CandleType::Month),
        }
    }

    /// Hands one restored candle to the cache of its granularity; the other
    /// three granularities are untouched.
    pub fn init(&mut self, candle: CandleModel, candle_type: CandleType)
        requires
            old(self).wf(),
            candle_ohlc_wf(candle),
            candle.datetime < MAX_EPOCH,
            candle.datetime == spec_bucket_start(candle_type, candle.datetime as int),
        ensures
            final(self).wf(),
            final(self).instrument_id == old(self).instrument_id,
            CandlesCache::spec_init_post(
                old(self).spec_cache(candle_type),
                final(self).spec_cache(candle_type),
                candle,
            ),
            final(self).spec_cache(candle_type).cache_type == old(self).spec_cache(
                candle_type,
            ).cache_type,
            forall|ct2: CandleType|
                ct2 != candle_type ==> #[trigger] final(self).spec_cache(ct2) == old(
                    self,
                ).spec_cache(ct2),
    {
        match candle_type {
            CandleType::Minute => self.candles_by_minute.init(candle),
            CandleType::Hour => self.candles_by_hour.init(candle),
            CandleType::Day => self.candles_by_day.init(candle),
            CandleType::Month => self.candles_by_month.init(candle),
        };
    }

    /// All candles of one granularity whose bucket start lies in
    /// `[date_from, date_to)`, ascending.
    pub fn get_by_date_range(&self, candle_type: CandleType, date_from: u64, date_to: u64) -> (r:
        Vec<CandleModel>)
        ensures
            r@ == spec_range(self.spec_cache(candle_type).candles@, date_from, date_to),
    {
        match candle_type {
            CandleType::Minute => self.candles_by_minute.get_by_date_range(date_from, date_to),
            CandleType::Hour => self.candles_by_hour.get_by_date_range(date_from, date_to),
            CandleType::Day => self.candles_by_day.get_by_date_range(date_from, date_to),
            CandleType::Month => self.candles_by_month.get_by_date_range(date_from, date_to),
        }
    }

    /// Fans one tick out to all four granularities and returns the four
    /// updated candles in the stable order minute, hour, day, month.
    pub fn handle_new_rate(&mut self, rate: u64, date: u64) -> (r: Vec<(CandleType, CandleModel)>)
        requires
            old(self).wf(),
            date < MAX_EPOCH,
        ensures
            final(self).wf(),
            old(self).within_capacity() ==> final(self).within_capacity(),
            final(self).instrument_id == old(self).instrument_id,
            forall|ct: CandleType| #[trigger] final(self).spec_cache(ct).cache_type == old(
                self,
            ).spec_cache(ct).cache_type,
            r@.len() == 4,
            r@[0].0 == CandleType::Minute && r@[1].0 == CandleType::Hour && r@[2].0
                == CandleType::Day && r@[3].0 == CandleType::Month,
            CandlesCache::spec_handle_new_rate_post(
                old(self).candles_by_minute,
                final(self).candles_by_minute,
                date,
                rate,
                r@[0],
            ),
            CandlesCache::spec_handle_new_rate_post(
                old(self).candles_by_hour,
                final(self).candles_by_hour,
                date,
                rate,
                r@[1],
            ),
            CandlesCache::spec_handle_new_rate_post(
                old(self).candles_by_day,
                final(self).candles_by_day,
                date,
                rate,
                r@[2],
            ),
            CandlesCache::spec_handle_new_rate_post(
                old(self).candles_by_month,
                final(self).candles_by_month,
                date,
                rate,
                r@[3],
            ),
            forall|i: int| 0 <= i < 4 ==> candle_ohlc_wf((#[trigger] r@[i]).1),
    {
        let minute = self.candles_by_minute.handle_new_rate(date, rate);
        let hour = self.candles_by_hour.handle_new_rate(date, rate);
        let day = self.candles_by_day.handle_new_rate(date, rate);
        let month = self.candles_by_month.handle_new_rate(date, rate);
        let mut result: Vec<(CandleType, CandleModel)> = Vec::new();
        result.push(minute);
        result.push(hour);
        result.push(day);
        result.push(month);
        result
    }

    /// Removes every candle from all four granularities.
    pub fn clear(&mut self)
        ensures
            old(self).wf() ==> final(self).wf(),
            final(self).instrument_id == old(self).instrument_id,
            forall|ct: CandleType| (#[trigger] final(self).spec_cache(ct)).candles@.len() == 0,
            forall|ct: CandleType| #[trigger] final(self).spec_cache(ct).cache_type == old(
                self,
            ).spec_cache(ct).cache_type,
            forall|ct: CandleType| #[trigger] final(self).spec_cache(ct).candle_type == old(
                self,
            ).spec_cache(ct).candle_type,
    {
        self.candles_by_day.clear();
        self.candles_by_hour.clear();
        self.candles_by_minute.clear();
        self.candles_by_month.clear();
    }
}

} // verus!
