//! The store: per-instrument candle caches for the bid and the ask side,
//! updated in batches of ticks, queried by date range, filled by restore.

use vstd::prelude::*;

use crate::calendar::MAX_EPOCH;
use crate::candle::{candle_ohlc_wf, spec_new_from_rate, CandleModel};
use crate::candle_cache::{spec_range, CacheType, CandlesCache};
use crate::candle_type::{spec_bucket_start, CandleType};
use crate::candle_type_cache::CandleTypeCache;

verus! {

/// One tick: an instrument, the epoch second it was observed, and its bid
/// and ask rates as 64-bit order keys.
#[derive(Clone, Debug)]
pub struct CandlesBidAsk {
    pub date: u64,
    pub instrument: String,
    pub bid: u64,
    pub ask: u64,
}

/// The rate of the side a pass works on.
pub open spec fn spec_rate_of(tick: CandlesBidAsk, is_bid: bool) -> u64 {
    if is_bid {
        tick.bid
    } else {
        tick.ask
    }
}

/// No two entries of a side belong to the same instrument.
pub open spec fn ids_unique(side: Seq<CandleTypeCache>) -> bool {
    forall|i: int, j: int|
        0 <= i < j < side.len() ==> (#[trigger] side[i]).instrument_id@ != (
        #[trigger] side[j]).instrument_id@
}

/// Every entry of a side is well formed and bounded by the store's two
/// capacities, and entries name distinct instruments.
pub open spec fn side_ok(side: Seq<CandleTypeCache>, mcap: usize, hcap: usize) -> bool {
    &&& ids_unique(side)
    &&& forall|i: int| 0 <= i < side.len() ==> (#[trigger] side[i]).wf()
    &&& forall|i: int|
        0 <= i < side.len() ==> (#[trigger] side[i]).candles_by_minute.cache_type
            == CacheType::Limited(mcap) && side[i].candles_by_hour.cache_type
            == CacheType::Limited(hcap) && side[i].candles_by_day.cache_type
            == CacheType::UnLimited && side[i].candles_by_month.cache_type == CacheType::UnLimited
}

/// Every entry of the side respects its capacity bounds.
pub open spec fn side_within_capacity(side: Seq<CandleTypeCache>) -> bool {
    forall|i: int| 0 <= i < side.len() ==> (#[trigger] side[i]).within_capacity()
}

/// Some entry of the side belongs to the instrument.
pub open spec fn side_has(side: Seq<CandleTypeCache>, id: Seq<char>) -> bool {
    exists|i: int| 0 <= i < side.len() && (#[trigger] side[i]).instrument_id@ == id
}

/// The index of the instrument's entry (unique when ids are unique).
pub open spec fn side_index(side: Seq<CandleTypeCache>, id: Seq<char>) -> int {
    choose|i: int| 0 <= i < side.len() && (#[trigger] side[i]).instrument_id@ == id
}

/// With unique ids, the instrument's entry sits at one index only.
pub proof fn lemma_side_index_unique(side: Seq<CandleTypeCache>, id: Seq<char>)
    requires
        ids_unique(side),
        side_has(side, id),
    ensures
        0 <= side_index(side, id) < side.len(),
        side[side_index(side, id)].instrument_id@ == id,
        forall|i: int|
            0 <= i < side.len() && (#[trigger] side[i]).instrument_id@ == id ==> i == side_index(
                side,
                id,
            ),
{
    let w = side_index(side, id);
    assert forall|i: int|
        0 <= i < side.len() && (#[trigger] side[i]).instrument_id@ == id implies i == w by {
        if i < w {
            assert(side[i].instrument_id@ != side[w].instrument_id@);
        }
        if w < i {
            assert(side[w].instrument_id@ != side[i].instrument_id@);
        }
    }
}

/// What one tick does to the entry it lands on: each granularity's cache
/// steps by `spec_handle_new_rate_post`, and the four updated candles come
/// out in the stable order.
pub open spec fn spec_tick_entry(
    pre_e: CandleTypeCache,
    post_e: CandleTypeCache,
    date: u64,
    rate: u64,
    out4: Seq<(CandleType, CandleModel)>,
) -> bool {
    &&& out4.len() == 4
    &&& out4[0].0 == CandleType::Minute && out4[1].0 == CandleType::Hour && out4[2].0
        == CandleType::Day && out4[3].0 == CandleType::Month
    &&& post_e.instrument_id == pre_e.instrument_id
    &&& CandlesCache::spec_handle_new_rate_post(
        pre_e.candles_by_minute,
        post_e.candles_by_minute,
        date,
        rate,
        out4[0],
    )
    &&& CandlesCache::spec_handle_new_rate_post(
        pre_e.candles_by_hour,
        post_e.candles_by_hour,
        date,
        rate,
        out4[1],
    )
    &&& CandlesCache::spec_handle_new_rate_post(
        pre_e.candles_by_day,
        post_e.candles_by_day,
        date,
        rate,
        out4[2],
    )
    &&& CandlesCache::spec_handle_new_rate_post(
        pre_e.candles_by_month,
        post_e.candles_by_month,
        date,
        rate,
        out4[3],
    )
}

/// What one tick does to an instrument the side has never seen: a fresh
/// entry appears whose four caches hold exactly one candle, built from the
/// tick's rate and stamped with the tick's bucket starts.
pub open spec fn spec_tick_fresh(
    post_e: CandleTypeCache,
    id: Seq<char>,
    date: u64,
    rate: u64,
    out4: Seq<(CandleType, CandleModel)>,
) -> bool {
    &&& post_e.instrument_id@ == id
    &&& out4.len() == 4
    &&& out4[0].0 == CandleType::Minute && out4[1].0 == CandleType::Hour && out4[2].0
        == CandleType::Day && out4[3].0 == CandleType::Month
    &&& forall|ct: CandleType| #[trigger]
        post_e.spec_cache(ct).candles@ == seq![
            spec_new_from_rate(spec_bucket_start(ct, date as int) as u64, rate),
        ]
    &&& forall|i: int|
        0 <= i < 4 ==> (#[trigger] out4[i]).1 == spec_new_from_rate(
            spec_bucket_start(out4[i].0, date as int) as u64,
            rate,
        )
}

/// What one tick does to a whole side.
pub open spec fn spec_side_tick(
    pre: Seq<CandleTypeCache>,
    post: Seq<CandleTypeCache>,
    tick: CandlesBidAsk,
    is_bid: bool,
    out4: Seq<(CandleType, CandleModel)>,
) -> bool {
    let id = tick.instrument@;
    let rate = spec_rate_of(tick, is_bid);
    if side_has(pre, id) {
        let i = side_index(pre, id);
        &&& post == pre.update(i, post[i])
        &&& spec_tick_entry(pre[i], post[i], tick.date, rate, out4)
    } else {
        &&& post.len() == pre.len() + 1
        &&& post == pre.push(post.last())
        &&& spec_tick_fresh(post.last(), id, tick.date, rate, out4)
    }
}

/// Marks one intermediate side state and one four-candle group, so that a
/// caller can point the prover at the witnesses of `spec_side_update`.
pub open spec fn side_step_witness(
    mid: Seq<CandleTypeCache>,
    out4: Seq<(CandleType, CandleModel)>,
) -> bool {
    true
}

/// What a batch of ticks does to a side: the ticks land one after the
/// other, oldest first, and the updated candles are their four-candle
/// groups concatenated in tick order.
pub open spec fn spec_side_update(
    pre: Seq<CandleTypeCache>,
    post: Seq<CandleTypeCache>,
    prices: Seq<CandlesBidAsk>,
    is_bid: bool,
    out: Seq<(CandleType, CandleModel)>,
) -> bool
    decreases prices.len(),
{
    if prices.len() == 0 {
        post == pre && out =~= Seq::<(CandleType, CandleModel)>::empty()
    } else {
        exists|mid: Seq<CandleTypeCache>, out4: Seq<(CandleType, CandleModel)>|
            {
                &&& #[trigger] side_step_witness(mid, out4)
                &&& spec_side_update(pre, mid, prices.drop_last(), is_bid, out.subrange(0, out.len() - 4))
                &&& spec_side_tick(mid, post, prices.last(), is_bid, out4)
                &&& out.len() >= 4
                &&& out4 == out.subrange(out.len() - 4, out.len() as int)
            }
    }
}

/// Finds the index of the instrument's entry in a side, if any.
fn find_instrument(side: &Vec<CandleTypeCache>, id: &String) -> (r: Option<usize>)
    ensures
        match r {
            Some(i) => i < side@.len() && side@[i as int].instrument_id@ == id@ && side_has(
                side@,
                id@,
            ),
            None => !side_has(side@, id@),
        },
{
    let mut i: usize = 0;
    while i < side.len()
        invariant
            0 <= i <= side@.len(),
            forall|j: int| 0 <= j < i ==> (#[trigger] side@[j]).instrument_id@ != id@,
        decreases side@.len() - i,
    {
        if side[i].instrument_id == *id {
            return Some(i);
        }
        i = i + 1;
    }
    None
}

/// Runs a batch of ticks through one side.
#[verifier::rlimit(100)]
#[verifier::spinoff_prover]
fn update_side(
    side: &mut Vec<CandleTypeCache>,
    prices: &Vec<CandlesBidAsk>,
    is_bid: bool,
    minute_capacity: usize,
    hour_capacity: usize,
) -> (r: Vec<(CandleType, CandleModel)>)
    requires
        side_ok(old(side)@, minute_capacity, hour_capacity),
        minute_capacity >= 1,
        hour_capacity >= 1,
        forall|i: int| 0 <= i < prices@.len() ==> (#[trigger] prices@[i]).date < MAX_EPOCH,
    ensures
        side_ok(final(side)@, minute_capacity, hour_capacity),
        side_within_capacity(old(side)@) ==> side_within_capacity(final(side)@),
        spec_side_update(old(side)@, final(side)@, prices@, is_bid, r@),
        r@.len() == 4 * prices@.len(),
    decreases prices@.len(),
{
    let ghost pre = side@;
    let mut result: Vec<(CandleType, CandleModel)> = Vec::new();
    let mut i: usize = 0;
    while i < prices.len()
        invariant
            0 <= i <= prices@.len(),
            minute_capacity >= 1,
            hour_capacity >= 1,
            forall|j: int| 0 <= j < prices@.len() ==> (#[trigger] prices@[j]).date < MAX_EPOCH,
            side_ok(side@, minute_capacity, hour_capacity),
            side_within_capacity(pre) ==> side_within_capacity(side@),
            spec_side_update(pre, side@, prices@.subrange(0, i as int), is_bid, result@),
            result@.len() == 4 * i,
        decreases prices@.len() - i,
    {
        let ghost mid = side@;
        let ghost out_pre = result@;
        let price = &prices[i];
        let rate = if is_bid {
            price.bid
        } else {
            price.ask
        };
        let mut out4: Vec<(CandleType, CandleModel)>;
        match find_instrument(side, &price.instrument) {
            Some(j) => {
                proof {
                    lemma_side_index_unique(mid, price.instrument@);
                }
                out4 = side[j].handle_new_rate(rate, price.date);
                proof {
                    let e = side@[j as int];
                    assert(side@ == mid.update(j as int, e));
                    assert(e.spec_cache(CandleType::Minute).cache_type == mid[j as int].spec_cache(
                        CandleType::Minute,
                    ).cache_type);
                    assert(e.spec_cache(CandleType::Hour).cache_type == mid[j as int].spec_cache(
                        CandleType::Hour,
                    ).cache_type);
                    assert(e.spec_cache(CandleType::Day).cache_type == mid[j as int].spec_cache(
                        CandleType::Day,
                    ).cache_type);
                    assert(e.spec_cache(CandleType::Month).cache_type == mid[j as int].spec_cache(
                        CandleType::Month,
                    ).cache_type);
                    assert(spec_tick_entry(mid[j as int], e, price.date, rate, out4@));
                    assert forall|x: int, y: int|
                        0 <= x < y < side@.len() implies (#[trigger] side@[x]).instrument_id@ != (
                        #[trigger] side@[y]).instrument_id@ by {
                        assert(mid[x].instrument_id@ != mid[y].instrument_id@);
                        assert(side@[x].instrument_id == mid[x].instrument_id);
                        assert(side@[y].instrument_id == mid[y].instrument_id);
                    }
                    assert(side_has(mid, price.instrument@));
                    assert(side_index(mid, price.instrument@) == j as int);
                    assert(spec_side_tick(mid, side@, prices@[i as int], is_bid, out4@));
                    if side_within_capacity(pre) {
                        assert forall|x: int|
                            0 <= x < side@.len() implies (#[trigger] side@[x]).within_capacity() by {
                            assert(mid[x].within_capacity());
                            if x != j as int {
                                assert(side@[x] == mid[x]);
                            }
                        }
                    }
                }
            },
            None => {
                let mut cache = CandleTypeCache::new(
                    price.instrument.clone(),
                    minute_capacity,
                    hour_capacity,
                );
                let ghost cache0 = cache;
                out4 = cache.handle_new_rate(rate, price.date);
                proof {
                    assert forall|ct: CandleType| #[trigger]
                        cache.spec_cache(ct).candles@ == seq![
                            spec_new_from_rate(
                                spec_bucket_start(ct, price.date as int) as u64,
                                rate,
                            ),
                        ] by {
                        let pre_c = cache0.spec_cache(ct);
                        let post_c = cache.spec_cache(ct);
                        let k = spec_bucket_start(ct, price.date as int) as u64;
                        let c = spec_new_from_rate(k, rate);
                        assert(pre_c.candles@.len() == 0);
                        assert(!crate::sorted_candles::has_key(pre_c.candles@, k));
                        assert(!pre_c.spec_at_capacity());
                        assert(CandlesCache::spec_handle_new_rate_post(
                            pre_c,
                            post_c,
                            price.date,
                            rate,
                            out4@[ct.spec_code()],
                        ));
                        assert(post_c.candles@ == pre_c.candles@.insert(
                            crate::sorted_candles::key_index(post_c.candles@, k),
                            c,
                        ));
                        assert(post_c.candles@ =~= seq![c]);
                    }
                    assert forall|n: int|
                        0 <= n < 4 implies (#[trigger] out4@[n]).1 == spec_new_from_rate(
                        spec_bucket_start(out4@[n].0, price.date as int) as u64,
                        rate,
                    ) by {
                        assert(n == 0 || n == 1 || n == 2 || n == 3);
                        assert(!crate::sorted_candles::has_key(
                            cache0.spec_cache(out4@[n].0).candles@,
                            spec_bucket_start(out4@[n].0, price.date as int) as u64,
                        ));
                    }
                    assert(spec_tick_fresh(cache, price.instrument@, price.date, rate, out4@));
                }
                side.push(cache);
                proof {
                    assert(side@ == mid.push(cache));
                    assert(side@.last() == cache);
                    assert(spec_side_tick(mid, side@, prices@[i as int], is_bid, out4@));
                    assert forall|x: int, y: int|
                        0 <= x < y < side@.len() implies (#[trigger] side@[x]).instrument_id@ != (
                        #[trigger] side@[y]).instrument_id@ by {
                        if y < side@.len() - 1 {
                            assert(mid[x].instrument_id@ != mid[y].instrument_id@);
                        } else {
                            assert(side@[y].instrument_id@ == price.instrument@);
                            assert(side@[x] == mid[x]);
                        }
                    }
                    if side_within_capacity(pre) {
                        assert forall|x: int|
                            0 <= x < side@.len() implies (#[trigger] side@[x]).within_capacity() by {
                            if x < side@.len() - 1 {
                                assert(side@[x] == mid[x]);
                                assert(mid[x].within_capacity());
                            } else {
                                assert(side@[x] == cache);
                            }
                        }
                    }
                }
            },
        }
        let ghost o4 = out4@;
        result.append(&mut out4);
        proof {
            let next = prices@.subrange(0, i as int + 1);
            assert(next.drop_last() =~= prices@.subrange(0, i as int));
            assert(next.last() == prices@[i as int]);
            assert(result@ == out_pre + o4);
            assert(o4.len() == 4);
            assert(result@.subrange(0, result@.len() - 4) =~= out_pre);
            assert(result@.subrange(result@.len() - 4, result@.len() as int) =~= o4);
            assert(spec_side_update(pre, mid, next.drop_last(), is_bid, result@.subrange(0, result@.len() - 4)));
            assert(spec_side_tick(mid, side@, next.last(), is_bid, result@.subrange(result@.len() - 4, result@.len() as int)));
            assert(side_step_witness(mid, result@.subrange(result@.len() - 4, result@.len() as int)));
            assert(spec_side_update(pre, side@, next, is_bid, result@));
            assert(side_ok(side@, minute_capacity, hour_capacity)) by {
                assert(ids_unique(side@));
                assert forall|x: int| 0 <= x < side@.len() implies (#[trigger] side@[x]).wf()
                    && side@[x].candles_by_minute.cache_type == CacheType::Limited(minute_capacity)
                    && side@[x].candles_by_hour.cache_type == CacheType::Limited(hour_capacity)
                    && side@[x].candles_by_day.cache_type == CacheType::UnLimited
                    && side@[x].candles_by_month.cache_type == CacheType::UnLimited by {
                    if x < mid.len() && side@[x] == mid[x] {
                    } else {
                        assert(side@[x].spec_cache(CandleType::Minute) == side@[x].candles_by_minute);
                        assert(side@[x].spec_cache(CandleType::Hour) == side@[x].candles_by_hour);
                        assert(side@[x].spec_cache(CandleType::Day) == side@[x].candles_by_day);
                        assert(side@[x].spec_cache(CandleType::Month) == side@[x].candles_by_month);
                    }
                }
            }
        }
        i = i + 1;
    }
    proof {
        assert(prices@.subrange(0, prices@.len() as int) =~= prices@);
    }
    result
}

/// The store: the per-instrument caches of both sides, plus the two
/// capacities every fresh instrument cache is built with.
pub struct CandlesInstrumentsCache {
    pub bid_candles: Vec<CandleTypeCache>,
    pub ask_candles: Vec<CandleTypeCache>,
    pub minute_capacity: usize,
    pub hour_capacity: usize,
}

impl CandlesInstrumentsCache {
    /// The entries of one side.
    pub open spec fn spec_side(self, is_bid: bool) -> Seq<CandleTypeCache> {
        if is_bid {
            self.bid_candles@
        } else {
            self.ask_candles@
        }
    }

    /// The boundedness law at the store level: every instrument's bounded
    /// caches hold no more candles than their capacities.  Tick handling
    /// preserves it; only restore can overfill, and restore is bounded on
    /// the outside.
    pub open spec fn within_capacity(self) -> bool {
        &&& side_within_capacity(self.bid_candles@)
        &&& side_within_capacity(self.ask_candles@)
    }

    /// Both sides well formed under the store's capacities.
    pub open spec fn wf(self) -> bool {
        &&& self.minute_capacity >= 1
        &&& self.hour_capacity >= 1
        &&& side_ok(self.bid_candles@, self.minute_capacity, self.hour_capacity)
        &&& side_ok(self.ask_candles@, self.minute_capacity, self.hour_capacity)
    }

    /// An empty store.
    pub fn new(minute_capacity: usize, hour_capacity: usize) -> (r: CandlesInstrumentsCache)
        requires
            minute_capacity >= 1,
            hour_capacity >= 1,
        ensures
            r.wf(),
            r.within_capacity(),
            r.bid_candles@.len() == 0,
            r.ask_candles@.len() == 0,
            r.minute_capacity == minute_capacity,
            r.hour_capacity == hour_capacity,
    {
        CandlesInstrumentsCache {
            bid_candles: Vec::new(),
            ask_candles: Vec::new(),
            minute_capacity,
            hour_capacity,
        }
    }

    /// Runs a batch of ticks through both sides: every tick updates the bid
    /// side with its bid rate and the ask side with its ask rate.  Returns
    /// the updated candles of the bid pass and of the ask pass.
    pub fn update(&mut self, prices: Vec<CandlesBidAsk>) -> (r: (
        Vec<(CandleType, CandleModel)>,
        Vec<(CandleType, CandleModel)>,
    ))
        requires
            old(self).wf(),
            forall|i: int| 0 <= i < prices@.len() ==> (#[trigger] prices@[i]).date < MAX_EPOCH,
        ensures
            final(self).wf(),
            old(self).within_capacity() ==> final(self).within_capacity(),
            final(self).minute_capacity == old(self).minute_capacity,
            final(self).hour_capacity == old(self).hour_capacity,
            spec_side_update(
                old(self).bid_candles@,
                final(self).bid_candles@,
                prices@,
                true,
                r.0@,
            ),
            spec_side_update(
                old(self).ask_candles@,
                final(self).ask_candles@,
                prices@,
                false,
                r.1@,
            ),
            r.0@.len() == 4 * prices@.len(),
            r.1@.len() == 4 * prices@.len(),
    {
        let bid = update_side(
            &mut self.bid_candles,
            &prices,
            true,
            self.minute_capacity,
            self.hour_capacity,
        );
        let ask = update_side(
            &mut self.ask_candles,
            &prices,
            false,
            self.minute_capacity,
            self.hour_capacity,
        );
        (bid, ask)
    }

    /// Hands one restored candle to one instrument's cache on one side,
    /// creating the instrument's entry if the side has none.
    pub fn init(
        &mut self,
        instument_id: String,
        is_bid: bool,
        candle_type: CandleType,
        candle: CandleModel,
    )
        requires
            old(self).wf(),
            candle_ohlc_wf(candle),
            candle.datetime < MAX_EPOCH,
            candle.datetime == spec_bucket_start(candle_type, candle.datetime as int),
        ensures
            final(self).wf(),
            final(self).minute_capacity == old(self).minute_capacity,
            final(self).hour_capacity == old(self).hour_capacity,
            final(self).spec_side(!is_bid) == old(self).spec_side(!is_bid),
            ({
                let pre = old(self).spec_side(is_bid);
                let post = final(self).spec_side(is_bid);
                if side_has(pre, instument_id@) {
                    let i = side_index(pre, instument_id@);
                    &&& post == pre.update(i, post[i])
                    &&& CandlesCache::spec_init_post(
                        pre[i].spec_cache(candle_type),
                        post[i].spec_cache(candle_type),
                        candle,
                    )
                    &&& (forall|ct2: CandleType|
                        ct2 != candle_type ==> #[trigger] post[i].spec_cache(ct2) == pre[i].spec_cache(
                            ct2,
                        ))
                    &&& post[i].instrument_id == pre[i].instrument_id
                } else {
                    &&& post == pre.push(post.last())
                    &&& post.last().instrument_id@ == instument_id@
                    &&& post.last().spec_cache(candle_type).candles@ == seq![candle]
                    &&& (forall|ct2: CandleType|
                        ct2 != candle_type ==> (#[trigger] post.last().spec_cache(
                            ct2,
                        )).candles@.len() == 0)
                }
            }),
    {
        let side: &mut Vec<CandleTypeCache> = if is_bid {
            &mut self.bid_candles
        } else {
            &mut self.ask_candles
        };
        let ghost mid = side@;
        match find_instrument(side, &instument_id) {
            Some(j) => {
                proof {
                    lemma_side_index_unique(mid, instument_id@);
                }
                side[j].init(candle, candle_type);
                proof {
                    let e = side@[j as int];
                    assert(side@ == mid.update(j as int, e));
                    assert(e.spec_cache(CandleType::Minute).cache_type == mid[j as int].spec_cache(
                        CandleType::Minute,
                    ).cache_type);
                    assert(e.spec_cache(CandleType::Hour).cache_type == mid[j as int].spec_cache(
                        CandleType::Hour,
                    ).cache_type);
                    assert(e.spec_cache(CandleType::Day).cache_type == mid[j as int].spec_cache(
                        CandleType::Day,
                    ).cache_type);
                    assert(e.spec_cache(CandleType::Month).cache_type == mid[j as int].spec_cache(
                        CandleType::Month,
                    ).cache_type);
                    assert forall|x: int, y: int|
                        0 <= x < y < side@.len() implies (#[trigger] side@[x]).instrument_id@ != (
                        #[trigger] side@[y]).instrument_id@ by {
                        assert(mid[x].instrument_id@ != mid[y].instrument_id@);
                        assert(side@[x].instrument_id == mid[x].instrument_id);
                        assert(side@[y].instrument_id == mid[y].instrument_id);
                    }
                }
            },
            None => {
                let mut cache = CandleTypeCache::new(
                    instument_id.clone(),
                    self.minute_capacity,
                    self.hour_capacity,
                );
                let ghost cache0 = cache;
                cache.init(candle, candle_type);
                proof {
                    let pre_c = cache0.spec_cache(candle_type);
                    let post_c = cache.spec_cache(candle_type);
                    assert(pre_c.candles@.len() == 0);
                    assert(!crate::sorted_candles::has_key(pre_c.candles@, candle.datetime));
                    assert(CandlesCache::spec_init_post(pre_c, post_c, candle));
                    assert(post_c.candles@ == pre_c.candles@.insert(
                        crate::sorted_candles::key_index(post_c.candles@, candle.datetime),
                        candle,
                    ));
                    assert(post_c.candles@ =~= seq![candle]);
                    assert(cache.spec_cache(CandleType::Minute).cache_type == cache0.spec_cache(
                        CandleType::Minute,
                    ).cache_type);
                    assert(cache.spec_cache(CandleType::Hour).cache_type == cache0.spec_cache(
                        CandleType::Hour,
                    ).cache_type);
                    assert(cache.spec_cache(CandleType::Day).cache_type == cache0.spec_cache(
                        CandleType::Day,
                    ).cache_type);
                    assert(cache.spec_cache(CandleType::Month).cache_type == cache0.spec_cache(
                        CandleType::Month,
                    ).cache_type);
                }
                side.push(cache);
                proof {
                    assert(side@ == mid.push(cache));
                    assert forall|x: int, y: int|
                        0 <= x < y < side@.len() implies (#[trigger] side@[x]).instrument_id@ != (
                        #[trigger] side@[y]).instrument_id@ by {
                        if y < side@.len() - 1 {
                            assert(mid[x].instrument_id@ != mid[y].instrument_id@);
                        } else {
                            assert(side@[y].instrument_id@ == instument_id@);
                            assert(side@[x] == mid[x]);
                        }
                    }
                }
            },
        }
    }

    /// All candles of one instrument, side and granularity whose bucket
    /// start lies in `[start_date, end_date)`, ascending; empty when the
    /// side has never seen the instrument.
    pub fn get_by_date_range(
        &self,
        instument_id: String,
        candle_type: CandleType,
        is_bid: bool,
        start_date: u64,
        end_date: u64,
    ) -> (r: Vec<CandleModel>)
        requires
            self.wf(),
        ensures
            ({
                let side = self.spec_side(is_bid);
                if side_has(side, instument_id@) {
                    r@ == spec_range(
                        side[side_index(side, instument_id@)].spec_cache(candle_type).candles@,
                        start_date,
                        end_date,
                    )
                } else {
                    r@.len() == 0
                }
            }),
    {
        let side: &Vec<CandleTypeCache> = if is_bid {
            &self.bid_candles
        } else {
            &self.ask_candles
        };
        match find_instrument(side, &instument_id) {
            Some(j) => {
                proof {
                    lemma_side_index_unique(side@, instument_id@);
                }
                side[j].get_by_date_range(candle_type, start_date, end_date)
            },
            None => Vec::new(),
        }
    }

    /// Forgets every instrument on both sides.
    pub fn clear(&mut self)
        ensures
            old(self).wf() ==> final(self).wf(),
            final(self).bid_candles@.len() == 0,
            final(self).ask_candles@.len() == 0,
            final(self).minute_capacity == old(self).minute_capacity,
            final(self).hour_capacity == old(self).hour_capacity,
    {
        self.bid_candles.clear();
        self.ask_candles.clear();
    }
}

} // verus!
