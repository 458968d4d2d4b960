//! The per-granularity candle cache: a map from bucket start to candle,
//! optionally bounded, evicting the oldest bucket when full.

use vstd::prelude::*;

use crate::calendar::MAX_EPOCH;
use crate::candle::{
    candle_ohlc_wf, spec_new_from_rate, spec_update_by_rate, CandleModel,
};
use crate::candle_type::{lemma_bucket_start_idempotent, spec_bucket_start, CandleType};
use crate::sorted_candles::{
    all_ohlc_wf, find_key_index, has_key, key_index, lemma_key_index_unique, sorted_by_datetime,
    upsert_sorted,
};

verus! {

/// Whether a cache is bounded, and by how many entries.
#[derive(Clone, Copy, Debug, PartialEq, Eq, Structural)]
pub enum CacheType {
    UnLimited,
    Limited(usize),
}

/// Candles of one granularity for one instrument side, ordered by bucket
/// start.  A bounded cache holds at most its capacity; inserting a fresh
/// bucket into a full cache first evicts the oldest (smallest) bucket.
#[derive(Clone, Debug)]
pub struct CandlesCache {
    pub candle_type: CandleType,
    pub candles: Vec<CandleModel>,
    pub cache_type: CacheType,
}

impl CandlesCache {
    /// The cache invariant: candles strictly ascending by bucket start, each
    /// satisfying the OHLC invariant, each stamped with the start of its own
    /// bucket; a bounded capacity is at least one.
    pub open spec fn wf(self) -> bool {
        &&& sorted_by_datetime(self.candles@)
        &&& all_ohlc_wf(self.candles@)
        &&& forall|i: int|
            0 <= i < self.candles@.len() ==> (#[trigger] self.candles@[i]).datetime
                == spec_bucket_start(self.candle_type, self.candles@[i].datetime as int)
        &&& forall|i: int|
            0 <= i < self.candles@.len() ==> (#[trigger] self.candles@[i]).datetime < MAX_EPOCH
        &&& match self.cache_type {
            CacheType::UnLimited => true,
            CacheType::Limited(cap) => cap >= 1,
        }
    }

    /// The boundedness law: a bounded cache holds no more candles than its
    /// capacity.  Tick handling preserves it; only `init` (restore) can
    /// overfill a cache, and restore is bounded on the outside.
    pub open spec fn within_capacity(self) -> bool {
        match self.cache_type {
            CacheType::UnLimited => true,
            CacheType::Limited(cap) => self.candles@.len() <= cap,
        }
    }

    /// Whether inserting one more fresh bucket would first evict one.
    pub open spec fn spec_at_capacity(self) -> bool {
        match self.cache_type {
            CacheType::UnLimited => false,
            CacheType::Limited(cap) => self.candles@.len() >= cap,
        }
    }

    /// An unbounded cache.
    pub fn new(candle_type: CandleType) -> (r: CandlesCache)
        ensures
            r.wf(),
            r.within_capacity(),
            r.candle_type == candle_type,
            r.cache_type == CacheType::UnLimited,
            r.candles@.len() == 0,
    {
        CandlesCache { candle_type, candles: Vec::new(), cache_type: CacheType::UnLimited }
    }

    /// A cache bounded to `capacity` entries.
    pub fn with_capacity(candle_type: CandleType, capacity: usize) -> (r: CandlesCache)
        requires
            capacity >= 1,
        ensures
            r.wf(),
            r.within_capacity(),
            r.candle_type == candle_type,
            r.cache_type == CacheType::Limited(capacity),
            r.candles@.len() == 0,
    {
        CandlesCache { candle_type, candles: Vec::new(), cache_type: CacheType::Limited(capacity) }
    }

    /// What inserting one restored candle does: the candle replaces the one
    /// at its own bucket start, or is inserted at its sorted position.
    pub open spec fn spec_init_post(pre: CandlesCache, post: CandlesCache, candle: CandleModel) -> bool {
        let s = pre.candles@;
        let s2 = post.candles@;
        let k = candle.datetime;
        &&& has_key(s2, k)
        &&& s2[key_index(s2, k)] == candle
        &&& (has_key(s, k) ==> s2 == s.update(key_index(s, k), candle))
        &&& (!has_key(s, k) ==> {
            let pos = key_index(s2, k);
            &&& 0 <= pos <= s.len()
            &&& s2 == s.insert(pos, candle)
        })
    }

    /// Inserts a restored candle at its own bucket start, replacing any
    /// candle already there.  Restore never evicts, and may overfill a
    /// bounded cache: the partition scan that feeds it is bounded on the
    /// outside.
    pub fn init(&mut self, candle: CandleModel)
        requires
            old(self).wf(),
            candle_ohlc_wf(candle),
            candle.datetime < MAX_EPOCH,
            candle.datetime == spec_bucket_start(old(self).candle_type, candle.datetime as int),
        ensures
            final(self).wf(),
            final(self).candle_type == old(self).candle_type,
            final(self).cache_type == old(self).cache_type,
            CandlesCache::spec_init_post(*old(self), *final(self), candle),
    {
        let ghost s = self.candles@;
        upsert_sorted(&mut self.candles, candle);
        proof {
            let s2 = self.candles@;
            lemma_key_index_unique(s2, candle.datetime);
            if has_key(s, candle.datetime) {
                lemma_key_index_unique(s, candle.datetime);
                assert forall|i: int| 0 <= i < s2.len() implies candle_ohlc_wf(#[trigger] s2[i])
                    && s2[i].datetime == spec_bucket_start(self.candle_type, s2[i].datetime as int)
                    && s2[i].datetime < MAX_EPOCH by {
                    if i != key_index(s, candle.datetime) {
                        assert(s2[i] == s[i]);
                    }
                }
            } else {
                let pos = choose|pos: int| 0 <= pos <= s.len() && s2 == s.insert(pos, candle);
                s.insert_ensures(pos, candle);
                assert(s2[pos] == candle);
                assert(pos == key_index(s2, candle.datetime));
                assert forall|i: int| 0 <= i < s2.len() implies candle_ohlc_wf(#[trigger] s2[i])
                    && s2[i].datetime == spec_bucket_start(self.candle_type, s2[i].datetime as int)
                    && s2[i].datetime < MAX_EPOCH by {
                    if i < pos {
                        assert(s2[i] == s[i]);
                    } else if i > pos {
                        assert(s2[i] == s[i - 1]);
                    }
                }
            }
        }
    }

    /// What one tick does to the stored candle sequence: the tick's bucket
    /// is updated in place when present; otherwise a fresh candle is
    /// inserted at its sorted position, after evicting the oldest bucket if
    /// the cache was bounded and full.  `r` is the granularity and a copy of
    /// the candle now stored for the tick's bucket.
    pub open spec fn spec_handle_new_rate_post(
        pre: CandlesCache,
        post: CandlesCache,
        date: u64,
        rate: u64,
        r: (CandleType, CandleModel),
    ) -> bool {
        let k = spec_bucket_start(pre.candle_type, date as int) as u64;
        let s = pre.candles@;
        let s2 = post.candles@;
        &&& r.1.datetime == k
        &&& has_key(s2, k)
        &&& s2[key_index(s2, k)] == r.1
        &&& (has_key(s, k) ==> r.1 == spec_update_by_rate(s[key_index(s, k)], rate) && s2
            == s.update(key_index(s, k), r.1))
        &&& (!has_key(s, k) ==> {
            let c = spec_new_from_rate(k, rate);
            let base = if pre.spec_at_capacity() {
                s.subrange(1, s.len() as int)
            } else {
                s
            };
            let pos = key_index(s2, k);
            &&& r.1 == c
            &&& 0 <= pos <= base.len()
            &&& s2 == base.insert(pos, c)
            &&& ((forall|i: int| 0 <= i < s.len() ==> (#[trigger] s[i]).datetime < k) ==> pos
                == base.len())
        })
    }

    /// Packages the facts established on the fresh-insert path into
    /// `spec_handle_new_rate_post`.
    proof fn lemma_handle_post_fresh(
        pre: CandlesCache,
        post: CandlesCache,
        date: u64,
        rate: u64,
        r: (CandleType, CandleModel),
    )
        requires
            ({
                let k = spec_bucket_start(pre.candle_type, date as int) as u64;
                let s = pre.candles@;
                let s2 = post.candles@;
                let c = spec_new_from_rate(k, rate);
                let base = if pre.spec_at_capacity() {
                    s.subrange(1, s.len() as int)
                } else {
                    s
                };
                let pos = key_index(s2, k);
                &&& r.1 == c
                &&& !has_key(s, k)
                &&& has_key(s2, k)
                &&& s2[key_index(s2, k)] == r.1
                &&& 0 <= pos <= base.len()
                &&& s2 == base.insert(pos, c)
                &&& ((forall|i: int| 0 <= i < s.len() ==> (#[trigger] s[i]).datetime < k) ==> pos
                    == base.len())
            }),
        ensures
            CandlesCache::spec_handle_new_rate_post(pre, post, date, rate, r),
    {
    }

    /// Packages the facts established on the in-place-update path into
    /// `spec_handle_new_rate_post`.
    proof fn lemma_handle_post_update(
        pre: CandlesCache,
        post: CandlesCache,
        date: u64,
        rate: u64,
        r: (CandleType, CandleModel),
    )
        requires
            ({
                let k = spec_bucket_start(pre.candle_type, date as int) as u64;
                let s = pre.candles@;
                let s2 = post.candles@;
                &&& has_key(s, k)
                &&& has_key(s2, k)
                &&& s2[key_index(s2, k)] == r.1
                &&& r.1 == spec_update_by_rate(s[key_index(s, k)], rate)
                &&& r.1.datetime == k
                &&& s2 == s.update(key_index(s, k), r.1)
            }),
        ensures
            CandlesCache::spec_handle_new_rate_post(pre, post, date, rate, r),
    {
    }

    /// Folds one tick into this cache: updates the candle of the tick's
    /// bucket in place, or inserts a fresh one, evicting the oldest bucket
    /// when a bounded cache is full.  Returns the granularity and a copy of
    /// the candle now stored for that bucket.
    #[verifier::rlimit(100)]
    #[verifier::spinoff_prover]
    pub fn handle_new_rate(&mut self, date: u64, rate: u64) -> (r: (CandleType, CandleModel))
        requires
            old(self).wf(),
            date < MAX_EPOCH,
        ensures
            final(self).wf(),
            old(self).within_capacity() ==> final(self).within_capacity(),
            final(self).candle_type == old(self).candle_type,
            final(self).cache_type == old(self).cache_type,
            r.0 == old(self).candle_type,
            candle_ohlc_wf(r.1),
            CandlesCache::spec_handle_new_rate_post(*old(self), *final(self), date, rate, r),
    {
        let ct = self.candle_type;
        let k = ct.format_date_by_type(date);
        proof {
            lemma_bucket_start_idempotent(ct, date as int);
            lemma_bucket_start_idempotent(ct, k as int);
        }

        match find_key_index(&self.candles, k) {
            Some(i) => {
                let ghost s = self.candles@;
                proof {
                    lemma_key_index_unique(s, k);
                }
                self.candles[i].update_by_rate(rate);
                let out = self.candles[i];
                proof {
                    let s2 = self.candles@;
                    assert(s2 == s.update(i as int, spec_update_by_rate(s[i as int], rate)));
                    assert forall|x: int, y: int|
                        0 <= x < y < s2.len() implies (#[trigger] s2[x]).datetime
                        < (#[trigger] s2[y]).datetime by {
                        assert(s[x].datetime < s[y].datetime);
                    }
                    assert forall|x: int| 0 <= x < s2.len() implies candle_ohlc_wf(
                        #[trigger] s2[x],
                    ) by {
                        if x != i as int {
                            assert(s2[x] == s[x]);
                        } else {
                            crate::candle::lemma_update_preserves_wf(s[x], rate);
                        }
                    }
                    lemma_key_index_unique(s2, k);
                    CandlesCache::lemma_handle_post_update(*old(self), *self, date, rate, (ct, out));
                }
                (ct, out)
            },
            None => {
                let c = CandleModel { open: rate, close: rate, high: rate, low: rate, datetime: k };
                let ghost s = self.candles@;
                let ghost evicting = self.spec_at_capacity();
                if let CacheType::Limited(cap) = self.cache_type {
                    if self.candles.len() >= cap {
                        let _evicted = self.candles.remove(0);
                        proof {
                            assert(self.candles@ =~= s.subrange(1, s.len() as int));
                        }
                    }
                }
                let ghost base = self.candles@;
                proof {
                    assert(base == if evicting { s.subrange(1, s.len() as int) } else { s });
                    assert forall|x: int, y: int|
                        0 <= x < y < base.len() implies (#[trigger] base[x]).datetime
                        < (#[trigger] base[y]).datetime by {
                        if evicting {
                            assert(base[x] == s[x + 1] && base[y] == s[y + 1]);
                        }
                    }
                    if has_key(base, k) {
                        let bi = key_index(base, k);
                        assert(base[bi].datetime == k);
                        if evicting {
                            assert(s[bi + 1].datetime == k);
                        }
                        assert(has_key(s, k));
                        assert(false);
                    }
                }
                upsert_sorted(&mut self.candles, c);
                proof {
                    let s2 = self.candles@;
                    lemma_key_index_unique(s2, k);
                    let pos = choose|pos: int| 0 <= pos <= base.len() && s2 == base.insert(pos, c);
                    base.insert_ensures(pos, c);
                    assert(s2[pos] == c);
                    assert(pos == key_index(s2, k));
                    assert forall|x: int| 0 <= x < s2.len() implies candle_ohlc_wf(
                        #[trigger] s2[x],
                    ) && s2[x].datetime == spec_bucket_start(
                        self.candle_type,
                        s2[x].datetime as int,
                    ) && s2[x].datetime < MAX_EPOCH by {
                        if x < pos {
                            assert(s2[x] == base[x]);
                            assert(base_in_old(s, base, evicting, x));
                        } else if x > pos {
                            assert(s2[x] == base[x - 1]);
                            assert(base_in_old(s, base, evicting, x - 1));
                        }
                    }
                    if (forall|i: int| 0 <= i < s.len() ==> (#[trigger] s[i]).datetime < k) {
                        assert forall|i: int|
                            0 <= i < base.len() implies (#[trigger] base[i]).datetime
                            < c.datetime by {
                            assert(base_in_old(s, base, evicting, i));
                        }
                        if pos < base.len() {
                            assert(s2[pos + 1] == base[pos]);
                            assert(s2[pos].datetime < s2[pos + 1].datetime);
                            assert(false);
                        }
                    }
                    CandlesCache::lemma_handle_post_fresh(*old(self), *self, date, rate, (ct, c));
                }
                (ct, c)
            },
        }
    }

    /// All candles whose bucket start lies in `[date_from, date_to)`,
    /// ascending by bucket start.
    pub fn get_by_date_range(&self, date_from: u64, date_to: u64) -> (r: Vec<CandleModel>)
        ensures
            r@ == spec_range(self.candles@, date_from, date_to),
    {
        let mut result: Vec<CandleModel> = Vec::new();
        let mut i: usize = 0;
        proof {
            lemma_spec_range_empty(self.candles@.subrange(0, 0), date_from, date_to);
        }
        while i < self.candles.len()
            invariant
                i <= self.candles@.len(),
                result@ == spec_range(self.candles@.subrange(0, i as int), date_from, date_to),
            decreases self.candles@.len() - i,
        {
            let c = self.candles[i];
            proof {
                lemma_spec_range_step(self.candles@, date_from, date_to, i as int);
            }
            if date_from <= c.datetime && c.datetime < date_to {
                result.push(c);
            }
            i = i + 1;
        }
        proof {
            assert(self.candles@.subrange(0, self.candles@.len() as int) =~= self.candles@);
        }
        result
    }

    /// Removes every candle.
    pub fn clear(&mut self)
        ensures
            final(self).candle_type == old(self).candle_type,
            final(self).cache_type == old(self).cache_type,
            final(self).candles@.len() == 0,
    {
        self.candles.clear()
    }
}

/// The candles of `s` whose bucket start lies in `[from, to)`, in order.
pub open spec fn spec_range(s: Seq<CandleModel>, from: u64, to: u64) -> Seq<CandleModel> {
    s.filter(|c: CandleModel| from <= c.datetime < to)
}

proof fn lemma_spec_range_empty(s: Seq<CandleModel>, from: u64, to: u64)
    requires
        s.len() == 0,
    ensures
        spec_range(s, from, to) =~= Seq::<CandleModel>::empty(),
{
    reveal(Seq::filter);
}

proof fn lemma_spec_range_step(s: Seq<CandleModel>, from: u64, to: u64, i: int)
    requires
        0 <= i < s.len(),
    ensures
        spec_range(s.subrange(0, i + 1), from, to) == if from <= s[i].datetime < to {
            spec_range(s.subrange(0, i), from, to).push(s[i])
        } else {
            spec_range(s.subrange(0, i), from, to)
        },
{
    let next = s.subrange(0, i + 1);
    let prefix = s.subrange(0, i);
    assert(next.drop_last() =~= prefix);
    assert(next.last() == s[i]);
    reveal(Seq::filter);
}

/// What `spec_range` selects: exactly the candles in range, kept in order.
pub proof fn lemma_spec_range_props(s: Seq<CandleModel>, from: u64, to: u64)
    ensures
        forall|j: int|
            0 <= j < spec_range(s, from, to).len() ==> s.contains(
                #[trigger] spec_range(s, from, to)[j],
            ) && from <= spec_range(s, from, to)[j].datetime < to,
        forall|i: int|
            0 <= i < s.len() && from <= (#[trigger] s[i]).datetime < to ==> spec_range(
                s,
                from,
                to,
            ).contains(s[i]),
    decreases s.len(),
{
    reveal(Seq::filter);
    if s.len() > 0 {
        lemma_spec_range_props(s.drop_last(), from, to);
        let r = spec_range(s, from, to);
        let rp = spec_range(s.drop_last(), from, to);
        assert forall|j: int| 0 <= j < r.len() implies s.contains(#[trigger] r[j]) && from
            <= r[j].datetime < to by {
            if j < rp.len() {
                assert(rp[j] == r[j]);
                let w = choose|w: int| 0 <= w < s.drop_last().len() && s.drop_last()[w] == rp[j];
                assert(s[w] == rp[j]);
            } else {
                assert(r[j] == s.last());
                assert(s[s.len() - 1] == s.last());
            }
        }
        assert forall|i: int|
            0 <= i < s.len() && from <= (#[trigger] s[i]).datetime < to implies r.contains(
            s[i],
        ) by {
            if i < s.len() - 1 {
                assert(s.drop_last()[i] == s[i]);
                assert(rp.contains(s[i]));
                let w = choose|w: int| 0 <= w < rp.len() && rp[w] == s[i];
                assert(r[w] == s[i]);
            } else {
                assert(r.last() == s[i]);
            }
        }
    }
}

/// The bucket starts of a candle sequence, in order.
pub open spec fn keys_of(s: Seq<CandleModel>) -> Seq<u64> {
    s.map_values(|c: CandleModel| c.datetime)
}

/// What one fresh insert does to the keys of a cache: the new key is
/// appended, after the oldest key is dropped if a bounded cache is full.
pub open spec fn spec_keys_step(ks: Seq<u64>, k: u64, cache_type: CacheType) -> Seq<u64> {
    match cache_type {
        CacheType::UnLimited => ks.push(k),
        CacheType::Limited(cap) => if ks.len() >= cap {
            ks.drop_first().push(k)
        } else {
            ks.push(k)
        },
    }
}

/// The keys held after feeding the fresh keys `ks`, oldest first, into an
/// empty cache.
pub open spec fn spec_feed_keys(ks: Seq<u64>, cache_type: CacheType) -> Seq<u64>
    decreases ks.len(),
{
    if ks.len() == 0 {
        Seq::empty()
    } else {
        spec_keys_step(spec_feed_keys(ks.drop_last(), cache_type), ks.last(), cache_type)
    }
}

/// One tick whose bucket is fresh and newer than every bucket in the cache
/// advances the cache's keys by exactly one `spec_keys_step`.
pub proof fn lemma_handle_new_rate_steps_keys(
    pre: CandlesCache,
    post: CandlesCache,
    date: u64,
    rate: u64,
    r: (CandleType, CandleModel),
)
    requires
        pre.wf(),
        CandlesCache::spec_handle_new_rate_post(pre, post, date, rate, r),
        !has_key(pre.candles@, spec_bucket_start(pre.candle_type, date as int) as u64),
        forall|i: int|
            0 <= i < pre.candles@.len() ==> (#[trigger] pre.candles@[i]).datetime
                < spec_bucket_start(pre.candle_type, date as int) as u64,
    ensures
        keys_of(post.candles@) == spec_keys_step(
            keys_of(pre.candles@),
            spec_bucket_start(pre.candle_type, date as int) as u64,
            pre.cache_type,
        ),
{
    let k = spec_bucket_start(pre.candle_type, date as int) as u64;
    let s = pre.candles@;
    let s2 = post.candles@;
    let c = spec_new_from_rate(k, rate);
    let base = if pre.spec_at_capacity() {
        s.subrange(1, s.len() as int)
    } else {
        s
    };
    let pos = key_index(s2, k);
    assert(pos == base.len());
    assert(s2 =~= base.push(c));
    assert(keys_of(s2) =~= keys_of(base).push(k));
    if pre.spec_at_capacity() {
        assert(keys_of(base) =~= keys_of(s).drop_first());
        assert(keys_of(s2) =~= spec_keys_step(keys_of(s), k, pre.cache_type));
    } else {
        assert(keys_of(s2) =~= spec_keys_step(keys_of(s), k, pre.cache_type));
    }
}

/// The eviction law for a bounded cache: feed fresh bucket starts in
/// ascending order into an empty cache of capacity `cap`, and what remains
/// is exactly the suffix of the last `cap` keys fed — the largest of all
/// keys ever inserted.
pub proof fn lemma_feed_keys_suffix(ks: Seq<u64>, cap: usize)
    requires
        cap >= 1,
        forall|i: int, j: int| 0 <= i < j < ks.len() ==> #[trigger] ks[i] < #[trigger] ks[j],
    ensures
        spec_feed_keys(ks, CacheType::Limited(cap)) == if ks.len() <= cap {
            ks
        } else {
            ks.subrange(ks.len() - cap, ks.len() as int)
        },
    decreases ks.len(),
{
    let ct = CacheType::Limited(cap);
    if ks.len() == 0 {
        assert(spec_feed_keys(ks, ct) =~= ks);
    } else {
        let prefix = ks.drop_last();
        lemma_feed_keys_suffix(prefix, cap);
        let fed = spec_feed_keys(prefix, ct);
        if prefix.len() <= cap {
            assert(fed == prefix);
            if fed.len() >= cap {
                assert(prefix.len() == cap);
                assert(spec_feed_keys(ks, ct) =~= ks.subrange(ks.len() - cap, ks.len() as int));
            } else {
                assert(spec_feed_keys(ks, ct) =~= ks);
            }
        } else {
            assert(fed == prefix.subrange(prefix.len() - cap, prefix.len() as int));
            assert(fed.len() == cap);
            assert(spec_feed_keys(ks, ct) =~= ks.subrange(ks.len() - cap, ks.len() as int));
        }
    }
}

/// Each entry of the post-eviction base sequence is an entry of the
/// pre-eviction sequence.
spec fn base_in_old(
    s: Seq<CandleModel>,
    base: Seq<CandleModel>,
    evicting: bool,
    i: int,
) -> bool {
    if evicting {
        0 <= i < base.len() ==> base[i] == s[i + 1]
    } else {
        0 <= i < base.len() ==> base[i] == s[i]
    }
}

} // verus!
