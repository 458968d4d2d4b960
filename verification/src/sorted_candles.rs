//! Candle sequences ordered by bucket start, with keyed lookup and upsert.
//! Both the in-memory caches and the durable-record codec keep their candles
//! in this shape: strictly ascending by `datetime`, so each bucket start
//! appears at most once.

use vstd::prelude::*;

use crate::candle::{candle_ohlc_wf, CandleModel};

verus! {

/// Strictly ascending by bucket start; keys are therefore unique.
pub open spec fn sorted_by_datetime(s: Seq<CandleModel>) -> bool {
    forall|i: int, j: int|
        0 <= i < j < s.len() ==> #[trigger] s[i].datetime < #[trigger] s[j].datetime
}

/// Every candle in the sequence satisfies the OHLC invariant.
pub open spec fn all_ohlc_wf(s: Seq<CandleModel>) -> bool {
    forall|i: int| 0 <= i < s.len() ==> candle_ohlc_wf(#[trigger] s[i])
}

/// Some candle in the sequence sits at bucket start `k`.
pub open spec fn has_key(s: Seq<CandleModel>, k: u64) -> bool {
    exists|i: int| 0 <= i < s.len() && (#[trigger] s[i]).datetime == k
}

/// The index of the candle at bucket start `k` (unique when sorted).
pub open spec fn key_index(s: Seq<CandleModel>, k: u64) -> int {
    choose|i: int| 0 <= i < s.len() && (#[trigger] s[i]).datetime == k
}

/// In a sorted sequence the index of a present key is the only index
/// holding that key.
pub proof fn lemma_key_index_unique(s: Seq<CandleModel>, k: u64)
    requires
        sorted_by_datetime(s),
        has_key(s, k),
    ensures
        0 <= key_index(s, k) < s.len(),
        s[key_index(s, k)].datetime == k,
        forall|i: int| 0 <= i < s.len() && (#[trigger] s[i]).datetime == k ==> i == key_index(s, k),
{
    let ki = key_index(s, k);
    assert(0 <= ki < s.len() && s[ki].datetime == k);
    assert forall|i: int| 0 <= i < s.len() && (#[trigger] s[i]).datetime == k implies i == ki by {
        if i < ki {
            assert(s[i].datetime < s[ki].datetime);
        }
        if ki < i {
            assert(s[ki].datetime < s[i].datetime);
        }
    }
}

/// Finds the index of the candle at bucket start `k`, if any.
pub fn find_key_index(v: &Vec<CandleModel>, k: u64) -> (r: Option<usize>)
    ensures
        match r {
            Some(i) => i < v@.len() && v@[i as int].datetime == k && has_key(v@, k),
            None => !has_key(v@, k),
        },
{
    let mut i: usize = 0;
    while i < v.len()
        invariant
            i <= v@.len(),
            forall|j: int| 0 <= j < i ==> (#[trigger] v@[j]).datetime != k,
        decreases v@.len() - i,
    {
        if v[i].datetime == k {
            return Some(i);
        }
        i = i + 1;
    }
    None
}

/// What one upsert does to a sorted candle sequence: the candle replaces
/// the one at its own bucket start, or is inserted at its sorted position.
pub open spec fn spec_upsert_post(
    pre: Seq<CandleModel>,
    post: Seq<CandleModel>,
    c: CandleModel,
) -> bool {
    &&& has_key(post, c.datetime)
    &&& post[key_index(post, c.datetime)] == c
    &&& (has_key(pre, c.datetime) ==> post == pre.update(key_index(pre, c.datetime), c))
    &&& (!has_key(pre, c.datetime) ==> 0 <= key_index(post, c.datetime) <= pre.len() && post
        == pre.insert(key_index(post, c.datetime), c))
}

/// Inserts `c` at its sorted position, or replaces the candle already
/// sitting at the same bucket start.
pub fn upsert_sorted(v: &mut Vec<CandleModel>, c: CandleModel)
    requires
        sorted_by_datetime(old(v)@),
    ensures
        sorted_by_datetime(final(v)@),
        spec_upsert_post(old(v)@, final(v)@, c),
        has_key(old(v)@, c.datetime) ==> final(v)@ == old(v)@.update(
            key_index(old(v)@, c.datetime),
            c,
        ),
        !has_key(old(v)@, c.datetime) ==> exists|pos: int|
            0 <= pos <= old(v)@.len() && final(v)@ == old(v)@.insert(pos, c),
        (!has_key(old(v)@, c.datetime) && (forall|i: int|
            0 <= i < old(v)@.len() ==> (#[trigger] old(v)@[i]).datetime < c.datetime)) ==> final(v)@
            == old(v)@.push(c),
        has_key(final(v)@, c.datetime),
        final(v)@[key_index(final(v)@, c.datetime)] == c,
        final(v)@.len() == old(v)@.len() + if has_key(old(v)@, c.datetime) {
            0int
        } else {
            1int
        },
{
    let ghost s = v@;
    let mut i: usize = 0;
    loop
        invariant
            v@ == s,
            sorted_by_datetime(s),
            i <= s.len(),
            forall|j: int| 0 <= j < i ==> (#[trigger] s[j]).datetime < c.datetime,
        ensures
            v@ == s,
            i <= s.len(),
            forall|j: int| 0 <= j < i ==> (#[trigger] s[j]).datetime < c.datetime,
            i < s.len() ==> s[i as int].datetime >= c.datetime,
        decreases s.len() - i,
    {
        if i == v.len() {
            break ;
        }
        if v[i].datetime >= c.datetime {
            break ;
        }
        i = i + 1;
    }

    if i < v.len() && v[i].datetime == c.datetime {
        proof {
            lemma_key_index_unique(s, c.datetime);
        }
        v[i] = c;
        proof {
            let s2 = v@;
            assert(s2 == s.update(key_index(s, c.datetime), c));
            assert forall|x: int, y: int| 0 <= x < y < s2.len() implies (#[trigger] s2[x]).datetime
                < (#[trigger] s2[y]).datetime by {
                assert(s[x].datetime < s[y].datetime);
            }
            lemma_key_index_unique(s2, c.datetime);
        }
    } else {
        proof {
            if has_key(s, c.datetime) {
                lemma_key_index_unique(s, c.datetime);
                let ki = key_index(s, c.datetime);
                if ki < i {
                    assert(s[ki].datetime < c.datetime);
                }
                assert(false);
            }
        }
        v.insert(i, c);
        proof {
            let s2 = v@;
            assert(s2 == s.insert(i as int, c));
            s.insert_ensures(i as int, c);
            assert(s2[i as int] == c);
            assert(has_key(s2, c.datetime));
            assert forall|x: int, y: int| 0 <= x < y < s2.len() implies (#[trigger] s2[x]).datetime
                < (#[trigger] s2[y]).datetime by {
                if x < i && y < i {
                    assert(s2[x] == s[x] && s2[y] == s[y]);
                } else if x < i && y == i {
                    assert(s2[x] == s[x]);
                } else if x < i && y > i {
                    assert(s2[x] == s[x] && s2[y] == s[y - 1]);
                    if i <= y - 1 {
                        assert(s[y - 1].datetime >= c.datetime);
                        if i < y - 1 {
                            assert(s[i as int].datetime < s[y - 1].datetime);
                        }
                    }
                } else if x == i && y > i {
                    assert(s2[y] == s[y - 1]);
                    assert(y - 1 >= i);
                    if i < s.len() {
                        assert(s[i as int].datetime > c.datetime);
                        if i < y - 1 {
                            assert(s[i as int].datetime < s[y - 1].datetime);
                        }
                    }
                } else {
                    assert(s2[x] == s[x - 1] && s2[y] == s[y - 1]);
                    assert(s[x - 1].datetime < s[y - 1].datetime);
                }
            }
            if (forall|j: int| 0 <= j < s.len() ==> (#[trigger] s[j]).datetime < c.datetime) {
                assert(i == s.len());
                assert(s2 =~= s.push(c));
            }
            lemma_key_index_unique(s2, c.datetime);
            assert(s2[i as int].datetime == c.datetime);
        }
    }
}

} // verus!
