//! The compute half of the persistence engine: grouping candles into
//! durable cells, merging candles into a cell's payload, splitting upserts
//! into batches the table store accepts, walking partitions for restore,
//! and the checkpoint collection pass.  The table-store calls themselves
//! live outside the library; they hand payloads and keys in and out as
//! plain strings.

use vstd::prelude::*;

use crate::calendar::{add_one_month, spec_add_one_month, MAX_EPOCH, YEAR_9999_EPOCH};
use crate::candle::CandleModel;
use crate::candle_model_entity::{
    spec_decode, spec_partition_key, spec_row_key, CandleModelEntity,
};
use crate::candle_type::{spec_bucket_start, CandleType};
use crate::candles_instrument_cache::CandlesInstrumentsCache;
use crate::sorted_candles::{
    has_key, key_index, lemma_key_index_unique, sorted_by_datetime, spec_upsert_post,
    upsert_sorted,
};

verus! {

/// The largest number of upserts one table-store batch may carry.
pub const MAX_BATCH: usize = 90;

/// A cell's worth of candles: every candle of one group shares this
/// partition and row key.
pub struct SaveGroup {
    pub partition_key: String,
    pub row_key: String,
    pub candles: Vec<CandleModel>,
}

/// The candle sits in some group.
pub open spec fn candle_in_groups(r: Seq<SaveGroup>, c: CandleModel) -> bool {
    exists|g: int, j: int|
        0 <= g < r.len() && 0 <= j < r[g].candles@.len() && #[trigger] r[g].candles@[j] == c
}

/// The first `n` input candles each sit in some group.
pub open spec fn all_candles_grouped(r: Seq<SaveGroup>, candles: Seq<CandleModel>, n: int) -> bool {
    forall|k: int| 0 <= k < n ==> candle_in_groups(r, #[trigger] candles[k])
}

/// Every candle of every group is one of the input candles.
pub open spec fn groups_only_from(r: Seq<SaveGroup>, candles: Seq<CandleModel>) -> bool {
    forall|g: int, j: int|
        0 <= g < r.len() && 0 <= j < r[g].candles@.len() ==> exists|k: int|
            0 <= k < candles.len() && candles[k] == #[trigger] r[g].candles@[j]
}

/// The candles of a group all belong to the cell its keys name.
pub open spec fn group_consistent(g: SaveGroup, ct: CandleType) -> bool {
    forall|j: int|
        0 <= j < g.candles@.len() ==> (#[trigger] g.candles@[j]).datetime < MAX_EPOCH
            && spec_partition_key(g.candles@[j].datetime as int, ct) == g.partition_key@
            && spec_row_key(g.candles@[j].datetime as int, ct) == g.row_key@
}

/// Finds the group holding this cell's keys, if any.
fn find_group(r: &Vec<SaveGroup>, pk: &String, rk: &String) -> (res: Option<usize>)
    ensures
        match res {
            Some(g) => g < r@.len() && r@[g as int].partition_key@ == pk@ && r@[g as int].row_key@
                == rk@,
            None => forall|h: int|
                0 <= h < r@.len() ==> !((#[trigger] r@[h]).partition_key@ == pk@ && r@[h].row_key@
                    == rk@),
        },
{
    let mut g: usize = 0;
    while g < r.len()
        invariant
            0 <= g <= r@.len(),
            forall|h: int|
                0 <= h < g ==> !((#[trigger] r@[h]).partition_key@ == pk@ && r@[h].row_key@
                    == rk@),
        decreases r@.len() - g,
    {
        if crate::split::str_eq(r[g].partition_key.as_str(), pk.as_str()) && crate::split::str_eq(
            r[g].row_key.as_str(),
            rk.as_str(),
        ) {
            return Some(g);
        }
        g = g + 1;
    }
    None
}

/// Groups candles by their durable cell.  Every input candle lands in
/// exactly the group of its own keys; no two groups share keys; no group is
/// empty.
#[verifier::rlimit(100)]
#[verifier::spinoff_prover]
pub fn group_candles_for_save(candle_type: CandleType, candles: &Vec<CandleModel>) -> (r: Vec<
    SaveGroup,
>)
    requires
        forall|i: int| 0 <= i < candles@.len() ==> (#[trigger] candles@[i]).datetime < MAX_EPOCH,
    ensures
        forall|g: int| 0 <= g < r@.len() ==> group_consistent(#[trigger] r@[g], candle_type),
        forall|g: int| 0 <= g < r@.len() ==> (#[trigger] r@[g]).candles@.len() >= 1,
        forall|g: int, h: int|
            0 <= g < h < r@.len() ==> !((#[trigger] r@[g]).partition_key@ == (
            #[trigger] r@[h]).partition_key@ && r@[g].row_key@ == r@[h].row_key@),
        all_candles_grouped(r@, candles@, candles@.len() as int),
        groups_only_from(r@, candles@),
{
    let mut r: Vec<SaveGroup> = Vec::new();
    let mut i: usize = 0;
    while i < candles.len()
        invariant
            0 <= i <= candles@.len(),
            forall|k: int| 0 <= k < candles@.len() ==> (#[trigger] candles@[k]).datetime
                < MAX_EPOCH,
            forall|g: int| 0 <= g < r@.len() ==> group_consistent(#[trigger] r@[g], candle_type),
            forall|g: int| 0 <= g < r@.len() ==> (#[trigger] r@[g]).candles@.len() >= 1,
            forall|g: int, h: int|
                0 <= g < h < r@.len() ==> !((#[trigger] r@[g]).partition_key@ == (
                #[trigger] r@[h]).partition_key@ && r@[g].row_key@ == r@[h].row_key@),
            all_candles_grouped(r@, candles@, i as int),
            groups_only_from(r@, candles@),
        decreases candles@.len() - i,
    {
        let c = candles[i];
        let pk = CandleModelEntity::generate_partition_key(c.datetime, candle_type);
        let rk = CandleModelEntity::generate_row_key(c.datetime, candle_type);
        let ghost pre = r@;
        match find_group(&r, &pk, &rk) {
            Some(g) => {
                let entry = &mut r[g];
                entry.candles.push(c);
                proof {
                    assert(r@ == pre.update(g as int, r@[g as int]));
                    assert(r@[g as int].candles@ == pre[g as int].candles@.push(c));
                    assert(r@[g as int].partition_key == pre[g as int].partition_key);
                    assert(r@[g as int].row_key == pre[g as int].row_key);
                    assert(group_consistent(r@[g as int], candle_type)) by {
                        assert forall|j: int|
                            0 <= j < r@[g as int].candles@.len() implies (
                            #[trigger] r@[g as int].candles@[j]).datetime < MAX_EPOCH
                            && spec_partition_key(
                            r@[g as int].candles@[j].datetime as int,
                            candle_type,
                        ) == r@[g as int].partition_key@ && spec_row_key(
                            r@[g as int].candles@[j].datetime as int,
                            candle_type,
                        ) == r@[g as int].row_key@ by {
                            if j < r@[g as int].candles@.len() - 1 {
                                assert(r@[g as int].candles@[j] == pre[g as int].candles@[j]);
                                assert(group_consistent(pre[g as int], candle_type));
                            } else {
                                assert(r@[g as int].candles@[j] == c);
                            }
                        }
                    }
                    assert forall|k: int|
                        0 <= k < i + 1 implies candle_in_groups(r@, #[trigger] candles@[k]) by {
                        if k < i {
                            assert(candle_in_groups(pre, candles@[k]));
                            let (g2, j) = choose|g2: int, j: int|
                                0 <= g2 < pre.len() && 0 <= j < pre[g2].candles@.len()
                                    && #[trigger] pre[g2].candles@[j] == candles@[k];
                            if g2 == g as int {
                                assert(r@[g2].candles@[j] == pre[g2].candles@[j]);
                            } else {
                                assert(r@[g2] == pre[g2]);
                            }
                            assert(r@[g2].candles@[j] == candles@[k]);
                        } else {
                            assert(r@[g as int].candles@[r@[g as int].candles@.len() - 1]
                                == candles@[i as int]);
                        }
                    }
                    assert(all_candles_grouped(r@, candles@, i as int + 1));
                    assert forall|g2: int, j: int|
                        0 <= g2 < r@.len() && 0 <= j < r@[g2].candles@.len() implies exists|k: int|
                        0 <= k < candles@.len() && candles@[k] == #[trigger] r@[g2].candles@[j] by {
                        if g2 == g as int && j == r@[g2].candles@.len() - 1 {
                            assert(candles@[i as int] == r@[g2].candles@[j]);
                        } else {
                            if g2 == g as int {
                                assert(r@[g2].candles@[j] == pre[g2].candles@[j]);
                            } else {
                                assert(r@[g2] == pre[g2]);
                            }
                            let k = choose|k: int|
                                0 <= k < candles@.len() && candles@[k] == #[trigger] pre[g2].candles@[j];
                            assert(candles@[k] == r@[g2].candles@[j]);
                        }
                    }
                    assert(groups_only_from(r@, candles@));
                }
            },
            None => {
                let mut group_candles: Vec<CandleModel> = Vec::new();
                group_candles.push(c);
                let group = SaveGroup { partition_key: pk, row_key: rk, candles: group_candles };
                r.push(group);
                proof {
                    let last = r@.len() - 1;
                    assert(r@[last].candles@ =~= seq![c]);
                    assert(r@[last].candles@[0] == c);
                    assert forall|g2: int, h: int|
                        0 <= g2 < h < r@.len() implies !((#[trigger] r@[g2]).partition_key@ == (
                        #[trigger] r@[h]).partition_key@ && r@[g2].row_key@ == r@[h].row_key@) by {
                        if h < last {
                            assert(r@[g2] == pre[g2] && r@[h] == pre[h]);
                        } else {
                            assert(r@[g2] == pre[g2]);
                            assert(r@[h].partition_key@ == pk@ && r@[h].row_key@ == rk@);
                        }
                    }
                    assert forall|k: int|
                        0 <= k < i + 1 implies candle_in_groups(r@, #[trigger] candles@[k]) by {
                        if k < i {
                            assert(candle_in_groups(pre, candles@[k]));
                            let (g2, j) = choose|g2: int, j: int|
                                0 <= g2 < pre.len() && 0 <= j < pre[g2].candles@.len()
                                    && #[trigger] pre[g2].candles@[j] == candles@[k];
                            assert(r@[g2] == pre[g2]);
                            assert(r@[g2].candles@[j] == candles@[k]);
                        } else {
                            assert(r@[last].candles@[0] == candles@[i as int]);
                        }
                    }
                    assert(all_candles_grouped(r@, candles@, i as int + 1));
                    assert forall|g2: int, j: int|
                        0 <= g2 < r@.len() && 0 <= j < r@[g2].candles@.len() implies exists|k: int|
                        0 <= k < candles@.len() && candles@[k] == #[trigger] r@[g2].candles@[j] by {
                        if g2 == last {
                            assert(r@[g2].candles@[j] == c);
                            assert(candles@[i as int] == r@[g2].candles@[j]);
                        } else {
                            assert(r@[g2] == pre[g2]);
                            let k = choose|k: int|
                                0 <= k < candles@.len() && candles@[k] == #[trigger] pre[g2].candles@[j];
                            assert(candles@[k] == r@[g2].candles@[j]);
                        }
                    }
                    assert(groups_only_from(r@, candles@));
                }
            },
        }
        i = i + 1;
    }
    r
}

/// Splits `len` upserts into consecutive spans of at most `MAX_BATCH`:
/// the spans cover `0..len` in order, and none is empty.
pub fn batch_spans(len: usize) -> (r: Vec<(usize, usize)>)
    ensures
        forall|k: int|
            0 <= k < r@.len() ==> (#[trigger] r@[k]).0 < r@[k].1 <= len && r@[k].1 - r@[k].0
                <= MAX_BATCH,
        forall|k: int| 0 < k < r@.len() ==> (#[trigger] r@[k]).0 == r@[k - 1].1,
        r@.len() > 0 ==> r@[0].0 == 0 && r@[r@.len() - 1].1 == len,
        r@.len() == 0 <==> len == 0,
{
    let mut r: Vec<(usize, usize)> = Vec::new();
    let mut start: usize = 0;
    while start < len
        invariant
            0 <= start <= len,
            forall|k: int|
                0 <= k < r@.len() ==> (#[trigger] r@[k]).0 < r@[k].1 <= len && r@[k].1 - r@[k].0
                    <= MAX_BATCH,
            forall|k: int| 0 < k < r@.len() ==> (#[trigger] r@[k]).0 == r@[k - 1].1,
            r@.len() > 0 ==> r@[0].0 == 0 && r@[r@.len() - 1].1 == start,
            r@.len() == 0 ==> start == 0,
        decreases len - start,
    {
        let end = if len - start > MAX_BATCH {
            start + MAX_BATCH
        } else {
            len
        };
        r.push((start, end));
        start = end;
    }
    r
}

/// A stored cell is well formed when its payload decodes to candles that
/// are strictly ascending by bucket start, aligned to the granularity, in
/// range, and keyed into this very cell.  The engine's own encoder only
/// ever writes such payloads.
pub open spec fn stored_cell_wf(
    data: Seq<char>,
    ct: CandleType,
    pk: Seq<char>,
    rk: Seq<char>,
) -> bool {
    let d = spec_decode(data, ct, pk, rk);
    &&& d is Some
    &&& sorted_by_datetime(d->0)
    &&& forall|i: int|
        0 <= i < d->0.len() ==> (#[trigger] d->0[i]).datetime < MAX_EPOCH && d->0[i].datetime
            == spec_bucket_start(ct, d->0[i].datetime as int) && spec_partition_key(
            d->0[i].datetime as int,
            ct,
        ) == pk && spec_row_key(d->0[i].datetime as int, ct) == rk
}

/// Merges one candle into a cell's payload: the stored candles are read
/// back, the one sharing the candle's bucket start is replaced (or the
/// candle inserted at its sorted place), and the payload is repacked.
/// Returns false and leaves the entity untouched exactly when the stored
/// payload is corrupt: undecodable, out of order, misaligned, or keyed
/// outside this cell.
#[verifier::rlimit(100)]
#[verifier::spinoff_prover]
pub fn merge_candle_into_entity(
    entity: &mut CandleModelEntity,
    candle: CandleModel,
    candle_type: CandleType,
) -> (ok: bool)
    requires
        candle.datetime < MAX_EPOCH,
        candle.datetime == spec_bucket_start(candle_type, candle.datetime as int),
        old(entity).partition_key@ == spec_partition_key(candle.datetime as int, candle_type),
        old(entity).row_key@ == spec_row_key(candle.datetime as int, candle_type),
    ensures
        final(entity).partition_key == old(entity).partition_key,
        final(entity).row_key == old(entity).row_key,
        ok == stored_cell_wf(
            old(entity).data@,
            candle_type,
            old(entity).partition_key@,
            old(entity).row_key@,
        ),
        !ok ==> *final(entity) == *old(entity),
        ok ==> stored_cell_wf(
            final(entity).data@,
            candle_type,
            final(entity).partition_key@,
            final(entity).row_key@,
        ),
        ok ==> ({
            let prev_decode = spec_decode(
                old(entity).data@,
                candle_type,
                old(entity).partition_key@,
                old(entity).row_key@,
            );
            let new_decode = spec_decode(
                final(entity).data@,
                candle_type,
                final(entity).partition_key@,
                final(entity).row_key@,
            );
            &&& prev_decode is Some
            &&& new_decode is Some
            &&& sorted_by_datetime(new_decode->0)
            &&& spec_upsert_post(prev_decode->0, new_decode->0, candle)
        }),
{
    let ghost wf_goal = stored_cell_wf(
        old(entity).data@,
        candle_type,
        old(entity).partition_key@,
        old(entity).row_key@,
    );
    let decoded = match entity.get_candles(candle_type) {
        Some(v) => v,
        None => {
            return false;
        },
    };
    let ghost dseq = decoded@;
    // revalidate the stored candles: sorted, aligned, inside this cell
    let mut m: Vec<CandleModel> = Vec::new();
    let mut i: usize = 0;
    while i < decoded.len()
        invariant
            0 <= i <= decoded@.len(),
            dseq == decoded@,
            spec_decode(
                old(entity).data@,
                candle_type,
                old(entity).partition_key@,
                old(entity).row_key@,
            ) == Some(dseq),
            wf_goal == stored_cell_wf(
                old(entity).data@,
                candle_type,
                old(entity).partition_key@,
                old(entity).row_key@,
            ),
            m@ == decoded@.subrange(0, i as int),
            sorted_by_datetime(m@),
            forall|j: int|
                0 <= j < i ==> (#[trigger] decoded@[j]).datetime < MAX_EPOCH
                    && decoded@[j].datetime == spec_bucket_start(
                    candle_type,
                    decoded@[j].datetime as int,
                ) && spec_partition_key(decoded@[j].datetime as int, candle_type) == entity.partition_key@
                    && spec_row_key(decoded@[j].datetime as int, candle_type) == entity.row_key@,
            entity == old(entity),
        decreases decoded@.len() - i,
    {
        let c = decoded[i];
        proof {
            assert(dseq[i as int] == c);
        }
        if c.datetime >= MAX_EPOCH {
            proof {
                assert(!wf_goal);
            }
            return false;
        }
        if candle_type.format_date_by_type(c.datetime) != c.datetime {
            proof {
                assert(!wf_goal);
            }
            return false;
        }
        let cpk = CandleModelEntity::generate_partition_key(c.datetime, candle_type);
        let crk = CandleModelEntity::generate_row_key(c.datetime, candle_type);
        if !crate::split::str_eq(cpk.as_str(), entity.partition_key.as_str()) {
            proof {
                assert(!wf_goal);
            }
            return false;
        }
        if !crate::split::str_eq(crk.as_str(), entity.row_key.as_str()) {
            proof {
                assert(!wf_goal);
            }
            return false;
        }
        if m.len() > 0 && m[m.len() - 1].datetime >= c.datetime {
            proof {
                assert(dseq[i as int - 1] == m@[m@.len() - 1]);
                assert(!sorted_by_datetime(dseq));
                assert(!wf_goal);
            }
            return false;
        }
        let ghost m0 = m@;
        m.push(c);
        proof {
            assert(m@ =~= decoded@.subrange(0, i as int + 1));
            assert forall|x: int, y: int|
                0 <= x < y < m@.len() implies (#[trigger] m@[x]).datetime < (
                #[trigger] m@[y]).datetime by {
                if y < m@.len() - 1 {
                    assert(m0[x].datetime < m0[y].datetime);
                } else if x < m@.len() - 1 {
                    if x < m0.len() - 1 {
                        assert(m0[x].datetime < m0[m0.len() - 1].datetime);
                    }
                }
            }
        }
        i = i + 1;
    }
    proof {
        assert(decoded@.subrange(0, decoded@.len() as int) =~= decoded@);
        assert(wf_goal);
    }
    let ghost prev = m@;
    upsert_sorted(&mut m, candle);
    proof {
        lemma_key_index_unique(m@, candle.datetime);
    }
    let packed = CandleModelEntity::to_data_string(&m, candle_type);
    proof {
        let s2 = m@;
        assert forall|j: int|
            0 <= j < s2.len() implies (#[trigger] s2[j]).datetime < MAX_EPOCH && s2[j].datetime
            == spec_bucket_start(candle_type, s2[j].datetime as int) && spec_partition_key(
            s2[j].datetime as int,
            candle_type,
        ) == entity.partition_key@ && spec_row_key(s2[j].datetime as int, candle_type)
            == entity.row_key@ by {
            if has_key(prev, candle.datetime) {
                lemma_key_index_unique(prev, candle.datetime);
                if j != key_index(prev, candle.datetime) {
                    assert(s2[j] == prev[j]);
                }
            } else {
                let pos = key_index(s2, candle.datetime);
                prev.insert_ensures(pos, candle);
                if j < pos {
                    assert(s2[j] == prev[j]);
                } else if j > pos {
                    assert(s2[j] == prev[j - 1]);
                }
            }
        }
        crate::candle_model_entity::lemma_decode_data_string(
            s2,
            candle_type,
            entity.partition_key@,
            entity.row_key@,
        );
    }
    entity.data = packed;
    proof {
        assert(stored_cell_wf(
            entity.data@,
            candle_type,
            entity.partition_key@,
            entity.row_key@,
        ));
    }
    true
}

/// The lower bound restore asks the store for: bounded caches reach back
/// only as far as they can hold (their capacity in minutes or hours),
/// unbounded ones over the whole table.  The subtraction saturates at the
/// epoch.
pub fn restore_lower_bound(
    candle_type: CandleType,
    now: u64,
    minute_limit: usize,
    hour_limit: usize,
) -> (r: u64)
    ensures
        candle_type == CandleType::Minute ==> r == if now >= minute_limit * 60 {
            (now - minute_limit * 60) as u64
        } else {
            0u64
        },
        candle_type == CandleType::Hour ==> r == if now >= hour_limit * 3600 {
            (now - hour_limit * 3600) as u64
        } else {
            0u64
        },
        candle_type == CandleType::Day || candle_type == CandleType::Month ==> r == u64::MAX,
{
    match candle_type {
        CandleType::Minute => {
            let span: u64 = if minute_limit as u64 > u64::MAX / 60 {
                u64::MAX
            } else {
                minute_limit as u64 * 60
            };
            proof {
                assert(minute_limit as u64 > u64::MAX / 60 ==> minute_limit * 60 > u64::MAX) by (
                nonlinear_arith);
            }
            now.saturating_sub(span)
        },
        CandleType::Hour => {
            let span: u64 = if hour_limit as u64 > u64::MAX / 3600 {
                u64::MAX
            } else {
                hour_limit as u64 * 3600
            };
            proof {
                assert(hour_limit as u64 > u64::MAX / 3600 ==> hour_limit * 3600 > u64::MAX) by (
                nonlinear_arith);
            }
            now.saturating_sub(span)
        },
        CandleType::Day => u64::MAX,
        CandleType::Month => u64::MAX,
    }
}

/// One step of the restore partition walk: a calendar day for minute
/// tables, a calendar month for hour tables.
pub open spec fn spec_step(ct: CandleType, t: int) -> int {
    match ct {
        CandleType::Minute => t + 86400,
        CandleType::Hour => spec_add_one_month(t),
        CandleType::Day => t,
        CandleType::Month => t,
    }
}

/// The partition keys the walk visits after `t`: it steps until it has
/// passed `now`, and keeps the first key past it.
pub open spec fn spec_walk_keys(ct: CandleType, t: int, now: int) -> Seq<Seq<char>>
    decreases now - t,
    when 0 <= t <= now < YEAR_9999_EPOCH && (ct == CandleType::Minute || ct == CandleType::Hour)
    via spec_walk_keys_decreases
{
    let next = spec_step(ct, t);
    if next > now {
        seq![spec_partition_key(next, ct)]
    } else {
        seq![spec_partition_key(next, ct)] + spec_walk_keys(ct, next, now)
    }
}

#[via_fn]
proof fn spec_walk_keys_decreases(ct: CandleType, t: int, now: int) {
    lemma_step_increases(ct, t);
}

/// Both walk steps move strictly forward.
proof fn lemma_step_increases(ct: CandleType, t: int)
    requires
        0 <= t < YEAR_9999_EPOCH,
        ct == CandleType::Minute || ct == CandleType::Hour,
    ensures
        spec_step(ct, t) > t,
{
    if ct == CandleType::Hour {
        lemma_add_one_month_increases(t);
    }
}

/// The spec-level month step moves strictly forward on in-range inputs.
proof fn lemma_add_one_month_increases(t: int)
    requires
        0 <= t < YEAR_9999_EPOCH,
    ensures
        spec_add_one_month(t) > t,
{
    let p = crate::calendar::lemma_parts_of_epoch_wf(t);
    crate::calendar::lemma_year_9999();
    crate::calendar::lemma_max_day_number();
    if p.year >= 9999 {
        crate::calendar::lemma_days_before_year_mono(9999, p.year as int);
        crate::calendar::lemma_days_before_year_mono(1970, p.year as int);
        crate::calendar::lemma_day_in_year(p.year as int, p.month as int, p.day as int);
        assert(crate::calendar::spec_epoch_of_parts(p) >= crate::calendar::days_before_year(9999)
            * 86400) by (nonlinear_arith)
            requires
                crate::calendar::spec_epoch_of_parts(p) == crate::calendar::spec_day_number(
                    p.year as int,
                    p.month as int,
                    p.day as int,
                ) * 86400 + p.hour * 3600 + p.minute * 60 + p.second,
                crate::calendar::spec_day_number(p.year as int, p.month as int, p.day as int)
                    >= crate::calendar::days_before_year(9999),
                p.hour >= 0 && p.minute >= 0 && p.second >= 0,
        ;
        assert(false);
    }
    let y2: int = if p.month == 12 {
        p.year + 1
    } else {
        p.year as int
    };
    let m2: int = if p.month == 12 {
        1
    } else {
        p.month + 1
    };
    let d2: int = if p.day <= crate::calendar::spec_days_in_month(y2, m2) {
        p.day as int
    } else {
        crate::calendar::spec_days_in_month(y2, m2)
    };
    let q = crate::calendar::DateParts {
        year: y2 as u64,
        month: m2 as u64,
        day: d2 as u64,
        hour: p.hour,
        minute: p.minute,
        second: p.second,
    };
    let dn_p = crate::calendar::spec_day_number(p.year as int, p.month as int, p.day as int);
    let dn_q = crate::calendar::spec_day_number(q.year as int, q.month as int, q.day as int);
    if p.month == 12 {
        crate::calendar::lemma_days_before_month_full(p.year as int);
        crate::calendar::lemma_days_before_month_mono(p.year as int, p.month as int, 13);
        assert(crate::calendar::days_before_year(p.year as int + 1)
            == crate::calendar::days_before_year(p.year as int)
            + crate::calendar::spec_days_in_year(p.year as int));
        assert(dn_q > dn_p);
    } else {
        crate::calendar::lemma_days_before_month_mono(
            p.year as int,
            p.month as int,
            p.month as int + 1,
        );
        assert(dn_q > dn_p);
    }
    assert(crate::calendar::spec_epoch_of_parts(q) > crate::calendar::spec_epoch_of_parts(p)) by (
    nonlinear_arith)
        requires
            crate::calendar::spec_epoch_of_parts(p) == dn_p * 86400 + p.hour * 3600 + p.minute * 60
                + p.second,
            crate::calendar::spec_epoch_of_parts(q) == dn_q * 86400 + q.hour * 3600 + q.minute * 60
                + q.second,
            q.hour == p.hour && q.minute == p.minute && q.second == p.second,
            p.hour < 24 && p.minute < 60 && p.second < 60,
            p.hour >= 0 && p.minute >= 0 && p.second >= 0,
            dn_q > dn_p,
    ;
}

/// The partition keys a bounded-granularity restore must scan: the key of
/// the lower bound itself, then one key per calendar step until the walk
/// has passed `now` (the first key past `now` is kept, as the last page may
/// still hold rows).
pub fn partition_walk(candle_type: CandleType, expiration_date: u64, now: u64) -> (r: Vec<String>)
    requires
        candle_type == CandleType::Minute || candle_type == CandleType::Hour,
        expiration_date <= now,
        now < YEAR_9999_EPOCH,
    ensures
        r.deep_view() == seq![
            spec_partition_key(expiration_date as int, candle_type),
        ] + spec_walk_keys(candle_type, expiration_date as int, now as int),
{
    proof {
        crate::calendar::lemma_year_9999();
        crate::calendar::lemma_max_day_number();
    }
    let mut r: Vec<String> = Vec::new();
    r.push(CandleModelEntity::generate_partition_key(expiration_date, candle_type));
    let mut cur: u64 = expiration_date;
    proof {
        assert(r.deep_view() =~= seq![spec_partition_key(expiration_date as int, candle_type)]);
    }
    loop
        invariant_except_break
            cur <= now,
            seq![
                spec_partition_key(expiration_date as int, candle_type),
            ] + spec_walk_keys(candle_type, expiration_date as int, now as int) == r.deep_view()
                + spec_walk_keys(candle_type, cur as int, now as int),
        invariant
            candle_type == CandleType::Minute || candle_type == CandleType::Hour,
            now < YEAR_9999_EPOCH,
            expiration_date <= now,
        ensures
            r.deep_view() == seq![
                spec_partition_key(expiration_date as int, candle_type),
            ] + spec_walk_keys(candle_type, expiration_date as int, now as int),
        decreases now - cur,
    {
        proof {
            crate::calendar::lemma_year_9999();
            crate::calendar::lemma_max_day_number();
        }
        let next: u64 = match candle_type {
            CandleType::Minute => cur + 86400,
            _ => add_one_month(cur),
        };
        proof {
            lemma_step_increases(candle_type, cur as int);
            assert(next == spec_step(candle_type, cur as int));
        }
        let ghost dv0 = r.deep_view();
        r.push(CandleModelEntity::generate_partition_key(next, candle_type));
        proof {
            assert(r.deep_view() =~= dv0 + seq![spec_partition_key(next as int, candle_type)]);
        }
        if next > now {
            proof {
                assert(spec_walk_keys(candle_type, cur as int, now as int) == seq![
                    spec_partition_key(next as int, candle_type),
                ]);
                assert(dv0 + seq![spec_partition_key(next as int, candle_type)] =~= dv0
                    + spec_walk_keys(candle_type, cur as int, now as int));
            }
            break ;
        }
        proof {
            assert(spec_walk_keys(candle_type, cur as int, now as int) == seq![
                spec_partition_key(next as int, candle_type),
            ] + spec_walk_keys(candle_type, next as int, now as int));
            assert(dv0 + (seq![spec_partition_key(next as int, candle_type)] + spec_walk_keys(
                candle_type,
                next as int,
                now as int,
            )) =~= (dv0 + seq![spec_partition_key(next as int, candle_type)]) + spec_walk_keys(
                candle_type,
                next as int,
                now as int,
            ));
        }
        cur = next;
    }
    r
}

/// One checkpoint pass over one side of the store: for every instrument
/// and granularity, the candles whose bucket start fell inside
/// `[latest_timestamp, current_time)` since the last pass, in store order.
pub fn collect_candles_to_persist(
    cache: &CandlesInstrumentsCache,
    is_bid: bool,
    latest_timestamp: u64,
    current_time: u64,
) -> (r: Vec<(String, CandleType, Vec<CandleModel>)>)
    requires
        cache.wf(),
    ensures
        ({
            let side = cache.spec_side(is_bid);
            &&& r@.len() == 4 * side.len()
            &&& forall|e: int, c: int|
                0 <= e < side.len() && 0 <= c < 4 ==> {
                    let item = #[trigger] r@[4 * e + c];
                    &&& item.0@ == side[e].instrument_id@
                    &&& item.1.spec_code() == c
                    &&& item.2@ == crate::candle_cache::spec_range(
                        side[e].spec_cache(item.1).candles@,
                        latest_timestamp,
                        current_time,
                    )
                }
        }),
{
    let side: &Vec<crate::candle_type_cache::CandleTypeCache> = if is_bid {
        &cache.bid_candles
    } else {
        &cache.ask_candles
    };
    let mut r: Vec<(String, CandleType, Vec<CandleModel>)> = Vec::new();
    let mut e: usize = 0;
    while e < side.len()
        invariant
            0 <= e <= side@.len(),
            r@.len() == 4 * e,
            forall|x: int, c: int|
                0 <= x < e && 0 <= c < 4 ==> {
                    let item = #[trigger] r@[4 * x + c];
                    &&& item.0@ == side@[x].instrument_id@
                    &&& item.1.spec_code() == c
                    &&& item.2@ == crate::candle_cache::spec_range(
                        side@[x].spec_cache(item.1).candles@,
                        latest_timestamp,
                        current_time,
                    )
                },
        decreases side@.len() - e,
    {
        let entry = &side[e];
        let minute = entry.get_by_date_range(CandleType::Minute, latest_timestamp, current_time);
        let hour = entry.get_by_date_range(CandleType::Hour, latest_timestamp, current_time);
        let day = entry.get_by_date_range(CandleType::Day, latest_timestamp, current_time);
        let month = entry.get_by_date_range(CandleType::Month, latest_timestamp, current_time);
        r.push((entry.instrument_id.clone(), CandleType::Minute, minute));
        r.push((entry.instrument_id.clone(), CandleType::Hour, hour));
        r.push((entry.instrument_id.clone(), CandleType::Day, day));
        r.push((entry.instrument_id.clone(), CandleType::Month, month));
        e = e + 1;
    }
    r
}

/// The largest bucket start among restored candles, folded over `current`:
/// restore tracks it to seed the first checkpoint window.
pub fn max_datetime(candles: &Vec<CandleModel>, current: u64) -> (r: u64)
    ensures
        r >= current,
        forall|i: int| 0 <= i < candles@.len() ==> (#[trigger] candles@[i]).datetime <= r,
        r == current || exists|i: int|
            0 <= i < candles@.len() && (#[trigger] candles@[i]).datetime == r,
{
    let mut r: u64 = current;
    let mut i: usize = 0;
    while i < candles.len()
        invariant
            0 <= i <= candles@.len(),
            r >= current,
            forall|j: int| 0 <= j < i ==> (#[trigger] candles@[j]).datetime <= r,
            r == current || exists|j: int|
                0 <= j < candles@.len() && (#[trigger] candles@[j]).datetime == r,
        decreases candles@.len() - i,
    {
        if candles[i].datetime > r {
            r = candles[i].datetime;
        }
        i = i + 1;
    }
    r
}

} // verus!
