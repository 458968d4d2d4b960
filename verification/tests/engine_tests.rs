use candle_writer::candle::CandleModel;
use candle_writer::candle_model_entity::CandleModelEntity;
use candle_writer::candle_type::CandleType;
use candle_writer::candles_instrument_cache::{CandlesBidAsk, CandlesInstrumentsCache};
use candle_writer::database::{
    batch_spans, collect_candles_to_persist, group_candles_for_save, max_datetime,
    merge_candle_into_entity, partition_walk, restore_lower_bound,
};
use candle_writer::instrument_storage::InstrumentStorage;

fn tick(date: u64, bid: u64, ask: u64) -> CandlesBidAsk {
    CandlesBidAsk { date, instrument: String::from("EURUSD"), bid, ask }
}

#[test]
fn every_cached_candle_keeps_the_ohlc_invariant() {
    let mut cache = CandlesInstrumentsCache::new(100, 100);
    cache.update(vec![tick(1662559404, 50, 50), tick(1662559406, 90, 10), tick(
        1662559407, 20, 70,
    )]);
    for entry in cache.bid_candles.iter().chain(cache.ask_candles.iter()) {
        for cc in [
            &entry.candles_by_minute,
            &entry.candles_by_hour,
            &entry.candles_by_day,
            &entry.candles_by_month,
        ] {
            for c in cc.candles.iter() {
                assert!(c.low <= c.open && c.open <= c.high);
                assert!(c.low <= c.close && c.close <= c.high);
                // the timestamp is the start of its own bucket
                assert_eq!(cc.candle_type.format_date_by_type(c.datetime), c.datetime);
            }
        }
    }
}

#[test]
fn applying_one_tick_twice_equals_applying_it_once() {
    let mut once = CandlesInstrumentsCache::new(100, 100);
    once.update(vec![tick(1662559404, 50, 60), tick(1662559406, 90, 10)]);
    let mut twice = CandlesInstrumentsCache::new(100, 100);
    twice.update(vec![
        tick(1662559404, 50, 60),
        tick(1662559406, 90, 10),
        tick(1662559406, 90, 10),
    ]);
    let a = once.get_by_date_range(String::from("EURUSD"), CandleType::Minute, true, 0, u64::MAX);
    let b = twice.get_by_date_range(String::from("EURUSD"), CandleType::Minute, true, 0, u64::MAX);
    assert_eq!(a, b);
}

#[test]
fn tick_order_moves_close_but_not_high_or_low() {
    let mut ab = CandlesInstrumentsCache::new(100, 100);
    ab.update(vec![tick(1662559404, 30, 30), tick(1662559406, 80, 80)]);
    let mut ba = CandlesInstrumentsCache::new(100, 100);
    ba.update(vec![tick(1662559404, 80, 80), tick(1662559406, 30, 30)]);
    let a = ab.get_by_date_range(String::from("EURUSD"), CandleType::Minute, true, 0, u64::MAX);
    let b = ba.get_by_date_range(String::from("EURUSD"), CandleType::Minute, true, 0, u64::MAX);
    assert_eq!(a[0].high, b[0].high);
    assert_eq!(a[0].low, b[0].low);
    assert_eq!(a[0].close, 80);
    assert_eq!(b[0].close, 30);
    assert_ne!(a[0].close, b[0].close);
}

#[test]
fn bounded_eviction_keeps_the_newest_buckets() {
    // capacity 100, 151 one-minute ticks: the oldest 51 buckets leave
    let mut cache = CandlesInstrumentsCache::new(100, 100);
    let mut ticks = Vec::new();
    for i in 0..151u64 {
        ticks.push(tick(1662559404 + 60 * i, 1000 + i, 2000 + i));
    }
    cache.update(ticks);
    let minutes =
        cache.get_by_date_range(String::from("EURUSD"), CandleType::Minute, true, 0, u64::MAX);
    assert_eq!(minutes.len(), 100);
    // the survivors are exactly the largest 100 bucket starts
    for (k, c) in minutes.iter().enumerate() {
        assert_eq!(c.datetime, 1662559380 + 60 * (51 + k as u64));
    }
}

#[test]
fn merge_extends_a_stored_candle() {
    // a checkpointed candle, re-read and extended by a later checkpoint
    let stored = CandleModel { open: 10, close: 20, high: 25, low: 9, datetime: 1662559380 };
    let mut entity = CandleModelEntity::create(CandleType::Minute, stored);
    entity.set_candles(&vec![stored], 0, CandleType::Minute);

    let merged = CandleModel { open: 10, close: 30, high: 30, low: 8, datetime: 1662559380 };
    assert!(merge_candle_into_entity(&mut entity, merged, CandleType::Minute));
    let back = entity.get_candles(CandleType::Minute).unwrap();
    assert_eq!(back, vec![merged]);

    // a second bucket of the same hour joins the same cell
    let later = CandleModel { open: 1, close: 2, high: 3, low: 0, datetime: 1662559440 };
    assert!(merge_candle_into_entity(&mut entity, later, CandleType::Minute));
    let back = entity.get_candles(CandleType::Minute).unwrap();
    assert_eq!(back, vec![merged, later]);
}

#[test]
fn merge_refuses_a_corrupt_payload() {
    let candle = CandleModel { open: 1, close: 2, high: 3, low: 0, datetime: 1662559380 };
    let mut entity = CandleModelEntity::create(CandleType::Minute, candle);
    entity.data = String::from("not a payload");
    let before = entity.data.clone();
    assert!(!merge_candle_into_entity(&mut entity, candle, CandleType::Minute));
    assert_eq!(entity.data, before);
}

#[test]
fn restore_round_trip_reproduces_the_store() {
    // write a known set of candles into entities, restore a fresh engine
    // from them, and query every range back
    let candles = vec![
        CandleModel { open: 10, close: 20, high: 25, low: 9, datetime: 1662559380 },
        CandleModel { open: 11, close: 21, high: 26, low: 8, datetime: 1662559440 },
        CandleModel { open: 12, close: 22, high: 27, low: 7, datetime: 1662563040 },
    ];
    let mut durable: Vec<CandleModelEntity> = Vec::new();
    for group in group_candles_for_save(CandleType::Minute, &candles) {
        let mut entity = CandleModelEntity {
            partition_key: group.partition_key,
            row_key: group.row_key,
            data: String::new(),
        };
        for c in group.candles.iter() {
            assert!(merge_candle_into_entity(&mut entity, *c, CandleType::Minute));
        }
        durable.push(entity);
    }
    assert_eq!(durable.len(), 2);

    let mut fresh = CandlesInstrumentsCache::new(100, 100);
    let mut latest: u64 = 0;
    for entity in durable.iter() {
        let restored = entity.get_candles(CandleType::Minute).unwrap();
        latest = max_datetime(&restored, latest);
        for c in restored {
            fresh.init(String::from("EURUSD"), true, CandleType::Minute, c);
        }
    }
    assert_eq!(latest, 1662563040);

    let back =
        fresh.get_by_date_range(String::from("EURUSD"), CandleType::Minute, true, 0, u64::MAX);
    assert_eq!(back, candles);
}

#[test]
fn checkpoint_after_restore_reflects_the_merged_rates() {
    // restore one candle, extend its bucket with a tick, run a checkpoint
    // pass, and re-read the cell
    let stored = CandleModel { open: 10, close: 20, high: 25, low: 9, datetime: 1662559380 };
    let mut entity = CandleModelEntity::create(CandleType::Minute, stored);
    entity.set_candles(&vec![stored], 0, CandleType::Minute);

    let mut cache = CandlesInstrumentsCache::new(100, 100);
    cache.init(String::from("EURUSD"), true, CandleType::Minute, stored);

    // one new tick in the same minute bucket, higher than the stored high
    cache.update(vec![tick(1662559404, 40, 40)]);

    let collected = collect_candles_to_persist(&cache, true, 1662559380, 1662559440);
    let mut touched = false;
    for (instrument, ct, to_save) in collected {
        if ct == CandleType::Minute && !to_save.is_empty() {
            assert_eq!(instrument.as_str(), "EURUSD");
            for c in to_save {
                assert!(merge_candle_into_entity(&mut entity, c, ct));
                touched = true;
            }
        }
    }
    assert!(touched);

    let back = entity.get_candles(CandleType::Minute).unwrap();
    assert_eq!(back.len(), 1);
    assert_eq!(back[0].open, 10);
    assert_eq!(back[0].close, 40);
    assert_eq!(back[0].high, 40);
    assert_eq!(back[0].low, 9);
    assert_eq!(back[0].datetime, 1662559380);
}

#[test]
fn grouping_splits_cells_and_batching_caps_at_ninety() {
    let candles = vec![
        CandleModel { open: 1, close: 1, high: 1, low: 1, datetime: 1662559380 },
        CandleModel { open: 2, close: 2, high: 2, low: 2, datetime: 1662559440 },
        CandleModel { open: 3, close: 3, high: 3, low: 3, datetime: 1662563040 },
    ];
    let groups = group_candles_for_save(CandleType::Minute, &candles);
    assert_eq!(groups.len(), 2);
    for g in groups.iter() {
        for c in g.candles.iter() {
            assert_eq!(
                CandleModelEntity::generate_partition_key(c.datetime, CandleType::Minute),
                g.partition_key
            );
            assert_eq!(
                CandleModelEntity::generate_row_key(c.datetime, CandleType::Minute),
                g.row_key
            );
        }
    }

    assert_eq!(batch_spans(0), vec![]);
    assert_eq!(batch_spans(90), vec![(0, 90)]);
    assert_eq!(batch_spans(181), vec![(0, 90), (90, 180), (180, 181)]);
}

#[test]
fn partition_walk_steps_days_and_months() {
    // minute tables walk one day at a time, 2022-09-07 through past 09-09
    let keys = partition_walk(CandleType::Minute, 1662559404, 1662559404 + 2 * 86400);
    let keys: Vec<&str> = keys.iter().map(|s| s.as_str()).collect();
    assert_eq!(keys, vec!["20220907", "20220908", "20220909", "20220910"]);

    // hour tables walk one month at a time
    let keys = partition_walk(CandleType::Hour, 1662559404, 1662559404 + 40 * 86400);
    let keys: Vec<&str> = keys.iter().map(|s| s.as_str()).collect();
    assert_eq!(keys, vec!["202209", "202210", "202211"]);
}

#[test]
fn restore_lower_bounds_follow_the_capacities() {
    let now = 1662559404u64;
    assert_eq!(restore_lower_bound(CandleType::Minute, now, 100, 100), now - 100 * 60);
    assert_eq!(restore_lower_bound(CandleType::Hour, now, 100, 100), now - 100 * 3600);
    assert_eq!(restore_lower_bound(CandleType::Day, now, 100, 100), u64::MAX);
    assert_eq!(restore_lower_bound(CandleType::Month, now, 100, 100), u64::MAX);
    // saturation near the epoch
    assert_eq!(restore_lower_bound(CandleType::Minute, 10, 100, 100), 0);
}

#[test]
fn registry_queues_fresh_instruments_once() {
    let mut registry = InstrumentStorage::new();
    assert!(!registry.contains("EURUSD"));
    registry.add(String::from("EURUSD"));
    registry.add(String::from("EURUSD"));
    registry.add(String::from("BTCUSD"));
    assert!(registry.contains("EURUSD"));
    assert!(registry.contains("BTCUSD"));

    let pending = registry.take_pending();
    // drained newest first, one row per fresh instrument
    assert_eq!(pending.len(), 2);
    assert_eq!(pending[0].instrument.as_str(), "BTCUSD");
    assert_eq!(pending[1].instrument.as_str(), "EURUSD");
    assert_eq!(pending[0].partition_key.as_str(), "INSTRUMENTSTORAGE");
    assert_eq!(registry.take_pending().len(), 0);

    registry.absorb_restored(vec![String::from("EURUSD"), String::from("ETHUSD")]);
    assert!(registry.contains("ETHUSD"));
    assert!(registry.contains("EURUSD"));
    // restored ids are not written back
    assert_eq!(registry.take_pending().len(), 0);
}

#[test]
fn snapshot_carries_all_eight_candles() {
    let mut cache = CandlesInstrumentsCache::new(100, 100);
    let (bid, ask) = cache.update(vec![tick(1662559404, 50, 60)]);
    let message = candle_writer::candle_message::build_candle_message(
        String::from("EURUSD"),
        &bid,
        &ask,
    );
    assert_eq!(message.unix_time_sec, 1662559380);
    assert_eq!(message.bid.minute.open, 50);
    assert_eq!(message.bid.month.close, 50);
    assert_eq!(message.ask.minute.high, 60);
    assert_eq!(message.ask.day.low, 60);
    assert_eq!(message.instrument.as_str(), "EURUSD");
}
