use candle_writer::candle_type::CandleType;
use candle_writer::candles_instrument_cache::{CandlesBidAsk, CandlesInstrumentsCache};

/// Maps a price to its 64-bit order key: comparing two keys agrees with
/// comparing the prices.
fn rate_key(x: f64) -> u64 {
    let b = x.to_bits() as i64;
    (if b < 0 { !b } else { b | i64::MIN }) as u64
}

#[test]
fn test_sinle_quote() {
    let mut cache = CandlesInstrumentsCache::new(100, 100);
    let instument = String::from("EURUSD");

    let bid_ask = CandlesBidAsk {
        date: 1662559404,
        instrument: instument.clone(),
        bid: rate_key(25.55),
        ask: rate_key(36.55),
    };

    cache.update(vec![bid_ask]);

    let result_bid_minute = cache.get_by_date_range(
        instument.clone(),
        CandleType::Minute,
        true,
        1660559404,
        2660559404,
    );
    let result_ask_minute = cache.get_by_date_range(
        instument.clone(),
        CandleType::Minute,
        false,
        1660559404,
        2660559404,
    );

    let result_bid_hour = cache.get_by_date_range(
        instument.clone(),
        CandleType::Hour,
        true,
        1660559404,
        2660559404,
    );
    let result_ask_hour = cache.get_by_date_range(
        instument.clone(),
        CandleType::Hour,
        false,
        1660559404,
        2660559404,
    );

    let result_bid_day = cache.get_by_date_range(
        instument.clone(),
        CandleType::Day,
        true,
        1660559404,
        2660559404,
    );
    let result_ask_day = cache.get_by_date_range(
        instument.clone(),
        CandleType::Day,
        false,
        1660559404,
        2660559404,
    );

    let result_bid_mount = cache.get_by_date_range(
        instument.clone(),
        CandleType::Month,
        true,
        1660559404,
        2660559404,
    );
    let result_ask_mount = cache.get_by_date_range(
        instument.clone(),
        CandleType::Month,
        false,
        1660559404,
        2660559404,
    );

    assert_eq!(result_bid_minute.len(), 1);
    assert_eq!(result_ask_minute.len(), 1);

    assert_eq!(result_bid_hour.len(), 1);
    assert_eq!(result_ask_hour.len(), 1);

    assert_eq!(result_bid_day.len(), 1);
    assert_eq!(result_ask_day.len(), 1);

    assert_eq!(result_bid_mount.len(), 1);
    assert_eq!(result_ask_mount.len(), 1);
}

#[test]
fn test_date_rotation_minute() {
    let mut cache = CandlesInstrumentsCache::new(100, 100);
    let instument = String::from("EURUSD");

    let bid_ask = CandlesBidAsk {
        date: 1662559404,
        instrument: instument.clone(),
        bid: rate_key(25.55),
        ask: rate_key(36.55),
    };

    cache.update(vec![bid_ask]);

    let bid_ask = CandlesBidAsk {
        date: 1662559474,
        instrument: instument.clone(),
        bid: rate_key(25.55),
        ask: rate_key(36.55),
    };

    cache.update(vec![bid_ask]);

    let result_bid_minute = cache.get_by_date_range(
        instument.clone(),
        CandleType::Minute,
        true,
        1660559404,
        2660559404,
    );
    let result_ask_minute = cache.get_by_date_range(
        instument.clone(),
        CandleType::Minute,
        false,
        1660559404,
        2660559404,
    );

    let result_bid_hour = cache.get_by_date_range(
        instument.clone(),
        CandleType::Hour,
        true,
        1660559404,
        2660559404,
    );
    let result_ask_hour = cache.get_by_date_range(
        instument.clone(),
        CandleType::Hour,
        false,
        1660559404,
        2660559404,
    );

    let result_bid_day = cache.get_by_date_range(
        instument.clone(),
        CandleType::Day,
        true,
        1660559404,
        2660559404,
    );
    let result_ask_day = cache.get_by_date_range(
        instument.clone(),
        CandleType::Day,
        false,
        1660559404,
        2660559404,
    );

    let result_bid_mount = cache.get_by_date_range(
        instument.clone(),
        CandleType::Month,
        true,
        1660559404,
        2660559404,
    );
    let result_ask_mount = cache.get_by_date_range(
        instument.clone(),
        CandleType::Month,
        false,
        1660559404,
        2660559404,
    );

    assert_eq!(result_bid_minute.len(), 2);
    assert_eq!(result_ask_minute.len(), 2);

    assert_eq!(result_bid_hour.len(), 1);
    assert_eq!(result_ask_hour.len(), 1);

    assert_eq!(result_bid_day.len(), 1);
    assert_eq!(result_ask_day.len(), 1);

    assert_eq!(result_bid_mount.len(), 1);
    assert_eq!(result_ask_mount.len(), 1);
}

#[test]
fn test_calculation() {
    let mut cache = CandlesInstrumentsCache::new(100, 100);
    let instument = String::from("EURUSD");

    let bid_ask = CandlesBidAsk {
        date: 1662559404,
        instrument: instument.clone(),
        bid: rate_key(25.55),
        ask: rate_key(36.55),
    };

    cache.update(vec![bid_ask]);

    let bid_ask = CandlesBidAsk {
        date: 1662559406,
        instrument: instument.clone(),
        bid: rate_key(60.55),
        ask: rate_key(31.55),
    };

    cache.update(vec![bid_ask]);

    let bid_ask = CandlesBidAsk {
        date: 1662559407,
        instrument: instument.clone(),
        bid: rate_key(50.55),
        ask: rate_key(62.55),
    };

    cache.update(vec![bid_ask]);

    let result_bid_minute = cache.get_by_date_range(
        instument.clone(),
        CandleType::Minute,
        true,
        1660559404,
        2660559404,
    );
    let result_ask_minute = cache.get_by_date_range(
        instument.clone(),
        CandleType::Minute,
        false,
        1660559404,
        2660559404,
    );

    assert_eq!(result_bid_minute.len(), 1);
    assert_eq!(result_ask_minute.len(), 1);

    let first_bid = result_bid_minute.first().unwrap();
    let first_ask = result_ask_minute.first().unwrap();

    assert_eq!(first_bid.open, rate_key(25.55));
    assert_eq!(first_bid.close, rate_key(50.55));
    assert_eq!(first_bid.high, rate_key(60.55));
    assert_eq!(first_bid.low, rate_key(25.55));

    assert_eq!(first_ask.open, rate_key(36.55));
    assert_eq!(first_ask.close, rate_key(62.55));
    assert_eq!(first_ask.high, rate_key(62.55));
    assert_eq!(first_ask.low, rate_key(31.55));

    assert_eq!(first_bid.datetime, 1662559380);
    assert_eq!(first_ask.datetime, 1662559380);
}

#[test]
fn test_minute_limit() {
    let limit = 100;
    let mut cache = CandlesInstrumentsCache::new(limit, limit);
    let instument = String::from("EURUSD");

    let mut arr = Vec::with_capacity(limit);

    for i in 0..=(limit + 50) {
        let bid_ask = CandlesBidAsk {
            date: 1662559404 + 60 * i as u64,
            instrument: instument.clone(),
            bid: rate_key(25.55 + i as f64),
            ask: rate_key(35.55 + i as f64),
        };

        arr.push(bid_ask);
    }

    cache.update(arr);

    let result_bid_minute = cache.get_by_date_range(
        instument.clone(),
        CandleType::Minute,
        true,
        1660559404,
        2660559404,
    );
    let result_ask_minute = cache.get_by_date_range(
        instument.clone(),
        CandleType::Minute,
        false,
        1660559404,
        2660559404,
    );

    assert_eq!(result_bid_minute.len(), limit);
    assert_eq!(result_ask_minute.len(), limit);

    let last_ask = result_ask_minute.last().unwrap();
    let last_bid = result_bid_minute.last().unwrap();

    let add = (limit + 50) as f64;

    println!("last_bid: {:?}", last_bid);
    println!("last_ask: {:?}", last_ask);

    assert_eq!(last_bid.open, rate_key(25.55 + add));
    assert_eq!(last_bid.close, rate_key(25.55 + add));
    assert_eq!(last_bid.high, rate_key(25.55 + add));
    assert_eq!(last_bid.low, rate_key(25.55 + add));

    assert_eq!(last_ask.open, rate_key(35.55 + add));
    assert_eq!(last_ask.close, rate_key(35.55 + add));
    assert_eq!(last_ask.high, rate_key(35.55 + add));
    assert_eq!(last_ask.low, rate_key(35.55 + add));
}
