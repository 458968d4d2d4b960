use candle_writer::calendar::{
    days_in_month, epoch_to_parts, month_start, parts_to_epoch, DateParts,
};
use candle_writer::candle::CandleModel;
use candle_writer::candle_model_entity::CandleModelEntity;
use candle_writer::candle_type::CandleType;
use candle_writer::table_names::{
    generate_instrument_name, get_table_name, parse_short_instrument_table_name,
    parse_table_name_into_candle_and_instrument,
};

// 1662559404 is 2022-09-07 14:03:24 UTC.

#[test]
fn calendar_parts_of_known_second() {
    let p = epoch_to_parts(1662559404);
    assert_eq!(
        p,
        DateParts { year: 2022, month: 9, day: 7, hour: 14, minute: 3, second: 24 }
    );
    assert_eq!(parts_to_epoch(p), 1662559404);
}

#[test]
fn calendar_month_start_and_leap_years() {
    // 2022-09-01 00:00:00
    assert_eq!(month_start(1662559404), 1661990400);
    assert_eq!(days_in_month(2024, 2), 29);
    assert_eq!(days_in_month(2100, 2), 28);
    assert_eq!(days_in_month(2000, 2), 29);
    assert_eq!(days_in_month(2022, 2), 28);
    // epoch day zero
    let p = epoch_to_parts(0);
    assert_eq!(
        p,
        DateParts { year: 1970, month: 1, day: 1, hour: 0, minute: 0, second: 0 }
    );
}

#[test]
fn calendar_add_one_month_clamps_the_day() {
    let jan31 = parts_to_epoch(DateParts {
        year: 2022,
        month: 1,
        day: 31,
        hour: 5,
        minute: 6,
        second: 7,
    });
    let feb = candle_writer::calendar::add_one_month(jan31);
    assert_eq!(
        epoch_to_parts(feb),
        DateParts { year: 2022, month: 2, day: 28, hour: 5, minute: 6, second: 7 }
    );
    let dec = parts_to_epoch(DateParts {
        year: 2021,
        month: 12,
        day: 15,
        hour: 0,
        minute: 0,
        second: 0,
    });
    let jan = candle_writer::calendar::add_one_month(dec);
    assert_eq!(
        epoch_to_parts(jan),
        DateParts { year: 2022, month: 1, day: 15, hour: 0, minute: 0, second: 0 }
    );
}

#[test]
fn bucket_starts_of_known_second() {
    assert_eq!(CandleType::Minute.format_date_by_type(1662559404), 1662559380);
    assert_eq!(CandleType::Hour.format_date_by_type(1662559404), 1662559200);
    assert_eq!(CandleType::Day.format_date_by_type(1662559404), 1662508800);
    assert_eq!(CandleType::Month.format_date_by_type(1662559404), 1661990400);
    assert_eq!(CandleType::Minute.candle_timestamp_sec(1662559404), 1662559380);
}

#[test]
fn partition_and_row_keys_of_known_second() {
    let t = 1662559404u64;
    assert_eq!(
        CandleModelEntity::generate_partition_key(t, CandleType::Minute).as_str(),
        "20220907"
    );
    assert_eq!(CandleModelEntity::generate_row_key(t, CandleType::Minute).as_str(), "14");
    assert_eq!(
        CandleModelEntity::generate_partition_key(t, CandleType::Hour).as_str(),
        "202209"
    );
    assert_eq!(CandleModelEntity::generate_row_key(t, CandleType::Hour).as_str(), "07");
    assert_eq!(CandleModelEntity::generate_partition_key(t, CandleType::Day).as_str(), "2022");
    assert_eq!(CandleModelEntity::generate_row_key(t, CandleType::Day).as_str(), "09");
    assert_eq!(
        CandleModelEntity::generate_partition_key(t, CandleType::Month).as_str(),
        "2022"
    );
    assert_eq!(CandleModelEntity::generate_row_key(t, CandleType::Month).as_str(), "2022");
    assert_eq!(
        CandleModelEntity::to_date_part_string(1662559380, CandleType::Minute).as_str(),
        "03"
    );
}

#[test]
fn payload_encoding_is_exact() {
    let candles = vec![
        CandleModel { open: 1, close: 2, high: 3, low: 0, datetime: 1662559380 },
        CandleModel { open: 7, close: 8, high: 9, low: 6, datetime: 1662559440 },
    ];
    let data = CandleModelEntity::to_data_string(&candles, CandleType::Minute);
    assert_eq!(data.as_str(), "03;1;2;3;0|04;7;8;9;6");
}

#[test]
fn payload_decoding_round_trips() {
    let candles = vec![
        CandleModel { open: 1, close: 2, high: 3, low: 0, datetime: 1662559380 },
        CandleModel { open: 7, close: 8, high: 9, low: 6, datetime: 1662559440 },
    ];
    let data = CandleModelEntity::to_data_string(&candles, CandleType::Minute);
    let back = CandleModelEntity::data_string_to_candle_grpc_model(
        data.as_str(),
        CandleType::Minute,
        "20220907",
        "14",
    );
    assert_eq!(back, Some(candles));
}

#[test]
fn entity_round_trips_through_set_and_get() {
    let candle = CandleModel { open: 10, close: 20, high: 30, low: 5, datetime: 1662559380 };
    let mut entity = CandleModelEntity::create(CandleType::Minute, candle);
    assert_eq!(entity.partition_key.as_str(), "20220907");
    assert_eq!(entity.row_key.as_str(), "14");
    assert_eq!(entity.data.as_str(), "");

    let candles = vec![candle];
    entity.set_candles(&candles, 0, CandleType::Minute);
    let back = entity.get_candles(CandleType::Minute).unwrap();
    assert_eq!(back, candles);
}

#[test]
fn parse_date_time_layers_keys_and_entry() {
    assert_eq!(
        CandleModelEntity::parse_date_time(CandleType::Minute, "20220907", "14", "03"),
        Some(1662559380)
    );
    // for hours the row key carries the day and the entry the hour
    assert_eq!(
        CandleModelEntity::parse_date_time(CandleType::Hour, "202209", "07", "14"),
        Some(1662559200)
    );
    assert_eq!(
        CandleModelEntity::parse_date_time(CandleType::Day, "2022", "09", "7"),
        Some(1662508800)
    );
    assert_eq!(
        CandleModelEntity::parse_date_time(CandleType::Month, "2022", "2022", "9"),
        Some(1661990400)
    );
}

#[test]
fn malformed_payloads_are_refused() {
    // a non-numeric field
    assert_eq!(
        CandleModelEntity::data_string_to_candle_grpc_model(
            "xx;1;2;3;0",
            CandleType::Minute,
            "20220907",
            "14",
        ),
        None
    );
    // too few fields
    assert_eq!(
        CandleModelEntity::data_string_to_candle_grpc_model(
            "03;1;2;3",
            CandleType::Minute,
            "20220907",
            "14",
        ),
        None
    );
    // a month that names no real date
    assert_eq!(
        CandleModelEntity::parse_date_time(CandleType::Month, "2022", "2022", "13"),
        None
    );
    // a partition key of the wrong width
    assert_eq!(
        CandleModelEntity::parse_date_time(CandleType::Minute, "2022097", "14", "03"),
        None
    );
    // an empty payload holds no candles
    assert_eq!(
        CandleModelEntity::data_string_to_candle_grpc_model(
            "",
            CandleType::Minute,
            "20220907",
            "14",
        ),
        Some(vec![])
    );
}

#[test]
fn table_names_round_trip() {
    assert_eq!(get_table_name(CandleType::Minute, "EURUSD").as_str(), "EURUSD0");
    assert_eq!(get_table_name(CandleType::Hour, "EURUSD").as_str(), "EURUSD1");
    assert_eq!(get_table_name(CandleType::Day, "EUR.USD").as_str(), "EURUSD2");
    assert_eq!(get_table_name(CandleType::Month, "BTC.USDT").as_str(), "BTCUSDT3");
    assert_eq!(generate_instrument_name("EURUSD").as_str(), "CANDLEEURUSD");
    assert_eq!(parse_short_instrument_table_name("CANDLEEURUSD").as_str(), "EURUSD");
    assert_eq!(parse_short_instrument_table_name("EURUSD").as_str(), "EURUSD");

    let (ct, id) = parse_table_name_into_candle_and_instrument(String::from("EURUSD0"));
    assert_eq!(ct, CandleType::Minute);
    assert_eq!(id.as_str(), "EURUSD");
    let (ct, id) = parse_table_name_into_candle_and_instrument(String::from("CANDLEEURUSD3"));
    assert_eq!(ct, CandleType::Month);
    assert_eq!(id.as_str(), "EURUSD");
}

#[test]
fn granularity_codes_are_stable() {
    assert_eq!(CandleType::Minute.code(), 0);
    assert_eq!(CandleType::Hour.code(), 1);
    assert_eq!(CandleType::Day.code(), 2);
    assert_eq!(CandleType::Month.code(), 3);
    assert_eq!(CandleType::from_code(2), Some(CandleType::Day));
    assert_eq!(CandleType::from_code(4), None);
}
