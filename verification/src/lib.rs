//! Streaming OHLC candle aggregation engine.
//!
//! The library keeps in-memory candles for financial instruments at four
//! granularities (minute, hour, day, month), one set per side (bid, ask),
//! updates them tick by tick, and encodes/decodes them to row-keyed records
//! for a durable table store.  All calendar arithmetic is UTC.
//!
//! Prices travel through the engine as unsigned 64-bit order keys: the caller
//! maps each price to a key so that comparing two keys with `<` agrees with
//! comparing the prices they stand for.  The engine only ever compares,
//! stores and transports these keys.

pub mod calendar;
pub mod candle;
pub mod candle_cache;
pub mod candle_message;
pub mod candle_model_entity;
pub mod candle_type;
pub mod candle_type_cache;
pub mod candles_instrument_cache;
pub mod database;
pub mod digits;
pub mod instrument_storage;
pub mod no_sql;
pub mod settings_model;
pub mod sorted_candles;
pub mod split;
pub mod table_names;
