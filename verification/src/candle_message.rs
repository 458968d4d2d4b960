//! The published snapshot: after each tick, the four updated candles of
//! both sides, keyed by granularity.

use vstd::prelude::*;

use crate::candle::CandleModel;
use crate::candle_type::CandleType;

verus! {

/// The four rates of one candle, without its timestamp.
#[derive(Clone, Copy, Debug, PartialEq, Eq, Structural)]
pub struct CandleItem {
    pub open: u64,
    pub close: u64,
    pub high: u64,
    pub low: u64,
}

/// One side's updated candle per granularity.
#[derive(Clone, Copy, Debug, PartialEq, Eq, Structural)]
pub struct CandleGroup {
    pub minute: CandleItem,
    pub hour: CandleItem,
    pub day: CandleItem,
    pub month: CandleItem,
}

/// One snapshot: the instrument, the minute bucket of the tick, and both
/// sides' updated candles.
#[derive(Clone, Debug)]
pub struct CandleMessage {
    pub instrument: String,
    pub unix_time_sec: u64,
    pub bid: CandleGroup,
    pub ask: CandleGroup,
}

/// The rates of a candle, shorn of the timestamp.
pub open spec fn spec_item_of(c: CandleModel) -> CandleItem {
    CandleItem { open: c.open, close: c.close, high: c.high, low: c.low }
}

fn item_of(c: CandleModel) -> (r: CandleItem)
    ensures
        r == spec_item_of(c),
{
    CandleItem { open: c.open, close: c.close, high: c.high, low: c.low }
}

/// The group published for one side, from the four updates of one tick in
/// the stable granularity order.
pub open spec fn spec_group_of(upd: Seq<(CandleType, CandleModel)>) -> CandleGroup {
    CandleGroup {
        minute: spec_item_of(upd[0].1),
        hour: spec_item_of(upd[1].1),
        day: spec_item_of(upd[2].1),
        month: spec_item_of(upd[3].1),
    }
}

/// Builds the snapshot published after one tick, from the four per-side
/// updates the store returned for it.  The snapshot is stamped with the
/// tick's minute bucket.
pub fn build_candle_message(
    instrument: String,
    bid: &Vec<(CandleType, CandleModel)>,
    ask: &Vec<(CandleType, CandleModel)>,
) -> (r: CandleMessage)
    requires
        bid@.len() == 4,
        ask@.len() == 4,
    ensures
        r.instrument == instrument,
        r.unix_time_sec == bid@[0].1.datetime,
        r.bid == spec_group_of(bid@),
        r.ask == spec_group_of(ask@),
{
    CandleMessage {
        instrument,
        unix_time_sec: bid[0].1.datetime,
        bid: CandleGroup {
            minute: item_of(bid[0].1),
            hour: item_of(bid[1].1),
            day: item_of(bid[2].1),
            month: item_of(bid[3].1),
        },
        ask: CandleGroup {
            minute: item_of(ask[0].1),
            hour: item_of(ask[1].1),
            day: item_of(ask[2].1),
            month: item_of(ask[3].1),
        },
    }
}

} // verus!
