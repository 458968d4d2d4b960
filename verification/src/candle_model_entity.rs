//! The durable record for one (partition, row) cell of a candle table:
//! partition and row keys derived from the bucket start, and a packed
//! payload holding every candle of the cell.
//!
//! Payload layout: entries joined by `|`; each entry is
//! `pp;open;close;high;low`, where `pp` is the finest date part of the
//! granularity, zero-padded to two digits, and the four rates are unpadded
//! decimal.  Partition and row keys layer the coarser date parts:
//!
//! | granularity | partition key | row key | entry part     |
//! |-------------|---------------|---------|----------------|
//! | minute      | `YYYYMMDD`    | `HH`    | minute of hour |
//! | hour        | `YYYYMM`      | `DD`    | hour of day    |
//! | day         | `YYYY`        | `MM`    | day of month   |
//! | month       | `YYYY`        | `YYYY`  | month of year  |

use vstd::prelude::*;
use vstd::string::{StrSliceExecFns, StringExecFns};

use crate::calendar::{
    epoch_to_parts, parts_to_epoch, spec_epoch_of_parts, spec_parts_of_epoch, valid_parts,
    DateParts, MAX_EPOCH,
};
use crate::candle::CandleModel;
use crate::candle_type::{spec_bucket_start, CandleType};
use crate::split::parts_free_of;
use crate::digits::{
    all_digits, digits_val, lemma_digits_val_upper, parse_u64_dec, pow10, spec_digits,
    spec_four_digits, spec_two_digits, u64_to_dec, u64_to_four_digits, u64_to_two_digits,
};
use crate::split::{spec_join, spec_split, split_str};

verus! {

/// One durable row: its two keys and the packed payload.
#[derive(Clone, Debug)]
pub struct CandleModelEntity {
    pub partition_key: String,
    pub row_key: String,
    pub data: String,
}

/// The partition key of the bucket start `t` under granularity `ct`.
pub open spec fn spec_partition_key(t: int, ct: CandleType) -> Seq<char> {
    let p = spec_parts_of_epoch(t);
    match ct {
        CandleType::Minute => spec_four_digits(p.year as int) + spec_two_digits(p.month as int)
            + spec_two_digits(p.day as int),
        CandleType::Hour => spec_four_digits(p.year as int) + spec_two_digits(p.month as int),
        CandleType::Day => spec_four_digits(p.year as int),
        CandleType::Month => spec_four_digits(p.year as int),
    }
}

/// The row key of the bucket start `t` under granularity `ct`.
pub open spec fn spec_row_key(t: int, ct: CandleType) -> Seq<char> {
    let p = spec_parts_of_epoch(t);
    match ct {
        CandleType::Minute => spec_two_digits(p.hour as int),
        CandleType::Hour => spec_two_digits(p.day as int),
        CandleType::Day => spec_two_digits(p.month as int),
        CandleType::Month => spec_four_digits(p.year as int),
    }
}

/// The finest date part of the bucket start `t` under granularity `ct`:
/// the one coordinate not already fixed by the partition and row keys.
pub open spec fn spec_date_part(t: int, ct: CandleType) -> int {
    let p = spec_parts_of_epoch(t);
    match ct {
        CandleType::Minute => p.minute as int,
        CandleType::Hour => p.hour as int,
        CandleType::Day => p.day as int,
        CandleType::Month => p.month as int,
    }
}

/// The five decimal fields of one packed entry.
pub open spec fn spec_entry_fields(c: CandleModel, ct: CandleType) -> Seq<Seq<char>> {
    seq![
        spec_two_digits(spec_date_part(c.datetime as int, ct)),
        spec_digits(c.open as int),
        spec_digits(c.close as int),
        spec_digits(c.high as int),
        spec_digits(c.low as int),
    ]
}

/// One packed entry: the five fields joined by `;`.
pub open spec fn spec_entry(c: CandleModel, ct: CandleType) -> Seq<char> {
    spec_join(spec_entry_fields(c, ct), ';')
}

/// The packed entries of the candles, one per candle, in order.
pub open spec fn spec_entries(items: Seq<CandleModel>, ct: CandleType) -> Seq<Seq<char>>
    decreases items.len(),
{
    if items.len() == 0 {
        Seq::empty()
    } else {
        spec_entries(items.drop_last(), ct).push(spec_entry(items.last(), ct))
    }
}

/// The packed payload of a cell: one entry per candle, joined by `|`;
/// empty for no candles.
pub open spec fn spec_data_string(items: Seq<CandleModel>, ct: CandleType) -> Seq<char>
    decreases items.len(),
{
    if items.len() == 0 {
        Seq::empty()
    } else if items.len() == 1 {
        spec_entry(items[0], ct)
    } else {
        spec_data_string(items.drop_last(), ct) + seq!['|'] + spec_entry(items.last(), ct)
    }
}

/// The payload is the entries joined by `|`.
pub proof fn lemma_data_string_is_join(items: Seq<CandleModel>, ct: CandleType)
    requires
        items.len() >= 1,
    ensures
        spec_data_string(items, ct) == spec_join(spec_entries(items, ct), '|'),
        spec_entries(items, ct).len() == items.len(),
    decreases items.len(),
{
    if items.len() == 1 {
        assert(spec_entries(items, ct) =~= seq![spec_entry(items[0], ct)]);
        assert(spec_entries(items.drop_last(), ct) =~= Seq::<Seq<char>>::empty());
        assert(items.last() == items[0]);
        assert(spec_join(spec_entries(items, ct), '|') == spec_entry(items[0], ct));
    } else {
        lemma_data_string_is_join(items.drop_last(), ct);
        let es = spec_entries(items, ct);
        assert(es.drop_last() =~= spec_entries(items.drop_last(), ct));
        assert(es.last() == spec_entry(items.last(), ct));
        assert(spec_join(es, '|') == spec_join(es.drop_last(), '|') + seq!['|'] + es.last());
    }
}

/// A slice of a key string that holds at least one digit and nothing else.
pub open spec fn fixed_ok(s: Seq<char>, lo: int, hi: int) -> bool {
    0 <= lo < hi <= s.len() && all_digits(s.subrange(lo, hi))
}

/// The number a slice of a key string names.
pub open spec fn fixed_val(s: Seq<char>, lo: int, hi: int) -> int {
    digits_val(s.subrange(lo, hi))
}

/// A whole decimal field of an entry: some digits naming a 64-bit number.
pub open spec fn spec_parse_num(f: Seq<char>) -> Option<u64> {
    if f.len() >= 1 && all_digits(f) && digits_val(f) <= u64::MAX {
        Some(digits_val(f) as u64)
    } else {
        None
    }
}

/// The keys of a cell carry the right widths and digits for `ct`.
pub open spec fn spec_keys_ok(ct: CandleType, pk: Seq<char>, rk: Seq<char>) -> bool {
    match ct {
        CandleType::Minute => pk.len() == 8 && rk.len() == 2 && fixed_ok(pk, 0, 4) && fixed_ok(
            pk,
            4,
            6,
        ) && fixed_ok(pk, 6, 8) && fixed_ok(rk, 0, 2),
        CandleType::Hour => pk.len() == 6 && rk.len() == 2 && fixed_ok(pk, 0, 4) && fixed_ok(
            pk,
            4,
            6,
        ) && fixed_ok(rk, 0, 2),
        CandleType::Day => pk.len() == 4 && rk.len() == 2 && fixed_ok(pk, 0, 4) && fixed_ok(
            rk,
            0,
            2,
        ),
        CandleType::Month => pk.len() == 4 && fixed_ok(pk, 0, 4),
    }
}

/// The calendar parts a cell's keys and one entry date part name, layered
/// as the durable format fixes them.
pub open spec fn spec_date_time_parts(
    ct: CandleType,
    pk: Seq<char>,
    rk: Seq<char>,
    part: int,
) -> DateParts {
    match ct {
        CandleType::Minute => DateParts {
            year: fixed_val(pk, 0, 4) as u64,
            month: fixed_val(pk, 4, 6) as u64,
            day: fixed_val(pk, 6, 8) as u64,
            hour: fixed_val(rk, 0, 2) as u64,
            minute: part as u64,
            second: 0,
        },
        CandleType::Hour => DateParts {
            year: fixed_val(pk, 0, 4) as u64,
            month: fixed_val(pk, 4, 6) as u64,
            day: fixed_val(rk, 0, 2) as u64,
            hour: part as u64,
            minute: 0,
            second: 0,
        },
        CandleType::Day => DateParts {
            year: fixed_val(pk, 0, 4) as u64,
            month: fixed_val(rk, 0, 2) as u64,
            day: part as u64,
            hour: 0,
            minute: 0,
            second: 0,
        },
        CandleType::Month => DateParts {
            year: fixed_val(pk, 0, 4) as u64,
            month: part as u64,
            day: 1,
            hour: 0,
            minute: 0,
            second: 0,
        },
    }
}

/// The bucket start a cell's keys and one entry date part name, or nothing
/// when the keys or the named date are malformed.
pub open spec fn spec_parse_date_time(
    ct: CandleType,
    pk: Seq<char>,
    rk: Seq<char>,
    part: int,
) -> Option<u64> {
    if spec_keys_ok(ct, pk, rk) && 0 <= part && valid_parts(spec_date_time_parts(ct, pk, rk, part)) {
        Some(spec_epoch_of_parts(spec_date_time_parts(ct, pk, rk, part)) as u64)
    } else {
        None
    }
}

/// One packed entry read back as a candle, or nothing when malformed.
pub open spec fn spec_parse_entry(
    line: Seq<char>,
    ct: CandleType,
    pk: Seq<char>,
    rk: Seq<char>,
) -> Option<CandleModel> {
    let fields = spec_split(line, ';');
    if fields.len() == 5 && spec_parse_num(fields[0]) is Some && spec_parse_num(fields[1]) is Some
        && spec_parse_num(fields[2]) is Some && spec_parse_num(fields[3]) is Some
        && spec_parse_num(fields[4]) is Some {
        match spec_parse_date_time(ct, pk, rk, spec_parse_num(fields[0])->0 as int) {
            Some(dt) => Some(
                CandleModel {
                    open: spec_parse_num(fields[1])->0,
                    close: spec_parse_num(fields[2])->0,
                    high: spec_parse_num(fields[3])->0,
                    low: spec_parse_num(fields[4])->0,
                    datetime: dt,
                },
            ),
            None => None,
        }
    } else {
        None
    }
}

/// The candles of a list of packed entries, in payload order, or nothing
/// when any entry is malformed.
pub open spec fn spec_decode_lines(
    lines: Seq<Seq<char>>,
    ct: CandleType,
    pk: Seq<char>,
    rk: Seq<char>,
) -> Option<Seq<CandleModel>>
    decreases lines.len(),
{
    if lines.len() == 0 {
        Some(Seq::empty())
    } else {
        let rest = spec_decode_lines(lines.drop_last(), ct, pk, rk);
        let last = spec_parse_entry(lines.last(), ct, pk, rk);
        if rest is Some && last is Some {
            Some(rest->0.push(last->0))
        } else {
            None
        }
    }
}

/// The candles of a whole payload, in payload order; an empty payload holds
/// no candles.
pub open spec fn spec_decode(
    src: Seq<char>,
    ct: CandleType,
    pk: Seq<char>,
    rk: Seq<char>,
) -> Option<Seq<CandleModel>> {
    if src.len() == 0 {
        Some(Seq::empty())
    } else {
        spec_decode_lines(spec_split(src, '|'), ct, pk, rk)
    }
}

impl CandleModelEntity {
    /// Derives the partition key of a bucket start.
    pub fn generate_partition_key(date_time: u64, candle_type: CandleType) -> (r: String)
        requires
            date_time < MAX_EPOCH,
        ensures
            r@ == spec_partition_key(date_time as int, candle_type),
    {
        let p = epoch_to_parts(date_time);
        match candle_type {
            CandleType::Minute => {
                let mut r = u64_to_four_digits(p.year);
                r.append(u64_to_two_digits(p.month).as_str());
                r.append(u64_to_two_digits(p.day).as_str());
                r
            },
            CandleType::Hour => {
                let mut r = u64_to_four_digits(p.year);
                r.append(u64_to_two_digits(p.month).as_str());
                r
            },
            CandleType::Day => u64_to_four_digits(p.year),
            CandleType::Month => u64_to_four_digits(p.year),
        }
    }

    /// Derives the row key of a bucket start.
    pub fn generate_row_key(date_time: u64, candle_type: CandleType) -> (r: String)
        requires
            date_time < MAX_EPOCH,
        ensures
            r@ == spec_row_key(date_time as int, candle_type),
    {
        let p = epoch_to_parts(date_time);
        match candle_type {
            CandleType::Minute => u64_to_two_digits(p.hour),
            CandleType::Hour => u64_to_two_digits(p.day),
            CandleType::Day => u64_to_two_digits(p.month),
            CandleType::Month => u64_to_four_digits(p.year),
        }
    }

    /// The zero-padded two-digit entry date part of a bucket start.
    pub fn to_date_part_string(datetime: u64, candle_type: CandleType) -> (r: String)
        requires
            datetime < MAX_EPOCH,
        ensures
            r@ == spec_two_digits(spec_date_part(datetime as int, candle_type)),
    {
        let p = epoch_to_parts(datetime);
        match candle_type {
            CandleType::Minute => u64_to_two_digits(p.minute),
            CandleType::Hour => u64_to_two_digits(p.hour),
            CandleType::Day => u64_to_two_digits(p.day),
            CandleType::Month => u64_to_two_digits(p.month),
        }
    }

    /// A fresh entity for the cell of one candle, with an empty payload.
    pub fn create(candle_type: CandleType, candle: CandleModel) -> (r: CandleModelEntity)
        requires
            candle.datetime < MAX_EPOCH,
        ensures
            r.partition_key@ == spec_partition_key(candle.datetime as int, candle_type),
            r.row_key@ == spec_row_key(candle.datetime as int, candle_type),
            r.data@ == Seq::<char>::empty(),
    {
        CandleModelEntity {
            partition_key: CandleModelEntity::generate_partition_key(candle.datetime, candle_type),
            row_key: CandleModelEntity::generate_row_key(candle.datetime, candle_type),
            data: String::new(),
        }
    }

    /// Packs one entry.
    fn entry_string(candle: &CandleModel, candle_type: CandleType) -> (r: String)
        requires
            candle.datetime < MAX_EPOCH,
        ensures
            r@ == spec_entry(*candle, candle_type),
    {
        proof {
            reveal_strlit(";");
        }
        let mut r = CandleModelEntity::to_date_part_string(candle.datetime, candle_type);
        r.append(";");
        r.append(u64_to_dec(candle.open).as_str());
        r.append(";");
        r.append(u64_to_dec(candle.close).as_str());
        r.append(";");
        r.append(u64_to_dec(candle.high).as_str());
        r.append(";");
        r.append(u64_to_dec(candle.low).as_str());
        proof {
            let pp = spec_two_digits(spec_date_part(candle.datetime as int, candle_type));
            let f1 = seq![pp];
            let f2 = seq![pp, spec_digits(candle.open as int)];
            let f3 = seq![pp, spec_digits(candle.open as int), spec_digits(candle.close as int)];
            let f4 = seq![
                pp,
                spec_digits(candle.open as int),
                spec_digits(candle.close as int),
                spec_digits(candle.high as int),
            ];
            let fs = spec_entry_fields(*candle, candle_type);
            assert(spec_join(f1, ';') == pp);
            assert(f2.drop_last() =~= f1);
            assert(spec_join(f2, ';') == spec_join(f1, ';') + seq![';'] + f2.last());
            assert(f3.drop_last() =~= f2);
            assert(spec_join(f3, ';') == spec_join(f2, ';') + seq![';'] + f3.last());
            assert(f4.drop_last() =~= f3);
            assert(spec_join(f4, ';') == spec_join(f3, ';') + seq![';'] + f4.last());
            assert(fs.drop_last() =~= f4);
            assert(spec_join(fs, ';') == spec_join(f4, ';') + seq![';'] + fs.last());
            assert(r@ =~= spec_join(fs, ';'));
        }
        r
    }

    /// Packs the payload of a cell: the entries of `items`, in order,
    /// joined by `|`.
    pub fn to_data_string(items: &Vec<CandleModel>, candle_type: CandleType) -> (r: String)
        requires
            forall|i: int| 0 <= i < items@.len() ==> (#[trigger] items@[i]).datetime < MAX_EPOCH,
        ensures
            r@ == spec_data_string(items@, candle_type),
    {
        proof {
            reveal_strlit("|");
        }
        let mut r = String::new();
        let mut i: usize = 0;
        proof {
            assert(items@.subrange(0, 0) =~= Seq::<CandleModel>::empty());
        }
        while i < items.len()
            invariant
                0 <= i <= items@.len(),
                forall|j: int| 0 <= j < items@.len() ==> (#[trigger] items@[j]).datetime
                    < MAX_EPOCH,
                r@ == spec_data_string(items@.subrange(0, i as int), candle_type),
            decreases items@.len() - i,
        {
            let entry = CandleModelEntity::entry_string(&items[i], candle_type);
            if i > 0 {
                r.append("|");
            }
            r.append(entry.as_str());
            proof {
                reveal_strlit("|");
                let prefix = items@.subrange(0, i as int);
                let next = items@.subrange(0, i as int + 1);
                assert(next.drop_last() =~= prefix);
                assert(next.last() == items@[i as int]);
                if i == 0 {
                    assert(next[0] == items@[0]);
                    assert(r@ =~= spec_data_string(next, candle_type));
                } else {
                    assert(spec_data_string(next, candle_type) == spec_data_string(
                        prefix,
                        candle_type,
                    ) + seq!['|'] + spec_entry(items@[i as int], candle_type));
                    assert(r@ =~= spec_data_string(next, candle_type));
                }
            }
            i = i + 1;
        }
        proof {
            assert(items@.subrange(0, items@.len() as int) =~= items@);
        }
        r
    }

    /// Replaces the payload with the packed entries of `items`; the unused
    /// width argument is kept for callers that pass a rate precision.
    pub fn set_candles(&mut self, items: &Vec<CandleModel>, _digits: i32, candle_type: CandleType)
        requires
            forall|i: int| 0 <= i < items@.len() ==> (#[trigger] items@[i]).datetime < MAX_EPOCH,
        ensures
            final(self).partition_key == old(self).partition_key,
            final(self).row_key == old(self).row_key,
            final(self).data@ == spec_data_string(items@, candle_type),
    {
        self.data = CandleModelEntity::to_data_string(items, candle_type);
    }

    /// Reads a two- or four-digit slice of a key string.
    fn parse_key_slice(s: &str, lo: usize, hi: usize) -> (r: Option<u64>)
        requires
            lo < hi,
            hi <= s@.len(),
            hi - lo == 2 || hi - lo == 4,
        ensures
            r is Some <==> fixed_ok(s@, lo as int, hi as int),
            r is Some ==> r->0 == fixed_val(s@, lo as int, hi as int),
    {
        let piece = s.substring_char(lo, hi);
        let p = parse_u64_dec(piece);
        proof {
            let sub = s@.subrange(lo as int, hi as int);
            assert(piece@ == sub);
            if p is None && all_digits(sub) {
                lemma_digits_val_upper(sub);
                assert(pow10(0) == 1);
                assert(pow10(1) == 10);
                assert(pow10(2) == 100);
                assert(pow10(3) == 1000);
                assert(pow10(4) == 10000);
                assert(digits_val(sub) < 10000);
                assert(false);
            }
        }
        p
    }

    /// Rebuilds the epoch second of calendar parts, or nothing when the
    /// parts name no real date.
    fn mk_epoch(p: DateParts) -> (r: Option<u64>)
        ensures
            match r {
                Some(t) => valid_parts(p) && t == spec_epoch_of_parts(p),
                None => !valid_parts(p),
            },
    {
        if p.year >= 1970 && p.year < 10000 && p.month >= 1 && p.month <= 12 && p.day >= 1
            && p.day <= crate::calendar::days_in_month(p.year, p.month) && p.hour < 24 && p.minute
            < 60 && p.second < 60 {
            Some(parts_to_epoch(p))
        } else {
            None
        }
    }

    /// Reads the bucket start named by a cell's keys and one entry date
    /// part, layered as the durable format fixes them.
    pub fn parse_date_time(
        candle_type: CandleType,
        partition_key: &str,
        row_key: &str,
        line: &str,
    ) -> (r: Option<u64>)
        ensures
            ({
                let pn = spec_parse_num(line@);
                match r {
                    Some(dt) => pn is Some && spec_parse_date_time(
                        candle_type,
                        partition_key@,
                        row_key@,
                        pn->0 as int,
                    ) == Some(dt),
                    None => pn is None || spec_parse_date_time(
                        candle_type,
                        partition_key@,
                        row_key@,
                        pn->0 as int,
                    ) is None,
                }
            }),
    {
        let part = match parse_u64_dec(line) {
            Some(p) => p,
            None => {
                return None;
            },
        };
        let pk_len = partition_key.unicode_len();
        let rk_len = row_key.unicode_len();
        match candle_type {
            CandleType::Minute => {
                if pk_len != 8 || rk_len != 2 {
                    return None;
                }
                let y = match CandleModelEntity::parse_key_slice(partition_key, 0, 4) {
                    Some(v) => v,
                    None => {
                        return None;
                    },
                };
                let mo = match CandleModelEntity::parse_key_slice(partition_key, 4, 6) {
                    Some(v) => v,
                    None => {
                        return None;
                    },
                };
                let d = match CandleModelEntity::parse_key_slice(partition_key, 6, 8) {
                    Some(v) => v,
                    None => {
                        return None;
                    },
                };
                let h = match CandleModelEntity::parse_key_slice(row_key, 0, 2) {
                    Some(v) => v,
                    None => {
                        return None;
                    },
                };
                CandleModelEntity::mk_epoch(
                    DateParts { year: y, month: mo, day: d, hour: h, minute: part, second: 0 },
                )
            },
            CandleType::Hour => {
                if pk_len != 6 || rk_len != 2 {
                    return None;
                }
                let y = match CandleModelEntity::parse_key_slice(partition_key, 0, 4) {
                    Some(v) => v,
                    None => {
                        return None;
                    },
                };
                let mo = match CandleModelEntity::parse_key_slice(partition_key, 4, 6) {
                    Some(v) => v,
                    None => {
                        return None;
                    },
                };
                let d = match CandleModelEntity::parse_key_slice(row_key, 0, 2) {
                    Some(v) => v,
                    None => {
                        return None;
                    },
                };
                CandleModelEntity::mk_epoch(
                    DateParts { year: y, month: mo, day: d, hour: part, minute: 0, second: 0 },
                )
            },
            CandleType::Day => {
                if pk_len != 4 || rk_len != 2 {
                    return None;
                }
                let y = match CandleModelEntity::parse_key_slice(partition_key, 0, 4) {
                    Some(v) => v,
                    None => {
                        return None;
                    },
                };
                let mo = match CandleModelEntity::parse_key_slice(row_key, 0, 2) {
                    Some(v) => v,
                    None => {
                        return None;
                    },
                };
                CandleModelEntity::mk_epoch(
                    DateParts { year: y, month: mo, day: part, hour: 0, minute: 0, second: 0 },
                )
            },
            CandleType::Month => {
                if pk_len != 4 {
                    return None;
                }
                let y = match CandleModelEntity::parse_key_slice(partition_key, 0, 4) {
                    Some(v) => v,
                    None => {
                        return None;
                    },
                };
                CandleModelEntity::mk_epoch(
                    DateParts { year: y, month: part, day: 1, hour: 0, minute: 0, second: 0 },
                )
            },
        }
    }

    /// Reads one packed entry back as a candle.
    fn parse_entry(
        line: &str,
        candle_type: CandleType,
        partition_key: &str,
        row_key: &str,
    ) -> (r: Option<CandleModel>)
        ensures
            match r {
                Some(c) => spec_parse_entry(line@, candle_type, partition_key@, row_key@) == Some(
                    c,
                ),
                None => spec_parse_entry(line@, candle_type, partition_key@, row_key@) is None,
            },
    {
        let fields = split_str(line, ';');
        proof {
            assert(fields.deep_view() == spec_split(line@, ';'));
        }
        if fields.len() != 5 {
            return None;
        }
        proof {
            assert(fields.deep_view()[0] == fields@[0]@ && fields.deep_view()[1] == fields@[1]@
                && fields.deep_view()[2] == fields@[2]@ && fields.deep_view()[3] == fields@[3]@
                && fields.deep_view()[4] == fields@[4]@);
        }
        let open = match parse_u64_dec(fields[1].as_str()) {
            Some(v) => v,
            None => {
                return None;
            },
        };
        let close = match parse_u64_dec(fields[2].as_str()) {
            Some(v) => v,
            None => {
                return None;
            },
        };
        let high = match parse_u64_dec(fields[3].as_str()) {
            Some(v) => v,
            None => {
                return None;
            },
        };
        let low = match parse_u64_dec(fields[4].as_str()) {
            Some(v) => v,
            None => {
                return None;
            },
        };
        let dt = match CandleModelEntity::parse_date_time(
            candle_type,
            partition_key,
            row_key,
            fields[0].as_str(),
        ) {
            Some(v) => v,
            None => {
                return None;
            },
        };
        Some(CandleModel { open, close, high, low, datetime: dt })
    }

    /// Reads a whole payload back as candles, in payload order; nothing
    /// when any entry is malformed.
    pub fn data_string_to_candle_grpc_model(
        src: &str,
        candle_type: CandleType,
        partition_key: &str,
        row_key: &str,
    ) -> (r: Option<Vec<CandleModel>>)
        ensures
            ({
                let sd = spec_decode(src@, candle_type, partition_key@, row_key@);
                match r {
                    Some(v) => sd == Some(v@),
                    None => sd is None,
                }
            }),
    {
        if src.unicode_len() == 0 {
            let empty: Vec<CandleModel> = Vec::new();
            proof {
                assert(empty@ =~= Seq::<CandleModel>::empty());
            }
            return Some(empty);
        }
        let lines = split_str(src, '|');
        let ghost dv = lines.deep_view();
        let mut out: Vec<CandleModel> = Vec::new();
        let mut i: usize = 0;
        proof {
            assert(dv.subrange(0, 0) =~= Seq::<Seq<char>>::empty());
        }
        while i < lines.len()
            invariant
                0 <= i <= lines@.len(),
                dv == lines.deep_view(),
                dv == spec_split(src@, '|'),
                src@.len() != 0,
                spec_decode_lines(
                    dv.subrange(0, i as int),
                    candle_type,
                    partition_key@,
                    row_key@,
                ) == Some(out@),
            decreases lines@.len() - i,
        {
            proof {
                assert(dv[i as int] == lines@[i as int]@);
            }
            match CandleModelEntity::parse_entry(
                lines[i].as_str(),
                candle_type,
                partition_key,
                row_key,
            ) {
                Some(c) => {
                    out.push(c);
                    proof {
                        let prefix = dv.subrange(0, i as int);
                        let next = dv.subrange(0, i as int + 1);
                        assert(next.drop_last() =~= prefix);
                        assert(next.last() == dv[i as int]);
                    }
                },
                None => {
                    proof {
                        lemma_decode_lines_none(
                            dv,
                            candle_type,
                            partition_key@,
                            row_key@,
                            i as int,
                        );
                    }
                    return None;
                },
            }
            i = i + 1;
        }
        proof {
            assert(dv.subrange(0, dv.len() as int) =~= dv);
        }
        Some(out)
    }

    /// Reads this entity's payload back as candles.
    pub fn get_candles(&self, candle_type: CandleType) -> (r: Option<Vec<CandleModel>>)
        ensures
            ({
                let sd = spec_decode(self.data@, candle_type, self.partition_key@, self.row_key@);
                match r {
                    Some(v) => sd == Some(v@),
                    None => sd is None,
                }
            }),
    {
        CandleModelEntity::data_string_to_candle_grpc_model(
            self.data.as_str(),
            candle_type,
            self.partition_key.as_str(),
            self.row_key.as_str(),
        )
    }
}

/// The keys and date part of an aligned bucket start read back as that
/// bucket start.
proof fn lemma_parse_date_time_round_trip(ct: CandleType, t: int)
    requires
        0 <= t < MAX_EPOCH,
        spec_bucket_start(ct, t) == t,
    ensures
        spec_parse_date_time(
            ct,
            spec_partition_key(t, ct),
            spec_row_key(t, ct),
            spec_date_part(t, ct),
        ) == Some(t as u64),
{
    let p = crate::calendar::lemma_parts_of_epoch_wf(t);
    crate::candle_type::lemma_aligned_parts(ct, t);
    let pk = spec_partition_key(t, ct);
    let rk = spec_row_key(t, ct);
    let part = spec_date_part(t, ct);
    crate::digits::lemma_four_digits_val(p.year as int);
    crate::digits::lemma_two_digits_val(p.month as int);
    crate::digits::lemma_two_digits_val(p.day as int);
    crate::digits::lemma_two_digits_val(p.hour as int);
    let y4 = spec_four_digits(p.year as int);
    let mo2 = spec_two_digits(p.month as int);
    let d2 = spec_two_digits(p.day as int);
    let h2 = spec_two_digits(p.hour as int);
    match ct {
        CandleType::Minute => {
            assert(pk == y4 + mo2 + d2);
            assert(pk.subrange(0, 4) =~= y4);
            assert(pk.subrange(4, 6) =~= mo2);
            assert(pk.subrange(6, 8) =~= d2);
            assert(rk.subrange(0, 2) =~= h2);
            assert(spec_keys_ok(ct, pk, rk));
            assert(spec_date_time_parts(ct, pk, rk, part) == p);
        },
        CandleType::Hour => {
            assert(pk == y4 + mo2);
            assert(pk.subrange(0, 4) =~= y4);
            assert(pk.subrange(4, 6) =~= mo2);
            assert(rk.subrange(0, 2) =~= d2);
            assert(spec_keys_ok(ct, pk, rk));
            assert(spec_date_time_parts(ct, pk, rk, part) == p);
        },
        CandleType::Day => {
            assert(pk.subrange(0, 4) =~= y4);
            assert(rk.subrange(0, 2) =~= mo2);
            assert(spec_keys_ok(ct, pk, rk));
            assert(spec_date_time_parts(ct, pk, rk, part) == p);
        },
        CandleType::Month => {
            assert(pk.subrange(0, 4) =~= y4);
            assert(spec_keys_ok(ct, pk, rk));
            assert(spec_date_time_parts(ct, pk, rk, part) == p);
        },
    }
}

/// One packed entry of an aligned candle reads back as that candle.
proof fn lemma_parse_entry_round_trip(c: CandleModel, ct: CandleType)
    requires
        c.datetime < MAX_EPOCH,
        c.datetime == spec_bucket_start(ct, c.datetime as int),
    ensures
        spec_parse_entry(
            spec_entry(c, ct),
            ct,
            spec_partition_key(c.datetime as int, ct),
            spec_row_key(c.datetime as int, ct),
        ) == Some(c),
{
    let t = c.datetime as int;
    let p = crate::calendar::lemma_parts_of_epoch_wf(t);
    let part = spec_date_part(t, ct);
    assert(0 <= part < 100);
    crate::digits::lemma_two_digits_val(part);
    crate::digits::lemma_digits_round_trip(c.open as int);
    crate::digits::lemma_digits_round_trip(c.close as int);
    crate::digits::lemma_digits_round_trip(c.high as int);
    crate::digits::lemma_digits_round_trip(c.low as int);
    let fields = spec_entry_fields(c, ct);
    assert(parts_free_of(fields, ';')) by {
        assert forall|q: int, i: int|
            0 <= q < fields.len() && 0 <= i < fields[q].len() implies #[trigger] fields[q][i]
            != ';' by {
            assert(q == 0 || q == 1 || q == 2 || q == 3 || q == 4);
            assert(all_digits(fields[q]));
            assert(crate::digits::is_digit_char(fields[q][i]));
        }
    }
    crate::split::lemma_split_join(fields, ';');
    assert(spec_split(spec_entry(c, ct), ';') == fields);
    assert(spec_parse_num(fields[0]) == Some(part as u64));
    assert(spec_parse_num(fields[1]) == Some(c.open));
    assert(spec_parse_num(fields[2]) == Some(c.close));
    assert(spec_parse_num(fields[3]) == Some(c.high));
    assert(spec_parse_num(fields[4]) == Some(c.low));
    lemma_parse_date_time_round_trip(ct, t);
}

/// Every character of a packed entry is a digit or the field separator;
/// in particular no entry contains the entry separator.
proof fn lemma_entry_pipe_free(c: CandleModel, ct: CandleType)
    requires
        c.datetime < MAX_EPOCH,
    ensures
        forall|i: int| 0 <= i < spec_entry(c, ct).len() ==> spec_entry(c, ct)[i] != '|',
{
    let t = c.datetime as int;
    let p = crate::calendar::lemma_parts_of_epoch_wf(t);
    let part = spec_date_part(t, ct);
    crate::digits::lemma_two_digits_val(part);
    crate::digits::lemma_digits_round_trip(c.open as int);
    crate::digits::lemma_digits_round_trip(c.close as int);
    crate::digits::lemma_digits_round_trip(c.high as int);
    crate::digits::lemma_digits_round_trip(c.low as int);
    let fields = spec_entry_fields(c, ct);
    assert(parts_free_of(fields, '|')) by {
        assert forall|q: int, i: int|
            0 <= q < fields.len() && 0 <= i < fields[q].len() implies #[trigger] fields[q][i]
            != '|' by {
            assert(q == 0 || q == 1 || q == 2 || q == 3 || q == 4);
            assert(all_digits(fields[q]));
            assert(crate::digits::is_digit_char(fields[q][i]));
        }
    }
    crate::split::lemma_join_free_of(fields, ';', '|');
}

/// Decoding the packed entries recovers the candles, entry by entry.
proof fn lemma_decode_entries(
    items: Seq<CandleModel>,
    ct: CandleType,
    pk: Seq<char>,
    rk: Seq<char>,
)
    requires
        forall|i: int| 0 <= i < items.len() ==> (#[trigger] items[i]).datetime < MAX_EPOCH,
        forall|i: int|
            0 <= i < items.len() ==> (#[trigger] items[i]).datetime == spec_bucket_start(
                ct,
                items[i].datetime as int,
            ),
        forall|i: int|
            0 <= i < items.len() ==> spec_partition_key((#[trigger] items[i]).datetime as int, ct)
                == pk,
        forall|i: int|
            0 <= i < items.len() ==> spec_row_key((#[trigger] items[i]).datetime as int, ct) == rk,
    ensures
        spec_decode_lines(spec_entries(items, ct), ct, pk, rk) == Some(items),
    decreases items.len(),
{
    if items.len() == 0 {
        assert(spec_entries(items, ct) =~= Seq::<Seq<char>>::empty());
    } else {
        let prefix = items.drop_last();
        assert(forall|i: int| 0 <= i < prefix.len() ==> #[trigger] prefix[i] == items[i]);
        lemma_decode_entries(prefix, ct, pk, rk);
        let es = spec_entries(items, ct);
        assert(es.drop_last() =~= spec_entries(prefix, ct));
        assert(es.last() == spec_entry(items.last(), ct));
        assert(items[items.len() - 1] == items.last());
        lemma_parse_entry_round_trip(items.last(), ct);
        assert(spec_decode_lines(es, ct, pk, rk) == Some(prefix.push(items.last())));
        assert(prefix.push(items.last()) =~= items);
    }
}

/// The round trip of the durable format: the packed payload of any group
/// of aligned candles sharing one (partition, row) cell decodes back to
/// exactly those candles.
pub proof fn lemma_decode_data_string(
    items: Seq<CandleModel>,
    ct: CandleType,
    pk: Seq<char>,
    rk: Seq<char>,
)
    requires
        forall|i: int| 0 <= i < items.len() ==> (#[trigger] items[i]).datetime < MAX_EPOCH,
        forall|i: int|
            0 <= i < items.len() ==> (#[trigger] items[i]).datetime == spec_bucket_start(
                ct,
                items[i].datetime as int,
            ),
        forall|i: int|
            0 <= i < items.len() ==> spec_partition_key((#[trigger] items[i]).datetime as int, ct)
                == pk,
        forall|i: int|
            0 <= i < items.len() ==> spec_row_key((#[trigger] items[i]).datetime as int, ct) == rk,
    ensures
        spec_decode(spec_data_string(items, ct), ct, pk, rk) == Some(items),
{
    if items.len() == 0 {
        assert(spec_data_string(items, ct).len() == 0);
        assert(Seq::<CandleModel>::empty() =~= items);
    } else {
        lemma_data_string_is_join(items, ct);
        let es = spec_entries(items, ct);
        assert(parts_free_of(es, '|')) by {
            assert forall|q: int, i: int|
                0 <= q < es.len() && 0 <= i < es[q].len() implies #[trigger] es[q][i] != '|' by {
                lemma_entries_are_entries(items, ct, q);
                lemma_entry_pipe_free(items[q], ct);
            }
        }
        crate::split::lemma_split_join(es, '|');
        lemma_entries_are_entries(items, ct, 0);
        crate::split::lemma_join_lower_bound(spec_entry_fields(items[0], ct), ';');
        let p0 = crate::calendar::lemma_parts_of_epoch_wf(items[0].datetime as int);
        crate::digits::lemma_two_digits_val(spec_date_part(items[0].datetime as int, ct));
        crate::split::lemma_join_lower_bound(es, '|');
        assert(spec_data_string(items, ct).len() >= 2);
        lemma_decode_entries(items, ct, pk, rk);
    }
}

/// The `q`th packed entry is the entry of the `q`th candle.
proof fn lemma_entries_are_entries(items: Seq<CandleModel>, ct: CandleType, q: int)
    requires
        0 <= q < items.len(),
    ensures
        spec_entries(items, ct).len() == items.len(),
        spec_entries(items, ct)[q] == spec_entry(items[q], ct),
    decreases items.len(),
{
    if items.len() > 0 {
        if q == items.len() - 1 {
            if items.len() > 1 {
                lemma_entries_are_entries(items.drop_last(), ct, 0);
            } else {
                assert(spec_entries(items.drop_last(), ct) =~= Seq::<Seq<char>>::empty());
            }
            assert(items.last() == items[q]);
        } else {
            lemma_entries_are_entries(items.drop_last(), ct, q);
            assert(items.drop_last()[q] == items[q]);
        }
    }
}

/// A payload with one malformed entry reads back as nothing.
proof fn lemma_decode_lines_none(
    lines: Seq<Seq<char>>,
    ct: CandleType,
    pk: Seq<char>,
    rk: Seq<char>,
    i: int,
)
    requires
        0 <= i < lines.len(),
        spec_parse_entry(lines[i], ct, pk, rk) is None,
    ensures
        spec_decode_lines(lines, ct, pk, rk) is None,
    decreases lines.len(),
{
    if i == lines.len() - 1 {
        assert(lines.last() == lines[i]);
    } else {
        assert(lines.drop_last()[i] == lines[i]);
        lemma_decode_lines_none(lines.drop_last(), ct, pk, rk, i);
    }
}

} // verus!
