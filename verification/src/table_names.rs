//! Table naming for the candle store: one table per (instrument,
//! granularity), named by the instrument id with `.` removed followed by
//! the granularity's ordinal code, plus a prefixed long form.

use vstd::prelude::*;
use vstd::string::{StrSliceExecFns, StringExecFns};

use crate::candle_type::CandleType;
use crate::digits::{digit_char, digit_str, digit_val, is_digit_char};

verus! {

/// The prefix of the long instrument table name form.
pub open spec fn spec_prefix() -> Seq<char> {
    seq!['C', 'A', 'N', 'D', 'L', 'E']
}

/// `s` with every left-to-right, non-overlapping occurrence of `pat`
/// removed.
pub open spec fn spec_remove_pat(s: Seq<char>, pat: Seq<char>) -> Seq<char>
    decreases s.len(),
{
    if pat.len() < 1 || s.len() < pat.len() {
        s
    } else if s.subrange(0, pat.len() as int) == pat {
        spec_remove_pat(s.skip(pat.len() as int), pat)
    } else {
        seq![s[0]] + spec_remove_pat(s.drop_first(), pat)
    }
}

/// Whether `pat` occurs in `s` at position `i`.
fn matches_at(s: &str, i: usize, pat: &str) -> (r: bool)
    requires
        i + pat@.len() <= s@.len(),
        i + pat@.len() <= usize::MAX,
    ensures
        r <==> s@.subrange(i as int, i as int + pat@.len() as int) == pat@,
{
    let pat_len = pat.unicode_len();
    let mut j: usize = 0;
    while j < pat_len
        invariant
            0 <= j <= pat_len,
            pat_len == pat@.len(),
            i + pat_len <= s@.len(),
            i + pat_len <= usize::MAX,
            forall|k: int| 0 <= k < j ==> s@[i + k] == pat@[k],
        decreases pat_len - j,
    {
        if s.get_char(i + j) != pat.get_char(j) {
            proof {
                assert(s@.subrange(i as int, i as int + pat@.len() as int)[j as int] == s@[i + j]);
            }
            return false;
        }
        j = j + 1;
    }
    proof {
        assert(s@.subrange(i as int, i as int + pat@.len() as int) =~= pat@);
    }
    true
}

/// Removes every occurrence of a non-empty pattern from a string.
fn remove_pat(s: &str, pat: &str) -> (r: String)
    requires
        pat@.len() >= 1,
    ensures
        r@ == spec_remove_pat(s@, pat@),
{
    let len = s.unicode_len();
    let pat_len = pat.unicode_len();
    let mut r = String::new();
    let mut i: usize = 0;
    proof {
        assert(s@.skip(0) =~= s@);
        assert(r@ =~= Seq::<char>::empty());
        assert(r@ + spec_remove_pat(s@, pat@) =~= spec_remove_pat(s@, pat@));
    }
    while i < len
        invariant
            0 <= i <= len,
            len == s@.len(),
            pat_len == pat@.len(),
            pat_len >= 1,
            spec_remove_pat(s@, pat@) == r@ + spec_remove_pat(s@.skip(i as int), pat@),
        decreases len - i,
    {
        let ghost tail = s@.skip(i as int);
        if pat_len <= len - i && matches_at(s, i, pat) {
            proof {
                assert(tail.subrange(0, pat@.len() as int) =~= s@.subrange(
                    i as int,
                    i as int + pat@.len() as int,
                ));
                assert(tail.skip(pat@.len() as int) =~= s@.skip(i as int + pat_len as int));
                assert(r@ + spec_remove_pat(tail, pat@) == r@ + spec_remove_pat(
                    s@.skip(i as int + pat_len as int),
                    pat@,
                ));
            }
            i = i + pat_len;
        } else {
            let one = s.substring_char(i, i + 1);
            let ghost c = s@[i as int];
            r.append(one);
            proof {
                assert(one@ =~= seq![c]);
                assert(tail.len() >= 1);
                assert(tail[0] == c);
                assert(tail.drop_first() =~= s@.skip(i as int + 1));
                assert(tail =~= seq![c] + tail.drop_first());
                if tail.len() >= pat@.len() {
                    assert(tail.subrange(0, pat@.len() as int) =~= s@.subrange(
                        i as int,
                        i as int + pat@.len() as int,
                    ));
                    assert(tail.subrange(0, pat@.len() as int) != pat@);
                }
                assert(spec_remove_pat(tail, pat@) == seq![c] + spec_remove_pat(
                    s@.skip(i as int + 1),
                    pat@,
                ));
            }
            i = i + 1;
        }
    }
    proof {
        assert(s@.skip(len as int) =~= Seq::<char>::empty());
        assert(r@ + Seq::<char>::empty() =~= r@);
    }
    r
}

/// The long table-name form of an instrument id: the fixed prefix followed
/// by the id.
pub fn generate_instrument_name(instrument_id: &str) -> (r: String)
    ensures
        r@ == spec_prefix() + instrument_id@,
{
    proof {
        reveal_strlit("CANDLE");
        assert(("CANDLE")@ =~= spec_prefix());
    }
    let mut r = String::from_str("CANDLE");
    r.append(instrument_id);
    proof {
        assert(r@ =~= spec_prefix() + instrument_id@);
    }
    r
}

/// Strips every occurrence of the long-form prefix from a table name.
pub fn parse_short_instrument_table_name(table_name: &str) -> (r: String)
    ensures
        r@ == spec_remove_pat(table_name@, spec_prefix()),
{
    proof {
        reveal_strlit("CANDLE");
        assert(("CANDLE")@ =~= spec_prefix());
    }
    remove_pat(table_name, "CANDLE")
}

/// The table name of one (instrument, granularity): the id with `.`
/// removed, followed by the granularity's ordinal code.
pub fn get_table_name(candle_type: CandleType, unformatted_instrument_id: &str) -> (r: String)
    ensures
        r@ == spec_remove_pat(unformatted_instrument_id@, seq!['.']) + seq![
            digit_char(candle_type.spec_code()),
        ],
{
    proof {
        reveal_strlit(".");
        assert((".")@ =~= seq!['.']);
    }
    let mut r = remove_pat(unformatted_instrument_id, ".");
    r.append(digit_str(candle_type.code() as u64));
    proof {
        assert(r@ =~= spec_remove_pat(unformatted_instrument_id@, seq!['.']) + seq![
            digit_char(candle_type.spec_code()),
        ]);
    }
    r
}

/// Splits a candle table name into its granularity and the short
/// instrument id in front of the code.  A name whose last character is no
/// granularity code names no table: such metadata is corrupt, and callers
/// must not hand it here.
pub fn parse_table_name_into_candle_and_instrument(table_name: String) -> (r: (
    CandleType,
    String,
))
    requires
        table_name@.len() >= 1,
        is_digit_char(table_name@.last()),
        digit_val(table_name@.last()) <= 3,
    ensures
        r.0.spec_code() == digit_val(table_name@.last()),
        r.1@ == spec_remove_pat(
            table_name@.subrange(0, table_name@.len() - 1),
            spec_prefix(),
        ),
{
    let len = table_name.as_str().unicode_len();
    let code = table_name.as_str().get_char(len - 1);
    let head = table_name.as_str().substring_char(0, len - 1);
    let id = parse_short_instrument_table_name(head);
    let ct = if code == '0' {
        CandleType::Minute
    } else if code == '1' {
        CandleType::Hour
    } else if code == '2' {
        CandleType::Day
    } else {
        CandleType::Month
    };
    proof {
        assert(table_name@.last() == code);
        if code != '0' && code != '1' && code != '2' {
            assert(digit_val(code) == 3);
            assert(code == '3');
        }
    }
    (ct, id)
}

} // verus!
