//! The wire timestamp: a fixed 27-byte layout `YYYY-MM-DDTHH:MM:SS.NNNNNNZ`,
//! and the pure proleptic-Gregorian conversion of its calendar fields to
//! seconds since the Unix epoch.
//!
//! The conversion relies on no time zone database: it is plain calendar
//! arithmetic, with out-of-range fields rolling over (month 13 is January of
//! the following year, day 0 the day before the first of the month), as the
//! usual `timegm` conversion treats them.

use vstd::prelude::*;
use crate::num::{
    spec_signed_valid, spec_signed_val, spec_u32_of, parse_subfield, parse_u32, pow10,
    spec_unsigned_valid, lemma_digits_val_bound,
};
use crate::record::Timestamp;

verus! {

/// Days between the given proleptic-Gregorian calendar day and the Unix
/// epoch.  The year is shifted by 4800 (twelve 400-year eras) so that every
/// intermediate quantity stays non-negative for any four-digit year; the
/// shift is taken back out at the end.
pub open spec fn spec_days_from_epoch(y: int, mo: int, d: int) -> int
    recommends
        -999 <= y,
{
    let mt = y * 12 + mo - 1 + 57600;
    let yy = mt / 12;
    let month = mt % 12 + 1;
    let y2 = yy - (if month <= 2 {
        1int
    } else {
        0int
    });
    let era = y2 / 400;
    let yoe = y2 % 400;
    let mp = (month + 9) % 12;
    let doy = (153 * mp + 2) / 5;
    let doe = yoe * 365 + yoe / 4 - yoe / 100 + doy;
    era * 146097 + doe + (d - 1) - 719468 - 1753164
}

/// Seconds between the given proleptic-Gregorian calendar fields and the
/// Unix epoch; hour, minute and second simply scale and add.
pub open spec fn spec_epoch_seconds(y: int, mo: int, d: int, h: int, mi: int, s: int) -> int
    recommends
        -999 <= y,
{
    spec_days_from_epoch(y, mo, d) * 86400 + h * 3600 + mi * 60 + s
}

/// Seconds between the given calendar fields and the Unix epoch.
///
/// The field ranges cover everything a parsed signed subfield of up to
/// four characters can hold.
pub fn epoch_seconds(y: i32, mo: i32, d: i32, h: i32, mi: i32, s: i32) -> (r: i64)
    requires
        -999 <= y <= 9999,
        -999 <= mo <= 9999,
        -999 <= d <= 9999,
        -999 <= h <= 9999,
        -999 <= mi <= 9999,
        -999 <= s <= 9999,
    ensures
        r == spec_epoch_seconds(y as int, mo as int, d as int, h as int, mi as int, s as int),
        -1000000000000 <= r <= 1000000000000,
{
    let mt: u64 = (y as i64 * 12 + mo as i64 - 1 + 57600) as u64;
    let yy: u64 = mt / 12;
    let month: u64 = mt % 12 + 1;
    let y2: u64 = yy - (if month <= 2 {
        1
    } else {
        0
    });
    let era: u64 = y2 / 400;
    let yoe: u64 = y2 % 400;
    let mp: u64 = (month + 9) % 12;
    let doy: u64 = (153 * mp + 2) / 5;
    let doe: u64 = yoe * 365 + yoe / 4 - yoe / 100 + doy;
    let days: i64 = (era * 146097 + doe) as i64 + (d as i64 - 1) - 719468 - 1753164;
    days * 86400 + h as i64 * 3600 + mi as i64 * 60 + s as i64
}

/// Whether the region `[lo, hi)` has the fixed 27-byte timestamp layout:
/// correct length and the separators `-`, `-`, `T`, `:`, `:`, `.`, `Z` at
/// their fixed offsets.
pub open spec fn spec_ts_shape(s: Seq<u8>, lo: int, hi: int) -> bool {
    &&& hi - lo == 27
    &&& s[lo + 4] == 45
    &&& s[lo + 7] == 45
    &&& s[lo + 10] == 84
    &&& s[lo + 13] == 58
    &&& s[lo + 16] == 58
    &&& s[lo + 19] == 46
    &&& s[lo + 26] == 90
}

/// Whether each numeric subfield of the timestamp region parses: year,
/// month, day, hour, minute and second as signed decimals, the six
/// fractional digits as an unsigned decimal.
pub open spec fn spec_ts_fields_valid(s: Seq<u8>, lo: int) -> bool {
    &&& spec_signed_valid(s, lo, lo + 4)
    &&& spec_signed_valid(s, lo + 5, lo + 7)
    &&& spec_signed_valid(s, lo + 8, lo + 10)
    &&& spec_signed_valid(s, lo + 11, lo + 13)
    &&& spec_signed_valid(s, lo + 14, lo + 16)
    &&& spec_signed_valid(s, lo + 17, lo + 19)
    &&& spec_u32_of(s, lo + 20, lo + 26) is Some
}

/// The timestamp encoded by the region `[lo, hi)`, when its layout and all
/// of its numeric subfields are valid.
pub open spec fn spec_timestamp_of(s: Seq<u8>, lo: int, hi: int) -> Option<Timestamp> {
    if spec_ts_shape(s, lo, hi) && spec_ts_fields_valid(s, lo) {
        Some(
            Timestamp {
                secs: spec_epoch_seconds(
                    spec_signed_val(s, lo, lo + 4),
                    spec_signed_val(s, lo + 5, lo + 7),
                    spec_signed_val(s, lo + 8, lo + 10),
                    spec_signed_val(s, lo + 11, lo + 13),
                    spec_signed_val(s, lo + 14, lo + 16),
                    spec_signed_val(s, lo + 17, lo + 19),
                ) as i64,
                nanos: spec_u32_of(s, lo + 20, lo + 26)->Some_0,
            },
        )
    } else {
        None
    }
}

/// Parse the region `[lo, hi)` as a wire timestamp.  Succeeds exactly when
/// the layout and every numeric subfield are valid; the result is the pure
/// calendar conversion of the fields, and the sub-second field is below one
/// million.
pub fn parse_timestamp(buf: &Vec<u8>, lo: usize, hi: usize) -> (r: Option<Timestamp>)
    requires
        lo <= hi <= buf@.len(),
    ensures
        r == spec_timestamp_of(buf@, lo as int, hi as int),
        r matches Some(t) ==> t.nanos < 1000000,
{
    if hi - lo != 27 {
        return None;
    }
    if buf[lo + 4] != 45 || buf[lo + 7] != 45 || buf[lo + 10] != 84 || buf[lo + 13] != 58 || buf[lo
        + 16] != 58 || buf[lo + 19] != 46 || buf[lo + 26] != 90 {
        return None;
    }
    let year = match parse_subfield(buf, lo, lo + 4) {
        Some(v) => v,
        None => {
            return None;
        },
    };
    let month = match parse_subfield(buf, lo + 5, lo + 7) {
        Some(v) => v,
        None => {
            return None;
        },
    };
    let day = match parse_subfield(buf, lo + 8, lo + 10) {
        Some(v) => v,
        None => {
            return None;
        },
    };
    let hour = match parse_subfield(buf, lo + 11, lo + 13) {
        Some(v) => v,
        None => {
            return None;
        },
    };
    let min = match parse_subfield(buf, lo + 14, lo + 16) {
        Some(v) => v,
        None => {
            return None;
        },
    };
    let sec = match parse_subfield(buf, lo + 17, lo + 19) {
        Some(v) => v,
        None => {
            return None;
        },
    };
    let micros = match parse_u32(buf, lo + 20, lo + 26) {
        Some(v) => v,
        None => {
            return None;
        },
    };
    proof {
        assert(pow10(0) == 1);
        assert(pow10(1) == 10);
        assert(pow10(2) == 100);
        assert(pow10(3) == 1000);
        assert(pow10(4) == 10000);
        assert(pow10(5) == 100000);
        assert(pow10(6) == 1000000);
        if spec_unsigned_valid(buf@, lo + 20, lo + 26) {
            let d0 = if buf@[lo + 20] == 43 {
                lo + 21
            } else {
                lo + 20
            };
            lemma_digits_val_bound(buf@, d0 as int, lo + 26);
            assert(lo + 26 - d0 == 5 || lo + 26 - d0 == 6);
        }
    }
    let secs = epoch_seconds(year, month, day, hour, min, sec);
    Some(Timestamp { secs, nanos: micros })
}

} // verus!
