//! The field interpreter: one recognised key at a time, it turns a raw
//! `key=value` pair into an update of the record being built, or into the
//! typed error that aborts the line.

use vstd::prelude::*;
use vstd::utf8::{valid_utf8, decode_utf8};
use crate::errors::ParseErrorKind;
use crate::num::{
    spec_bool_of, spec_i64_of, spec_float_syntax, spec_u32_of, parse_bool, parse_i64,
    is_float_region, parse_u32, spec_lower,
};
use crate::record::{kv_view, Level, Record, RecordModel, Value, ValueModel};
use crate::text::decode_region;
use crate::time::{spec_timestamp_of, parse_timestamp};

verus! {

/// The level named by the region `[lo, hi)`, ASCII case-insensitive:
/// `trace`, `debug`, `info`, `warn` or `error` in any casing.
pub open spec fn spec_level_of(s: Seq<u8>, lo: int, hi: int) -> Option<Level> {
    if hi - lo == 5 && spec_lower(s[lo]) == 116 && spec_lower(s[lo + 1]) == 114 && spec_lower(
        s[lo + 2],
    ) == 97 && spec_lower(s[lo + 3]) == 99 && spec_lower(s[lo + 4]) == 101 {
        Some(Level::Trace)
    } else if hi - lo == 5 && spec_lower(s[lo]) == 100 && spec_lower(s[lo + 1]) == 101
        && spec_lower(s[lo + 2]) == 98 && spec_lower(s[lo + 3]) == 117 && spec_lower(s[lo + 4])
        == 103 {
        Some(Level::Debug)
    } else if hi - lo == 4 && spec_lower(s[lo]) == 105 && spec_lower(s[lo + 1]) == 110
        && spec_lower(s[lo + 2]) == 102 && spec_lower(s[lo + 3]) == 111 {
        Some(Level::Info)
    } else if hi - lo == 4 && spec_lower(s[lo]) == 119 && spec_lower(s[lo + 1]) == 97
        && spec_lower(s[lo + 2]) == 114 && spec_lower(s[lo + 3]) == 110 {
        Some(Level::Warn)
    } else if hi - lo == 5 && spec_lower(s[lo]) == 101 && spec_lower(s[lo + 1]) == 114
        && spec_lower(s[lo + 2]) == 114 && spec_lower(s[lo + 3]) == 111 && spec_lower(s[lo + 4])
        == 114 {
        Some(Level::Error)
    } else {
        None
    }
}

/// Parse the region `[lo, hi)` as a level name, ASCII case-insensitive.
pub fn parse_level(buf: &Vec<u8>, lo: usize, hi: usize) -> (r: Option<Level>)
    requires
        lo <= hi <= buf@.len(),
    ensures
        r == spec_level_of(buf@, lo as int, hi as int),
{
    let n = hi - lo;
    if n == 5 {
        let b0 = crate::num::lower(buf[lo]);
        let b1 = crate::num::lower(buf[lo + 1]);
        let b2 = crate::num::lower(buf[lo + 2]);
        let b3 = crate::num::lower(buf[lo + 3]);
        let b4 = crate::num::lower(buf[lo + 4]);
        if b0 == 116 && b1 == 114 && b2 == 97 && b3 == 99 && b4 == 101 {
            Some(Level::Trace)
        } else if b0 == 100 && b1 == 101 && b2 == 98 && b3 == 117 && b4 == 103 {
            Some(Level::Debug)
        } else if b0 == 101 && b1 == 114 && b2 == 114 && b3 == 111 && b4 == 114 {
            Some(Level::Error)
        } else {
            None
        }
    } else if n == 4 {
        let b0 = crate::num::lower(buf[lo]);
        let b1 = crate::num::lower(buf[lo + 1]);
        let b2 = crate::num::lower(buf[lo + 2]);
        let b3 = crate::num::lower(buf[lo + 3]);
        if b0 == 105 && b1 == 110 && b2 == 102 && b3 == 111 {
            Some(Level::Info)
        } else if b0 == 119 && b1 == 97 && b2 == 114 && b3 == 110 {
            Some(Level::Warn)
        } else {
            None
        }
    } else {
        None
    }
}

/// Position of the last `:` in `[lo, hi)`, or `lo - 1` when there is none.
pub open spec fn spec_last_colon(s: Seq<u8>, lo: int, hi: int) -> int
    recommends
        0 <= lo <= hi <= s.len(),
    decreases hi - lo when lo <= hi
{
    if hi <= lo {
        lo - 1
    } else if s[hi - 1] == 58 {
        hi - 1
    } else {
        spec_last_colon(s, lo, hi - 1)
    }
}

pub proof fn lemma_last_colon(s: Seq<u8>, lo: int, hi: int)
    requires
        0 <= lo <= hi <= s.len(),
    ensures
        lo - 1 <= spec_last_colon(s, lo, hi) < hi,
        spec_last_colon(s, lo, hi) >= lo ==> s[spec_last_colon(s, lo, hi)] == 58,
    decreases hi - lo,
{
    if hi > lo && s[hi - 1] != 58 {
        lemma_last_colon(s, lo, hi - 1);
    }
}

/// The file field encoded by the region `[lo, hi)`: the bytes must be valid
/// UTF-8, split at the last `:`; the left part is the path, the right part
/// the line number as a `u32`.
pub open spec fn spec_file_of(s: Seq<u8>, lo: int, hi: int) -> Option<(Seq<char>, u32)> {
    if !valid_utf8(s.subrange(lo, hi)) {
        None
    } else {
        let c = spec_last_colon(s, lo, hi);
        if c < lo {
            None
        } else {
            match spec_u32_of(s, c + 1, hi) {
                Some(n) => Some((decode_utf8(s.subrange(lo, c)), n)),
                None => None,
            }
        }
    }
}

/// Parse the region `[lo, hi)` as a file field, `path:line`, splitting at
/// the last `:`.
pub fn parse_file(buf: &Vec<u8>, lo: usize, hi: usize) -> (r: Option<(String, u32)>)
    requires
        lo <= hi <= buf@.len(),
    ensures
        r is Some <==> spec_file_of(buf@, lo as int, hi as int) is Some,
        r matches Some((p, n)) ==> spec_file_of(buf@, lo as int, hi as int) == Some((p@, n)),
{
    let whole = decode_region(buf, lo, hi);
    if whole.is_none() {
        return None;
    }
    // Scan backwards for the last colon.
    let mut i: usize = hi;
    while i > lo && buf[i - 1] != 58
        invariant
            lo <= i <= hi <= buf@.len(),
            spec_last_colon(buf@, lo as int, hi as int) == spec_last_colon(
                buf@,
                lo as int,
                i as int,
            ),
        decreases i,
    {
        i = i - 1;
    }
    if i == lo {
        return None;
    }
    let c = i - 1;
    let n = match parse_u32(buf, c + 1, hi) {
        Some(n) => n,
        None => {
            return None;
        },
    };
    proof {
        let whole_bytes = buf@.subrange(lo as int, hi as int);
        assert(whole_bytes[c - lo] == 58);
        vstd::utf8::is_char_boundary_iff_not_is_continuation_byte(whole_bytes, c - lo);
        vstd::utf8::valid_utf8_split(whole_bytes, c - lo);
        assert(whole_bytes.subrange(0, c - lo) =~= buf@.subrange(lo as int, c as int));
    }
    match decode_region(buf, lo, c) {
        Some(p) => {
            proof {
                vstd::utf8::encode_utf8_decode_utf8(p@);
            }
            Some((p, n))
        },
        None => {
            proof {
                assert(false);
            }
            None
        },
    }
}

/// The value bound to an unrecognised key, inferred from the region
/// `[lo, hi)`: the bytes must be valid UTF-8; then a boolean literal, a
/// decimal `i64`, text with floating-point syntax, or plain text, tried in
/// that order.
pub open spec fn spec_value_of(s: Seq<u8>, lo: int, hi: int) -> Option<ValueModel> {
    if !valid_utf8(s.subrange(lo, hi)) {
        None
    } else if spec_bool_of(s, lo, hi) is Some {
        Some(ValueModel::Bool(spec_bool_of(s, lo, hi)->Some_0))
    } else if spec_i64_of(s, lo, hi) is Some {
        Some(ValueModel::Int(spec_i64_of(s, lo, hi)->Some_0))
    } else if spec_float_syntax(s, lo, hi) {
        Some(ValueModel::Float(decode_utf8(s.subrange(lo, hi))))
    } else {
        Some(ValueModel::Text(decode_utf8(s.subrange(lo, hi))))
    }
}

/// Infer the value of the region `[lo, hi)` for an unrecognised key.  Fails
/// exactly when the region is not valid UTF-8; every valid region yields
/// some value.
pub fn infer_value(buf: &Vec<u8>, lo: usize, hi: usize) -> (r: Option<Value>)
    requires
        lo <= hi <= buf@.len(),
    ensures
        r is Some <==> spec_value_of(buf@, lo as int, hi as int) is Some,
        r matches Some(v) ==> spec_value_of(buf@, lo as int, hi as int) == Some(v@),
{
    let text = match decode_region(buf, lo, hi) {
        Some(t) => t,
        None => {
            return None;
        },
    };
    proof {
        vstd::utf8::encode_utf8_decode_utf8(text@);
    }
    if let Some(b) = parse_bool(buf, lo, hi) {
        return Some(Value::Bool(b));
    }
    if let Some(n) = parse_i64(buf, lo, hi) {
        return Some(Value::Int(n));
    }
    if is_float_region(buf, lo, hi) {
        Some(Value::Float(text))
    } else {
        Some(Value::String(text))
    }
}

/// First index whose key is `k`, or `-1`.
pub open spec fn spec_kv_index(kvs: Seq<(Seq<char>, ValueModel)>, k: Seq<char>) -> int
    decreases kvs.len(),
{
    if kvs.len() == 0 {
        -1
    } else if kvs[0].0 == k {
        0
    } else {
        let r = spec_kv_index(kvs.drop_first(), k);
        if r == -1 {
            -1
        } else {
            r + 1
        }
    }
}

pub proof fn lemma_kv_index(kvs: Seq<(Seq<char>, ValueModel)>, k: Seq<char>)
    ensures
        -1 <= spec_kv_index(kvs, k) < kvs.len(),
        spec_kv_index(kvs, k) >= 0 ==> kvs[spec_kv_index(kvs, k)].0 == k,
        spec_kv_index(kvs, k) >= 0 ==> forall|j: int|
            0 <= j < spec_kv_index(kvs, k) ==> (#[trigger] kvs[j]).0 != k,
        spec_kv_index(kvs, k) == -1 ==> forall|j: int|
            0 <= j < kvs.len() ==> (#[trigger] kvs[j]).0 != k,
    decreases kvs.len(),
{
    if kvs.len() > 0 && kvs[0].0 != k {
        let t = kvs.drop_first();
        lemma_kv_index(t, k);
        let r = spec_kv_index(kvs, k);
        if r >= 0 {
            assert forall|j: int| 0 <= j < r implies (#[trigger] kvs[j]).0 != k by {
                if j > 0 {
                    assert(kvs[j] == t[j - 1]);
                }
            }
        } else {
            assert forall|j: int| 0 <= j < kvs.len() implies (#[trigger] kvs[j]).0 != k by {
                if j > 0 {
                    assert(kvs[j] == t[j - 1]);
                }
            }
        }
    }
}

/// The first index bearing `k` is the one where `k` first occurs.
pub proof fn lemma_kv_index_at(kvs: Seq<(Seq<char>, ValueModel)>, k: Seq<char>, i: int)
    requires
        0 <= i < kvs.len(),
        kvs[i].0 == k,
        forall|j: int| 0 <= j < i ==> (#[trigger] kvs[j]).0 != k,
    ensures
        spec_kv_index(kvs, k) == i,
    decreases kvs.len(),
{
    if i > 0 {
        let t = kvs.drop_first();
        assert(t[i - 1] == kvs[i]);
        assert forall|j: int| 0 <= j < i - 1 implies (#[trigger] t[j]).0 != k by {
            assert(t[j] == kvs[j + 1]);
        }
        lemma_kv_index_at(t, k, i - 1);
    }
}

/// The pair sequence after binding `k` to `v`: the pair at `k`'s first
/// index is overwritten, or the new pair is appended when `k` is new.
pub open spec fn spec_kv_set(
    kvs: Seq<(Seq<char>, ValueModel)>,
    k: Seq<char>,
    v: ValueModel,
) -> Seq<(Seq<char>, ValueModel)> {
    let i = spec_kv_index(kvs, k);
    if i == -1 {
        kvs.push((k, v))
    } else {
        kvs.update(i, (k, v))
    }
}

/// Bind `key` to `value` among the extra pairs, the later occurrence of a
/// key overwriting the earlier one.
pub fn kv_insert(kvs: &mut Vec<(String, Value)>, key: String, value: Value)
    ensures
        kv_view(final(kvs)@) == spec_kv_set(kv_view(old(kvs)@), key@, value@),
{
    let ghost kview = kv_view(old(kvs)@);
    proof {
        lemma_kv_index(kview, key@);
    }
    let n = kvs.len();
    let mut i: usize = 0;
    while i < n
        invariant
            n == kvs@.len(),
            0 <= i <= n,
            kview == kv_view(old(kvs)@),
            kv_view(kvs@) == kview,
            forall|j: int| 0 <= j < i ==> (#[trigger] kview[j]).0 != key@,
        decreases n - i,
    {
        proof {
            assert(kview[i as int] == (kvs@[i as int].0@, kvs@[i as int].1@));
        }
        if kvs[i].0 == key {
            let _ = kvs.remove(i);
            kvs.insert(i, (key, value));
            proof {
                lemma_kv_index_at(kview, key@, i as int);
                assert(kv_view(kvs@) =~= kview.update(i as int, (key@, value@)));
            }
            return ;
        }
        i = i + 1;
    }
    kvs.push((key, value));
    proof {
        lemma_kv_index(kview, key@);
        assert(kv_view(kvs@) =~= kview.push((key@, value@)));
    }
}

/// Whether the key region is exactly `ts`.
pub open spec fn key_is_ts(s: Seq<u8>, lo: int, hi: int) -> bool {
    hi - lo == 2 && s[lo] == 116 && s[lo + 1] == 115
}

/// Whether the key region is exactly `lvl`.
pub open spec fn key_is_lvl(s: Seq<u8>, lo: int, hi: int) -> bool {
    hi - lo == 3 && s[lo] == 108 && s[lo + 1] == 118 && s[lo + 2] == 108
}

/// Whether the key region is exactly `msg`.
pub open spec fn key_is_msg(s: Seq<u8>, lo: int, hi: int) -> bool {
    hi - lo == 3 && s[lo] == 109 && s[lo + 1] == 115 && s[lo + 2] == 103
}

/// Whether the key region is exactly `target`.
pub open spec fn key_is_target(s: Seq<u8>, lo: int, hi: int) -> bool {
    hi - lo == 6 && s[lo] == 116 && s[lo + 1] == 97 && s[lo + 2] == 114 && s[lo + 3] == 103 && s[lo
        + 4] == 101 && s[lo + 5] == 116
}

/// Whether the key region is exactly `module`.
pub open spec fn key_is_module(s: Seq<u8>, lo: int, hi: int) -> bool {
    hi - lo == 6 && s[lo] == 109 && s[lo + 1] == 111 && s[lo + 2] == 100 && s[lo + 3] == 117 && s[lo
        + 4] == 108 && s[lo + 5] == 101
}

/// Whether the key region is exactly `file`.
pub open spec fn key_is_file(s: Seq<u8>, lo: int, hi: int) -> bool {
    hi - lo == 4 && s[lo] == 102 && s[lo + 1] == 105 && s[lo + 2] == 108 && s[lo + 3] == 101
}

/// The record after one `key=value` pair is interpreted, or the error that
/// aborts the line.  The recognised keys set their typed field; any other
/// key joins the extra pairs after UTF-8 validation of key and value, the
/// value inferred best-effort.
pub open spec fn spec_interpret(
    rec: RecordModel,
    s: Seq<u8>,
    klo: int,
    khi: int,
    vlo: int,
    vhi: int,
) -> Result<RecordModel, ParseErrorKind> {
    if key_is_ts(s, klo, khi) {
        match spec_timestamp_of(s, vlo, vhi) {
            Some(t) => Ok(RecordModel { timestamp: Some(t), ..rec }),
            None => Err(ParseErrorKind::InvalidTimestamp),
        }
    } else if key_is_lvl(s, klo, khi) {
        match spec_level_of(s, vlo, vhi) {
            Some(l) => Ok(RecordModel { level: l, ..rec }),
            None => Err(ParseErrorKind::InvalidLevel),
        }
    } else if key_is_msg(s, klo, khi) {
        if valid_utf8(s.subrange(vlo, vhi)) {
            Ok(RecordModel { msg: decode_utf8(s.subrange(vlo, vhi)), ..rec })
        } else {
            Err(ParseErrorKind::InvalidValue)
        }
    } else if key_is_target(s, klo, khi) {
        if valid_utf8(s.subrange(vlo, vhi)) {
            Ok(RecordModel { target: decode_utf8(s.subrange(vlo, vhi)), ..rec })
        } else {
            Err(ParseErrorKind::InvalidValue)
        }
    } else if key_is_module(s, klo, khi) {
        if valid_utf8(s.subrange(vlo, vhi)) {
            if decode_utf8(s.subrange(vlo, vhi)).len() > 0 {
                Ok(RecordModel { module: Some(decode_utf8(s.subrange(vlo, vhi))), ..rec })
            } else {
                Ok(rec)
            }
        } else {
            Err(ParseErrorKind::InvalidValue)
        }
    } else if key_is_file(s, klo, khi) {
        match spec_file_of(s, vlo, vhi) {
            Some((p, n)) => Ok(RecordModel { file: Some((p, n)), ..rec }),
            None => Err(ParseErrorKind::InvalidFile),
        }
    } else {
        if !valid_utf8(s.subrange(klo, khi)) {
            Err(ParseErrorKind::KeyInvalidUt8)
        } else {
            match spec_value_of(s, vlo, vhi) {
                Some(v) => Ok(
                    RecordModel {
                        key_values: spec_kv_set(
                            rec.key_values,
                            decode_utf8(s.subrange(klo, khi)),
                            v,
                        ),
                        ..rec
                    },
                ),
                None => Err(ParseErrorKind::InvalidValue),
            }
        }
    }
}

/// Interpret one scanned `key=value` pair, updating the record in place.
/// On an error the record is left unchanged and the caller aborts the line.
pub fn interpret(
    rec: &mut Record,
    buf: &Vec<u8>,
    klo: usize,
    khi: usize,
    vlo: usize,
    vhi: usize,
) -> (r: Result<(), ParseErrorKind>)
    requires
        klo <= khi <= buf@.len(),
        vlo <= vhi <= buf@.len(),
    ensures
        match r {
            Ok(()) => spec_interpret(
                old(rec)@,
                buf@,
                klo as int,
                khi as int,
                vlo as int,
                vhi as int,
            ) == Ok::<RecordModel, ParseErrorKind>(final(rec)@),
            Err(e) => spec_interpret(
                old(rec)@,
                buf@,
                klo as int,
                khi as int,
                vlo as int,
                vhi as int,
            ) == Err::<RecordModel, ParseErrorKind>(e) && final(rec)@ == old(rec)@,
        },
{
    let n = khi - klo;
    if n == 2 && buf[klo] == 116 && buf[klo + 1] == 115 {
        match parse_timestamp(buf, vlo, vhi) {
            Some(t) => {
                rec.timestamp = Some(t);
                proof {
                    assert(rec@ =~= RecordModel { timestamp: Some(t), ..old(rec)@ });
                }
                Ok(())
            },
            None => Err(ParseErrorKind::InvalidTimestamp),
        }
    } else if n == 3 && buf[klo] == 108 && buf[klo + 1] == 118 && buf[klo + 2] == 108 {
        match parse_level(buf, vlo, vhi) {
            Some(l) => {
                rec.level = l;
                proof {
                    assert(rec@ =~= RecordModel { level: l, ..old(rec)@ });
                }
                Ok(())
            },
            None => Err(ParseErrorKind::InvalidLevel),
        }
    } else if n == 3 && buf[klo] == 109 && buf[klo + 1] == 115 && buf[klo + 2] == 103 {
        match decode_region(buf, vlo, vhi) {
            Some(s) => {
                proof {
                    vstd::utf8::encode_utf8_decode_utf8(s@);
                }
                rec.msg = s;
                proof {
                    assert(rec@ =~= RecordModel {
                        msg: decode_utf8(buf@.subrange(vlo as int, vhi as int)),
                        ..old(rec)@
                    });
                }
                Ok(())
            },
            None => Err(ParseErrorKind::InvalidValue),
        }
    } else if n == 6 && buf[klo] == 116 && buf[klo + 1] == 97 && buf[klo + 2] == 114 && buf[klo + 3]
        == 103 && buf[klo + 4] == 101 && buf[klo + 5] == 116 {
        match decode_region(buf, vlo, vhi) {
            Some(s) => {
                proof {
                    vstd::utf8::encode_utf8_decode_utf8(s@);
                }
                rec.target = s;
                proof {
                    assert(rec@ =~= RecordModel {
                        target: decode_utf8(buf@.subrange(vlo as int, vhi as int)),
                        ..old(rec)@
                    });
                }
                Ok(())
            },
            None => Err(ParseErrorKind::InvalidValue),
        }
    } else if n == 6 && buf[klo] == 109 && buf[klo + 1] == 111 && buf[klo + 2] == 100 && buf[klo
        + 3] == 117 && buf[klo + 4] == 108 && buf[klo + 5] == 101 {
        match decode_region(buf, vlo, vhi) {
            Some(s) => {
                proof {
                    vstd::utf8::encode_utf8_decode_utf8(s@);
                }
                if s.as_str().unicode_len() > 0 {
                    rec.module = Some(s);
                    proof {
                        assert(rec@ =~= RecordModel {
                            module: Some(decode_utf8(buf@.subrange(vlo as int, vhi as int))),
                            ..old(rec)@
                        });
                    }
                } else {
                    proof {
                        assert(rec@ =~= old(rec)@);
                    }
                }
                Ok(())
            },
            None => Err(ParseErrorKind::InvalidValue),
        }
    } else if n == 4 && buf[klo] == 102 && buf[klo + 1] == 105 && buf[klo + 2] == 108 && buf[klo
        + 3] == 101 {
        match parse_file(buf, vlo, vhi) {
            Some((p, line)) => {
                let ghost pv = p@;
                rec.file = Some((p, line));
                proof {
                    assert(rec@ =~= RecordModel { file: Some((pv, line)), ..old(rec)@ });
                }
                Ok(())
            },
            None => Err(ParseErrorKind::InvalidFile),
        }
    } else {
        let key = match decode_region(buf, klo, khi) {
            Some(k) => k,
            None => {
                return Err(ParseErrorKind::KeyInvalidUt8);
            },
        };
        proof {
            vstd::utf8::encode_utf8_decode_utf8(key@);
        }
        let value = match infer_value(buf, vlo, vhi) {
            Some(v) => v,
            None => {
                return Err(ParseErrorKind::InvalidValue);
            },
        };
        kv_insert(&mut rec.key_values, key, value);
        proof {
            assert(rec@ =~= RecordModel {
                key_values: spec_kv_set(
                    old(rec)@.key_values,
                    decode_utf8(buf@.subrange(klo as int, khi as int)),
                    spec_value_of(buf@, vlo as int, vhi as int)->Some_0,
                ),
                ..old(rec)@
            });
        }
        Ok(())
    }
}

/// Binding a key never breaks key uniqueness: an existing key is
/// overwritten in place, a new key is appended.
pub proof fn lemma_kv_set_unique(kvs: Seq<(Seq<char>, ValueModel)>, k: Seq<char>, v: ValueModel)
    requires
        forall|i: int, j: int|
            0 <= i < j < kvs.len() ==> (#[trigger] kvs[i]).0 != (#[trigger] kvs[j]).0,
    ensures
        ({
            let r = spec_kv_set(kvs, k, v);
            forall|i: int, j: int|
                0 <= i < j < r.len() ==> (#[trigger] r[i]).0 != (#[trigger] r[j]).0
        }),
{
    lemma_kv_index(kvs, k);
    let ix = spec_kv_index(kvs, k);
    let r = spec_kv_set(kvs, k, v);
    if ix == -1 {
        assert forall|i: int, j: int|
            0 <= i < j < r.len() implies (#[trigger] r[i]).0 != (#[trigger] r[j]).0 by {
            if j < kvs.len() {
                assert(r[i] == kvs[i] && r[j] == kvs[j]);
            } else {
                assert(r[i] == kvs[i] && r[j] == (k, v));
            }
        }
    } else {
        assert forall|i: int, j: int|
            0 <= i < j < r.len() implies (#[trigger] r[i]).0 != (#[trigger] r[j]).0 by {
            assert(r[i].0 == kvs[i].0 && r[j].0 == kvs[j].0);
        }
    }
}

/// Interpreting one pair keeps the extra keys of the record unique.
pub proof fn lemma_interpret_unique(
    rec: RecordModel,
    s: Seq<u8>,
    klo: int,
    khi: int,
    vlo: int,
    vhi: int,
)
    requires
        rec.keys_unique(),
    ensures
        spec_interpret(rec, s, klo, khi, vlo, vhi) matches Ok(rec2) ==> rec2.keys_unique(),
{
    if spec_interpret(rec, s, klo, khi, vlo, vhi) matches Ok(rec2) {
        if !(key_is_ts(s, klo, khi) || key_is_lvl(s, klo, khi) || key_is_msg(s, klo, khi)
            || key_is_target(s, klo, khi) || key_is_module(s, klo, khi) || key_is_file(
            s,
            klo,
            khi,
        )) {
            if valid_utf8(s.subrange(klo, khi)) && spec_value_of(s, vlo, vhi) is Some {
                lemma_kv_set_unique(
                    rec.key_values,
                    decode_utf8(s.subrange(klo, khi)),
                    spec_value_of(s, vlo, vhi)->Some_0,
                );
            }
        }
    }
}


} // verus!
