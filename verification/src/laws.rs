//! Laws that tie the pieces of the library together, stated and proved
//! once, for all inputs.

use vstd::prelude::*;
use crate::num::{spec_digits_val, all_digits, spec_signed_valid, spec_signed_val, spec_u32_of};
use crate::parser::{spec_key_region, spec_line_loop, spec_value_region};
use crate::record::RecordModel;
use crate::scan::{
    spec_skip_spaces, spec_skip_spaces_to, spec_trim_end, spec_find_eq, spec_naked_end,
    spec_quote_scan, spec_last_quote, is_space, lemma_skip_spaces, lemma_find_eq,
    lemma_quote_scan, lemma_last_quote, lemma_naked_end, lemma_trim_end,
};
use crate::time::{spec_epoch_seconds, spec_timestamp_of, spec_ts_shape, spec_ts_fields_valid};
use crate::timestamp::{spec_civil, spec_month_day, spec_render, Timestamp, dig};
use vstd::arithmetic::div_mod::{
    lemma_fundamental_div_mod, lemma_fundamental_div_mod_converse, lemma_div_denominator,
    lemma_mod_bound,
};

verus! {

/// Round trip of the wire timestamp: the 27 bytes rendered from any
/// in-range calendar fields parse back to exactly the instant those fields
/// denote — the pure calendar conversion of the fields, with the
/// microsecond field carried through unchanged.
pub proof fn lemma_timestamp_round_trip(t: Timestamp)
    requires
        t.wf(),
    ensures
        spec_timestamp_of(spec_render(t), 0, 27) == Some(
            crate::record::Timestamp {
                secs: spec_epoch_seconds(
                    t.year as int,
                    t.month as int,
                    t.day as int,
                    t.hour as int,
                    t.min as int,
                    t.sec as int,
                ) as i64,
                nanos: t.micro,
            },
        ),
{
    let s = spec_render(t);
    assert(spec_ts_shape(s, 0, 27));
    lemma_two_digits(s, 5, t.month as int);
    lemma_two_digits(s, 8, t.day as int);
    lemma_two_digits(s, 11, t.hour as int);
    lemma_two_digits(s, 14, t.min as int);
    lemma_two_digits(s, 17, t.sec as int);
    lemma_four_digits(s, 0, t.year as int);
    lemma_six_digits(s, 20, t.micro as int);
    assert(spec_ts_fields_valid(s, 0));
    assert(spec_signed_val(s, 0, 4) == t.year as int);
    assert(spec_signed_val(s, 5, 7) == t.month as int);
    assert(spec_signed_val(s, 8, 10) == t.day as int);
    assert(spec_signed_val(s, 11, 13) == t.hour as int);
    assert(spec_signed_val(s, 14, 16) == t.min as int);
    assert(spec_signed_val(s, 17, 19) == t.sec as int);
}

/// A zero-padded two-digit rendering at `[lo, lo + 2)` is a valid signed
/// subfield with the rendered value.
proof fn lemma_two_digits(s: Seq<u8>, lo: int, v: int)
    requires
        0 <= lo,
        lo + 2 <= s.len(),
        0 <= v < 100,
        s[lo] == dig(v / 10),
        s[lo + 1] == dig(v % 10),
    ensures
        spec_signed_valid(s, lo, lo + 2),
        spec_signed_val(s, lo, lo + 2) == v,
{
    assert(spec_digits_val(s, lo, lo + 2) == spec_digits_val(s, lo, lo + 1) * 10 + (s[lo + 1]
        - 48));
    assert(spec_digits_val(s, lo, lo + 1) == spec_digits_val(s, lo, lo) * 10 + (s[lo] - 48));
    assert(spec_digits_val(s, lo, lo) == 0);
    assert(v == (v / 10) * 10 + v % 10);
}

/// A zero-padded four-digit rendering at `[lo, lo + 4)` is a valid signed
/// subfield with the rendered value.
proof fn lemma_four_digits(s: Seq<u8>, lo: int, v: int)
    requires
        0 <= lo,
        lo + 4 <= s.len(),
        0 <= v < 10000,
        s[lo] == dig(v / 1000),
        s[lo + 1] == dig(v / 100 % 10),
        s[lo + 2] == dig(v / 10 % 10),
        s[lo + 3] == dig(v % 10),
    ensures
        spec_signed_valid(s, lo, lo + 4),
        spec_signed_val(s, lo, lo + 4) == v,
{
    assert(spec_digits_val(s, lo, lo + 4) == spec_digits_val(s, lo, lo + 3) * 10 + (s[lo + 3]
        - 48));
    assert(spec_digits_val(s, lo, lo + 3) == spec_digits_val(s, lo, lo + 2) * 10 + (s[lo + 2]
        - 48));
    assert(spec_digits_val(s, lo, lo + 2) == spec_digits_val(s, lo, lo + 1) * 10 + (s[lo + 1]
        - 48));
    assert(spec_digits_val(s, lo, lo + 1) == spec_digits_val(s, lo, lo) * 10 + (s[lo] - 48));
    assert(spec_digits_val(s, lo, lo) == 0);
    assert(v == ((v / 1000) * 10 + v / 100 % 10) * 100 + (v / 10 % 10) * 10 + v % 10) by {
        assert(v / 100 == (v / 1000) * 10 + v / 100 % 10);
        assert(v / 10 == (v / 100) * 10 + v / 10 % 10);
        assert(v == (v / 10) * 10 + v % 10);
    }
}

/// A zero-padded six-digit rendering at `[lo, lo + 6)` parses as a `u32`
/// with the rendered value.
proof fn lemma_six_digits(s: Seq<u8>, lo: int, v: int)
    requires
        0 <= lo,
        lo + 6 <= s.len(),
        0 <= v < 1000000,
        s[lo] == dig(v / 100000),
        s[lo + 1] == dig(v / 10000 % 10),
        s[lo + 2] == dig(v / 1000 % 10),
        s[lo + 3] == dig(v / 100 % 10),
        s[lo + 4] == dig(v / 10 % 10),
        s[lo + 5] == dig(v % 10),
    ensures
        spec_u32_of(s, lo, lo + 6) == Some(v as u32),
{
    assert(spec_digits_val(s, lo, lo + 6) == spec_digits_val(s, lo, lo + 5) * 10 + (s[lo + 5]
        - 48));
    assert(spec_digits_val(s, lo, lo + 5) == spec_digits_val(s, lo, lo + 4) * 10 + (s[lo + 4]
        - 48));
    assert(spec_digits_val(s, lo, lo + 4) == spec_digits_val(s, lo, lo + 3) * 10 + (s[lo + 3]
        - 48));
    assert(spec_digits_val(s, lo, lo + 3) == spec_digits_val(s, lo, lo + 2) * 10 + (s[lo + 2]
        - 48));
    assert(spec_digits_val(s, lo, lo + 2) == spec_digits_val(s, lo, lo + 1) * 10 + (s[lo + 1]
        - 48));
    assert(spec_digits_val(s, lo, lo + 1) == spec_digits_val(s, lo, lo) * 10 + (s[lo] - 48));
    assert(spec_digits_val(s, lo, lo) == 0);
    assert(v / 10000 == (v / 100000) * 10 + v / 10000 % 10);
    assert(v / 1000 == (v / 10000) * 10 + v / 1000 % 10);
    assert(v / 100 == (v / 1000) * 10 + v / 100 % 10);
    assert(v / 10 == (v / 100) * 10 + v / 10 % 10);
    assert(v == (v / 10) * 10 + v % 10);
}

/// The scanners below read one byte at a time; when one stops inside the
/// window, appending bytes after the window cannot change where it stops.
proof fn lemma_skip_spaces_ext(s: Seq<u8>, ext: Seq<u8>, i: int)
    requires
        0 <= i <= s.len(),
        spec_skip_spaces(s, i) < s.len(),
    ensures
        spec_skip_spaces(s + ext, i) == spec_skip_spaces(s, i),
    decreases s.len() - i,
{
    assert((s + ext)[i] == s[i]);
    if i < s.len() && is_space(s[i]) {
        lemma_skip_spaces_ext(s, ext, i + 1);
    }
}

proof fn lemma_find_eq_ext(s: Seq<u8>, ext: Seq<u8>, i: int)
    requires
        0 <= i <= s.len(),
        spec_find_eq(s, i) < s.len(),
    ensures
        spec_find_eq(s + ext, i) == spec_find_eq(s, i),
    decreases s.len() - i,
{
    assert((s + ext)[i] == s[i]);
    if i < s.len() && s[i] != 61 {
        lemma_find_eq_ext(s, ext, i + 1);
    }
}

proof fn lemma_naked_end_ext(s: Seq<u8>, ext: Seq<u8>, i: int)
    requires
        0 <= i <= s.len(),
        spec_naked_end(s, i) < s.len(),
    ensures
        spec_naked_end(s + ext, i) == spec_naked_end(s, i),
    decreases s.len() - i,
{
    assert((s + ext)[i] == s[i]);
    if i < s.len() && !(s[i] == 32 || s[i] == 10) {
        lemma_naked_end_ext(s, ext, i + 1);
    }
}

proof fn lemma_quote_scan_ext(s: Seq<u8>, ext: Seq<u8>, i: int, even: bool)
    requires
        0 <= i <= s.len(),
        spec_quote_scan(s, i, even) < s.len(),
    ensures
        spec_quote_scan(s + ext, i, even) == spec_quote_scan(s, i, even),
    decreases s.len() - i,
{
    assert((s + ext)[i] == s[i]);
    if i < s.len() {
        if s[i] == 34 {
            lemma_quote_scan_ext(s, ext, i + 1, !even);
        } else if !(s[i] == 61 && even) {
            lemma_quote_scan_ext(s, ext, i + 1, even);
        }
    }
}

/// The bounded scanners only read bytes below their bound, so they are
/// unconditionally unchanged by an extension beyond the window.
proof fn lemma_skip_spaces_to_ext(s: Seq<u8>, ext: Seq<u8>, i: int, hi: int)
    requires
        0 <= i <= hi <= s.len(),
    ensures
        spec_skip_spaces_to(s + ext, i, hi) == spec_skip_spaces_to(s, i, hi),
    decreases hi - i,
{
    if i < hi {
        assert((s + ext)[i] == s[i]);
        if is_space(s[i]) {
            lemma_skip_spaces_to_ext(s, ext, i + 1, hi);
        }
    }
}

proof fn lemma_trim_end_ext(s: Seq<u8>, ext: Seq<u8>, lo: int, hi: int)
    requires
        0 <= lo <= hi <= s.len(),
    ensures
        spec_trim_end(s + ext, lo, hi) == spec_trim_end(s, lo, hi),
    decreases hi - lo,
{
    if hi > lo {
        assert((s + ext)[hi - 1] == s[hi - 1]);
        if is_space(s[hi - 1]) {
            lemma_trim_end_ext(s, ext, lo, hi - 1);
        }
    }
}

proof fn lemma_last_quote_ext(s: Seq<u8>, ext: Seq<u8>, lo: int, hi: int)
    requires
        0 <= lo <= hi <= s.len(),
    ensures
        spec_last_quote(s + ext, lo, hi) == spec_last_quote(s, lo, hi),
    decreases hi - lo,
{
    if hi > lo {
        assert((s + ext)[hi - 1] == s[hi - 1]);
        if s[hi - 1] != 34 {
            lemma_last_quote_ext(s, ext, lo, hi - 1);
        }
    }
}

proof fn lemma_last_colon_ext(s: Seq<u8>, ext: Seq<u8>, lo: int, hi: int)
    requires
        0 <= lo <= hi <= s.len(),
    ensures
        crate::fields::spec_last_colon(s + ext, lo, hi) == crate::fields::spec_last_colon(
            s,
            lo,
            hi,
        ),
    decreases hi - lo,
{
    if hi > lo {
        assert((s + ext)[hi - 1] == s[hi - 1]);
        if s[hi - 1] != 58 {
            lemma_last_colon_ext(s, ext, lo, hi - 1);
        }
    }
}

proof fn lemma_skip_digits_ext(s: Seq<u8>, ext: Seq<u8>, i: int, hi: int)
    requires
        0 <= i <= hi <= s.len(),
    ensures
        crate::num::spec_skip_digits(s + ext, i, hi) == crate::num::spec_skip_digits(s, i, hi),
    decreases hi - i,
{
    if i < hi {
        assert((s + ext)[i] == s[i]);
        if crate::num::is_digit(s[i]) {
            lemma_skip_digits_ext(s, ext, i + 1, hi);
        }
    }
}

proof fn lemma_digits_val_ext(s: Seq<u8>, ext: Seq<u8>, lo: int, hi: int)
    requires
        0 <= lo <= hi <= s.len(),
    ensures
        spec_digits_val(s + ext, lo, hi) == spec_digits_val(s, lo, hi),
    decreases hi - lo,
{
    if hi > lo {
        assert((s + ext)[hi - 1] == s[hi - 1]);
        lemma_digits_val_ext(s, ext, lo, hi - 1);
    }
}

proof fn lemma_all_digits_ext(s: Seq<u8>, ext: Seq<u8>, lo: int, hi: int)
    requires
        0 <= lo <= hi <= s.len(),
    ensures
        all_digits(s + ext, lo, hi) == all_digits(s, lo, hi),
{
    let t = s + ext;
    assert forall|j: int| lo <= j < hi implies #[trigger] t[j] == s[j] by {
    }
    if all_digits(s, lo, hi) {
        assert forall|j: int| lo <= j < hi implies crate::num::is_digit(#[trigger] t[j]) by {
            assert(crate::num::is_digit(s[j]));
        }
    }
    if all_digits(t, lo, hi) {
        assert forall|j: int| lo <= j < hi implies crate::num::is_digit(#[trigger] s[j]) by {
            assert(crate::num::is_digit(t[j]));
        }
    }
}


/// A region's parse — as a timestamp, a level, a file field or an
/// inferred value — depends only on the bytes of the region, so an
/// extension beyond the window leaves one `key=value` interpretation
/// unchanged.
proof fn lemma_interpret_ext(
    rec: crate::record::RecordModel,
    s: Seq<u8>,
    ext: Seq<u8>,
    klo: int,
    khi: int,
    vlo: int,
    vhi: int,
)
    requires
        0 <= klo <= khi <= s.len(),
        0 <= vlo <= vhi <= s.len(),
    ensures
        crate::fields::spec_interpret(rec, s + ext, klo, khi, vlo, vhi)
            == crate::fields::spec_interpret(rec, s, klo, khi, vlo, vhi),
{
    let t = s + ext;
    assert forall|j: int| 0 <= j < s.len() implies #[trigger] t[j] == s[j] by {
    }
    assert(t.subrange(klo, khi) =~= s.subrange(klo, khi));
    assert(t.subrange(vlo, vhi) =~= s.subrange(vlo, vhi));
    // Signed and unsigned subfields, wherever they lie inside the window.
    assert forall|lo: int, hi: int|
        0 <= lo <= hi <= s.len() implies (spec_signed_valid(t, lo, hi) == spec_signed_valid(
        s,
        lo,
        hi,
    ) && #[trigger] spec_signed_val(t, lo, hi) == spec_signed_val(s, lo, hi)) by {
        lemma_all_digits_ext(s, ext, lo, hi);
        lemma_digits_val_ext(s, ext, lo, hi);
        let d0 = crate::num::spec_sign_end(s, lo, hi);
        lemma_all_digits_ext(s, ext, d0, hi);
        lemma_digits_val_ext(s, ext, d0, hi);
    }
    assert forall|lo: int, hi: int|
        0 <= lo <= hi <= s.len() implies #[trigger] spec_u32_of(t, lo, hi) == spec_u32_of(
        s,
        lo,
        hi,
    ) by {
        let d0 = if lo < hi && s[lo] == 43 {
            lo + 1
        } else {
            lo
        };
        lemma_all_digits_ext(s, ext, d0, hi);
        lemma_digits_val_ext(s, ext, d0, hi);
    }
    assert(spec_timestamp_of(t, vlo, vhi) == spec_timestamp_of(s, vlo, vhi));
    assert(crate::fields::spec_level_of(t, vlo, vhi) == crate::fields::spec_level_of(
        s,
        vlo,
        vhi,
    ));
    lemma_last_colon_ext(s, ext, vlo, vhi);
    assert(crate::fields::spec_file_of(t, vlo, vhi) =~= crate::fields::spec_file_of(s, vlo, vhi))
        by {
        let c = crate::fields::spec_last_colon(s, vlo, vhi);
        if c >= vlo {
            crate::fields::lemma_last_colon(s, vlo, vhi);
            assert(t.subrange(vlo, c) =~= s.subrange(vlo, c));
        }
    }
    // Value inference: the integer forms above, plus floating-point syntax.
    assert(crate::num::spec_i64_of(t, vlo, vhi) == crate::num::spec_i64_of(s, vlo, vhi)) by {
        lemma_all_digits_ext(s, ext, vlo, vhi);
        lemma_digits_val_ext(s, ext, vlo, vhi);
        let d0 = crate::num::spec_sign_end(s, vlo, vhi);
        lemma_all_digits_ext(s, ext, d0, vhi);
        lemma_digits_val_ext(s, ext, d0, vhi);
    }
    assert(crate::num::spec_float_syntax(t, vlo, vhi) == crate::num::spec_float_syntax(
        s,
        vlo,
        vhi,
    )) by {
        let i = crate::num::spec_sign_end(s, vlo, vhi);
        lemma_skip_digits_ext(s, ext, i, vhi);
        let a = crate::num::spec_skip_digits(s, i, vhi);
        crate::num::lemma_skip_digits(s, i, vhi);
        if a < vhi && s[a] == 46 {
            lemma_skip_digits_ext(s, ext, a + 1, vhi);
            let b = crate::num::spec_skip_digits(s, a + 1, vhi);
            crate::num::lemma_skip_digits(s, a + 1, vhi);
            if b < vhi {
                lemma_float_exp_ext(s, ext, b, vhi);
            }
        } else if a < vhi {
            lemma_float_exp_ext(s, ext, a, vhi);
        }
    }
    assert(crate::fields::spec_value_of(t, vlo, vhi) =~= crate::fields::spec_value_of(
        s,
        vlo,
        vhi,
    ));
}

proof fn lemma_float_exp_ext(s: Seq<u8>, ext: Seq<u8>, e: int, hi: int)
    requires
        0 <= e <= hi <= s.len(),
    ensures
        crate::num::spec_float_exp(s + ext, e, hi) == crate::num::spec_float_exp(s, e, hi),
{
    let t = s + ext;
    if e < hi {
        assert(t[e] == s[e]);
        if e + 1 < hi {
            assert(t[e + 1] == s[e + 1]);
        }
        let i2 = if e + 1 < hi && (s[e + 1] == 43 || s[e + 1] == 45) {
            e + 2
        } else {
            e + 1
        };
        if i2 <= hi {
            lemma_all_digits_ext(s, ext, i2, hi);
        }
    }
}


proof fn lemma_skip_spaces_to_range(s: Seq<u8>, i: int, hi: int)
    requires
        0 <= i <= hi <= s.len(),
    ensures
        i <= spec_skip_spaces_to(s, i, hi) <= hi,
    decreases hi - i,
{
    if i < hi && is_space(s[i]) {
        lemma_skip_spaces_to_range(s, i + 1, hi);
    }
}

/// Whether every scan of the line starting at `q0` stays strictly inside
/// the window and the line is terminated by its own newline.  Under this
/// condition the tokenization of the line cannot change when more bytes
/// arrive: see `lemma_line_refill_independent`.
///
/// The condition fails in exactly the cases the format itself leaves
/// unstable: a line completed only by the end of the window (the end of
/// the window acts as the end of the line), and a quoted value whose
/// quote-parity scan ran off the window (the boundary heuristic may then
/// settle differently once more bytes arrive).
pub open spec fn spec_line_interior(s: Seq<u8>, q0: int) -> bool
    recommends
        0 <= q0 <= s.len(),
    decreases s.len() - q0 when 0 <= q0 <= s.len() via spec_line_interior_decreases
{
    let q = spec_skip_spaces(s, q0);
    if q >= s.len() {
        false
    } else if s[q] == 10 {
        true
    } else {
        let e = spec_find_eq(s, q);
        if e >= s.len() {
            false
        } else {
            let a = spec_skip_spaces(s, e + 1);
            if a >= s.len() {
                false
            } else {
                let scan_interior = if s[a] == 34 {
                    spec_quote_scan(s, a + 1, false) < s.len()
                } else {
                    spec_naked_end(s, a) < s.len()
                };
                scan_interior && spec_line_interior(s, spec_value_region(s, e + 1).2)
            }
        }
    }
}

#[via_fn]
proof fn spec_line_interior_decreases(s: Seq<u8>, q0: int) {
    lemma_skip_spaces(s, q0);
    let q = spec_skip_spaces(s, q0);
    if q < s.len() && s[q] != 10 {
        lemma_find_eq(s, q);
        let e = spec_find_eq(s, q);
        if e < s.len() {
            lemma_skip_spaces(s, e + 1);
            let a = spec_skip_spaces(s, e + 1);
            if a < s.len() && s[a] == 34 {
                lemma_quote_scan(s, a + 1, false);
                lemma_last_quote(s, a + 1, spec_quote_scan(s, a + 1, false));
            } else {
                lemma_naked_end(s, a);
            }
        }
    }
}

/// Refill-size independence of the tokenizer.  A line whose scans all stay
/// inside the window and that ends with its own newline is tokenized the
/// same — same record, same error, same end position — however many bytes
/// arrive after the window and whether or not end of input has been
/// reached.  Since the driver consumes the stream line by line and only
/// commits a line once it is complete, the sequence of records and errors
/// of such lines does not depend on how the byte stream was split into
/// reads.
pub proof fn lemma_line_refill_independent(
    s: Seq<u8>,
    ext: Seq<u8>,
    start: int,
    q0: int,
    eof: bool,
    eof2: bool,
    rec: RecordModel,
    nonempty: bool,
)
    requires
        0 <= start <= q0 <= s.len(),
        spec_line_interior(s, q0),
    ensures
        spec_line_loop(s + ext, start, q0, eof2, rec, nonempty) == spec_line_loop(
            s,
            start,
            q0,
            eof,
            rec,
            nonempty,
        ),
    decreases s.len() - q0,
{
    let t = s + ext;
    lemma_skip_spaces(s, q0);
    let q = spec_skip_spaces(s, q0);
    lemma_skip_spaces_ext(s, ext, q0);
    assert(t[q] == s[q]);
    if s[q] == 10 {
    } else {
        lemma_find_eq(s, q);
        let e = spec_find_eq(s, q);
        lemma_find_eq_ext(s, ext, q);
        // The key region is bounded by the `=`.
        lemma_trim_end(s, q, e);
        lemma_trim_end_ext(s, ext, q, e);
        let kb = spec_trim_end(s, q, e);
        if kb - q >= 2 && s[q] == 34 && s[kb - 1] == 34 {
            assert(t[kb - 1] == s[kb - 1]);
            lemma_skip_spaces_to_ext(s, ext, q + 1, kb - 1);
            lemma_skip_spaces_to_range(s, q + 1, kb - 1);
            let a2 = spec_skip_spaces_to(s, q + 1, kb - 1);
            lemma_trim_end_ext(s, ext, a2, kb - 1);
            lemma_trim_end(s, a2, kb - 1);
        }
        assert(spec_key_region(t, q, e) == spec_key_region(s, q, e));
        // The value region stays inside the window.
        lemma_skip_spaces(s, e + 1);
        let a = spec_skip_spaces(s, e + 1);
        lemma_skip_spaces_ext(s, ext, e + 1);
        assert(t[a] == s[a]);
        if s[a] == 34 {
            let qe = spec_quote_scan(s, a + 1, false);
            lemma_quote_scan(s, a + 1, false);
            lemma_quote_scan_ext(s, ext, a + 1, false);
            lemma_last_quote(s, a + 1, qe);
            lemma_last_quote_ext(s, ext, a + 1, qe);
            // The scan starts at odd quote parity, so it cannot stop on
            // its very first byte: the boundary lies at least two past
            // the opening quote.
            if a + 1 < s.len() {
                if s[a + 1] == 34 {
                    lemma_quote_scan(s, a + 2, true);
                } else {
                    lemma_quote_scan(s, a + 2, false);
                }
            }
            assert(qe >= a + 2);
        } else {
            lemma_naked_end(s, a);
            lemma_naked_end_ext(s, ext, a);
        }
        assert(spec_value_region(t, e + 1) == spec_value_region(s, e + 1));
        let kr = spec_key_region(s, q, e);
        let vr = spec_value_region(s, e + 1);
        assert(vr.2 < s.len());
        lemma_interpret_ext(rec, s, ext, kr.0, kr.1, vr.0, vr.1);
        match crate::fields::spec_interpret(rec, s, kr.0, kr.1, vr.0, vr.1) {
            Ok(rec2) => {
                lemma_line_refill_independent(s, ext, start, vr.2, eof, eof2, rec2, true);
            },
            Err(_) => {},
        }
    }
}


/// Round trip of the calendar conversion itself: breaking an in-range
/// instant into its calendar fields and converting the fields back with
/// the pure proleptic-Gregorian arithmetic yields the same second count.
/// Together with `lemma_timestamp_round_trip` this closes the loop from an
/// instant through the writer's wire bytes back to the parsed instant.
pub proof fn lemma_civil_round_trip(secs: int)
    requires
        951868800 <= secs <= 253402300799,
    ensures
        ({
            let c = spec_civil(secs);
            spec_epoch_seconds(c.0, c.1, c.2, c.3, c.4, c.5) == secs
        }),
{
    let c = spec_civil(secs);
    let secs2 = secs - 951868800;
    let days = secs2 / 86400;
    let remsecs = secs2 % 86400;
    lemma_fundamental_div_mod(secs2, 86400);
    lemma_mod_bound(secs2, 86400);

    // The time of day goes back together exactly.
    let h = remsecs / 3600;
    let q = remsecs / 60;
    let mi = q % 60;
    let sc = remsecs % 60;
    lemma_fundamental_div_mod(remsecs, 60);
    lemma_mod_bound(remsecs, 60);
    lemma_fundamental_div_mod(q, 60);
    lemma_mod_bound(q, 60);
    lemma_div_denominator(remsecs, 60, 60);
    assert(q / 60 == h);
    assert(3600 * h + 60 * mi + sc == remsecs);

    // The cycle counts of the date conversion.
    let qc = days / 146097;
    let remdays0 = days % 146097;
    lemma_fundamental_div_mod(days, 146097);
    lemma_mod_bound(days, 146097);
    let cc0 = remdays0 / 36524;
    lemma_fundamental_div_mod(remdays0, 36524);
    lemma_mod_bound(remdays0, 36524);
    let cc = if cc0 == 4 {
        3int
    } else {
        cc0
    };
    let remdays1 = remdays0 - cc * 36524;
    assert(0 <= remdays1 <= 36524);
    let qcy0 = remdays1 / 1461;
    lemma_fundamental_div_mod(remdays1, 1461);
    lemma_mod_bound(remdays1, 1461);
    let qcy = if qcy0 == 25 {
        24int
    } else {
        qcy0
    };
    let remdays2 = remdays1 - qcy * 1461;
    assert(0 <= remdays2 <= 1460);
    let ry0 = remdays2 / 365;
    lemma_fundamental_div_mod(remdays2, 365);
    lemma_mod_bound(remdays2, 365);
    let ry = if ry0 == 4 {
        3int
    } else {
        ry0
    };
    let remdays3 = remdays2 - ry * 365;
    assert(0 <= remdays3 <= 365);
    assert(0 <= cc <= 3);
    assert(0 <= qcy <= 24);
    assert(0 <= ry <= 3);
    let year0 = ry + 4 * qcy + 100 * cc + 400 * qc;
    let md = spec_month_day(remdays3);
    assert(0 <= md.0 <= 11);

    // The year and month recombine into the same month count.
    let year = c.0;
    let month = c.1;
    let mt = year * 12 + month - 1 + 57600;
    let b: int = if md.0 >= 10 {
        1int
    } else {
        0int
    };
    assert(year == year0 + 2000 + b);
    assert(month == md.0 + 3 - 12 * b);
    assert(mt == (year0 + 6800 + b) * 12 + (md.0 + 2 - 12 * b));
    lemma_fundamental_div_mod_converse(mt, 12, year0 + 6800 + b, md.0 + 2 - 12 * b);
    let yy = mt / 12;
    let m2 = mt % 12 + 1;
    assert(yy == year0 + 6800 + b);
    assert(m2 == month);
    let y2 = yy - (if m2 <= 2 {
        1int
    } else {
        0int
    });
    assert(y2 == year0 + 6800);

    // The era and year-of-era come back out of the rebuilt year.
    let yoe0 = ry + 4 * qcy + 100 * cc;
    assert(y2 == (qc + 17) * 400 + yoe0);
    lemma_fundamental_div_mod_converse(y2, 400, qc + 17, yoe0);
    let era = y2 / 400;
    let yoe = y2 % 400;
    assert(era == qc + 17);
    assert(yoe == yoe0);

    // The March-based month index comes back out of the calendar month.
    let mp = (month + 9) % 12;
    if b == 1 {
        lemma_fundamental_div_mod_converse(month + 9, 12, 0, md.0);
    } else {
        lemma_fundamental_div_mod_converse(month + 9, 12, 1, md.0);
    }
    assert(mp == md.0);

    // The day-of-year table inverts the month split.
    let doy = (153 * mp + 2) / 5;
    assert(doy + md.1 == remdays3);

    // The leap-day corrections cancel.
    assert(yoe == 4 * (qcy + 25 * cc) + ry);
    lemma_fundamental_div_mod_converse(yoe, 4, qcy + 25 * cc, ry);
    assert(yoe / 4 == qcy + 25 * cc);
    assert(yoe == 100 * cc + (ry + 4 * qcy));
    lemma_fundamental_div_mod_converse(yoe, 100, cc, ry + 4 * qcy);
    assert(yoe / 100 == cc);
    let doe = yoe * 365 + yoe / 4 - yoe / 100 + doy;
    assert(doe + md.1 == 365 * ry + 1461 * qcy + 36524 * cc + remdays3);
    assert(doe + md.1 == remdays0);

    // And the whole second count is restored.
    assert(crate::time::spec_days_from_epoch(year, month, c.2) == era * 146097 + doe + md.1
        - 719468 - 1753164);
    assert(crate::time::spec_days_from_epoch(year, month, c.2) == days + 11017);
    assert(c.3 == h && c.4 == mi && c.5 == sc);
    assert(spec_epoch_seconds(c.0, c.1, c.2, c.3, c.4, c.5) == (days + 11017) * 86400 + remsecs);
}


/// The calendar fields of an in-range instant lie in their calendar
/// ranges, so they can be rendered.
pub proof fn lemma_civil_wf(secs: int)
    requires
        951868800 <= secs <= 253402300799,
    ensures
        ({
            let c = spec_civil(secs);
            &&& 1000 <= c.0 <= 9999
            &&& 1 <= c.1 <= 12
            &&& 1 <= c.2 <= 31
            &&& 0 <= c.3 < 24
            &&& 0 <= c.4 < 60
            &&& 0 <= c.5 < 60
        }),
{
    let secs2 = secs - 951868800;
    let days = secs2 / 86400;
    let remsecs = secs2 % 86400;
    lemma_fundamental_div_mod(secs2, 86400);
    lemma_mod_bound(secs2, 86400);
    lemma_fundamental_div_mod(remsecs, 60);
    lemma_mod_bound(remsecs, 60);
    lemma_fundamental_div_mod(remsecs / 60, 60);
    lemma_mod_bound(remsecs / 60, 60);
    lemma_fundamental_div_mod(days, 146097);
    lemma_mod_bound(days, 146097);
    lemma_fundamental_div_mod(days % 146097, 36524);
    lemma_mod_bound(days % 146097, 36524);
    let remdays0 = days % 146097;
    let cc = if remdays0 / 36524 == 4 {
        3int
    } else {
        remdays0 / 36524
    };
    let remdays1 = remdays0 - cc * 36524;
    lemma_fundamental_div_mod(remdays1, 1461);
    lemma_mod_bound(remdays1, 1461);
    let qcy = if remdays1 / 1461 == 25 {
        24int
    } else {
        remdays1 / 1461
    };
    let remdays2 = remdays1 - qcy * 1461;
    lemma_fundamental_div_mod(remdays2, 365);
    lemma_mod_bound(remdays2, 365);
}

/// Full round trip of a written instant (the stated law of the wire
/// timestamp): take any instant the writer can express, break it into
/// calendar fields, render those fields as the fixed 27-byte wire form,
/// and parse the bytes back — the parsed timestamp is exactly the original
/// instant, microseconds included.
pub proof fn lemma_written_instant_round_trip(secs: u64, micro: u32)
    requires
        951868800 <= secs <= 253402300799,
        micro < 1000000,
    ensures
        ({
            let c = spec_civil(secs as int);
            let rendered = spec_render(
                Timestamp {
                    year: c.0 as u16,
                    month: c.1 as u8,
                    day: c.2 as u8,
                    hour: c.3 as u8,
                    min: c.4 as u8,
                    sec: c.5 as u8,
                    micro,
                },
            );
            spec_timestamp_of(rendered, 0, 27) == Some(
                crate::record::Timestamp { secs: secs as i64, nanos: micro },
            )
        }),
{
    let c = spec_civil(secs as int);
    lemma_civil_wf(secs as int);
    let t = Timestamp {
        year: c.0 as u16,
        month: c.1 as u8,
        day: c.2 as u8,
        hour: c.3 as u8,
        min: c.4 as u8,
        sec: c.5 as u8,
        micro,
    };
    lemma_timestamp_round_trip(t);
    lemma_civil_round_trip(secs as int);
}


} // verus!
