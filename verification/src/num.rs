//! Verified parsing of the numeric and literal forms the format uses:
//! decimal subfields of the timestamp, `u32` line numbers, `i64` values,
//! boolean literals, and the syntax of floating-point literals.

use vstd::prelude::*;

verus! {

/// An ASCII decimal digit.
pub open spec fn is_digit(b: u8) -> bool {
    48 <= b <= 57
}

/// ASCII upper-case letters folded to lower case; everything else unchanged.
pub open spec fn spec_lower(b: u8) -> u8 {
    if 65 <= b <= 90 {
        (b + 32) as u8
    } else {
        b
    }
}

/// ASCII upper-case letters folded to lower case; everything else unchanged.
#[verifier::when_used_as_spec(spec_lower)]
pub fn lower(b: u8) -> (r: u8)
    ensures
        r == spec_lower(b),
{
    if 65 <= b && b <= 90 {
        b + 32
    } else {
        b
    }
}

/// Value of the decimal digit run `[lo, hi)`, most significant first.
pub open spec fn spec_digits_val(s: Seq<u8>, lo: int, hi: int) -> int
    recommends
        0 <= lo <= hi <= s.len(),
    decreases hi - lo when lo <= hi
{
    if hi <= lo {
        0
    } else {
        spec_digits_val(s, lo, hi - 1) * 10 + (s[hi - 1] - 48)
    }
}

/// Every byte of `[lo, hi)` is a decimal digit.
pub open spec fn all_digits(s: Seq<u8>, lo: int, hi: int) -> bool {
    forall|j: int| lo <= j < hi ==> is_digit(#[trigger] s[j])
}

/// Powers of ten.
pub open spec fn pow10(n: nat) -> int
    decreases n,
{
    if n == 0 {
        1
    } else {
        10 * pow10((n - 1) as nat)
    }
}

pub proof fn lemma_digits_val_bound(s: Seq<u8>, lo: int, hi: int)
    requires
        0 <= lo <= hi <= s.len(),
        all_digits(s, lo, hi),
    ensures
        0 <= spec_digits_val(s, lo, hi) < pow10((hi - lo) as nat),
    decreases hi - lo,
{
    if hi > lo {
        lemma_digits_val_bound(s, lo, hi - 1);
    }
}

/// Appending digits never decreases the value of the run.
pub proof fn lemma_digits_val_monotonic(s: Seq<u8>, lo: int, mid: int, hi: int)
    requires
        0 <= lo <= mid <= hi <= s.len(),
        all_digits(s, lo, hi),
    ensures
        spec_digits_val(s, lo, mid) <= spec_digits_val(s, lo, hi),
    decreases hi - mid,
{
    if mid < hi {
        lemma_digits_val_bound(s, lo, hi - 1);
        lemma_digits_val_monotonic(s, lo, mid, hi - 1);
    }
}

/// First position in `[i, hi)` that is not a decimal digit, or `hi`.
pub open spec fn spec_skip_digits(s: Seq<u8>, i: int, hi: int) -> int
    recommends
        0 <= i <= hi <= s.len(),
    decreases hi - i when i <= hi
{
    if i >= hi {
        i
    } else if is_digit(s[i]) {
        spec_skip_digits(s, i + 1, hi)
    } else {
        i
    }
}

pub proof fn lemma_skip_digits(s: Seq<u8>, i: int, hi: int)
    requires
        0 <= i <= hi <= s.len(),
    ensures
        i <= spec_skip_digits(s, i, hi) <= hi,
        all_digits(s, i, spec_skip_digits(s, i, hi)),
        spec_skip_digits(s, i, hi) < hi ==> !is_digit(s[spec_skip_digits(s, i, hi)]),
    decreases hi - i,
{
    if i < hi && is_digit(s[i]) {
        lemma_skip_digits(s, i + 1, hi);
    }
}

/// First position in `[from, hi)` that is not a decimal digit, or `hi`.
pub fn skip_digits(buf: &Vec<u8>, from: usize, hi: usize) -> (r: usize)
    requires
        from <= hi <= buf@.len(),
    ensures
        r == spec_skip_digits(buf@, from as int, hi as int),
        from <= r <= hi,
{
    let mut i: usize = from;
    while i < hi && 48 <= buf[i] && buf[i] <= 57
        invariant
            from <= i <= hi <= buf@.len(),
            spec_skip_digits(buf@, from as int, hi as int) == spec_skip_digits(
                buf@,
                i as int,
                hi as int,
            ),
        decreases hi - i,
    {
        i = i + 1;
    }
    i
}

/// Start of the digit run of a signed decimal region: one past a leading
/// `+` or `-`, when present.
pub open spec fn spec_sign_end(s: Seq<u8>, lo: int, hi: int) -> int {
    if lo < hi && (s[lo] == 43 || s[lo] == 45) {
        lo + 1
    } else {
        lo
    }
}

/// Whether `[lo, hi)` is a signed decimal integer: an optional sign, then
/// at least one digit, and nothing else.
pub open spec fn spec_signed_valid(s: Seq<u8>, lo: int, hi: int) -> bool {
    let d0 = spec_sign_end(s, lo, hi);
    d0 < hi && all_digits(s, d0, hi)
}

/// Value of the signed decimal region `[lo, hi)`.
pub open spec fn spec_signed_val(s: Seq<u8>, lo: int, hi: int) -> int {
    let d0 = spec_sign_end(s, lo, hi);
    let m = spec_digits_val(s, d0, hi);
    if lo < hi && s[lo] == 45 {
        -m
    } else {
        m
    }
}

/// Parse the short signed decimal subfield `[lo, hi)`, as the numeric
/// subfields of a timestamp are parsed: an optional sign, then digits only.
/// The region is at most four bytes, so the value needs no overflow check.
pub fn parse_subfield(buf: &Vec<u8>, lo: usize, hi: usize) -> (r: Option<i32>)
    requires
        lo <= hi <= buf@.len(),
        hi - lo <= 4,
    ensures
        r is Some <==> spec_signed_valid(buf@, lo as int, hi as int),
        r matches Some(v) ==> v == spec_signed_val(buf@, lo as int, hi as int) && -999 <= v
            <= 9999,
{
    let neg = lo < hi && buf[lo] == 45;
    let d0 = if lo < hi && (buf[lo] == 43 || buf[lo] == 45) {
        lo + 1
    } else {
        lo
    };
    if d0 >= hi {
        return None;
    }
    let mut i: usize = d0;
    let mut acc: i32 = 0;
    while i < hi
        invariant
            lo <= d0 <= i <= hi <= buf@.len(),
            hi - d0 <= 4,
            d0 == spec_sign_end(buf@, lo as int, hi as int),
            neg == (lo < hi && buf@[lo as int] == 45),
            all_digits(buf@, d0 as int, i as int),
            acc == spec_digits_val(buf@, d0 as int, i as int),
            0 <= acc <= 9999,
        decreases hi - i,
    {
        let b = buf[i];
        if b < 48 || b > 57 {
            proof {
                assert(!is_digit(buf@[i as int]));
                assert(!all_digits(buf@, d0 as int, hi as int));
            }
            return None;
        }
        acc = acc * 10 + ((b - 48) as i32);
        i = i + 1;
        proof {
            assert(pow10(0) == 1);
            assert(pow10(1) == 10);
            assert(pow10(2) == 100);
            assert(pow10(3) == 1000);
            assert(pow10(4) == 10000);
            lemma_digits_val_bound(buf@, d0 as int, i as int);
            assert(i - d0 == 1 || i - d0 == 2 || i - d0 == 3 || i - d0 == 4);
        }
    }
    proof {
        assert(pow10(0) == 1);
        assert(pow10(1) == 10);
        assert(pow10(2) == 100);
        assert(pow10(3) == 1000);
        assert(pow10(4) == 10000);
        lemma_digits_val_bound(buf@, d0 as int, hi as int);
        assert(hi - d0 == 1 || hi - d0 == 2 || hi - d0 == 3 || hi - d0 == 4);
    }
    if neg {
        Some(-acc)
    } else {
        Some(acc)
    }
}

/// Whether `[lo, hi)` is an unsigned decimal integer as `u32` accepts it:
/// an optional `+`, then at least one digit, and nothing else.
pub open spec fn spec_unsigned_valid(s: Seq<u8>, lo: int, hi: int) -> bool {
    let d0 = if lo < hi && s[lo] == 43 {
        lo + 1
    } else {
        lo
    };
    d0 < hi && all_digits(s, d0, hi)
}

/// Value of the unsigned decimal region `[lo, hi)`, unbounded.
pub open spec fn spec_unsigned_val(s: Seq<u8>, lo: int, hi: int) -> int {
    let d0 = if lo < hi && s[lo] == 43 {
        lo + 1
    } else {
        lo
    };
    spec_digits_val(s, d0, hi)
}

/// The region parsed as a `u32`, exactly when it has unsigned decimal
/// syntax and its value fits.
pub open spec fn spec_u32_of(s: Seq<u8>, lo: int, hi: int) -> Option<u32> {
    if spec_unsigned_valid(s, lo, hi) && spec_unsigned_val(s, lo, hi) <= u32::MAX {
        Some(spec_unsigned_val(s, lo, hi) as u32)
    } else {
        None
    }
}

/// Parse the region `[lo, hi)` as a `u32`: an optional `+`, then digits,
/// rejected when the value overflows.
pub fn parse_u32(buf: &Vec<u8>, lo: usize, hi: usize) -> (r: Option<u32>)
    requires
        lo <= hi <= buf@.len(),
    ensures
        r == spec_u32_of(buf@, lo as int, hi as int),
{
    let d0 = if lo < hi && buf[lo] == 43 {
        lo + 1
    } else {
        lo
    };
    if d0 >= hi {
        return None;
    }
    let mut i: usize = d0;
    let mut acc: u64 = 0;
    while i < hi
        invariant
            lo <= d0 <= i <= hi <= buf@.len(),
            d0 == if lo < hi && buf@[lo as int] == 43 { lo + 1 } else { lo as int },
            all_digits(buf@, d0 as int, i as int),
            acc == spec_digits_val(buf@, d0 as int, i as int),
            acc <= u32::MAX,
        decreases hi - i,
    {
        let b = buf[i];
        if b < 48 || b > 57 {
            proof {
                assert(!is_digit(buf@[i as int]));
                assert(!all_digits(buf@, d0 as int, hi as int));
            }
            return None;
        }
        let acc2: u64 = acc * 10 + ((b - 48) as u64);
        if acc2 > 0xFFFF_FFFF {
            // The value can only grow with more digits, so it cannot fit.
            proof {
                if all_digits(buf@, d0 as int, hi as int) {
                    lemma_digits_val_monotonic(buf@, d0 as int, (i + 1) as int, hi as int);
                }
            }
            return None;
        }
        acc = acc2;
        i = i + 1;
    }
    Some(acc as u32)
}

/// Whether the region `[lo, hi)` parses as an `i64`: an optional sign, then
/// at least one digit, and a value in range.
pub open spec fn spec_i64_of(s: Seq<u8>, lo: int, hi: int) -> Option<i64> {
    if spec_signed_valid(s, lo, hi) && i64::MIN <= spec_signed_val(s, lo, hi) <= i64::MAX {
        Some(spec_signed_val(s, lo, hi) as i64)
    } else {
        None
    }
}

/// Parse the region `[lo, hi)` as an `i64`, rejected when the syntax is not
/// a signed decimal integer or the value overflows.
pub fn parse_i64(buf: &Vec<u8>, lo: usize, hi: usize) -> (r: Option<i64>)
    requires
        lo <= hi <= buf@.len(),
    ensures
        r == spec_i64_of(buf@, lo as int, hi as int),
{
    let neg = lo < hi && buf[lo] == 45;
    let d0 = if lo < hi && (buf[lo] == 43 || buf[lo] == 45) {
        lo + 1
    } else {
        lo
    };
    if d0 >= hi {
        return None;
    }
    let limit: u64 = if neg {
        0x8000_0000_0000_0000
    } else {
        0x7FFF_FFFF_FFFF_FFFF
    };
    let mut i: usize = d0;
    let mut acc: u64 = 0;
    while i < hi
        invariant
            lo <= d0 <= i <= hi <= buf@.len(),
            d0 == spec_sign_end(buf@, lo as int, hi as int),
            neg == (lo < hi && buf@[lo as int] == 45),
            all_digits(buf@, d0 as int, i as int),
            acc == spec_digits_val(buf@, d0 as int, i as int),
            acc <= limit,
            limit == if neg {
                0x8000_0000_0000_0000u64
            } else {
                0x7FFF_FFFF_FFFF_FFFFu64
            },
        decreases hi - i,
    {
        let b = buf[i];
        if b < 48 || b > 57 {
            proof {
                assert(!is_digit(buf@[i as int]));
                assert(!all_digits(buf@, d0 as int, hi as int));
            }
            return None;
        }
        if acc > 922337203685477580 {
            // At least one more digit follows, so the value cannot fit.
            proof {
                if all_digits(buf@, d0 as int, hi as int) {
                    lemma_digits_val_monotonic(buf@, d0 as int, (i + 1) as int, hi as int);
                }
            }
            return None;
        }
        let acc2: u64 = acc * 10 + ((b - 48) as u64);
        if acc2 > limit {
            proof {
                if all_digits(buf@, d0 as int, hi as int) {
                    lemma_digits_val_monotonic(buf@, d0 as int, (i + 1) as int, hi as int);
                }
            }
            return None;
        }
        acc = acc2;
        i = i + 1;
    }
    if neg {
        if acc == 0x8000_0000_0000_0000 {
            Some(i64::MIN)
        } else {
            Some(-(acc as i64))
        }
    } else {
        Some(acc as i64)
    }
}

/// The region parsed as a boolean literal: exactly `true` or `false`.
pub open spec fn spec_bool_of(s: Seq<u8>, lo: int, hi: int) -> Option<bool> {
    if hi - lo == 4 && s[lo] == 116 && s[lo + 1] == 114 && s[lo + 2] == 117 && s[lo + 3] == 101 {
        Some(true)
    } else if hi - lo == 5 && s[lo] == 102 && s[lo + 1] == 97 && s[lo + 2] == 108 && s[lo + 3]
        == 115 && s[lo + 4] == 101 {
        Some(false)
    } else {
        None
    }
}

/// Parse the region `[lo, hi)` as a boolean literal.
pub fn parse_bool(buf: &Vec<u8>, lo: usize, hi: usize) -> (r: Option<bool>)
    requires
        lo <= hi <= buf@.len(),
    ensures
        r == spec_bool_of(buf@, lo as int, hi as int),
{
    if hi - lo == 4 && buf[lo] == 116 && buf[lo + 1] == 114 && buf[lo + 2] == 117 && buf[lo + 3]
        == 101 {
        Some(true)
    } else if hi - lo == 5 && buf[lo] == 102 && buf[lo + 1] == 97 && buf[lo + 2] == 108 && buf[lo
        + 3] == 115 && buf[lo + 4] == 101 {
        Some(false)
    } else {
        None
    }
}

/// Whether `[e, hi)` is an exponent part: `e` or `E`, an optional sign, and
/// at least one digit filling the rest of the region.
pub open spec fn spec_float_exp(s: Seq<u8>, e: int, hi: int) -> bool {
    e < hi && (s[e] == 101 || s[e] == 69) && {
        let i2 = if e + 1 < hi && (s[e + 1] == 43 || s[e + 1] == 45) {
            e + 2
        } else {
            e + 1
        };
        i2 < hi && all_digits(s, i2, hi)
    }
}

/// Whether `[i, hi)` is a decimal floating-point number: digits with an
/// optional fractional part (at least one digit on one side of the dot),
/// then an optional exponent part.
pub open spec fn spec_float_number(s: Seq<u8>, i: int, hi: int) -> bool
    recommends
        0 <= i <= hi <= s.len(),
{
    let a = spec_skip_digits(s, i, hi);
    if a == hi {
        a > i
    } else if s[a] == 46 {
        let b = spec_skip_digits(s, a + 1, hi);
        (a > i || b > a + 1) && (b == hi || spec_float_exp(s, b, hi))
    } else {
        a > i && spec_float_exp(s, a, hi)
    }
}

/// Whether `[i, hi)` is one of the named floating-point specials, ASCII
/// case-insensitive: `inf`, `infinity` or `nan`.
pub open spec fn spec_float_special(s: Seq<u8>, i: int, hi: int) -> bool {
    (hi - i == 3 && spec_lower(s[i]) == 105 && spec_lower(s[i + 1]) == 110 && spec_lower(
        s[i + 2],
    ) == 102) || (hi - i == 8 && spec_lower(s[i]) == 105 && spec_lower(s[i + 1]) == 110
        && spec_lower(s[i + 2]) == 102 && spec_lower(s[i + 3]) == 105 && spec_lower(s[i + 4])
        == 110 && spec_lower(s[i + 5]) == 105 && spec_lower(s[i + 6]) == 116 && spec_lower(
        s[i + 7],
    ) == 121) || (hi - i == 3 && spec_lower(s[i]) == 110 && spec_lower(s[i + 1]) == 97
        && spec_lower(s[i + 2]) == 110)
}

/// Whether the region `[lo, hi)` has the syntax of a floating-point
/// literal: an optional sign, then a named special or a decimal number with
/// optional fraction and exponent.
pub open spec fn spec_float_syntax(s: Seq<u8>, lo: int, hi: int) -> bool
    recommends
        0 <= lo <= hi <= s.len(),
{
    let i = spec_sign_end(s, lo, hi);
    spec_float_special(s, i, hi) || spec_float_number(s, i, hi)
}

/// Whether the region `[lo, hi)` has the syntax of a floating-point literal.
pub fn is_float_region(buf: &Vec<u8>, lo: usize, hi: usize) -> (r: bool)
    requires
        lo <= hi <= buf@.len(),
    ensures
        r == spec_float_syntax(buf@, lo as int, hi as int),
{
    let i = if lo < hi && (buf[lo] == 43 || buf[lo] == 45) {
        lo + 1
    } else {
        lo
    };
    let special = (hi - i == 3 && lower(buf[i]) == 105 && lower(buf[i + 1]) == 110 && lower(
        buf[i + 2],
    ) == 102) || (hi - i == 8 && lower(buf[i]) == 105 && lower(buf[i + 1]) == 110 && lower(
        buf[i + 2],
    ) == 102 && lower(buf[i + 3]) == 105 && lower(buf[i + 4]) == 110 && lower(buf[i + 5]) == 105
        && lower(buf[i + 6]) == 116 && lower(buf[i + 7]) == 121) || (hi - i == 3 && lower(buf[i])
        == 110 && lower(buf[i + 1]) == 97 && lower(buf[i + 2]) == 110);
    if special {
        return true;
    }
    let a = skip_digits(buf, i, hi);
    if a == hi {
        return a > i;
    }
    if buf[a] == 46 {
        let b = skip_digits(buf, a + 1, hi);
        if !(a > i || b > a + 1) {
            return false;
        }
        if b == hi {
            return true;
        }
        float_exp(buf, b, hi)
    } else {
        if a == i {
            return false;
        }
        float_exp(buf, a, hi)
    }
}

/// Whether `[e, hi)` is an exponent part of a floating-point literal.
fn float_exp(buf: &Vec<u8>, e: usize, hi: usize) -> (r: bool)
    requires
        e <= hi <= buf@.len(),
    ensures
        r == spec_float_exp(buf@, e as int, hi as int),
{
    if e >= hi || (buf[e] != 101 && buf[e] != 69) {
        return false;
    }
    let i2 = if e + 1 < hi && (buf[e + 1] == 43 || buf[e + 1] == 45) {
        e + 2
    } else {
        e + 1
    };
    if i2 >= hi {
        return false;
    }
    let d = skip_digits(buf, i2, hi);
    proof {
        lemma_skip_digits(buf@, i2 as int, hi as int);
    }
    d == hi
}

} // verus!
