//! Bytes-to-text conversion and character-level string helpers.
//!
//! Keys and values arrive as raw bytes and become owned strings only after
//! UTF-8 validation.  Validation itself is delegated to the standard library;
//! its result is stated in terms of vstd's UTF-8 model, so every contract
//! about decoded text is exact.

use vstd::prelude::*;
use vstd::string::StringSliceAdditionalSpecFns;
use vstd::string::StrSliceExecFns;
use vstd::utf8::{valid_utf8, encode_utf8};

verus! {

/// Declares `core::str::Utf8Error` to the verifier, as the opaque error
/// type of `core::str::from_utf8`.
#[verifier::external_type_specification]
#[verifier::external_body]
pub struct ExUtf8Error(core::str::Utf8Error);

/// Relies on `core::str::from_utf8`: it succeeds exactly on valid UTF-8 and
/// returns a view of the same bytes.
pub assume_specification[ core::str::from_utf8 ](v: &[u8]) -> (r: Result<
    &str,
    core::str::Utf8Error,
>)
    ensures
        r is Ok <==> valid_utf8(v@),
        r matches Ok(s) ==> s.spec_bytes() == v@,
;

/// Copy of the region `[lo, hi)` of the buffer.
pub fn copy_region(buf: &Vec<u8>, lo: usize, hi: usize) -> (r: Vec<u8>)
    requires
        lo <= hi <= buf@.len(),
    ensures
        r@ == buf@.subrange(lo as int, hi as int),
{
    let mut out: Vec<u8> = Vec::new();
    let mut i: usize = lo;
    while i < hi
        invariant
            lo <= i <= hi <= buf@.len(),
            out@ == buf@.subrange(lo as int, i as int),
        decreases hi - i,
    {
        out.push(buf[i]);
        proof {
            assert(out@ =~= buf@.subrange(lo as int, i + 1 as int));
        }
        i = i + 1;
    }
    out
}

/// Decode the region `[lo, hi)` of the buffer as UTF-8 into an owned string.
/// Fails exactly when the region is not valid UTF-8.
pub fn decode_region(buf: &Vec<u8>, lo: usize, hi: usize) -> (r: Option<String>)
    requires
        lo <= hi <= buf@.len(),
    ensures
        r is Some <==> valid_utf8(buf@.subrange(lo as int, hi as int)),
        r matches Some(s) ==> encode_utf8(s@) == buf@.subrange(lo as int, hi as int),
{
    let region = copy_region(buf, lo, hi);
    match core::str::from_utf8(region.as_slice()) {
        Ok(s) => Some(s.to_owned()),
        Err(_) => None,
    }
}

/// Whether `p` is a prefix of `s`, character by character.
pub open spec fn spec_starts_with(s: Seq<char>, p: Seq<char>) -> bool {
    p.len() <= s.len() && s.subrange(0, p.len() as int) == p
}

/// Whether the characters of `p` are a prefix of the characters of `s`.
pub fn str_starts_with(s: &str, p: &str) -> (r: bool)
    ensures
        r == spec_starts_with(s@, p@),
{
    let sn = s.unicode_len();
    let pn = p.unicode_len();
    if pn > sn {
        proof {
            assert(!spec_starts_with(s@, p@));
        }
        return false;
    }
    let mut i: usize = 0;
    while i < pn
        invariant
            0 <= i <= pn,
            pn == p@.len(),
            sn == s@.len(),
            pn <= sn,
            forall|j: int| 0 <= j < i ==> s@[j] == p@[j],
        decreases pn - i,
    {
        if s.get_char(i) != p.get_char(i) {
            proof {
                assert(s@.subrange(0, p@.len() as int)[i as int] != p@[i as int]);
            }
            return false;
        }
        i = i + 1;
    }
    proof {
        assert(s@.subrange(0, p@.len() as int) =~= p@);
    }
    true
}

/// Whether two string slices hold the same characters.
pub fn str_eq(a: &str, b: &str) -> (r: bool)
    ensures
        r == (a@ == b@),
{
    let an = a.unicode_len();
    let bn = b.unicode_len();
    if an != bn {
        proof {
            assert(a@ != b@);
        }
        return false;
    }
    let r = str_starts_with(a, b);
    proof {
        if r {
            assert(a@.subrange(0, b@.len() as int) =~= a@);
        } else {
            if a@ == b@ {
                assert(a@.subrange(0, b@.len() as int) =~= b@);
            }
        }
    }
    r
}

} // verus!
