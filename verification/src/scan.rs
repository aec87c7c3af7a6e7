//! Byte-level scanning primitives of the line tokenizer.
//!
//! All scanners work on positions into one shared byte buffer.  Each has a
//! specification twin defined by structural recursion over the buffer, and
//! the executable scanner is proved to compute exactly that function.
//!
//! Quoted values are delimited heuristically: a running count of `"` bytes
//! decides whether the scanner is inside a quoted span, and a value ends at
//! the quote preceding the next `=` seen while outside quotes.  Newlines
//! inside quotes therefore do not end a value or a line.

use vstd::prelude::*;

verus! {

/// Space or tab: the separators between `key=value` pairs.  Newlines are
/// never treated as plain spaces, they end a line.
pub open spec fn is_space(b: u8) -> bool {
    b == 32 || b == 9
}

/// Position of the first byte at or after `i` that is not a space or tab.
pub open spec fn spec_skip_spaces(s: Seq<u8>, i: int) -> int
    recommends
        0 <= i <= s.len(),
    decreases s.len() - i when 0 <= i <= s.len()
{
    if i >= s.len() {
        i
    } else if is_space(s[i]) {
        spec_skip_spaces(s, i + 1)
    } else {
        i
    }
}

pub proof fn lemma_skip_spaces(s: Seq<u8>, i: int)
    requires
        0 <= i <= s.len(),
    ensures
        i <= spec_skip_spaces(s, i) <= s.len(),
        forall|j: int| i <= j < spec_skip_spaces(s, i) ==> is_space(#[trigger] s[j]),
        spec_skip_spaces(s, i) < s.len() ==> !is_space(s[spec_skip_spaces(s, i)]),
    decreases s.len() - i,
{
    if i < s.len() && is_space(s[i]) {
        lemma_skip_spaces(s, i + 1);
    }
}

/// First byte at or after `i` that is not a space or tab.
pub fn skip_spaces(buf: &Vec<u8>, from: usize) -> (r: usize)
    requires
        from <= buf@.len(),
    ensures
        r == spec_skip_spaces(buf@, from as int),
        from <= r <= buf@.len(),
{
    let mut i: usize = from;
    while i < buf.len() && (buf[i] == 32 || buf[i] == 9)
        invariant
            from <= i <= buf@.len(),
            spec_skip_spaces(buf@, from as int) == spec_skip_spaces(buf@, i as int),
        decreases buf@.len() - i,
    {
        i = i + 1;
    }
    i
}

/// First position in `[i, hi)` that is not a space or tab, or `hi`.
pub open spec fn spec_skip_spaces_to(s: Seq<u8>, i: int, hi: int) -> int
    recommends
        0 <= i <= hi <= s.len(),
    decreases hi - i when i <= hi
{
    if i >= hi {
        i
    } else if is_space(s[i]) {
        spec_skip_spaces_to(s, i + 1, hi)
    } else {
        i
    }
}

/// First position in `[from, hi)` that is not a space or tab, or `hi`.
pub fn skip_spaces_to(buf: &Vec<u8>, from: usize, hi: usize) -> (r: usize)
    requires
        from <= hi <= buf@.len(),
    ensures
        r == spec_skip_spaces_to(buf@, from as int, hi as int),
        from <= r <= hi,
{
    let mut i: usize = from;
    while i < hi && (buf[i] == 32 || buf[i] == 9)
        invariant
            from <= i <= hi <= buf@.len(),
            spec_skip_spaces_to(buf@, from as int, hi as int) == spec_skip_spaces_to(
                buf@,
                i as int,
                hi as int,
            ),
        decreases hi - i,
    {
        i = i + 1;
    }
    i
}

/// End of the region `[lo, hi)` once trailing spaces and tabs are dropped.
pub open spec fn spec_trim_end(s: Seq<u8>, lo: int, hi: int) -> int
    recommends
        0 <= lo <= hi <= s.len(),
    decreases hi - lo when lo <= hi
{
    if hi <= lo {
        hi
    } else if is_space(s[hi - 1]) {
        spec_trim_end(s, lo, hi - 1)
    } else {
        hi
    }
}

pub proof fn lemma_trim_end(s: Seq<u8>, lo: int, hi: int)
    requires
        0 <= lo <= hi <= s.len(),
    ensures
        lo <= spec_trim_end(s, lo, hi) <= hi,
        forall|j: int| spec_trim_end(s, lo, hi) <= j < hi ==> is_space(#[trigger] s[j]),
        spec_trim_end(s, lo, hi) > lo ==> !is_space(s[spec_trim_end(s, lo, hi) - 1]),
    decreases hi - lo,
{
    if hi > lo && is_space(s[hi - 1]) {
        lemma_trim_end(s, lo, hi - 1);
    }
}

/// End of the region `[lo, hi)` once trailing spaces and tabs are dropped.
pub fn trim_end(buf: &Vec<u8>, lo: usize, hi: usize) -> (r: usize)
    requires
        lo <= hi <= buf@.len(),
    ensures
        r == spec_trim_end(buf@, lo as int, hi as int),
        lo <= r <= hi,
{
    let mut i: usize = hi;
    while i > lo && (buf[i - 1] == 32 || buf[i - 1] == 9)
        invariant
            lo <= i <= hi <= buf@.len(),
            spec_trim_end(buf@, lo as int, hi as int) == spec_trim_end(buf@, lo as int, i as int),
        decreases i,
    {
        i = i - 1;
    }
    i
}

/// Position of the first `=` at or after `i`, or the end of the buffer.
pub open spec fn spec_find_eq(s: Seq<u8>, i: int) -> int
    recommends
        0 <= i <= s.len(),
    decreases s.len() - i when 0 <= i <= s.len()
{
    if i >= s.len() {
        i
    } else if s[i] == 61 {
        i
    } else {
        spec_find_eq(s, i + 1)
    }
}

pub proof fn lemma_find_eq(s: Seq<u8>, i: int)
    requires
        0 <= i <= s.len(),
    ensures
        i <= spec_find_eq(s, i) <= s.len(),
        forall|j: int| i <= j < spec_find_eq(s, i) ==> #[trigger] s[j] != 61,
        spec_find_eq(s, i) < s.len() ==> s[spec_find_eq(s, i)] == 61,
    decreases s.len() - i,
{
    if i < s.len() && s[i] != 61 {
        lemma_find_eq(s, i + 1);
    }
}

/// Position of the first `=` at or after `i`, or the end of the buffer.
pub fn find_eq(buf: &Vec<u8>, from: usize) -> (r: usize)
    requires
        from <= buf@.len(),
    ensures
        r == spec_find_eq(buf@, from as int),
        from <= r <= buf@.len(),
{
    let mut i: usize = from;
    while i < buf.len() && buf[i] != 61
        invariant
            from <= i <= buf@.len(),
            spec_find_eq(buf@, from as int) == spec_find_eq(buf@, i as int),
        decreases buf@.len() - i,
    {
        i = i + 1;
    }
    i
}

/// End of a naked value starting at `i`: the next space or newline, or the
/// end of the buffer.
pub open spec fn spec_naked_end(s: Seq<u8>, i: int) -> int
    recommends
        0 <= i <= s.len(),
    decreases s.len() - i when 0 <= i <= s.len()
{
    if i >= s.len() {
        i
    } else if s[i] == 32 || s[i] == 10 {
        i
    } else {
        spec_naked_end(s, i + 1)
    }
}

pub proof fn lemma_naked_end(s: Seq<u8>, i: int)
    requires
        0 <= i <= s.len(),
    ensures
        i <= spec_naked_end(s, i) <= s.len(),
    decreases s.len() - i,
{
    if i < s.len() && !(s[i] == 32 || s[i] == 10) {
        lemma_naked_end(s, i + 1);
    }
}

/// End of a naked value starting at `i`: the next space or newline, or the
/// end of the buffer.
pub fn naked_end(buf: &Vec<u8>, from: usize) -> (r: usize)
    requires
        from <= buf@.len(),
    ensures
        r == spec_naked_end(buf@, from as int),
        from <= r <= buf@.len(),
{
    let mut i: usize = from;
    while i < buf.len() && buf[i] != 32 && buf[i] != 10
        invariant
            from <= i <= buf@.len(),
            spec_naked_end(buf@, from as int) == spec_naked_end(buf@, i as int),
        decreases buf@.len() - i,
    {
        i = i + 1;
    }
    i
}

/// Quote-parity scan for the boundary of a quoted value: the position of the
/// first `=` at or after `i` seen while the running quote count is even, or
/// the end of the buffer.  `even` says whether the count of `"` bytes seen so
/// far is even.
pub open spec fn spec_quote_scan(s: Seq<u8>, i: int, even: bool) -> int
    recommends
        0 <= i <= s.len(),
    decreases s.len() - i when 0 <= i <= s.len()
{
    if i >= s.len() {
        i
    } else if s[i] == 34 {
        spec_quote_scan(s, i + 1, !even)
    } else if s[i] == 61 && even {
        i
    } else {
        spec_quote_scan(s, i + 1, even)
    }
}

pub proof fn lemma_quote_scan(s: Seq<u8>, i: int, even: bool)
    requires
        0 <= i <= s.len(),
    ensures
        i <= spec_quote_scan(s, i, even) <= s.len(),
    decreases s.len() - i,
{
    if i < s.len() {
        if s[i] == 34 {
            lemma_quote_scan(s, i + 1, !even);
        } else if !(s[i] == 61 && even) {
            lemma_quote_scan(s, i + 1, even);
        }
    }
}

/// Quote-parity scan for the boundary of a quoted value.
pub fn quote_scan(buf: &Vec<u8>, from: usize, even0: bool) -> (r: usize)
    requires
        from <= buf@.len(),
    ensures
        r == spec_quote_scan(buf@, from as int, even0),
        from <= r <= buf@.len(),
{
    let mut i: usize = from;
    let mut even: bool = even0;
    while i < buf.len() && !(buf[i] == 61 && even)
        invariant
            from <= i <= buf@.len(),
            spec_quote_scan(buf@, from as int, even0) == spec_quote_scan(buf@, i as int, even),
        decreases buf@.len() - i,
    {
        if buf[i] == 34 {
            even = !even;
        }
        i = i + 1;
    }
    i
}

/// End of the line starting at `i`, quote-aware: the position of the first
/// newline seen while the running quote count is even, or the end of the
/// buffer.  Newlines inside quoted spans do not end the line, so a malformed
/// multi-line quoted value is captured whole when a line is reported in an
/// error.
pub open spec fn spec_line_end(s: Seq<u8>, i: int, even: bool) -> int
    recommends
        0 <= i <= s.len(),
    decreases s.len() - i when 0 <= i <= s.len()
{
    if i >= s.len() {
        i
    } else if s[i] == 34 {
        spec_line_end(s, i + 1, !even)
    } else if s[i] == 10 && even {
        i
    } else {
        spec_line_end(s, i + 1, even)
    }
}

pub proof fn lemma_line_end(s: Seq<u8>, i: int, even: bool)
    requires
        0 <= i <= s.len(),
    ensures
        i <= spec_line_end(s, i, even) <= s.len(),
    decreases s.len() - i,
{
    if i < s.len() {
        if s[i] == 34 {
            lemma_line_end(s, i + 1, !even);
        } else if !(s[i] == 10 && even) {
            lemma_line_end(s, i + 1, even);
        }
    }
}

/// End of the line starting at `i`, counting quotes from an even count.
pub fn line_end(buf: &Vec<u8>, from: usize) -> (r: usize)
    requires
        from <= buf@.len(),
    ensures
        r == spec_line_end(buf@, from as int, true),
        from <= r <= buf@.len(),
{
    let mut i: usize = from;
    let mut even: bool = true;
    while i < buf.len() && !(buf[i] == 10 && even)
        invariant
            from <= i <= buf@.len(),
            spec_line_end(buf@, from as int, true) == spec_line_end(buf@, i as int, even),
        decreases buf@.len() - i,
    {
        if buf[i] == 34 {
            even = !even;
        }
        i = i + 1;
    }
    i
}

/// Position of the last `"` in `[lo, hi)`, or `lo - 1` when there is none.
pub open spec fn spec_last_quote(s: Seq<u8>, lo: int, hi: int) -> int
    recommends
        0 <= lo <= hi <= s.len(),
    decreases hi - lo when lo <= hi
{
    if hi <= lo {
        lo - 1
    } else if s[hi - 1] == 34 {
        hi - 1
    } else {
        spec_last_quote(s, lo, hi - 1)
    }
}

pub proof fn lemma_last_quote(s: Seq<u8>, lo: int, hi: int)
    requires
        0 <= lo <= hi <= s.len(),
    ensures
        lo - 1 <= spec_last_quote(s, lo, hi) < hi,
        spec_last_quote(s, lo, hi) >= lo ==> s[spec_last_quote(s, lo, hi)] == 34,
        forall|j: int| spec_last_quote(s, lo, hi) < j < hi ==> #[trigger] s[j] != 34,
    decreases hi - lo,
{
    if hi > lo && s[hi - 1] != 34 {
        lemma_last_quote(s, lo, hi - 1);
    }
}

/// Position of the last `"` in `[lo, hi)`, if any.
pub fn last_quote(buf: &Vec<u8>, lo: usize, hi: usize) -> (r: Option<usize>)
    requires
        lo <= hi <= buf@.len(),
    ensures
        match r {
            Some(j) => j == spec_last_quote(buf@, lo as int, hi as int) && lo <= j < hi,
            None => spec_last_quote(buf@, lo as int, hi as int) == lo - 1,
        },
{
    let mut i: usize = hi;
    while i > lo && buf[i - 1] != 34
        invariant
            lo <= i <= hi <= buf@.len(),
            spec_last_quote(buf@, lo as int, hi as int) == spec_last_quote(
                buf@,
                lo as int,
                i as int,
            ),
        decreases i,
    {
        i = i - 1;
    }
    if i > lo {
        Some(i - 1)
    } else {
        None
    }
}

} // verus!
