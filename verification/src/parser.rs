//! The incremental parser: tokenizing one line into `key=value` pairs, and
//! the pull driver that refills the buffer, skips malformed lines and
//! reports records, errors and end of stream.

use vstd::prelude::*;
use crate::errors::{ParseError, ParseErrorKind};
use crate::fields::{spec_interpret, interpret};
use crate::record::{Record, RecordModel};
use crate::scan::{
    spec_skip_spaces, spec_skip_spaces_to, spec_trim_end, spec_find_eq, spec_naked_end,
    spec_quote_scan, spec_last_quote, spec_line_end, skip_spaces, skip_spaces_to, trim_end,
    find_eq, naked_end, quote_scan, last_quote, line_end, lemma_skip_spaces, lemma_find_eq,
    lemma_quote_scan, lemma_last_quote,
};
use crate::source::{IoError, ReadSource};
use crate::text::copy_region;

verus! {

/// The key region of a pair: the bytes before the `=` at `e`, trimmed of
/// surrounding spaces; when the trimmed region is wrapped in a matching pair
/// of quotes, they are stripped and the inside is trimmed again.
pub open spec fn spec_key_region(s: Seq<u8>, q: int, e: int) -> (int, int) {
    let kb = spec_trim_end(s, q, e);
    if kb - q >= 2 && s[q] == 34 && s[kb - 1] == 34 {
        let a = spec_skip_spaces_to(s, q + 1, kb - 1);
        let b = spec_trim_end(s, a, kb - 1);
        (a, b)
    } else {
        (q, kb)
    }
}

/// The key region of a pair, as `spec_key_region` describes it.
pub fn key_region(buf: &Vec<u8>, q: usize, e: usize) -> (r: (usize, usize))
    requires
        q <= e <= buf@.len(),
    ensures
        (r.0 as int, r.1 as int) == spec_key_region(buf@, q as int, e as int),
        q <= r.0 <= r.1 <= e,
{
    let kb = trim_end(buf, q, e);
    if kb - q >= 2 && buf[q] == 34 && buf[kb - 1] == 34 {
        let a = skip_spaces_to(buf, q + 1, kb - 1);
        let b = trim_end(buf, a, kb - 1);
        (a, b)
    } else {
        (q, kb)
    }
}

/// The value region starting at `i` and the position of the input that
/// follows it.  A value beginning with `"` ends at the last quote before
/// the first `=` seen at even quote parity (so embedded quotes and newlines
/// stay inside); a naked value ends at the next space or newline.
pub open spec fn spec_value_region(s: Seq<u8>, i: int) -> (int, int, int) {
    let a = spec_skip_spaces(s, i);
    if a < s.len() && s[a] == 34 {
        let qe = spec_quote_scan(s, a + 1, false);
        let lq = spec_last_quote(s, a + 1, qe);
        let vend = if lq < a + 1 {
            a + 1
        } else {
            lq
        };
        let nxt = if vend >= s.len() {
            s.len() as int
        } else {
            vend + 1
        };
        (a + 1, vend, nxt)
    } else {
        let b = spec_naked_end(s, a);
        (a, b, b)
    }
}

/// The value region starting at `i`, as `spec_value_region` describes it.
pub fn value_region(buf: &Vec<u8>, i: usize) -> (r: (usize, usize, usize))
    requires
        i <= buf@.len(),
    ensures
        (r.0 as int, r.1 as int, r.2 as int) == spec_value_region(buf@, i as int),
        i <= r.0 <= r.1 <= buf@.len(),
        r.1 <= r.2 <= buf@.len(),
{
    let a = skip_spaces(buf, i);
    if a < buf.len() && buf[a] == 34 {
        let qe = quote_scan(buf, a + 1, false);
        let lq = match last_quote(buf, a + 1, qe) {
            Some(j) => j,
            None => a + 1,
        };
        proof {
            lemma_last_quote(buf@, a + 1 as int, qe as int);
        }
        let vend = lq;
        let nxt = if vend >= buf.len() {
            buf.len()
        } else {
            vend + 1
        };
        (a + 1, vend, nxt)
    } else {
        let b = naked_end(buf, a);
        (a, b, b)
    }
}

/// The outcome of tokenizing one line from the window.
pub enum LineOutcome {
    /// The window holds no complete line yet: refill and retry.
    Incomplete,
    /// The line ended: the record when any field was set, `None` for a
    /// blank line, and the position just past the line.
    Done(Option<RecordModel>, int),
    /// The line is malformed: the error kind, and the position where the
    /// offending line starts.
    Bad(ParseErrorKind, int),
}

/// One step of the tokenizer loop: at position `q0` with the partial record
/// `rec` (`nonempty` when a field has been set), scan spaces, judge the end
/// of line, and otherwise take one `key=value` pair and interpret it.
///
/// A key without `=` in the window is incomplete; so is a value that runs
/// to the end of the window before end of input.
pub open spec fn spec_line_loop(
    s: Seq<u8>,
    start: int,
    q0: int,
    eof: bool,
    rec: RecordModel,
    nonempty: bool,
) -> LineOutcome
    recommends
        0 <= start <= q0 <= s.len(),
    decreases s.len() - q0 when 0 <= q0 <= s.len() via spec_line_loop_decreases
{
    let q = spec_skip_spaces(s, q0);
    if q >= s.len() {
        LineOutcome::Done(
            if nonempty {
                Some(rec)
            } else {
                None
            },
            s.len() as int,
        )
    } else if s[q] == 10 {
        LineOutcome::Done(
            if nonempty {
                Some(rec)
            } else {
                None
            },
            q + 1,
        )
    } else {
        let e = spec_find_eq(s, q);
        if e >= s.len() {
            LineOutcome::Incomplete
        } else {
            let kr = spec_key_region(s, q, e);
            let vr = spec_value_region(s, e + 1);
            if vr.2 >= s.len() && !eof {
                LineOutcome::Incomplete
            } else {
                match spec_interpret(rec, s, kr.0, kr.1, vr.0, vr.1) {
                    Ok(rec2) => spec_line_loop(s, start, vr.2, eof, rec2, true),
                    Err(k) => LineOutcome::Bad(k, start),
                }
            }
        }
    }
}

#[via_fn]
proof fn spec_line_loop_decreases(
    s: Seq<u8>,
    start: int,
    q0: int,
    eof: bool,
    rec: RecordModel,
    nonempty: bool,
) {
    lemma_skip_spaces(s, q0);
    let q = spec_skip_spaces(s, q0);
    if q < s.len() && s[q] != 10 {
        lemma_find_eq(s, q);
        let e = spec_find_eq(s, q);
        if e < s.len() {
            lemma_skip_spaces(s, e + 1);
            let a = spec_skip_spaces(s, e + 1);
            if a < s.len() && s[a] == 34 {
                lemma_quote_scan(s, a + 1, false);
                lemma_last_quote(s, a + 1, spec_quote_scan(s, a + 1, false));
            } else {
                crate::scan::lemma_naked_end(s, a);
            }
        }
    }
}

/// Tokenize one line of the window starting at `p1` (`p1` already past any
/// leading spaces).  The result is exactly the one-line tokenization of the
/// buffer contents: no read happens here.
pub fn parse_line(buf: &Vec<u8>, p1: usize, eof: bool) -> (r: (
    Option<Record>,
    usize,
    Option<ParseErrorKind>,
))
    requires
        p1 <= buf@.len(),
    ensures
        p1 <= r.1 <= buf@.len(),
        ({
            let outcome = spec_line_loop(buf@, p1 as int, p1 as int, eof, RecordModel::empty(),
                false);
            match outcome {
                LineOutcome::Incomplete => r.0 is None && r.2 is None && r.1 == p1,
                LineOutcome::Done(orm, np) => {
                    &&& r.2 is None
                    &&& r.1 == np
                    &&& match (r.0, orm) {
                        (Some(rec), Some(rm)) => rec@ == rm,
                        (None, None) => true,
                        _ => false,
                    }
                },
                LineOutcome::Bad(k, p0) => r.0 is None && r.2 == Some(k) && r.1 == p1 && p0 == p1,
            }
        }),
{
    let ghost s = buf@;
    let mut rec = Record::empty();
    let mut nonempty: bool = false;
    let mut q0: usize = p1;
    loop
        invariant
            p1 <= q0 <= s.len(),
            s == buf@,
            spec_line_loop(s, p1 as int, p1 as int, eof, RecordModel::empty(), false)
                == spec_line_loop(s, p1 as int, q0 as int, eof, rec@, nonempty),
        decreases s.len() - q0,
    {
        let q = skip_spaces(buf, q0);
        if q >= buf.len() {
            let out = if nonempty {
                Some(rec)
            } else {
                None
            };
            let np = buf.len();
            return (out, np, None);
        }
        if buf[q] == 10 {
            let out = if nonempty {
                Some(rec)
            } else {
                None
            };
            return (out, q + 1, None);
        }
        let e = find_eq(buf, q);
        if e >= buf.len() {
            return (None, p1, None);
        }
        let (klo, khi) = key_region(buf, q, e);
        let (vlo, vhi, nxt) = value_region(buf, e + 1);
        if nxt >= buf.len() && !eof {
            return (None, p1, None);
        }
        match interpret(&mut rec, buf, klo, khi, vlo, vhi) {
            Ok(()) => {
                nonempty = true;
                proof {
                    assert(nxt > q0);
                }
                q0 = nxt;
            },
            Err(k) => {
                return (None, p1, Some(k));
            },
        }
    }
}

/// The driver outcome of one poll of the window, without any read: a
/// record, a captured malformed line, a request for more bytes, or the end
/// of the stream, each with the window position the parser stands at after
/// it.
pub enum PollModel {
    /// A record decoded from one complete line, and the position past it.
    Rec(RecordModel, int),
    /// A malformed line: its kind, its captured raw bytes (quote-aware),
    /// and the position past the skipped line.
    Fail(ParseErrorKind, Seq<u8>, int),
    /// The window cannot yield a complete line and end of input was not
    /// reached: more bytes are needed.  The position is past any leading
    /// spaces.
    NeedRead(int),
    /// End of input and nothing further in the window.
    End(int),
}

/// The driver decision on the window starting at `p`: skip blank lines,
/// report a complete record or a captured malformed line, ask for more
/// bytes, or end the stream.  The heart of the error-recovery state
/// machine: a malformed line is skipped whole, using the same quote-aware
/// line boundary as the tokenizer, and parsing resumes after it.
pub open spec fn spec_poll(s: Seq<u8>, p: int, eof: bool) -> PollModel
    recommends
        0 <= p <= s.len(),
    decreases s.len() - p when 0 <= p <= s.len() via spec_poll_decreases
{
    let p1 = spec_skip_spaces(s, p);
    match spec_line_loop(s, p1, p1, eof, RecordModel::empty(), false) {
        LineOutcome::Done(orm, np) => {
            if orm is Some {
                PollModel::Rec(orm->Some_0, np)
            } else {
                if np == p1 {
                    if eof {
                        PollModel::End(p1)
                    } else {
                        PollModel::NeedRead(p1)
                    }
                } else {
                    spec_poll(s, np, eof)
                }
            }
        },
        LineOutcome::Incomplete => {
            if eof {
                PollModel::End(p1)
            } else {
                PollModel::NeedRead(p1)
            }
        },
        LineOutcome::Bad(k, p0) => {
            let le = spec_line_end(s, p0, true);
            let np = if le < s.len() && s[le] == 10 {
                le + 1
            } else {
                le
            };
            PollModel::Fail(k, s.subrange(p0, le), np)
        },
    }
}

/// Every outcome of the tokenizer stays within the window.
proof fn lemma_line_loop_range(
    s: Seq<u8>,
    start: int,
    q0: int,
    eof: bool,
    rec: RecordModel,
    nonempty: bool,
)
    requires
        0 <= q0 <= s.len(),
    ensures
        match spec_line_loop(s, start, q0, eof, rec, nonempty) {
            LineOutcome::Done(_, np) => q0 <= np <= s.len(),
            _ => true,
        },
    decreases s.len() - q0,
{
    lemma_skip_spaces(s, q0);
    let q = spec_skip_spaces(s, q0);
    if q < s.len() && s[q] != 10 {
        lemma_find_eq(s, q);
        let e = spec_find_eq(s, q);
        if e < s.len() {
            lemma_skip_spaces(s, e + 1);
            let a = spec_skip_spaces(s, e + 1);
            if a < s.len() && s[a] == 34 {
                lemma_quote_scan(s, a + 1, false);
                lemma_last_quote(s, a + 1, spec_quote_scan(s, a + 1, false));
            } else {
                crate::scan::lemma_naked_end(s, a);
            }
            let kr = spec_key_region(s, q, e);
            let vr = spec_value_region(s, e + 1);
            if !(vr.2 >= s.len() && !eof) {
                match spec_interpret(rec, s, kr.0, kr.1, vr.0, vr.1) {
                    Ok(rec2) => {
                        lemma_line_loop_range(s, start, vr.2, eof, rec2, true);
                    },
                    Err(_) => {},
                }
            }
        }
    }
}

/// A malformed line is never reported as an I/O failure: the tokenizer
/// only raises the five line-level kinds.
proof fn lemma_line_loop_no_io(
    s: Seq<u8>,
    start: int,
    q0: int,
    eof: bool,
    rec: RecordModel,
    nonempty: bool,
)
    requires
        0 <= q0 <= s.len(),
    ensures
        spec_line_loop(s, start, q0, eof, rec, nonempty) matches LineOutcome::Bad(k, _)
            ==> !(k matches ParseErrorKind::Io(_)),
    decreases s.len() - q0,
{
    lemma_skip_spaces(s, q0);
    let q = spec_skip_spaces(s, q0);
    if q < s.len() && s[q] != 10 {
        lemma_find_eq(s, q);
        let e = spec_find_eq(s, q);
        if e < s.len() {
            lemma_skip_spaces(s, e + 1);
            let a = spec_skip_spaces(s, e + 1);
            if a < s.len() && s[a] == 34 {
                lemma_quote_scan(s, a + 1, false);
                lemma_last_quote(s, a + 1, spec_quote_scan(s, a + 1, false));
            } else {
                crate::scan::lemma_naked_end(s, a);
            }
            let kr = spec_key_region(s, q, e);
            let vr = spec_value_region(s, e + 1);
            if !(vr.2 >= s.len() && !eof) {
                match spec_interpret(rec, s, kr.0, kr.1, vr.0, vr.1) {
                    Ok(rec2) => {
                        lemma_line_loop_no_io(s, start, vr.2, eof, rec2, true);
                    },
                    Err(_) => {},
                }
            }
        }
    }
}

/// Records built by the tokenizer keep their extra keys unique.
proof fn lemma_line_loop_unique(
    s: Seq<u8>,
    start: int,
    q0: int,
    eof: bool,
    rec: RecordModel,
    nonempty: bool,
)
    requires
        0 <= q0 <= s.len(),
        rec.keys_unique(),
    ensures
        ({
            match spec_line_loop(s, start, q0, eof, rec, nonempty) {
                LineOutcome::Done(orm, _) => orm matches Some(rm) ==> rm.keys_unique(),
                _ => true,
            }
        }),
    decreases s.len() - q0,
{
    lemma_skip_spaces(s, q0);
    let q = spec_skip_spaces(s, q0);
    if q < s.len() && s[q] != 10 {
        lemma_find_eq(s, q);
        let e = spec_find_eq(s, q);
        if e < s.len() {
            lemma_skip_spaces(s, e + 1);
            let a = spec_skip_spaces(s, e + 1);
            if a < s.len() && s[a] == 34 {
                lemma_quote_scan(s, a + 1, false);
                lemma_last_quote(s, a + 1, spec_quote_scan(s, a + 1, false));
            } else {
                crate::scan::lemma_naked_end(s, a);
            }
            let kr = spec_key_region(s, q, e);
            let vr = spec_value_region(s, e + 1);
            if !(vr.2 >= s.len() && !eof) {
                crate::fields::lemma_interpret_unique(rec, s, kr.0, kr.1, vr.0, vr.1);
                match spec_interpret(rec, s, kr.0, kr.1, vr.0, vr.1) {
                    Ok(rec2) => {
                        lemma_line_loop_unique(s, start, vr.2, eof, rec2, true);
                    },
                    Err(_) => {},
                }
            }
        }
    }
}

/// Every record the driver reports has unique extra keys: a later
/// occurrence of a key within one line overwrites the earlier one.
pub proof fn lemma_poll_record_keys_unique(s: Seq<u8>, p: int, eof: bool)
    requires
        0 <= p <= s.len(),
    ensures
        spec_poll(s, p, eof) matches PollModel::Rec(rm, _) ==> rm.keys_unique(),
    decreases s.len() - p,
{
    lemma_skip_spaces(s, p);
    let p1 = spec_skip_spaces(s, p);
    lemma_line_loop_range(s, p1, p1, eof, RecordModel::empty(), false);
    lemma_line_loop_unique(s, p1, p1, eof, RecordModel::empty(), false);
    match spec_line_loop(s, p1, p1, eof, RecordModel::empty(), false) {
        LineOutcome::Done(orm, np) => {
            if orm is None && np != p1 {
                lemma_poll_record_keys_unique(s, np, eof);
            }
        },
        _ => {},
    }
}

#[via_fn]
proof fn spec_poll_decreases(s: Seq<u8>, p: int, eof: bool) {
    lemma_skip_spaces(s, p);
    let p1 = spec_skip_spaces(s, p);
    lemma_line_loop_range(s, p1, p1, eof, RecordModel::empty(), false);
}

/// The parser's answer to one poll of its window, with no read performed.
pub enum Poll {
    /// A record decoded from one complete line.
    Record(Record),
    /// A malformed line was captured and skipped.
    Fail(ParseError),
    /// The window cannot yield a complete line yet: fill the buffer.
    NeedRead,
    /// End of input, and nothing further in the window.
    End,
}

/// A struct to parse logfmt formatted logs, incrementally: bytes are pulled
/// from the source in arbitrarily sized reads into a growable buffer, and
/// complete lines are decoded from it one at a time.
///
/// The parser checks lines loosely; when a line is malformed it reports one
/// error, skips exactly that line and resumes at the next one.  A read
/// failure is reported once and does not end the stream: the buffered bytes
/// are kept and the next pull retries from the same position.
#[derive(Debug)]
pub struct Parser<R> {
    /// The byte source.
    reader: R,
    /// Amount of bytes of `buf` already consumed.
    parsed: usize,
    /// The buffered bytes; the window `buf[parsed..]` is still unconsumed.
    buf: Vec<u8>,
    /// The buffer's target size; it doubles when a line outgrows it.
    cap: usize,
    /// Whether the next pull should read before parsing.
    needs_read: bool,
    /// Whether the source reported end of input.
    hit_eof: bool,
}

/// Create a new [`Parser`].
pub fn parse<R: ReadSource>(reader: R) -> (p: Parser<R>)
    ensures
        p.wf(),
        p.window() == Seq::<u8>::empty(),
        !p.eof(),
        p.remaining_source() == reader.remaining(),
        p.capacity() == 4096,
{
    let p = Parser {
        reader,
        parsed: 0,
        buf: Vec::new(),
        cap: 4096,
        needs_read: true,
        hit_eof: false,
    };
    proof {
        assert(p.window() =~= Seq::<u8>::empty());
    }
    p
}

impl<R: ReadSource> Parser<R> {
    /// The buffered bytes.
    pub closed spec fn buf_model(&self) -> Seq<u8> {
        self.buf@
    }

    /// How much of the buffer is already consumed.
    pub closed spec fn pos(&self) -> int {
        self.parsed as int
    }

    /// Whether the source has reported end of input.
    pub closed spec fn eof(&self) -> bool {
        self.hit_eof
    }

    /// The ghost measure of what the source can still deliver.
    pub closed spec fn remaining_source(&self) -> nat {
        self.reader.remaining()
    }

    /// The buffer's target size.
    pub closed spec fn capacity(&self) -> int {
        self.cap as int
    }

    /// The unconsumed window of the buffer.
    pub open spec fn window(&self) -> Seq<u8> {
        self.buf_model().skip(self.pos())
    }

    /// The window once its leading spaces and tabs are dropped.
    pub open spec fn stripped(&self) -> Seq<u8> {
        self.buf_model().skip(spec_skip_spaces(self.buf_model(), self.pos()))
    }

    /// Basic well-formedness: the consumed part lies within the buffer, and
    /// the buffer within its target size.
    pub closed spec fn wf(&self) -> bool {
        &&& self.parsed <= self.buf@.len()
        &&& self.buf@.len() <= self.cap
        &&& 1 <= self.cap
    }

    /// Make bytes available: drop leading spaces of the window, discard the
    /// consumed prefix, double the buffer's size when a line fills it
    /// whole, and issue one read into the free space.
    ///
    /// No unconsumed byte is ever lost or duplicated: on success the new
    /// window is the stripped old window plus whatever the read appended
    /// (nothing appended means end of input was reached), and on a read
    /// error the window is exactly the stripped old window.
    pub fn fill_buf(&mut self) -> (r: Result<(), IoError>)
        requires
            old(self).wf(),
        ensures
            final(self).wf(),
            final(self).pos() == 0,
            final(self).remaining_source() <= old(self).remaining_source(),
            // A line that fills the whole buffer doubles its size, so the
            // buffer grows until the line fits and no byte is truncated.
            final(self).capacity() >= old(self).capacity(),
            old(self).stripped().len() == old(self).capacity() && old(self).capacity() * 2
                <= usize::MAX ==> final(self).capacity() == old(self).capacity() * 2,
            match r {
                Ok(()) => {
                    &&& final(self).window().len() >= old(self).stripped().len()
                    &&& final(self).window().subrange(0, old(self).stripped().len() as int)
                        == old(self).stripped()
                    &&& final(self).window().len() > old(self).stripped().len()
                        ==> final(self).remaining_source() < old(self).remaining_source()
                    &&& final(self).eof() == (old(self).eof() || final(self).window().len()
                        == old(self).stripped().len())
                },
                Err(_) => {
                    &&& final(self).window() == old(self).stripped()
                    &&& final(self).eof() == old(self).eof()
                },
            },
    {
        proof {
            lemma_skip_spaces(self.buf@, self.parsed as int);
        }
        self.parsed = skip_spaces(&self.buf, self.parsed);
        // Discard the already consumed prefix.
        let tail = copy_region(&self.buf, self.parsed, self.buf.len());
        proof {
            assert(tail@ =~= old(self).stripped());
        }
        self.buf = tail;
        self.parsed = 0;
        // If a log message filled the whole buffer, double its size so the
        // next read can make progress.
        if self.buf.len() == self.cap {
            if self.cap <= usize::MAX / 2 {
                self.cap = self.cap * 2;
            }
        }
        let want = self.cap - self.buf.len();
        if want == 0 {
            // The buffer cannot grow further; give the line up as input
            // that will never complete.
            self.hit_eof = true;
            proof {
                assert(self.window() =~= self.buf@);
            }
            return Ok(());
        }
        let r = self.reader.read(&mut self.buf, want);
        proof {
            assert(self.window() =~= self.buf@);
        }
        match r {
            Ok(n) => {
                if n == 0 {
                    self.hit_eof = true;
                }
                Ok(())
            },
            Err(e) => Err(e),
        }
    }

    /// Decide on the current window without reading: skip blank lines, then
    /// report a record, a captured malformed line, the need for more bytes,
    /// or the end of the stream, exactly as [`spec_poll`] describes it.
    pub fn poll(&mut self) -> (r: Poll)
        requires
            old(self).wf(),
        ensures
            final(self).wf(),
            final(self).buf_model() == old(self).buf_model(),
            final(self).eof() == old(self).eof(),
            final(self).remaining_source() == old(self).remaining_source(),
            final(self).capacity() == old(self).capacity(),
            match r {
                Poll::Record(rec) => {
                    &&& spec_poll(old(self).buf_model(), old(self).pos(), old(self).eof())
                        matches PollModel::Rec(rm, np)
                    &&& rec@ == rm
                    &&& final(self).pos() == np
                    &&& rec@.keys_unique()
                },
                Poll::Fail(pe) => {
                    &&& spec_poll(old(self).buf_model(), old(self).pos(), old(self).eof())
                        matches PollModel::Fail(k, line, np)
                    &&& pe.kind == k
                    &&& final(self).pos() == np
                    &&& pe.line matches Some(l)
                    &&& l@ == line
                    &&& !(pe.kind matches ParseErrorKind::Io(_))
                },
                Poll::NeedRead => {
                    &&& spec_poll(old(self).buf_model(), old(self).pos(), old(self).eof())
                        matches PollModel::NeedRead(p1)
                    &&& final(self).pos() == p1
                    &&& !old(self).eof()
                },
                Poll::End => {
                    &&& spec_poll(old(self).buf_model(), old(self).pos(), old(self).eof())
                        matches PollModel::End(p1)
                    &&& final(self).pos() == p1
                    &&& old(self).eof()
                },
            },
    {
        let ghost s = self.buf@;
        loop
            invariant
                self.wf(),
                self.buf@ == s,
                s == old(self).buf@,
                self.hit_eof == old(self).hit_eof,
                self.reader == old(self).reader,
                self.cap == old(self).cap,
                self.parsed <= s.len(),
                spec_poll(s, old(self).parsed as int, old(self).hit_eof) == spec_poll(
                    s,
                    self.parsed as int,
                    self.hit_eof,
                ),
            decreases s.len() - self.parsed,
        {
            let p1 = skip_spaces(&self.buf, self.parsed);
            let ghost pbefore = self.parsed as int;
            self.parsed = p1;
            let (orec, np, okind) = parse_line(&self.buf, p1, self.hit_eof);
            match okind {
                Some(kind) => {
                    proof {
                        lemma_line_loop_no_io(
                            s,
                            p1 as int,
                            p1 as int,
                            self.hit_eof,
                            RecordModel::empty(),
                            false,
                        );
                    }
                    let le = line_end(&self.buf, p1);
                    let snapshot = copy_region(&self.buf, p1, le);
                    let np2 = if le < self.buf.len() && self.buf[le] == 10 {
                        le + 1
                    } else {
                        le
                    };
                    self.parsed = np2;
                    self.needs_read = false;
                    return Poll::Fail(ParseError { line: Some(snapshot), kind });
                },
                None => {
                    match orec {
                        Some(rec) => {
                            proof {
                                lemma_poll_record_keys_unique(s, pbefore, self.hit_eof);
                            }
                            self.parsed = np;
                            self.needs_read = false;
                            return Poll::Record(rec);
                        },
                        None => {
                            if np > p1 {
                                // A blank line: consume it silently and go
                                // on with the next line.
                                self.parsed = np;
                            } else {
                                if self.hit_eof {
                                    self.needs_read = false;
                                    return Poll::End;
                                } else {
                                    self.needs_read = true;
                                    return Poll::NeedRead;
                                }
                            }
                        },
                    }
                },
            }
        }
    }

    /// Pull the next item of the stream: a record, or one error for one
    /// skipped malformed line or failed read.  `None` means the source hit
    /// end of input and no further line remains.
    ///
    /// A read failure does not end the stream: the error is reported once
    /// with no captured line, the buffered bytes are kept, and the next
    /// pull resumes from the same position.
    pub fn next(&mut self) -> (r: Option<Result<Record, ParseError>>)
        requires
            old(self).wf(),
        ensures
            final(self).wf(),
            match r {
                None => final(self).eof(),
                Some(item) => match item {
                    Ok(rec) => rec@.keys_unique(),
                    Err(pe) => {
                        &&& ((pe.kind matches ParseErrorKind::Io(_)) <==> pe.line is None)
                        &&& ((pe.kind matches ParseErrorKind::Io(_)) ==> !final(self).eof()
                            && !old(self).eof())
                    },
                },
            },
            // When the window already decides, no read happens and the
            // item is exactly the decision on the old window.
            match spec_poll(old(self).buf_model(), old(self).pos(), old(self).eof()) {
                PollModel::Rec(rm, np) => {
                    &&& r matches Some(item)
                    &&& item matches Ok(rec)
                    &&& rec@ == rm
                    &&& final(self).pos() == np
                    &&& final(self).buf_model() == old(self).buf_model()
                    &&& final(self).eof() == old(self).eof()
                },
                PollModel::Fail(k, line, np) => {
                    &&& r matches Some(item)
                    &&& item matches Err(pe)
                    &&& pe.kind == k
                    &&& pe.line matches Some(l)
                    &&& l@ == line
                    &&& final(self).pos() == np
                    &&& final(self).buf_model() == old(self).buf_model()
                    &&& final(self).eof() == old(self).eof()
                },
                PollModel::End(p1) => {
                    &&& r is None
                    &&& final(self).pos() == p1
                    &&& final(self).buf_model() == old(self).buf_model()
                },
                PollModel::NeedRead(_) => true,
            },
    {
        let ghost mut first: bool = true;
        loop
            invariant
                self.wf(),
                self.hit_eof || !old(self).hit_eof,
                first ==> self.buf_model() == old(self).buf_model() && self.pos() == old(
                    self,
                ).pos() && self.eof() == old(self).eof(),
                !first ==> spec_poll(
                    old(self).buf_model(),
                    old(self).pos(),
                    old(self).eof(),
                ) matches PollModel::NeedRead(_),
            decreases
                self.reader.remaining(),
                (if self.hit_eof {
                    0int
                } else {
                    1int
                }),
        {
            proof {
                first = false;
            }
            match self.poll() {
                Poll::Record(rec) => {
                    return Some(Ok(rec));
                },
                Poll::Fail(pe) => {
                    return Some(Err(pe));
                },
                Poll::End => {
                    return None;
                },
                Poll::NeedRead => {
                    match self.fill_buf() {
                        Ok(()) => {
                        },
                        Err(e) => {
                            return Some(
                                Err(ParseError { line: None, kind: ParseErrorKind::Io(e) }),
                            );
                        },
                    }
                },
            }
        }
    }
}


impl Parser<crate::source::QueueSource> {
    /// Queue bytes for the refills of a parser that is fed by hand: a
    /// caller that owns the real byte source reads a chunk whenever
    /// [`poll`](Parser::poll) asks for more, queues it here, and lets
    /// [`fill_buf`](Parser::fill_buf) take it into the window.
    pub fn feed(&mut self, chunk: Vec<u8>)
        requires
            old(self).wf(),
        ensures
            final(self).wf(),
            final(self).buf_model() == old(self).buf_model(),
            final(self).pos() == old(self).pos(),
            final(self).eof() == old(self).eof(),
    {
        self.reader.push_chunk(chunk);
    }

    /// Queue one read failure, reported by the next refill.
    pub fn feed_fault(&mut self, e: IoError)
        requires
            old(self).wf(),
        ensures
            final(self).wf(),
            final(self).buf_model() == old(self).buf_model(),
            final(self).pos() == old(self).pos(),
            final(self).eof() == old(self).eof(),
    {
        self.reader.push_fault(e);
    }
}


} // verus!
