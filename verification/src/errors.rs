//! The errors the parser reports, one per skipped line or failed read.

use vstd::prelude::*;
use crate::source::IoError;

verus! {

/// Why a line (or a read) was rejected.
#[derive(Debug)]
pub enum ParseErrorKind {
    /// Key contains invalid UTF-8.
    KeyInvalidUt8,
    /// Timestamp (key `ts`) is invalid.
    InvalidTimestamp,
    /// Log level (key `lvl`) is not valid.
    InvalidLevel,
    /// File and line number from where the message originated (key `file`)
    /// is invalid.
    InvalidFile,
    /// A value contains invalid UTF-8.
    InvalidValue,
    /// The byte source failed.
    Io(IoError),
}

impl PartialEq for ParseErrorKind {
    /// Two I/O errors are equal only when both carry the same operating
    /// system error code; the other kinds are equal by variant alone.
    fn eq(&self, other: &ParseErrorKind) -> (r: bool) {
        match (self, other) {
            (ParseErrorKind::KeyInvalidUt8, ParseErrorKind::KeyInvalidUt8) => true,
            (ParseErrorKind::InvalidTimestamp, ParseErrorKind::InvalidTimestamp) => true,
            (ParseErrorKind::InvalidLevel, ParseErrorKind::InvalidLevel) => true,
            (ParseErrorKind::InvalidFile, ParseErrorKind::InvalidFile) => true,
            (ParseErrorKind::InvalidValue, ParseErrorKind::InvalidValue) => true,
            (ParseErrorKind::Io(a), ParseErrorKind::Io(b)) => match (a.raw_os_error, b.raw_os_error) {
                (Some(x), Some(y)) => x == y,
                _ => false,
            },
            _ => false,
        }
    }
}

impl vstd::std_specs::cmp::PartialEqSpecImpl for ParseErrorKind {
    open spec fn obeys_eq_spec() -> bool {
        true
    }

    open spec fn eq_spec(&self, other: &ParseErrorKind) -> bool {
        match (self, other) {
            (ParseErrorKind::KeyInvalidUt8, ParseErrorKind::KeyInvalidUt8) => true,
            (ParseErrorKind::InvalidTimestamp, ParseErrorKind::InvalidTimestamp) => true,
            (ParseErrorKind::InvalidLevel, ParseErrorKind::InvalidLevel) => true,
            (ParseErrorKind::InvalidFile, ParseErrorKind::InvalidFile) => true,
            (ParseErrorKind::InvalidValue, ParseErrorKind::InvalidValue) => true,
            (ParseErrorKind::Io(a), ParseErrorKind::Io(b)) => match (a.raw_os_error, b.raw_os_error) {
                (Some(x), Some(y)) => x == y,
                _ => false,
            },
            _ => false,
        }
    }
}

/// An error returned by the parser.
#[derive(Debug)]
pub struct ParseError {
    /// The raw bytes of the line in which the error occurred, quote-aware so
    /// a malformed multi-line quoted value is captured whole.  `None` only
    /// for I/O errors.
    pub line: Option<Vec<u8>>,
    /// Error detail.
    pub kind: ParseErrorKind,
}

} // verus!
