//! An incremental parser for the "logfmt" line format (`key="value" key2=v2`,
//! one record per line) together with the configuration surface of the logger
//! that writes it.
//!
//! The parser reads from a byte source in arbitrarily sized chunks, tolerates
//! malformed lines by skipping exactly the offending line, and reconstructs
//! quoted values that span several lines (for example panic backtraces).

use vstd::prelude::*;

pub mod config;
pub mod errors;
pub mod fields;
pub mod format;
pub mod laws;
pub mod num;
pub mod parser;
pub mod record;
pub mod scan;
pub mod source;
pub mod text;
pub mod time;
pub mod timestamp;

pub use config::{Config, LevelFilter, NoKvs, Targets, get_log_targets, get_max_level};
pub use errors::{ParseError, ParseErrorKind};
pub use format::{Buffer, Gcloud, Json, LogFmt, BUFS_SIZE};
pub use parser::{parse, Parser, Poll};
pub use record::{Level, Record, Timestamp, Value};
pub use source::{IoError, IoErrorKind, QueueSource, ReadEvent, ReadSource};

verus! {

/// Target for logging requests.
pub const REQUEST_TARGET: &'static str = "request";

/// Target for logging panics.
pub const PANIC_TARGET: &'static str = "panic";

} // verus!
