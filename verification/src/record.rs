//! The decoded data model: one log record per line.

use vstd::prelude::*;

verus! {

/// Severity of a log record, ordered `Trace < Debug < Info < Warn < Error`.
#[derive(Clone, Copy, Debug, PartialEq, Eq, Structural)]
pub enum Level {
    /// Most verbose.
    Trace,
    /// Debugging aid.
    Debug,
    /// Ordinary operation.
    Info,
    /// Something looks wrong.
    Warn,
    /// Something failed.
    Error,
}

impl Level {
    /// Numeric rank of the severity, `Error` highest.
    pub open spec fn spec_rank(self) -> u8 {
        match self {
            Level::Trace => 1,
            Level::Debug => 2,
            Level::Info => 3,
            Level::Warn => 4,
            Level::Error => 5,
        }
    }

    /// Numeric rank of the severity, `Error` highest.
    #[verifier::when_used_as_spec(spec_rank)]
    pub fn rank(self) -> (r: u8)
        ensures
            r == self.spec_rank(),
    {
        match self {
            Level::Trace => 1,
            Level::Debug => 2,
            Level::Info => 3,
            Level::Warn => 4,
            Level::Error => 5,
        }
    }
}

/// A point in time: whole seconds relative to the Unix epoch, plus the
/// sub-second field exactly as it appeared on the wire.
///
/// The wire format carries six fractional digits; the writer produces
/// microseconds there, and this parser stores the parsed six-digit number
/// without rescaling it, as the source it mirrors did.
#[derive(Clone, Copy, Debug, PartialEq, Eq, Structural)]
pub struct Timestamp {
    /// Seconds since the Unix epoch (negative before it).
    pub secs: i64,
    /// The parsed six-digit sub-second field, below one million.
    pub nanos: u32,
}

/// A value attached to an unrecognised key, inferred on a best-effort basis:
/// boolean literal first, then integer, then floating-point syntax, with a
/// plain string as the fallback.
///
/// A value with floating-point syntax is kept as its exact source text
/// rather than converted to a machine float, so nothing is rounded away.
#[derive(Debug)]
pub enum Value {
    /// `true` or `false`.
    Bool(bool),
    /// A decimal integer in range of `i64`.
    Int(i64),
    /// Text with floating-point syntax, kept verbatim.
    Float(String),
    /// Any other text.
    String(String),
}

/// The mathematical image of a [`Value`].
#[verifier::ext_equal]
pub enum ValueModel {
    /// `true` or `false`.
    Bool(bool),
    /// A decimal integer in range of `i64`.
    Int(i64),
    /// Characters of text with floating-point syntax.
    Float(Seq<char>),
    /// Characters of any other text.
    Text(Seq<char>),
}

impl View for Value {
    type V = ValueModel;

    open spec fn view(&self) -> ValueModel {
        match self {
            Value::Bool(b) => ValueModel::Bool(*b),
            Value::Int(i) => ValueModel::Int(*i),
            Value::Float(s) => ValueModel::Float(s@),
            Value::String(s) => ValueModel::Text(s@),
        }
    }
}

impl PartialEq for Value {
    fn eq(&self, other: &Value) -> (r: bool) {
        match (self, other) {
            (Value::Bool(a), Value::Bool(b)) => *a == *b,
            (Value::Int(a), Value::Int(b)) => *a == *b,
            (Value::Float(a), Value::Float(b)) => *a == *b,
            (Value::String(a), Value::String(b)) => *a == *b,
            _ => false,
        }
    }
}

impl vstd::std_specs::cmp::PartialEqSpecImpl for Value {
    open spec fn obeys_eq_spec() -> bool {
        true
    }

    open spec fn eq_spec(&self, other: &Value) -> bool {
        self@ == other@
    }
}

/// One decoded log line.
#[derive(Debug)]
pub struct Record {
    /// Timestamp in UTC (key `ts`).
    pub timestamp: Option<Timestamp>,
    /// Severity (key `lvl`).
    pub level: Level,
    /// Log message (key `msg`).
    pub msg: String,
    /// Target of the message (key `target`).
    pub target: String,
    /// Module that logged the message (key `module`).
    pub module: Option<String>,
    /// File and line number the message originated from (key `file`).
    pub file: Option<(String, u32)>,
    /// All other key-value pairs of the line, keys unique, a later
    /// occurrence of a key overwriting an earlier one.
    pub key_values: Vec<(String, Value)>,
}

/// The pair list seen at the specification level.
pub open spec fn kv_view(kvs: Seq<(String, Value)>) -> Seq<(Seq<char>, ValueModel)> {
    kvs.map(|i: int, p: (String, Value)| (p.0@, p.1@))
}

/// The mathematical image of a [`Record`].
#[verifier::ext_equal]
pub struct RecordModel {
    /// Timestamp in UTC.
    pub timestamp: Option<Timestamp>,
    /// Severity.
    pub level: Level,
    /// Characters of the message.
    pub msg: Seq<char>,
    /// Characters of the target.
    pub target: Seq<char>,
    /// Characters of the module, when one was given and non-empty.
    pub module: Option<Seq<char>>,
    /// Characters of the file path, and the line number.
    pub file: Option<(Seq<char>, u32)>,
    /// The other key-value pairs, in the order their keys first appeared.
    pub key_values: Seq<(Seq<char>, ValueModel)>,
}

impl RecordModel {
    /// The record with every field at its default.
    pub open spec fn empty() -> RecordModel {
        RecordModel {
            timestamp: None,
            level: Level::Info,
            msg: Seq::empty(),
            target: Seq::empty(),
            module: None,
            file: None,
            key_values: Seq::empty(),
        }
    }

    /// No two extra pairs share a key.
    pub open spec fn keys_unique(self) -> bool {
        forall|i: int, j: int|
            0 <= i < j < self.key_values.len() ==> #[trigger] self.key_values[i].0
                != #[trigger] self.key_values[j].0
    }
}

impl View for Record {
    type V = RecordModel;

    open spec fn view(&self) -> RecordModel {
        RecordModel {
            timestamp: self.timestamp,
            level: self.level,
            msg: self.msg@,
            target: self.target@,
            module: match self.module {
                Some(ref m) => Some(m@),
                None => None,
            },
            file: match self.file {
                Some((ref p, l)) => Some((p@, l)),
                None => None,
            },
            key_values: kv_view(self.key_values@),
        }
    }
}

impl Record {
    /// A record with every field at its default: no timestamp, level
    /// `Info`, empty message and target, no module, no file, no extra pairs.
    pub fn empty() -> (r: Record)
        ensures
            r@ == RecordModel::empty(),
    {
        let r = Record {
            timestamp: None,
            level: Level::Info,
            msg: String::new(),
            target: String::new(),
            module: None,
            file: None,
            key_values: Vec::new(),
        };
        proof {
            assert(r@ =~= RecordModel::empty());
        }
        r
    }
}

impl PartialEq for Record {
    fn eq(&self, other: &Record) -> (r: bool) {
        let ts_eq = match (self.timestamp, other.timestamp) {
            (None, None) => true,
            (Some(a), Some(b)) => a == b,
            _ => false,
        };
        if !ts_eq {
            proof {
                assert(self@ != other@);
            }
            return false;
        }
        if self.level != other.level {
            proof {
                assert(self@ != other@);
            }
            return false;
        }
        if !(self.msg == other.msg) || !(self.target == other.target) {
            proof {
                assert(self@ != other@);
            }
            return false;
        }
        let module_eq = match (&self.module, &other.module) {
            (None, None) => true,
            (Some(a), Some(b)) => *a == *b,
            _ => false,
        };
        if !module_eq {
            proof {
                assert(self@ != other@);
            }
            return false;
        }
        let file_eq = match (&self.file, &other.file) {
            (None, None) => true,
            (Some((ap, al)), Some((bp, bl))) => *ap == *bp && *al == *bl,
            _ => false,
        };
        if !file_eq {
            proof {
                assert(self@ != other@);
            }
            return false;
        }
        if self.key_values.len() != other.key_values.len() {
            proof {
                assert(self@.key_values.len() != other@.key_values.len());
            }
            return false;
        }
        let n = self.key_values.len();
        let mut i: usize = 0;
        while i < n
            invariant
                n == self.key_values@.len(),
                n == other.key_values@.len(),
                0 <= i <= n,
                forall|j: int| 0 <= j < i ==> #[trigger] self@.key_values[j]
                    == other@.key_values[j],
            decreases n - i,
        {
            let (ka, va) = &self.key_values[i];
            let (kb, vb) = &other.key_values[i];
            proof {
                assert(self@.key_values[i as int] == (self.key_values@[i as int].0@, self.key_values@[i as int].1@));
                assert(other@.key_values[i as int] == (other.key_values@[i as int].0@, other.key_values@[i as int].1@));
            }
            if !(*ka == *kb) || !(*va == *vb) {
                return false;
            }
            i = i + 1;
        }
        proof {
            assert(self@.key_values =~= other@.key_values);
            assert(self@ =~= other@);
        }
        true
    }
}

impl vstd::std_specs::cmp::PartialEqSpecImpl for Record {
    open spec fn obeys_eq_spec() -> bool {
        true
    }

    open spec fn eq_spec(&self, other: &Record) -> bool {
        self@ == other@
    }
}

} // verus!
