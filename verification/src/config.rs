//! Configuration of the logger that writes the format this crate parses:
//! the minimum severity to log, the set of targets to log, and the choice
//! of output format.
//!
//! Reading environment variables is left to the caller; the decision logic
//! on their values lives here.

use core::marker::PhantomData;
use vstd::prelude::*;
use vstd::string::StringSliceAdditionalSpecFns;
use crate::format::{Gcloud, Json, LogFmt};
use crate::num::spec_lower;
use crate::record::Level;
use crate::text::{str_eq, str_starts_with, spec_starts_with};

verus! {

/// The least severity that is logged, or `Off` for nothing at all.
#[derive(Clone, Copy, Debug, PartialEq, Eq, Structural)]
pub enum LevelFilter {
    /// Log nothing.
    Off,
    /// Log `Error` only.
    Error,
    /// Log `Warn` and above.
    Warn,
    /// Log `Info` and above.
    Info,
    /// Log `Debug` and above.
    Debug,
    /// Log everything.
    Trace,
}

impl LevelFilter {
    /// Numeric rank of the filter: the count of severities it lets through.
    pub open spec fn spec_rank(self) -> u8 {
        match self {
            LevelFilter::Off => 0,
            LevelFilter::Error => 1,
            LevelFilter::Warn => 2,
            LevelFilter::Info => 3,
            LevelFilter::Debug => 4,
            LevelFilter::Trace => 5,
        }
    }

    /// Numeric rank of the filter: the count of severities it lets through.
    #[verifier::when_used_as_spec(spec_rank)]
    pub fn rank(self) -> (r: u8)
        ensures
            r == self.spec_rank(),
    {
        match self {
            LevelFilter::Off => 0,
            LevelFilter::Error => 1,
            LevelFilter::Warn => 2,
            LevelFilter::Info => 3,
            LevelFilter::Debug => 4,
            LevelFilter::Trace => 5,
        }
    }

    /// Whether a message of severity `l` passes this filter.
    pub open spec fn spec_allows(self, l: Level) -> bool {
        match l {
            Level::Error => self.spec_rank() >= 1,
            Level::Warn => self.spec_rank() >= 2,
            Level::Info => self.spec_rank() >= 3,
            Level::Debug => self.spec_rank() >= 4,
            Level::Trace => self.spec_rank() >= 5,
        }
    }

    /// Whether a message of severity `l` passes this filter.
    #[verifier::when_used_as_spec(spec_allows)]
    pub fn allows(self, l: Level) -> (r: bool)
        ensures
            r == self.spec_allows(l),
    {
        let need: u8 = match l {
            Level::Error => 1,
            Level::Warn => 2,
            Level::Info => 3,
            Level::Debug => 4,
            Level::Trace => 5,
        };
        self.rank() >= need
    }
}

/// The filter named by the UTF-8 bytes `s`, ASCII case-insensitive: `off`,
/// `error`, `warn`, `info`, `debug` or `trace` in any casing.
pub open spec fn spec_filter_of(s: Seq<u8>) -> Option<LevelFilter> {
    if s.len() == 3 && spec_lower(s[0]) == 111 && spec_lower(s[1]) == 102 && spec_lower(s[2])
        == 102 {
        Some(LevelFilter::Off)
    } else if s.len() == 5 && spec_lower(s[0]) == 101 && spec_lower(s[1]) == 114 && spec_lower(
        s[2],
    ) == 114 && spec_lower(s[3]) == 111 && spec_lower(s[4]) == 114 {
        Some(LevelFilter::Error)
    } else if s.len() == 4 && spec_lower(s[0]) == 119 && spec_lower(s[1]) == 97 && spec_lower(
        s[2],
    ) == 114 && spec_lower(s[3]) == 110 {
        Some(LevelFilter::Warn)
    } else if s.len() == 4 && spec_lower(s[0]) == 105 && spec_lower(s[1]) == 110 && spec_lower(
        s[2],
    ) == 102 && spec_lower(s[3]) == 111 {
        Some(LevelFilter::Info)
    } else if s.len() == 5 && spec_lower(s[0]) == 100 && spec_lower(s[1]) == 101 && spec_lower(
        s[2],
    ) == 98 && spec_lower(s[3]) == 117 && spec_lower(s[4]) == 103 {
        Some(LevelFilter::Debug)
    } else if s.len() == 5 && spec_lower(s[0]) == 116 && spec_lower(s[1]) == 114 && spec_lower(
        s[2],
    ) == 97 && spec_lower(s[3]) == 99 && spec_lower(s[4]) == 101 {
        Some(LevelFilter::Trace)
    } else {
        None
    }
}

/// Parse a filter name, ASCII case-insensitive.
pub fn parse_filter(v: &str) -> (r: Option<LevelFilter>)
    ensures
        r == spec_filter_of(v.spec_bytes()),
{
    let b = v.as_bytes_vec();
    let n = b.len();
    if n == 3 {
        let b0 = crate::num::lower(b[0]);
        let b1 = crate::num::lower(b[1]);
        let b2 = crate::num::lower(b[2]);
        if b0 == 111 && b1 == 102 && b2 == 102 {
            Some(LevelFilter::Off)
        } else {
            None
        }
    } else if n == 4 {
        let b0 = crate::num::lower(b[0]);
        let b1 = crate::num::lower(b[1]);
        let b2 = crate::num::lower(b[2]);
        let b3 = crate::num::lower(b[3]);
        if b0 == 119 && b1 == 97 && b2 == 114 && b3 == 110 {
            Some(LevelFilter::Warn)
        } else if b0 == 105 && b1 == 110 && b2 == 102 && b3 == 111 {
            Some(LevelFilter::Info)
        } else {
            None
        }
    } else if n == 5 {
        let b0 = crate::num::lower(b[0]);
        let b1 = crate::num::lower(b[1]);
        let b2 = crate::num::lower(b[2]);
        let b3 = crate::num::lower(b[3]);
        let b4 = crate::num::lower(b[4]);
        if b0 == 101 && b1 == 114 && b2 == 114 && b3 == 111 && b4 == 114 {
            Some(LevelFilter::Error)
        } else if b0 == 100 && b1 == 101 && b2 == 98 && b3 == 117 && b4 == 103 {
            Some(LevelFilter::Debug)
        } else if b0 == 116 && b1 == 114 && b2 == 97 && b3 == 99 && b4 == 101 {
            Some(LevelFilter::Trace)
        } else {
            None
        }
    } else {
        None
    }
}

/// The filter chosen by the usual environment variables, handed in as plain
/// values: the first of `LOG` and `LOG_LEVEL` that names a filter wins;
/// otherwise a set `TRACE` or `DEBUG` variable picks that severity, and the
/// default is `Info`.
pub open spec fn spec_max_level(
    log: Option<Seq<u8>>,
    log_level: Option<Seq<u8>>,
    trace_set: bool,
    debug_set: bool,
) -> LevelFilter {
    if log is Some && spec_filter_of(log->Some_0) is Some {
        spec_filter_of(log->Some_0)->Some_0
    } else if log_level is Some && spec_filter_of(log_level->Some_0) is Some {
        spec_filter_of(log_level->Some_0)->Some_0
    } else if trace_set {
        LevelFilter::Trace
    } else if debug_set {
        LevelFilter::Debug
    } else {
        LevelFilter::Info
    }
}

/// Decide the maximum level to log from the values of the `LOG` and
/// `LOG_LEVEL` variables and the presence of `TRACE` and `DEBUG`.
pub fn get_max_level(
    log: Option<&str>,
    log_level: Option<&str>,
    trace_set: bool,
    debug_set: bool,
) -> (r: LevelFilter)
    ensures
        r == spec_max_level(
            match log {
                Some(v) => Some(v.spec_bytes()),
                None => None,
            },
            match log_level {
                Some(v) => Some(v.spec_bytes()),
                None => None,
            },
            trace_set,
            debug_set,
        ),
{
    if let Some(v) = log {
        if let Some(f) = parse_filter(v) {
            return f;
        }
    }
    if let Some(v) = log_level {
        if let Some(f) = parse_filter(v) {
            return f;
        }
    }
    if trace_set {
        LevelFilter::Trace
    } else if debug_set {
        LevelFilter::Debug
    } else {
        LevelFilter::Info
    }
}

/// Which logging targets are logged.
#[derive(Debug)]
pub enum Targets {
    /// Log all targets.
    All,
    /// Only log targets that start with one of these prefixes.
    Only(Vec<String>),
}

/// The target prefixes, at the specification level.
pub open spec fn targets_view(list: Seq<String>) -> Seq<Seq<char>> {
    list.map(|i: int, t: String| t@)
}

/// Whether `target` should be logged under the target set: requests and
/// panics always are; otherwise everything, or any target extending one of
/// the listed prefixes.
pub open spec fn spec_should_log(ts: Seq<Seq<char>>, all: bool, target: Seq<char>) -> bool {
    ||| target == "request"@
    ||| target == "panic"@
    ||| all
    ||| exists|i: int| 0 <= i < ts.len() && spec_starts_with(target, #[trigger] ts[i])
}

impl Targets {
    /// Returns `true` if the `target` should be logged.
    pub fn should_log(&self, target: &str) -> (r: bool)
        ensures
            r == match self {
                Targets::All => spec_should_log(Seq::empty(), true, target@),
                Targets::Only(list) => spec_should_log(targets_view(list@), false, target@),
            },
    {
        if str_eq(target, "request") || str_eq(target, "panic") {
            return true;
        }
        match self {
            Targets::All => true,
            Targets::Only(list) => {
                let ghost ts = targets_view(list@);
                let n = list.len();
                let mut i: usize = 0;
                let mut found = false;
                while i < n && !found
                    invariant
                        n == list@.len(),
                        ts == targets_view(list@),
                        0 <= i <= n,
                        found ==> exists|j: int|
                            0 <= j < n && spec_starts_with(target@, #[trigger] ts[j]),
                        !found ==> forall|j: int|
                            0 <= j < i ==> !spec_starts_with(target@, #[trigger] ts[j]),
                    decreases
                        n - i,
                        (if found {
                            0int
                        } else {
                            1int
                        }),
                {
                    proof {
                        assert(ts[i as int] == list@[i as int]@);
                    }
                    if str_starts_with(target, list[i].as_str()) {
                        found = true;
                    } else {
                        i = i + 1;
                    }
                }
                found
            },
        }
    }
}

/// Position of the first `,` at or after `i`, or the end.
pub open spec fn spec_first_comma(s: Seq<char>, i: int) -> int
    recommends
        0 <= i <= s.len(),
    decreases s.len() - i when 0 <= i <= s.len()
{
    if i >= s.len() {
        i
    } else if s[i] == ',' {
        i
    } else {
        spec_first_comma(s, i + 1)
    }
}

pub proof fn lemma_first_comma(s: Seq<char>, i: int)
    requires
        0 <= i <= s.len(),
    ensures
        i <= spec_first_comma(s, i) <= s.len(),
        spec_first_comma(s, i) < s.len() ==> s[spec_first_comma(s, i)] == ',',
        forall|j: int| i <= j < spec_first_comma(s, i) ==> #[trigger] s[j] != ',',
    decreases s.len() - i,
{
    if i < s.len() && s[i] != ',' {
        lemma_first_comma(s, i + 1);
    }
}

/// The comma-separated pieces of the characters from `i` on: every `,`
/// starts a new piece, and empty pieces are kept.
pub open spec fn spec_split_from(s: Seq<char>, i: int) -> Seq<Seq<char>>
    recommends
        0 <= i <= s.len(),
    decreases s.len() - i when 0 <= i <= s.len() via spec_split_from_decreases
{
    let c = spec_first_comma(s, i);
    if c >= s.len() {
        seq![s.subrange(i, s.len() as int)]
    } else {
        seq![s.subrange(i, c)] + spec_split_from(s, c + 1)
    }
}

#[via_fn]
proof fn spec_split_from_decreases(s: Seq<char>, i: int) {
    lemma_first_comma(s, i);
}

/// The target set chosen by the `LOG_TARGET` variable, handed in as a plain
/// value: a missing or empty value logs all targets, anything else logs the
/// comma-separated prefixes it lists.
pub open spec fn spec_log_targets(value: Option<Seq<char>>) -> Option<Seq<Seq<char>>> {
    match value {
        Some(s) => if s.len() > 0 {
            Some(spec_split_from(s, 0))
        } else {
            None
        },
        None => None,
    }
}

/// Decide the targets to log from the value of the `LOG_TARGET` variable:
/// missing or empty logs everything, otherwise the comma-separated list of
/// target prefixes it holds.
pub fn get_log_targets(value: Option<&str>) -> (r: Targets)
    ensures
        match r {
            Targets::All => spec_log_targets(
                match value {
                    Some(v) => Some(v@),
                    None => None,
                },
            ) is None,
            Targets::Only(list) => {
                &&& spec_log_targets(
                    match value {
                        Some(v) => Some(v@),
                        None => None,
                    },
                ) == Some(targets_view(list@))
            },
        },
{
    let v = match value {
        Some(v) => v,
        None => {
            return Targets::All;
        },
    };
    let n = v.unicode_len();
    if n == 0 {
        return Targets::All;
    }
    let ghost s = v@;
    let ghost pieces = spec_split_from(s, 0);
    let mut list: Vec<String> = Vec::new();
    let mut start: usize = 0;
    proof {
        assert(targets_view(list@) + spec_split_from(s, 0) =~~= pieces);
    }
    loop
        invariant
            n == s.len(),
            s == v@,
            0 < n,
            ({
                match value {
                    Some(v0) => v0@ == s,
                    None => false,
                }
            }),
            pieces == spec_split_from(s, 0),
            start <= n,
            targets_view(list@) + spec_split_from(s, start as int) == pieces,
        decreases n - start,
    {
        let mut j: usize = start;
        while j < n && v.get_char(j) != ','
            invariant
                start <= j <= n,
                n == s.len(),
                s == v@,
                spec_first_comma(s, start as int) == spec_first_comma(s, j as int),
            decreases n - j,
        {
            j = j + 1;
        }
        proof {
            assert(spec_first_comma(s, start as int) == j as int);
        }
        let piece = v.substring_char(start, j).to_owned();
        let ghost before = targets_view(list@);
        list.push(piece);
        proof {
            assert(targets_view(list@) =~~= before.push(s.subrange(start as int, j as int)));
        }
        if j == n {
            proof {
                assert(spec_split_from(s, start as int) =~~= seq![
                    s.subrange(start as int, s.len() as int),
                ]);
                assert(targets_view(list@) =~~= before + seq![
                    s.subrange(start as int, j as int),
                ]);
                assert(targets_view(list@) =~~= pieces);
            }
            return Targets::Only(list);
        }
        proof {
            lemma_first_comma(s, start as int);
            assert(spec_split_from(s, start as int) == seq![s.subrange(start as int, j as int)]
                + spec_split_from(s, j + 1));
            assert(targets_view(list@) + spec_split_from(s, j + 1) =~~= before + (seq![
                s.subrange(start as int, j as int),
            ] + spec_split_from(s, j + 1)));
        }
        start = j + 1;
    }
}

/// No initial key-values.
#[derive(Debug)]
pub struct NoKvs;

/// Configuration of the logger that writes this format.
///
/// A configuration starts from one of the three formats —
/// [`logfmt`](Config::logfmt), [`json`](Config::json) or
/// [`gcloud`](Config::gcloud) — and is adjusted with the `with_` methods.
/// Reading the environment is the caller's business: the decisions on the
/// read values live in [`get_max_level`] and [`get_log_targets`].
#[derive(Debug)]
pub struct Config<F, Kvs> {
    filter: LevelFilter,
    add_loc: Option<bool>,
    targets: Targets,
    kvs: Kvs,
    _format: PhantomData<F>,
}

impl Config<(), NoKvs> {
    /// Logfmt following <https://www.brandur.org/logfmt>.
    pub fn logfmt() -> (r: Config<LogFmt, NoKvs>)
        ensures
            r.filter_of() == LevelFilter::Info,
            r.add_loc_of() is None,
            r.targets_of() matches Targets::All,
    {
        Config::new(NoKvs)
    }

    /// Structured logging using JSON.
    pub fn json() -> (r: Config<Json, NoKvs>)
        ensures
            r.filter_of() == LevelFilter::Info,
            r.add_loc_of() is None,
            r.targets_of() matches Targets::All,
    {
        Config::new(NoKvs)
    }

    /// Google Cloud Platform structured logging using JSON, following
    /// <https://cloud.google.com/logging/docs/structured-logging>.
    pub fn gcloud() -> (r: Config<Gcloud, NoKvs>)
        ensures
            r.filter_of() == LevelFilter::Info,
            r.add_loc_of() is None,
            r.targets_of() matches Targets::All,
    {
        Config::new(NoKvs)
    }
}

impl<F, Kvs> Config<F, Kvs> {
    /// The configured filter.
    pub closed spec fn filter_of(&self) -> LevelFilter {
        self.filter
    }

    /// The configured choice on logging call locations, when one was made.
    pub closed spec fn add_loc_of(&self) -> Option<bool> {
        self.add_loc
    }

    /// The configured target set.
    pub closed spec fn targets_of(&self) -> Targets {
        self.targets
    }

    /// The configured initial key-values.
    pub closed spec fn kvs_of(&self) -> Kvs {
        self.kvs
    }

    fn new(kvs: Kvs) -> (r: Config<F, Kvs>)
        ensures
            r.filter_of() == LevelFilter::Info,
            r.add_loc_of() is None,
            r.targets_of() matches Targets::All,
            r.kvs_of() == kvs,
    {
        Config {
            filter: LevelFilter::Info,
            add_loc: None,
            targets: Targets::All,
            kvs,
            _format: PhantomData,
        }
    }

    /// Add the key-values `kvs` to all logged messages.
    pub fn with_kvs<K>(self, kvs: K) -> (r: Config<F, K>)
        ensures
            r.filter_of() == self.filter_of(),
            r.add_loc_of() == self.add_loc_of(),
            r.targets_of() == self.targets_of(),
            r.kvs_of() == kvs,
    {
        Config {
            filter: self.filter,
            add_loc: self.add_loc,
            targets: self.targets,
            kvs,
            _format: PhantomData,
        }
    }

    /// Enable or disable logging of the call location.
    ///
    /// Defaults to enabled if the debug (or lower) messages are enabled.
    pub fn with_call_location(self, enable: bool) -> (r: Config<F, Kvs>)
        ensures
            r.filter_of() == self.filter_of(),
            r.add_loc_of() == Some(enable),
            r.targets_of() == self.targets_of(),
            r.kvs_of() == self.kvs_of(),
    {
        Config {
            filter: self.filter,
            add_loc: Some(enable),
            targets: self.targets,
            kvs: self.kvs,
            _format: self._format,
        }
    }

    /// Set the maximum severity to log, for example one decided from the
    /// environment by [`get_max_level`].
    pub fn with_max_level(self, filter: LevelFilter) -> (r: Config<F, Kvs>)
        ensures
            r.filter_of() == filter,
            r.add_loc_of() == self.add_loc_of(),
            r.targets_of() == self.targets_of(),
            r.kvs_of() == self.kvs_of(),
    {
        Config {
            filter,
            add_loc: self.add_loc,
            targets: self.targets,
            kvs: self.kvs,
            _format: self._format,
        }
    }

    /// Set the targets to log, for example ones decided from the
    /// environment by [`get_log_targets`].
    pub fn with_log_targets(self, targets: Targets) -> (r: Config<F, Kvs>)
        ensures
            r.filter_of() == self.filter_of(),
            r.add_loc_of() == self.add_loc_of(),
            r.targets_of() == targets,
            r.kvs_of() == self.kvs_of(),
    {
        Config {
            filter: self.filter,
            add_loc: self.add_loc,
            targets,
            kvs: self.kvs,
            _format: self._format,
        }
    }

    /// Take the configuration apart for a logger to consume: the filter,
    /// whether call locations are logged (the explicit choice, or on
    /// exactly when debug messages pass the filter), the targets, and the
    /// initial key-values.
    pub fn into_parts(self) -> (r: (LevelFilter, bool, Targets, Kvs))
        ensures
            r.0 == self.filter_of(),
            r.1 == match self.add_loc_of() {
                Some(b) => b,
                None => self.filter_of().spec_rank() >= 4,
            },
            r.2 == self.targets_of(),
            r.3 == self.kvs_of(),
    {
        let add_loc = match self.add_loc {
            Some(b) => b,
            None => self.filter.rank() >= 4,
        };
        (self.filter, add_loc, self.targets, self.kvs)
    }
}

} // verus!
