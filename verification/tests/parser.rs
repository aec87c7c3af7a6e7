use std_logger::{parse, IoError, IoErrorKind, Level, ParseErrorKind, QueueSource, Record, Timestamp, Value};

const BUF_SIZE: usize = 4096;

fn source_of(chunks: &[&[u8]]) -> QueueSource {
    let mut src = QueueSource::new();
    for chunk in chunks {
        src.push_chunk(chunk.to_vec());
    }
    src
}

fn test_parser(logs: QueueSource, expected: Vec<Record>) {
    let mut got = parse(logs);
    let mut expected = expected.into_iter();
    loop {
        match (got.next(), expected.next()) {
            (Some(got), Some(expected)) => {
                assert_eq!(got.expect("unexpected parsing error"), expected)
            }
            (Some(got), None) => panic!("unexpected additional record: {:?}", got),
            (None, Some(record)) => {
                panic!("missing records: {:?}, {:?}", record, expected.as_slice())
            }
            (None, None) => break,
        }
    }
}

fn new_record(
    timestamp: Option<Timestamp>,
    level: Level,
    msg: &str,
    target: &str,
    module: Option<&str>,
    file: Option<(&str, u32)>,
    key_values: Vec<(&str, Value)>,
) -> Record {
    let mut record = Record::empty();
    record.timestamp = timestamp;
    record.level = level;
    record.msg = msg.to_owned();
    record.target = target.to_owned();
    record.module = module.map(|m| m.to_owned());
    record.file = file.map(|(f, l)| (f.to_owned(), l));
    record.key_values = key_values
        .into_iter()
        .map(|(k, v)| (k.to_owned(), v))
        .collect();
    record
}

/// The instant `2021-02-23T13:15:48.624447Z`.
fn timestamp_a() -> Timestamp {
    Timestamp {
        secs: 1614086148,
        nanos: 624447,
    }
}

/// The instant `2021-02-23T13:16:09.576227Z`.
fn timestamp_b() -> Timestamp {
    Timestamp {
        secs: 1614086169,
        nanos: 576227,
    }
}

const BACKTRACE: &str = "   0: std::backtrace_rs::backtrace::libunwind::trace\n             at /rustc/a143517d44cac50b20cbd3a0b579addab40dd399/library/std/src/../../backtrace/src/backtrace/libunwind.rs:90:5\n      std::backtrace_rs::backtrace::trace_unsynchronized\n             at /rustc/a143517d44cac50b20cbd3a0b579addab40dd399/library/std/src/../../backtrace/src/backtrace/mod.rs:66:5\n      std::backtrace::Backtrace::create\n             at /rustc/a143517d44cac50b20cbd3a0b579addab40dd399/library/std/src/backtrace.rs:327:13\n   1: std::backtrace::Backtrace::force_capture\n             at /rustc/a143517d44cac50b20cbd3a0b579addab40dd399/library/std/src/backtrace.rs:310:9\n   2: std_logger::log_panic\n             at ./src/lib.rs:346:21\n   3: core::ops::function::Fn::call\n             at /Users/thomas/.rustup/toolchains/nightly-x86_64-apple-darwin/lib/rustlib/src/rust/library/core/src/ops/function.rs:70:5\n   4: std::panicking::rust_panic_with_hook\n             at /rustc/a143517d44cac50b20cbd3a0b579addab40dd399/library/std/src/panicking.rs:595:17\n   5: std::panicking::begin_panic::{{closure}}\n             at /Users/thomas/.rustup/toolchains/nightly-x86_64-apple-darwin/lib/rustlib/src/rust/library/std/src/panicking.rs:520:9\n   6: std::sys_common::backtrace::__rust_end_short_backtrace\n             at /Users/thomas/.rustup/toolchains/nightly-x86_64-apple-darwin/lib/rustlib/src/rust/library/std/src/sys_common/backtrace.rs:141:18\n   7: std::panicking::begin_panic\n             at /Users/thomas/.rustup/toolchains/nightly-x86_64-apple-darwin/lib/rustlib/src/rust/library/std/src/panicking.rs:519:12\n   8: panic::main\n             at ./examples/panic.rs:15:5\n   9: core::ops::function::FnOnce::call_once\n             at /Users/thomas/.rustup/toolchains/nightly-x86_64-apple-darwin/lib/rustlib/src/rust/library/core/src/ops/function.rs:227:5\n  10: std::sys_common::backtrace::__rust_begin_short_backtrace\n             at /Users/thomas/.rustup/toolchains/nightly-x86_64-apple-darwin/lib/rustlib/src/rust/library/std/src/sys_common/backtrace.rs:125:18\n  11: std::rt::lang_start::{{closure}}\n             at /Users/thomas/.rustup/toolchains/nightly-x86_64-apple-darwin/lib/rustlib/src/rust/library/std/src/rt.rs:66:18\n  12: core::ops::function::impls::<impl core::ops::function::FnOnce<A> for &F>::call_once\n             at /rustc/a143517d44cac50b20cbd3a0b579addab40dd399/library/core/src/ops/function.rs:259:13\n      std::panicking::try::do_call\n             at /rustc/a143517d44cac50b20cbd3a0b579addab40dd399/library/std/src/panicking.rs:379:40\n      std::panicking::try\n             at /rustc/a143517d44cac50b20cbd3a0b579addab40dd399/library/std/src/panicking.rs:343:19\n      std::panic::catch_unwind\n             at /rustc/a143517d44cac50b20cbd3a0b579addab40dd399/library/std/src/panic.rs:431:14\n      std::rt::lang_start_internal\n             at /rustc/a143517d44cac50b20cbd3a0b579addab40dd399/library/std/src/rt.rs:51:25\n  13: std::rt::lang_start\n             at /Users/thomas/.rustup/toolchains/nightly-x86_64-apple-darwin/lib/rustlib/src/rust/library/std/src/rt.rs:65:5\n  14: _main\n";

#[test]
fn smoke() {
    let lines: &[&[u8]] = &[
        // Quoted values.
        b"ts=\"2021-02-23T13:15:48.624447Z\" lvl=\"INFO\" msg=\"Hello world\" target=\"target\" module=\"module\"\n",
        // Naked values.
        b"ts=2021-02-23T13:15:48.624447Z lvl=INFO msg=Hello target=target module=module\n",
        // File.
        b"ts=2021-02-23T13:15:48.624447Z lvl=warn msg=with_file target=key_value module=key_value file=some_file.rs:123\n",
        // No module.
        b"ts=2021-02-23T13:15:48.624447Z lvl=Error msg=\"No module\" target=target\n",
        // Nested quote.
        b"ts=2021-02-23T13:15:48.624447Z lvl=TraCE msg=\"Some \"great\" message\" target=  target  \n",
        // Key-value pairs.
        b"ts=2021-02-23T13:15:48.624447Z lvl=DEBUG msg=\"key value pairs\" target=key_value module=key_value key1=value1 \"key2\"=\"value2\" key3  = 3  key4=-4 \"key5\"   = 5.0   key6=true key7=false\n",
        // Panic with backtrace, multi-line quoted values.
        b"ts=\"2021-02-23T13:16:09.576227Z\" lvl=\"ERROR\" msg=\"thread 'main' panicked at 'oops', examples/panic.rs:15\" target=\"panic\" module=\"\" backtrace=\"   0: std::backtrace_rs::backtrace::libunwind::trace\n             at /rustc/a143517d44cac50b20cbd3a0b579addab40dd399/library/std/src/../../backtrace/src/backtrace/libunwind.rs:90:5\n      std::backtrace_rs::backtrace::trace_unsynchronized\n             at /rustc/a143517d44cac50b20cbd3a0b579addab40dd399/library/std/src/../../backtrace/src/backtrace/mod.rs:66:5\n      std::backtrace::Backtrace::create\n             at /rustc/a143517d44cac50b20cbd3a0b579addab40dd399/library/std/src/backtrace.rs:327:13\n   1: std::backtrace::Backtrace::force_capture\n             at /rustc/a143517d44cac50b20cbd3a0b579addab40dd399/library/std/src/backtrace.rs:310:9\n   2: std_logger::log_panic\n             at ./src/lib.rs:346:21\n   3: core::ops::function::Fn::call\n             at /Users/thomas/.rustup/toolchains/nightly-x86_64-apple-darwin/lib/rustlib/src/rust/library/core/src/ops/function.rs:70:5\n   4: std::panicking::rust_panic_with_hook\n             at /rustc/a143517d44cac50b20cbd3a0b579addab40dd399/library/std/src/panicking.rs:595:17\n   5: std::panicking::begin_panic::{{closure}}\n             at /Users/thomas/.rustup/toolchains/nightly-x86_64-apple-darwin/lib/rustlib/src/rust/library/std/src/panicking.rs:520:9\n   6: std::sys_common::backtrace::__rust_end_short_backtrace\n             at /Users/thomas/.rustup/toolchains/nightly-x86_64-apple-darwin/lib/rustlib/src/rust/library/std/src/sys_common/backtrace.rs:141:18\n   7: std::panicking::begin_panic\n             at /Users/thomas/.rustup/toolchains/nightly-x86_64-apple-darwin/lib/rustlib/src/rust/library/std/src/panicking.rs:519:12\n   8: panic::main\n             at ./examples/panic.rs:15:5\n   9: core::ops::function::FnOnce::call_once\n             at /Users/thomas/.rustup/toolchains/nightly-x86_64-apple-darwin/lib/rustlib/src/rust/library/core/src/ops/function.rs:227:5\n  10: std::sys_common::backtrace::__rust_begin_short_backtrace\n             at /Users/thomas/.rustup/toolchains/nightly-x86_64-apple-darwin/lib/rustlib/src/rust/library/std/src/sys_common/backtrace.rs:125:18\n  11: std::rt::lang_start::{{closure}}\n             at /Users/thomas/.rustup/toolchains/nightly-x86_64-apple-darwin/lib/rustlib/src/rust/library/std/src/rt.rs:66:18\n  12: core::ops::function::impls::<impl core::ops::function::FnOnce<A> for &F>::call_once\n             at /rustc/a143517d44cac50b20cbd3a0b579addab40dd399/library/core/src/ops/function.rs:259:13\n      std::panicking::try::do_call\n             at /rustc/a143517d44cac50b20cbd3a0b579addab40dd399/library/std/src/panicking.rs:379:40\n      std::panicking::try\n             at /rustc/a143517d44cac50b20cbd3a0b579addab40dd399/library/std/src/panicking.rs:343:19\n      std::panic::catch_unwind\n             at /rustc/a143517d44cac50b20cbd3a0b579addab40dd399/library/std/src/panic.rs:431:14\n      std::rt::lang_start_internal\n             at /rustc/a143517d44cac50b20cbd3a0b579addab40dd399/library/std/src/rt.rs:51:25\n  13: std::rt::lang_start\n             at /Users/thomas/.rustup/toolchains/nightly-x86_64-apple-darwin/lib/rustlib/src/rust/library/std/src/rt.rs:65:5\n  14: _main\n\"\n",
        // No timestamp.
        b"lvl=\"INFO\" msg=\"Hello world\" \n",
    ];

    let expected = vec![
        new_record(
            Some(timestamp_a()),
            Level::Info,
            "Hello world",
            "target",
            Some("module"),
            None,
            Vec::new(),
        ),
        new_record(
            Some(timestamp_a()),
            Level::Info,
            "Hello",
            "target",
            Some("module"),
            None,
            Vec::new(),
        ),
        new_record(
            Some(timestamp_a()),
            Level::Warn,
            "with_file",
            "key_value",
            Some("key_value"),
            Some(("some_file.rs", 123)),
            Vec::new(),
        ),
        new_record(
            Some(timestamp_a()),
            Level::Error,
            "No module",
            "target",
            None,
            None,
            Vec::new(),
        ),
        new_record(
            Some(timestamp_a()),
            Level::Trace,
            "Some \"great\" message",
            "target",
            None,
            None,
            Vec::new(),
        ),
        new_record(
            Some(timestamp_a()),
            Level::Debug,
            "key value pairs",
            "key_value",
            Some("key_value"),
            None,
            vec![
                ("key1", Value::String("value1".to_owned())),
                ("key2", Value::String("value2".to_owned())),
                ("key3", Value::Int(3)),
                ("key4", Value::Int(-4)),
                ("key5", Value::Float("5.0".to_owned())),
                ("key6", Value::Bool(true)),
                ("key7", Value::Bool(false)),
            ],
        ),
        new_record(
            Some(timestamp_b()),
            Level::Error,
            "thread 'main' panicked at 'oops', examples/panic.rs:15",
            "panic",
            None,
            None,
            vec![("backtrace", Value::String(BACKTRACE.to_owned()))],
        ),
        new_record(
            None,
            Level::Info,
            "Hello world",
            "",
            None,
            None,
            Vec::new(),
        ),
    ];
    test_parser(source_of(lines), expected);
}

#[test]
fn no_new_line() {
    let logs: &[&[u8]] = &[b"ts=\"2021-02-23T13:15:48.624447Z\" lvl=\"INFO\" msg=\"Hello world\" target=\"key_value\" module=\"key_value\""];
    let expected = vec![new_record(
        Some(timestamp_a()),
        Level::Info,
        "Hello world",
        "key_value",
        Some("key_value"),
        None,
        Vec::new(),
    )];
    test_parser(source_of(logs), expected);
}

#[test]
fn ignore_whitespace() {
    let logs: &[&[u8]] = &[b"  \n\n  \n"];
    let expected = Vec::new();
    test_parser(source_of(logs), expected);
}

#[test]
fn partial_input_key() {
    let mut logs = Vec::with_capacity(BUF_SIZE + 200);
    // Make sure the log is partially read, split the `msg` key.
    logs.resize(BUF_SIZE - 46, b' ');
    logs.extend_from_slice(b"ts=\"2021-02-23T13:15:48.624447Z\" lvl=\"INFO\" msg=\"Hello world\" target=\"key_value\" module=\"key_value\"");
    assert_eq!(&logs[BUF_SIZE - 2..BUF_SIZE], b"ms");

    let expected = vec![new_record(
        Some(timestamp_a()),
        Level::Info,
        "Hello world",
        "key_value",
        Some("key_value"),
        None,
        Vec::new(),
    )];
    test_parser(source_of(&[&logs]), expected);
}

#[test]
fn partial_input_value() {
    let mut logs = Vec::with_capacity(BUF_SIZE + 200);
    // Make sure the log is partially read, split the `msg` value.
    logs.resize(BUF_SIZE - 59, b' ');
    logs.extend_from_slice(b"ts=\"2021-02-23T13:15:48.624447Z\" lvl=\"INFO\" msg=\"Hello world\" target=\"key_value\" module=\"key_value\"");
    assert_eq!(&logs[BUF_SIZE - 4..BUF_SIZE], b"worl");

    let expected = vec![new_record(
        Some(timestamp_a()),
        Level::Info,
        "Hello world",
        "key_value",
        Some("key_value"),
        None,
        Vec::new(),
    )];
    test_parser(source_of(&[&logs]), expected);
}

#[test]
fn buffer_too_small() {
    let mut logs = Vec::with_capacity(BUF_SIZE + 200);
    let msg = "a".repeat(BUF_SIZE);
    logs.extend_from_slice(
        b"ts=\"2021-02-23T13:15:48.624447Z\" lvl=\"INFO\" target=\"test\" msg=\"",
    );
    logs.extend_from_slice(msg.as_bytes());
    logs.extend_from_slice(b"\"");
    let expected = vec![new_record(
        Some(timestamp_a()),
        Level::Info,
        &msg,
        "test",
        None,
        None,
        Vec::new(),
    )];
    test_parser(source_of(&[&logs]), expected);
}

#[test]
fn invalid_lines() {
    let lines: &[&[u8]] = &[
        // Invalid key.
        &[115, 111, 109, 101, 0x80, 107, 101, 121, 61, 49, 50, 51, 10], // Invalid UTF-8.

        // Invalid timestamp.
        b"ts=2021-02-23T13:15:48.62444Z\n", // Invalid length (too short).
        b"ts=2021-02-23T13:15:48.624447ZA\n", // Invalid length (too long).
        // Incorrect formatting of delimiters.
        b"ts=2021A02-23T13:15:48.624447Z\n", // Year-month.
        b"ts=2021-02A23T13:15:48.624447Z\n", // Month-day.
        b"ts=2021-02-23A13:15:48.624447Z\n", // Date-time.
        b"ts=2021-02-23T13A15:48.624447Z\n", // Hour:minute.
        b"ts=2021-02-23T13:15A48.624447Z\n", // Minute:second.
        b"ts=2021-02-23T13:15:48A624447Z\n", // Second.nanosecond.
        b"ts=2021-02-23T13:15:48.624447A\n", // Timezone.
        &[116, 115, 61, 0x80, 48, 50, 49, 45, 48, 50, 45, 50, 51, 84, 49, 51, 58, 49, 53, 58, 52, 56, 46, 54, 50, 52, 52, 52, 55, 90, 10], // Invalid UTF-8.
        // Invalid numbers.
        b"ts=A021-02-23T13:15:48.624447Z\n", // Year.
        b"ts=2021-A2-23T13:15:48.624447Z\n", // Month.
        b"ts=2021-02-A3TA3:15:48.624447Z\n", // Day.
        b"ts=2021-02-23TA3:15:48.624447Z\n", // Hour.
        b"ts=2021-02-23T13:A5:48.624447Z\n", // Minute.
        b"ts=2021-02-23T13:15:A8.624447Z\n", // Second.
        b"ts=2021-02-23T13:15:48.A24447Z\n", // Nanosecond.

        // Invalid level.
        b"lvl=NOT_INFO\n", // Not a level.
        &[108, 118, 108, 61, 0x80, 79, 84, 95, 73, 78, 70, 79, 10], // Invalid UTF-8.
        // Invalid key.
        &[107, 101, 121, 61, 0x80, 97, 108, 117, 101, 10], // Invalid UTF-8.

        // Invalid file.
        &[102, 105, 108, 101, 61, 0x80, 111, 109, 101, 95, 102, 105, 108, 101, 46, 114, 115, 58, 49, 48, 10], // Invalid UTF-8.
        b"file=some_file.rs10\n", // Missing colon (`:`).
        b"file=some_file.rs:A0\n", // Invalid line number.

        // Invalid msg value.
        &[109, 115, 103, 61, 0x80, 111, 109, 101, 95, 109, 101, 115, 115, 97, 103, 101, 10],
        // Invalid target value.
        &[116, 97, 114, 103, 101, 116, 61, 0x80, 97, 114, 103, 101, 116, 10],
        // Invalid module value.
        &[109, 111, 100, 117, 108, 101, 61, 0x80, 111, 100, 117, 108, 101, 10],
        // Invalid key value.
        &[107, 101, 121, 61, 0x80, 97, 108, 117, 101, 10],
    ];

    let expected = &[
        ParseErrorKind::KeyInvalidUt8,
        ParseErrorKind::InvalidTimestamp,
        ParseErrorKind::InvalidTimestamp,
        ParseErrorKind::InvalidTimestamp,
        ParseErrorKind::InvalidTimestamp,
        ParseErrorKind::InvalidTimestamp,
        ParseErrorKind::InvalidTimestamp,
        ParseErrorKind::InvalidTimestamp,
        ParseErrorKind::InvalidTimestamp,
        ParseErrorKind::InvalidTimestamp,
        ParseErrorKind::InvalidTimestamp,
        ParseErrorKind::InvalidTimestamp,
        ParseErrorKind::InvalidTimestamp,
        ParseErrorKind::InvalidTimestamp,
        ParseErrorKind::InvalidTimestamp,
        ParseErrorKind::InvalidTimestamp,
        ParseErrorKind::InvalidTimestamp,
        ParseErrorKind::InvalidTimestamp,
        ParseErrorKind::InvalidLevel,
        ParseErrorKind::InvalidLevel,
        ParseErrorKind::InvalidValue,
        ParseErrorKind::InvalidFile,
        ParseErrorKind::InvalidFile,
        ParseErrorKind::InvalidFile,
        ParseErrorKind::InvalidValue,
        ParseErrorKind::InvalidValue,
        ParseErrorKind::InvalidValue,
        ParseErrorKind::InvalidValue,
    ];

    assert_eq!(lines.len(), expected.len());
    let expected = lines
        .iter()
        .zip(expected.iter())
        .map(|(l, e)| (Some(l[..l.len() - 1].to_vec()), e))
        .collect::<Vec<_>>();

    let logs = source_of(lines);
    let mut expected = expected.into_iter();
    let mut parser = parse(logs);
    while let Some(record) = parser.next() {
        let err = record.unwrap_err();
        let expected = expected.next().unwrap();
        assert_eq!(
            err.line,
            expected.0,
            "got: {}, expected: {}",
            String::from_utf8_lossy(err.line.as_ref().unwrap()),
            String::from_utf8_lossy(expected.0.as_ref().unwrap()),
        );
        assert_eq!(err.kind, *expected.1);
    }
    assert!(expected.len() == 0, "left: {:?}", expected.as_slice());
}

#[test]
fn io_error_and_continue() {
    let mut logs = QueueSource::new();
    logs.push_chunk(b"lvl=INFO msg=Hello target=".to_vec());
    logs.push_fault(IoError {
        kind: IoErrorKind::WouldBlock,
        raw_os_error: None,
    });
    logs.push_chunk(b"target".to_vec());

    let mut parser = parse(logs);
    match parser.next() {
        Some(Err(err)) => match err.kind {
            ParseErrorKind::Io(ref io_err) if io_err.kind == IoErrorKind::WouldBlock => {
                assert!(err.line.is_none());
            }
            _ => panic!("unexpected error: {:?}", err),
        },
        _ => panic!("unexpected result"),
    }
    let got = parser.next().unwrap().unwrap();
    let expected = new_record(
        None,
        Level::Info,
        "Hello",
        "target",
        None,
        None,
        Vec::new(),
    );
    assert_eq!(got, expected);
    assert!(parser.next().is_none());
}
