use std_logger::{parse, Level, ParseError, ParseErrorKind, QueueSource, Record, Timestamp, Value};

fn one_chunk(bytes: &[u8]) -> QueueSource {
    let mut src = QueueSource::new();
    src.push_chunk(bytes.to_vec());
    src
}

fn collect(src: QueueSource) -> Vec<Result<Record, ParseError>> {
    let mut parser = parse(src);
    let mut items = Vec::new();
    while let Some(item) = parser.next() {
        items.push(item);
    }
    items
}

#[test]
fn five_typed_fields_and_no_extras() {
    let input = b"ts=\"2021-02-23T13:15:48.624447Z\" lvl=\"INFO\" msg=\"Hello world\" target=\"key_value\" module=\"key_value\"\n";
    let items = collect(one_chunk(input));
    assert_eq!(items.len(), 1);
    let record = items.into_iter().next().unwrap().unwrap();
    assert_eq!(
        record.timestamp,
        Some(Timestamp {
            secs: 1614086148,
            nanos: 624447,
        })
    );
    assert_eq!(record.level, Level::Info);
    assert_eq!(record.msg, "Hello world");
    assert_eq!(record.target, "key_value");
    assert_eq!(record.module, Some("key_value".to_owned()));
    assert_eq!(record.file, None);
    assert!(record.key_values.is_empty());
}

#[test]
fn missing_final_newline_is_accepted() {
    let with_newline = b"ts=\"2021-02-23T13:15:48.624447Z\" lvl=\"INFO\" msg=\"Hello world\" target=\"key_value\" module=\"key_value\"\n";
    let without_newline = &with_newline[..with_newline.len() - 1];
    let a = collect(one_chunk(with_newline));
    let b = collect(one_chunk(without_newline));
    assert_eq!(a.len(), 1);
    assert_eq!(b.len(), 1);
    let a = a.into_iter().next().unwrap().unwrap();
    let b = b.into_iter().next().unwrap().unwrap();
    assert_eq!(a, b);
}

#[test]
fn whitespace_only_input_yields_nothing() {
    let items = collect(one_chunk(b"  \n\n  \n"));
    assert!(items.is_empty());
}

#[test]
fn invalid_level_line_is_skipped_and_parsing_resumes() {
    let items = collect(one_chunk(b"lvl=NOT_INFO\nmsg=after\n"));
    assert_eq!(items.len(), 2);
    let mut items = items.into_iter();
    let err = items.next().unwrap().unwrap_err();
    assert_eq!(err.kind, ParseErrorKind::InvalidLevel);
    assert_eq!(err.line, Some(b"lvl=NOT_INFO".to_vec()));
    let record = items.next().unwrap().unwrap();
    assert_eq!(record.msg, "after");
}

/// Splitting the same input into single-byte reads yields the same
/// records and errors as handing it over whole, for lines of one pair
/// each.  (A refill boundary right after a space that follows a complete
/// pair ends the line early, a quirk the whole-line format inherits from
/// treating the end of the window as the end of the line.)
#[test]
fn byte_by_byte_feeding_matches_whole_input() {
    let input: &[u8] = b"msg=\"multi\nline\"\nlvl=NOT_INFO\nts=2021-02-23T13:15:48.624447Z\nk=42\n";
    let whole = collect(one_chunk(input));

    let mut bytewise = QueueSource::new();
    for b in input {
        bytewise.push_chunk(vec![*b]);
    }
    let by_byte = collect(bytewise);

    assert_eq!(whole.len(), by_byte.len());
    for (a, b) in whole.iter().zip(by_byte.iter()) {
        match (a, b) {
            (Ok(ra), Ok(rb)) => assert_eq!(ra, rb),
            (Err(ea), Err(eb)) => {
                assert_eq!(ea.kind, eb.kind);
                assert_eq!(ea.line, eb.line);
            }
            _ => panic!("record/error mismatch"),
        }
    }
}

#[test]
fn multi_line_quoted_value_stays_whole() {
    let input = b"msg=\"a \"nested\" quote\nand a second line\" target=t\n";
    let items = collect(one_chunk(input));
    assert_eq!(items.len(), 1);
    let record = items.into_iter().next().unwrap().unwrap();
    assert_eq!(record.msg, "a \"nested\" quote\nand a second line");
    assert_eq!(record.target, "t");
}

#[test]
fn value_type_inference_order() {
    let input = b"a=true b=false c=123 d=-9 e=+7 f=5.0 g=1e3 h=.5 i=inf j=NaN k=05x l=9223372036854775808\n";
    let items = collect(one_chunk(input));
    let record = items.into_iter().next().unwrap().unwrap();
    let kvs = record.key_values;
    let get = |k: &str| {
        kvs.iter()
            .find(|(key, _)| key == k)
            .map(|(_, v)| v)
            .unwrap()
    };
    assert_eq!(get("a"), &Value::Bool(true));
    assert_eq!(get("b"), &Value::Bool(false));
    assert_eq!(get("c"), &Value::Int(123));
    assert_eq!(get("d"), &Value::Int(-9));
    assert_eq!(get("e"), &Value::Int(7));
    assert_eq!(get("f"), &Value::Float("5.0".to_owned()));
    assert_eq!(get("g"), &Value::Float("1e3".to_owned()));
    assert_eq!(get("h"), &Value::Float(".5".to_owned()));
    assert_eq!(get("i"), &Value::Float("inf".to_owned()));
    assert_eq!(get("j"), &Value::Float("NaN".to_owned()));
    assert_eq!(get("k"), &Value::String("05x".to_owned()));
    // One past `i64::MAX` no longer parses as an integer, but it still has
    // floating-point syntax.
    assert_eq!(get("l"), &Value::Float("9223372036854775808".to_owned()));
}

#[test]
fn duplicate_key_keeps_the_later_value() {
    let input = b"k=1 k=2\n";
    let items = collect(one_chunk(input));
    let record = items.into_iter().next().unwrap().unwrap();
    assert_eq!(record.key_values.len(), 1);
    assert_eq!(record.key_values[0].0, "k");
    assert_eq!(record.key_values[0].1, Value::Int(2));
}

#[test]
fn module_empty_means_absent() {
    let input = b"module=\"\" msg=x\n";
    let items = collect(one_chunk(input));
    let record = items.into_iter().next().unwrap().unwrap();
    assert_eq!(record.module, None);
    assert_eq!(record.msg, "x");
}

#[test]
fn file_splits_at_the_last_colon() {
    let input = b"file=dir:sub/file.rs:123\n";
    let items = collect(one_chunk(input));
    let record = items.into_iter().next().unwrap().unwrap();
    assert_eq!(record.file, Some(("dir:sub/file.rs".to_owned(), 123)));
}

#[test]
fn file_line_number_overflow_is_invalid() {
    let input = b"file=f.rs:4294967296\n";
    let items = collect(one_chunk(input));
    let err = items.into_iter().next().unwrap().unwrap_err();
    assert_eq!(err.kind, ParseErrorKind::InvalidFile);
}

#[test]
fn non_ascii_values_decode() {
    // The value bytes are multi-byte UTF-8; decoding must keep them.
    let input = "msg=\"gr\u{00fc}n \u{2603}\" target=\u{00e9}\n".as_bytes();
    let items = collect(one_chunk(input));
    let record = items.into_iter().next().unwrap().unwrap();
    assert_eq!(record.msg, "gr\u{00fc}n \u{2603}");
    assert_eq!(record.target, "\u{00e9}");
}

#[test]
fn lone_quote_key_does_not_panic() {
    // A key that is a single quote character is kept as that key.
    let input = b"\"=v\n";
    let items = collect(one_chunk(input));
    let record = items.into_iter().next().unwrap().unwrap();
    assert_eq!(record.key_values.len(), 1);
    assert_eq!(record.key_values[0].0, "\"");
}

#[test]
fn quoted_key_is_unwrapped() {
    let input = b"\" key \"=v\n";
    let items = collect(one_chunk(input));
    let record = items.into_iter().next().unwrap().unwrap();
    assert_eq!(record.key_values.len(), 1);
    assert_eq!(record.key_values[0].0, "key");
}

#[test]
fn error_after_transient_failure_keeps_position() {
    // Inject two consecutive read failures: each is reported once, and the
    // buffered bytes survive both.
    let mut src = QueueSource::new();
    src.push_chunk(b"msg=he".to_vec());
    src.push_fault(std_logger::IoError {
        kind: std_logger::IoErrorKind::WouldBlock,
        raw_os_error: None,
    });
    src.push_fault(std_logger::IoError {
        kind: std_logger::IoErrorKind::Interrupted,
        raw_os_error: None,
    });
    src.push_chunk(b"llo\n".to_vec());
    let items = collect(src);
    assert_eq!(items.len(), 3);
    let mut items = items.into_iter();
    let first = items.next().unwrap().unwrap_err();
    assert!(matches!(first.kind, ParseErrorKind::Io(_)));
    assert!(first.line.is_none());
    let second = items.next().unwrap().unwrap_err();
    assert!(matches!(second.kind, ParseErrorKind::Io(_)));
    let record = items.next().unwrap().unwrap();
    assert_eq!(record.msg, "hello");
}

#[test]
fn hand_fed_polling_matches_pull() {
    // Drive the state machine by hand, the way a caller owning the real
    // byte source would: poll, and feed a chunk whenever more is needed.
    let input: &[u8] = b"lvl=WARN msg=fed target=t\nk=true\n";
    let mut chunks = input.chunks(7);
    let mut parser = std_logger::parse(QueueSource::new());
    let mut fed_items: Vec<Result<Record, ParseError>> = Vec::new();
    loop {
        match parser.poll() {
            std_logger::Poll::Record(record) => fed_items.push(Ok(record)),
            std_logger::Poll::Fail(err) => fed_items.push(Err(err)),
            std_logger::Poll::End => break,
            std_logger::Poll::NeedRead => {
                if let Some(chunk) = chunks.next() {
                    parser.feed(chunk.to_vec());
                }
                // With nothing queued the refill reports end of input.
                parser.fill_buf().expect("no fault was queued");
            }
        }
    }
    let pulled = collect(one_chunk(input));
    assert_eq!(fed_items.len(), pulled.len());
    assert_eq!(fed_items.len(), 2);
    for (a, b) in fed_items.iter().zip(pulled.iter()) {
        match (a, b) {
            (Ok(ra), Ok(rb)) => assert_eq!(ra, rb),
            _ => panic!("expected records"),
        }
    }
}
