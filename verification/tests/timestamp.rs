use std_logger::timestamp::Timestamp;
use std_logger::{parse, QueueSource};

#[test]
fn timestamp() {
    // Whole multiples of 365 days after the epoch, and their calendar
    // fields in UTC.
    let tests: &[(u64, u16, u8, u8, u8, u8, u8)] = &[
        (41 * (365 * 24 * 60 * 60), 2010, 12, 22, 0, 0, 0),
        (51 * (365 * 24 * 60 * 60), 2020, 12, 19, 0, 0, 0),
        (101 * (365 * 24 * 60 * 60), 2070, 12, 7, 0, 0, 0),
        // The reference point of the conversion itself: 2000-03-01.
        (951868800, 2000, 3, 1, 0, 0, 0),
        // A leap day with a time of day.
        (1709208000, 2024, 2, 29, 12, 0, 0),
        (1614086148, 2021, 2, 23, 13, 15, 48),
    ];

    for &(secs, year, month, day, hour, min, sec) in tests {
        let got = Timestamp::from_epoch(secs, 123456);
        assert_eq!(got.year, year, "seconds: {secs}");
        assert_eq!(got.month, month, "seconds: {secs}");
        assert_eq!(got.day, day, "seconds: {secs}");
        assert_eq!(got.hour, hour, "seconds: {secs}");
        assert_eq!(got.min, min, "seconds: {secs}");
        assert_eq!(got.sec, sec, "seconds: {secs}");
        assert_eq!(got.micro, 123456, "seconds: {secs}");
    }
}

#[test]
fn render_rfc3339() {
    let ts = Timestamp {
        year: 2021,
        month: 2,
        day: 23,
        hour: 13,
        min: 15,
        sec: 48,
        micro: 624447,
    };
    assert_eq!(ts.render(), b"2021-02-23T13:15:48.624447Z".to_vec());

    let ts = Timestamp {
        year: 2000,
        month: 12,
        day: 1,
        hour: 0,
        min: 5,
        sec: 9,
        micro: 7,
    };
    assert_eq!(ts.render(), b"2000-12-01T00:05:09.000007Z".to_vec());
}

/// A timestamp written by the writer side and re-read through the parser
/// comes back as the same instant.
#[test]
fn written_timestamp_parses_back() {
    let instants: &[(u64, u32)] = &[
        (1614086148, 624447),
        (951868800, 0),
        (1709208000, 999999),
        (253402300799, 1),
    ];
    for &(secs, micro) in instants {
        let calendar = Timestamp::from_epoch(secs, micro);
        let mut line = b"ts=".to_vec();
        line.extend_from_slice(&calendar.render());
        line.push(b'\n');
        let mut src = QueueSource::new();
        src.push_chunk(line);
        let mut parser = parse(src);
        let record = parser.next().unwrap().unwrap();
        let wire = record.timestamp.expect("timestamp missing");
        assert_eq!(wire.secs, secs as i64, "seconds: {secs}");
        assert_eq!(wire.nanos, micro, "seconds: {secs}");
        assert!(parser.next().is_none());
    }
}

/// Out-of-range calendar subfields roll over arithmetically rather than
/// being rejected, and a signed subfield is parsed leniently.
#[test]
fn timestamp_subfields_roll_over() {
    let cases: &[(&[u8], i64)] = &[
        // Month 13 is January of the following year.
        (b"ts=2021-13-05T00:00:00.000000Z\n", 1641340800),
        // Month 0 is December of the preceding year.
        (b"ts=2021-00-05T00:00:00.000000Z\n", 1607126400),
        // Day 0 is the day before the first of the month.
        (b"ts=2021-03-00T00:00:00.000000Z\n", 1614470400),
        // Hour 99 simply adds 99 hours.
        (b"ts=2021-01-01T99:00:00.000000Z\n", 1609815600),
        // A subfield may carry an explicit sign.
        (b"ts=2021-+2-23T13:15:48.624447Z\n", 1614086148),
    ];
    for &(line, secs) in cases {
        let mut src = QueueSource::new();
        src.push_chunk(line.to_vec());
        let mut parser = parse(src);
        let record = parser.next().unwrap().unwrap();
        let wire = record.timestamp.expect("timestamp missing");
        assert_eq!(wire.secs, secs, "line: {}", String::from_utf8_lossy(line));
        assert!(parser.next().is_none());
    }
}
