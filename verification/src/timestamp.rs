//! The writer side of the wire timestamp: seconds since the Unix epoch
//! broken into human calendar fields, and those fields rendered in the
//! fixed 27-byte layout the parser reads back.

use vstd::prelude::*;
use crate::num::{spec_digits_val, all_digits, pow10};
use crate::time::{spec_epoch_seconds, spec_timestamp_of};

verus! {

/// 2000-03-01 (mod 400 year, immediately after February 29th), the
/// reference point of the calendar conversion.
pub const LEAPOCH: u64 = 951868800;

/// Timestamp for humans: the calendar fields of one UTC instant.
#[derive(Clone, Copy, Debug, PartialEq, Eq, Structural)]
pub struct Timestamp {
    /// Calendar year, four digits.
    pub year: u16,
    /// Calendar month, 1 to 12.
    pub month: u8,
    /// Day of the month, 1 to 31.
    pub day: u8,
    /// Hour of the day.
    pub hour: u8,
    /// Minute of the hour.
    pub min: u8,
    /// Second of the minute.
    pub sec: u8,
    /// Microseconds within the second.
    pub micro: u32,
}

/// Month (March-based, 0 to 11) and day offset within it for a day offset
/// within a March-to-February year.
pub open spec fn spec_month_day(remdays: int) -> (int, int) {
    if remdays < 31 {
        (0, remdays)
    } else if remdays < 61 {
        (1, remdays - 31)
    } else if remdays < 92 {
        (2, remdays - 61)
    } else if remdays < 122 {
        (3, remdays - 92)
    } else if remdays < 153 {
        (4, remdays - 122)
    } else if remdays < 184 {
        (5, remdays - 153)
    } else if remdays < 214 {
        (6, remdays - 184)
    } else if remdays < 245 {
        (7, remdays - 214)
    } else if remdays < 275 {
        (8, remdays - 245)
    } else if remdays < 306 {
        (9, remdays - 275)
    } else if remdays < 337 {
        (10, remdays - 306)
    } else {
        (11, remdays - 337)
    }
}

/// Calendar fields (year, month, day, hour, minute, second) of an instant,
/// given as seconds since the Unix epoch: the 400-, 100- and 4-year cycles
/// of the proleptic-Gregorian calendar are peeled off from a March-based
/// reference, exactly as the widely used conversion of musl does it.
pub open spec fn spec_civil(secs: int) -> (int, int, int, int, int, int) {
    let secs2 = secs - 951868800;
    let days = secs2 / 86400;
    let remsecs = secs2 % 86400;
    let qc = days / 146097;
    let remdays0 = days % 146097;
    let cc0 = remdays0 / 36524;
    let cc = if cc0 == 4 {
        3int
    } else {
        cc0
    };
    let remdays1 = remdays0 - cc * 36524;
    let qcy0 = remdays1 / 1461;
    let qcy = if qcy0 == 25 {
        24int
    } else {
        qcy0
    };
    let remdays2 = remdays1 - qcy * 1461;
    let ry0 = remdays2 / 365;
    let ry = if ry0 == 4 {
        3int
    } else {
        ry0
    };
    let remdays3 = remdays2 - ry * 365;
    let year0 = ry + 4 * qcy + 100 * cc + 400 * qc;
    let md = spec_month_day(remdays3);
    let year = if md.0 >= 10 {
        year0 + 1
    } else {
        year0
    };
    let month = if md.0 >= 10 {
        md.0 - 9
    } else {
        md.0 + 3
    };
    (year + 2000, month, md.1 + 1, remsecs / 3600, remsecs / 60 % 60, remsecs % 60)
}

impl Timestamp {
    /// The fields lie in their calendar ranges and the year has four
    /// digits.
    pub open spec fn wf(self) -> bool {
        &&& 1000 <= self.year <= 9999
        &&& 1 <= self.month <= 12
        &&& 1 <= self.day <= 31
        &&& self.hour < 24
        &&& self.min < 60
        &&& self.sec < 60
        &&& self.micro < 1000000
    }

    /// The calendar fields of the instant `secs` seconds after the Unix
    /// epoch, with `micro` microseconds within the second.
    ///
    /// This only works for instants from March 2000 on, and before the
    /// year 10000.
    pub fn from_epoch(secs: u64, micro: u32) -> (r: Timestamp)
        requires
            951868800 <= secs <= 253402300799,
            micro < 1000000,
        ensures
            ({
                let c = spec_civil(secs as int);
                &&& r.year == c.0
                &&& r.month == c.1
                &&& r.day == c.2
                &&& r.hour == c.3
                &&& r.min == c.4
                &&& r.sec == c.5
                &&& r.micro == micro
            }),
            r.wf(),
    {
        let secs2: u64 = secs - LEAPOCH;
        let days: u64 = secs2 / 86400;
        let remsecs: u64 = secs2 % 86400;

        let qc: u64 = days / 146097;
        let mut remdays: u64 = days % 146097;

        let mut c_cycles: u64 = remdays / 36524;
        if c_cycles == 4 {
            c_cycles = 3;
        }
        remdays = remdays - c_cycles * 36524;

        let mut q_cycles: u64 = remdays / 1461;
        if q_cycles == 25 {
            q_cycles = 24;
        }
        remdays = remdays - q_cycles * 1461;

        let mut remyears: u64 = remdays / 365;
        if remyears == 4 {
            remyears = 3;
        }
        remdays = remdays - remyears * 365;

        let year0: u64 = remyears + 4 * q_cycles + 100 * c_cycles + 400 * qc;

        // Month of the March-based year from the remaining days.
        let (month0, day0): (u64, u64) = if remdays < 31 {
            (0, remdays)
        } else if remdays < 61 {
            (1, remdays - 31)
        } else if remdays < 92 {
            (2, remdays - 61)
        } else if remdays < 122 {
            (3, remdays - 92)
        } else if remdays < 153 {
            (4, remdays - 122)
        } else if remdays < 184 {
            (5, remdays - 153)
        } else if remdays < 214 {
            (6, remdays - 184)
        } else if remdays < 245 {
            (7, remdays - 214)
        } else if remdays < 275 {
            (8, remdays - 245)
        } else if remdays < 306 {
            (9, remdays - 275)
        } else if remdays < 337 {
            (10, remdays - 306)
        } else {
            (11, remdays - 337)
        };
        let (year, month): (u64, u64) = if month0 >= 10 {
            (year0 + 1 + 2000, month0 - 9)
        } else {
            (year0 + 2000, month0 + 3)
        };

        Timestamp {
            year: year as u16,
            month: month as u8,
            day: (day0 + 1) as u8,
            hour: (remsecs / 3600) as u8,
            min: (remsecs / 60 % 60) as u8,
            sec: (remsecs % 60) as u8,
            micro,
        }
    }

    /// Render the calendar fields in the fixed 27-byte wire layout
    /// `YYYY-MM-DDTHH:MM:SS.NNNNNNZ`, zero-padded.
    #[verifier::rlimit(60)]
    pub fn render(&self) -> (r: Vec<u8>)
        requires
            self.wf(),
        ensures
            r@ == spec_render(*self),
    {
        let mut out: Vec<u8> = Vec::new();
        out.push(48 + (self.year / 1000) as u8);
        out.push(48 + (self.year / 100 % 10) as u8);
        out.push(48 + (self.year / 10 % 10) as u8);
        out.push(48 + (self.year % 10) as u8);
        out.push(45);
        out.push(48 + self.month / 10);
        out.push(48 + self.month % 10);
        out.push(45);
        out.push(48 + self.day / 10);
        out.push(48 + self.day % 10);
        out.push(84);
        out.push(48 + self.hour / 10);
        out.push(48 + self.hour % 10);
        out.push(58);
        out.push(48 + self.min / 10);
        out.push(48 + self.min % 10);
        out.push(58);
        out.push(48 + self.sec / 10);
        out.push(48 + self.sec % 10);
        out.push(46);
        out.push(48 + (self.micro / 100000) as u8);
        out.push(48 + (self.micro / 10000 % 10) as u8);
        out.push(48 + (self.micro / 1000 % 10) as u8);
        out.push(48 + (self.micro / 100 % 10) as u8);
        out.push(48 + (self.micro / 10 % 10) as u8);
        out.push(48 + (self.micro % 10) as u8);
        out.push(90);
        proof {
            assert(out@ =~= spec_render(*self));
        }
        out
    }
}

/// An ASCII digit byte.
pub open spec fn dig(v: int) -> u8 {
    (48 + v) as u8
}

/// The fixed 27-byte wire form of the calendar fields, zero-padded:
/// `YYYY-MM-DDTHH:MM:SS.NNNNNNZ`.
pub open spec fn spec_render(t: Timestamp) -> Seq<u8> {
    seq![
        dig(t.year as int / 1000),
        dig(t.year as int / 100 % 10),
        dig(t.year as int / 10 % 10),
        dig(t.year as int % 10),
        45u8,
        dig(t.month as int / 10),
        dig(t.month as int % 10),
        45u8,
        dig(t.day as int / 10),
        dig(t.day as int % 10),
        84u8,
        dig(t.hour as int / 10),
        dig(t.hour as int % 10),
        58u8,
        dig(t.min as int / 10),
        dig(t.min as int % 10),
        58u8,
        dig(t.sec as int / 10),
        dig(t.sec as int % 10),
        46u8,
        dig(t.micro as int / 100000),
        dig(t.micro as int / 10000 % 10),
        dig(t.micro as int / 1000 % 10),
        dig(t.micro as int / 100 % 10),
        dig(t.micro as int / 10 % 10),
        dig(t.micro as int % 10),
        90u8,
    ]
}

} // verus!
