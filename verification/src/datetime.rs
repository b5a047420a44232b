//! Calendar date-times without a time zone. The `chrono` crate reads them
//! from text; the library keeps the fields.

use chrono::{Datelike, NaiveDateTime, Timelike};
use vstd::prelude::*;

verus! {

/// The layout of the time stamps in an audit trail: day/month/year
/// hour:minute:second.
pub const TIMESTAMP_LAYOUT: &'static str = "%d/%m/%Y %H:%M:%S";

/// The regular expression that finds a time stamp of that layout in a text.
pub const TIMESTAMP_PATTERN: &'static str = r"(\d{2}/\d{2}/\d{4}\s\d{2}:\d{2}:\d{2})";

/// A date and a time of day, with no time zone attached.
///
/// A leap second is held as `chrono` holds it: `second` is 59 and
/// `nanosecond` is a thousand million or more.
#[derive(Clone, Copy, Debug, PartialEq, Eq, Structural)]
pub struct Timestamp {
    pub year: i32,
    pub month: u32,
    pub day: u32,
    pub hour: u32,
    pub minute: u32,
    pub second: u32,
    pub nanosecond: u32,
}

/// Whether a year of the proleptic Gregorian calendar has a 29th of
/// February.
pub open spec fn is_leap_year(year: int) -> bool {
    year % 4 == 0 && (year % 100 != 0 || year % 400 == 0)
}

/// The number of days of a month of the proleptic Gregorian calendar.
pub open spec fn days_in_month(year: int, month: int) -> int {
    if month == 2 {
        if is_leap_year(year) {
            29
        } else {
            28
        }
    } else if month == 4 || month == 6 || month == 9 || month == 11 {
        30
    } else {
        31
    }
}

impl Timestamp {
    /// The fields are a day of the proleptic Gregorian calendar and a time
    /// of that day; nanoseconds of a thousand million or more stand only
    /// with second 59.
    pub open spec fn well_formed(self) -> bool {
        &&& 1 <= self.month <= 12
        &&& 1 <= self.day <= days_in_month(self.year as int, self.month as int)
        &&& self.hour <= 23
        &&& self.minute <= 59
        &&& self.second <= 59
        &&& self.nanosecond <= 1_999_999_999
        &&& self.nanosecond >= 1_000_000_000 ==> self.second == 59
    }

    /// Whether the fields are a calendar day and a time of that day.
    pub fn is_well_formed(&self) -> (r: bool)
        ensures
            r == self.well_formed(),
    {
        if self.month < 1 || self.month > 12 || self.day < 1 {
            return false;
        }
        let leap = self.year % 4 == 0 && (self.year % 100 != 0 || self.year % 400 == 0);
        let days: u32 = if self.month == 2 {
            if leap {
                29
            } else {
                28
            }
        } else if self.month == 4 || self.month == 6 || self.month == 9 || self.month == 11 {
            30
        } else {
            31
        };
        self.day <= days && self.hour <= 23 && self.minute <= 59 && self.second <= 59
            && self.nanosecond <= 1_999_999_999 && (self.nanosecond < 1_000_000_000
            || self.second == 59)
    }

    /// Reads a time stamp written as day/month/year hour:minute:second.
    pub fn parse(text: &str) -> (r: Option<Timestamp>)
        ensures
            r == parsed_datetime(text@, TIMESTAMP_LAYOUT@),
            r matches Some(t) ==> t.well_formed(),
    {
        parse_naive_datetime(text, TIMESTAMP_LAYOUT)
    }
}

/// What `NaiveDateTime::parse_from_str` makes of `text` under the format
/// string `layout`: `None` where it reports an error, else the fields of the
/// date-time it returns.
pub uninterp spec fn parsed_datetime(text: Seq<char>, layout: Seq<char>) -> Option<Timestamp>;

/// Calls `NaiveDateTime::parse_from_str` and reads the fields of the result
/// through `Datelike` and `Timelike`. What `well_formed` states is what
/// `chrono` documents of every date-time it holds: the date is one of the
/// proleptic Gregorian calendar, the fields of the time lie in the ranges of
/// their units, and a leap second is held as second 59 with a thousand
/// million nanoseconds or more.
#[verifier::external_body]
fn parse_naive_datetime(text: &str, layout: &str) -> (r: Option<Timestamp>)
    ensures
        r == parsed_datetime(text@, layout@),
        r matches Some(t) ==> t.well_formed(),
{
    match NaiveDateTime::parse_from_str(text, layout) {
        Ok(parsed) => Some(
            Timestamp {
                year: parsed.year(),
                month: parsed.month(),
                day: parsed.day(),
                hour: parsed.hour(),
                minute: parsed.minute(),
                second: parsed.second(),
                nanosecond: parsed.nanosecond(),
            },
        ),
        Err(_) => None,
    }
}

} // verus!
