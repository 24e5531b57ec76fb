use chrono::{Datelike, Local, NaiveDate, Timelike};
use vstd::prelude::*;

use super::value::{Date, Timestamp};

verus! {

/// The date `chrono::NaiveDate::parse_from_str(text, "%Y-%m-%d")` reads
/// from `text`, if any.
pub uninterp spec fn parsed_iso_date(text: Seq<char>) -> Option<Date>;

/// A calendar-valid month and day.
pub open spec fn date_in_range(d: Date) -> bool {
    1 <= d.month <= 12 && 1 <= d.day <= 31
}

/// A calendar-valid date and time of day.
pub open spec fn timestamp_in_range(t: Timestamp) -> bool {
    date_in_range(t.date) && t.hour < 24 && t.minute < 60 && t.second < 60
}

/// Reads a `yyyy-mm-dd` date with `chrono::NaiveDate::parse_from_str` and
/// the format `%Y-%m-%d`. The result is named `parsed_iso_date(text)`; a
/// date that is read is a valid calendar date (chrono refuses out-of-range
/// fields). Which texts are read is left to chrono.
#[verifier::external_body]
pub fn parse_iso_date(text: &str) -> (r: Option<Date>)
    ensures
        r == parsed_iso_date(text@),
        r matches Some(d) ==> date_in_range(d),
{
    match NaiveDate::parse_from_str(text, "%Y-%m-%d") {
        Ok(d) => Some(Date { year: d.year(), month: d.month(), day: d.day() }),
        Err(_) => None,
    }
}

/// The reading of the clock: local wall-clock time and UTC time.
#[derive(Clone, Copy, Debug)]
pub struct Now {
    pub local: Timestamp,
    pub utc: Timestamp,
}

/// Reads the clock with `chrono::Local::now`, as local time
/// (`naive_local`) and as UTC time (`naive_utc`). Only that both are valid
/// calendar times is stated: the values depend on the moment of the call.
#[verifier::external_body]
pub fn clock_now() -> (r: Now)
    ensures
        timestamp_in_range(r.local),
        timestamp_in_range(r.utc),
{
    let now = Local::now();
    let (l, u) = (now.naive_local(), now.naive_utc());
    Now {
        local: Timestamp { date: Date { year: l.year(), month: l.month(), day: l.day() }, hour: l.hour(), minute: l.minute(), second: l.second(), nanosecond: l.nanosecond() },
        utc: Timestamp { date: Date { year: u.year(), month: u.month(), day: u.day() }, hour: u.hour(), minute: u.minute(), second: u.second(), nanosecond: u.nanosecond() },
    }
}

} // verus!
