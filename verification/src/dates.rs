//! The day of a file's timestamps, written for display.

use vstd::prelude::*;

verus! {

/// The UTC day on which the moment `secs` seconds after 1970-01-01 00:00:00
/// UTC falls, written as year, month and day the way `chrono` writes
/// `%Y-%m-%d`; `None` for a moment that `chrono` has no date for.
pub uninterp spec fn utc_day(secs: i64) -> Option<Seq<char>>;

/// `chrono::DateTime::from_timestamp` with no nanoseconds, and on the moment
/// it gives `format("%Y-%m-%d")`, written to a `String`. What comes back is
/// decided by `secs` alone: the day is taken in UTC.
#[verifier::external_body]
fn day_text(secs: i64) -> (text: Option<String>)
    ensures
        match text {
            Some(day) => utc_day(secs) == Some(day@),
            None => utc_day(secs) == None::<Seq<char>>,
        },
{
    match chrono::DateTime::from_timestamp(secs, 0) {
        Some(moment) => Some(moment.format("%Y-%m-%d").to_string()),
        None => None,
    }
}

/// What is shown for a timestamp: its day, or a dash where there is none.
pub open spec fn shown_day(day: Option<Seq<char>>) -> Seq<char> {
    match day {
        Some(text) => text,
        None => "-"@,
    }
}

/// What is shown for a file's timestamp, given in seconds since 1970-01-01
/// 00:00:00 UTC, or not given where the file system had none.
pub open spec fn shown_time(sys_time: Option<i64>) -> Seq<char> {
    match sys_time {
        Some(secs) => shown_day(utc_day(secs)),
        None => "-"@,
    }
}

/// The text for a day that was or was not found: the day itself, or a dash.
pub fn day_or_dash(day: Option<String>) -> (text: String)
    ensures
        text@ == shown_day(
            match day {
                Some(d) => Some(d@),
                None => None,
            },
        ),
{
    match day {
        Some(d) => d,
        None => String::from_str("-"),
    }
}

/// The day of a timestamp for display. A timestamp that the file system did
/// not give is shown as a dash, and so is one too far from 1970 to have a
/// date.
pub fn display_time(sys_time: Option<i64>) -> (text: String)
    ensures
        text@ == shown_time(sys_time),
{
    match sys_time {
        Some(secs) => day_or_dash(day_text(secs)),
        None => String::from_str("-"),
    }
}

} // verus!
