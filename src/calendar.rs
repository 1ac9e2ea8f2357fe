use chrono::{Datelike, Timelike};
use vstd::prelude::*;

use crate::task::Task;

verus! {

/// A calendar day as chrono reports it.
#[derive(Clone, Copy, Debug, PartialEq, Eq, Structural)]
pub struct Date {
    pub year: i32,
    pub month: u32,
    pub day: u32,
}

/// A time of day; `nanosecond` may exceed one second during a leap second,
/// as in chrono.
#[derive(Clone, Copy, Debug, PartialEq, Eq, Structural)]
pub struct ClockTime {
    pub hour: u32,
    pub minute: u32,
    pub second: u32,
    pub nanosecond: u32,
}

/// A local instant without a time zone: a day and a time of day.
#[derive(Clone, Copy, Debug, PartialEq, Eq, Structural)]
pub struct DateTime {
    pub date: Date,
    pub time: ClockTime,
}

/// Why a task has no schedule.
#[derive(Clone, Copy, Debug, PartialEq, Eq, Structural)]
pub enum ScheduleError {
    /// The date text is not a `DD MM YYYY` calendar date.
    BadDate,
    /// The time text is not an `HH MM` time of day.
    BadTime,
}

/// Chronological order of days.
pub open spec fn date_lt(a: Date, b: Date) -> bool {
    a.year < b.year || (a.year == b.year && (a.month < b.month || (a.month == b.month && a.day
        < b.day)))
}

/// Chronological order of times of day.
pub open spec fn time_lt(a: ClockTime, b: ClockTime) -> bool {
    a.hour < b.hour || (a.hour == b.hour && (a.minute < b.minute || (a.minute == b.minute && (
    a.second < b.second || (a.second == b.second && a.nanosecond < b.nanosecond)))))
}

/// Chronological order of instants.
pub open spec fn instant_lt(a: DateTime, b: DateTime) -> bool {
    date_lt(a.date, b.date) || (a.date == b.date && time_lt(a.time, b.time))
}

/// What chrono's `NaiveDate::parse_from_str(s, "%d %m %Y")` yields for `s`.
pub uninterp spec fn chrono_date(s: Seq<char>) -> Option<Date>;

/// What chrono's `NaiveTime::parse_from_str(s, "%H %M")` yields for `s`.
pub uninterp spec fn chrono_time(s: Seq<char>) -> Option<ClockTime>;

/// Relies on chrono's `NaiveDate::parse_from_str` with the format
/// `%d %m %Y`: its result depends on the text alone.
#[verifier::external_body]
pub(crate) fn parse_date(s: &str) -> (r: Option<Date>)
    ensures
        r == chrono_date(s@),
{
    match chrono::NaiveDate::parse_from_str(s, "%d %m %Y") {
        Ok(d) => Some(Date { year: d.year(), month: d.month(), day: d.day() }),
        Err(_) => None,
    }
}

/// Relies on chrono's `NaiveTime::parse_from_str` with the format `%H %M`:
/// its result depends on the text alone.
#[verifier::external_body]
pub(crate) fn parse_time(s: &str) -> (r: Option<ClockTime>)
    ensures
        r == chrono_time(s@),
{
    match chrono::NaiveTime::parse_from_str(s, "%H %M") {
        Ok(t) => Some(
            ClockTime {
                hour: t.hour(),
                minute: t.minute(),
                second: t.second(),
                nanosecond: t.nanosecond(),
            },
        ),
        Err(_) => None,
    }
}

/// Relies on chrono's `Local::now().naive_local()`: the machine's local
/// wall-clock time. It depends on the clock, so nothing is stated of it.
#[verifier::external_body]
pub(crate) fn local_now() -> DateTime {
    let now = chrono::Local::now().naive_local();
    DateTime {
        date: Date { year: now.year(), month: now.month(), day: now.day() },
        time: ClockTime {
            hour: now.hour(),
            minute: now.minute(),
            second: now.second(),
            nanosecond: now.nanosecond(),
        },
    }
}

/// The instant a task is due: its date, then its time of day.
pub open spec fn schedule_of(t: Task) -> Result<DateTime, ScheduleError> {
    match chrono_date(t.date@) {
        None => Err(ScheduleError::BadDate),
        Some(d) => match chrono_time(t.time@) {
            None => Err(ScheduleError::BadTime),
            Some(c) => Ok(DateTime { date: d, time: c }),
        },
    }
}

impl Date {
    /// Whether `self` is an earlier day than `other`.
    pub fn is_before(&self, other: &Date) -> (r: bool)
        ensures
            r == date_lt(*self, *other),
    {
        self.year < other.year || (self.year == other.year && (self.month < other.month || (
        self.month == other.month && self.day < other.day)))
    }
}

impl ClockTime {
    /// Whether `self` is an earlier time of day than `other`.
    pub fn is_before(&self, other: &ClockTime) -> (r: bool)
        ensures
            r == time_lt(*self, *other),
    {
        self.hour < other.hour || (self.hour == other.hour && (self.minute < other.minute || (
        self.minute == other.minute && (self.second < other.second || (self.second
            == other.second && self.nanosecond < other.nanosecond)))))
    }
}

impl DateTime {
    /// Whether `self` is an earlier instant than `other`.
    pub fn is_before(&self, other: &DateTime) -> (r: bool)
        ensures
            r == instant_lt(*self, *other),
    {
        self.date.is_before(&other.date) || (self.date == other.date && self.time.is_before(
            &other.time,
        ))
    }

    /// The local wall-clock time now.
    pub fn now() -> DateTime {
        local_now()
    }
}

impl Task {
    /// The instant the task is due, read from its date and time text.
    pub fn schedule(&self) -> (r: Result<DateTime, ScheduleError>)
        ensures
            r == schedule_of(*self),
    {
        match parse_date(self.date.as_str()) {
            None => Err(ScheduleError::BadDate),
            Some(d) => match parse_time(self.time.as_str()) {
                None => Err(ScheduleError::BadTime),
                Some(c) => Ok(DateTime { date: d, time: c }),
            },
        }
    }
}

} // verus!
