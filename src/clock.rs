//! Times of day, calendar dates, and the arithmetic between them.

use chrono::{Datelike, Timelike};
use vstd::prelude::*;

verus! {

/// Minutes in one day.
pub const MINUTES_PER_DAY: u64 = 1440;

/// A time of day with minute resolution.
#[derive(Clone, Copy, Debug, PartialEq, Eq, Structural)]
pub struct TimeOfDay {
    pub hour: u32,
    pub minute: u32,
}

impl TimeOfDay {
    /// A real clock reading: hour 0-23, minute 0-59.
    pub open spec fn wf(&self) -> bool {
        self.hour < 24 && self.minute < 60
    }

    /// Minutes elapsed since midnight.
    pub open spec fn minute_of_day(&self) -> int {
        self.hour * 60 + self.minute
    }

    /// The time of day that lies `m` minutes after midnight, for `0 <= m < 1440`.
    pub open spec fn at_minute(m: int) -> TimeOfDay {
        TimeOfDay { hour: (m / 60) as u32, minute: (m % 60) as u32 }
    }

    /// The time `hour:minute`, or `None` when it is not a clock reading.
    pub fn from_hm(hour: u32, minute: u32) -> (r: Option<TimeOfDay>)
        ensures
            r is Some <==> (hour < 24 && minute < 60),
            r matches Some(t) ==> t.hour == hour && t.minute == minute,
    {
        if hour < 24 && minute < 60 {
            Some(TimeOfDay { hour, minute })
        } else {
            None
        }
    }

    /// Minutes elapsed since midnight.
    pub fn minutes_since_midnight(&self) -> (r: u64)
        requires
            self.wf(),
        ensures
            r == self.minute_of_day(),
    {
        self.hour as u64 * 60 + self.minute as u64
    }

    /// The time of day that lies `minutes` after midnight, modulo one day.
    pub fn from_minute_of_day(minutes: u64) -> (r: TimeOfDay)
        ensures
            r == TimeOfDay::at_minute((minutes % 1440) as int),
            r.wf(),
            r.minute_of_day() == minutes % 1440,
    {
        let m = minutes % MINUTES_PER_DAY;
        TimeOfDay { hour: (m / 60) as u32, minute: (m % 60) as u32 }
    }
}

/// Elapsed minutes from `start` to `end`, crossing midnight when `end` is
/// earlier than `start`.
pub open spec fn minutes_between(start: TimeOfDay, end: TimeOfDay) -> int {
    if end.minute_of_day() >= start.minute_of_day() {
        end.minute_of_day() - start.minute_of_day()
    } else {
        1440 - (start.minute_of_day() - end.minute_of_day())
    }
}

/// Elapsed minutes from `start` to `end`; an interval never reaches a full day.
pub fn elapsed_minutes(start: TimeOfDay, end: TimeOfDay) -> (r: u64)
    requires
        start.wf(),
        end.wf(),
    ensures
        r == minutes_between(start, end),
        r < 1440,
{
    let s = start.minutes_since_midnight();
    let e = end.minutes_since_midnight();
    if e >= s {
        e - s
    } else {
        MINUTES_PER_DAY - (s - e)
    }
}

/// The earliest year a calendar date may have.
pub const MIN_YEAR: i32 = -262143;

/// The latest year a calendar date may have.
pub const MAX_YEAR: i32 = 262142;

pub open spec fn is_leap_year(y: int) -> bool {
    (y % 4 == 0 && y % 100 != 0) || y % 400 == 0
}

pub open spec fn days_in_month(y: int, m: int) -> int {
    if m == 2 {
        if is_leap_year(y) {
            29
        } else {
            28
        }
    } else if m == 4 || m == 6 || m == 9 || m == 11 {
        30
    } else {
        31
    }
}

/// A day of the proleptic Gregorian calendar within the supported years.
pub open spec fn is_calendar_date(y: int, m: int, d: int) -> bool {
    &&& MIN_YEAR <= y <= MAX_YEAR
    &&& 1 <= m <= 12
    &&& 1 <= d <= days_in_month(y, m)
}

/// A calendar date.
#[derive(Clone, Copy, Debug, PartialEq, Eq, Structural)]
pub struct Date {
    pub year: i32,
    pub month: u32,
    pub day: u32,
}

impl Date {
    pub open spec fn wf(&self) -> bool {
        is_calendar_date(self.year as int, self.month as int, self.day as int)
    }

    /// Strict chronological order.
    pub open spec fn precedes(&self, other: Date) -> bool {
        ||| self.year < other.year
        ||| (self.year == other.year && self.month < other.month)
        ||| (self.year == other.year && self.month == other.month && self.day < other.day)
    }

    /// Whether the ISO week of this date starts on a date that exists: the
    /// first four days of the earliest year belong to a week that begins
    /// before it.
    pub open spec fn has_week_start(&self) -> bool {
        self.wf() && !(self.year == MIN_YEAR && self.month == 1 && self.day <= 4)
    }

    /// The date `year-month-day`, or `None` when no such day exists.
    pub fn from_ymd_opt(year: i32, month: u32, day: u32) -> (r: Option<Date>)
        ensures
            r is Some <==> is_calendar_date(year as int, month as int, day as int),
            r matches Some(d) ==> d.year == year && d.month == month && d.day == day,
    {
        if year < MIN_YEAR || year > MAX_YEAR || month < 1 || month > 12 || day < 1 {
            return None;
        }
        let leap = (year % 4 == 0 && year % 100 != 0) || year % 400 == 0;
        let last: u32 = if month == 2 {
            if leap {
                29
            } else {
                28
            }
        } else if month == 4 || month == 6 || month == 9 || month == 11 {
            30
        } else {
            31
        };
        if day <= last {
            Some(Date { year, month, day })
        } else {
            None
        }
    }

    /// Whether this date comes strictly before `other`.
    pub fn is_before(&self, other: &Date) -> (r: bool)
        ensures
            r == self.precedes(*other),
    {
        self.year < other.year || (self.year == other.year && self.month < other.month) || (
        self.year == other.year && self.month == other.month && self.day < other.day)
    }
}

/// The Monday that starts the ISO week of a date, as chrono computes it.
pub uninterp spec fn week_monday(d: Date) -> Date;

/// What chrono's `NaiveDate::parse_from_str` reads from a file stem with the
/// format `%Y-%m-%d`.
pub uninterp spec fn stem_date(stem: Seq<char>) -> Option<Date>;

/// Relies on chrono's `NaiveDate::weekday`, `Weekday::num_days_from_monday`
/// and `NaiveDate - TimeDelta`: the date minus its weekday offset from Monday.
/// The subtraction panics below chrono's earliest date, a Thursday, which is
/// why the first four days of that year are left out.
#[verifier::external_body]
pub(crate) fn monday_of_week(d: Date) -> (r: Date)
    requires
        d.has_week_start(),
    ensures
        r == week_monday(d),
        r.wf(),
{
    let date = chrono::NaiveDate::from_ymd_opt(d.year, d.month, d.day).unwrap();
    let offset = i64::from(date.weekday().num_days_from_monday());
    let monday = date - chrono::Duration::days(offset);
    Date { year: monday.year(), month: monday.month(), day: monday.day() }
}

/// Relies on chrono's `NaiveDate::parse_from_str` with `%Y-%m-%d`; a parsed
/// `NaiveDate` is always a valid date.
#[verifier::external_body]
pub(crate) fn parse_stem_date(stem: &str) -> (r: Option<Date>)
    ensures
        r == stem_date(stem@),
        r matches Some(d) ==> d.wf(),
{
    chrono::NaiveDate::parse_from_str(stem, "%Y-%m-%d").ok().map(
        |d| Date { year: d.year(), month: d.month(), day: d.day() },
    )
}

/// Relies on chrono's `Local::now`: the local date is a valid date, `hour`
/// is 0-23 and `minute` is 0-59. Nothing else is known of the reading.
#[verifier::external_body]
pub(crate) fn local_now() -> (r: (Date, TimeOfDay))
    ensures
        r.0.wf(),
        r.1.wf(),
{
    let now = chrono::Local::now();
    (
        Date { year: now.year(), month: now.month(), day: now.day() },
        TimeOfDay { hour: now.hour(), minute: now.minute() },
    )
}

} // verus!
