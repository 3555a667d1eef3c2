//! Calendar days and their `YYYY-MM-DD` text, as `chrono` gives them.

use vstd::prelude::*;
use crate::text::{decimal, zero_padded};

verus! {

/// The first year that a `chrono::NaiveDate` can hold.
pub const MIN_YEAR: i32 = -262143;

/// The last year that a `chrono::NaiveDate` can hold.
pub const MAX_YEAR: i32 = 262142;

/// Leap years of the proleptic Gregorian calendar.
pub open spec fn is_leap_year(year: int) -> bool {
    year % 4 == 0 && (year % 100 != 0 || year % 400 == 0)
}

/// Number of days of a month; 0 for a month that does not exist.
pub open spec fn days_in_month(year: int, month: int) -> int {
    if month == 2 {
        if is_leap_year(year) { 29 } else { 28 }
    } else if month == 4 || month == 6 || month == 9 || month == 11 {
        30
    } else if 1 <= month <= 12 {
        31
    } else {
        0
    }
}

/// The days that the calendar has, within the years that can be held.
pub open spec fn is_calendar_day(year: int, month: int, day: int) -> bool {
    &&& MIN_YEAR <= year <= MAX_YEAR
    &&& 1 <= month <= 12
    &&& 1 <= day <= days_in_month(year, month)
}

/// A year as `%Y` writes it: four digits from 0 to 9999, otherwise a sign
/// and at least four digits.
pub open spec fn year_text(year: int) -> Seq<char> {
    if year < 0 {
        seq!['-'] + zero_padded(decimal((-year) as nat), 4)
    } else if year > 9999 {
        seq!['+'] + zero_padded(decimal(year as nat), 4)
    } else {
        zero_padded(decimal(year as nat), 4)
    }
}

/// A day as `%Y-%m-%d` writes it.
pub open spec fn day_text(year: int, month: int, day: int) -> Seq<char> {
    year_text(year) + seq!['-'] + zero_padded(decimal(month as nat), 2) + seq!['-']
        + zero_padded(decimal(day as nat), 2)
}

/// A day of the calendar by its three numbers.
#[derive(Clone, Copy, Debug, PartialEq, Eq)]
pub struct CalendarDay {
    pub year: i32,
    pub month: u32,
    pub day: u32,
}

/// The calendar day in UTC of a moment, given by the seconds and the
/// nanoseconds of a second that have passed since the start of 1970, as
/// `chrono::DateTime::from_timestamp` gives it; `None` for a moment out of
/// its range.
pub uninterp spec fn day_at(secs: int, nanos: int) -> Option<CalendarDay>;

impl CalendarDay {
    /// Whether the calendar has this day.
    pub open spec fn is_valid(self) -> bool {
        is_calendar_day(self.year as int, self.month as int, self.day as int)
    }

    /// The day as `YYYY-MM-DD`.
    pub open spec fn text(self) -> Seq<char> {
        day_text(self.year as int, self.month as int, self.day as int)
    }

    /// The day in UTC of the moment `secs` seconds and `nanos` nanoseconds
    /// after the start of 1970; `None` for a moment out of range.
    pub fn at_unix_time(secs: i64, nanos: u32) -> (day: Option<CalendarDay>)
        ensures
            day == day_at(secs as int, nanos as int),
            day matches Some(d) ==> d.is_valid(),
    {
        day_of_unix_time(secs, nanos)
    }

    /// The current day in UTC; `None` where the clock cannot be read as a
    /// moment since the start of 1970.
    pub fn today() -> (today: Option<CalendarDay>)
        ensures
            today matches Some(day) ==> day.is_valid(),
    {
        match unix_time_now() {
            Some((secs, nanos)) => {
                if secs <= 0x7fff_ffff_ffff_ffff {
                    CalendarDay::at_unix_time(secs as i64, nanos)
                } else {
                    None
                }
            },
            None => None,
        }
    }

    /// The day as `YYYY-MM-DD`, or `None` for numbers that name no day.
    pub fn format(&self) -> (text: Option<String>)
        ensures
            text is Some <==> self.is_valid(),
            text matches Some(t) ==> t@ == self.text(),
    {
        format_day(self.year, self.month, self.day)
    }
}

/// The current UTC day as `YYYY-MM-DD`; `None` where the clock cannot be
/// read.
pub fn today_text() -> (text: Option<String>)
    ensures
        text matches Some(t) ==> exists|day: CalendarDay| day.is_valid() && t@ == day.text(),
{
    match CalendarDay::today() {
        Some(today) => today.format(),
        None => None,
    }
}

/// Reads the clock: `std::time::SystemTime::elapsed` of
/// `std::time::UNIX_EPOCH`, the time that has passed since the start of
/// 1970, in whole seconds and the nanoseconds of the second begun.
///
/// Trusted: nothing is stated of the result, which depends on the clock.
/// It is `None` where the clock stands before 1970.
#[verifier::external_body]
fn unix_time_now() -> (now: Option<(u64, u32)>) {
    match std::time::UNIX_EPOCH.elapsed() {
        Ok(passed) => Some((passed.as_secs(), passed.subsec_nanos())),
        Err(_) => None,
    }
}

/// Calls `chrono::DateTime::from_timestamp`, and of the moment that it
/// gives the `year()`, `month()` and `day()` of `chrono::Datelike`.
///
/// Trusted: the result depends on the two numbers alone, and the three
/// numbers of a day are those of a date that `chrono` holds, so they name a
/// day of the calendar within `MIN_YEAR..=MAX_YEAR`.
#[verifier::external_body]
fn day_of_unix_time(secs: i64, nanos: u32) -> (day: Option<CalendarDay>)
    ensures
        day == day_at(secs as int, nanos as int),
        day matches Some(d) ==> d.is_valid(),
{
    match chrono::DateTime::from_timestamp(secs, nanos) {
        Some(moment) => Some(
            CalendarDay {
                year: chrono::Datelike::year(&moment),
                month: chrono::Datelike::month(&moment),
                day: chrono::Datelike::day(&moment),
            },
        ),
        None => None,
    }
}

/// Calls `chrono::NaiveDate::from_ymd_opt` and writes the date with
/// `format_with_items` and the items `%Y-%m-%d`.
///
/// Trusted: `from_ymd_opt` gives a date exactly for the days that the
/// calendar has within `MIN_YEAR..=MAX_YEAR`; the text is the year (four
/// digits from 0 to 9999, otherwise a sign and at least four digits), the
/// month and the day in two digits each, with `-` between them.
#[verifier::external_body]
fn format_day(year: i32, month: u32, day: u32) -> (text: Option<String>)
    ensures
        text is Some <==> is_calendar_day(year as int, month as int, day as int),
        text matches Some(t) ==> t@ == day_text(year as int, month as int, day as int),
{
    let items = chrono::format::StrftimeItems::new("%Y-%m-%d");
    match chrono::NaiveDate::from_ymd_opt(year, month, day) {
        Some(date) => Some(date.format_with_items(items).to_string()),
        None => None,
    }
}

} // verus!
