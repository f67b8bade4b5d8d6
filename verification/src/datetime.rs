use vstd::prelude::*;
use crate::text::{decimal, digit_char, zero_padded};

verus! {

/// A time of day, as the command grammar writes it.
#[derive(Clone, Copy, Debug, PartialEq, Eq)]
pub struct TimeOfDay {
    pub hour: u32,
    pub minute: u32,
    pub second: u32,
}

/// A calendar date with a time of day (no time zone), held as plain numbers.
#[derive(Clone, Copy, Debug, PartialEq, Eq)]
pub struct DateTime {
    pub year: i32,
    pub month: u32,
    pub day: u32,
    pub hour: u32,
    pub minute: u32,
    pub second: u32,
}

/// The earliest year a calendar date may have.
pub open spec fn min_year() -> int {
    -262143
}

/// The latest year a calendar date may have.
pub open spec fn max_year() -> int {
    262142
}

/// Leap years of the proleptic Gregorian calendar.
pub open spec fn is_leap_year(y: int) -> bool {
    y % 4 == 0 && (y % 100 != 0 || y % 400 == 0)
}

/// The number of days of a month (1 to 12) of a year.
pub open spec fn days_in_month(y: int, m: int) -> int {
    if m == 2 {
        if is_leap_year(y) { 29 } else { 28 }
    } else if m == 4 || m == 6 || m == 9 || m == 11 {
        30
    } else {
        31
    }
}

/// A date that exists in the calendar, within the supported years.
pub open spec fn is_calendar_date(y: int, m: int, d: int) -> bool {
    &&& min_year() <= y <= max_year()
    &&& 1 <= m <= 12
    &&& 1 <= d <= days_in_month(y, m)
}

/// A time of day between 00:00:00 and 23:59:59.
pub open spec fn is_clock_time(h: int, m: int, s: int) -> bool {
    0 <= h < 24 && 0 <= m < 60 && 0 <= s < 60
}

impl TimeOfDay {
    /// Midnight.
    pub open spec fn midnight() -> TimeOfDay {
        TimeOfDay { hour: 0, minute: 0, second: 0 }
    }

    pub open spec fn is_valid(self) -> bool {
        is_clock_time(self.hour as int, self.minute as int, self.second as int)
    }
}

impl DateTime {
    pub open spec fn is_valid(self) -> bool {
        &&& is_calendar_date(self.year as int, self.month as int, self.day as int)
        &&& is_clock_time(self.hour as int, self.minute as int, self.second as int)
    }

    /// The date `y-m-d` at the time `t`.
    pub open spec fn at(y: i32, m: u32, d: u32, t: TimeOfDay) -> DateTime {
        DateTime { year: y, month: m, day: d, hour: t.hour, minute: t.minute, second: t.second }
    }

    /// The date and time from its six numbers, where they form a valid date and time.
    pub fn new(year: i32, month: u32, day: u32, hour: u32, minute: u32, second: u32) -> (r: Option<
        DateTime,
    >)
        ensures
            r is Some <==> is_calendar_date(year as int, month as int, day as int) && is_clock_time(
                hour as int,
                minute as int,
                second as int,
            ),
            r matches Some(dt) ==> dt == (DateTime { year, month, day, hour, minute, second }),
    {
        if calendar_date_exists(year, month, day) && clock_time_exists(hour, minute, second) {
            Some(DateTime { year, month, day, hour, minute, second })
        } else {
            None
        }
    }
}

/// `chrono::NaiveDate::from_ymd_opt`, asked only whether it gives a date. The
/// contract claims that it does exactly for the days of the proleptic Gregorian
/// calendar in chrono's year range (-262143 to 262142).
#[verifier::external_body]
pub(crate) fn calendar_date_exists(year: i32, month: u32, day: u32) -> (r: bool)
    ensures
        r == is_calendar_date(year as int, month as int, day as int),
{
    chrono::NaiveDate::from_ymd_opt(year, month, day).is_some()
}

/// `chrono::NaiveTime::from_hms_opt`, asked only whether it gives a time. The
/// contract claims that it does exactly for hours below 24 and minutes and
/// seconds below 60.
#[verifier::external_body]
pub(crate) fn clock_time_exists(hour: u32, minute: u32, second: u32) -> (r: bool)
    ensures
        r == is_clock_time(hour as int, minute as int, second as int),
{
    chrono::NaiveTime::from_hms_opt(hour, minute, second).is_some()
}

// ---------------------------------------------------------------------------
// Text of dates, as chrono formats `%Y-%m-%d` and `%Y-%m-%d %H:%M:%S`
// ---------------------------------------------------------------------------

/// `%Y`: four digits with leading zeros for the years 0 to 9999, otherwise a sign
/// before the digits (zero-padded to four digits).
pub open spec fn year_text(y: int) -> Seq<char> {
    if 0 <= y <= 9999 {
        zero_padded(y as nat, 4)
    } else if y > 9999 {
        seq!['+'] + decimal(y as nat)
    } else {
        seq!['-'] + zero_padded((-y) as nat, 4)
    }
}

/// `%m`, `%d`, `%H`, `%M`, `%S`: two digits with a leading zero.
pub open spec fn two_digits(v: nat) -> Seq<char> {
    seq![digit_char(v / 10), digit_char(v % 10)]
}

/// The text `%Y-%m-%d` of a date.
pub open spec fn date_text(d: DateTime) -> Seq<char> {
    year_text(d.year as int) + seq!['-'] + two_digits(d.month as nat) + seq!['-'] + two_digits(
        d.day as nat,
    )
}

/// The text `%Y-%m-%d %H:%M:%S` of a date and time.
pub open spec fn date_time_text(d: DateTime) -> Seq<char> {
    date_text(d) + seq![' '] + two_digits(d.hour as nat) + seq![':'] + two_digits(d.minute as nat)
        + seq![':'] + two_digits(d.second as nat)
}

/// chrono's `NaiveDate::format` with `%Y-%m-%d`, on the date of `d` (built with
/// `NaiveDate::from_ymd`, which accepts it since it is valid). The contract claims
/// that the text is `date_text(d)`: the year as `%Y` writes it, then the month
/// and the day in two digits, separated by `-`.
#[verifier::external_body]
#[allow(deprecated)]
pub(crate) fn format_date(d: &DateTime) -> (r: String)
    requires
        d.is_valid(),
    ensures
        r@ == date_text(*d),
{
    chrono::NaiveDate::from_ymd(d.year, d.month, d.day).format("%Y-%m-%d").to_string()
}

/// chrono's `NaiveDateTime::format` with `%Y-%m-%d %H:%M:%S`, on `d` (built with
/// `NaiveDate::from_ymd` and `NaiveTime::from_hms`, which accept it since it is
/// valid). The contract claims that the text is `date_time_text(d)`: the date as
/// above, a space, then hours, minutes and seconds in two digits, separated by `:`.
#[verifier::external_body]
#[allow(deprecated)]
pub(crate) fn format_date_time(d: &DateTime) -> (r: String)
    requires
        d.is_valid(),
    ensures
        r@ == date_time_text(*d),
{
    chrono::NaiveDateTime::new(
        chrono::NaiveDate::from_ymd(d.year, d.month, d.day),
        chrono::NaiveTime::from_hms(d.hour, d.minute, d.second),
    ).format("%Y-%m-%d %H:%M:%S").to_string()
}

} // verus!
