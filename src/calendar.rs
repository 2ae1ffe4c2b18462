//! Calendar dates, their `YYYY-MM-DD` text, and the date of an instant in a time zone.

use chrono::Datelike;
use vstd::arithmetic::div_mod::lemma_mod_multiples_vanish;
use vstd::prelude::*;

use crate::text::{all_digits, digit_char, digits_value, pad2_text};

verus! {

/// A day of the proleptic Gregorian calendar.
#[derive(Clone, Copy, Debug, PartialEq, Eq, Structural)]
pub struct CalendarDate {
    pub year: i32,
    /// From 1 (January) to 12 (December).
    pub month: u32,
    /// From 1 to the number of days in the month.
    pub day: u32,
}

pub open spec fn is_leap_year(year: int) -> bool {
    (year % 4 == 0 && year % 100 != 0) || year % 400 == 0
}

pub open spec fn days_in_month(year: int, month: int) -> int {
    if month == 2 {
        if is_leap_year(year) {
            29
        } else {
            28
        }
    } else if month == 4 || month == 6 || month == 9 || month == 11 {
        30
    } else {
        31
    }
}

/// Whether year, month and day name a day of the calendar.
pub open spec fn is_valid_date(year: int, month: int, day: int) -> bool {
    1 <= month <= 12 && 1 <= day <= days_in_month(year, month)
}

/// The number of days in a month from 1 to 12.
fn month_length(year: i32, month: u32) -> (r: u32)
    requires
        1 <= month <= 12,
    ensures
        r == days_in_month(year as int, month as int),
{
    if month == 2 {
        // Shifting by a multiple of 400 years keeps leap years and makes the year positive.
        let shifted: u64 = (year as i64 + 4_000_000_000) as u64;
        proof {
            let y = year as int;
            assert(shifted == 4 * 1_000_000_000 + y);
            lemma_mod_multiples_vanish(1_000_000_000, y, 4);
            assert(shifted == 100 * 40_000_000 + y);
            lemma_mod_multiples_vanish(40_000_000, y, 100);
            assert(shifted == 400 * 10_000_000 + y);
            lemma_mod_multiples_vanish(10_000_000, y, 400);
        }
        if (shifted % 4 == 0 && shifted % 100 != 0) || shifted % 400 == 0 {
            29
        } else {
            28
        }
    } else if month == 4 || month == 6 || month == 9 || month == 11 {
        30
    } else {
        31
    }
}

impl CalendarDate {
    pub open spec fn wf(self) -> bool {
        is_valid_date(self.year as int, self.month as int, self.day as int)
    }

    /// Whether the date is a day of the calendar.
    pub fn is_valid(&self) -> (r: bool)
        ensures
            r == self.wf(),
    {
        if self.month < 1 || self.month > 12 || self.day < 1 {
            return false;
        }
        self.day <= month_length(self.year, self.month)
    }

    /// Whether the year can be written with four digits.
    pub open spec fn has_four_digit_year(self) -> bool {
        0 <= self.year <= 9999
    }
}

/// The four digits of a year from 0 to 9999.
pub open spec fn year_text(year: nat) -> Seq<char> {
    seq![
        digit_char(year / 1000),
        digit_char(year / 100 % 10),
        digit_char(year / 10 % 10),
        digit_char(year % 10),
    ]
}

/// The `YYYY-MM-DD` text of a date whose year has four digits.
pub open spec fn iso_date_text(d: CalendarDate) -> Seq<char> {
    year_text(d.year as nat) + seq!['-'] + pad2_text(d.month as nat) + seq!['-'] + pad2_text(
        d.day as nat,
    )
}

/// Whether `s` has the shape `YYYY-MM-DD`: digits, with dashes at the fifth and eighth places.
pub open spec fn is_iso_date_shape(s: Seq<char>) -> bool {
    &&& s.len() == 10
    &&& all_digits(s.subrange(0, 4))
    &&& s[4] == '-'
    &&& all_digits(s.subrange(5, 7))
    &&& s[7] == '-'
    &&& all_digits(s.subrange(8, 10))
}

/// The date that text of the shape `YYYY-MM-DD` names, if its numbers name a day of the calendar.
pub open spec fn date_of_iso_text(s: Seq<char>) -> Option<CalendarDate> {
    let year = digits_value(s.subrange(0, 4));
    let month = digits_value(s.subrange(5, 7));
    let day = digits_value(s.subrange(8, 10));
    if is_valid_date(year as int, month as int, day as int) {
        Some(CalendarDate { year: year as i32, month: month as u32, day: day as u32 })
    } else {
        None
    }
}

/// Relies on chrono's `NaiveDate::parse_from_str` with the format `%Y-%m-%d`: text of
/// four digits, a dash, two digits, a dash and two digits is read as year, month and day,
/// and is accepted exactly when these name a day of the calendar.
#[verifier::external_body]
pub(crate) fn parse_iso_date(s: &str) -> (r: Option<CalendarDate>)
    requires
        is_iso_date_shape(s@),
    ensures
        r == date_of_iso_text(s@),
{
    match chrono::NaiveDate::parse_from_str(s, "%Y-%m-%d") {
        Ok(d) => Some(CalendarDate { year: d.year(), month: d.month(), day: d.day() }),
        Err(_) => None,
    }
}

/// Relies on chrono's `NaiveDate::from_ymd_opt` and its `format("%Y-%m-%d")`: a date of a
/// year from 0 to 9999 is written as four, two and two zero-padded digits joined by dashes.
#[verifier::external_body]
pub(crate) fn format_iso_date(d: CalendarDate) -> (r: String)
    requires
        d.wf(),
        d.has_four_digit_year(),
    ensures
        r@ == iso_date_text(d),
{
    chrono::NaiveDate::from_ymd_opt(d.year, d.month, d.day).unwrap().format("%Y-%m-%d").to_string()
}

/// Whether the time zone database knows a zone by this name.
pub uninterp spec fn is_zone_name(name: Seq<char>) -> bool;

/// The calendar date, in the named zone, at the instant `timestamp` seconds after
/// 1970-01-01 00:00:00 UTC.
pub uninterp spec fn local_date_of(timestamp: int, zone: Seq<char>) -> CalendarDate;

/// The instants, in seconds from the Unix epoch, that are certainly within chrono's range
/// (about 250,000 years either way).
pub const MAX_TIMESTAMP_SECONDS: i64 = 8_000_000_000_000;

/// Relies on chrono-tz's `Tz::from_str`, which knows a fixed set of zone names, and on
/// chrono's `DateTime::from_timestamp`, `with_timezone` and `date_naive`, which give the
/// local date at an instant; a date of chrono is always a day of the calendar.
#[verifier::external_body]
pub(crate) fn date_in_zone(timestamp: i64, zone: &str) -> (r: Option<CalendarDate>)
    requires
        -MAX_TIMESTAMP_SECONDS <= timestamp <= MAX_TIMESTAMP_SECONDS,
    ensures
        r is Some <==> is_zone_name(zone@),
        r is Some ==> r->0 == local_date_of(timestamp as int, zone@),
        r is Some ==> r->0.wf(),
{
    let tz: chrono_tz::Tz = zone.parse().ok()?;
    let instant = chrono::DateTime::from_timestamp(timestamp, 0)?;
    let d = instant.with_timezone(&tz).date_naive();
    Some(CalendarDate { year: d.year(), month: d.month(), day: d.day() })
}

} // verus!
