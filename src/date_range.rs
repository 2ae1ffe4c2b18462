//! The reporting period: from the first day of the month up to the reporting date, or
//! the whole previous month and the 1st where the report runs on a 1st.

use vstd::prelude::*;

use crate::calendar::{
    date_in_zone, format_iso_date, iso_date_text, is_zone_name, local_date_of, year_text,
    CalendarDate, MAX_TIMESTAMP_SECONDS,
};
use crate::cost_response_parser::{
    date_of_timestamp, range_of_interval, ReportedDateRange,
};
use crate::error::ReportError;
use crate::response::DateInterval;
use crate::text::{
    digit_char, digit_value, digits_value, is_digit, lemma_digit_char, nat_text, pad2_text,
};

verus! {

/// The reporting date in a time zone: the calendar date, in the zone named `tz_string`,
/// at the instant `timestamp` seconds after 1970-01-01 00:00:00 UTC.
pub fn date_in_specified_timezone(timestamp: i64, tz_string: String) -> (r: Result<
    CalendarDate,
    ReportError,
>)
    ensures
        (timestamp < -MAX_TIMESTAMP_SECONDS || timestamp > MAX_TIMESTAMP_SECONDS) ==> r == Err::<
            CalendarDate,
            ReportError,
        >(ReportError::InvalidDate),
        -MAX_TIMESTAMP_SECONDS <= timestamp <= MAX_TIMESTAMP_SECONDS && !is_zone_name(tz_string@)
            ==> r == Err::<CalendarDate, ReportError>(ReportError::InvalidTimezone),
        -MAX_TIMESTAMP_SECONDS <= timestamp <= MAX_TIMESTAMP_SECONDS && is_zone_name(tz_string@)
            ==> r == Ok::<CalendarDate, ReportError>(local_date_of(timestamp as int, tz_string@)),
        r is Ok ==> r->Ok_0.wf(),
{
    if timestamp < -MAX_TIMESTAMP_SECONDS || timestamp > MAX_TIMESTAMP_SECONDS {
        return Err(ReportError::InvalidDate);
    }
    match date_in_zone(timestamp, tz_string.as_str()) {
        Some(d) => Ok(d),
        None => Err(ReportError::InvalidTimezone),
    }
}

/// The first day of the month of `d`.
pub open spec fn first_of_month(d: CalendarDate) -> CalendarDate {
    CalendarDate { year: d.year, month: d.month, day: 1 }
}

/// The first day of the month before the month of `d`.
pub open spec fn first_of_previous_month(d: CalendarDate) -> CalendarDate {
    if d.month == 1 {
        CalendarDate { year: (d.year - 1) as i32, month: 12, day: 1 }
    } else {
        CalendarDate { year: d.year, month: (d.month - 1) as u32, day: 1 }
    }
}

/// The period that a report run on a date covers.
#[derive(Clone, Copy, Debug, PartialEq, Eq, Structural)]
pub struct ReportDateRange {
    pub start_date: CalendarDate,
    pub end_date: CalendarDate,
}

impl ReportDateRange {
    /// The period of a report run on `reporting_date`: it ends on that date, and starts on
    /// the first day of its month, or of the previous month where it is itself a 1st.
    /// Fails with `InvalidDate` where `reporting_date` is no day of the calendar, or where
    /// the period would start before the first year that a date holds.
    pub fn new(reporting_date: CalendarDate) -> (r: Result<Self, ReportError>)
        ensures
            r is Err <==> !reporting_date.wf() || (reporting_date.year == i32::MIN
                && reporting_date.month == 1 && reporting_date.day == 1),
            r is Err ==> r == Err::<Self, ReportError>(ReportError::InvalidDate),
            r is Ok ==> r->Ok_0.end_date == reporting_date,
            r is Ok && reporting_date.day != 1 ==> r->Ok_0.start_date == first_of_month(
                reporting_date,
            ),
            r is Ok && reporting_date.day == 1 ==> r->Ok_0.start_date == first_of_previous_month(
                reporting_date,
            ),
            r is Ok ==> r->Ok_0.start_date.wf(),
    {
        if !reporting_date.is_valid() {
            return Err(ReportError::InvalidDate);
        }
        let start_date = if reporting_date.day == 1 {
            if reporting_date.month == 1 {
                if reporting_date.year == i32::MIN {
                    return Err(ReportError::InvalidDate);
                }
                CalendarDate { year: reporting_date.year - 1, month: 12, day: 1 }
            } else {
                CalendarDate { year: reporting_date.year, month: reporting_date.month - 1, day: 1 }
            }
        } else {
            CalendarDate { year: reporting_date.year, month: reporting_date.month, day: 1 }
        };
        Ok(ReportDateRange { start_date, end_date: reporting_date })
    }

    /// The period as a query interval: both dates written `YYYY-MM-DD`.
    pub fn as_date_interval(&self) -> (r: DateInterval)
        requires
            self.start_date.wf(),
            self.end_date.wf(),
            self.start_date.has_four_digit_year(),
            self.end_date.has_four_digit_year(),
        ensures
            r.start@ == iso_date_text(self.start_date),
            r.end@ == iso_date_text(self.end_date),
    {
        DateInterval { start: format_iso_date(self.start_date), end: format_iso_date(self.end_date) }
    }
}

proof fn lemma_two_digits(n: nat)
    requires
        n < 100,
    ensures
        pad2_text(n) == seq![digit_char(n / 10), digit_char(n % 10)],
{
    reveal_with_fuel(nat_text, 2);
    if n >= 10 {
        assert(nat_text(n) =~= seq![digit_char(n / 10), digit_char(n % 10)]);
    }
}

proof fn lemma_read_two_digits(s: Seq<char>, n: nat)
    requires
        n < 100,
        s == seq![digit_char(n / 10), digit_char(n % 10)],
    ensures
        is_digit(s[0]) && is_digit(s[1]),
        digits_value(s) == n,
{
    lemma_digit_char(n / 10);
    lemma_digit_char(n % 10);
    let s1 = s.drop_last();
    assert(s1 =~= seq![s[0]]);
    assert(s1.drop_last() =~= Seq::<char>::empty());
    assert(digits_value(s1.drop_last()) == 0);
    assert(digits_value(s1) == digit_value(s[0]));
    assert(digits_value(s) == digit_value(s[0]) * 10 + digit_value(s[1]));
}

proof fn lemma_read_year(s: Seq<char>, y: nat)
    requires
        y <= 9999,
        s == year_text(y),
    ensures
        is_digit(s[0]) && is_digit(s[1]) && is_digit(s[2]) && is_digit(s[3]),
        digits_value(s) == y,
{
    lemma_digit_char(y / 1000);
    lemma_digit_char(y / 100 % 10);
    lemma_digit_char(y / 10 % 10);
    lemma_digit_char(y % 10);
    let s3 = s.drop_last();
    let s2 = s3.drop_last();
    let s1 = s2.drop_last();
    assert(s3 =~= seq![s[0], s[1], s[2]]);
    assert(s2 =~= seq![s[0], s[1]]);
    assert(s1 =~= seq![s[0]]);
    assert(s1.drop_last() =~= Seq::<char>::empty());
    assert(digits_value(s1.drop_last()) == 0);
    assert(digits_value(s1) == digit_value(s[0]));
    assert(digits_value(s2) == digit_value(s[0]) * 10 + digit_value(s[1]));
    assert(digits_value(s3) == digits_value(s2) * 10 + digit_value(s[2]));
    assert(digits_value(s) == digits_value(s3) * 10 + digit_value(s[3]));
    assert(y == (y / 1000) * 1000 + (y / 100 % 10) * 100 + (y / 10 % 10) * 10 + y % 10);
}

/// Reading the `YYYY-MM-DD` text of a date gives the date back.
pub proof fn lemma_date_text_round_trip(d: CalendarDate)
    requires
        d.wf(),
        d.has_four_digit_year(),
    ensures
        date_of_timestamp(iso_date_text(d)) == Ok::<CalendarDate, ReportError>(d),
{
    let s = iso_date_text(d);
    lemma_two_digits(d.month as nat);
    lemma_two_digits(d.day as nat);
    let y = year_text(d.year as nat);
    let m = pad2_text(d.month as nat);
    let dd = pad2_text(d.day as nat);
    assert(s.subrange(0, 4) =~= y);
    assert(s.subrange(5, 7) =~= m);
    assert(s.subrange(8, 10) =~= dd);
    lemma_read_year(y, d.year as nat);
    lemma_read_two_digits(m, d.month as nat);
    lemma_read_two_digits(dd, d.day as nat);
    assert(s[4] == '-');
    assert(s[7] == '-');
}

/// Writing a reporting period as a query interval and reading the interval back gives
/// the same two dates.
pub proof fn lemma_interval_round_trip(range: ReportDateRange, interval: DateInterval)
    requires
        range.start_date.wf(),
        range.end_date.wf(),
        range.start_date.has_four_digit_year(),
        range.end_date.has_four_digit_year(),
        interval.start@ == iso_date_text(range.start_date),
        interval.end@ == iso_date_text(range.end_date),
    ensures
        range_of_interval(interval) == Ok::<ReportedDateRange, ReportError>(
            ReportedDateRange { start_date: range.start_date, end_date: range.end_date },
        ),
{
    lemma_date_text_round_trip(range.start_date);
    lemma_date_text_round_trip(range.end_date);
}

} // verus!
