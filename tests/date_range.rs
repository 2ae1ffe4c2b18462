use aws_cost_notifier::calendar::CalendarDate;
use aws_cost_notifier::cost_response_parser::ReportedDateRange;
use aws_cost_notifier::date_range::{date_in_specified_timezone, ReportDateRange};
use aws_cost_notifier::error::ReportError;
use aws_cost_notifier::response::DateInterval;

fn ymd(year: i32, month: u32, day: u32) -> CalendarDate {
    CalendarDate { year, month, day }
}

// 2021-07-31 12:00:00 UTC
#[test]
fn convert_timezone_correctly() {
    let tz_string = "Asia/Tokyo".to_string();
    let actual_date = date_in_specified_timezone(1627732800, tz_string).unwrap();
    assert_eq!(ymd(2021, 7, 31), actual_date);
}

// 2021-07-31 15:00:00 UTC is midnight of 2021-08-01 in Tokyo.
#[test]
fn with_different_date() {
    let tz_string = "Asia/Tokyo".to_string();
    let actual_date = date_in_specified_timezone(1627743600, tz_string).unwrap();
    assert_eq!(ymd(2021, 8, 1), actual_date);
}

#[test]
fn return_error_for_invalid_timezone() {
    let tz_string = "Invalid/Timezone".to_string();
    let actual_date = date_in_specified_timezone(1627743900, tz_string);
    assert!(actual_date.is_err());
    assert_eq!(Err(ReportError::InvalidTimezone), actual_date);
}

#[test]
fn last_second_before_midnight_in_tokyo() {
    let actual_date = date_in_specified_timezone(1627743599, "Asia/Tokyo".to_string());
    assert_eq!(Ok(ymd(2021, 7, 31)), actual_date);
}

#[test]
fn same_instant_in_utc() {
    let actual_date = date_in_specified_timezone(1627743600, "UTC".to_string());
    assert_eq!(Ok(ymd(2021, 7, 31)), actual_date);
}

#[test]
fn instant_out_of_range_is_invalid_date() {
    let actual_date = date_in_specified_timezone(i64::MAX, "Asia/Tokyo".to_string());
    assert_eq!(Err(ReportError::InvalidDate), actual_date);
}

#[test]
fn reporting_in_middle_of_month() {
    let expected_date_range = ReportDateRange {
        start_date: ymd(2021, 7, 1),
        end_date: ymd(2021, 7, 18),
    };
    let actual_date_range = ReportDateRange::new(ymd(2021, 7, 18)).unwrap();
    assert_eq!(expected_date_range, actual_date_range);
}

#[test]
fn reporting_at_beginning_of_month() {
    let expected_date_range = ReportDateRange {
        start_date: ymd(2021, 6, 1),
        end_date: ymd(2021, 7, 1),
    };
    let actual_date_range = ReportDateRange::new(ymd(2021, 7, 1)).unwrap();
    assert_eq!(expected_date_range, actual_date_range);
}

#[test]
fn reporting_at_beginning_of_year() {
    let actual_date_range = ReportDateRange::new(ymd(2022, 1, 1)).unwrap();
    assert_eq!(ymd(2021, 12, 1), actual_date_range.start_date);
    assert_eq!(ymd(2022, 1, 1), actual_date_range.end_date);
}

#[test]
fn reporting_at_end_of_month() {
    let actual_date_range = ReportDateRange::new(ymd(2020, 2, 29)).unwrap();
    assert_eq!(ymd(2020, 2, 1), actual_date_range.start_date);
    assert_eq!(ymd(2020, 2, 29), actual_date_range.end_date);
}

#[test]
fn convert_into_date_interval_correctly() {
    let input_date_range = ReportDateRange {
        start_date: ymd(2021, 7, 1),
        end_date: ymd(2021, 7, 22),
    };
    let expected_date_interval = DateInterval {
        start: "2021-07-01".to_string(),
        end: "2021-07-22".to_string(),
    };
    let actual_date_interval = input_date_range.as_date_interval();
    assert_eq!(expected_date_interval, actual_date_interval);
}

#[test]
fn date_interval_pads_small_years() {
    let range = ReportDateRange {
        start_date: ymd(987, 12, 1),
        end_date: ymd(988, 1, 9),
    };
    let interval = range.as_date_interval();
    assert_eq!("0987-12-01", interval.start);
    assert_eq!("0988-01-09", interval.end);
}

#[test]
fn date_interval_reads_back_to_the_same_dates() {
    for range in [
        ReportDateRange::new(ymd(2021, 7, 1)).unwrap(),
        ReportDateRange::new(ymd(2021, 7, 18)).unwrap(),
        ReportDateRange::new(ymd(2024, 3, 1)).unwrap(),
        ReportDateRange::new(ymd(2000, 1, 1)).unwrap(),
    ] {
        let interval = range.as_date_interval();
        let parsed = ReportedDateRange::from_interval(&interval).unwrap();
        assert_eq!(range.start_date, parsed.start_date);
        assert_eq!(range.end_date, parsed.end_date);
    }
}

#[test]
fn reporting_date_must_be_a_calendar_day() {
    for date in [ymd(2021, 2, 29), ymd(2021, 13, 1), ymd(2021, 0, 1), ymd(2021, 4, 31), ymd(2021, 7, 0)] {
        assert_eq!(Err(ReportError::InvalidDate), ReportDateRange::new(date));
    }
    assert!(ReportDateRange::new(ymd(2024, 2, 29)).is_ok());
    assert!(ReportDateRange::new(ymd(2000, 2, 29)).is_ok());
    assert_eq!(Err(ReportError::InvalidDate), ReportDateRange::new(ymd(1900, 2, 29)));
}

#[test]
fn period_must_start_in_a_representable_year() {
    assert_eq!(Err(ReportError::InvalidDate), ReportDateRange::new(ymd(i32::MIN, 1, 1)));
    let range = ReportDateRange::new(ymd(i32::MIN, 1, 2)).unwrap();
    assert_eq!(ymd(i32::MIN, 1, 1), range.start_date);
}
