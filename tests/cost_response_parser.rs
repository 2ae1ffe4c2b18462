use aws_cost_notifier::amount::Amount;
use aws_cost_notifier::calendar::CalendarDate;
use aws_cost_notifier::cost_response_parser::{
    parse_timestamp_into_local_date, Cost, ReportedDateRange, ServiceCost, TotalCost,
};
use aws_cost_notifier::error::ReportError;
use aws_cost_notifier::response::{
    CostAndUsageResponse, DateInterval, Group, MetricValue, ResultByTime,
};
use aws_cost_notifier::test_utils::{prepare_sample_response, InputServiceCost};

fn ymd(year: i32, month: u32, day: u32) -> CalendarDate {
    CalendarDate { year, month, day }
}

fn usd(mantissa: i64, places: u32) -> Cost {
    Cost {
        amount: Amount::from_decimal(mantissa, places),
        unit: String::from("USD"),
    }
}

fn july_period() -> Option<DateInterval> {
    Some(DateInterval {
        start: String::from("2021-07-01"),
        end: String::from("2021-07-18"),
    })
}

fn two_services() -> Option<Vec<InputServiceCost>> {
    Some(vec![
        InputServiceCost::new("Amazon Simple Storage Service", "1234.56"),
        InputServiceCost::new("Amazon Elastic Compute Cloud", "31415.92"),
    ])
}

#[test]
fn cost_response_parser_parse_timestamp_into_local_date_correctly() {
    let input_timestamp = "2021-07-22";
    let expected_parsed_date = ymd(2021, 7, 22);
    let actual_parsed_date = parse_timestamp_into_local_date(input_timestamp).unwrap();
    assert_eq!(expected_parsed_date, actual_parsed_date);
}

#[test]
fn cost_response_parser_parse_cost_from_metric_value_correctly() {
    let input_metric_value = MetricValue {
        amount: Some("123.56".to_string()),
        unit: Some("USD".to_string()),
    };
    let expected_cost = usd(12356, 2);
    let actual_cost = Cost::from_metric_value(&input_metric_value).unwrap();
    assert_eq!(expected_cost, actual_cost);
}

#[test]
fn cost_response_parser_parse_total_cost_correctly() {
    let input_response = prepare_sample_response(july_period(), Some(String::from("1234.56")), None);
    let expected_parsed_total_cost = TotalCost {
        date_range: ReportedDateRange {
            start_date: ymd(2021, 7, 1),
            end_date: ymd(2021, 7, 18),
        },
        cost: usd(123456, 2),
    };
    let actual_parsed_total_cost = TotalCost::from_response(&input_response).unwrap();
    assert_eq!(expected_parsed_total_cost, actual_parsed_total_cost);
}

#[test]
fn cost_response_parser_parse_service_costs_correctly() {
    let input_response = prepare_sample_response(None, None, two_services());
    let expected_parsed_service_costs = vec![
        ServiceCost {
            service_name: String::from("Amazon Simple Storage Service"),
            cost: usd(123456, 2),
        },
        ServiceCost {
            service_name: String::from("Amazon Elastic Compute Cloud"),
            cost: usd(3141592, 2),
        },
    ];
    let actual_parsed_service_costs = ServiceCost::from_response(&input_response).unwrap();
    assert_eq!(expected_parsed_service_costs, actual_parsed_service_costs);
}

#[test]
fn total_cost_parse_timestamp_into_local_date_correctly() {
    let actual_parsed_date = parse_timestamp_into_local_date("2021-07-22").unwrap();
    assert_eq!(ymd(2021, 7, 22), actual_parsed_date);
}

#[test]
fn total_cost_parse_total_cost_correctly() {
    let input_response = prepare_sample_response(july_period(), Some(String::from("1234.56")), None);
    let expected = TotalCost {
        date_range: ReportedDateRange {
            start_date: ymd(2021, 7, 1),
            end_date: ymd(2021, 7, 18),
        },
        cost: usd(123456, 2),
    };
    assert_eq!(Ok(expected), TotalCost::from_response(&input_response));
}

#[test]
fn total_cost_parse_service_costs_correctly() {
    let input_response = prepare_sample_response(
        None,
        None,
        Some(vec![InputServiceCost::new("Amazon Simple Storage Service", "1234.56")]),
    );
    let expected = vec![ServiceCost {
        service_name: String::from("Amazon Simple Storage Service"),
        cost: usd(123456, 2),
    }];
    assert_eq!(Ok(expected), ServiceCost::from_response(&input_response));
}

#[test]
fn parsing_twice_gives_equal_results() {
    let response = prepare_sample_response(july_period(), Some(String::from("1234.56")), two_services());
    assert_eq!(TotalCost::from_response(&response), TotalCost::from_response(&response));
    assert_eq!(ServiceCost::from_response(&response), ServiceCost::from_response(&response));
}

#[test]
fn timestamp_must_be_strict() {
    for text in ["2021/07/22", "2021-7-22", " 2021-07-22", "2021-07-22 ", "21-07-22", "", "2021-07-2x"] {
        assert_eq!(Err(ReportError::InvalidTimestamp), parse_timestamp_into_local_date(text));
    }
}

#[test]
fn timestamp_must_name_a_day() {
    assert_eq!(Err(ReportError::InvalidTimestamp), parse_timestamp_into_local_date("2021-02-29"));
    assert_eq!(Err(ReportError::InvalidTimestamp), parse_timestamp_into_local_date("2021-13-01"));
    assert_eq!(Err(ReportError::InvalidTimestamp), parse_timestamp_into_local_date("2021-04-31"));
    assert_eq!(Ok(ymd(2020, 2, 29)), parse_timestamp_into_local_date("2020-02-29"));
}

#[test]
fn bad_period_bound_is_invalid_timestamp() {
    let period = Some(DateInterval {
        start: String::from("2021-07-01"),
        end: String::from("July 18"),
    });
    let response = prepare_sample_response(period, Some(String::from("1.00")), None);
    assert_eq!(Err(ReportError::InvalidTimestamp), TotalCost::from_response(&response));
}

#[test]
fn missing_sections_are_missing_field() {
    let no_results = CostAndUsageResponse { results_by_time: None };
    assert_eq!(Err(ReportError::MissingField), TotalCost::from_response(&no_results));
    assert_eq!(Err(ReportError::MissingField), ServiceCost::from_response(&no_results));

    let empty_results = CostAndUsageResponse { results_by_time: Some(vec![]) };
    assert_eq!(Err(ReportError::MissingField), TotalCost::from_response(&empty_results));
    assert_eq!(Err(ReportError::MissingField), ServiceCost::from_response(&empty_results));

    let no_period = prepare_sample_response(None, Some(String::from("1.00")), None);
    assert_eq!(Err(ReportError::MissingField), TotalCost::from_response(&no_period));

    let no_groups = prepare_sample_response(july_period(), Some(String::from("1.00")), None);
    assert_eq!(Err(ReportError::MissingField), ServiceCost::from_response(&no_groups));

    let no_amount = prepare_sample_response(july_period(), None, None);
    assert_eq!(Err(ReportError::MissingField), TotalCost::from_response(&no_amount));

    let no_total = CostAndUsageResponse {
        results_by_time: Some(vec![ResultByTime {
            time_period: july_period(),
            total: None,
            groups: None,
        }]),
    };
    assert_eq!(Err(ReportError::MissingField), TotalCost::from_response(&no_total));

    let other_metric = CostAndUsageResponse {
        results_by_time: Some(vec![ResultByTime {
            time_period: july_period(),
            total: Some(vec![(
                String::from("BlendedCost"),
                MetricValue { amount: Some(String::from("1.00")), unit: Some(String::from("USD")) },
            )]),
            groups: None,
        }]),
    };
    assert_eq!(Err(ReportError::MissingField), TotalCost::from_response(&other_metric));
}

#[test]
fn metric_value_errors() {
    let no_unit = MetricValue { amount: Some(String::from("1.00")), unit: None };
    assert_eq!(Err(ReportError::MissingField), Cost::from_metric_value(&no_unit));
    let no_amount = MetricValue { amount: None, unit: Some(String::from("USD")) };
    assert_eq!(Err(ReportError::MissingField), Cost::from_metric_value(&no_amount));
    let malformed = MetricValue { amount: Some(String::from("12,5")), unit: Some(String::from("USD")) };
    assert_eq!(Err(ReportError::MalformedCost), Cost::from_metric_value(&malformed));
}

#[test]
fn malformed_service_amount_is_malformed_cost() {
    let response = prepare_sample_response(
        None,
        None,
        Some(vec![
            InputServiceCost::new("Amazon Simple Storage Service", "1.00"),
            InputServiceCost::new("Amazon Elastic Compute Cloud", "lots"),
        ]),
    );
    assert_eq!(Err(ReportError::MalformedCost), ServiceCost::from_response(&response));
}

#[test]
fn group_without_keys_is_missing_field() {
    let group = Group {
        keys: Some(vec![]),
        metrics: Some(vec![(
            String::from("AmortizedCost"),
            MetricValue { amount: Some(String::from("1.00")), unit: Some(String::from("USD")) },
        )]),
    };
    assert_eq!(Err(ReportError::MissingField), ServiceCost::from_group(&group));
}

#[test]
fn metric_is_found_among_others() {
    let group = Group {
        keys: Some(vec![String::from("AWS Lambda"), String::from("ignored")]),
        metrics: Some(vec![
            (
                String::from("BlendedCost"),
                MetricValue { amount: Some(String::from("9.00")), unit: Some(String::from("USD")) },
            ),
            (
                String::from("AmortizedCost"),
                MetricValue { amount: Some(String::from("2.50")), unit: Some(String::from("EUR")) },
            ),
        ]),
    };
    let expected = ServiceCost {
        service_name: String::from("AWS Lambda"),
        cost: Cost { amount: Amount::from_decimal(250, 2), unit: String::from("EUR") },
    };
    assert_eq!(Ok(expected), ServiceCost::from_group(&group));
}
