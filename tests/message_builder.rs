use aws_cost_notifier::amount::Amount;
use aws_cost_notifier::calendar::CalendarDate;
use aws_cost_notifier::cost_response_parser::{Cost, ReportedDateRange, ServiceCost, TotalCost};
use aws_cost_notifier::message_builder::NotificationMessage;

fn ymd(year: i32, month: u32, day: u32) -> CalendarDate {
    CalendarDate { year, month, day }
}

fn usd(mantissa: i64, places: u32) -> Cost {
    Cost {
        amount: Amount::from_decimal(mantissa, places),
        unit: "USD".to_string(),
    }
}

fn july_1_to_11() -> ReportedDateRange {
    ReportedDateRange {
        start_date: ymd(2021, 7, 1),
        end_date: ymd(2021, 7, 11),
    }
}

fn service(name: &str, cost: Cost) -> ServiceCost {
    ServiceCost {
        service_name: name.to_string(),
        cost,
    }
}

#[test]
fn display_correctly() {
    let input_cost = usd(1322345, 4);
    assert_eq!("132.23 USD", input_cost.to_string());
}

#[test]
fn test_display_correctly() {
    let sample_date_range = ReportedDateRange {
        start_date: ymd(2021, 7, 1),
        end_date: ymd(2021, 7, 23),
    };
    assert_eq!("07/01~07/23", sample_date_range.to_string())
}

#[test]
fn date_range_of_two_digit_months() {
    let range = ReportedDateRange {
        start_date: ymd(2021, 11, 30),
        end_date: ymd(2021, 12, 1),
    };
    assert_eq!("11/30~12/01", range.to_string())
}

#[test]
fn convert_total_cost_into_message_header_correctly() {
    let sample_total_cost = TotalCost {
        date_range: july_1_to_11(),
        cost: usd(16234, 4),
    };
    let expected_header = "07/01~07/11の請求額は、1.62 USDです。";
    let actual_header = sample_total_cost.to_message_header();
    assert_eq!(expected_header, actual_header);
}

#[test]
fn convert_service_cost_into_message_line_correctly() {
    let sample_service_cost = service("AWS CloudTrail", usd(123, 4));
    let expected_line = "・AWS CloudTrail: 0.01 USD";
    let actual_line = sample_service_cost.to_message_line();
    assert_eq!(expected_line, actual_line);
}

#[test]
fn construct_notification_message_correctly() {
    let sample_total_cost = TotalCost {
        date_range: july_1_to_11(),
        cost: usd(1357, 3),
    };
    let sample_service_costs = vec![
        service("AWS CloudTrail", usd(1234, 3)),
        service("AWS Cost Explorer", usd(123, 3)),
    ];
    let actual_message = NotificationMessage::new(sample_total_cost, sample_service_costs);
    assert_eq!("07/01~07/11の請求額は、1.36 USDです。", actual_message.header);
    assert_eq!(
        "・AWS CloudTrail: 1.23 USD\n・AWS Cost Explorer: 0.12 USD",
        actual_message.body
    );
}

#[test]
fn sort_service_costs_by_descending_order_correctly() {
    let sample_total_cost = TotalCost {
        date_range: july_1_to_11(),
        cost: usd(16234, 4),
    };
    let sample_service_costs = vec![
        service("AWS Service A", usd(10, 1)),
        service("AWS Service B", usd(30, 1)),
        service("AWS Service C", usd(20, 1)),
    ];
    let actual_message = NotificationMessage::new(sample_total_cost, sample_service_costs);
    assert_eq!(
        "・AWS Service B: 3.00 USD\n・AWS Service C: 2.00 USD\n・AWS Service A: 1.00 USD",
        actual_message.body
    );
}

#[test]
fn message_line_is_not_displayed_when_cost_is_zero() {
    let sample_total_cost = TotalCost {
        date_range: july_1_to_11(),
        cost: usd(1, 2),
    };
    let sample_service_costs = vec![
        service("AWS CloudTrail", usd(1, 2)),
        service("AWS Cost Explorer", usd(1, 3)),
        service("AWS Dummy Service", usd(5, 3)),
    ];
    let actual_message = NotificationMessage::new(sample_total_cost, sample_service_costs);
    assert_eq!("07/01~07/11の請求額は、0.01 USDです。", actual_message.header);
    assert_eq!("・AWS CloudTrail: 0.01 USD", actual_message.body);
}

#[test]
fn equal_costs_keep_their_order() {
    let total = TotalCost {
        date_range: july_1_to_11(),
        cost: usd(700, 2),
    };
    let services = vec![
        service("First", usd(200, 2)),
        service("Second", usd(300, 2)),
        service("Third", usd(2, 0)),
    ];
    let message = NotificationMessage::new(total, services);
    assert_eq!(
        "・Second: 3.00 USD\n・First: 2.00 USD\n・Third: 2.00 USD",
        message.body
    );
}

#[test]
fn no_services_give_an_empty_body() {
    let total = TotalCost {
        date_range: july_1_to_11(),
        cost: usd(0, 0),
    };
    let message = NotificationMessage::new(total, vec![]);
    assert_eq!("07/01~07/11の請求額は、0.00 USDです。", message.header);
    assert_eq!("", message.body);
}

#[test]
fn all_zero_services_give_an_empty_body() {
    let total = TotalCost {
        date_range: july_1_to_11(),
        cost: usd(5, 0),
    };
    let services = vec![service("A", usd(4, 3)), service("B", usd(-4, 3))];
    let message = NotificationMessage::new(total, services);
    assert_eq!("", message.body);
}

#[test]
fn zero_cost_line_is_dropped_between_others() {
    let total = TotalCost {
        date_range: july_1_to_11(),
        cost: usd(5, 0),
    };
    let services = vec![
        service("Small", usd(2, 2)),
        service("Nothing", usd(49, 4)),
        service("Big", usd(4, 0)),
    ];
    let message = NotificationMessage::new(total, services);
    assert_eq!("・Big: 4.00 USD\n・Small: 0.02 USD", message.body);
}
