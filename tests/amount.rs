use aws_cost_notifier::amount::Amount;

fn parsed(text: &str) -> Option<Amount> {
    Amount::parse(text)
}

#[test]
fn parses_plain_decimals() {
    assert_eq!(Some(Amount::from_decimal(123456, 2)), parsed("1234.56"));
    assert_eq!(Some(Amount::from_decimal(3141592, 2)), parsed("31415.92"));
    assert_eq!(Some(Amount::from_decimal(0, 0)), parsed("0"));
    assert_eq!(Some(Amount::from_decimal(5, 1)), parsed(".5"));
    assert_eq!(Some(Amount::from_decimal(5, 0)), parsed("5."));
    assert_eq!(Some(Amount::from_decimal(2, 0)), parsed("+2"));
    assert_eq!(Some(Amount::from_decimal(-15, 1)), parsed("-1.5"));
    assert_eq!(Some(Amount::from_decimal(7, 0)), parsed("0007"));
}

#[test]
fn amounts_are_held_in_eighteen_places() {
    assert_eq!(Some(Amount { scaled: 1_500_000_000_000_000_000 }), parsed("1.5"));
    assert_eq!(Some(Amount { scaled: 1 }), parsed("0.000000000000000001"));
    assert_eq!(Some(Amount { scaled: 1 }), parsed("0.000000000000000001000"));
    assert_eq!(Some(Amount { scaled: 12 }), parsed("0.000000000000000012"));
}

#[test]
fn rejects_what_is_no_decimal_number() {
    for text in ["", "-", "+", ".", "1.2.3", "abc", "1e5", " 1", "1 ", "1,5", "--1", "NaN", "inf"] {
        assert_eq!(None, parsed(text), "{text}");
    }
}

#[test]
fn rejects_precision_beyond_eighteen_places() {
    assert_eq!(None, parsed("0.0000000000000000001"));
}

#[test]
fn rejects_amounts_too_large_to_hold() {
    assert_eq!(None, parsed("1000000000000000000000"));
    assert_eq!(None, parsed("170141183460469231731.687303715884105728"));
    assert_eq!(
        Some(Amount { scaled: i128::MAX }),
        parsed("170141183460469231731.687303715884105727")
    );
}

#[test]
fn writes_two_places_rounding_half_to_even() {
    assert_eq!("132.23", Amount::from_decimal(1322345, 4).to_string());
    assert_eq!("1.36", Amount::from_decimal(1357, 3).to_string());
    assert_eq!("0.00", Amount::from_decimal(5, 3).to_string());
    assert_eq!("0.02", Amount::from_decimal(15, 3).to_string());
    assert_eq!("0.02", Amount::from_decimal(25, 3).to_string());
    assert_eq!("0.03", Amount::from_decimal(251, 4).to_string());
    assert_eq!("3.00", Amount::from_decimal(3, 0).to_string());
    assert_eq!("10.00", Amount::from_decimal(9999, 3).to_string());
    assert_eq!("31415.92", Amount::from_decimal(3141592, 2).to_string());
}

#[test]
fn writes_negative_amounts() {
    assert_eq!("-1.50", Amount::from_decimal(-15, 1).to_string());
    assert_eq!("0.00", Amount::from_decimal(-1, 3).to_string());
    assert_eq!(
        "-170141183460469231731.69",
        Amount { scaled: i128::MIN }.to_string()
    );
}

#[test]
fn rounding_to_zero() {
    assert!(Amount::from_decimal(5, 3).rounds_to_zero());
    assert!(Amount::from_decimal(1, 3).rounds_to_zero());
    assert!(!Amount::from_decimal(6, 3).rounds_to_zero());
    assert!(!Amount::from_decimal(1, 2).rounds_to_zero());
}
