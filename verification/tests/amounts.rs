use converter::amount::{increment, Amount};

fn amount(text: &str) -> Amount {
    Amount::parse(text).unwrap()
}

#[test]
fn numerals_are_read() {
    for text in ["0", "12", "12.5", ".5", "5.", "-3", "+3", "007", "1.500", "-0.0", "00.00"] {
        assert!(Amount::parse(text).is_some(), "{}", text);
    }
    for text in ["", ".", "-", "+", "1.2.3", "1,5", "1e5", " 1", "1 ", "--1", "1-", "abc", "٣"] {
        assert!(Amount::parse(text).is_none(), "{:?}", text);
    }
}

#[test]
fn equal_amounts_are_equal_values() {
    assert_eq!(amount("100.50"), amount("100.5"));
    assert_eq!(amount("007"), amount("7"));
    assert_eq!(amount("-0"), Amount::zero());
    assert_eq!(amount("0.00"), Amount::zero());
    assert_eq!(amount("+5"), amount("5"));
    assert_ne!(amount("-5"), amount("5"));
    assert_ne!(amount("5.1"), amount("5.01"));
}

#[test]
fn shortest_numeral() {
    assert_eq!(amount("100.50").to_string(), "100.5");
    assert_eq!(amount("-100.50").to_string(), "-100.5");
    assert_eq!(amount("200.0").to_string(), "200");
    assert_eq!(amount("0").to_string(), "0");
    assert_eq!(amount("-0.0").to_string(), "0");
    assert_eq!(amount(".07").to_string(), "0.07");
    assert_eq!(amount("999.99").to_string(), "999.99");
    assert_eq!(
        amount("123456789012345678901234567890.000000000000000000001").to_string(),
        "123456789012345678901234567890.000000000000000000001"
    );
}

#[test]
fn two_places() {
    assert_eq!(amount("100.5").to_fixed2(), "100.50");
    assert_eq!(amount("-100.5").to_fixed2(), "-100.50");
    assert_eq!(amount("0").to_fixed2(), "0.00");
    assert_eq!(amount("7").to_fixed2(), "7.00");
    assert_eq!(amount(".5").to_fixed2(), "0.50");
    assert_eq!(amount("0.07").to_fixed2(), "0.07");
    assert_eq!(amount("1.234").to_fixed2(), "1.23");
    assert_eq!(amount("1.236").to_fixed2(), "1.24");
    assert_eq!(amount("1.2351").to_fixed2(), "1.24");
    assert_eq!(amount("1.235").to_fixed2(), "1.24");
    assert_eq!(amount("1.225").to_fixed2(), "1.22");
    assert_eq!(amount("1.245").to_fixed2(), "1.24");
    assert_eq!(amount("0.005").to_fixed2(), "0.00");
    assert_eq!(amount("0.015").to_fixed2(), "0.02");
    assert_eq!(amount("0.0051").to_fixed2(), "0.01");
    assert_eq!(amount("0.995").to_fixed2(), "1.00");
    assert_eq!(amount("9.999").to_fixed2(), "10.00");
    assert_eq!(amount("99.995").to_fixed2(), "100.00");
    assert_eq!(amount("-0.001").to_fixed2(), "-0.00");
}

#[test]
fn signs() {
    assert!(amount("-1").is_negative());
    assert!(!amount("1").is_negative());
    assert!(!amount("-0").is_negative());
    assert!(amount("0.0").is_zero());
    assert!(!amount("0.01").is_zero());
    assert_eq!(amount("5").negated(), amount("-5"));
    assert_eq!(amount("-5").negated(), amount("5"));
    assert_eq!(Amount::zero().negated(), Amount::zero());
    assert_eq!(amount("-5.5").abs(), amount("5.5"));
    assert_eq!(amount("5.5").abs(), amount("5.5"));
    assert_eq!(amount("-2.5").clone(), amount("-2.5"));
}

#[test]
fn next_numeral() {
    assert_eq!(increment(&vec![]), vec![1]);
    assert_eq!(increment(&vec![0]), vec![1]);
    assert_eq!(increment(&vec![1, 2, 3]), vec![1, 2, 4]);
    assert_eq!(increment(&vec![1, 9, 9]), vec![2, 0, 0]);
    assert_eq!(increment(&vec![9, 9]), vec![1, 0, 0]);
    assert_eq!(increment(&vec![0, 9]), vec![1, 0]);
}

#[test]
fn numerals_round_trip() {
    for text in ["0", "1", "-1", "0.5", "-0.05", "1000000", "12.000001"] {
        assert_eq!(amount(text).to_string(), text);
        assert_eq!(amount(&amount(text).to_string()), amount(text));
    }
}
