use tcp_traffic_scan::parse::ParsedCorrection;
use tcp_traffic_scan::parse::parse_correction_value;

#[test]
fn whole_numbers() {
    assert_eq!(parse_correction_value("2"), ParsedCorrection::Value(2_000_000));
    assert_eq!(parse_correction_value("10"), ParsedCorrection::Value(10_000_000));
    assert_eq!(parse_correction_value("+3"), ParsedCorrection::Value(3_000_000));
}

#[test]
fn fractions() {
    assert_eq!(parse_correction_value("1.5"), ParsedCorrection::Value(1_500_000));
    assert_eq!(parse_correction_value("0.75"), ParsedCorrection::Value(750_000));
    assert_eq!(parse_correction_value(".5"), ParsedCorrection::Value(500_000));
    assert_eq!(parse_correction_value("5."), ParsedCorrection::Value(5_000_000));
    assert_eq!(parse_correction_value("0.000001"), ParsedCorrection::Value(1));
}

#[test]
fn extra_fraction_digits_truncate() {
    assert_eq!(parse_correction_value("1.2345678"), ParsedCorrection::Value(1_234_567));
    assert_eq!(parse_correction_value("0.9999999"), ParsedCorrection::Value(999_999));
}

#[test]
fn zero_and_negative_are_non_positive() {
    assert_eq!(parse_correction_value("0"), ParsedCorrection::NonPositive);
    assert_eq!(parse_correction_value("0.0"), ParsedCorrection::NonPositive);
    assert_eq!(parse_correction_value("-2"), ParsedCorrection::NonPositive);
    assert_eq!(parse_correction_value("-0.25"), ParsedCorrection::NonPositive);
    // Below the millionth resolution the stored factor would be zero.
    assert_eq!(parse_correction_value("0.0000001"), ParsedCorrection::NonPositive);
}

#[test]
fn malformed_texts() {
    assert_eq!(parse_correction_value(""), ParsedCorrection::Malformed);
    assert_eq!(parse_correction_value("abc"), ParsedCorrection::Malformed);
    assert_eq!(parse_correction_value("."), ParsedCorrection::Malformed);
    assert_eq!(parse_correction_value("-"), ParsedCorrection::Malformed);
    assert_eq!(parse_correction_value("+."), ParsedCorrection::Malformed);
    assert_eq!(parse_correction_value("1.2.3"), ParsedCorrection::Malformed);
    assert_eq!(parse_correction_value("1,5"), ParsedCorrection::Malformed);
    assert_eq!(parse_correction_value("1.5 "), ParsedCorrection::Malformed);
    assert_eq!(parse_correction_value(" 1.5"), ParsedCorrection::Malformed);
    assert_eq!(parse_correction_value("1e3"), ParsedCorrection::Malformed);
    assert_eq!(parse_correction_value("--1"), ParsedCorrection::Malformed);
}

#[test]
fn size_limit() {
    assert_eq!(
        parse_correction_value("9999999999999"),
        ParsedCorrection::Value(9_999_999_999_999_000_000)
    );
    assert_eq!(parse_correction_value("10000000000000"), ParsedCorrection::Malformed);
    assert_eq!(parse_correction_value("99999999999999999999"), ParsedCorrection::Malformed);
}

#[test]
fn leading_zeros_are_read() {
    assert_eq!(parse_correction_value("007"), ParsedCorrection::Value(7_000_000));
    assert_eq!(parse_correction_value("00.5"), ParsedCorrection::Value(500_000));
}
