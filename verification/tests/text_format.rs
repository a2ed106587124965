use tcp_traffic_scan::text::millionths_to_decimal;
use tcp_traffic_scan::text::u128_to_decimal;
use tcp_traffic_scan::text::u64_to_decimal;

#[test]
fn integers_render_plainly() {
    assert_eq!(u64_to_decimal(0), "0");
    assert_eq!(u64_to_decimal(7), "7");
    assert_eq!(u64_to_decimal(26_214_400), "26214400");
    assert_eq!(u64_to_decimal(u64::MAX), "18446744073709551615");
    assert_eq!(u128_to_decimal(340_282_366_920_938_463_463), "340282366920938463463");
}

#[test]
fn whole_millionths_render_without_fraction() {
    assert_eq!(millionths_to_decimal(1_000_000), "1");
    assert_eq!(millionths_to_decimal(2_000_000), "2");
    assert_eq!(millionths_to_decimal(0), "0");
    assert_eq!(millionths_to_decimal(52_428_800_000_000), "52428800");
}

#[test]
fn fractional_millionths_render_trimmed() {
    assert_eq!(millionths_to_decimal(1_500_000), "1.5");
    assert_eq!(millionths_to_decimal(750_000), "0.75");
    assert_eq!(millionths_to_decimal(2_000_001), "2.000001");
    assert_eq!(millionths_to_decimal(123), "0.000123");
    assert_eq!(millionths_to_decimal(1_234_567), "1.234567");
    assert_eq!(millionths_to_decimal(100_000), "0.1");
}
