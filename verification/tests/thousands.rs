use reinfer_cli::thousands::Thousands;

fn formatted(value: u64) -> String {
    Thousands(value).format()
}

#[test]
fn thousands_zero() {
    assert_eq!(formatted(0), "0");
}

#[test]
fn thousands_less_than_one_thousand() {
    assert_eq!(formatted(1), "1");
    assert_eq!(formatted(12), "12");
    assert_eq!(formatted(123), "123");
    assert_eq!(formatted(999), "999");
    assert_eq!(formatted(100), "100");
}

#[test]
fn thousands_one_comma() {
    assert_eq!(formatted(1000), "1,000");
    assert_eq!(formatted(1234), "1,234");
    assert_eq!(formatted(9999), "9,999");
    assert_eq!(formatted(12_345), "12,345");
    assert_eq!(formatted(123_456), "123,456");
    assert_eq!(formatted(123_000), "123,000");
    assert_eq!(formatted(100_000), "100,000");
    assert_eq!(formatted(999_999), "999,999");
}

#[test]
fn thousands_three_comma_club() {
    assert_eq!(formatted(1_000_000_000), "1,000,000,000");
    assert_eq!(formatted(123_456_789_012), "123,456,789,012");
    assert_eq!(formatted(999_999_999_999), "999,999,999,999");
}

#[test]
fn thousands_max_u64() {
    assert_eq!(
        formatted(18446744073709551615),
        "18,446,744,073,709,551,615"
    );
}

#[test]
fn thousands_two_commas_with_zero_groups() {
    assert_eq!(formatted(1_000_001), "1,000,001");
    assert_eq!(formatted(10_010_100), "10,010,100");
}

#[test]
fn thousands_without_commas_is_plain_decimal() {
    for value in [0u64, 7, 1_000, 65_535, 4_294_967_296, u64::MAX] {
        assert_eq!(formatted(value).replace(',', ""), value.to_string());
    }
}
