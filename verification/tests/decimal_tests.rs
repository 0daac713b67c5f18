use http_core::decimal::{decimal, parse_decimal};

#[test]
fn decimal_writes_numbers_as_std_does() {
    let mut samples: Vec<usize> = (0..1200).collect();
    samples.extend([9_999, 10_000, 65_535, 1_000_000, 4_294_967_295, usize::MAX - 1, usize::MAX]);
    for n in samples {
        assert_eq!(decimal(n), n.to_string());
    }
}

#[test]
fn decimal_of_small_numbers() {
    assert_eq!(decimal(0), "0");
    assert_eq!(decimal(3), "3");
    assert_eq!(decimal(10), "10");
    assert_eq!(decimal(1024), "1024");
}

#[test]
fn parse_decimal_reads_what_decimal_writes() {
    for n in [0usize, 1, 9, 10, 99, 100, 12_345, usize::MAX / 10, usize::MAX - 1, usize::MAX] {
        assert_eq!(parse_decimal(&decimal(n)), Some(n));
    }
}

#[test]
fn parse_decimal_takes_digits_only() {
    assert_eq!(parse_decimal("5"), Some(5));
    assert_eq!(parse_decimal("007"), Some(7));
    assert_eq!(parse_decimal(""), None);
    assert_eq!(parse_decimal("+5"), None);
    assert_eq!(parse_decimal("-5"), None);
    assert_eq!(parse_decimal(" 5"), None);
    assert_eq!(parse_decimal("5 "), None);
    assert_eq!(parse_decimal("1a"), None);
    assert_eq!(parse_decimal("a1"), None);
    assert_eq!(parse_decimal("1.5"), None);
    assert_eq!(parse_decimal("\u{664}2"), None);
}

#[test]
fn parse_decimal_refuses_what_does_not_fit() {
    let most = usize::MAX.to_string();
    assert_eq!(parse_decimal(&most), Some(usize::MAX));
    let mut digits: Vec<u8> = most.clone().into_bytes();
    let last = digits.len() - 1;
    digits[last] += 1;
    let above = String::from_utf8(digits).unwrap();
    assert_eq!(parse_decimal(&above), None);
    assert_eq!(parse_decimal(&format!("{}0", most)), None);
    assert_eq!(parse_decimal("99999999999999999999999999999999999999999"), None);
    assert_eq!(parse_decimal(&format!("0000000000000000000000000{}", most)), Some(usize::MAX));
}
