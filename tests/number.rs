use helios::number::{parse_number, NumberFormat};

#[test]
fn test_basic_number_parser() {
    assert_eq!(parse_number("1"), Some((1, NumberFormat::Decimal)));
    assert_eq!(parse_number("0b10"), Some((2, NumberFormat::Binary)));
    assert_eq!(
        parse_number("0x10"),
        Some((0x10, NumberFormat::Hexadecimal))
    );
    assert_eq!(parse_number("0o10"), Some((8, NumberFormat::Octal)));
    assert_eq!(parse_number("0u000"), Some((3, NumberFormat::Unary)));
}

#[test]
fn unary_counts_zeros_only() {
    assert_eq!(parse_number("0u000"), Some((3, NumberFormat::Unary)));
    assert_eq!(parse_number("0u0x0"), None);
    assert_eq!(parse_number("0u"), Some((0, NumberFormat::Unary)));
    assert_eq!(parse_number("0u01"), None);
}

#[test]
fn rendered_values_read_back() {
    let values: [u64; 7] = [0, 1, 7, 10, 255, 123456789, u64::MAX];
    for v in values {
        assert_eq!(parse_number(&format!("{}", v)), Some((v, NumberFormat::Decimal)));
        assert_eq!(parse_number(&format!("0b{:b}", v)), Some((v, NumberFormat::Binary)));
        assert_eq!(parse_number(&format!("0x{:x}", v)), Some((v, NumberFormat::Hexadecimal)));
        assert_eq!(parse_number(&format!("0o{:o}", v)), Some((v, NumberFormat::Octal)));
    }
    assert_eq!(parse_number(&format!("0u{}", "0".repeat(12))), Some((12, NumberFormat::Unary)));
}

#[test]
fn hexadecimal_suffix_and_case() {
    assert_eq!(parse_number("10h"), Some((16, NumberFormat::Hexadecimal)));
    assert_eq!(parse_number("FFh"), Some((255, NumberFormat::Hexadecimal)));
    assert_eq!(parse_number("0xAbC"), Some((0xabc, NumberFormat::Hexadecimal)));
    assert_eq!(parse_number("0b1h"), Some((0xb1, NumberFormat::Hexadecimal)));
    assert_eq!(parse_number("h"), None);
    assert_eq!(parse_number("0xg"), None);
}

#[test]
fn empty_and_malformed_digits_are_rejected() {
    assert_eq!(parse_number(""), None);
    assert_eq!(parse_number("0x"), None);
    assert_eq!(parse_number("0o"), None);
    assert_eq!(parse_number("0b"), None);
    assert_eq!(parse_number("0b2"), None);
    assert_eq!(parse_number("0o8"), None);
    assert_eq!(parse_number("12a"), None);
    assert_eq!(parse_number("-5"), None);
    assert_eq!(parse_number("+"), None);
    assert_eq!(parse_number("٣"), None);
}

#[test]
fn plus_sign_is_accepted() {
    assert_eq!(parse_number("+5"), Some((5, NumberFormat::Decimal)));
    assert_eq!(parse_number("0x+f"), Some((15, NumberFormat::Hexadecimal)));
}

#[test]
fn values_past_u64_are_rejected() {
    assert_eq!(
        parse_number("18446744073709551615"),
        Some((u64::MAX, NumberFormat::Decimal))
    );
    assert_eq!(parse_number("18446744073709551616"), None);
    assert_eq!(parse_number("0x10000000000000000"), None);
    assert_eq!(parse_number("00000000000000000000000000042"), Some((42, NumberFormat::Decimal)));
}
