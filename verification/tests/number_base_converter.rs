use tit::tools::number_base_converter::convert_number;

#[test]
fn converts() {
    assert_eq!(
        convert_number("255", 10).unwrap(),
        "Binary: 11111111\nOctal: 377\nDecimal: 255\nHex: FF"
    );
}

#[test]
fn negatives() {
    assert!(convert_number("-10", 10).unwrap().contains("Decimal: -10"));
}

#[test]
fn large_unsigned() {
    let out = convert_number("ffffffffffffffffffffffffffffffff", 16).unwrap();
    assert!(out.contains("Decimal: -1"));
}

#[test]
fn rejects_too_large_negative() {
    assert!(convert_number("-ffffffffffffffffffffffffffffffff", 16).is_err());
}

#[test]
fn negative_shows_twos_complement_pattern() {
    let out = convert_number("-1", 10).unwrap();
    assert!(out.contains(&format!("Hex: {}", "F".repeat(32))));
}

#[test]
fn underscores_and_spaces_are_ignored() {
    assert_eq!(
        convert_number("  1_000 ", 10).unwrap(),
        "Binary: 1111101000\nOctal: 1750\nDecimal: 1000\nHex: 3E8"
    );
}

#[test]
fn blank_is_empty() {
    assert_eq!(convert_number("   ", 16).unwrap(), "");
}

#[test]
fn invalid_digit_message() {
    assert_eq!(
        convert_number("12", 2).unwrap_err(),
        "Invalid base-2 number: invalid digit found in string"
    );
}

#[test]
fn overflow_message() {
    assert_eq!(
        convert_number("1ffffffffffffffffffffffffffffffff", 16).unwrap_err(),
        "Invalid base-16 number: number too large to fit in target type"
    );
}

#[test]
fn minus_alone_is_empty_number() {
    assert_eq!(
        convert_number("-", 10).unwrap_err(),
        "Invalid base-10 number: cannot parse integer from empty string"
    );
}

#[test]
fn minus_zero_is_zero() {
    assert_eq!(
        convert_number("-0", 8).unwrap(),
        "Binary: 0\nOctal: 0\nDecimal: 0\nHex: 0"
    );
}

#[test]
fn smallest_signed_value() {
    let out = convert_number("-170141183460469231731687303715884105728", 10).unwrap();
    assert!(out.contains("Decimal: -170141183460469231731687303715884105728"));
    assert!(out.contains("Hex: 80000000000000000000000000000000"));
    assert!(convert_number("-170141183460469231731687303715884105729", 10).is_err());
}

#[test]
fn underscores_and_padding_do_not_matter() {
    assert_eq!(convert_number("1_000", 10), convert_number("1000", 10));
    assert_eq!(convert_number(" ff\n", 16), convert_number("ff", 16));
    assert_eq!(convert_number("___", 2), Ok(String::new()));
}

#[test]
fn printed_lines_read_back() {
    for n in ["-10", "255", "0", "-170141183460469231731687303715884105728", "170141183460469231731687303715884105727"] {
        let s = convert_number(n, 10).unwrap();
        let val = |p: &str| s.lines().find_map(|l| l.strip_prefix(p)).unwrap().to_string();
        assert_eq!(convert_number(&val("Binary: "), 2).unwrap(), s);
        assert_eq!(convert_number(&val("Octal: "), 8).unwrap(), s);
        assert_eq!(convert_number(&val("Hex: "), 16).unwrap(), s);
        assert_eq!(convert_number(&val("Decimal: "), 10).unwrap(), s);
    }
}
