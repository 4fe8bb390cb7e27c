use pcf_parser::parse_i32_or_zero;

#[test]
fn integer_or_zero_parses_plain_numbers() {
    assert_eq!(parse_i32_or_zero("42"), 42);
    assert_eq!(parse_i32_or_zero("-7"), -7);
    assert_eq!(parse_i32_or_zero("+5"), 5);
    assert_eq!(parse_i32_or_zero("007"), 7);
    assert_eq!(parse_i32_or_zero("0"), 0);
}

#[test]
fn integer_or_zero_handles_the_i32_range() {
    assert_eq!(parse_i32_or_zero("2147483647"), 2147483647);
    assert_eq!(parse_i32_or_zero("-2147483648"), -2147483648);
    assert_eq!(parse_i32_or_zero("2147483648"), 0);
    assert_eq!(parse_i32_or_zero("-2147483649"), 0);
    assert_eq!(parse_i32_or_zero("99999999999999999999"), 0);
}

#[test]
fn integer_or_zero_absorbs_malformed_text() {
    assert_eq!(parse_i32_or_zero(""), 0);
    assert_eq!(parse_i32_or_zero("12a"), 0);
    assert_eq!(parse_i32_or_zero(" 3"), 0);
    assert_eq!(parse_i32_or_zero("3 "), 0);
    assert_eq!(parse_i32_or_zero("-"), 0);
    assert_eq!(parse_i32_or_zero("+"), 0);
    assert_eq!(parse_i32_or_zero("--4"), 0);
    assert_eq!(parse_i32_or_zero("1_000"), 0);
}
