use book2pdf::timeout::parse_timeout;

#[test]
fn negative_timeout_is_rejected() {
    let r = parse_timeout("-5");
    assert_eq!(r, Err("Must be zero or positive number.".to_string()));
}

#[test]
fn negative_fraction_is_rejected() {
    let r = parse_timeout("-0.5");
    assert_eq!(r, Err("Must be zero or positive number.".to_string()));
}

#[test]
fn non_number_is_rejected() {
    assert_eq!(parse_timeout("abc"), Err("Not a number.".to_string()));
    assert_eq!(parse_timeout(""), Err("Not a number.".to_string()));
    assert_eq!(parse_timeout("1.2.3"), Err("Not a number.".to_string()));
    assert_eq!(parse_timeout("."), Err("Not a number.".to_string()));
    assert_eq!(parse_timeout("-"), Err("Not a number.".to_string()));
    assert_eq!(parse_timeout("10s"), Err("Not a number.".to_string()));
}

#[test]
fn default_timeout_parses() {
    assert_eq!(parse_timeout("30.0"), Ok(30000));
}

#[test]
fn zero_values_parse() {
    assert_eq!(parse_timeout("0"), Ok(0));
    assert_eq!(parse_timeout("-0.0"), Ok(0));
    assert_eq!(parse_timeout("+0"), Ok(0));
}

#[test]
fn fractions_round_down_to_milliseconds() {
    assert_eq!(parse_timeout("1.5"), Ok(1500));
    assert_eq!(parse_timeout("2.25"), Ok(2250));
    assert_eq!(parse_timeout("0.1234"), Ok(123));
    assert_eq!(parse_timeout(".5"), Ok(500));
    assert_eq!(parse_timeout("5."), Ok(5000));
}

#[test]
fn huge_values_saturate() {
    assert_eq!(parse_timeout("99999999999999999999"), Ok(u64::MAX));
    assert_eq!(parse_timeout("1e99999999999999999999999999999999999999999"), Ok(u64::MAX));
    assert_eq!(parse_timeout("0e99999999999999999999999999999999999999999"), Ok(0));
}

#[test]
fn exponent_forms_parse() {
    assert_eq!(parse_timeout("1e3"), Ok(1_000_000));
    assert_eq!(parse_timeout("1E2"), Ok(100_000));
    assert_eq!(parse_timeout("1e+2"), Ok(100_000));
    assert_eq!(parse_timeout("2.5e2"), Ok(250_000));
    assert_eq!(parse_timeout("1e-3"), Ok(1));
    assert_eq!(parse_timeout("5e-4"), Ok(0));
    assert_eq!(parse_timeout("30e0"), Ok(30_000));
}

#[test]
fn negative_exponent_numbers_follow_the_sign_rule() {
    assert_eq!(
        parse_timeout("-1e-10"),
        Err("Must be zero or positive number.".to_string())
    );
    assert_eq!(parse_timeout("-0e5"), Ok(0));
}

#[test]
fn malformed_exponents_are_rejected() {
    assert_eq!(parse_timeout("1e"), Err("Not a number.".to_string()));
    assert_eq!(parse_timeout("1e+"), Err("Not a number.".to_string()));
    assert_eq!(parse_timeout("1e2.5"), Err("Not a number.".to_string()));
    assert_eq!(parse_timeout("e3"), Err("Not a number.".to_string()));
    assert_eq!(parse_timeout("inf"), Err("Not a number.".to_string()));
    assert_eq!(parse_timeout("NaN"), Err("Not a number.".to_string()));
}
