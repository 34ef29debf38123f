use announcer::duration::{parse_duration, ParseError};

#[test]
fn plain_seconds() {
    assert_eq!(parse_duration("20"), Ok(20_000_000));
    assert_eq!(parse_duration("0"), Ok(0));
    assert_eq!(parse_duration("7"), Ok(7_000_000));
}

#[test]
fn leading_minus_is_ignored() {
    assert_eq!(parse_duration("-5"), Ok(5_000_000));
}

#[test]
fn fractional_seconds_keep_precision() {
    assert_eq!(parse_duration("7.00"), Ok(7_000_000));
    assert_eq!(parse_duration("7.01"), Ok(7_010_000));
    assert_eq!(parse_duration("0.5"), Ok(500_000));
    assert_eq!(parse_duration("1.234567"), Ok(1_234_567));
    // Digits beyond microseconds are truncated.
    assert_eq!(parse_duration("1.2345678"), Ok(1_234_567));
}

#[test]
fn milli_and_micro_units() {
    assert_eq!(parse_duration("123ms"), Ok(123_000));
    assert_eq!(parse_duration("1.5ms"), Ok(1_500));
    assert_eq!(parse_duration("10us"), Ok(10));
}

#[test]
fn clock_forms() {
    assert_eq!(parse_duration("02:20"), Ok(140_000_000));
    assert_eq!(parse_duration("02:20.5"), Ok(140_500_000));
    assert_eq!(parse_duration("01:02:03"), Ok(3_723_000_000));
    assert_eq!(parse_duration("00:00:9"), Ok(9_000_000));
    assert_eq!(parse_duration("99:59:59"), Ok(359_999_000_000));
}

#[test]
fn clock_bounds_are_enforced() {
    // Minutes are two digits up to 59, seconds at most 59.
    assert_eq!(parse_duration("5:30"), Err(ParseError::Malformed));
    assert_eq!(parse_duration("60:30"), Err(ParseError::Malformed));
    assert_eq!(parse_duration("10:60"), Err(ParseError::Malformed));
    assert_eq!(parse_duration("1:02:03"), Err(ParseError::Malformed));
    assert_eq!(parse_duration("01:2:03"), Err(ParseError::Malformed));
}

#[test]
fn malformed_inputs() {
    assert_eq!(parse_duration(""), Err(ParseError::Malformed));
    assert_eq!(parse_duration("abc"), Err(ParseError::Malformed));
    assert_eq!(parse_duration("5."), Err(ParseError::Malformed));
    assert_eq!(parse_duration("5.x"), Err(ParseError::Malformed));
    assert_eq!(parse_duration("5 ms"), Err(ParseError::Malformed));
    assert_eq!(parse_duration("5ms!"), Err(ParseError::Malformed));
    assert_eq!(parse_duration("12:"), Err(ParseError::Malformed));
    assert_eq!(parse_duration(":30"), Err(ParseError::Malformed));
}

#[test]
fn too_large_values() {
    assert_eq!(parse_duration("99999999999999999999"), Err(ParseError::TooLarge));
    // u64::MAX seconds do not fit in microseconds.
    assert_eq!(parse_duration("18446744073709551615"), Err(ParseError::TooLarge));
    // But they do fit as microseconds.
    assert_eq!(parse_duration("18446744073709551615us"), Ok(u64::MAX));
}

#[test]
fn parse_error_messages() {
    assert_eq!(ParseError::Malformed.message(), "not a duration");
    assert_eq!(ParseError::TooLarge.message(), "duration too large");
}
