use udpexchange::config::parse_duration;

#[test]
fn parses_plain_seconds() {
    assert_eq!(parse_duration("60"), Ok(60));
    assert_eq!(parse_duration("0"), Ok(0));
    assert_eq!(parse_duration("007"), Ok(7));
}

#[test]
fn parses_leading_plus() {
    assert_eq!(parse_duration("+60"), Ok(60));
}

#[test]
fn parses_largest_value() {
    assert_eq!(parse_duration("18446744073709551615"), Ok(u64::MAX));
}

#[test]
fn rejects_overflow() {
    assert_eq!(
        parse_duration("18446744073709551616"),
        Err("Invalid number of seconds".to_string())
    );
}

#[test]
fn rejects_non_numbers() {
    assert!(parse_duration("").is_err());
    assert!(parse_duration("+").is_err());
    assert!(parse_duration("abc").is_err());
    assert!(parse_duration("6 0").is_err());
    assert!(parse_duration(" 60").is_err());
    assert!(parse_duration("-60").is_err());
    assert!(parse_duration("1e3").is_err());
    assert!(parse_duration("++1").is_err());
}
