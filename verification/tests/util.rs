use aihasto_bot::util::parse_duration_to_seconds;

#[test]
fn test_parse_bare_seconds() {
    assert_eq!(parse_duration_to_seconds("90"), Ok(90));
}

#[test]
fn test_parse_empty_is_zero() {
    assert_eq!(parse_duration_to_seconds(""), Ok(0));
}

#[test]
fn test_parse_single_units() {
    assert_eq!(parse_duration_to_seconds("15s"), Ok(15));
    assert_eq!(parse_duration_to_seconds("10m"), Ok(600));
    assert_eq!(parse_duration_to_seconds("2h"), Ok(7200));
    assert_eq!(parse_duration_to_seconds("3d"), Ok(259200));
    assert_eq!(parse_duration_to_seconds("2w"), Ok(1209600));
}

#[test]
fn test_parse_compound() {
    assert_eq!(parse_duration_to_seconds("1h30m"), Ok(5400));
    assert_eq!(parse_duration_to_seconds("1d2h3m4s"), Ok(93784));
}

#[test]
fn test_parse_trailing_number_counts_as_seconds() {
    assert_eq!(parse_duration_to_seconds("5m3"), Ok(303));
}

#[test]
fn test_parse_unit_without_number() {
    assert_eq!(parse_duration_to_seconds("m"), Err("Invalid number".to_string()));
    assert_eq!(parse_duration_to_seconds("5mm"), Err("Invalid number".to_string()));
}

#[test]
fn test_parse_number_too_large() {
    assert_eq!(
        parse_duration_to_seconds("99999999999999999999s"),
        Err("Invalid number".to_string())
    );
}

#[test]
fn test_parse_invalid_character() {
    assert_eq!(
        parse_duration_to_seconds("5x"),
        Err("Invalid character in duration string".to_string())
    );
    assert_eq!(
        parse_duration_to_seconds("1h 30m"),
        Err("Invalid character in duration string".to_string())
    );
}
