use fundamentals::numbers::{parse_number, trim, ParseError};

#[test]
fn test_parse_number_ok() {
    assert_eq!(parse_number("42").unwrap(), 42);
    assert_eq!(parse_number(" -7 ").unwrap(), -7);
}

#[test]
fn test_parse_number_empty() {
    assert!(matches!(parse_number(""), Err(ParseError::Empty)));
    assert!(matches!(parse_number("   "), Err(ParseError::Empty)));
}

#[test]
fn test_parse_number_invalid() {
    assert!(matches!(parse_number("abc"), Err(ParseError::NotANumber(_))));
}

#[test]
fn parse_accepts_explicit_plus_and_leading_zeros() {
    assert_eq!(parse_number("+42").unwrap(), 42);
    assert_eq!(parse_number("0042").unwrap(), 42);
    assert_eq!(parse_number("-0").unwrap(), 0);
    assert_eq!(parse_number("+0").unwrap(), 0);
}

#[test]
fn parse_handles_the_ends_of_the_range() {
    assert_eq!(parse_number("9223372036854775807").unwrap(), i64::MAX);
    assert_eq!(parse_number("-9223372036854775808").unwrap(), i64::MIN);
    assert!(matches!(
        parse_number("9223372036854775808"),
        Err(ParseError::NotANumber(_))
    ));
    assert!(matches!(
        parse_number("-9223372036854775809"),
        Err(ParseError::NotANumber(_))
    ));
    assert!(matches!(
        parse_number("99999999999999999999999"),
        Err(ParseError::NotANumber(_))
    ));
    assert_eq!(parse_number("00000000000000000000042").unwrap(), 42);
}

#[test]
fn parse_rejects_a_bare_sign_and_inner_spaces() {
    assert!(matches!(parse_number("+"), Err(ParseError::NotANumber(_))));
    assert!(matches!(parse_number("-"), Err(ParseError::NotANumber(_))));
    assert!(matches!(parse_number("4 2"), Err(ParseError::NotANumber(_))));
    assert!(matches!(parse_number("12a"), Err(ParseError::NotANumber(_))));
}

#[test]
fn parse_failure_carries_the_trimmed_input() {
    match parse_number("  abc  ") {
        Err(ParseError::NotANumber(s)) => assert_eq!(s, "abc"),
        other => panic!("expected NotANumber, got {:?}", other),
    }
}

#[test]
fn parse_ignores_surrounding_whitespace() {
    assert_eq!(parse_number("\t\n 42 \t").unwrap(), 42);
    assert_eq!(parse_number("\u{00A0}-13\u{3000}").unwrap(), -13);
}

#[test]
fn error_messages_match_the_wording() {
    assert_eq!(parse_number("").unwrap_err().message(), "input was empty");
    assert_eq!(
        parse_number(" abc ").unwrap_err().message(),
        "\"abc\" is not a valid number"
    );
}

#[test]
fn trim_removes_whitespace_at_both_ends_only() {
    assert_eq!(trim("  hello world "), "hello world");
    assert_eq!(trim("no-space"), "no-space");
    assert_eq!(trim(" \t\r\n"), "");
    assert_eq!(trim(""), "");
}
