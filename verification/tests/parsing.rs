use downscaler::parse::{parse_override, parse_scale, ParseError};

fn path(parts: &[&str]) -> Vec<String> {
    parts.iter().map(|s| s.to_string()).collect()
}

#[test]
fn parse_scale_accepts_decimal() {
    assert_eq!(parse_scale("480"), Ok(480));
    assert_eq!(parse_scale("1080"), Ok(1080));
    assert_eq!(parse_scale("0"), Ok(0));
    assert_eq!(parse_scale("007"), Ok(7));
}

#[test]
fn parse_scale_accepts_leading_plus() {
    assert_eq!(parse_scale("+72"), Ok(72));
}

#[test]
fn parse_scale_accepts_largest_value() {
    assert_eq!(parse_scale("4294967295"), Ok(u32::MAX));
}

#[test]
fn parse_scale_rejects_overflow() {
    assert_eq!(parse_scale("4294967296"), Err(ParseError::InvalidNumber));
    assert_eq!(parse_scale("99999999999999999999"), Err(ParseError::InvalidNumber));
}

#[test]
fn parse_scale_rejects_text() {
    assert_eq!(parse_scale("abc"), Err(ParseError::InvalidNumber));
    assert_eq!(parse_scale("48x"), Err(ParseError::InvalidNumber));
    assert_eq!(parse_scale(" 48"), Err(ParseError::InvalidNumber));
    assert_eq!(parse_scale("-48"), Err(ParseError::InvalidNumber));
}

#[test]
fn parse_scale_rejects_empty() {
    assert_eq!(parse_scale(""), Err(ParseError::InvalidNumber));
    assert_eq!(parse_scale("+"), Err(ParseError::InvalidNumber));
}

#[test]
fn parse_override_basic() {
    assert_eq!(parse_override("movies:1080"), Ok((path(&["movies"]), 1080)));
}

#[test]
fn parse_override_nested_key() {
    assert_eq!(
        parse_override("movies/action:480"),
        Ok((path(&["movies", "action"]), 480))
    );
}

#[test]
fn parse_override_missing_separator() {
    assert_eq!(parse_override("movies"), Err(ParseError::MissingSeparator));
    assert_eq!(parse_override(""), Err(ParseError::MissingSeparator));
}

#[test]
fn parse_override_bad_height() {
    assert_eq!(parse_override("movies:x"), Err(ParseError::InvalidNumber));
    assert_eq!(parse_override("movies:"), Err(ParseError::InvalidNumber));
}

#[test]
fn parse_override_splits_at_first_colon() {
    // The height part is everything after the first colon, so a second colon
    // makes it malformed.
    assert_eq!(parse_override("a:1:2"), Err(ParseError::InvalidNumber));
}

#[test]
fn parse_override_drops_empty_components() {
    assert_eq!(parse_override("a//b/:5"), Ok((path(&["a", "b"]), 5)));
}

#[test]
fn parse_override_empty_key() {
    assert_eq!(parse_override(":5"), Ok((Vec::new(), 5)));
}
