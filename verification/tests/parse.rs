use kalid::{Kalid, KalidParseError};

#[test]
fn parse_roundtrip() {
    let generated = Kalid::new();
    let s = generated.as_string();
    let parsed = Kalid::parse(&s).unwrap();
    assert_eq!(parsed, generated);
}

#[test]
fn parse_known_string() {
    let kalid = Kalid::parse("000000000000a01p").unwrap();
    assert_eq!(kalid.epoch_ms(), 0);
}

#[test]
fn parse_invalid_length() {
    assert_eq!(Kalid::parse("short"), Err(KalidParseError::InvalidLength));
    assert_eq!(Kalid::parse("000000000000a01p00"), Err(KalidParseError::InvalidLength));
}

#[test]
fn parse_invalid_timestamp() {
    assert_eq!(Kalid::parse("zzzzzzzzzzzza01p"), Err(KalidParseError::InvalidTimestamp));
}

#[test]
fn parse_invalid_month() {
    assert_eq!(Kalid::parse("000000000000m01p"), Err(KalidParseError::InvalidMonth));
    assert_eq!(Kalid::parse("000000000000001p"), Err(KalidParseError::InvalidMonth));
}

#[test]
fn parse_invalid_week() {
    assert_eq!(Kalid::parse("000000000000aabp"), Err(KalidParseError::InvalidWeek));
}

#[test]
fn parse_invalid_day() {
    assert_eq!(Kalid::parse("000000000000a01x"), Err(KalidParseError::InvalidDay));
}

#[test]
fn parse_mismatch() {
    // Valid format but components don't match
    assert_eq!(Kalid::parse("000000000000b01m"), Err(KalidParseError::Mismatch));
}

#[test]
fn parse_timestamp_field_is_twelve_hex_digits() {
    // "timestamp must be 12 hex digits": a sign is not a digit.
    assert_eq!(Kalid::parse("+00000000000a01p"), Err(KalidParseError::InvalidTimestamp));
    assert_eq!(Kalid::parse("-00000000001l01o"), Err(KalidParseError::InvalidTimestamp));
    assert_eq!(Kalid::parse("0000+0000000a01p"), Err(KalidParseError::InvalidTimestamp));
    // Uppercase digits are hex digits, but no kalid is written with them.
    assert_eq!(Kalid::parse("019F631516E6g29o"), Err(KalidParseError::Mismatch));
    // Multi-byte text is counted in bytes.
    assert_eq!(Kalid::parse("000000000000é1p"), Err(KalidParseError::InvalidMonth));
    assert_eq!(Kalid::parse("ééééééa01p"), Err(KalidParseError::InvalidTimestamp));
}

#[test]
fn parse_checks_in_order() {
    // The first failing field decides the error.
    assert_eq!(Kalid::parse("zzzzzzzzzzzzzzzz"), Err(KalidParseError::InvalidTimestamp));
    assert_eq!(Kalid::parse("000000000000zzzz"), Err(KalidParseError::InvalidMonth));
    assert_eq!(Kalid::parse("000000000000azzz"), Err(KalidParseError::InvalidWeek));
    assert_eq!(Kalid::parse("000000000000a01z"), Err(KalidParseError::InvalidDay));
    assert_eq!(Kalid::parse("000000000000a02p"), Err(KalidParseError::Mismatch));
}

#[test]
fn parse_error_messages() {
    assert_eq!(KalidParseError::InvalidLength.message(), "kalid must be exactly 16 characters");
    assert_eq!(KalidParseError::InvalidTimestamp.message(), "timestamp must be 12 hex digits");
    assert_eq!(KalidParseError::InvalidMonth.message(), "month must be a..l");
    assert_eq!(KalidParseError::InvalidWeek.message(), "week must be a 2-digit number");
    assert_eq!(KalidParseError::InvalidDay.message(), "day must be m..s");
    assert_eq!(KalidParseError::Mismatch.message(), "kalid components don't match timestamp");
}
