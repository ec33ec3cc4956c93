use srt_prep::timestamp::{MalformedKind, Timestamp, TimestampError};

fn ts(hours: u8, minutes: u8, seconds: u8, milliseconds: u16) -> Timestamp {
    Timestamp { hours, minutes, seconds, milliseconds }
}

#[test]
fn test_parse_valid_timestamp() {
    assert_eq!(Timestamp::parse("00:18:25,437").unwrap(), ts(0, 18, 25, 437));
    assert_eq!(Timestamp::parse("255:59:59,999").unwrap(), ts(255, 59, 59, 999));
    assert_eq!(Timestamp::parse("0:0:0,0").unwrap(), ts(0, 0, 0, 0));
    assert_eq!(Timestamp::parse("007:08:09,010").unwrap(), ts(7, 8, 9, 10));
}

#[test]
fn test_format_pads_fields() {
    assert_eq!(ts(0, 0, 2, 0).format(), "00:00:02,000");
    assert_eq!(ts(255, 59, 59, 999).format(), "255:59:59,999");
    assert_eq!(ts(7, 8, 9, 10).format(), "07:08:09,010");
}

#[test]
fn test_format_then_parse_round_trips() {
    let cases = [
        ts(0, 0, 0, 0),
        ts(1, 2, 3, 4),
        ts(99, 59, 59, 999),
        ts(100, 0, 30, 500),
        ts(255, 59, 59, 999),
    ];
    for original in cases {
        let rendered = original.format();
        let parsed = Timestamp::parse(&rendered).unwrap();
        assert_eq!(parsed, original);
    }
}

#[test]
fn test_empty_string_is_rejected() {
    assert_eq!(Timestamp::parse("").unwrap_err(), TimestampError::EmptyString);
}

#[test]
fn test_zero_commas_are_rejected() {
    assert_eq!(
        Timestamp::parse("00:18:25").unwrap_err(),
        TimestampError::MalformedTimestamp(MalformedKind::WrongCommaCount, "00:18:25".to_string())
    );
}

#[test]
fn test_two_or_more_commas_are_rejected() {
    assert_eq!(
        Timestamp::parse("00:18:25,4,37").unwrap_err(),
        TimestampError::MalformedTimestamp(
            MalformedKind::WrongCommaCount,
            "00:18:25,4,37".to_string()
        )
    );
    assert_eq!(
        Timestamp::parse(",,,").unwrap_err(),
        TimestampError::MalformedTimestamp(MalformedKind::WrongCommaCount, ",,,".to_string())
    );
}

#[test]
fn test_newline_is_rejected() {
    assert_eq!(
        Timestamp::parse("0:0:0,1\n").unwrap_err(),
        TimestampError::NewlineCharDetected("0:0:0,1\n".to_string())
    );
}

#[test]
fn test_disallowed_characters_are_rejected() {
    assert_eq!(
        Timestamp::parse("0a:00:00,000").unwrap_err(),
        TimestampError::DisallowedCharacters("0a:00:00,000".to_string())
    );
}

#[test]
fn test_wrong_colon_count_is_rejected() {
    assert_eq!(
        Timestamp::parse("00:00,000").unwrap_err(),
        TimestampError::MalformedTimestamp(MalformedKind::WrongColonCount, "00:00,000".to_string())
    );
    assert_eq!(
        Timestamp::parse("00:00:00:00,000").unwrap_err(),
        TimestampError::MalformedTimestamp(
            MalformedKind::WrongColonCount,
            "00:00:00:00,000".to_string()
        )
    );
}

#[test]
fn test_empty_subfields_are_distinguished() {
    assert_eq!(
        Timestamp::parse(":00:00,000").unwrap_err(),
        TimestampError::MalformedTimestamp(MalformedKind::EmptyHours, ":00:00,000".to_string())
    );
    assert_eq!(
        Timestamp::parse("00::00,000").unwrap_err(),
        TimestampError::MalformedTimestamp(MalformedKind::EmptyMinutes, "00::00,000".to_string())
    );
    assert_eq!(
        Timestamp::parse("00:00:,000").unwrap_err(),
        TimestampError::MalformedTimestamp(MalformedKind::EmptySeconds, "00:00:,000".to_string())
    );
    assert_eq!(
        Timestamp::parse("00:00:00,").unwrap_err(),
        TimestampError::MalformedTimestamp(
            MalformedKind::EmptyMilliseconds,
            "00:00:00,".to_string()
        )
    );
}

#[test]
fn test_colon_in_milliseconds_is_rejected() {
    assert_eq!(
        Timestamp::parse("0:0:0,0:0").unwrap_err(),
        TimestampError::MalformedTimestamp(
            MalformedKind::ColonInMilliseconds,
            "0:0:0,0:0".to_string()
        )
    );
}

#[test]
fn test_storage_bounds_per_field() {
    assert_eq!(
        Timestamp::parse("256:00:00,000").unwrap_err(),
        TimestampError::HoursExceedStorage("256:00:00,000".to_string())
    );
    assert_eq!(
        Timestamp::parse("00:256:00,000").unwrap_err(),
        TimestampError::MinutesExceedStorage("00:256:00,000".to_string())
    );
    assert_eq!(
        Timestamp::parse("00:00:256,000").unwrap_err(),
        TimestampError::SecondsExceedStorage("00:00:256,000".to_string())
    );
    assert_eq!(
        Timestamp::parse("00:00:00,65536").unwrap_err(),
        TimestampError::MillisecondsExceedStorage("00:00:00,65536".to_string())
    );
}

#[test]
fn test_semantic_bounds_per_field() {
    assert_eq!(
        Timestamp::parse("00:60:00,000").unwrap_err(),
        TimestampError::MinutesExceedBound("00:60:00,000".to_string())
    );
    assert_eq!(
        Timestamp::parse("00:00:60,000").unwrap_err(),
        TimestampError::SecondsExceedBound("00:00:60,000".to_string())
    );
    assert_eq!(
        Timestamp::parse("00:00:00,1000").unwrap_err(),
        TimestampError::MillisecondsExceedBound("00:00:00,1000".to_string())
    );
}

#[test]
fn test_huge_digit_strings_do_not_panic() {
    assert_eq!(
        Timestamp::parse("999999999999999999999:00:00,000").unwrap_err(),
        TimestampError::HoursExceedStorage("999999999999999999999:00:00,000".to_string())
    );
    assert_eq!(
        Timestamp::parse("00:00:00,99999999999999999999").unwrap_err(),
        TimestampError::MillisecondsExceedStorage(
            "00:00:00,99999999999999999999".to_string()
        )
    );
}

#[test]
fn test_ordering_is_lexicographic_on_fields() {
    assert!(ts(0, 59, 59, 999) < ts(1, 0, 0, 0));
    assert!(ts(1, 2, 3, 4) < ts(1, 2, 3, 5));
    assert!(ts(1, 2, 3, 4) < ts(1, 2, 4, 0));
    assert!(ts(1, 2, 3, 4) == ts(1, 2, 3, 4));
}

#[test]
fn test_error_message_echoes_input() {
    let e = Timestamp::parse("00:60:00,000").unwrap_err();
    assert_eq!(
        e.message(),
        "Minutes value exceeds 59 (input string: 00:60:00,000)"
    );
    assert_eq!(
        TimestampError::EmptyString.message(),
        "Timestamp string is empty"
    );
}
