use srt_prep::timestamp::{MalformedKind, Timestamp, TimestampError};
use srt_prep::timing::{Timing, TimingError};

#[test]
fn test_parse_valid_string() {
    let input = "00:18:25,437 --> 00:18:27,439";
    let result = input.parse::<Timing>(); // Reminder: we can use `parse` because we implemented `FromStr`

    assert!(result.is_ok())
}

#[test]
fn test_parse_empty_string() {
    let input = "";
    let result = input.parse::<Timing>();

    assert!(result.is_err());
    assert_eq!(result.unwrap_err(), TimingError::EmptyTiming);
}

#[test]
fn test_missing_arrow_separator() {
    let input = "00:18:25,437 00:18:27,439";
    let result = input.parse::<Timing>();
    let expected_error_msg = "Missing timestamp separator (-->) (input: 00:18:25,437 00:18:27,439)";

    assert!(result.is_err());
    match result.unwrap_err() {
        TimingError::MalformedTiming(msg) => assert_eq!(msg, expected_error_msg),
        _ => panic!("Expected this error message: Missing timestamp separator (-->)"),
    }
}

#[test]
fn test_start_after_end_is_rejected() {
    let result = Timing::parse("00:00:02,000 --> 00:00:01,000");
    match result.unwrap_err() {
        TimingError::MalformedTiming(msg) => assert_eq!(
            msg,
            "Start timestamp is later than end timestamp (input: 00:00:02,000 --> 00:00:01,000)"
        ),
        other => panic!("expected a malformed-timing error, got {:?}", other),
    }
}

#[test]
fn test_start_before_end_succeeds() {
    let timing = Timing::parse("00:00:01,000 --> 00:00:02,000").unwrap();
    assert!(timing.start < timing.end);
    assert_eq!(
        timing.start,
        Timestamp { hours: 0, minutes: 0, seconds: 1, milliseconds: 0 }
    );
    assert_eq!(
        timing.end,
        Timestamp { hours: 0, minutes: 0, seconds: 2, milliseconds: 0 }
    );
}

#[test]
fn test_equal_endpoints_succeed() {
    let timing = Timing::parse("00:00:01,500 --> 00:00:01,500").unwrap();
    assert_eq!(timing.start, timing.end);
}

#[test]
fn test_multiple_separators_are_rejected() {
    let result = Timing::parse("00:00:01,000 --> 00:00:02,000 --> 00:00:03,000");
    match result.unwrap_err() {
        TimingError::MalformedTiming(msg) => assert_eq!(
            msg,
            "Multiple timestamp separators (input: 00:00:01,000 --> 00:00:02,000 --> 00:00:03,000)"
        ),
        other => panic!("expected a malformed-timing error, got {:?}", other),
    }
}

#[test]
fn test_bad_start_timestamp_is_wrapped() {
    let result = Timing::parse("bad --> 00:00:01,000");
    assert_eq!(
        result.unwrap_err(),
        TimingError::Timestamp(TimestampError::MalformedTimestamp(
            MalformedKind::WrongCommaCount,
            "bad".to_string()
        ))
    );
}

#[test]
fn test_bad_end_timestamp_is_wrapped() {
    let result = Timing::parse("00:00:01,000 --> 00:00:0x,000");
    assert_eq!(
        result.unwrap_err(),
        TimingError::Timestamp(TimestampError::DisallowedCharacters(
            "00:00:0x,000".to_string()
        ))
    );
}

#[test]
fn test_timing_error_message_wraps_timestamp_error() {
    let e = TimingError::Timestamp(TimestampError::EmptyString);
    assert_eq!(e.message(), "Timestamp error: Timestamp string is empty");
    assert_eq!(TimingError::EmptyTiming.message(), "Timing string is empty");
}

#[test]
fn test_malformed_builder_composes_message() {
    let e = TimingError::malformed("Something is off", "raw line");
    match e {
        TimingError::MalformedTiming(msg) => {
            assert_eq!(msg, "Something is off (input: raw line)")
        }
        other => panic!("expected a malformed-timing error, got {:?}", other),
    }
}
