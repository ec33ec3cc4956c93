use srt_prep::srt_index::{SrtIndex, SrtIndexError};

#[test]
fn test_valid_indices() {
    assert_eq!(SrtIndex::parse("0").unwrap(), SrtIndex(0));
    assert_eq!(SrtIndex::parse("42").unwrap(), SrtIndex(42));
    assert_eq!(SrtIndex::parse("4294967295").unwrap(), SrtIndex(4294967295));
    assert_eq!(SrtIndex::parse("007").unwrap(), SrtIndex(7));
}

#[test]
fn test_index_over_storage_bound_is_rejected() {
    assert_eq!(
        SrtIndex::parse("4294967296").unwrap_err(),
        SrtIndexError::ExceedsMaxSize
    );
    assert_eq!(
        SrtIndex::parse("99999999999999999999").unwrap_err(),
        SrtIndexError::ExceedsMaxSize
    );
}

#[test]
fn test_index_with_non_digit_is_rejected() {
    assert_eq!(SrtIndex::parse("12a").unwrap_err(), SrtIndexError::IllegalCharacters);
    assert_eq!(SrtIndex::parse("-1").unwrap_err(), SrtIndexError::IllegalCharacters);
    assert_eq!(SrtIndex::parse(" 1").unwrap_err(), SrtIndexError::IllegalCharacters);
}

#[test]
fn test_empty_index_is_rejected() {
    assert_eq!(SrtIndex::parse("").unwrap_err(), SrtIndexError::EmptyIndex);
}

#[test]
fn test_index_parses_via_from_str() {
    let idx: SrtIndex = "12".parse().unwrap();
    assert_eq!(idx, SrtIndex(12));
}

#[test]
fn test_index_error_messages() {
    assert_eq!(SrtIndexError::EmptyIndex.message(), "Index string is empty");
    assert_eq!(
        SrtIndexError::ExceedsMaxSize.message(),
        "Index value exceeds maximum unsigned 32-bit value of 4294967295"
    );
}
