use srt_prep::parser::{SubtitleParser, SubtitleParserError};
use srt_prep::srt_index::{SrtIndex, SrtIndexError};
use srt_prep::subtitle_set_builder::SubtitleSet;
use srt_prep::timestamp::Timestamp;
use srt_prep::timing::TimingError;

fn ts(hours: u8, minutes: u8, seconds: u8, milliseconds: u16) -> Timestamp {
    Timestamp { hours, minutes, seconds, milliseconds }
}

#[test]
fn test_block_assembles_into_unit() {
    let block = "12\n00:01:02,510 --> 00:01:04,120\nHello world!\nPotential second line";
    let parser = SubtitleParser::new();
    let unit = parser.parse_block(block).unwrap();
    assert_eq!(unit.index, SrtIndex(12));
    assert_eq!(unit.timing.start, ts(0, 1, 2, 510));
    assert_eq!(unit.timing.end, ts(0, 1, 4, 120));
    assert_eq!(
        unit.lines,
        vec!["Hello world!".to_string(), "Potential second line".to_string()]
    );
}

#[test]
fn test_block_with_leading_empty_line_is_cleaned() {
    let block = "\n12\n00:01:02,510 --> 00:01:04,120\nHello world!";
    let parser = SubtitleParser::new();
    let unit = parser.parse_block(block).unwrap();
    assert_eq!(unit.index, SrtIndex(12));
    assert_eq!(unit.lines, vec!["Hello world!".to_string()]);
}

#[test]
fn test_short_block_is_malformed() {
    let parser = SubtitleParser::new();
    let block = "12\n00:01:02,510 --> 00:01:04,120";
    match parser.parse_block(block).unwrap_err() {
        SubtitleParserError::MalformedUnit(msg) => assert_eq!(
            msg,
            "Expected at least 3 non-empty lines in a subtitle block (block: 12\n00:01:02,510 --> 00:01:04,120)"
        ),
        other => panic!("expected a malformed-unit error, got {:?}", other),
    }
    // Blank lines do not count towards the three required lines.
    assert!(matches!(
        parser.parse_block("12\n   \n00:01:02,510 --> 00:01:04,120").unwrap_err(),
        SubtitleParserError::MalformedUnit(_)
    ));
    assert!(matches!(
        parser.parse_block("").unwrap_err(),
        SubtitleParserError::MalformedUnit(_)
    ));
}

#[test]
fn test_block_with_bad_index_is_wrapped() {
    let parser = SubtitleParser::new();
    let block = "12a\n00:01:02,510 --> 00:01:04,120\nHello";
    assert_eq!(
        parser.parse_block(block).unwrap_err(),
        SubtitleParserError::Index(SrtIndexError::IllegalCharacters)
    );
}

#[test]
fn test_block_with_bad_timing_is_wrapped() {
    let parser = SubtitleParser::new();
    let block = "12\n00:01:02,510 00:01:04,120\nHello";
    match parser.parse_block(block).unwrap_err() {
        SubtitleParserError::Timing(TimingError::MalformedTiming(msg)) => assert_eq!(
            msg,
            "Missing timestamp separator (-->) (input: 00:01:02,510 00:01:04,120)"
        ),
        other => panic!("expected a wrapped timing error, got {:?}", other),
    }
}

const TWO_BLOCKS: &str = "1\n00:00:01,000 --> 00:00:02,000\nFirst caption\n\n2\n00:00:03,000 --> 00:00:04,500\nSecond caption\nWith a second line";

#[test]
fn test_parse_str_yields_all_units_in_order() {
    let parser = SubtitleParser::new();
    let results = parser.parse_str(TWO_BLOCKS);
    assert_eq!(results.len(), 2);
    let first = results[0].as_ref().unwrap();
    assert_eq!(first.index, SrtIndex(1));
    assert_eq!(first.lines, vec!["First caption".to_string()]);
    let second = results[1].as_ref().unwrap();
    assert_eq!(second.index, SrtIndex(2));
    assert_eq!(second.timing.end, ts(0, 0, 4, 500));
    assert_eq!(
        second.lines,
        vec!["Second caption".to_string(), "With a second line".to_string()]
    );
}

#[test]
fn test_stream_pulls_blocks_lazily_and_ends() {
    let parser = SubtitleParser::new();
    let mut stream = parser.parse(TWO_BLOCKS);
    assert_eq!(stream.block_count(), 2);
    let first = stream.next_unit().unwrap().unwrap();
    assert_eq!(first.index, SrtIndex(1));
    let second = stream.next_unit().unwrap().unwrap();
    assert_eq!(second.index, SrtIndex(2));
    assert!(stream.next_unit().is_none());
    assert!(stream.next_unit().is_none());
}

#[test]
fn test_stream_surfaces_per_block_errors() {
    let content = "1\n00:00:01,000 --> 00:00:02,000\nFine\n\nnot-a-number\n00:00:03,000 --> 00:00:04,000\nBroken";
    let parser = SubtitleParser::new();
    let results = parser.parse_str(content);
    assert_eq!(results.len(), 2);
    assert!(results[0].is_ok());
    assert_eq!(
        *results[1].as_ref().unwrap_err(),
        SubtitleParserError::Index(SrtIndexError::IllegalCharacters)
    );
}

#[test]
fn test_from_content_collects_all_units() {
    let set = SubtitleSet::from_content(TWO_BLOCKS).unwrap();
    assert_eq!(set.units.len(), 2);
    assert_eq!(set.units[0].index, SrtIndex(1));
    assert_eq!(set.units[1].index, SrtIndex(2));
}

#[test]
fn test_from_content_fails_fast_on_first_bad_block() {
    let content = "1\n00:00:01,000 --> 00:00:02,000\nFine\n\nbad\n00:00:03,000 --> 00:00:04,000\nBroken\n\n1x2";
    assert_eq!(
        SubtitleSet::from_content(content).unwrap_err(),
        SubtitleParserError::Index(SrtIndexError::IllegalCharacters)
    );
}

#[test]
fn test_parser_error_messages() {
    let e = SubtitleParserError::Index(SrtIndexError::EmptyIndex);
    assert_eq!(e.message(), "Index parsing error: Index string is empty");
    let e = SubtitleParserError::MalformedUnit("details".to_string());
    assert_eq!(e.message(), "Malformed subtitle unit: details");
}
