use review_dedup::review::{ErrorReview, Review};
use review_dedup::record::{Record, RecordError};
use review_dedup::validate::Validator;
use review_dedup::ts::{parse_timestamp, Timestamp};

const GOOD_LINE: &str = "\"a1b2c3d4-0000-0000-0000-000000000000\",\"alice\",\"great show\",\"5\",\"10\",\"1.0.0 build 1 1\",\"2023-01-01 10:00:00\"";

#[test]
fn valid_line_parses_fully() {
    let v = Validator::new(true);
    let r = Review::new(&v, GOOD_LINE, ",").unwrap();
    assert_eq!(r.id, "a1b2c3d4-0000-0000-0000-000000000000");
    assert_eq!(r.user_name, "alice");
    assert_eq!(r.content, "great show");
    assert_eq!(r.score, 5);
    assert_eq!(r.thumbs_up, 10);
    assert_eq!(r.app_version, "1.0.0 build 1 1");
    let expect = Timestamp { year: 2023, month: 1, day: 1, hour: 10, minute: 0, second: 0 };
    assert_eq!(r.date, expect);
}

#[test]
fn bad_identifier_is_rejected() {
    let v = Validator::new(true);
    let line = "\"not-a-uuid\",\"alice\",\"great\",\"5\",\"10\",\"1.0.0 build 1 1\",\"2023-01-01 10:00:00\"";
    let e = Review::new(&v, line, ",").unwrap_err();
    assert_eq!(e, ErrorReview::InvalidIdentifier);
}

#[test]
fn uppercase_hex_identifier_is_accepted() {
    let v = Validator::new(true);
    let line = "\"A1B2C3D4-0000-0000-0000-00000000000F\",\"alice\",\"great\",\"5\",\"10\",\"1.0.0 build 1 1\",\"2023-01-01 10:00:00\"";
    assert!(Review::new(&v, line, ",").is_ok());
}

#[test]
fn short_line_reports_field_count() {
    let v = Validator::new(true);
    let e = Review::new(&v, "\"a\",\"b\",\"c\"", ",").unwrap_err();
    assert_eq!(e, ErrorReview::FieldCountError { expected: 7, actual: 3 });
}

#[test]
fn empty_author_and_content_are_rejected() {
    let v = Validator::new(true);
    let no_author = "\"a1b2c3d4-0000-0000-0000-000000000000\",\"\",\"great\",\"5\",\"10\",\"1.0.0 build 1 1\",\"2023-01-01 10:00:00\"";
    assert_eq!(Review::new(&v, no_author, ",").unwrap_err(), ErrorReview::MissingAuthor);
    let no_content = "\"a1b2c3d4-0000-0000-0000-000000000000\",\"alice\",\"\",\"5\",\"10\",\"1.0.0 build 1 1\",\"2023-01-01 10:00:00\"";
    assert_eq!(Review::new(&v, no_content, ",").unwrap_err(), ErrorReview::MissingContent);
}

#[test]
fn sentinel_score_is_rejected_when_strict() {
    let v = Validator::new(true);
    let line = "\"a1b2c3d4-0000-0000-0000-000000000000\",\"alice\",\"great\",\"-1\",\"10\",\"1.0.0 build 1 1\",\"2023-01-01 10:00:00\"";
    assert_eq!(Review::new(&v, line, ",").unwrap_err(), ErrorReview::InvalidScore);
}

#[test]
fn sentinel_score_is_accepted_when_lenient() {
    let v = Validator::new(false);
    let line = "\"a1b2c3d4-0000-0000-0000-000000000000\",\"alice\",\"great\",\"-1\",\"10\",\"1.0.0 build 1 1\",\"2023-01-01 10:00:00\"";
    let r = Review::new(&v, line, ",").unwrap();
    assert_eq!(r.score, -1);
}

#[test]
fn non_numeric_counts_are_rejected() {
    let v = Validator::new(true);
    let bad_score = "\"a1b2c3d4-0000-0000-0000-000000000000\",\"alice\",\"great\",\"five\",\"10\",\"1.0.0 build 1 1\",\"2023-01-01 10:00:00\"";
    assert_eq!(Review::new(&v, bad_score, ",").unwrap_err(), ErrorReview::InvalidScore);
    let bad_thumbs = "\"a1b2c3d4-0000-0000-0000-000000000000\",\"alice\",\"great\",\"5\",\"x\",\"1.0.0 build 1 1\",\"2023-01-01 10:00:00\"";
    assert_eq!(
        Review::new(&v, bad_thumbs, ",").unwrap_err(),
        ErrorReview::InvalidEngagementCount
    );
}

#[test]
fn app_version_pattern_is_checked() {
    let v = Validator::new(true);
    let good = "\"a1b2c3d4-0000-0000-0000-000000000000\",\"alice\",\"great\",\"5\",\"10\",\"14.2.0 build 34 1234\",\"2023-01-01 10:00:00\"";
    assert!(Review::new(&v, good, ",").is_ok());
    let missing_patch = "\"a1b2c3d4-0000-0000-0000-000000000000\",\"alice\",\"great\",\"5\",\"10\",\"14.2 build 34 1234\",\"2023-01-01 10:00:00\"";
    assert_eq!(
        Review::new(&v, missing_patch, ",").unwrap_err(),
        ErrorReview::InvalidAppVersion
    );
}

#[test]
fn bad_timestamps_are_rejected() {
    let v = Validator::new(true);
    let not_a_date = "\"a1b2c3d4-0000-0000-0000-000000000000\",\"alice\",\"great\",\"5\",\"10\",\"1.0.0 build 1 1\",\"yesterday\"";
    assert_eq!(Review::new(&v, not_a_date, ",").unwrap_err(), ErrorReview::InvalidTimestamp);
    let feb29_off_year = "\"a1b2c3d4-0000-0000-0000-000000000000\",\"alice\",\"great\",\"5\",\"10\",\"1.0.0 build 1 1\",\"2023-02-29 00:00:00\"";
    assert_eq!(
        Review::new(&v, feb29_off_year, ",").unwrap_err(),
        ErrorReview::InvalidTimestamp
    );
}

#[test]
fn timestamp_parser_reads_all_fields() {
    let chars: Vec<char> = "2024-02-29 23:59:58".chars().collect();
    let t = parse_timestamp(&chars).unwrap();
    let expect = Timestamp { year: 2024, month: 2, day: 29, hour: 23, minute: 59, second: 58 };
    assert_eq!(t, expect);
    let bad: Vec<char> = "2023-13-01 00:00:00".chars().collect();
    assert!(parse_timestamp(&bad).is_none());
}

#[test]
fn multi_character_separator_is_supported() {
    let v = Validator::new(true);
    let line = "a1b2c3d4-0000-0000-0000-000000000000||alice||great||5||10||1.0.0 build 1 1||2023-01-01 10:00:00";
    let r = Review::new(&v, line, "||").unwrap();
    assert_eq!(r.user_name, "alice");
    assert_eq!(r.score, 5);
}

#[test]
fn record_reads_canonical_column_order() {
    let line = "\"a1b2c3d4-0000-0000-0000-000000000000\",\"alice\",\"great show\",\"5\",\"10\",\"2023-01-01 10:00:00\",\"1.0.0 build 1 1\"";
    let rec = Record::new(line, ",").unwrap();
    assert_eq!(rec.app_version, "1.0.0 build 1 1");
    assert_eq!(rec.date.year, 2023);
    assert_eq!(rec.score, 5);
}

#[test]
fn record_reports_first_failing_field() {
    let short = Record::new("\"a\",\"b\"", ",").unwrap_err();
    assert_eq!(short, RecordError::FieldCountError { expected: 7, actual: 2 });
    let bad_score = "\"id\",\"alice\",\"great\",\"bad\",\"10\",\"2023-01-01 10:00:00\",\"1.0.0 build 1 1\"";
    assert_eq!(Record::new(bad_score, ",").unwrap_err(), RecordError::InvalidScore);
    let bad_thumbs = "\"id\",\"alice\",\"great\",\"5\",\"bad\",\"2023-01-01 10:00:00\",\"1.0.0 build 1 1\"";
    assert_eq!(Record::new(bad_thumbs, ",").unwrap_err(), RecordError::InvalidEngagementCount);
    let bad_date = "\"id\",\"alice\",\"great\",\"5\",\"10\",\"today\",\"1.0.0 build 1 1\"";
    assert_eq!(Record::new(bad_date, ",").unwrap_err(), RecordError::InvalidTimestamp);
}
