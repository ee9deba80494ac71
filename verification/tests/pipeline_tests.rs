use review_dedup::duplicates::{get_uuids_set, DedupIndex};
use review_dedup::pipeline::{process_line, run_pipeline};
use review_dedup::review::ErrorReview;
use review_dedup::record::reparse_canonical;
use review_dedup::review::Review;
use review_dedup::ts::Timestamp;
use review_dedup::validate::Validator;

const HEADER: &str = "reviewId,userName,content,score,thumbsUpCount,date,appVersion";
const ID_A: &str = "a1b2c3d4-0000-0000-0000-000000000000";
const ID_B: &str = "b1b2c3d4-0000-0000-0000-000000000000";

fn raw(id: &str, user: &str, content: &str, score: &str, thumbs: &str, ver: &str, date: &str) -> String {
    format!(
        "\"{}\",\"{}\",\"{}\",\"{}\",\"{}\",\"{}\",\"{}\"",
        id, user, content, score, thumbs, ver, date
    )
}

#[test]
fn latest_timestamp_wins() {
    let v = Validator::new(true);
    let lines = vec![
        raw(ID_A, "alice", "great show", "5", "10", "1.0.0 build 1 1", "2023-01-01 10:00:00"),
        raw(ID_A, "alice", "changed my mind", "2", "3", "1.0.0 build 1 1", "2023-02-01 10:00:00"),
    ];
    let out = run_pipeline(&v, &lines, ",", 0);
    assert_eq!(out.records.len(), 1);
    assert_eq!(out.records[0].content, "changed my mind");
    let expect = Timestamp { year: 2023, month: 2, day: 1, hour: 10, minute: 0, second: 0 };
    assert_eq!(out.records[0].date, expect);
    assert_eq!(out.accepted, 1);
    assert_eq!(out.rejected, 0);
    assert_eq!(out.repeated, 1);
    assert_eq!(out.output.len(), 2);
    assert_eq!(out.output[0], HEADER);
    assert_eq!(
        out.output[1],
        raw(ID_A, "alice", "changed my mind", "2", "3", "2023-02-01 10:00:00", "1.0.0 build 1 1")
    );
}

#[test]
fn latest_wins_whatever_the_order() {
    let v = Validator::new(true);
    let newer = raw(ID_A, "alice", "newer", "4", "9", "1.0.0 build 1 1", "2023-03-01 08:00:00");
    let older = raw(ID_A, "alice", "older", "5", "10", "1.0.0 build 1 1", "2023-01-01 10:00:00");
    let first = run_pipeline(&v, &vec![newer.clone(), older.clone()], ",", 0);
    let second = run_pipeline(&v, &vec![older, newer], ",", 0);
    assert_eq!(first.records[0].content, "newer");
    assert_eq!(second.records[0].content, "newer");
    assert_eq!(first.output, second.output);
}

#[test]
fn invalid_identifier_never_reaches_the_index() {
    let v = Validator::new(true);
    let lines = vec![
        raw("not-a-uuid", "alice", "great", "5", "10", "1.0.0 build 1 1", "2023-01-01 10:00:00"),
        raw(ID_B, "bob", "fine", "4", "2", "1.0.0 build 1 1", "2023-01-02 10:00:00"),
    ];
    let p1 = get_uuids_set(&v, &lines, ",", 0);
    assert_eq!(p1.rejected, 1);
    assert_eq!(p1.repeated, 0);
    assert!(p1.index.get(&"not-a-uuid".to_string()).is_none());
    assert!(p1.index.get(&ID_B.to_string()).is_some());
    let out = run_pipeline(&v, &lines, ",", 0);
    assert_eq!(out.accepted, 1);
    assert_eq!(out.rejected, 1);
    assert_eq!(out.records[0].user_name, "bob");
}

#[test]
fn exact_duplicates_emit_once_without_error() {
    let v = Validator::new(true);
    let lines = vec![
        raw(ID_A, "alice", "first copy", "5", "10", "1.0.0 build 1 1", "2023-01-01 10:00:00"),
        raw(ID_A, "alice", "second copy", "5", "10", "1.0.0 build 1 1", "2023-01-01 10:00:00"),
    ];
    let out = run_pipeline(&v, &lines, ",", 0);
    assert_eq!(out.records.len(), 1);
    assert_eq!(out.records[0].content, "first copy");
    assert_eq!(out.accepted, 1);
    assert_eq!(out.rejected, 0);
    assert_eq!(out.repeated, 1);
}

#[test]
fn header_rows_are_skipped_unvalidated() {
    let v = Validator::new(true);
    let lines = vec![
        HEADER.to_string(),
        raw(ID_A, "alice", "great", "5", "10", "1.0.0 build 1 1", "2023-01-01 10:00:00"),
    ];
    let out = run_pipeline(&v, &lines, ",", 1);
    assert_eq!(out.accepted, 1);
    assert_eq!(out.rejected, 0);
    assert_eq!(out.pass1_rejected, 0);
}

#[test]
fn distinct_identifiers_all_survive_in_order() {
    let v = Validator::new(true);
    let lines = vec![
        raw(ID_A, "alice", "one", "5", "10", "1.0.0 build 1 1", "2023-01-01 10:00:00"),
        raw(ID_B, "bob", "two", "4", "2", "1.0.0 build 1 1", "2023-01-02 10:00:00"),
    ];
    let out = run_pipeline(&v, &lines, ",", 0);
    assert_eq!(out.records.len(), 2);
    assert_eq!(out.records[0].user_name, "alice");
    assert_eq!(out.records[1].user_name, "bob");
}

#[test]
fn canonical_output_parses_back_unchanged() {
    let rec = Review {
        id: ID_A.to_string(),
        user_name: "alice".to_string(),
        content: "great show".to_string(),
        score: -7,
        thumbs_up: 2147483647,
        date: Timestamp { year: 2023, month: 12, day: 31, hour: 23, minute: 59, second: 59 },
        app_version: "1.0.0 build 1 1".to_string(),
    };
    let back = reparse_canonical(&rec).unwrap();
    assert_eq!(back.id, rec.id);
    assert_eq!(back.user_name, rec.user_name);
    assert_eq!(back.content, rec.content);
    assert_eq!(back.score, rec.score);
    assert_eq!(back.thumbs_up, rec.thumbs_up);
    assert_eq!(back.date, rec.date);
    assert_eq!(back.app_version, rec.app_version);
}

#[test]
fn rerunning_on_canonical_records_collapses_nothing() {
    let v = Validator::new(true);
    let lines = vec![
        raw(ID_A, "alice", "one", "5", "10", "1.0.0 build 1 1", "2023-01-01 10:00:00"),
        raw(ID_A, "alice", "newer", "5", "10", "1.0.0 build 1 1", "2023-01-03 10:00:00"),
        raw(ID_B, "bob", "two", "4", "2", "1.0.0 build 1 1", "2023-01-02 10:00:00"),
    ];
    let first = run_pipeline(&v, &lines, ",", 0);
    assert_eq!(first.records.len(), 2);
    // Rebuild raw-order lines from the emitted records and run again: with
    // identifiers already unique, nothing further collapses.
    let again: Vec<String> = first
        .records
        .iter()
        .map(|r| {
            raw(
                &r.id,
                &r.user_name,
                &r.content,
                &r.score.to_string(),
                &r.thumbs_up.to_string(),
                &r.app_version,
                &format!(
                    "{:04}-{:02}-{:02} {:02}:{:02}:{:02}",
                    r.date.year, r.date.month, r.date.day, r.date.hour, r.date.minute,
                    r.date.second
                ),
            )
        })
        .collect();
    let second = run_pipeline(&v, &again, ",", 0);
    assert_eq!(second.output, first.output);
    assert_eq!(second.rejected, 0);
    assert_eq!(second.repeated, 0);
}

#[test]
fn missing_index_entry_is_an_orphan() {
    let v = Validator::new(true);
    let index = DedupIndex::new();
    let mut seen: Vec<String> = Vec::new();
    let line = raw(ID_A, "alice", "one", "5", "10", "1.0.0 build 1 1", "2023-01-01 10:00:00");
    let e = process_line(&v, &line, ",", &index, &mut seen).unwrap_err();
    assert_eq!(e, ErrorReview::OrphanIdentifier);
    assert!(seen.is_empty());
}

#[test]
fn orphan_free_runs_count_only_validation_failures() {
    let v = Validator::new(true);
    let lines = vec![
        raw(ID_A, "alice", "one", "5", "10", "1.0.0 build 1 1", "2023-01-01 10:00:00"),
        "garbage line".to_string(),
    ];
    let out = run_pipeline(&v, &lines, ",", 0);
    assert_eq!(out.rejected, 1);
    assert_eq!(out.pass1_rejected, 1);
    assert_eq!(out.accepted, 1);
}
