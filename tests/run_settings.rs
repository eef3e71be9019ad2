use std::io::Read;

use rusty_von_humboldt::export::{compress_sql, upload_attempt, UploadAttempt, UPLOAD_ATTEMPTS};
use rusty_von_humboldt::pipeline::{
    chunk_key, flag_setting, generate_mode_string, listing_continues, page_size, retry_fetch,
    split_file_list, uses_current_schema, Mode,
};
use rusty_von_humboldt::text::same_text;
use rusty_von_humboldt::timestamp::Timestamp;

#[test]
fn modes_come_from_settings() {
    let m = Mode::from_settings(Some("committer_count"), Some("true"));
    assert!(m.committer_count && !m.repo_mapping && m.dry_run);
    assert!(m.is_valid());
    assert!(!m.should_upload());
    let r = Mode::from_settings(Some("repo_mapping"), Some("yes"));
    assert!(!r.committer_count && r.repo_mapping && !r.dry_run);
    assert!(r.should_upload());
    let none = Mode::from_settings(None, None);
    assert!(!none.is_valid());
    assert!(!Mode::from_settings(Some("both"), Some("false")).is_valid());
    assert_eq!("committers", generate_mode_string(&m));
    assert_eq!("repomapping", generate_mode_string(&r));
}

#[test]
fn chunk_keys_pad_their_numbers() {
    let committers = Mode { committer_count: true, repo_mapping: false, dry_run: false };
    let mapping = Mode { committer_count: false, repo_mapping: true, dry_run: false };
    assert_eq!("rvh2/committers/2016/03.txt.gz", chunk_key(&committers, 2016, 3, None));
    assert_eq!("rvh2/repomapping/2014/12_07.txt.gz", chunk_key(&mapping, 2014, 12, Some(7)));
    assert_eq!("rvh2/repomapping/-5/100_10.txt.gz", chunk_key(&mapping, -5, 100, Some(10)));
}

#[test]
fn listing_asks_for_what_is_missing() {
    assert_eq!(24, page_size(0, 24));
    assert_eq!(500, page_size(0, 8760));
    assert_eq!(260, page_size(8500, 8760));
    assert!(listing_continues(10, 24, true));
    assert!(!listing_continues(24, 24, true));
    assert!(!listing_continues(10, 24, false));
}

#[test]
fn file_list_splits_in_half() {
    let mut files: Vec<String> = (0..5).map(|i| format!("f{}", i)).collect();
    let second = split_file_list(&mut files);
    assert_eq!(vec!["f0", "f1"], files);
    assert_eq!(vec!["f2", "f3", "f4"], second);
}

#[test]
fn fetches_retry_once() {
    assert!(retry_fetch(1));
    assert!(!retry_fetch(2));
}

#[test]
fn uploads_back_off_then_give_up() {
    assert_eq!(Some(UploadAttempt { delay_millis: 0, fresh_client: true }), upload_attempt(0));
    assert_eq!(Some(UploadAttempt { delay_millis: 0, fresh_client: false }), upload_attempt(1));
    assert_eq!(Some(UploadAttempt { delay_millis: 5000, fresh_client: true }), upload_attempt(2));
    assert_eq!(Some(UploadAttempt { delay_millis: 20000, fresh_client: true }), upload_attempt(3));
    assert_eq!(None, upload_attempt(UPLOAD_ATTEMPTS));
}

#[test]
fn compressed_sql_decompresses_to_itself() {
    let sql = "INSERT INTO t VALUES (1);\nINSERT INTO t VALUES (2);";
    let bytes = compress_sql(sql);
    assert_ne!(sql.as_bytes(), &bytes[..]);
    assert_eq!(&[0x1f, 0x8b], &bytes[0..2]);
    let mut text = String::new();
    flate2::read::GzDecoder::new(&bytes[..]).read_to_string(&mut text).unwrap();
    assert_eq!(sql, text);
}

#[test]
fn timestamps_stay_within_four_digit_years() {
    assert!(Timestamp::from_unix_seconds(253402300799).is_some());
    assert!(Timestamp::from_unix_seconds(253402300800).is_none());
    assert!(Timestamp::from_unix_seconds(-62135596800).is_some());
    assert!(Timestamp::from_unix_seconds(-62135596801).is_none());
    assert_eq!("1970-01-01 00:00:00 UTC", Timestamp::from_unix_seconds(0).unwrap().utc_string());
    assert_eq!("2010-01-01 00:00:00 UTC", Timestamp::placeholder().utc_string());
    let a = Timestamp::from_unix_seconds(5).unwrap();
    let b = Timestamp::from_unix_seconds(6).unwrap();
    assert!(b.is_after(&a) && !a.is_after(&b) && !a.is_after(&a));
}

#[test]
fn text_comparison_is_exact() {
    assert!(same_text("PushEvent", "PushEvent"));
    assert!(!same_text("PushEvent", "pushevent"));
    assert!(!same_text("", "x"));
}

#[test]
fn empty_sql_still_compresses() {
    let bytes = compress_sql("");
    assert!(!bytes.is_empty());
    let mut text = String::new();
    flate2::read::GzDecoder::new(&bytes[..]).read_to_string(&mut text).unwrap();
    assert_eq!("", text);
}

#[test]
fn schema_follows_the_year() {
    assert!(!uses_current_schema(2014));
    assert!(uses_current_schema(2015));
    assert!(uses_current_schema(2023));
}

#[test]
fn flags_read_true_and_false_only() {
    assert!(flag_setting(Some("true"), false));
    assert!(!flag_setting(Some("false"), true));
    assert!(flag_setting(Some("yes"), true));
    assert!(!flag_setting(Some("TRUE"), false));
    assert!(flag_setting(None, true));
    assert!(!flag_setting(None, false));
}
