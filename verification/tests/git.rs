use recall::git::{
    config_user_name, day_rows, descend_into, git_event, git_log_records, git_repo_rows, parse_git_log_record,
    resolve_git_user_name, scan_step, ScanStep, MAX_SCAN_DEPTH,
};
use recall::timeline::{TimelineEvent, TimelineEventSource};

#[test]
fn parse_record_valid() {
    let line = "a1b2c3d4e5f6a1b2\t1705312800\tFix the bug";
    let (hash, ts, subject) = parse_git_log_record(line).unwrap();
    assert_eq!(hash, "a1b2c3d4e5f6a1b2");
    assert_eq!(ts, 1705312800);
    assert_eq!(subject, "Fix the bug");
}

#[test]
fn parse_record_empty_subject() {
    let line = "a1b2c3d4e5f6a1b2\t1705312800\t";
    let (_, _, subject) = parse_git_log_record(line).unwrap();
    assert_eq!(subject, "");
}

#[test]
fn parse_record_short_hash_returns_none() {
    assert!(parse_git_log_record("abc\t1705312800\tMsg").is_none());
}

#[test]
fn parse_record_missing_timestamp_returns_none() {
    assert!(parse_git_log_record("a1b2c3d4e5f6\t\tMsg").is_none());
}

#[test]
fn parse_record_non_numeric_timestamp_returns_none() {
    assert!(parse_git_log_record("a1b2c3d4e5f6\tnot-a-ts\tMsg").is_none());
}

#[test]
fn parse_record_keeps_tabs_in_the_subject_and_trims_fields() {
    let (hash, ts, subject) = parse_git_log_record(" a1b2c3d4 \t -42 \t a\tb ").unwrap();
    assert_eq!(hash, "a1b2c3d4");
    assert_eq!(ts, -42);
    assert_eq!(subject, "a\tb");
}

#[test]
fn parse_record_without_subject_field_and_overflowing_time() {
    let (_, ts, subject) = parse_git_log_record("a1b2c3d4\t+7").unwrap();
    assert_eq!(ts, 7);
    assert_eq!(subject, "");
    assert!(parse_git_log_record("a1b2c3d4\t9223372036854775808\tx").is_none());
    assert_eq!(parse_git_log_record("a1b2c3d4\t-9223372036854775808\tx").unwrap().1, i64::MIN);
    assert!(parse_git_log_record("a1b2c3d4e5f6").is_none());
}

#[test]
fn parse_record_counts_hash_bytes_not_characters() {
    // Four two-byte characters are eight bytes.
    assert!(parse_git_log_record("éééé\t1\tx").is_some());
    assert!(parse_git_log_record("ééé\t1\tx").is_none());
}

#[test]
fn records_split_at_nul_bytes_and_skip_empty_ones() {
    let out = b"aaaaaaa\t1\tone\0\0bbbbbbb\t2\ttwo\0";
    let recs = git_log_records(out);
    assert_eq!(recs, vec!["aaaaaaa\t1\tone".to_string(), "bbbbbbb\t2\ttwo".to_string()]);
    assert!(git_log_records(b"").is_empty());
}

#[test]
fn a_commit_becomes_a_git_row() {
    let e = git_event("/src/recall", "recall", "0123456789abcdef", 100, "Fix it", Some("09:30".into()));
    assert_eq!(e.id, "git:/src/recall:0123456789abcdef");
    assert_eq!(e.time, "09:30");
    assert_eq!(e.timestamp, 100);
    assert_eq!(e.source, TimelineEventSource::Git);
    assert_eq!(e.title, "Fix it");
    assert_eq!(e.detail.as_deref(), Some("recall — 0123456"));
    assert_eq!(e.url, None);
    let e = git_event("/r", "r", "abc", 0, "", None);
    assert_eq!(e.time, "00:00");
    assert_eq!(e.detail.as_deref(), Some("r — abc"));
}

#[test]
fn repo_rows_keep_well_formed_records_in_order() {
    let recs = vec![
        "aaaaaaa1\t20\tsecond".to_string(),
        "bad".to_string(),
        "bbbbbbb2\t10\tfirst".to_string(),
    ];
    let rows = git_repo_rows("/x/y", "y", &recs);
    assert_eq!(rows.len(), 2);
    assert_eq!(rows[0].0, 20);
    assert_eq!(rows[0].1.id, "git:/x/y:aaaaaaa1");
    assert_eq!(rows[1].1.title, "first");
}

#[test]
fn scan_rules() {
    assert_eq!(scan_step(0, true), ScanStep::Repo);
    assert_eq!(scan_step(MAX_SCAN_DEPTH, false), ScanStep::Children);
    assert_eq!(scan_step(MAX_SCAN_DEPTH + 1, true), ScanStep::Skip);
    for skipped in ["node_modules", "target", ".git", ".cargo", "dist", "build"] {
        assert!(!descend_into(skipped, true, false));
    }
    assert!(descend_into("src", true, false));
    assert!(!descend_into("src", true, true));
    assert!(!descend_into("src", false, false));
}

#[test]
fn the_first_configured_name_wins() {
    assert_eq!(
        resolve_git_user_name(&vec![None, Some(String::new()), Some("Ada".into()), Some("Bob".into())]),
        Some("Ada".to_string())
    );
    assert_eq!(resolve_git_user_name(&vec![None]), None);
    assert_eq!(config_user_name(true, b"  Recall Tester \n"), Some("Recall Tester".to_string()));
    assert_eq!(config_user_name(true, b" \n"), None);
    assert_eq!(config_user_name(false, b"Name"), None);
}

fn commit_row(ts: i64, id: &str) -> (i64, TimelineEvent) {
    (
        ts,
        TimelineEvent {
            id: id.to_string(),
            time: "00:00".to_string(),
            timestamp: ts,
            source: TimelineEventSource::Git,
            title: id.to_string(),
            detail: None,
            url: None,
        },
    )
}

#[test]
fn commits_of_several_repositories_come_out_in_time_order() {
    let a = vec![commit_row(30, "a1"), commit_row(10, "a2")];
    let b = vec![commit_row(20, "b1"), commit_row(10, "b2")];
    let rows = day_rows(vec![a, b]);
    let order: Vec<(i64, &str)> = rows.iter().map(|(ts, ev)| (*ts, ev.id.as_str())).collect();
    assert_eq!(order, vec![(10, "a2"), (10, "b2"), (20, "b1"), (30, "a1")]);
    assert!(day_rows(Vec::new()).is_empty());
}
