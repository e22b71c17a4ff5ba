use recall::clock::now;
use recall::telemetry::{
    build_payload, classify_error, count_bucket, duration_bucket, events_bucket, install_age_bucket,
    now_ms, ping_due, valid_key, SettingsSnapshot, MAX_KEY_LEN, SCHEMA_VERSION,
};

#[test]
fn valid_key_accepts_dotted_lowercase_only() {
    assert!(valid_key("nav.prev"));
    assert!(valid_key("error.github.rate_limit"));
    assert!(valid_key("load_ms.git.lt1s"));
    assert!(!valid_key(""));
    assert!(!valid_key("Nav.Prev"));
    assert!(!valid_key("nav prev"));
    assert!(!valid_key("nav/prev"));
    assert!(!valid_key(&"a".repeat(MAX_KEY_LEN + 1)));
}

#[test]
fn valid_key_accepts_exactly_the_maximum_length() {
    assert!(valid_key(&"a".repeat(MAX_KEY_LEN)));
}

#[test]
fn classify_error_buckets_common_messages() {
    assert_eq!(classify_error("GitHub API returned 401 Unauthorized"), "auth");
    assert_eq!(classify_error("Bad credentials"), "auth");
    assert_eq!(classify_error("HTTP 429 rate limit exceeded"), "rate_limit");
    assert_eq!(classify_error("connection timed out"), "network");
    assert_eq!(classify_error("dns error: no such host"), "network");
    assert_eq!(classify_error("Scan path is required"), "config");
    assert_eq!(classify_error("Git scan path is not a directory: /x"), "config");
    assert_eq!(classify_error("something odd"), "other");
}

#[test]
fn buckets_have_expected_edges() {
    assert_eq!(duration_bucket(0), "lt1s");
    assert_eq!(duration_bucket(999), "lt1s");
    assert_eq!(duration_bucket(1000), "1to3s");
    assert_eq!(duration_bucket(2999), "1to3s");
    assert_eq!(duration_bucket(3000), "3to10s");
    assert_eq!(duration_bucket(10_000), "gt10s");

    assert_eq!(events_bucket(0), "0");
    assert_eq!(events_bucket(10), "1to10");
    assert_eq!(events_bucket(11), "11to50");
    assert_eq!(events_bucket(51), "50plus");

    assert_eq!(count_bucket(0), "0");
    assert_eq!(count_bucket(3), "3plus");

    let day = 86_400_000;
    assert_eq!(install_age_bucket(0, 0), "0to7d");
    assert_eq!(install_age_bucket(0, 7 * day), "0to7d");
    assert_eq!(install_age_bucket(0, 8 * day), "8to30d");
    assert_eq!(install_age_bucket(0, 91 * day), "91to365d");
    assert_eq!(install_age_bucket(0, 400 * day), "365dplus");
    // Clock skew must not underflow.
    assert_eq!(install_age_bucket(10 * day, 0), "0to7d");
}

#[test]
fn now_is_milliseconds_since_epoch() {
    // 2020-01-01 in ms; anything smaller means seconds were returned.
    assert!(now() > 1_577_836_800_000);
}

#[test]
fn telemetry_clock_is_in_milliseconds_too() {
    assert!(now_ms() > 1_577_836_800_000);
}

fn some(v: &[&str]) -> Option<Vec<Option<String>>> {
    Some(v.iter().map(|s| Some(s.to_string())).collect())
}

#[test]
fn payload_contains_flags_and_counters_but_no_secrets() {
    let snapshot = SettingsSnapshot {
        theme: Some("dark".into()),
        lang_gauge: Some("da".into()),
        group_mode_gauge: Some("Task View!".into()),
        git_enabled: Some(false),
        github_enabled: Some(true),
        calendar_enabled: Some(true),
        jira_enabled: None,
        zulip_enabled: None,
        github_events: some(&["PullRequestEvent", "PushEvent"]),
        jira_events: None,
        ical_urls: some(&["https://calendar.example/secret.ics", ""]),
        export_prompt: Some("My custom prompt text".into()),
    };
    let counters = vec![("nav.prev".to_string(), 3), ("harvest.mark".to_string(), 1)];
    let p = build_payload("00000000-0000-4000-8000-000000000000", "2026-09-21", 0, 40 * 86_400_000, counters, &snapshot);
    assert_eq!(p.schema, SCHEMA_VERSION);
    assert_eq!(p.date, "2026-09-21");
    assert_eq!(p.install_age, "31to90d");
    assert_eq!(p.lang.as_deref(), Some("da"));
    assert_eq!(p.theme.as_deref(), Some("dark"));
    assert_eq!(p.group_mode, None);
    assert!(p.config.github);
    assert!(!p.config.git);
    assert!(!p.config.jira);
    assert_eq!(p.config.github_events, vec!["PullRequestEvent", "PushEvent"]);
    assert_eq!(p.config.ical_urls, "1");
    assert!(p.config.custom_export_prompt);
    assert_eq!(p.counters, vec![("nav.prev".to_string(), 3), ("harvest.mark".to_string(), 1)]);

    let mut text = vec![p.id.clone(), p.date.clone(), p.install_age.clone(), p.config.ical_urls.clone()];
    text.extend(p.lang.clone());
    text.extend(p.theme.clone());
    text.extend(p.group_mode.clone());
    text.extend(p.config.github_events.clone());
    text.extend(p.config.jira_events.clone());
    text.extend(p.counters.iter().map(|(k, _)| k.clone()));
    let text = text.join(" ");
    for secret in ["calendar.example", "custom prompt", "Task View"] {
        assert!(!text.contains(secret), "payload leaked {secret:?}: {text}");
    }
}

#[test]
fn one_summary_per_day() {
    assert!(ping_due(&None, "2024-03-05"));
    assert!(!ping_due(&Some("2024-03-05".to_string()), "2024-03-05"));
    assert!(ping_due(&Some("2024-03-04".to_string()), "2024-03-05"));
}
