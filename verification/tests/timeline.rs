use chrono::Datelike;
use recall::timeline::sanitize_event_url;

#[test]
fn sanitize_accepts_http_and_https() {
    assert_eq!(
        sanitize_event_url("https://example.com/x?y=1#z"),
        Some("https://example.com/x?y=1#z".to_string())
    );
    assert_eq!(
        sanitize_event_url("http://example.com"),
        Some("http://example.com".to_string())
    );
}

#[test]
fn sanitize_matches_scheme_case_insensitively_but_keeps_original() {
    assert_eq!(
        sanitize_event_url("HTTPS://Example.com/A"),
        Some("HTTPS://Example.com/A".to_string())
    );
}

#[test]
fn sanitize_trims_surrounding_whitespace() {
    assert_eq!(
        sanitize_event_url("  https://a.b/c \n"),
        Some("https://a.b/c".to_string())
    );
}

#[test]
fn sanitize_rejects_empty_and_whitespace_only() {
    assert_eq!(sanitize_event_url(""), None);
    assert_eq!(sanitize_event_url("   \t"), None);
}

#[test]
fn sanitize_rejects_non_http_schemes_and_bare_hosts() {
    for raw in [
        "javascript:alert(1)",
        "file:///etc/passwd",
        "mailto:someone@example.com",
        "ftp://example.com/x",
        "//evil.example.com",
        "example.com",
        "http:/missing-slash",
        "https:example.com",
        " javascript:https://looks-legit",
    ] {
        assert_eq!(sanitize_event_url(raw), None, "should reject {raw:?}");
    }
}

#[test]
fn sanitize_is_stable_on_its_own_output() {
    for raw in ["  HTTPS://a.b/c\t", "http://x", "https://\u{a0}y "] {
        let once = sanitize_event_url(raw).unwrap();
        assert_eq!(sanitize_event_url(&once), Some(once.clone()));
    }
}

#[test]
fn sanitize_trims_unicode_whitespace() {
    assert_eq!(
        sanitize_event_url("\u{2003}https://a.b\u{3000}"),
        Some("https://a.b".to_string())
    );
}

#[test]
fn local_clock_reads_hours_and_minutes() {
    assert_eq!(recall::clock::hhmm_of(0), "00:00");
    assert_eq!(recall::clock::hhmm_of(3661), "01:01");
    assert_eq!(recall::clock::hhmm_of(86399), "23:59");
}

#[test]
fn chrono_range_is_as_stated() {
    assert_eq!(chrono::NaiveDate::MIN.num_days_from_ce(), recall::clock::MIN_CHRONO_DAY);
    assert_eq!(chrono::NaiveDate::MAX.num_days_from_ce(), recall::clock::MAX_CHRONO_DAY);
    assert!(chrono::NaiveDate::from_num_days_from_ce_opt(recall::clock::MIN_CHRONO_DAY - 1).is_none());
    assert!(chrono::NaiveDate::from_num_days_from_ce_opt(recall::clock::MAX_CHRONO_DAY + 1).is_none());
    assert!(chrono::DateTime::from_timestamp(-8334601228800, 0).is_some());
    assert!(chrono::DateTime::from_timestamp(-8334601228801, 0).is_none());
    assert!(chrono::DateTime::from_timestamp(8210266876799, 0).is_some());
    assert!(chrono::DateTime::from_timestamp(8210266876800, 0).is_none());
}

#[test]
fn local_clock_edges() {
    assert!(recall::clock::local_clock(8210266876799 - 86400).is_some());
    assert!(recall::clock::local_clock(8210266876799 - 86399).is_none());
    assert!(recall::clock::local_clock(-8334601228800 + 86400).is_some());
    assert!(recall::clock::local_clock(-8334601228800 + 86399).is_none());
    assert!(recall::clock::local_clock(0).is_some());
}
