use chrono::Datelike;
use recall::github::{
    candidate_query, candidate_refs, commit_rows, commit_search_range, push_rows, select_push_events, days_between, format_with_optional_subject,
    github_event_id_str, issue_ref, make_row, map_commit, map_issue_comment, map_opened,
    map_pr_review, map_pr_review_comment, map_push_event, opened_query, parse_github_datetime,
    push_event_shas, push_horizon, repo_from_html_url, repo_from_repository_url, search_url,
    validate_username, CommitItem, EventId, GhEvent, IssueComment, IssueRef, PrReview,
    PushCommit, Range, SearchIssueItem, EVENTS_API_MAX_AGE_DAYS,
};
use recall::timeline::TimelineEventSource;

/// chrono's day number of a civil date, as the library counts days.
fn ymd_day(y: i32, m: u32, d: u32) -> Option<i32> {
    chrono::NaiveDate::from_ymd_opt(y, m, d).map(|x| x.num_days_from_ce())
}

fn utc(s: &str) -> i64 {
    parse_github_datetime(s).unwrap()
}

/// 2026-09-01T00:00Z ..< 2026-09-08T00:00Z
fn week() -> Range {
    Range::new(utc("2026-09-01T00:00:00Z"), utc("2026-09-08T00:00:00Z")).unwrap()
}

fn pr_ref() -> IssueRef {
    IssueRef {
        repo: "reload/bupl".into(),
        number: 1535,
        title: "Update Drupal".into(),
        is_pr: true,
    }
}

fn issue_ref_fixture() -> IssueRef {
    IssueRef {
        repo: "reload/bupl".into(),
        number: 7,
        title: "Broken build".into(),
        is_pr: false,
    }
}

fn search_item(
    id: Option<u64>,
    number: Option<u64>,
    title: Option<&str>,
    repository_url: Option<&str>,
    html_url: Option<&str>,
    pull_request: bool,
    created_at: Option<&str>,
) -> SearchIssueItem {
    SearchIssueItem {
        id,
        number,
        title: title.map(String::from),
        repository_url: repository_url.map(String::from),
        html_url: html_url.map(String::from),
        pull_request,
        created_at: created_at.map(String::from),
    }
}

fn comment(id: u64, login: &str, created_at: &str) -> IssueComment {
    IssueComment {
        id: Some(id),
        user_login: Some(login.into()),
        created_at: Some(created_at.into()),
    }
}

#[test]
fn parse_github_datetime_valid() {
    assert!(parse_github_datetime("2024-01-15T10:30:00Z").is_ok());
    assert!(parse_github_datetime("2024-01-15T10:30:00+02:00").is_ok());
    // /search/commits author dates carry milliseconds and an offset.
    assert!(parse_github_datetime("2026-09-17T10:58:36.000+02:00").is_ok());
}

#[test]
fn parse_github_datetime_invalid() {
    assert!(parse_github_datetime("not-a-date").is_err());
}

#[test]
fn parse_github_datetime_error_names_the_text() {
    let e = parse_github_datetime("nope").unwrap_err();
    assert!(e.starts_with("Invalid GitHub timestamp \"nope\": "));
    assert_eq!(utc("2024-01-15T10:30:00+02:00"), utc("2024-01-15T08:30:00Z"));
    assert_eq!(utc("1970-01-01T00:01:00Z"), 60);
}

#[test]
fn format_with_optional_subject_with_text() {
    assert_eq!(
        format_with_optional_subject("PR #42 opened".into(), Some("My feature".into())),
        "PR #42 opened: My feature"
    );
}

#[test]
fn format_with_optional_subject_none() {
    assert_eq!(format_with_optional_subject("PR #42 opened".into(), None), "PR #42 opened");
}

#[test]
fn format_with_optional_subject_whitespace_only() {
    assert_eq!(
        format_with_optional_subject("PR #42 opened".into(), Some("   ".into())),
        "PR #42 opened"
    );
}

#[test]
fn github_event_id_str_number() {
    assert_eq!(github_event_id_str(&EventId::Number("42".into())), "42");
}

#[test]
fn github_event_id_str_string() {
    assert_eq!(github_event_id_str(&EventId::Text("abc123".into())), "abc123");
}

#[test]
fn github_event_id_str_other() {
    assert_eq!(github_event_id_str(&EventId::Other), "unknown");
}

#[test]
fn validate_username_accepts_github_logins() {
    assert!(validate_username("rasben").is_ok());
    assert!(validate_username("octo-cat42").is_ok());
}

#[test]
fn validate_username_rejects_qualifier_injection() {
    assert!(validate_username("").is_err());
    assert!(validate_username("me OR commenter:you").is_err());
    assert!(validate_username("a:b").is_err());
}

#[test]
fn days_between_inclusive() {
    let a = ymd_day(2026, 9, 1).unwrap();
    let b = ymd_day(2026, 9, 3).unwrap();
    assert_eq!(days_between(a, b).len(), 3);
    assert_eq!(days_between(a, a), vec![a]);
}

#[test]
fn range_contains_is_half_open() {
    let r = week();
    assert!(r.contains(utc("2026-09-01T00:00:00Z")));
    assert!(r.contains(utc("2026-09-07T23:59:59Z")));
    assert!(!r.contains(utc("2026-09-08T00:00:00Z")));
    assert!(!r.contains(utc("2026-08-31T23:59:59Z")));
}

#[test]
fn created_qualifier_is_inclusive_iso_with_offset() {
    assert_eq!(
        week().created_qualifier(),
        "2026-09-01T00:00:00+00:00..2026-09-07T23:59:59+00:00"
    );
}

#[test]
fn since_qualifier_and_param() {
    assert_eq!(week().since_qualifier(), ">=2026-09-01T00:00:00+00:00");
    assert_eq!(week().since_param(), "2026-09-01T00:00:00Z");
}

#[test]
fn opened_query_variants() {
    let r = week();
    assert_eq!(opened_query("me", false, false, &r), None);
    assert_eq!(
        opened_query("me", true, false, &r).unwrap(),
        "is:pr author:me created:2026-09-01T00:00:00+00:00..2026-09-07T23:59:59+00:00"
    );
    assert!(opened_query("me", false, true, &r).unwrap().starts_with("is:issue author:me created:"));
    assert!(opened_query("me", true, true, &r).unwrap().starts_with("author:me created:"));
}

#[test]
fn candidate_query_variants() {
    let r = week();
    assert_eq!(candidate_query("me", false, false, &r), None);
    assert_eq!(
        candidate_query("me", true, false, &r).unwrap(),
        "commenter:me updated:>=2026-09-01T00:00:00+00:00"
    );
    assert_eq!(
        candidate_query("me", false, true, &r).unwrap(),
        "is:pr reviewed-by:me updated:>=2026-09-01T00:00:00+00:00"
    );
    assert_eq!(
        candidate_query("me", true, true, &r).unwrap(),
        "(commenter:me OR reviewed-by:me) updated:>=2026-09-01T00:00:00+00:00"
    );
}

#[test]
fn search_url_adds_advanced_search_for_issues_only() {
    let issues = search_url("issues", "author:me is:pr", 2);
    assert!(issues.starts_with("https://api.github.com/search/issues?q=author%3Ame%20is%3Apr"));
    assert!(issues.contains("&per_page=100&page=2"));
    assert!(issues.ends_with("&advanced_search=true"));

    let commits = search_url("commits", "author:me", 1);
    assert!(commits.starts_with("https://api.github.com/search/commits?q="));
    assert!(!commits.contains("advanced_search"));
}

#[test]
fn push_horizon_reached_since_means_complete_range() {
    let r = week();
    let now = utc("2026-09-10T00:00:00Z");
    let h = push_horizon(true, Some(utc("2026-09-03T00:00:00Z")), &r, now);
    assert_eq!(h, r.since());
}

#[test]
fn push_horizon_ran_dry_uses_oldest_event() {
    let r = week();
    let now = utc("2026-09-10T00:00:00Z");
    let oldest = utc("2026-09-04T12:00:00Z");
    assert_eq!(push_horizon(false, Some(oldest), &r, now), oldest);
}

#[test]
fn push_horizon_ran_dry_without_events_is_the_api_floor() {
    let old = Range::new(utc("2026-01-01T00:00:00Z"), utc("2026-01-08T00:00:00Z")).unwrap();
    let now = utc("2026-09-10T00:00:00Z");
    assert_eq!(push_horizon(false, None, &old, now), now - EVENTS_API_MAX_AGE_DAYS * 86400);
    let recent = week();
    assert_eq!(push_horizon(false, None, &recent, now), recent.since());
}

#[test]
fn push_horizon_never_before_90_day_floor() {
    let old = Range::new(utc("2026-01-01T00:00:00Z"), utc("2026-01-08T00:00:00Z")).unwrap();
    let now = utc("2026-09-10T00:00:00Z");
    assert_eq!(push_horizon(true, None, &old, now), now - EVENTS_API_MAX_AGE_DAYS * 86400);
}

#[test]
fn commit_search_range_stops_at_the_horizon() {
    let r = week();
    let mid = utc("2026-09-04T00:00:00Z");
    let c = commit_search_range(&r, mid).unwrap();
    assert_eq!((c.since(), c.until()), (r.since(), mid));
    assert!(commit_search_range(&r, r.since()).is_none());
    let c = commit_search_range(&r, utc("2026-09-20T00:00:00Z")).unwrap();
    assert_eq!(c.until(), r.until());
}

#[test]
fn issue_ref_from_search_item() {
    let item = search_item(
        None,
        Some(1535),
        Some("Update Drupal"),
        Some("https://api.github.com/repos/reload/bupl"),
        Some("https://github.com/reload/bupl/pull/1535"),
        true,
        None,
    );
    assert_eq!(issue_ref(&item), Some(pr_ref()));
}

#[test]
fn issue_ref_falls_back_to_html_url_and_detects_issues() {
    let item = search_item(
        None,
        Some(7),
        Some("Broken build"),
        None,
        Some("https://github.com/reload/bupl/issues/7"),
        false,
        None,
    );
    assert_eq!(issue_ref(&item), Some(issue_ref_fixture()));
}

#[test]
fn issue_ref_requires_number() {
    let item = search_item(None, None, None, Some("https://api.github.com/repos/a/b"), None, false, None);
    assert_eq!(issue_ref(&item), None);
}

#[test]
fn repo_from_urls() {
    assert_eq!(
        repo_from_repository_url("https://api.github.com/repos/reload/bupl"),
        Some("reload/bupl".into())
    );
    assert_eq!(repo_from_repository_url("https://example.com/x"), None);
    assert_eq!(
        repo_from_html_url("https://github.com/reload/bupl/pull/1#issuecomment-2"),
        Some("reload/bupl".into())
    );
    assert_eq!(repo_from_html_url("https://github.com/only-owner"), None);
}

#[test]
fn map_opened_pull_request() {
    let item = search_item(
        Some(5488697526),
        Some(1535),
        Some("Update Drupal"),
        Some("https://api.github.com/repos/reload/bupl"),
        None,
        true,
        Some("2026-09-03T14:24:39Z"),
    );
    let (_, ts, ev) = map_opened(&item, &week()).unwrap();
    assert_eq!(ts, utc("2026-09-03T14:24:39Z"));
    assert_eq!(ev.timestamp, ts);
    assert_eq!(ev.id, "github:pr:5488697526:opened");
    assert_eq!(ev.title, "Pull request #1535 opened: Update Drupal");
    assert_eq!(ev.detail.as_deref(), Some("reload/bupl"));
    assert_eq!(ev.url.as_deref(), Some("https://github.com/reload/bupl/pull/1535"));
    assert!(matches!(ev.source, TimelineEventSource::Github));
}

#[test]
fn map_opened_issue_without_title() {
    let item = search_item(
        Some(99),
        Some(7),
        Some(""),
        Some("https://api.github.com/repos/reload/bupl"),
        None,
        false,
        Some("2026-09-03T14:24:39Z"),
    );
    let (_, _, ev) = map_opened(&item, &week()).unwrap();
    assert_eq!(ev.id, "github:issue:99:opened");
    assert_eq!(ev.title, "Issue #7 opened");
    assert_eq!(ev.url.as_deref(), Some("https://github.com/reload/bupl/issues/7"));
}

#[test]
fn map_opened_outside_range_is_dropped() {
    let item = search_item(
        Some(1),
        Some(1),
        None,
        Some("https://api.github.com/repos/a/b"),
        None,
        false,
        Some("2026-09-08T00:00:00Z"),
    );
    assert!(map_opened(&item, &week()).is_none());
}

#[test]
fn map_issue_comment_on_pr_uses_pull_path() {
    let c = comment(3344, "RasBen", "2026-09-02T09:00:00Z");
    let (_, _, ev) = map_issue_comment(&c, &pr_ref(), "rasben", &week()).unwrap();
    assert_eq!(ev.id, "github:comment:3344");
    assert_eq!(ev.title, "Comment on #1535: Update Drupal");
    assert_eq!(
        ev.url.as_deref(),
        Some("https://github.com/reload/bupl/pull/1535#issuecomment-3344")
    );
}

#[test]
fn map_issue_comment_on_issue_uses_issues_path() {
    let c = comment(5, "rasben", "2026-09-02T09:00:00Z");
    let (_, _, ev) = map_issue_comment(&c, &issue_ref_fixture(), "rasben", &week()).unwrap();
    assert_eq!(ev.url.as_deref(), Some("https://github.com/reload/bupl/issues/7#issuecomment-5"));
}

#[test]
fn map_issue_comment_filters_other_users_and_range() {
    let other = comment(1, "someone-else", "2026-09-02T09:00:00Z");
    assert!(map_issue_comment(&other, &pr_ref(), "rasben", &week()).is_none());
    let too_old = comment(2, "rasben", "2026-08-30T09:00:00Z");
    assert!(map_issue_comment(&too_old, &pr_ref(), "rasben", &week()).is_none());
}

#[test]
fn map_pr_review_lowercases_state_and_anchors() {
    let r = PrReview {
        id: Some(777),
        user_login: Some("rasben".into()),
        state: Some("CHANGES_REQUESTED".into()),
        submitted_at: Some("2026-09-05T10:00:00Z".into()),
    };
    let (_, _, ev) = map_pr_review(&r, &pr_ref(), "rasben", &week()).unwrap();
    assert_eq!(ev.id, "github:review:777");
    assert_eq!(ev.title, "PR review (changes_requested) on #1535: Update Drupal");
    assert_eq!(
        ev.url.as_deref(),
        Some("https://github.com/reload/bupl/pull/1535#pullrequestreview-777")
    );
}

#[test]
fn map_pr_review_skips_pending() {
    let r = PrReview {
        id: Some(1),
        user_login: Some("rasben".into()),
        state: Some("PENDING".into()),
        submitted_at: None,
    };
    assert!(map_pr_review(&r, &pr_ref(), "rasben", &week()).is_none());
}

#[test]
fn map_pr_review_comment_anchor() {
    let c = comment(4242, "rasben", "2026-09-05T10:00:00Z");
    let (_, _, ev) = map_pr_review_comment(&c, &pr_ref(), "rasben", &week()).unwrap();
    assert_eq!(ev.id, "github:review-comment:4242");
    assert_eq!(ev.title, "PR review comment on #1535: Update Drupal");
    assert_eq!(
        ev.url.as_deref(),
        Some("https://github.com/reload/bupl/pull/1535#discussion_r4242")
    );
}

#[test]
fn map_commit_from_search() {
    let item = CommitItem {
        sha: Some("579d4efa4b2cb6e72bd966774fa7ee3ff83392d4".into()),
        author_date: Some("2026-09-03T10:58:36.000+02:00".into()),
        message: Some("Merge pull request #576\n\nbody text".into()),
        repository_full_name: Some("reload/joyspeed".into()),
        html_url: Some(
            "https://github.com/reload/joyspeed/commit/579d4efa4b2cb6e72bd966774fa7ee3ff83392d4"
                .into(),
        ),
    };
    let (_, ts, ev) = map_commit(&item, &week(), &Vec::new()).unwrap();
    assert_eq!(ts, utc("2026-09-03T08:58:36Z"));
    assert_eq!(ev.id, "github:commit:579d4efa4b2cb6e72bd966774fa7ee3ff83392d4");
    assert_eq!(ev.title, "Merge pull request #576");
    assert_eq!(ev.detail.as_deref(), Some("reload/joyspeed \u{2014} 579d4ef"));
    assert_eq!(
        ev.url.as_deref(),
        Some("https://github.com/reload/joyspeed/commit/579d4efa4b2cb6e72bd966774fa7ee3ff83392d4")
    );
}

#[test]
fn map_commit_skips_shas_already_pushed() {
    let item = CommitItem {
        sha: Some("abc".into()),
        author_date: Some("2026-09-03T10:00:00Z".into()),
        message: Some("x".into()),
        repository_full_name: Some("a/b".into()),
        html_url: None,
    };
    let pushed = vec!["abc".to_string()];
    assert!(map_commit(&item, &week(), &pushed).is_none());
    let (_, _, ev) = map_commit(&item, &week(), &Vec::new()).unwrap();
    assert_eq!(ev.url.as_deref(), Some("https://github.com/a/b/commit/abc"));
}

fn push_event() -> GhEvent {
    GhEvent {
        id: EventId::Text("123456".into()),
        event_type: "PushEvent".into(),
        repo_name: "reload/bupl".into(),
        created_at: "2026-09-03T10:00:00Z".into(),
        git_ref: Some("refs/heads/feature/x".into()),
        size: Some(2),
        before: Some("aaa111".into()),
        head: Some("bbb222".into()),
        commits: vec![
            PushCommit { sha: Some("aaa222".into()), message: Some("First\n\nbody".into()) },
            PushCommit { sha: Some("bbb222".into()), message: Some("Second".into()) },
        ],
    }
}

#[test]
fn map_push_event_shape() {
    let m = map_push_event(&push_event()).unwrap();
    assert_eq!(m.title, "Pushed 2 commits to feature/x");
    assert_eq!(m.detail, "reload/bupl \u{2014} First; Second");
    assert_eq!(m.url.as_deref(), Some("https://github.com/reload/bupl/compare/aaa111...bbb222"));
}

#[test]
fn map_push_event_ignores_other_types() {
    let mut ev = push_event();
    ev.event_type = "WatchEvent".into();
    assert!(map_push_event(&ev).is_none());
}

#[test]
fn push_event_shas_collects_commit_shas() {
    assert_eq!(push_event_shas(&push_event()), vec!["aaa222", "bbb222"]);
}

#[test]
fn make_row_sanitizes_url() {
    let (_, _, ev) = make_row(
        "github:x".into(),
        utc("2026-09-03T10:00:00Z"),
        "t".into(),
        "d".into(),
        Some("javascript:alert(1)".into()),
    )
    .unwrap();
    assert_eq!(ev.url, None);
    let (_, _, ev) = make_row(
        "github:y".into(),
        utc("2026-09-03T10:00:00Z"),
        "t".into(),
        "d".into(),
        Some("https://github.com/a".into()),
    )
    .unwrap();
    assert_eq!(ev.url.as_deref(), Some("https://github.com/a"));
    assert_eq!(ev.detail.as_deref(), Some("d"));
}

#[test]
fn a_pushed_commit_is_not_listed_again_by_commit_search() {
    let events = vec![push_event()];
    let selected = select_push_events(&events, utc("2026-09-01T00:00:00Z"), &week()).unwrap();
    assert_eq!(selected, vec![(0, utc("2026-09-03T10:00:00Z"))]);
    let (rows, shas) = push_rows(&events, &selected);
    assert_eq!(rows.len(), 1);
    assert_eq!(rows[0].2.id, "github:123456");
    assert_eq!(shas, vec!["aaa222", "bbb222"]);
    let item = |sha: &str| CommitItem {
        sha: Some(sha.into()),
        author_date: Some("2026-09-03T09:00:00Z".into()),
        message: Some("m".into()),
        repository_full_name: Some("reload/bupl".into()),
        html_url: None,
    };
    let found = commit_rows(&vec![item("aaa222"), item("ccc333")], &week(), &shas);
    assert_eq!(found.len(), 1);
    assert_eq!(found[0].2.id, "github:commit:ccc333");
}

#[test]
fn candidates_keep_every_hit_with_a_reference_in_order() {
    let items = vec![
        search_item(None, Some(7), Some("Broken build"), None, Some("https://github.com/reload/bupl/issues/7"), false, None),
        search_item(None, None, None, Some("https://api.github.com/repos/a/b"), None, false, None),
        search_item(None, Some(1535), Some("Update Drupal"), Some("https://api.github.com/repos/reload/bupl"), None, true, None),
    ];
    assert_eq!(candidate_refs(&items), vec![issue_ref_fixture(), pr_ref()]);
}
