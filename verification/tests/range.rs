use chrono::{Datelike, TimeZone};
use recall::github::github_user;
use recall::ical::{calendar_rows, CalendarRow};
use recall::jira::jira_credentials;
use recall::range::{
    assemble_export, cacheable, collect_outcomes, days_in_range, events_on_day, export_bounds, month_window, parse_day_arg,
    sort_rows_by_time, Row, SourceOutcome,
};
use recall::timeline::{TimelineEvent, TimelineEventSource};
use recall::zulip::zulip_credentials;

fn d(s: &str) -> i32 {
    chrono::NaiveDate::parse_from_str(s, "%Y-%m-%d").unwrap().num_days_from_ce()
}

fn iso(day: i32) -> String {
    chrono::NaiveDate::from_num_days_from_ce_opt(day).unwrap().format("%Y-%m-%d").to_string()
}

#[test]
fn days_in_range_single_day() {
    assert_eq!(days_in_range(d("2024-03-05"), d("2024-03-05")), vec![d("2024-03-05")]);
}

#[test]
fn days_in_range_is_inclusive_ascending_and_crosses_month_ends() {
    let days = days_in_range(d("2024-02-27"), d("2024-03-02"));
    assert_eq!(
        days.iter().map(|x| iso(*x)).collect::<Vec<_>>(),
        vec!["2024-02-27", "2024-02-28", "2024-02-29", "2024-03-01", "2024-03-02"]
    );
}

#[test]
fn days_in_range_inverted_yields_only_the_start() {
    assert_eq!(days_in_range(d("2024-03-05"), d("2024-03-01")), vec![d("2024-03-05")]);
}

#[test]
fn export_rejects_malformed_dates() {
    assert!(export_bounds("2024-13-01", "2024-03-05").is_err());
    assert!(export_bounds("2024-03-05", "05/03/2024").is_err());
}

#[test]
fn export_rejects_an_inverted_range() {
    assert!(export_bounds("2024-03-06", "2024-03-05").is_err());
}

#[test]
fn export_enforces_the_maximum_span() {
    // 2020-01-01 ..= 2020-12-31 is 366 days (leap year): allowed.
    let (a, b) = export_bounds("2020-01-01", "2020-12-31").unwrap();
    assert_eq!(days_in_range(a, b).len(), 366);
    // One more day is not.
    assert!(export_bounds("2020-01-01", "2021-01-01").is_err());
}

#[test]
fn export_bounds_report_the_offending_argument() {
    assert_eq!(
        export_bounds("2024-13-01", "2024-03-05").unwrap_err(),
        "Invalid start date (expected YYYY-MM-DD): 2024-13-01"
    );
    assert_eq!(
        export_bounds("2024-03-06", "2024-03-05").unwrap_err(),
        "End date 2024-03-05 is before start date 2024-03-06"
    );
    assert_eq!(
        export_bounds("2020-01-01", "2021-01-01").unwrap_err(),
        "Range too large (max 366 days)"
    );
}

fn ev(id: &str, ts: i64) -> TimelineEvent {
    TimelineEvent {
        id: id.into(),
        time: "00:00".into(),
        timestamp: ts,
        source: TimelineEventSource::Git,
        title: id.into(),
        detail: None,
        url: None,
    }
}

#[test]
fn rows_sort_by_time_keeping_ties_in_order() {
    let day = d("2024-03-05");
    let rows = vec![(day, 30, ev("c", 30)), (day, 10, ev("a", 10)), (day, 30, ev("d", 30)), (day, 20, ev("b", 20))];
    let sorted = sort_rows_by_time(rows);
    let ids: Vec<&str> = sorted.iter().map(|r| r.2.id.as_str()).collect();
    assert_eq!(ids, vec!["a", "b", "c", "d"]);
}

const SOURCES: [&str; 5] = ["Git", "GitHub", "Calendar", "Jira", "Zulip"];

fn ok(source: &str, rows: Vec<Row>) -> SourceOutcome {
    SourceOutcome { source: source.into(), result: Ok(rows), incomplete: Vec::new() }
}

fn local_ts(day: i32, h: i64, m: i64) -> i64 {
    let date = chrono::NaiveDate::from_num_days_from_ce_opt(day).unwrap();
    chrono::Local.from_local_datetime(&date.and_hms_opt(0, 0, 0).unwrap()).earliest().unwrap().timestamp() + h * 3600 + m * 60
}

fn calendar_event(uid: &str, day: i32, h: i64, m: i64) -> CalendarRow {
    CalendarRow {
        uid: uid.into(),
        dtstart: local_ts(day, h, m),
        dtend: None,
        summary: format!("Event {uid}"),
        event_url: None,
    }
}

#[test]
fn collect_with_no_wanted_days_does_nothing() {
    let c = collect_outcomes(&Vec::new(), Vec::new());
    assert!(c.rows.is_empty());
    assert!(c.errors.is_empty());
    assert!(c.incomplete.is_empty());
}

#[test]
fn collect_with_no_sources_configured_yields_an_empty_bucket_per_wanted_day() {
    let wanted = vec![d("2024-03-05"), d("2024-03-07")];
    let c = collect_outcomes(&wanted, SOURCES.iter().map(|s| ok(s, Vec::new())).collect());
    assert!(c.errors.is_empty());
    for day in &wanted {
        assert!(events_on_day(&c.rows, *day).is_empty());
    }
}

#[test]
fn collect_reports_a_failing_source_and_keeps_the_others() {
    let day = d("2024-03-05");
    let mut outcomes = vec![SourceOutcome {
        source: "Git".into(),
        result: Err("Git scan path is not a directory: /missing".into()),
        incomplete: Vec::new(),
    }];
    outcomes.extend(SOURCES[1..].iter().map(|s| ok(s, Vec::new())));
    let c = collect_outcomes(&vec![day], outcomes);
    assert_eq!(c.errors.len(), 1);
    assert_eq!(c.errors[0].source, "Git");
    assert_eq!(c.errors[0].error, "Git scan path is not a directory: /missing");
    assert!(events_on_day(&c.rows, day).is_empty());
}

#[test]
fn collect_buckets_calendar_events_by_local_day_and_drops_unwanted_days() {
    let occurrences = vec![
        calendar_event("a", d("2024-03-05"), 10, 0),
        calendar_event("b", d("2024-03-06"), 11, 0),
        calendar_event("c", d("2024-03-07"), 12, 0),
        calendar_event("d", d("2024-03-08"), 9, 0),
    ];
    let wanted = vec![d("2024-03-05"), d("2024-03-07")];
    let rows = calendar_rows(&occurrences, d("2024-03-05"), d("2024-03-07"));
    let c = collect_outcomes(&wanted, vec![ok("Calendar", rows)]);
    assert!(c.errors.is_empty());
    let ids = |day: &str| -> Vec<String> { events_on_day(&c.rows, d(day)).iter().map(|e| e.id.clone()).collect() };
    assert_eq!(ids("2024-03-05"), vec!["calendar:a"]);
    assert_eq!(ids("2024-03-07"), vec!["calendar:c"]);
    assert!(c.rows.iter().all(|r| r.0 != d("2024-03-06")));
    let first = &events_on_day(&c.rows, d("2024-03-05"))[0];
    assert_eq!(first.timestamp, local_ts(d("2024-03-05"), 10, 0));
    assert!(matches!(first.source, TimelineEventSource::Calendar));
}

#[test]
fn disabled_sources_return_empty_even_with_credentials() {
    assert_eq!(github_user(false, "octocat", "ghp_x", true), Ok(None));
    assert_eq!(jira_credentials(false, "https://x.atlassian.net", "a@b.c", "t"), None);
    assert_eq!(zulip_credentials(false, "https://x.zulipchat.com", "a@b.c", "k"), None);
}

#[test]
fn enabled_sources_with_incomplete_credentials_return_empty() {
    assert_eq!(github_user(true, "octocat", "", true), Ok(None));
    assert_eq!(github_user(true, "octocat", "ghp_x", false), Ok(None));
    assert_eq!(jira_credentials(true, "https://x.atlassian.net", "  ", "t"), None);
    assert_eq!(jira_credentials(true, "", "a@b.c", "t"), None);
    assert_eq!(zulip_credentials(true, "https://x.zulipchat.com", "a@b.c", ""), None);
    assert_eq!(
        jira_credentials(true, " https://x.atlassian.net/ ", " a@b.c ", " t "),
        Some(("https://x.atlassian.net".to_string(), "a@b.c".to_string(), "t".to_string()))
    );
    assert_eq!(github_user(true, " octocat ", "ghp_x", true), Ok(Some("octocat".to_string())));
    assert!(github_user(true, "a:b", "ghp_x", true).is_err());
}

#[test]
fn export_covers_every_day_in_order_including_empty_ones() {
    let (s, e) = export_bounds("2020-02-27", "2020-03-02").unwrap();
    let c = collect_outcomes(&days_in_range(s, e), SOURCES.iter().map(|x| ok(x, Vec::new())).collect());
    assert!(c.errors.is_empty());
    let days = days_in_range(s, e);
    assert_eq!(
        days.iter().map(|x| iso(*x)).collect::<Vec<_>>(),
        vec!["2020-02-27", "2020-02-28", "2020-02-29", "2020-03-01", "2020-03-02"]
    );
    assert!(days.iter().all(|x| events_on_day(&c.rows, *x).is_empty()));
    let result = assemble_export(&days, vec![None; days.len()], &c).unwrap();
    assert!(result.errors.is_empty());
    assert_eq!(
        result.days.iter().map(|x| x.date.as_str()).collect::<Vec<_>>(),
        vec!["2020-02-27", "2020-02-28", "2020-02-29", "2020-03-01", "2020-03-02"]
    );
    assert!(result.days.iter().all(|x| x.events.is_empty()));
}

#[test]
fn export_returns_cached_events_verbatim_for_elapsed_days() {
    let day = d("2020-05-05");
    let late = TimelineEvent { source: TimelineEventSource::Git, ..ev("git:/r:late", local_ts(day, 16, 0)) };
    let early = TimelineEvent { source: TimelineEventSource::Jira, ..ev("jira:X-1:2020-05-05:Commented", local_ts(day, 9, 0)) };
    let days = days_in_range(d("2020-05-04"), d("2020-05-06"));
    let c = collect_outcomes(&vec![d("2020-05-04"), d("2020-05-06")], Vec::new());
    let cached = vec![None, Some(vec![late.clone(), early.clone()]), None];
    let result = assemble_export(&days, cached, &c).unwrap();
    assert!(result.errors.is_empty());
    assert_eq!(result.days.len(), 3);
    assert!(result.days[0].events.is_empty());
    assert_eq!(
        result.days[1].events.iter().map(|e| e.id.as_str()).collect::<Vec<_>>(),
        vec![late.id.as_str(), early.id.as_str()]
    );
    assert!(result.days[2].events.is_empty());
}

#[test]
fn export_caches_elapsed_days_but_never_today_or_the_future() {
    let today = d("2024-03-10");
    let c = collect_outcomes(&days_in_range(today - 2, today + 1), Vec::new());
    assert!(cacheable(today - 2, today, &c));
    assert!(cacheable(today - 1, today, &c));
    assert!(!cacheable(today, today, &c));
    assert!(!cacheable(today + 1, today, &c));
}

#[test]
fn export_reports_source_errors_and_does_not_cache_partial_days() {
    let wanted = vec![d("2020-05-05"), d("2020-05-06")];
    let c = collect_outcomes(
        &wanted,
        vec![SourceOutcome { source: "Git".into(), result: Err("boom".into()), incomplete: Vec::new() }],
    );
    assert_eq!(c.errors.len(), 1);
    assert_eq!(c.errors[0].source, "Git");
    assert!(!c.errors[0].error.is_empty());
    let today = d("2024-01-01");
    assert!(wanted.iter().all(|day| !cacheable(*day, today, &c)));
}

#[test]
fn export_merges_live_calendar_events_sorted_and_caches_them() {
    let (a, b) = (d("2020-05-05"), d("2020-05-06"));
    let occurrences =
        vec![calendar_event("pm", a, 14, 0), calendar_event("am", a, 9, 0), calendar_event("next", b, 10, 0)];
    let wanted = days_in_range(a, b);
    let c = collect_outcomes(&wanted, vec![ok("Calendar", calendar_rows(&occurrences, a, b))]);
    assert!(c.errors.is_empty());
    let first = events_on_day(&c.rows, a);
    assert_eq!(first.iter().map(|e| e.id.as_str()).collect::<Vec<_>>(), vec!["calendar:am", "calendar:pm"]);
    assert_eq!(first[0].time, "09:00");
    assert_eq!(events_on_day(&c.rows, b).len(), 1);
    assert!(cacheable(a, d("2024-01-01"), &c) && cacheable(b, d("2024-01-01"), &c));
}

#[test]
fn incomplete_days_are_not_cached() {
    let day = d("2020-05-05");
    let c = collect_outcomes(
        &vec![day],
        vec![SourceOutcome { source: "GitHub".into(), result: Ok(Vec::new()), incomplete: vec![day] }],
    );
    assert!(c.errors.is_empty());
    assert_eq!(c.incomplete, vec![day]);
    assert!(!cacheable(day, d("2024-01-01"), &c));
}

#[test]
fn events_for_day_rejects_a_malformed_date() {
    let err = parse_day_arg("Invalid date", "05/03/2024").unwrap_err();
    assert!(err.contains("Invalid date"), "{err}");
}

#[test]
fn month_window_stops_at_yesterday() {
    let today = d("2024-03-10");
    assert_eq!(month_window(2024, 3, today), Ok(Some((d("2024-03-01"), d("2024-03-09")))));
    assert_eq!(month_window(2024, 2, today), Ok(Some((d("2024-02-01"), d("2024-02-29")))));
    assert_eq!(month_window(2024, 4, today), Ok(None));
    assert_eq!(month_window(2024, 13, today).unwrap_err(), "Invalid year/month: 2024-13");
}
