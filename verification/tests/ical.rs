use chrono::{Datelike, TimeZone};
use recall::ical::{
    calendar_rows, duration_detail, ical_feed_problem, ical_status_error, normalized_email,
    parse_and_expand, parse_ics_datetime, sync_window, CalendarRow,
};
use recall::range::events_on_day;
use recall::timeline::TimelineEventSource;

/// chrono's day number of a civil date, as the library counts days.
fn ymd_day(y: i32, m: u32, d: u32) -> Option<i32> {
    chrono::NaiveDate::from_ymd_opt(y, m, d).map(|x| x.num_days_from_ce())
}

/// The unix second of local midnight starting `day`.
fn local_midnight(day: i32) -> Option<i64> {
    let date = chrono::NaiveDate::from_num_days_from_ce_opt(day)?;
    chrono::Local.from_local_datetime(&date.and_hms_opt(0, 0, 0)?).earliest().map(|t| t.timestamp())
}

/// A Tuesday with no DST transition anywhere nearby.
fn day() -> i32 {
    ymd_day(2024, 3, 5).unwrap()
}

fn local_ts(day: i32, h: i64, m: i64) -> i64 {
    local_midnight(day).unwrap() + h * 3600 + m * 60
}

fn row(uid: &str, dtstart: i64, dtend: Option<i64>, summary: &str, url: Option<&str>) -> CalendarRow {
    CalendarRow {
        uid: uid.into(),
        dtstart,
        dtend,
        summary: summary.into(),
        event_url: url.map(String::from),
    }
}

fn window() -> (i32, i32) {
    (ymd_day(2024, 1, 1).unwrap(), ymd_day(2024, 1, 31).unwrap())
}

#[test]
fn parse_datetime_utc_z_suffix() {
    let dt = parse_ics_datetime("20240115T100000Z").expect("Should parse UTC datetime");
    assert_eq!(dt, 1705312800);
}

#[test]
fn parse_datetime_local_no_suffix() {
    assert!(parse_ics_datetime("20240115T143000").is_some());
}

#[test]
fn parse_datetime_invalid_returns_none() {
    assert!(parse_ics_datetime("not-a-datetime").is_none());
    assert!(parse_ics_datetime("").is_none());
}

#[test]
fn simple_event_appears_with_correct_duration() {
    let ics = "BEGIN:VCALENDAR\r\nVERSION:2.0\r\nPRODID:-//Test//EN\r\n\
               BEGIN:VEVENT\r\nUID:simple@test\r\nSUMMARY:Team Standup\r\n\
               DTSTART:20240115T100000Z\r\nDTEND:20240115T103000Z\r\n\
               END:VEVENT\r\nEND:VCALENDAR\r\n";
    let (ws, we) = window();
    let events = parse_and_expand(ics, ws, we, &None);
    assert_eq!(events.len(), 1);
    assert_eq!(events[0].summary, "Team Standup");
    assert_eq!(events[0].uid, "simple@test");
    assert!(!events[0].declined);
    assert_eq!(events[0].dtend.unwrap() - events[0].dtstart, 1800);
}

#[test]
fn all_day_event_is_excluded() {
    let ics = "BEGIN:VCALENDAR\r\nVERSION:2.0\r\nPRODID:-//Test//EN\r\n\
               BEGIN:VEVENT\r\nUID:allday@test\r\nSUMMARY:Holiday\r\n\
               DTSTART;VALUE=DATE:20240115\r\nDTEND;VALUE=DATE:20240116\r\n\
               END:VEVENT\r\nEND:VCALENDAR\r\n";
    let (ws, we) = window();
    let events = parse_and_expand(ics, ws, we, &None);
    assert!(events.is_empty(), "All-day events must be excluded");
}

#[test]
fn declined_attendee_event_is_marked_declined() {
    let ics = "BEGIN:VCALENDAR\r\nVERSION:2.0\r\nPRODID:-//Test//EN\r\n\
               BEGIN:VEVENT\r\nUID:declined@test\r\nSUMMARY:Party\r\n\
               DTSTART:20240115T180000Z\r\nDTEND:20240115T200000Z\r\n\
               ATTENDEE;PARTSTAT=DECLINED:mailto:user@example.com\r\n\
               END:VEVENT\r\nEND:VCALENDAR\r\n";
    let (ws, we) = window();
    let email = Some("user@example.com".to_string());
    let events = parse_and_expand(ics, ws, we, &email);
    assert_eq!(events.len(), 1);
    assert!(events[0].declined, "Event should be marked declined");
}

#[test]
fn accepted_attendee_event_is_not_declined() {
    let ics = "BEGIN:VCALENDAR\r\nVERSION:2.0\r\nPRODID:-//Test//EN\r\n\
               BEGIN:VEVENT\r\nUID:accepted@test\r\nSUMMARY:Meeting\r\n\
               DTSTART:20240115T100000Z\r\nDTEND:20240115T110000Z\r\n\
               ATTENDEE;PARTSTAT=ACCEPTED:mailto:user@example.com\r\n\
               END:VEVENT\r\nEND:VCALENDAR\r\n";
    let (ws, we) = window();
    let email = Some("user@example.com".to_string());
    let events = parse_and_expand(ics, ws, we, &email);
    assert_eq!(events.len(), 1);
    assert!(!events[0].declined);
}

#[test]
fn recurring_weekly_event_expands_all_occurrences() {
    let ics = "BEGIN:VCALENDAR\r\nVERSION:2.0\r\nPRODID:-//Test//EN\r\n\
               BEGIN:VEVENT\r\nUID:weekly@test\r\nSUMMARY:Weekly Sync\r\n\
               DTSTART:20240101T140000Z\r\nDTEND:20240101T150000Z\r\n\
               RRULE:FREQ=WEEKLY;COUNT=4\r\n\
               END:VEVENT\r\nEND:VCALENDAR\r\n";
    let (ws, we) = window();
    let events = parse_and_expand(ics, ws, we, &None);
    assert_eq!(events.len(), 4, "Should expand to 4 weekly occurrences");
    assert!(events.iter().all(|e| e.summary == "Weekly Sync"));
}

#[test]
fn exdate_excludes_one_occurrence() {
    let ics = "BEGIN:VCALENDAR\r\nVERSION:2.0\r\nPRODID:-//Test//EN\r\n\
               BEGIN:VEVENT\r\nUID:exc@test\r\nSUMMARY:Weekly with Gap\r\n\
               DTSTART:20240101T100000Z\r\nDTEND:20240101T110000Z\r\n\
               RRULE:FREQ=WEEKLY;COUNT=3\r\nEXDATE:20240108T100000Z\r\n\
               END:VEVENT\r\nEND:VCALENDAR\r\n";
    let (ws, we) = window();
    let events = parse_and_expand(ics, ws, we, &None);
    assert_eq!(events.len(), 2, "EXDATE should remove one occurrence");
}

#[test]
fn event_outside_window_is_excluded() {
    let ics = "BEGIN:VCALENDAR\r\nVERSION:2.0\r\nPRODID:-//Test//EN\r\n\
               BEGIN:VEVENT\r\nUID:outside@test\r\nSUMMARY:March Event\r\n\
               DTSTART:20240301T100000Z\r\nDTEND:20240301T110000Z\r\n\
               END:VEVENT\r\nEND:VCALENDAR\r\n";
    let (ws, we) = window();
    let events = parse_and_expand(ics, ws, we, &None);
    assert!(events.is_empty(), "Event outside window should be excluded");
}

#[test]
fn event_url_is_preserved() {
    let ics = "BEGIN:VCALENDAR\r\nVERSION:2.0\r\nPRODID:-//Test//EN\r\n\
               BEGIN:VEVENT\r\nUID:url@test\r\nSUMMARY:Meeting\r\n\
               DTSTART:20240115T100000Z\r\nDTEND:20240115T110000Z\r\n\
               URL:https://meet.example.com/room123\r\n\
               END:VEVENT\r\nEND:VCALENDAR\r\n";
    let (ws, we) = window();
    let events = parse_and_expand(ics, ws, we, &None);
    assert_eq!(events.len(), 1);
    assert_eq!(events[0].event_url.as_deref(), Some("https://meet.example.com/room123"));
}

#[test]
fn an_overridden_occurrence_is_replaced_by_its_exception() {
    let ics = "BEGIN:VCALENDAR\r\nVERSION:2.0\r\n\
               BEGIN:VEVENT\r\nUID:s@test\r\nSUMMARY:Series\r\n\
               DTSTART:20240101T100000Z\r\nDTEND:20240101T110000Z\r\n\
               RRULE:FREQ=WEEKLY;COUNT=2\r\n\
               END:VEVENT\r\n\
               BEGIN:VEVENT\r\nUID:s@test\r\nSUMMARY:Moved\r\n\
               RECURRENCE-ID:20240108T100000Z\r\n\
               DTSTART:20240109T100000Z\r\nDTEND:20240109T110000Z\r\n\
               END:VEVENT\r\nEND:VCALENDAR\r\n";
    let (ws, we) = window();
    let events = parse_and_expand(ics, ws, we, &None);
    let mut summaries: Vec<&str> = events.iter().map(|e| e.summary.as_str()).collect();
    summaries.sort();
    assert_eq!(summaries, vec!["Moved", "Series"]);
}

#[test]
fn an_event_maps_to_one_timeline_row() {
    let start = local_ts(day(), 10, 0);
    let rows = calendar_rows(
        &vec![row("u1", start, Some(start + 30 * 60), "Standup", Some("https://calendar.example/event/1"))],
        day(),
        day(),
    );
    assert_eq!(rows.len(), 1);
    let (d, ts, ev) = &rows[0];
    assert_eq!(*d, day());
    assert_eq!(*ts, start);
    assert_eq!(ev.id, "calendar:u1");
    assert_eq!(ev.time, "10:00");
    assert_eq!(ev.timestamp, start);
    assert!(matches!(ev.source, TimelineEventSource::Calendar));
    assert_eq!(ev.title, "Standup");
    assert_eq!(ev.detail.as_deref(), Some("30m"));
    assert_eq!(ev.url.as_deref(), Some("https://calendar.example/event/1"));
}

#[test]
fn duration_detail_formats() {
    let base = local_ts(day(), 8, 0);
    let rows = calendar_rows(
        &vec![
            row("h1", base, Some(base + 3600), "1h", None),
            row("h1m30", base + 1, Some(base + 1 + 90 * 60), "1h 30m", None),
            row("m45", base + 2, Some(base + 2 + 45 * 60), "45m", None),
            row("noend", base + 3, None, "no end", None),
            row("zero", base + 4, Some(base + 4), "zero length", None),
            row("neg", base + 5, Some(base), "ends before start", None),
        ],
        day(),
        day(),
    );
    let by_title: std::collections::HashMap<_, _> =
        rows.iter().map(|(_, _, ev)| (ev.title.as_str(), ev.detail.clone())).collect();
    assert_eq!(by_title["1h"].as_deref(), Some("1h"));
    assert_eq!(by_title["1h 30m"].as_deref(), Some("1h 30m"));
    assert_eq!(by_title["45m"].as_deref(), Some("45m"));
    assert_eq!(by_title["no end"], None);
    assert_eq!(by_title["zero length"], None);
    assert_eq!(by_title["ends before start"], None);
    assert_eq!(duration_detail(0, Some(59)), None);
    assert_eq!(duration_detail(0, Some(7200)).as_deref(), Some("2h"));
}

#[test]
fn non_http_event_urls_are_dropped() {
    let rows = calendar_rows(
        &vec![
            row("js", local_ts(day(), 9, 0), None, "js", Some("javascript:alert(1)")),
            row("ok", local_ts(day(), 10, 0), None, "ok", Some("HTTPS://ok.example/e")),
        ],
        day(),
        day(),
    );
    assert_eq!(rows[0].2.url, None);
    assert_eq!(rows[1].2.url.as_deref(), Some("HTTPS://ok.example/e"));
}

#[test]
fn an_overnight_event_appears_on_both_days() {
    let next = day() + 1;
    let start = local_ts(day(), 18, 0);
    let rows = calendar_rows(&vec![row("oncall", start, Some(local_ts(next, 9, 0)), "On-call", None)], day(), next);
    assert_eq!(rows.len(), 2);
    assert_eq!((rows[0].0, rows[0].2.time.as_str()), (day(), "18:00"));
    assert_eq!((rows[1].0, rows[1].2.time.as_str()), (next, "00:00"));
    assert_eq!(rows[0].1, start);
    assert_eq!(rows[1].1, start);
    assert_eq!(rows[1].2.timestamp, start);
    assert_eq!(rows[1].2.detail.as_deref(), Some("15h"));
}

#[test]
fn an_overnight_event_is_found_when_the_range_starts_on_its_second_day() {
    let next = day() + 1;
    let rows = calendar_rows(
        &vec![row("oncall", local_ts(day(), 18, 0), Some(local_ts(next, 9, 0)), "On-call", None)],
        next,
        next,
    );
    assert_eq!(rows.len(), 1);
    assert_eq!(rows[0].0, next);
    assert_eq!(rows[0].2.time, "00:00");
}

#[test]
fn an_event_ending_exactly_at_midnight_does_not_spill_into_the_next_day() {
    let next = day() + 1;
    let late = vec![row("late", local_ts(day(), 22, 0), Some(local_ts(next, 0, 0)), "Late", None)];
    let rows = calendar_rows(&late, day(), next);
    assert_eq!(rows.len(), 1);
    assert_eq!(rows[0].0, day());
    assert!(calendar_rows(&late, next, next).is_empty());
}

#[test]
fn events_outside_the_range_are_excluded() {
    let before = day() - 1;
    let after = day() + 2;
    let rows = calendar_rows(
        &vec![
            row("b", local_ts(before, 23, 59), Some(local_ts(before, 23, 59) + 30), "before", None),
            row("a", local_ts(after, 0, 0), None, "after", None),
            row("in", local_ts(day(), 0, 0), None, "midnight start counts", None),
        ],
        day(),
        day(),
    );
    assert_eq!(
        rows.iter().map(|(_, _, e)| e.title.as_str()).collect::<Vec<_>>(),
        vec!["midnight start counts"]
    );
}

#[test]
fn results_are_sorted_by_start_time_regardless_of_insert_order() {
    let rows = calendar_rows(
        &vec![
            row("pm", local_ts(day(), 14, 0), None, "pm", None),
            row("am", local_ts(day(), 9, 0), None, "am", None),
            row("noon", local_ts(day(), 12, 0), None, "noon", None),
        ],
        day(),
        day(),
    );
    assert_eq!(
        rows.iter().map(|(_, _, e)| e.time.as_str()).collect::<Vec<_>>(),
        vec!["09:00", "12:00", "14:00"]
    );
}

#[test]
fn events_for_day_returns_only_that_day() {
    let next = day() + 1;
    let occurrences = vec![
        row("oncall", local_ts(day(), 18, 0), Some(local_ts(next, 9, 0)), "On-call", None),
        row("later", local_ts(next, 11, 0), None, "Later", None),
    ];
    let first = events_on_day(&calendar_rows(&occurrences, day(), day()), day());
    assert_eq!(first.iter().map(|e| e.time.as_str()).collect::<Vec<_>>(), vec!["18:00"]);
    let second = events_on_day(&calendar_rows(&occurrences, next, next), next);
    assert_eq!(second.iter().map(|e| e.title.as_str()).collect::<Vec<_>>(), vec!["On-call", "Later"]);
    assert_eq!(second[0].time, "00:00");
}

#[test]
fn feed_checks_and_windows() {
    assert_eq!(ical_feed_problem("u", "BEGIN:VCALENDAR\r\nEND:VCALENDAR"), None);
    assert_eq!(
        ical_feed_problem("https://x", "<html>").as_deref(),
        Some("URL did not return an iCal feed (missing BEGIN:VCALENDAR): https://x")
    );
    assert_eq!(ical_status_error(404, "https://x"), "iCal URL returned HTTP 404: https://x");
    assert_eq!(sync_window(10000), (10000 - 1095, 10000 + 365));
    assert_eq!(normalized_email(&Some("  Me@X.com ".into())).as_deref(), Some("me@x.com"));
    assert_eq!(normalized_email(&Some("   ".into())), None);
    assert_eq!(normalized_email(&None), None);
}
