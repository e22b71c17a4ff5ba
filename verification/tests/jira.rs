use base64::{engine::general_purpose::STANDARD, Engine as _};
use chrono::Datelike;
use recall::jira::{
    changelog_page_step, search_page_step, ChangelogStep, SearchStep,
    inline_changelog_is_complete, jira_basic_auth, jira_timestamp_to_rfc3339,
    jql_quoted_identifier, local_day_and_ts, normalize_site_url, parse_jira_updated,
    search_request_body, user_actions, ActionOnDay, ChangeItem, ChangelogEntry, InlineChangelog,
    JiraAccountUser, JiraAction, JiraComment, JiraCommentBlock, JiraFields, SEARCH_PAGE_SIZE,
};

/// chrono's day number of a civil date, as the library counts days.
fn ymd_day(y: i32, m: u32, d: u32) -> Option<i32> {
    chrono::NaiveDate::from_ymd_opt(y, m, d).map(|x| x.num_days_from_ce())
}

#[test]
fn jira_timestamp_to_rfc3339_converts_offset() {
    assert_eq!(
        jira_timestamp_to_rfc3339("2024-01-15T10:30:00.000+0100"),
        "2024-01-15T10:30:00.000+01:00"
    );
    assert_eq!(
        jira_timestamp_to_rfc3339("2024-01-15T10:30:00.000-0530"),
        "2024-01-15T10:30:00.000-05:30"
    );
}

#[test]
fn jira_timestamp_to_rfc3339_leaves_rfc3339_alone() {
    let s = "2024-01-15T10:30:00+01:00";
    assert_eq!(jira_timestamp_to_rfc3339(s), s);
}

#[test]
fn parse_jira_updated_valid_rfc3339() {
    assert!(parse_jira_updated("2024-01-15T10:30:00+00:00").is_some());
}

#[test]
fn parse_jira_updated_jira_offset_format() {
    assert!(parse_jira_updated("2024-01-15T10:30:00.000+0100").is_some());
}

#[test]
fn parse_jira_updated_invalid() {
    assert!(parse_jira_updated("not-a-date").is_none());
}

#[test]
fn parse_jira_updated_reads_the_offset() {
    assert_eq!(parse_jira_updated("2024-01-15T10:30:00.000+0100"), Some(1705311000));
}

#[test]
fn jql_quoted_identifier_plain() {
    assert_eq!(jql_quoted_identifier("abc123"), "\"abc123\"");
}

#[test]
fn jql_quoted_identifier_escapes_quotes() {
    assert_eq!(jql_quoted_identifier("a\"b"), "\"a\\\"b\"");
}

#[test]
fn jql_quoted_identifier_escapes_backslash() {
    assert_eq!(jql_quoted_identifier("a\\b"), "\"a\\\\b\"");
}

#[test]
fn normalize_site_url_strips_trailing_slash() {
    assert_eq!(
        normalize_site_url("https://example.atlassian.net/"),
        "https://example.atlassian.net"
    );
}

#[test]
fn normalize_site_url_unchanged_when_clean() {
    assert_eq!(
        normalize_site_url("https://example.atlassian.net"),
        "https://example.atlassian.net"
    );
}

#[test]
fn normalize_site_url_trims_and_strips_every_trailing_slash() {
    assert_eq!(normalize_site_url("  https://x.atlassian.net// "), "https://x.atlassian.net");
}

#[test]
fn jira_basic_auth_correct_base64() {
    let result = jira_basic_auth("user@example.com", "mytoken");
    let expected = format!("Basic {}", STANDARD.encode("user@example.com:mytoken"));
    assert_eq!(result, expected);
}

#[test]
fn search_request_body_omits_token_on_first_page() {
    let body = search_request_body("project = X", None);
    let v: serde_json::Value = serde_json::from_str(&body).unwrap();
    assert_eq!(v["jql"], "project = X");
    assert_eq!(v["maxResults"], SEARCH_PAGE_SIZE);
    assert_eq!(v["expand"], "changelog");
    assert!(v.get("nextPageToken").is_none(), "first page must not send a token: {body}");
}

#[test]
fn search_request_body_echoes_token_on_later_pages() {
    let body = search_request_body("project = X", Some("tok-2"));
    let v: serde_json::Value = serde_json::from_str(&body).unwrap();
    assert_eq!(v["nextPageToken"], "tok-2");
}

fn entry() -> ChangelogEntry {
    ChangelogEntry { author: None, created: None, items: vec![] }
}

#[test]
fn inline_changelog_complete_only_when_total_covered() {
    assert!(inline_changelog_is_complete(&InlineChangelog {
        histories: vec![entry(), entry()],
        total: Some(2),
    }));
    assert!(!inline_changelog_is_complete(&InlineChangelog {
        histories: vec![entry()],
        total: Some(2),
    }));
    assert!(!inline_changelog_is_complete(&InlineChangelog {
        histories: vec![entry()],
        total: None,
    }));
    assert!(inline_changelog_is_complete(&InlineChangelog {
        histories: vec![],
        total: Some(0),
    }));
}

#[test]
fn action_labels_are_stable_for_event_ids() {
    assert_eq!(JiraAction::Created.label(), "Created");
    assert_eq!(JiraAction::Commented.label(), "Commented");
    assert_eq!(JiraAction::Transitioned.label(), "Transitioned");
    assert_eq!(JiraAction::Edited.label(), "Edited");
}

// --- timestamp / action selection ---

const ME: &str = "user123";
const OTHER: &str = "someone-else";

fn day(d: u32) -> i32 {
    ymd_day(2024, 1, d).unwrap()
}

/// Midday UTC on 2024-01-{d} plus `h` hours: the same local date for every
/// offset within ±11h, so tests are independent of the machine's timezone.
fn at(d: u32, h: i64) -> String {
    format!("2024-01-{d:02}T{:02}:00:00.000+0000", 12 + h)
}

fn ts_of(s: &str) -> i64 {
    parse_jira_updated(s).unwrap()
}

fn user(id: &str) -> Option<JiraAccountUser> {
    Some(JiraAccountUser { account_id: Some(id.to_string()) })
}

fn fields(updated: &str) -> JiraFields {
    JiraFields {
        summary: "Test issue".to_string(),
        updated: local_day_and_ts(updated),
        created: None,
        creator: None,
        comment: None,
    }
}

fn comment(author: &str, created: &str) -> JiraComment {
    JiraComment { author: user(author), created: local_day_and_ts(created) }
}

fn history(author: &str, created: &str, field_ids: &[&str]) -> ChangelogEntry {
    ChangelogEntry {
        author: user(author),
        created: local_day_and_ts(created),
        items: field_ids
            .iter()
            .map(|f| ChangeItem { field: None, field_id: Some(f.to_string()) })
            .collect(),
    }
}

#[test]
fn user_actions_uses_own_comment_time_not_issue_updated() {
    // I commented at 12:00; a colleague edited at 16:00 (fields.updated).
    let mut f = fields(&at(15, 4));
    f.comment = Some(JiraCommentBlock { comments: vec![comment(ME, &at(15, 0))] });
    let actions = user_actions(ME, day(15), day(15), &f, &[]);
    assert_eq!(
        actions,
        vec![ActionOnDay { day: day(15), action: JiraAction::Commented, first_ts: ts_of(&at(15, 0)), count: 1 }]
    );
}

#[test]
fn user_actions_ignores_other_peoples_comments_and_changes() {
    let mut f = fields(&at(15, 4));
    f.comment = Some(JiraCommentBlock { comments: vec![comment(OTHER, &at(15, 0))] });
    let changelog = vec![history(OTHER, &at(15, 1), &["status"])];
    let actions = user_actions(ME, day(15), day(15), &f, &changelog);
    // Nothing authored by me → fallback to `updated` as Edited.
    assert_eq!(
        actions,
        vec![ActionOnDay { day: day(15), action: JiraAction::Edited, first_ts: ts_of(&at(15, 4)), count: 1 }]
    );
}

#[test]
fn user_actions_transition_from_changelog_status_item() {
    let f = fields(&at(15, 4));
    let changelog = vec![history(ME, &at(15, 1), &["assignee", "status"])];
    let actions = user_actions(ME, day(15), day(15), &f, &changelog);
    assert_eq!(actions.len(), 1);
    assert_eq!(actions[0].action, JiraAction::Transitioned);
    assert_eq!(actions[0].first_ts, ts_of(&at(15, 1)));
}

#[test]
fn user_actions_status_matched_by_field_name_too() {
    let f = fields(&at(15, 4));
    let changelog = vec![ChangelogEntry {
        author: user(ME),
        created: local_day_and_ts(&at(15, 1)),
        items: vec![ChangeItem { field: Some("Status".to_string()), field_id: None }],
    }];
    let actions = user_actions(ME, day(15), day(15), &f, &changelog);
    assert_eq!(actions[0].action, JiraAction::Transitioned);
}

#[test]
fn user_actions_field_edit_from_changelog() {
    let f = fields(&at(15, 4));
    let changelog = vec![history(ME, &at(15, 2), &["description"])];
    let actions = user_actions(ME, day(15), day(15), &f, &changelog);
    assert_eq!(
        actions,
        vec![ActionOnDay { day: day(15), action: JiraAction::Edited, first_ts: ts_of(&at(15, 2)), count: 1 }]
    );
}

#[test]
fn user_actions_one_event_per_distinct_action_with_earliest_time_and_count() {
    let mut f = fields(&at(15, 5));
    f.comment = Some(JiraCommentBlock {
        comments: vec![comment(ME, &at(15, 3)), comment(ME, &at(15, 0)), comment(ME, &at(15, 1))],
    });
    let changelog = vec![
        history(ME, &at(15, 2), &["status"]),
        history(ME, &at(15, 4), &["status"]),
        history(ME, &at(15, -1), &["priority"]),
    ];
    let actions = user_actions(ME, day(15), day(15), &f, &changelog);
    assert_eq!(
        actions,
        vec![
            ActionOnDay { day: day(15), action: JiraAction::Edited, first_ts: ts_of(&at(15, -1)), count: 1 },
            ActionOnDay { day: day(15), action: JiraAction::Commented, first_ts: ts_of(&at(15, 0)), count: 3 },
            ActionOnDay { day: day(15), action: JiraAction::Transitioned, first_ts: ts_of(&at(15, 2)), count: 2 },
        ]
    );
}

#[test]
fn user_actions_splits_by_day_and_filters_outside_range() {
    let mut f = fields(&at(20, 0));
    f.comment = Some(JiraCommentBlock {
        comments: vec![comment(ME, &at(14, 0)), comment(ME, &at(15, 0)), comment(ME, &at(16, 0)), comment(ME, &at(19, 0))],
    });
    let actions = user_actions(ME, day(15), day(16), &f, &[]);
    let days: Vec<i32> = actions.iter().map(|a| a.day).collect();
    assert_eq!(days, vec![day(15), day(16)]);
    assert!(actions.iter().all(|a| a.action == JiraAction::Commented && a.count == 1));
}

#[test]
fn user_actions_created_by_me() {
    let mut f = fields(&at(15, 4));
    f.created = local_day_and_ts(&at(15, 0));
    f.creator = user(ME);
    let actions = user_actions(ME, day(15), day(15), &f, &[]);
    assert_eq!(actions.len(), 1);
    assert_eq!(actions[0].action, JiraAction::Created);
    assert_eq!(actions[0].first_ts, ts_of(&at(15, 0)));
}

#[test]
fn user_actions_created_by_other_is_not_mine() {
    let mut f = fields(&at(15, 4));
    f.created = local_day_and_ts(&at(15, 0));
    f.creator = user(OTHER);
    let actions = user_actions(ME, day(15), day(15), &f, &[]);
    assert_eq!(actions[0].action, JiraAction::Edited);
    assert_eq!(actions[0].first_ts, ts_of(&at(15, 4)));
}

#[test]
fn user_actions_no_fallback_when_own_action_found_on_other_in_range_day() {
    // Commented on the 15th; colleague's edit moved `updated` to the 16th.
    // Only my comment must be emitted — not a phantom "Edited" on the 16th.
    let mut f = fields(&at(16, 0));
    f.comment = Some(JiraCommentBlock { comments: vec![comment(ME, &at(15, 0))] });
    let actions = user_actions(ME, day(15), day(16), &f, &[]);
    assert_eq!(actions.len(), 1);
    assert_eq!(actions[0].day, day(15));
    assert_eq!(actions[0].action, JiraAction::Commented);
}

#[test]
fn user_actions_fallback_skipped_when_updated_out_of_range() {
    let f = fields(&at(20, 0));
    assert!(user_actions(ME, day(15), day(15), &f, &[]).is_empty());
}

#[test]
fn user_actions_skips_unparseable_timestamps() {
    let mut f = fields(&at(15, 4));
    f.comment = Some(JiraCommentBlock { comments: vec![comment(ME, "garbage")] });
    let changelog = vec![history(ME, "also garbage", &["status"])];
    let actions = user_actions(ME, day(15), day(15), &f, &changelog);
    assert_eq!(actions[0].action, JiraAction::Edited);
}

/// One search page as the walk sees it: issue keys, `nextPageToken`, `isLast`.
type SearchPage = (Vec<&'static str>, Option<&'static str>, Option<bool>);

/// Walks search pages the way the app does, deciding with `search_page_step`.
fn walk_search_pages(
    max_pages: usize,
    mut fetch_page: impl FnMut(Option<&str>) -> Result<SearchPage, String>,
) -> Result<Vec<String>, String> {
    let mut keys: Vec<String> = Vec::new();
    let mut token: Option<String> = None;
    let mut page = 1;
    loop {
        let (page_keys, next, is_last) = fetch_page(token.as_deref())?;
        let got = page_keys.len();
        keys.extend(page_keys.iter().map(|k| k.to_string()));
        match search_page_step(page, max_pages, &token, got, next.map(String::from), is_last) {
            SearchStep::Done => return Ok(keys),
            SearchStep::RepeatedToken => {
                return Err("Jira search repeated the same nextPageToken; aborting to avoid looping".into())
            }
            SearchStep::Exceeded => {
                return Err(format!(
                    "Jira search exceeded {max_pages} pages ({} issues) for this range; narrow the range",
                    keys.len()
                ))
            }
            SearchStep::Next => token = next.map(String::from),
        }
        page += 1;
    }
}

/// Walks changelog pages the way the app does, deciding with
/// `changelog_page_step`; a page is `(entries, total, isLast)`.
fn walk_changelog_pages(
    max_pages: usize,
    mut fetch_page: impl FnMut(u64) -> Result<(u64, Option<u64>, Option<bool>), String>,
) -> Result<u64, String> {
    let mut entries = 0u64;
    let mut start_at = 0u64;
    let mut page = 1;
    loop {
        let (got, total, is_last) = fetch_page(start_at)?;
        entries += got;
        match changelog_page_step(page, max_pages, start_at, got, total, is_last) {
            ChangelogStep::Done => return Ok(entries),
            ChangelogStep::Exceeded => return Err(format!("Jira changelog exceeded {max_pages} pages ({entries} entries)")),
            ChangelogStep::Next(s) => start_at = s,
        }
        page += 1;
    }
}

#[test]
fn walk_search_pages_follows_tokens_until_null() {
    let mut seen: Vec<Option<String>> = Vec::new();
    let keys = walk_search_pages(10, |tok| {
        seen.push(tok.map(str::to_string));
        Ok(match tok {
            None => (vec!["A-1", "A-2"], Some("t1"), Some(false)),
            Some("t1") => (vec!["A-3"], Some("t2"), Some(false)),
            Some("t2") => (vec!["A-4"], None, Some(true)),
            other => panic!("unexpected token {other:?}"),
        })
    })
    .unwrap();
    assert_eq!(keys, ["A-1", "A-2", "A-3", "A-4"]);
    assert_eq!(seen, vec![None, Some("t1".to_string()), Some("t2".to_string())]);
}

#[test]
fn walk_search_pages_stops_when_token_absent_even_without_is_last() {
    let mut calls = 0;
    let keys = walk_search_pages(10, |_| {
        calls += 1;
        Ok((vec!["B-1"], None, None))
    })
    .unwrap();
    assert_eq!(keys.len(), 1);
    assert_eq!(calls, 1);
}

#[test]
fn walk_search_pages_honours_is_last_true_over_token() {
    let mut calls = 0;
    let keys = walk_search_pages(10, |_| {
        calls += 1;
        Ok((vec!["C-1"], Some("stale"), Some(true)))
    })
    .unwrap();
    assert_eq!(keys.len(), 1);
    assert_eq!(calls, 1);
}

#[test]
fn walk_search_pages_errs_when_cap_hit() {
    let tokens = ["t1", "t2", "t3", "t4"];
    let mut calls = 0;
    let res = walk_search_pages(3, |_| {
        calls += 1;
        Ok((vec!["D-1"], Some(tokens[calls - 1]), Some(false)))
    });
    let err = res.unwrap_err();
    assert!(err.contains("exceeded 3 pages"), "{err}");
    assert_eq!(calls, 3, "must not fetch past the cap");
}

#[test]
fn walk_search_pages_errs_on_repeated_token() {
    let res = walk_search_pages(10, |_| Ok((vec!["E-1"], Some("same"), Some(false))));
    let err = res.unwrap_err();
    assert!(err.contains("repeated"), "{err}");
}

#[test]
fn walk_search_pages_propagates_fetch_error() {
    let res = walk_search_pages(10, |tok| match tok {
        None => Ok((vec!["F-1"], Some("t1"), Some(false))),
        Some(_) => Err("HTTP 429".to_string()),
    });
    assert_eq!(res.unwrap_err(), "HTTP 429");
}

#[test]
fn walk_search_pages_treats_an_empty_token_or_page_as_the_end() {
    assert_eq!(walk_search_pages(10, |_| Ok((vec!["G-1"], Some(""), Some(false)))).unwrap().len(), 1);
    assert!(walk_search_pages(10, |_| Ok((vec![], Some("t"), Some(false)))).unwrap().is_empty());
}

#[test]
fn walk_changelog_pages_offsets_by_returned_count() {
    let mut offsets = Vec::new();
    let entries = walk_changelog_pages(10, |start_at| {
        offsets.push(start_at);
        Ok(match start_at {
            0 => (2, Some(5), Some(false)),
            2 => (2, Some(5), Some(false)),
            4 => (1, Some(5), Some(true)),
            other => panic!("unexpected startAt {other}"),
        })
    })
    .unwrap();
    assert_eq!(entries, 5);
    assert_eq!(offsets, vec![0, 2, 4]);
}

#[test]
fn walk_changelog_pages_stops_at_total_without_is_last() {
    let mut calls = 0;
    let entries = walk_changelog_pages(10, |_| {
        calls += 1;
        Ok((3, Some(3), None))
    })
    .unwrap();
    assert_eq!(entries, 3);
    assert_eq!(calls, 1);
}

#[test]
fn walk_changelog_pages_stops_on_empty_page() {
    let mut calls = 0;
    let entries = walk_changelog_pages(10, |_| {
        calls += 1;
        Ok((0, None, None))
    })
    .unwrap();
    assert_eq!(entries, 0);
    assert_eq!(calls, 1);
}

#[test]
fn walk_changelog_pages_errs_when_cap_hit() {
    let mut calls = 0;
    let res = walk_changelog_pages(2, |_| {
        calls += 1;
        Ok((1, Some(1000), Some(false)))
    });
    assert!(res.unwrap_err().contains("exceeded 2 pages"));
    assert_eq!(calls, 2);
}
