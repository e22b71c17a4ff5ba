use chrono::Datelike;
use recall::harvest::{
    clean_notes, entries_for_day, forget_identity, harvest_day_url, http_error, name_of, next_entries_page,
    remember_identity, reuse_identity,
    Identity, Named,
};
use recall::harvest_done::{marked_event_ids, row_uuid_for_event_id, HARVEST_DONE_NS};

/// chrono's day number of a civil date, as the library counts days.
fn ymd_day(y: i32, m: u32, d: u32) -> Option<i32> {
    chrono::NaiveDate::from_ymd_opt(y, m, d).map(|x| x.num_days_from_ce())
}

#[test]
fn harvest_day_url_builds_day_view() {
    let day = ymd_day(2026, 9, 3).unwrap();
    assert_eq!(
        harvest_day_url("https://acme.harvestapp.com/", day, 1234567),
        Some("https://acme.harvestapp.com/time/day/2026/09/03/1234567".into())
    );
}

#[test]
fn harvest_day_url_rejects_non_http_base() {
    let day = ymd_day(2026, 9, 3).unwrap();
    assert_eq!(harvest_day_url("javascript:alert(1)", day, 1), None);
    assert_eq!(harvest_day_url("", day, 1), None);
}

#[test]
fn http_error_uses_harvest_error_description() {
    let body = r#"{"error":"invalid_token","error_description":"The access token provided is expired, revoked, malformed or invalid for other reasons."}"#;
    let msg = http_error("users/me", 401, body);
    assert!(msg.contains("401"));
    assert!(msg.contains("expired, revoked"));
}

#[test]
fn http_error_without_body_hints_at_credentials() {
    let msg = http_error("users/me", 401, "");
    assert!(msg.contains("access token and account ID"));
    let msg = http_error("time_entries", 500, "");
    assert_eq!(msg, "Harvest time_entries: HTTP 500");
}

#[test]
fn row_uuid_is_deterministic_and_distinct_per_event_id() {
    assert_eq!(row_uuid_for_event_id("git:/r:abc"), row_uuid_for_event_id("git:/r:abc"));
    assert_ne!(row_uuid_for_event_id("git:/r:abc"), row_uuid_for_event_id("git:/r:abd"));
}

#[test]
fn row_uuid_is_a_version_5_uuid() {
    let parsed = uuid::Uuid::parse_str(&row_uuid_for_event_id("zulip:stream:x:2024-01-01")).unwrap();
    assert_eq!(parsed.get_version_num(), 5);
}

#[test]
fn row_uuid_is_stable_across_releases() {
    let ns = uuid::Uuid::parse_str("a312b8c4-d5e6-4789-b012-3456789abcde").unwrap();
    assert_eq!(
        row_uuid_for_event_id("git:/Users/me/code/recall:abc123"),
        uuid::Uuid::new_v5(&ns, b"git:/Users/me/code/recall:abc123").to_string()
    );
    assert_eq!(HARVEST_DONE_NS, ns.as_u128());
    assert_eq!(row_uuid_for_event_id("x"), uuid::Uuid::new_v5(&ns, b"x").to_string());
}

#[test]
fn marked_ids_come_back_in_input_order_and_only_those_asked_for() {
    let found = vec![
        row_uuid_for_event_id("b"),
        row_uuid_for_event_id("c"),
        row_uuid_for_event_id("z"),
    ];
    let ask = |ids: &[&str]| {
        marked_event_ids(&ids.iter().map(|s| s.to_string()).collect(), &found)
    };
    assert_eq!(ask(&["a", "b", "c", "d"]), vec!["b", "c"]);
    assert_eq!(ask(&["c", "a", "b"]), vec!["c", "b"]);
    assert_eq!(ask(&["a"]), Vec::<String>::new());
    assert_eq!(ask(&[]), Vec::<String>::new());
}

#[test]
fn an_identity_is_reused_only_for_the_same_credentials() {
    let cached = Some(Identity {
        token: "tok".into(),
        account_id: "42".into(),
        user_id: 7,
        base_uri: Some("https://acme.harvestapp.com".into()),
    });
    let hit = reuse_identity(&cached, "tok", "42").unwrap();
    assert_eq!(hit.user_id, 7);
    assert!(reuse_identity(&cached, "other", "42").is_none());
    assert!(reuse_identity(&cached, "tok", "43").is_none());
    assert!(reuse_identity(&None, "tok", "42").is_none());
}

fn named(name: &str) -> Option<Named> {
    Some(Named { name: Some(name.into()) })
}

#[test]
fn to_entry_maps_names_and_trims_notes() {
    assert_eq!(clean_notes(&Some("Adding CSS styling".into())).as_deref(), Some("Adding CSS styling"));
    assert_eq!(name_of(&named("Marketing Website")), "Marketing Website");
    assert_eq!(name_of(&named("ABC Corp")), "ABC Corp");
    assert_eq!(name_of(&named("Graphic Design")), "Graphic Design");
    assert_eq!(clean_notes(&None), None);
    assert_eq!(clean_notes(&Some("  padded  ".into())).as_deref(), Some("padded"));
}

#[test]
fn to_entry_blank_notes_become_none() {
    assert_eq!(clean_notes(&Some("   ".into())), None);
    assert_eq!(name_of(&None), "");
    assert_eq!(name_of(&Some(Named { name: None })), "");
}

#[test]
fn entries_of_the_day_are_ordered_by_id() {
    let entries = vec![
        (30, "2026-09-21".to_string()),
        (10, "2026-09-20".to_string()),
        (20, "2026-09-21".to_string()),
        (5, "2026-09-21".to_string()),
    ];
    assert_eq!(entries_for_day(&entries, "2026-09-21"), vec![3, 2, 0]);
}

#[test]
fn paging_follows_next_page_up_to_the_cap() {
    assert_eq!(next_entries_page(1, Some(2)), Some(2));
    assert_eq!(next_entries_page(1, None), None);
    assert_eq!(next_entries_page(2, Some(2)), None);
    assert_eq!(next_entries_page(10, Some(11)), None);
}

#[test]
fn a_remembered_identity_is_reused_until_forgotten() {
    let mut cache: Option<Identity> = None;
    remember_identity(
        &mut cache,
        Identity { token: "t".into(), account_id: "a".into(), user_id: 7, base_uri: Some("https://x.harvestapp.com".into()) },
    );
    let again = reuse_identity(&cache, "t", "a").expect("reused");
    assert_eq!(again.user_id, 7);
    assert!(reuse_identity(&cache, "t2", "a").is_none());
    forget_identity(&mut cache);
    assert!(reuse_identity(&cache, "t", "a").is_none());
}
