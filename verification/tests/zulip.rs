use chrono::{Datelike, NaiveDate};
use recall::timeline::TimelineEventSource;
use recall::zulip::{
    absorb_page, bucket_event, dm_conversation_key, group_messages, message_bucket_key,
    normalize_realm_url, sort_messages, walk_incomplete_days, PageStep, zulip_encode, zulip_rows, zulip_window, messages_url, DisplayRecipient, Recipient, ZulipMessage,
    ZulipScan, ZULIP_MAX_PAGES,
};

fn recipient(email: &str, name: &str) -> Recipient {
    Recipient { email: Some(email.into()), full_name: Some(name.into()) }
}

fn dm_msg(recipients: Vec<Recipient>) -> ZulipMessage {
    ZulipMessage {
        id: 1,
        timestamp: 0,
        msg_type: "private".to_string(),
        subject: None,
        display_recipient: DisplayRecipient::Users(recipients),
        stream_id: None,
    }
}

fn stream_msg(id: u64, timestamp: i64, stream: &str, topic: Option<&str>) -> ZulipMessage {
    ZulipMessage {
        id,
        timestamp,
        msg_type: "stream".to_string(),
        subject: topic.map(String::from),
        display_recipient: DisplayRecipient::Stream(stream.into()),
        stream_id: Some(42),
    }
}

#[test]
fn zulip_encode_plain_text() {
    assert_eq!(zulip_encode("hello"), "hello");
}

#[test]
fn zulip_encode_space() {
    // space → %20 → .20
    assert_eq!(zulip_encode("hello world"), "hello.20world");
}

#[test]
fn zulip_encode_special_chars() {
    assert_eq!(zulip_encode("C++"), "c.2b.2b");
}

#[test]
fn dm_conversation_key_excludes_sender_and_sorts() {
    let msg = dm_msg(vec![
        recipient("me@x.com", "Me"),
        recipient("Bob@x.com", "Bob"),
        recipient("alice@x.com", "Alice"),
    ]);
    // Sender dropped (case-insensitive), rest lowercased and sorted.
    assert_eq!(dm_conversation_key(&msg, "ME@x.com"), "alice@x.com,bob@x.com");
}

#[test]
fn dm_conversation_key_note_to_self() {
    let msg = dm_msg(vec![recipient("me@x.com", "Me")]);
    assert_eq!(dm_conversation_key(&msg, "me@x.com"), "self");
}

#[test]
fn dm_conversation_key_deduplicates() {
    let msg = dm_msg(vec![recipient("alice@x.com", "Alice"), recipient("alice@x.com", "Alice")]);
    assert_eq!(dm_conversation_key(&msg, "me@x.com"), "alice@x.com");
}

#[test]
fn dm_conversation_key_ignores_recipient_order() {
    let a = dm_msg(vec![recipient("b@x.com", "B"), recipient("a@x.com", "A")]);
    let b = dm_msg(vec![recipient("a@x.com", "A"), recipient("B@x.com", "B")]);
    assert_eq!(dm_conversation_key(&a, "me@x.com"), dm_conversation_key(&b, "me@x.com"));
}

#[test]
fn normalize_realm_url_strips_trailing_slash() {
    assert_eq!(
        normalize_realm_url("https://example.zulipchat.com/"),
        "https://example.zulipchat.com"
    );
}

#[test]
fn normalize_realm_url_unchanged_when_clean() {
    assert_eq!(
        normalize_realm_url("https://example.zulipchat.com"),
        "https://example.zulipchat.com"
    );
}

#[test]
fn bucket_keys_name_the_stream_or_the_partners() {
    assert_eq!(message_bucket_key(&stream_msg(1, 0, "general", None), "me@x.com"), "general");
    let dm = dm_msg(vec![recipient("me@x.com", "Me"), recipient("z@x.com", "Z")]);
    assert_eq!(message_bucket_key(&dm, "me@x.com"), "__dm__:z@x.com");
}

#[test]
fn absorb_page_keeps_window_and_anchors_at_earliest() {
    let mut scan = ZulipScan { seen: vec![5], in_window: Vec::new() };
    let page = vec![
        stream_msg(5, 150, "s", None),
        stream_msg(7, 120, "s", None),
        stream_msg(6, 300, "s", None),
    ];
    let next = absorb_page(&mut scan, page, false, 100, 200, 0);
    assert_eq!(scan.seen, vec![5, 7, 6]);
    assert_eq!(scan.in_window.len(), 1);
    assert_eq!(scan.in_window[0].id, 7);
    assert_eq!(next, PageStep::Next(7));
}

#[test]
fn absorb_page_stops_past_the_window_or_at_the_last_page() {
    let mut scan = ZulipScan { seen: Vec::new(), in_window: Vec::new() };
    assert_eq!(absorb_page(&mut scan, vec![stream_msg(1, 50, "s", None)], false, 100, 200, 0), PageStep::Done);
    let mut scan = ZulipScan { seen: Vec::new(), in_window: Vec::new() };
    assert_eq!(absorb_page(&mut scan, vec![stream_msg(1, 150, "s", None)], true, 100, 200, 0), PageStep::Done);
    let mut scan = ZulipScan { seen: Vec::new(), in_window: Vec::new() };
    let last = ZULIP_MAX_PAGES - 1;
    let step = absorb_page(&mut scan, vec![stream_msg(1, 150, "s", None)], false, 100, 200, last);
    assert_eq!(step, PageStep::Capped);
    assert_eq!(walk_incomplete_days(step, 10, 12), vec![10, 11, 12]);
    assert!(walk_incomplete_days(PageStep::Done, 10, 12).is_empty());
    let mut scan = ZulipScan { seen: Vec::new(), in_window: Vec::new() };
    assert_eq!(absorb_page(&mut scan, Vec::new(), false, 100, 200, 0), PageStep::Done);
}

#[test]
fn messages_are_sorted_by_time() {
    let sorted = sort_messages(vec![
        stream_msg(1, 30, "s", None),
        stream_msg(2, 10, "s", None),
        stream_msg(3, 20, "s", None),
    ]);
    let ts: Vec<i64> = sorted.iter().map(|m| m.timestamp).collect();
    assert_eq!(ts, vec![10, 20, 30]);
}

#[test]
fn messages_group_by_day_and_conversation() {
    let msgs = vec![
        stream_msg(1, 10, "a", None),
        stream_msg(2, 20, "b", None),
        stream_msg(3, 30, "a", None),
        stream_msg(4, 40, "a", None),
    ];
    let days = vec![Some(1), Some(1), Some(1), Some(2)];
    let buckets = group_messages(msgs, &days, "me@x.com");
    let shape: Vec<(i32, String, Vec<u64>)> = buckets
        .iter()
        .map(|b| (b.day, b.key.clone(), b.messages.iter().map(|m| m.id).collect()))
        .collect();
    assert_eq!(
        shape,
        vec![
            (1, "a".to_string(), vec![1, 3]),
            (1, "b".to_string(), vec![2]),
            (2, "a".to_string(), vec![4]),
        ]
    );
}

#[test]
fn stream_bucket_event_reads_count_topic_and_span() {
    let msgs = vec![
        stream_msg(11, 100, "dev team", Some("deploy")),
        stream_msg(12, 200, "dev team", Some("deploy")),
        stream_msg(13, 300, "dev team", Some("lunch")),
    ];
    let (day, ts, ev) = bucket_event(
        "https://z.example.com",
        "me@x.com",
        7,
        "2026-09-03",
        "dev team",
        &msgs,
        "09:00",
        "10:30",
    );
    assert_eq!(day, 7);
    assert_eq!(ts, 100);
    assert_eq!(ev.timestamp, 100);
    assert_eq!(ev.time, "09:00");
    assert!(matches!(ev.source, TimelineEventSource::Zulip));
    assert_eq!(ev.id, "zulip:stream:dev team:2026-09-03");
    assert_eq!(ev.title, "Sent 3 messages in #dev team \u{b7} deploy (09:00\u{2013}10:30)");
    assert_eq!(ev.detail.as_deref(), Some("deploy, lunch"));
    assert_eq!(
        ev.url.as_deref(),
        Some("https://z.example.com/#narrow/stream/42-dev.20team/topic/deploy/near/11")
    );
}

#[test]
fn dm_bucket_event_names_partners() {
    let msg = ZulipMessage {
        id: 9,
        timestamp: 500,
        msg_type: "private".into(),
        subject: None,
        display_recipient: DisplayRecipient::Users(vec![
            recipient("me@x.com", "Me"),
            recipient("ann@x.com", "Ann"),
        ]),
        stream_id: None,
    };
    let (_, _, ev) = bucket_event(
        "https://z.example.com",
        "me@x.com",
        7,
        "2026-09-03",
        "__dm__:ann@x.com",
        &vec![msg],
        "08:00",
        "08:00",
    );
    assert_eq!(ev.id, "zulip:dm:2026-09-03:ann@x.com");
    assert_eq!(ev.title, "Sent 1 direct message to Ann");
    assert_eq!(ev.detail, None);
    assert_eq!(ev.url.as_deref(), Some("https://z.example.com/#narrow/near/9"));
}

#[test]
fn rows_leave_out_messages_chrono_cannot_place() {
    // Two messages in one stream a few seconds apart share a local day and
    // therefore a row; one whose instant is outside chrono's years gets no
    // day and no row, and the assembly still succeeds.
    let msgs = vec![
        stream_msg(1, 1_700_000_000, "dev", Some("a")),
        stream_msg(2, i64::MAX, "dev", Some("b")),
        stream_msg(3, 1_700_000_005, "dev", Some("a")),
    ];
    let rows = zulip_rows("https://z.example.com", "me@x.com", msgs).expect("rows");
    assert_eq!(rows.len(), 1);
    let (_, ts, ev) = &rows[0];
    assert_eq!(*ts, 1_700_000_000);
    assert!(ev.title.starts_with("Sent 2 messages in #dev"));
}

#[test]
fn window_fails_only_without_a_next_day() {
    let last = NaiveDate::MAX.num_days_from_ce();
    assert_eq!(zulip_window(1, last), Err(format!("no day after {}", NaiveDate::MAX.format("%Y-%m-%d"))));
    assert_eq!(zulip_window(1, i32::MAX), Err("no day after ".to_string()));
    let d = NaiveDate::from_ymd_opt(2024, 3, 5).unwrap().num_days_from_ce();
    let (start, end) = zulip_window(d, d).expect("window");
    assert!(start < end);
    assert!(end - start >= 23 * 3600 && end - start <= 25 * 3600);
}

#[test]
fn messages_url_carries_the_sender_narrow() {
    let url = messages_url("https://z.example.com", "newest", "me+1@x.com");
    assert_eq!(
        url,
        "https://z.example.com/api/v1/messages?anchor=newest&num_before=1000&num_after=0&narrow=\
         %5B%7B%22operator%22%3A%22sender%22%2C%22operand%22%3A%22me%2B1%40x.com%22%7D%5D&apply_markdown=false"
    );
}
