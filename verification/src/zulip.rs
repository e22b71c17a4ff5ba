//! Zulip activity: paging backwards through the user's sent messages, and
//! folding them into one row per local day and conversation ("Sent 3
//! messages in #stream").
use vstd::prelude::*;

use crate::jira::{normalized_url, strip_trailing_chars};
use crate::text::{
    chars_of, eq_ignore_case_chars, lower_seq, string_of, to_lowercase, trim, trim_chars,
    trim_slice, unicode_lowercase, url_encode, url_encoded,
};

verus! {

/// Messages asked for per request (the server caps near 1000).
pub const ZULIP_PAGE_SIZE: u32 = 1000;

/// Pages read per lookup at most: 10 * 1000 messages is far more than a
/// realistic day.
pub const ZULIP_MAX_PAGES: u32 = 10;

/// Realm URL without surrounding whitespace or trailing slashes.
pub fn normalize_realm_url(raw: &str) -> (r: String)
    ensures
        r@ == normalized_url(raw@),
{
    let v = chars_of(raw);
    let t = trim_chars(&v);
    let u = strip_trailing_chars(&t, '/');
    string_of(&u)
}

/// Every `from` in `s` replaced by `to`.
pub open spec fn replaced(s: Seq<char>, from: char, to: char) -> Seq<char> {
    s.map_values(|c: char| if c == from {
        to
    } else {
        c
    })
}

fn replace_char(s: &str, from: char, to: char) -> (r: String)
    ensures
        r@ == replaced(s@, from, to),
{
    let v = chars_of(s);
    let mut out: Vec<char> = Vec::new();
    let mut i: usize = 0;
    while i < v.len()
        invariant
            i <= v.len(),
            v@ == s@,
            out@ == replaced(s@.take(i as int), from, to),
        decreases v.len() - i,
    {
        out.push(if v[i] == from {
            to
        } else {
            v[i]
        });
        assert(out@ =~= replaced(s@.take(i + 1), from, to));
        i += 1;
    }
    assert(s@.take(v.len() as int) =~= s@);
    string_of(&out)
}

/// Zulip's narrow-component encoding: `encodeURIComponent`, then `%` → `.`,
/// lower-cased.
pub open spec fn zulip_encoded(s: Seq<char>) -> Seq<char> {
    unicode_lowercase(replaced(url_encoded(s), '%', '.'))
}

pub fn zulip_encode(s: &str) -> (r: String)
    ensures
        r@ == zulip_encoded(s@),
{
    let e = url_encode(s);
    let d = replace_char(e.as_str(), '%', '.');
    to_lowercase(d.as_str())
}

// ---------------------------------------------------------------------------
// Ordering text
// ---------------------------------------------------------------------------

/// Lexicographic order by code point (for UTF-8 strings, the order of their
/// bytes, which is how `String` compares).
pub open spec fn text_le(a: Seq<char>, b: Seq<char>) -> bool
    decreases a.len(),
{
    if a.len() == 0 {
        true
    } else if b.len() == 0 {
        false
    } else if a[0] != b[0] {
        (a[0] as u32) < (b[0] as u32)
    } else {
        text_le(a.skip(1), b.skip(1))
    }
}

fn text_le_exec(a: &Vec<char>, b: &Vec<char>) -> (r: bool)
    ensures
        r == text_le(a@, b@),
{
    let mut i: usize = 0;
    assert(a@.skip(0) =~= a@);
    assert(b@.skip(0) =~= b@);
    while i < a.len() && i < b.len() && a[i] == b[i]
        invariant
            i <= a.len(),
            i <= b.len(),
            text_le(a@, b@) == text_le(a@.skip(i as int), b@.skip(i as int)),
        decreases a.len() - i,
    {
        assert(a@.skip(i as int).skip(1) =~= a@.skip(i + 1));
        assert(b@.skip(i as int).skip(1) =~= b@.skip(i + 1));
        i += 1;
    }
    if i == a.len() {
        true
    } else if i == b.len() {
        false
    } else {
        (a[i] as u32) < (b[i] as u32)
    }
}

/// Where `x` goes in `s`: after every element that is not after it.
pub open spec fn text_slot(s: Seq<Seq<char>>, x: Seq<char>) -> int
    decreases s.len(),
{
    if s.len() == 0 {
        0
    } else if text_le(s.last(), x) {
        s.len() as int
    } else {
        text_slot(s.drop_last(), x)
    }
}

/// Insertion sort of texts (stable).
pub open spec fn sorted_texts(s: Seq<Seq<char>>) -> Seq<Seq<char>>
    decreases s.len(),
{
    if s.len() == 0 {
        Seq::empty()
    } else {
        let t = sorted_texts(s.drop_last());
        t.insert(text_slot(t, s.last()), s.last())
    }
}

proof fn lemma_text_slot_range(s: Seq<Seq<char>>, x: Seq<char>)
    ensures
        0 <= text_slot(s, x) <= s.len(),
    decreases s.len(),
{
    if s.len() > 0 {
        lemma_text_slot_range(s.drop_last(), x);
    }
}

proof fn lemma_sorted_len(s: Seq<Seq<char>>)
    ensures
        sorted_texts(s).len() == s.len(),
    decreases s.len(),
{
    if s.len() > 0 {
        lemma_sorted_len(s.drop_last());
        lemma_text_slot_range(sorted_texts(s.drop_last()), s.last());
    }
}

pub open spec fn texts_of(v: Seq<Vec<char>>) -> Seq<Seq<char>> {
    v.map_values(|c: Vec<char>| c@)
}

fn sort_texts(items: Vec<Vec<char>>) -> (out: Vec<Vec<char>>)
    ensures
        texts_of(out@) == sorted_texts(texts_of(items@)),
{
    let ghost input = texts_of(items@);
    let mut out: Vec<Vec<char>> = Vec::new();
    let mut rest = items;
    let n = rest.len();
    let mut i: usize = 0;
    while rest.len() > 0
        invariant
            i + rest.len() == n == input.len(),
            texts_of(rest@) == input.subrange(i as int, n as int),
            texts_of(out@) == sorted_texts(input.take(i as int)),
        decreases rest.len(),
    {
        let ghost old_rest = rest@;
        let x = rest.remove(0);
        assert(old_rest[0] == x);
        assert(texts_of(old_rest)[0] == x@);
        assert(x@ == input[i as int]);
        assert(input.take(i + 1).drop_last() =~= input.take(i as int));
        assert(rest@ =~= old_rest.subrange(1, old_rest.len() as int));
        assert forall|k: int| 0 <= k < rest@.len() implies texts_of(rest@)[k] == input.subrange(
            i + 1,
            n as int,
        )[k] by {
            assert(rest@[k] == old_rest[k + 1]);
            assert(texts_of(old_rest)[k + 1] == input.subrange(i as int, n as int)[k + 1]);
        }
        assert(texts_of(rest@) =~= input.subrange(i + 1, n as int));
        let ghost t = texts_of(out@);
        let mut pos: usize = out.len();
        assert(t.take(pos as int) =~= t);
        while pos > 0 && !text_le_exec(&out[pos - 1], &x)
            invariant
                pos <= out.len(),
                t == texts_of(out@),
                text_slot(t, x@) == text_slot(t.take(pos as int), x@),
            decreases pos,
        {
            assert(t.take(pos as int).drop_last() =~= t.take(pos - 1));
            pos -= 1;
        }
        proof {
            lemma_text_slot_range(t, x@);
        }
        out.insert(pos, x);
        assert(texts_of(out@) =~= t.insert(pos as int, x@));
        i += 1;
    }
    assert(input.take(n as int) =~= input);
    out
}

/// `parts` joined with `sep`.
pub open spec fn joined_texts(parts: Seq<Seq<char>>, sep: Seq<char>) -> Seq<char>
    decreases parts.len(),
{
    if parts.len() == 0 {
        Seq::empty()
    } else if parts.len() == 1 {
        parts[0]
    } else {
        joined_texts(parts.drop_last(), sep) + sep + parts.last()
    }
}

fn join_char_texts(parts: &Vec<Vec<char>>, sep: &str) -> (r: String)
    ensures
        r@ == joined_texts(texts_of(parts@), sep@),
{
    let sv = chars_of(sep);
    let mut out: Vec<char> = Vec::new();
    let mut i: usize = 0;
    while i < parts.len()
        invariant
            i <= parts.len(),
            sv@ == sep@,
            out@ == joined_texts(texts_of(parts@).take(i as int), sep@),
        decreases parts.len() - i,
    {
        let ghost before = texts_of(parts@).take(i as int);
        let ghost after = texts_of(parts@).take(i + 1);
        assert(after.drop_last() =~= before);
        let ghost prev = out@;
        if i > 0 {
            let mut k: usize = 0;
            while k < sv.len()
                invariant
                    k <= sv.len(),
                    out@ == prev + sv@.take(k as int),
                decreases sv.len() - k,
            {
                out.push(sv[k]);
                assert(sv@.take(k + 1) =~= sv@.take(k as int).push(sv@[k as int]));
                k += 1;
            }
            assert(sv@.take(sv.len() as int) =~= sv@);
        }
        let ghost mid = out@;
        let p = &parts[i];
        let mut k: usize = 0;
        while k < p.len()
            invariant
                k <= p.len(),
                out@ == mid + p@.take(k as int),
            decreases p.len() - k,
        {
            out.push(p[k]);
            assert(p@.take(k + 1) =~= p@.take(k as int).push(p@[k as int]));
            k += 1;
        }
        assert(p@.take(p.len() as int) =~= p@);
        proof {
            if i == 0 {
                assert(out@ =~= after[0]);
            } else {
                assert(out@ =~= joined_texts(before, sep@) + sep@ + after.last());
            }
        }
        i += 1;
    }
    assert(texts_of(parts@).take(parts.len() as int) =~= texts_of(parts@));
    string_of(&out)
}

// ---------------------------------------------------------------------------
// Messages
// ---------------------------------------------------------------------------

/// One entry of a direct message's recipient list.
#[derive(Debug, Clone)]
pub struct Recipient {
    pub email: Option<String>,
    pub full_name: Option<String>,
}

/// `display_recipient`: a stream name, or the users of a direct message.
#[derive(Debug, Clone)]
pub enum DisplayRecipient {
    Stream(String),
    Users(Vec<Recipient>),
    Other,
}

/// A message the user sent, with the fields the timeline reads.
#[derive(Debug, Clone)]
pub struct ZulipMessage {
    pub id: u64,
    pub timestamp: i64,
    pub msg_type: String,
    pub subject: Option<String>,
    pub display_recipient: DisplayRecipient,
    pub stream_id: Option<u64>,
}

/// The other participants' emails, lower-cased, without repeats, in order.
pub open spec fn other_emails(rs: Seq<Recipient>, sender: Seq<char>) -> Seq<Seq<char>>
    decreases rs.len(),
{
    if rs.len() == 0 {
        Seq::empty()
    } else {
        let earlier = other_emails(rs.drop_last(), sender);
        match rs.last().email {
            Some(e) => if lower_seq(e@) == lower_seq(sender) || earlier.contains(lower_seq(e@)) {
                earlier
            } else {
                earlier.push(lower_seq(e@))
            },
            None => earlier,
        }
    }
}

pub open spec fn recipients_of(d: DisplayRecipient) -> Seq<Recipient> {
    match d {
        DisplayRecipient::Users(v) => v@,
        _ => Seq::empty(),
    }
}

/// Stable conversation key for a DM: the other participants' emails,
/// lower-cased, without repeats, sorted and comma-joined; `self` for a note
/// to self.
pub open spec fn dm_key(d: DisplayRecipient, sender: Seq<char>) -> Seq<char> {
    let emails = other_emails(recipients_of(d), sender);
    if emails.len() == 0 {
        "self"@
    } else {
        joined_texts(sorted_texts(emails), ","@)
    }
}

fn contains_chars_vec(v: &Vec<Vec<char>>, x: &Vec<char>) -> (b: bool)
    ensures
        b == texts_of(v@).contains(x@),
{
    let mut i: usize = 0;
    while i < v.len()
        invariant
            i <= v.len(),
            forall|j: int| 0 <= j < i ==> v@[j]@ != x@,
        decreases v.len() - i,
    {
        if crate::text::same_chars(&v[i], x) {
            assert(texts_of(v@)[i as int] == x@);
            return true;
        }
        i += 1;
    }
    proof {
        if texts_of(v@).contains(x@) {
            let j = choose|j: int| 0 <= j < texts_of(v@).len() && texts_of(v@)[j] == x@;
            assert(v@[j]@ == x@);
        }
    }
    false
}

pub fn dm_conversation_key(msg: &ZulipMessage, sender_email: &str) -> (r: String)
    ensures
        r@ == dm_key(msg.display_recipient, sender_email@),
{
    let sender = chars_of(sender_email);
    let mut emails: Vec<Vec<char>> = Vec::new();
    match &msg.display_recipient {
        DisplayRecipient::Users(rs) => {
            let mut i: usize = 0;
            while i < rs.len()
                invariant
                    i <= rs.len(),
                    sender@ == sender_email@,
                    texts_of(emails@) == other_emails(rs@.take(i as int), sender_email@),
                decreases rs.len() - i,
            {
                assert(rs@.take(i + 1).drop_last() =~= rs@.take(i as int));
                match &rs[i].email {
                    Some(e) => {
                        let ev = chars_of(e.as_str());
                        if !eq_ignore_case_chars(&ev, &sender) {
                            let lower = crate::text::lower_chars(&ev);
                            if !contains_chars_vec(&emails, &lower) {
                                emails.push(lower);
                                assert(texts_of(emails@) =~= other_emails(
                                    rs@.take(i as int),
                                    sender_email@,
                                ).push(lower_seq(e@)));
                            }
                        }
                    },
                    None => {},
                }
                i += 1;
            }
            assert(rs@.take(rs.len() as int) =~= rs@);
        },
        _ => {
            assert(texts_of(emails@) =~= Seq::<Seq<char>>::empty());
        },
    }
    if emails.len() == 0 {
        return String::from_str("self");
    }
    let sorted = sort_texts(emails);
    join_char_texts(&sorted, ",")
}

/// The bucket a message falls in: its stream (`unknown` when the name is
/// missing), or `__dm__:` and the conversation key.
pub open spec fn bucket_key(m: ZulipMessage, sender: Seq<char>) -> Seq<char> {
    if m.msg_type@ == "stream"@ {
        match m.display_recipient {
            DisplayRecipient::Stream(s) => s@,
            _ => "unknown"@,
        }
    } else {
        "__dm__:"@ + dm_key(m.display_recipient, sender)
    }
}

pub fn message_bucket_key(m: &ZulipMessage, sender_email: &str) -> (r: String)
    ensures
        r@ == bucket_key(*m, sender_email@),
{
    if crate::text::same_text(m.msg_type.as_str(), "stream") {
        match &m.display_recipient {
            DisplayRecipient::Stream(s) => s.clone(),
            _ => String::from_str("unknown"),
        }
    } else {
        let mut k = String::from_str("__dm__:");
        let d = dm_conversation_key(m, sender_email);
        k.append(d.as_str());
        k
    }
}

// ---------------------------------------------------------------------------
// Paging
// ---------------------------------------------------------------------------

/// Messages gathered so far while paging backwards.
#[derive(Debug, Clone)]
pub struct ZulipScan {
    /// Ids already seen (a page can repeat the anchor message).
    pub seen: Vec<u64>,
    /// Messages sent inside the wanted window.
    pub in_window: Vec<ZulipMessage>,
}

/// Folds one page into what was gathered: each message not seen before is
/// recorded, kept when inside `[start, end)`, and the earliest one (time and
/// id) is tracked.
pub open spec fn absorb(seen: Seq<u64>, win: Seq<ZulipMessage>, msgs: Seq<ZulipMessage>, start: i64, end: i64) -> (Seq<u64>, Seq<ZulipMessage>, i64, Option<u64>)
    decreases msgs.len(),
{
    if msgs.len() == 0 {
        (seen, win, i64::MAX, None)
    } else {
        let (s, w, e, eid) = absorb(seen, win, msgs.drop_last(), start, end);
        let m = msgs.last();
        if s.contains(m.id) {
            (s, w, e, eid)
        } else {
            let (e2, eid2) = if m.timestamp < e {
                (m.timestamp, Some(m.id))
            } else {
                (e, eid)
            };
            let w2 = if start <= m.timestamp < end {
                w.push(m)
            } else {
                w
            };
            (s.push(m.id), w2, e2, eid2)
        }
    }
}

/// Where the next page is anchored: at the earliest message of this page,
/// unless the page was empty, reached back past the window, was the oldest
/// Zulip has, or was the last page allowed.
/// What the message walk does after a page.
#[derive(Debug, Clone, Copy, PartialEq, Eq, Structural)]
pub enum PageStep {
    /// Fetch the page before the message with this id.
    Next(u64),
    /// The walk is complete: the window's start was passed, the oldest
    /// message was reached, or the page was empty.
    Done,
    /// More messages were due but the page cap ended the walk: the window's
    /// days may be missing messages and must be reported incomplete.
    Capped,
}

pub open spec fn next_anchor(seen: Seq<u64>, win: Seq<ZulipMessage>, msgs: Seq<ZulipMessage>, found_oldest: bool, start: i64, end: i64, page_idx: u32) -> PageStep {
    if msgs.len() == 0 {
        PageStep::Done
    } else {
        let (_, _, e, eid) = absorb(seen, win, msgs, start, end);
        if e < start || found_oldest {
            PageStep::Done
        } else {
            match eid {
                None => PageStep::Done,
                Some(id) => if page_idx + 1 >= ZULIP_MAX_PAGES {
                    PageStep::Capped
                } else {
                    PageStep::Next(id)
                },
            }
        }
    }
}

/// The days a walk leaves incomplete: every day of `start_day..=end_day`
/// when the page cap ended it, none otherwise.
pub fn walk_incomplete_days(step: PageStep, start_day: i32, end_day: i32) -> (r: Vec<i32>)
    ensures
        step is Capped ==> r@ == crate::range::day_span(start_day, end_day),
        !(step is Capped) ==> r.len() == 0,
{
    match step {
        PageStep::Capped => crate::range::days_in_range(start_day, end_day),
        _ => Vec::new(),
    }
}

fn seen_contains(v: &Vec<u64>, id: u64) -> (b: bool)
    ensures
        b == v@.contains(id),
{
    let mut i: usize = 0;
    while i < v.len()
        invariant
            i <= v.len(),
            forall|j: int| 0 <= j < i ==> v@[j] != id,
        decreases v.len() - i,
    {
        if v[i] == id {
            return true;
        }
        i += 1;
    }
    false
}

/// Takes in one page of messages (newest first or not: order does not
/// matter) and says where to anchor the next one, if anywhere.
pub fn absorb_page(scan: &mut ZulipScan, messages: Vec<ZulipMessage>, found_oldest: bool, range_start: i64, range_end: i64, page_idx: u32) -> (next: PageStep)
    ensures
        ({
            let a = absorb(old(scan).seen@, old(scan).in_window@, messages@, range_start, range_end);
            final(scan).seen@ == a.0 && final(scan).in_window@ == a.1
        }),
        next == next_anchor(old(scan).seen@, old(scan).in_window@, messages@, found_oldest, range_start, range_end, page_idx),
{
    let ghost seen0 = scan.seen@;
    let ghost win0 = scan.in_window@;
    let ghost all = messages@;
    let empty = messages.len() == 0;
    let mut rest = messages;
    let mut earliest_ts: i64 = i64::MAX;
    let mut earliest_id: Option<u64> = None;
    let mut i: usize = 0;
    let n = rest.len();
    while rest.len() > 0
        invariant
            i + rest.len() == n == all.len(),
            rest@ == all.subrange(i as int, n as int),
            (scan.seen@, scan.in_window@, earliest_ts, earliest_id) == absorb(seen0, win0, all.take(i as int), range_start, range_end),
        decreases rest.len(),
    {
        let m = rest.remove(0);
        assert(m == all[i as int]);
        assert(all.take(i + 1).drop_last() =~= all.take(i as int));
        assert(rest@ =~= all.subrange(i + 1, n as int));
        if !seen_contains(&scan.seen, m.id) {
            scan.seen.push(m.id);
            if m.timestamp < earliest_ts {
                earliest_ts = m.timestamp;
                earliest_id = Some(m.id);
            }
            if m.timestamp >= range_start && m.timestamp < range_end {
                scan.in_window.push(m);
            }
        }
        i += 1;
    }
    assert(all.take(n as int) =~= all);
    if empty {
        return PageStep::Done;
    }
    if earliest_ts < range_start || found_oldest {
        return PageStep::Done;
    }
    match earliest_id {
        None => PageStep::Done,
        Some(id) => {
            if page_idx >= ZULIP_MAX_PAGES - 1 {
                PageStep::Capped
            } else {
                PageStep::Next(id)
            }
        },
    }
}

// ---------------------------------------------------------------------------
// Buckets
// ---------------------------------------------------------------------------

/// Messages of one local day and one conversation (stream, or DM partners).
#[derive(Debug, Clone)]
pub struct Bucket {
    pub day: i32,
    pub key: String,
    pub messages: Vec<ZulipMessage>,
}

pub type BucketView = (i32, Seq<char>, Seq<ZulipMessage>);

pub open spec fn bucket_view(b: Bucket) -> BucketView {
    (b.day, b.key@, b.messages@)
}

pub open spec fn bucket_views(v: Seq<Bucket>) -> Seq<BucketView> {
    v.map_values(|b: Bucket| bucket_view(b))
}

/// Index of the bucket for `(day, key)`, or the count when there is none.
pub open spec fn bucket_index(bs: Seq<BucketView>, day: i32, key: Seq<char>) -> int
    decreases bs.len(),
{
    if bs.len() == 0 {
        0
    } else {
        let i = bucket_index(bs.drop_last(), day, key);
        if i < bs.len() - 1 {
            i
        } else if bs.last().0 == day && bs.last().1 == key {
            bs.len() - 1
        } else {
            bs.len() as int
        }
    }
}

/// Messages grouped by local day and conversation, buckets in order of
/// their first message and messages in arrival order. A message whose local
/// day is unknown is left out.
pub open spec fn grouped(msgs: Seq<ZulipMessage>, days: Seq<Option<i32>>, sender: Seq<char>) -> Seq<BucketView>
    decreases msgs.len(),
{
    if msgs.len() == 0 {
        Seq::empty()
    } else {
        let bs = grouped(msgs.drop_last(), days, sender);
        let m = msgs.last();
        match days[msgs.len() - 1] {
            None => bs,
            Some(d) => {
                let k = bucket_key(m, sender);
                let i = bucket_index(bs, d, k);
                if i < bs.len() {
                    bs.update(i, (d, k, bs[i].2.push(m)))
                } else {
                    bs.push((d, k, seq![m]))
                }
            },
        }
    }
}

proof fn lemma_bucket_index(bs: Seq<BucketView>, day: i32, key: Seq<char>)
    ensures
        0 <= bucket_index(bs, day, key) <= bs.len(),
        bucket_index(bs, day, key) < bs.len() ==> bs[bucket_index(bs, day, key)].0 == day
            && bs[bucket_index(bs, day, key)].1 == key,
    decreases bs.len(),
{
    if bs.len() > 0 {
        lemma_bucket_index(bs.drop_last(), day, key);
    }
}

fn find_bucket(bs: &Vec<Bucket>, day: i32, key: &str) -> (r: usize)
    ensures
        r as int == bucket_index(bucket_views(bs@), day, key@),
{
    let ghost v = bucket_views(bs@);
    let mut i: usize = 0;
    while i < bs.len()
        invariant
            i <= bs.len(),
            v == bucket_views(bs@),
            bucket_index(v.take(i as int), day, key@) == i,
        decreases bs.len() - i,
    {
        assert(v.take(i + 1).drop_last() =~= v.take(i as int));
        if bs[i].day == day && crate::text::same_text(bs[i].key.as_str(), key) {
            proof {
                lemma_index_prefix(v, day, key@, i + 1);
            }
            return i;
        }
        i += 1;
    }
    assert(v.take(bs.len() as int) =~= v);
    i
}

proof fn lemma_index_prefix(bs: Seq<BucketView>, day: i32, key: Seq<char>, k: int)
    requires
        0 <= k <= bs.len(),
        bucket_index(bs.take(k), day, key) < k,
    ensures
        bucket_index(bs, day, key) == bucket_index(bs.take(k), day, key),
    decreases bs.len() - k,
{
    if k < bs.len() {
        assert(bs.take(k + 1).drop_last() =~= bs.take(k));
        lemma_index_prefix(bs, day, key, k + 1);
    } else {
        assert(bs.take(k) =~= bs);
    }
}

/// Groups messages (with their local days) into buckets.
pub fn group_messages(msgs: Vec<ZulipMessage>, days: &Vec<Option<i32>>, sender_email: &str) -> (r: Vec<Bucket>)
    requires
        days.len() == msgs.len(),
    ensures
        bucket_views(r@) == grouped(msgs@, days@, sender_email@),
{
    let ghost all = msgs@;
    let mut rest = msgs;
    let mut bs: Vec<Bucket> = Vec::new();
    let mut i: usize = 0;
    let n = rest.len();
    while rest.len() > 0
        invariant
            i + rest.len() == n == all.len() == days.len(),
            rest@ == all.subrange(i as int, n as int),
            bucket_views(bs@) == grouped(all.take(i as int), days@, sender_email@),
        decreases rest.len(),
    {
        let m = rest.remove(0);
        assert(m == all[i as int]);
        assert(all.take(i + 1).drop_last() =~= all.take(i as int));
        assert(rest@ =~= all.subrange(i + 1, n as int));
        proof {
            assert(grouped(all.take(i + 1), days@, sender_email@) == {
                let bsv = grouped(all.take(i as int), days@, sender_email@);
                match days@[i as int] {
                    None => bsv,
                    Some(d) => {
                        let k = bucket_key(m, sender_email@);
                        let j = bucket_index(bsv, d, k);
                        if j < bsv.len() {
                            bsv.update(j, (d, k, bsv[j].2.push(m)))
                        } else {
                            bsv.push((d, k, seq![m]))
                        }
                    },
                }
            });
        }
        match days[i] {
            None => {},
            Some(d) => {
                let k = message_bucket_key(&m, sender_email);
                let j = find_bucket(&bs, d, k.as_str());
                proof {
                    lemma_bucket_index(bucket_views(bs@), d, k@);
                }
                let ghost before = bucket_views(bs@);
                if j < bs.len() {
                    let mut b = bs.remove(j);
                    b.messages.push(m);
                    bs.insert(j, b);
                    assert(bucket_views(bs@) =~= before.update(j as int, (d, k@, before[j as int].2.push(m))));
                } else {
                    let mut ms: Vec<ZulipMessage> = Vec::new();
                    ms.push(m);
                    bs.push(Bucket { day: d, key: k, messages: ms });
                    assert(bucket_views(bs@) =~= before.push((d, k@, seq![m])));
                }
            },
        }
        i += 1;
    }
    assert(all.take(n as int) =~= all);
    bs
}

// ---------------------------------------------------------------------------
// One row per bucket
// ---------------------------------------------------------------------------

pub open spec fn topic_of(m: ZulipMessage) -> Seq<char> {
    match m.subject {
        Some(s) => s@,
        None => "(no topic)"@,
    }
}

/// Index of topic `t` in `c`, or the count when absent.
pub open spec fn topic_index(c: Seq<(Seq<char>, nat)>, t: Seq<char>) -> int
    decreases c.len(),
{
    if c.len() == 0 {
        0
    } else {
        let i = topic_index(c.drop_last(), t);
        if i < c.len() - 1 {
            i
        } else if c.last().0 == t {
            c.len() - 1
        } else {
            c.len() as int
        }
    }
}

proof fn lemma_topic_index(c: Seq<(Seq<char>, nat)>, t: Seq<char>)
    ensures
        0 <= topic_index(c, t) <= c.len(),
        topic_index(c, t) < c.len() ==> c[topic_index(c, t)].0 == t,
    decreases c.len(),
{
    if c.len() > 0 {
        lemma_topic_index(c.drop_last(), t);
    }
}

/// Topics with their message counts, in order of first use.
pub open spec fn topic_counts(msgs: Seq<ZulipMessage>) -> Seq<(Seq<char>, nat)>
    decreases msgs.len(),
{
    if msgs.len() == 0 {
        Seq::empty()
    } else {
        let c = topic_counts(msgs.drop_last());
        let t = topic_of(msgs.last());
        let i = topic_index(c, t);
        if i < c.len() {
            c.update(i, (t, c[i].1 + 1))
        } else {
            c.push((t, 1))
        }
    }
}

/// The most used topic; the earliest wins ties.
pub open spec fn best_topic(c: Seq<(Seq<char>, nat)>) -> Option<(Seq<char>, nat)>
    decreases c.len(),
{
    if c.len() == 0 {
        None
    } else {
        match best_topic(c.drop_last()) {
            None => Some(c.last()),
            Some(x) => if c.last().1 > x.1 {
                Some(c.last())
            } else {
                Some(x)
            },
        }
    }
}

proof fn lemma_best_topic_index(c: Seq<(Seq<char>, nat)>) -> (k: int)
    requires
        c.len() > 0,
    ensures
        0 <= k < c.len(),
        best_topic(c) == Some(c[k]),
        forall|j: int| 0 <= j < c.len() ==> (#[trigger] c[j]).1 <= c[k].1,
        forall|j: int| 0 <= j < k ==> (#[trigger] c[j]).1 < c[k].1,
    decreases c.len(),
{
    let init = c.drop_last();
    if init.len() == 0 {
        0
    } else {
        let k0 = lemma_best_topic_index(init);
        assert(init[k0] == c[k0]);
        if c.last().1 > init[k0].1 {
            assert forall|j: int| 0 <= j < c.len() implies (#[trigger] c[j]).1 <= c[c.len() - 1].1 by {
                if j < init.len() {
                    assert(init[j] == c[j]);
                }
            }
            assert forall|j: int| 0 <= j < c.len() - 1 implies (#[trigger] c[j]).1 < c[c.len() - 1].1 by {
                assert(init[j] == c[j]);
            }
            c.len() - 1
        } else {
            assert forall|j: int| 0 <= j < c.len() implies (#[trigger] c[j]).1 <= c[k0].1 by {
                if j < init.len() {
                    assert(init[j] == c[j]);
                }
            }
            assert forall|j: int| 0 <= j < k0 implies (#[trigger] c[j]).1 < c[k0].1 by {
                assert(init[j] == c[j]);
            }
            k0
        }
    }
}

/// The most used topic wins, and among equally used ones the one used
/// first: the topic chosen from counts listed in order of first use has a
/// count no smaller than any other, and every topic listed before it has a
/// smaller count. There is a winner exactly when there is a topic.
pub proof fn lemma_best_topic_is_earliest_most_used(c: Seq<(Seq<char>, nat)>)
    ensures
        best_topic(c) is Some <==> c.len() > 0,
        best_topic(c) matches Some(x) ==> exists|k: int|
            0 <= k < c.len() && #[trigger] c[k] == x && (forall|j: int| 0 <= j < c.len() ==> (#[trigger] c[j]).1 <= x.1)
                && (forall|j: int| 0 <= j < k ==> (#[trigger] c[j]).1 < x.1),
{
    if c.len() > 0 {
        let k = lemma_best_topic_index(c);
        assert(c[k] == best_topic(c)->0);
    }
}

/// Index of the first message with topic `t`, or the count when none has it.
pub open spec fn first_use(msgs: Seq<ZulipMessage>, t: Seq<char>) -> int
    decreases msgs.len(),
{
    if msgs.len() == 0 {
        0
    } else {
        let i = first_use(msgs.drop_last(), t);
        if i < msgs.len() - 1 {
            i
        } else if topic_of(msgs.last()) == t {
            msgs.len() - 1
        } else {
            msgs.len() as int
        }
    }
}

proof fn lemma_first_use_bounds(msgs: Seq<ZulipMessage>, t: Seq<char>)
    ensures
        0 <= first_use(msgs, t) <= msgs.len(),
    decreases msgs.len(),
{
    if msgs.len() > 0 {
        lemma_first_use_bounds(msgs.drop_last(), t);
    }
}

/// Topic counts list topics in order of first use, each one used.
proof fn lemma_topic_counts_first_use(msgs: Seq<ZulipMessage>)
    ensures
        forall|k: int| 0 <= k < topic_counts(msgs).len() ==> first_use(msgs, (#[trigger] topic_counts(msgs)[k]).0) < msgs.len(),
        forall|j: int, k: int|
            0 <= j < k < topic_counts(msgs).len() ==> first_use(msgs, (#[trigger] topic_counts(msgs)[j]).0) < first_use(
                msgs,
                (#[trigger] topic_counts(msgs)[k]).0,
            ),
    decreases msgs.len(),
{
    if msgs.len() > 0 {
        let init = msgs.drop_last();
        lemma_topic_counts_first_use(init);
        let c0 = topic_counts(init);
        let c = topic_counts(msgs);
        let t = topic_of(msgs.last());
        let i = topic_index(c0, t);
        lemma_topic_index(c0, t);
        lemma_first_use_bounds(init, t);
        assert forall|k: int| 0 <= k < c0.len() implies first_use(msgs, c0[k].0) == first_use(init, c0[k].0) by {
            assert(first_use(init, c0[k].0) < init.len());
        }
        if i < c0.len() {
            assert forall|k: int| 0 <= k < c.len() implies (#[trigger] c[k]).0 == c0[k].0 by {}
        } else {
            if first_use(init, t) < init.len() {
                lemma_topic_named(init, t);
            }
            assert(first_use(msgs, t) == msgs.len() - 1);
            assert forall|k: int| 0 <= k < c.len() implies first_use(msgs, (#[trigger] c[k]).0) < msgs.len() by {
                if k < c0.len() {
                    assert(c[k] == c0[k]);
                }
            }
            assert forall|j: int, k: int| 0 <= j < k < c.len() implies first_use(msgs, (#[trigger] c[j]).0) < first_use(
                msgs,
                (#[trigger] c[k]).0,
            ) by {
                assert(c[j] == c0[j]);
                if k < c0.len() {
                    assert(c[k] == c0[k]);
                }
            }
        }
    }
}

/// A topic some message uses is listed in the counts.
proof fn lemma_topic_named(msgs: Seq<ZulipMessage>, t: Seq<char>)
    requires
        first_use(msgs, t) < msgs.len(),
    ensures
        topic_index(topic_counts(msgs), t) < topic_counts(msgs).len(),
    decreases msgs.len(),
{
    let init = msgs.drop_last();
    let c0 = topic_counts(init);
    let u = topic_of(msgs.last());
    lemma_topic_index(c0, u);
    lemma_topic_index(c0, t);
    lemma_first_use_bounds(init, t);
    if first_use(init, t) < init.len() {
        lemma_topic_named(init, t);
        let i = topic_index(c0, t);
        let c = topic_counts(msgs);
        lemma_topic_index(c, t);
        assert(c[i].0 == t);
        lemma_topic_index_finds(c, t, i);
    } else {
        let c = topic_counts(msgs);
        lemma_topic_index(c, t);
        let j = topic_index(c0, u);
        if j < c0.len() {
            lemma_topic_index_finds(c, t, j);
        } else {
            lemma_topic_index_finds(c, t, c.len() - 1);
        }
    }
}

/// A name present at `i` is found (at or before `i`).
proof fn lemma_topic_index_finds(c: Seq<(Seq<char>, nat)>, t: Seq<char>, i: int)
    requires
        0 <= i < c.len(),
        c[i].0 == t,
    ensures
        topic_index(c, t) <= i,
    decreases c.len(),
{
    if i < c.len() - 1 {
        lemma_topic_index_finds(c.drop_last(), t, i);
    } else {
        lemma_topic_index(c.drop_last(), t);
    }
}

/// The dominant topic of a stream bucket is the most discussed one, and
/// among equally discussed topics the one whose first message comes
/// earliest.
pub proof fn lemma_dominant_topic_earliest_most_used(msgs: Seq<ZulipMessage>)
    ensures
        best_topic(topic_counts(msgs)) matches Some(x) ==> {
            &&& first_use(msgs, x.0) < msgs.len()
            &&& forall|k: int|
                0 <= k < topic_counts(msgs).len() ==> (#[trigger] topic_counts(msgs)[k]).1 <= x.1
            &&& forall|k: int|
                0 <= k < topic_counts(msgs).len() && (#[trigger] topic_counts(msgs)[k]).1 == x.1 ==> first_use(msgs, x.0)
                    <= first_use(msgs, topic_counts(msgs)[k].0)
        },
{
    let c = topic_counts(msgs);
    if c.len() > 0 {
        let b = lemma_best_topic_index(c);
        lemma_topic_counts_first_use(msgs);
        assert forall|k: int| 0 <= k < c.len() && (#[trigger] c[k]).1 == c[b].1 implies first_use(msgs, c[b].0) <= first_use(
            msgs,
            c[k].0,
        ) by {
            if k < b {
                assert(c[k].1 < c[b].1);
            } else if b < k {
                assert(first_use(msgs, c[b].0) < first_use(msgs, c[k].0));
            }
        }
    }
}

/// A stream bucket's dominant topic, shown only when the bucket spans more
/// than one topic and the winner is a real one.
pub open spec fn dominant_topic(msgs: Seq<ZulipMessage>) -> Option<Seq<char>> {
    dominant_of_counts(topic_counts(msgs))
}

pub open spec fn dominant_of_counts(c: Seq<(Seq<char>, nat)>) -> Option<Seq<char>> {
    if c.len() > 1 {
        match best_topic(c) {
            Some(x) => if x.0 == "(no topic)"@ {
                None
            } else {
                Some(x.0)
            },
            None => None,
        }
    } else {
        None
    }
}

pub open spec fn count_names(c: Seq<(Seq<char>, nat)>) -> Seq<Seq<char>> {
    c.map_values(|p: (Seq<char>, nat)| p.0)
}

pub open spec fn email_text(r: Recipient) -> Seq<char> {
    match r.email {
        Some(e) => e@,
        None => Seq::empty(),
    }
}

/// Partner names of recipients `rs` added to `acc`: named recipients other
/// than the sender, each name once.
pub open spec fn add_names(acc: Seq<Seq<char>>, rs: Seq<Recipient>, sender: Seq<char>) -> Seq<Seq<char>>
    decreases rs.len(),
{
    if rs.len() == 0 {
        acc
    } else {
        let a = add_names(acc, rs.drop_last(), sender);
        let r = rs.last();
        match r.full_name {
            Some(n) => if lower_seq(email_text(r)) == lower_seq(sender) || a.contains(n@) {
                a
            } else {
                a.push(n@)
            },
            None => a,
        }
    }
}

/// A DM bucket's partner names, in order of appearance.
pub open spec fn dm_names(msgs: Seq<ZulipMessage>, sender: Seq<char>) -> Seq<Seq<char>>
    decreases msgs.len(),
{
    if msgs.len() == 0 {
        Seq::empty()
    } else {
        add_names(dm_names(msgs.drop_last(), sender), recipients_of(msgs.last().display_recipient), sender)
    }
}

pub open spec fn message_noun(count: nat) -> Seq<char> {
    if count == 1 {
        "message"@
    } else {
        "messages"@
    }
}

pub open spec fn is_dm_key(key: Seq<char>) -> bool {
    "__dm__"@.is_prefix_of(key)
}

/// The presence window `(HH:MM–HH:MM)` of a bucket with messages at more
/// than one instant.
pub open spec fn bucket_span(msgs: Seq<ZulipMessage>, time: Seq<char>, last_time: Seq<char>) -> Seq<char> {
    if msgs.len() > 1 && msgs.last().timestamp != msgs[0].timestamp {
        " ("@ + time + "\u{2013}"@ + last_time + ")"@
    } else {
        Seq::empty()
    }
}

pub open spec fn bucket_title(key: Seq<char>, msgs: Seq<ZulipMessage>, sender: Seq<char>, time: Seq<char>, last_time: Seq<char>) -> Seq<char> {
    let count = crate::text::decimal(msgs.len());
    let noun = message_noun(msgs.len());
    let head = if is_dm_key(key) {
        let names = joined_texts(dm_names(msgs, sender), ", "@);
        if names.len() == 0 {
            "Sent "@ + count + " direct "@ + noun
        } else {
            "Sent "@ + count + " direct "@ + noun + " to "@ + names
        }
    } else {
        "Sent "@ + count + " "@ + noun + " in #"@ + key
    };
    let topic = if is_dm_key(key) {
        Seq::empty()
    } else {
        match dominant_topic(msgs) {
            Some(t) => " \u{b7} "@ + t,
            None => Seq::empty(),
        }
    };
    head + topic + bucket_span(msgs, time, last_time)
}

pub open spec fn bucket_url(realm: Seq<char>, key: Seq<char>, msgs: Seq<ZulipMessage>) -> Seq<char> {
    let first = msgs[0];
    let first_id = crate::text::decimal(first.id as nat);
    if is_dm_key(key) {
        realm + "/#narrow/near/"@ + first_id
    } else {
        let segment = match first.stream_id {
            Some(sid) => crate::text::decimal(sid as nat) + "-"@ + zulip_encoded(key),
            None => zulip_encoded(key),
        };
        let first_topic = match first.subject {
            Some(t) => t@,
            None => Seq::empty(),
        };
        realm + "/#narrow/stream/"@ + segment + "/topic/"@ + zulip_encoded(first_topic) + "/near/"@
            + first_id
    }
}

pub open spec fn bucket_id(key: Seq<char>, day_text: Seq<char>) -> Seq<char> {
    if is_dm_key(key) {
        let conversation = match crate::text::without_prefix(key, "__dm__:"@) {
            Some(c) => c,
            None => "self"@,
        };
        "zulip:dm:"@ + day_text + ":"@ + conversation
    } else {
        "zulip:stream:"@ + key + ":"@ + day_text
    }
}

/// A stream bucket lists all its topics; a DM bucket names its partners in
/// the title and has no detail.
pub open spec fn bucket_detail(key: Seq<char>, msgs: Seq<ZulipMessage>) -> Option<Seq<char>> {
    if is_dm_key(key) {
        None
    } else {
        Some(joined_texts(count_names(topic_counts(msgs)), ", "@))
    }
}

fn topic_text(m: &ZulipMessage) -> (r: Vec<char>)
    ensures
        r@ == topic_of(*m),
{
    match &m.subject {
        Some(s) => chars_of(s.as_str()),
        None => chars_of("(no topic)"),
    }
}

pub open spec fn counts_view(c: Seq<(Vec<char>, usize)>) -> Seq<(Seq<char>, nat)> {
    c.map_values(|p: (Vec<char>, usize)| (p.0@, p.1 as nat))
}

fn count_topics(msgs: &Vec<ZulipMessage>) -> (c: Vec<(Vec<char>, usize)>)
    ensures
        counts_view(c@) == topic_counts(msgs@),
{
    let mut c: Vec<(Vec<char>, usize)> = Vec::new();
    let mut i: usize = 0;
    while i < msgs.len()
        invariant
            i <= msgs.len(),
            counts_view(c@) == topic_counts(msgs@.take(i as int)),
            forall|j: int| 0 <= j < c.len() ==> (#[trigger] c@[j]).1 <= i,
        decreases msgs.len() - i,
    {
        assert(msgs@.take(i + 1).drop_last() =~= msgs@.take(i as int));
        let t = topic_text(&msgs[i]);
        let ghost cv = counts_view(c@);
        let mut j: usize = 0;
        assert(cv.take(0).len() == 0);
        while j < c.len() && !crate::text::same_chars(&c[j].0, &t)
            invariant
                j <= c.len(),
                cv == counts_view(c@),
                topic_index(cv.take(j as int), t@) == j,
                forall|k: int| 0 <= k < j ==> cv[k].0 != t@,
            decreases c.len() - j,
        {
            assert(cv[j as int] == (c@[j as int].0@, c@[j as int].1 as nat));
            assert(cv.take(j + 1).drop_last() =~= cv.take(j as int));
            j += 1;
        }
        proof {
            lemma_topic_index(cv, t@);
            if j < c.len() {
                assert(cv[j as int] == (c@[j as int].0@, c@[j as int].1 as nat));
                assert(cv.take(j + 1).drop_last() =~= cv.take(j as int));
                assert(topic_index(cv.take(j + 1), t@) == j);
                lemma_topic_prefix(cv, t@, j + 1);
            } else {
                assert(cv.take(j as int) =~= cv);
            }
        }
        if j < c.len() {
            let (name, k) = c.remove(j);
            c.insert(j, (name, k + 1));
            assert(counts_view(c@) =~= cv.update(j as int, (t@, cv[j as int].1 + 1)));
        } else {
            c.push((t, 1));
            assert(counts_view(c@) =~= cv.push((t@, 1)));
        }
        i += 1;
    }
    assert(msgs@.take(msgs.len() as int) =~= msgs@);
    c
}

proof fn lemma_topic_prefix(c: Seq<(Seq<char>, nat)>, t: Seq<char>, k: int)
    requires
        0 <= k <= c.len(),
        topic_index(c.take(k), t) < k,
    ensures
        topic_index(c, t) == topic_index(c.take(k), t),
    decreases c.len() - k,
{
    if k < c.len() {
        assert(c.take(k + 1).drop_last() =~= c.take(k));
        lemma_topic_prefix(c, t, k + 1);
    } else {
        assert(c.take(k) =~= c);
    }
}

fn pick_dominant(c: &Vec<(Vec<char>, usize)>) -> (r: Option<Vec<char>>)
    ensures
        match r {
            Some(t) => dominant_of_counts(counts_view(c@)) == Some(t@),
            None => dominant_of_counts(counts_view(c@)) is None,
        },
{
    let ghost cv = counts_view(c@);
    if c.len() <= 1 {
        return None;
    }
    let mut best: usize = 0;
    let mut i: usize = 1;
    assert(cv.take(1).drop_last() =~= cv.take(0));
    assert(best_topic(cv.take(0)) is None);
    assert(cv.take(1).last() == cv[0]);
    while i < c.len()
        invariant
            1 <= i <= c.len(),
            best < i,
            cv == counts_view(c@),
            best_topic(cv.take(i as int)) == Some(cv[best as int]),
        decreases c.len() - i,
    {
        assert(cv.take(i + 1).drop_last() =~= cv.take(i as int));
        assert(cv[i as int] == (c@[i as int].0@, c@[i as int].1 as nat));
        assert(cv[best as int] == (c@[best as int].0@, c@[best as int].1 as nat));
        if c[i].1 > c[best].1 {
            best = i;
        }
        i += 1;
    }
    assert(cv.take(c.len() as int) =~= cv);
    assert(cv[best as int] == (c@[best as int].0@, c@[best as int].1 as nat));
    let name = &c[best].0;
    let none_label = chars_of("(no topic)");
    if crate::text::same_chars(name, &none_label) {
        None
    } else {
        let mut out: Vec<char> = Vec::new();
        let mut k: usize = 0;
        while k < name.len()
            invariant
                k <= name.len(),
                out@ == name@.take(k as int),
            decreases name.len() - k,
        {
            out.push(name[k]);
            assert(name@.take(k + 1) =~= name@.take(k as int).push(name@[k as int]));
            k += 1;
        }
        assert(name@.take(name.len() as int) =~= name@);
        Some(out)
    }
}

fn names_contain(v: &Vec<Vec<char>>, x: &Vec<char>) -> (b: bool)
    ensures
        b == texts_of(v@).contains(x@),
{
    contains_chars_vec(v, x)
}

fn collect_dm_names(msgs: &Vec<ZulipMessage>, sender_email: &str) -> (r: Vec<Vec<char>>)
    ensures
        texts_of(r@) == dm_names(msgs@, sender_email@),
{
    let sender = chars_of(sender_email);
    let mut names: Vec<Vec<char>> = Vec::new();
    let mut i: usize = 0;
    while i < msgs.len()
        invariant
            i <= msgs.len(),
            sender@ == sender_email@,
            texts_of(names@) == dm_names(msgs@.take(i as int), sender_email@),
        decreases msgs.len() - i,
    {
        assert(msgs@.take(i + 1).drop_last() =~= msgs@.take(i as int));
        let ghost acc = texts_of(names@);
        match &msgs[i].display_recipient {
            DisplayRecipient::Users(rs) => {
                let mut k: usize = 0;
                while k < rs.len()
                    invariant
                        k <= rs.len(),
                        sender@ == sender_email@,
                        texts_of(names@) == add_names(acc, rs@.take(k as int), sender_email@),
                    decreases rs.len() - k,
                {
                    assert(rs@.take(k + 1).drop_last() =~= rs@.take(k as int));
                    let r = &rs[k];
                    match &r.full_name {
                        Some(n) => {
                            let ev = match &r.email {
                                Some(e) => chars_of(e.as_str()),
                                None => Vec::new(),
                            };
                            assert(ev@ == email_text(*r));
                            let nv = chars_of(n.as_str());
                            if !eq_ignore_case_chars(&ev, &sender) && !names_contain(&names, &nv) {
                                names.push(nv);
                                assert(texts_of(names@) =~= add_names(acc, rs@.take(k as int), sender_email@).push(n@));
                            }
                        },
                        None => {},
                    }
                    k += 1;
                }
                assert(rs@.take(rs.len() as int) =~= rs@);
            },
            _ => {
                assert(add_names(acc, recipients_of(msgs@[i as int].display_recipient), sender_email@) == acc);
            },
        }
        i += 1;
    }
    assert(msgs@.take(msgs.len() as int) =~= msgs@);
    names
}

fn topic_names(c: &Vec<(Vec<char>, usize)>) -> (r: Vec<Vec<char>>)
    ensures
        texts_of(r@) == count_names(counts_view(c@)),
{
    let mut r: Vec<Vec<char>> = Vec::new();
    let mut i: usize = 0;
    while i < c.len()
        invariant
            i <= c.len(),
            texts_of(r@) == count_names(counts_view(c@)).take(i as int),
        decreases c.len() - i,
    {
        let src = &c[i].0;
        let mut out: Vec<char> = Vec::new();
        let mut k: usize = 0;
        while k < src.len()
            invariant
                k <= src.len(),
                out@ == src@.take(k as int),
            decreases src.len() - k,
        {
            out.push(src[k]);
            assert(src@.take(k + 1) =~= src@.take(k as int).push(src@[k as int]));
            k += 1;
        }
        assert(src@.take(src.len() as int) =~= src@);
        let ghost old_r = r@;
        let ghost out_v = out@;
        r.push(out);
        let ghost names = count_names(counts_view(c@));
        assert(counts_view(c@)[i as int] == (c@[i as int].0@, c@[i as int].1 as nat));
        assert(names[i as int] == c@[i as int].0@);
        assert(texts_of(r@) =~= texts_of(old_r).push(out_v));
        assert(names.take(i + 1) =~= names.take(i as int).push(names[i as int]));
        assert(texts_of(r@) =~= count_names(counts_view(c@)).take(i + 1));
        i += 1;
    }
    assert(count_names(counts_view(c@)).take(c.len() as int) =~= count_names(counts_view(c@)));
    r
}

/// The timeline row of one bucket (`msgs` in time order), whose first and
/// last messages read `time` and `last_time` on the local clock, on the
/// local day `day` written `day_text`.
pub fn bucket_event(
    realm: &str,
    sender_email: &str,
    day: i32,
    day_text: &str,
    key: &str,
    msgs: &Vec<ZulipMessage>,
    time: &str,
    last_time: &str,
) -> (row: crate::range::Row)
    requires
        msgs.len() > 0,
    ensures
        row.0 == day,
        row.1 == msgs@[0].timestamp,
        row.2.timestamp == msgs@[0].timestamp,
        row.2.time@ == time@,
        row.2.source == crate::timeline::TimelineEventSource::Zulip,
        row.2.id@ == bucket_id(key@, day_text@),
        row.2.title@ == bucket_title(key@, msgs@, sender_email@, time@, last_time@),
        crate::timeline::text_of(row.2.detail) == bucket_detail(key@, msgs@),
        crate::timeline::text_of(row.2.url) == crate::timeline::sanitized_url(bucket_url(realm@, key@, msgs@)),
{
    let count = msgs.len();
    let first = &msgs[0];
    let earliest = first.timestamp;
    let last = msgs[count - 1].timestamp;
    let kv = chars_of(key);
    let dm_prefix = chars_of("__dm__");
    let is_dm = crate::text::starts_with_chars(&kv, &dm_prefix);
    let noun = if count == 1 {
        "message"
    } else {
        "messages"
    };
    let count_text = crate::text::decimal_string(count as u64);
    let mut title = String::from_str("Sent ");
    title.append(count_text.as_str());
    if is_dm {
        title.append(" direct ");
        title.append(noun);
        let names = collect_dm_names(msgs, sender_email);
        let joined = join_char_texts(&names, ", ");
        if !joined.as_str().is_empty() {
            title.append(" to ");
            title.append(joined.as_str());
        }
    } else {
        title.append(" ");
        title.append(noun);
        title.append(" in #");
        title.append(key);
    }
    let counts = count_topics(msgs);
    if !is_dm {
        match pick_dominant(&counts) {
            Some(t) => {
                title.append(" \u{b7} ");
                let ts = string_of(&t);
                title.append(ts.as_str());
            },
            None => {},
        }
    }
    if count > 1 && last != earliest {
        title.append(" (");
        title.append(time);
        title.append("\u{2013}");
        title.append(last_time);
        title.append(")");
    }
    let detail = if is_dm {
        None
    } else {
        let names = topic_names(&counts);
        Some(join_char_texts(&names, ", "))
    };
    let first_id = crate::text::decimal_string(first.id);
    proof {
        reveal_strlit("");
        assert(""@ =~= Seq::<char>::empty());
    }
    let mut url = realm.to_owned();
    if is_dm {
        url.append("/#narrow/near/");
        url.append(first_id.as_str());
    } else {
        let encoded_key = zulip_encode(key);
        let segment = match first.stream_id {
            Some(sid) => {
                let mut seg = crate::text::decimal_string(sid);
                seg.append("-");
                seg.append(encoded_key.as_str());
                seg
            },
            None => encoded_key,
        };
        let first_topic: &str = match &first.subject {
            Some(t) => t.as_str(),
            None => "",
        };
        url.append("/#narrow/stream/");
        url.append(segment.as_str());
        url.append("/topic/");
        let et = zulip_encode(first_topic);
        url.append(et.as_str());
        url.append("/near/");
        url.append(first_id.as_str());
    }
    let mut id = String::new();
    if is_dm {
        id.append("zulip:dm:");
        id.append(day_text);
        id.append(":");
        match crate::text::strip_prefix_str(key, "__dm__:") {
            Some(c) => id.append(c),
            None => id.append("self"),
        }
    } else {
        id.append("zulip:stream:");
        id.append(key);
        id.append(":");
        id.append(day_text);
    }
    proof {
        reveal_strlit("");
    }
    let ghost t = bucket_title(key@, msgs@, sender_email@, time@, last_time@);
    assert(title@ =~= t);
    assert(url@ =~= bucket_url(realm@, key@, msgs@));
    assert(id@ =~= bucket_id(key@, day_text@));
    let safe = crate::timeline::sanitize_event_url(url.as_str());
    (
        day,
        earliest,
        crate::timeline::TimelineEvent {
            id,
            time: time.to_owned(),
            timestamp: earliest,
            source: crate::timeline::TimelineEventSource::Zulip,
            title,
            detail,
            url: safe,
        },
    )
}

// ---------------------------------------------------------------------------
// Assembling a range
// ---------------------------------------------------------------------------

pub open spec fn timed(msgs: Seq<ZulipMessage>) -> Seq<(i64, ZulipMessage)> {
    msgs.map_values(|m: ZulipMessage| (m.timestamp, m))
}

pub open spec fn untimed(s: Seq<(i64, ZulipMessage)>) -> Seq<ZulipMessage> {
    s.map_values(|p: (i64, ZulipMessage)| p.1)
}

/// Messages ordered by time, ties keeping their order.
pub open spec fn messages_by_time(msgs: Seq<ZulipMessage>) -> Seq<ZulipMessage> {
    untimed(crate::sorting::sort_by_ts(timed(msgs)))
}

pub fn sort_messages(msgs: Vec<ZulipMessage>) -> (out: Vec<ZulipMessage>)
    ensures
        out@ == messages_by_time(msgs@),
        out.len() == msgs.len(),
{
    let ghost input = msgs@;
    let mut rest = msgs;
    let mut pairs: Vec<(i64, ZulipMessage)> = Vec::new();
    let n = rest.len();
    while rest.len() > 0
        invariant
            pairs.len() + rest.len() == n == input.len(),
            rest@ == input.subrange(pairs.len() as int, n as int),
            pairs@ == timed(input.take(pairs.len() as int)),
        decreases rest.len(),
    {
        let ghost k = pairs.len();
        let m = rest.remove(0);
        assert(m == input[k as int]);
        pairs.push((m.timestamp, m));
        assert(pairs@ =~= timed(input.take(k + 1)));
        assert(rest@ =~= input.subrange(k + 1, n as int));
    }
    assert(input.take(n as int) =~= input);
    let sorted = crate::sorting::sort_rows_by_ts(pairs);
    proof {
        crate::sorting::lemma_sort_by_ts_ascending(timed(input));
    }
    let ghost sv = sorted@;
    let mut rest2 = sorted;
    let mut out: Vec<ZulipMessage> = Vec::new();
    let m2 = rest2.len();
    while rest2.len() > 0
        invariant
            out.len() + rest2.len() == m2 == sv.len(),
            rest2@ == sv.subrange(out.len() as int, m2 as int),
            out@ == untimed(sv.take(out.len() as int)),
        decreases rest2.len(),
    {
        let ghost k = out.len();
        let p = rest2.remove(0);
        assert(p == sv[k as int]);
        out.push(p.1);
        assert(out@ =~= untimed(sv.take(k + 1)));
        assert(rest2@ =~= sv.subrange(k + 1, m2 as int));
    }
    assert(sv.take(m2 as int) =~= sv);
    out
}

/// The local day of each message; `None` where chrono cannot place it.
/// Depends on the machine's time zone.
pub fn message_days(msgs: &Vec<ZulipMessage>) -> (days: Vec<Option<i32>>)
    ensures
        days.len() == msgs.len(),
        forall|i: int| 0 <= i < days.len() ==> ((#[trigger] days@[i]) is Some <==> crate::clock::placeable(msgs@[i].timestamp)),
        forall|i: int| 0 <= i < days.len() ==> ((#[trigger] days@[i]) matches Some(d) ==> crate::clock::chrono_day(d)),
        forall|i: int|
            0 <= i < days.len() ==> ((#[trigger] days@[i]) matches Some(d) ==> crate::clock::on_local_day(msgs@[i].timestamp as int, d as int)),
{
    let mut days: Vec<Option<i32>> = Vec::new();
    let mut i: usize = 0;
    while i < msgs.len()
        invariant
            i <= msgs.len(),
            days.len() == i,
            forall|k: int| 0 <= k < days.len() ==> ((#[trigger] days@[k]) is Some <==> crate::clock::placeable(msgs@[k].timestamp)),
            forall|k: int| 0 <= k < days.len() ==> ((#[trigger] days@[k]) matches Some(d) ==> crate::clock::chrono_day(d)),
            forall|k: int|
                0 <= k < days.len() ==> ((#[trigger] days@[k]) matches Some(d) ==> crate::clock::on_local_day(msgs@[k].timestamp as int, d as int)),
        decreases msgs.len() - i,
    {
        let d = match crate::clock::local_clock(msgs[i].timestamp) {
            Some(c) => Some(c.day),
            None => None,
        };
        let ghost before = days@;
        days.push(d);
        assert forall|k: int| 0 <= k < days.len() implies ((#[trigger] days@[k]) is Some <==> crate::clock::placeable(msgs@[k].timestamp))
            && (days@[k] matches Some(d) ==> crate::clock::chrono_day(d))
            && (days@[k] matches Some(d) ==> crate::clock::on_local_day(msgs@[k].timestamp as int, d as int)) by {
            if k < before.len() {
                assert(days@[k] == before[k]);
            }
        }
        i += 1;
    }
    days
}

fn local_hhmm(ts: i64) -> (r: Result<String, String>)
    ensures
        r is Ok <==> crate::clock::placeable(ts),
        r matches Ok(t) ==> exists|c: crate::clock::LocalClock| #[trigger] crate::clock::reads(c, ts) && t@ == c.hhmm@,
        r matches Err(m) ==> m@ == "invalid timestamp "@ + crate::text::signed_decimal(ts as int),
{
    match crate::clock::local_clock(ts) {
        Some(c) => Ok(c.hhmm),
        None => {
            let mut m = String::from_str("invalid timestamp ");
            let t = crate::text::signed_decimal_string(ts);
            m.append(t.as_str());
            Err(m)
        },
    }
}

/// Every bucket holds at least one message.
proof fn lemma_grouped_nonempty(msgs: Seq<ZulipMessage>, days: Seq<Option<i32>>, sender: Seq<char>)
    ensures
        forall|k: int| 0 <= k < grouped(msgs, days, sender).len() ==> (#[trigger] grouped(msgs, days, sender)[k]).2.len() > 0,
    decreases msgs.len(),
{
    if msgs.len() > 0 {
        lemma_grouped_nonempty(msgs.drop_last(), days, sender);
        let bs = grouped(msgs.drop_last(), days, sender);
        match days[msgs.len() - 1] {
            None => {},
            Some(d) => {
                let key = bucket_key(msgs.last(), sender);
                lemma_bucket_index(bs, d, key);
                let g = grouped(msgs, days, sender);
                assert forall|k: int| 0 <= k < g.len() implies (#[trigger] g[k]).2.len() > 0 by {
                    if k < bs.len() {
                        assert(bs[k].2.len() > 0);
                    }
                }
            },
        }
    }
}

/// Every day assigned is one of chrono's dates, and a message gets a day
/// only when chrono can place its instant.
pub open spec fn days_placed(msgs: Seq<ZulipMessage>, days: Seq<Option<i32>>) -> bool {
    forall|i: int|
        0 <= i < msgs.len() ==> ((#[trigger] days[i]) matches Some(d) ==> crate::clock::chrono_day(d)
            && crate::clock::placeable(msgs[i].timestamp))
}

/// With placed days, every bucket's day is one of chrono's dates and every
/// message in it has an instant chrono can place.
proof fn lemma_grouped_placed(msgs: Seq<ZulipMessage>, days: Seq<Option<i32>>, sender: Seq<char>)
    requires
        days_placed(msgs, days),
    ensures
        forall|k: int| 0 <= k < grouped(msgs, days, sender).len() ==> crate::clock::chrono_day(#[trigger] grouped(msgs, days, sender)[k].0),
        forall|k: int, j: int|
            0 <= k < grouped(msgs, days, sender).len() && 0 <= j < grouped(msgs, days, sender)[k].2.len()
                ==> crate::clock::placeable(#[trigger] grouped(msgs, days, sender)[k].2[j].timestamp),
    decreases msgs.len(),
{
    if msgs.len() > 0 {
        let prefix = msgs.drop_last();
        assert forall|i: int| 0 <= i < prefix.len() implies ((#[trigger] days[i]) matches Some(d) ==> crate::clock::chrono_day(d)
            && crate::clock::placeable(prefix[i].timestamp)) by {
            assert(prefix[i] == msgs[i]);
        }
        lemma_grouped_placed(prefix, days, sender);
        let bs = grouped(prefix, days, sender);
        let n = msgs.len() - 1;
        assert(days[n] matches Some(d) ==> crate::clock::chrono_day(d) && crate::clock::placeable(msgs[n].timestamp));
        match days[n] {
            None => {},
            Some(d) => {
                let key = bucket_key(msgs.last(), sender);
                lemma_bucket_index(bs, d, key);
                let g = grouped(msgs, days, sender);
                let i = bucket_index(bs, d, key);
                assert forall|k: int| 0 <= k < g.len() implies crate::clock::chrono_day(#[trigger] g[k].0) by {
                    if k < bs.len() && k != i {
                        assert(g[k] == bs[k]);
                    }
                }
                assert forall|k: int, j: int| 0 <= k < g.len() && 0 <= j < g[k].2.len()
                    implies crate::clock::placeable(#[trigger] g[k].2[j].timestamp) by {
                    if k < bs.len() && k != i {
                        assert(g[k] == bs[k]);
                    } else if k == i && i < bs.len() {
                        if j < bs[k].2.len() {
                            assert(g[k].2[j] == bs[k].2[j]);
                        } else {
                            assert(g[k].2[j] == msgs.last());
                        }
                    } else {
                        assert(g[k].2[j] == msgs.last());
                    }
                }
            },
        }
    }
}

/// The messages ordered by time are the same messages.
proof fn lemma_messages_by_time_members(msgs: Seq<ZulipMessage>)
    ensures
        messages_by_time(msgs).len() == msgs.len(),
        forall|i: int|
            0 <= i < msgs.len() ==> exists|j: int| 0 <= j < msgs.len() && #[trigger] messages_by_time(msgs)[i] == msgs[j],
{
    let t = timed(msgs);
    crate::sorting::lemma_sort_by_ts_ascending(t);
    crate::sorting::lemma_sort_by_ts_perm(t);
    let s = crate::sorting::sort_by_ts(t);
    assert forall|i: int| 0 <= i < msgs.len() implies exists|j: int| 0 <= j < msgs.len() && #[trigger] messages_by_time(msgs)[i] == msgs[j] by {
        vstd::seq_lib::to_multiset_contains(s, s[i]);
        vstd::seq_lib::to_multiset_contains(t, s[i]);
        assert(s.contains(s[i]));
        assert(t.to_multiset().count(s[i]) > 0);
        let j = choose|j: int| 0 <= j < t.len() && t[j] == s[i];
        assert(messages_by_time(msgs)[i] == s[i].1);
        assert(t[j].1 == msgs[j]);
    }
}

/// Whether `row` is the row of bucket `b` (as `bucket_event` lays it out):
/// its messages in time order, the bucket's local day written as
/// `YYYY-MM-DD`, and some local clock readings of its first and last
/// message.
pub open spec fn bucket_row(row: crate::range::Row, b: BucketView, realm: Seq<char>, sender: Seq<char>) -> bool {
    let msgs = messages_by_time(b.2);
    &&& msgs.len() > 0
    &&& row.0 == b.0
    &&& row.1 == msgs[0].timestamp
    &&& row.2.timestamp == msgs[0].timestamp
    &&& row.2.source == crate::timeline::TimelineEventSource::Zulip
    &&& crate::clock::formatted_day(b.0, "%Y-%m-%d"@) is Some
    &&& row.2.id@ == bucket_id(b.1, crate::clock::formatted_day(b.0, "%Y-%m-%d"@)->0)
    &&& exists|first: crate::clock::LocalClock, last: crate::clock::LocalClock|
        #![trigger crate::clock::reads(first, msgs[0].timestamp), crate::clock::reads(last, msgs.last().timestamp)]
        crate::clock::reads(first, msgs[0].timestamp) && crate::clock::reads(last, msgs.last().timestamp)
            && row.2.time@ == first.hhmm@ && row.2.title@ == bucket_title(b.1, msgs, sender, first.hhmm@, last.hhmm@)
    &&& crate::timeline::text_of(row.2.detail) == bucket_detail(b.1, msgs)
    &&& crate::timeline::text_of(row.2.url) == crate::timeline::sanitized_url(bucket_url(realm, b.1, msgs))
}

/// `row` is the row of one of the buckets `bs`.
pub open spec fn row_of_some_bucket(row: crate::range::Row, bs: Seq<BucketView>, realm: Seq<char>, sender: Seq<char>) -> bool {
    exists|k: int| 0 <= k < bs.len() && bucket_row(row, #[trigger] bs[k], realm, sender)
}

/// Bucket `b` has a row among `rows`.
pub open spec fn bucket_shown(rows: Seq<crate::range::Row>, b: BucketView, realm: Seq<char>, sender: Seq<char>) -> bool {
    exists|i: int| 0 <= i < rows.len() && bucket_row(#[trigger] rows[i], b, realm, sender)
}

/// `rows` are the rows of the buckets of `msgs` grouped by their local days
/// (a message gets one exactly when its instant lies a day inside chrono's
/// range, and it is the instant's day on a clock less than a day off UTC),
/// one row per bucket.
pub open spec fn zulip_rows_of(rows: Seq<crate::range::Row>, msgs: Seq<ZulipMessage>, realm: Seq<char>, sender: Seq<char>) -> bool {
    exists|days: Seq<Option<i32>>|
        #![trigger grouped(msgs, days, sender)]
        days.len() == msgs.len() && (forall|i: int|
            0 <= i < days.len() ==> ((#[trigger] days[i]) is Some <==> crate::clock::placeable(msgs[i].timestamp)))
            && (forall|i: int|
            0 <= i < days.len() ==> ((#[trigger] days[i]) matches Some(d) ==> crate::clock::on_local_day(msgs[i].timestamp as int, d as int)))
            && rows.len() == grouped(msgs, days, sender).len() && (forall|i: int|
            0 <= i < rows.len() ==> row_of_some_bucket(#[trigger] rows[i], grouped(msgs, days, sender), realm, sender))
            && (forall|k: int|
            0 <= k < grouped(msgs, days, sender).len() ==> bucket_shown(rows, #[trigger] grouped(msgs, days, sender)[k], realm, sender))
}

/// The rows for the messages in the window: one per local day and
/// conversation, ordered by time, each stated through `bucket_row`. Days and
/// clock times are the messages' instants read on the local clock (less
/// than a day off UTC).
pub fn zulip_rows(realm: &str, sender_email: &str, in_window: Vec<ZulipMessage>) -> (r: Result<Vec<crate::range::Row>, String>)
    ensures
        r is Ok,
        r matches Ok(rows) ==> forall|i: int, j: int|
            0 <= i <= j < rows.len() ==> (#[trigger] rows@[i]).1 <= (#[trigger] rows@[j]).1,
        r matches Ok(rows) ==> zulip_rows_of(rows@, in_window@, realm@, sender_email@),
{
    let ghost msgs = in_window@;
    let days = message_days(&in_window);
    let mut buckets = group_messages(in_window, &days, sender_email);
    let ghost bs = grouped(msgs, days@, sender_email@);
    proof {
        lemma_grouped_nonempty(msgs, days@, sender_email@);
        lemma_grouped_placed(msgs, days@, sender_email@);
    }
    let n = buckets.len();
    let mut rows: Vec<crate::range::Row> = Vec::new();
    while buckets.len() > 0
        invariant
            rows.len() + buckets.len() == n == bs.len(),
            bucket_views(buckets@) == bs.subrange(rows.len() as int, n as int),
            forall|k: int| 0 <= k < bs.len() ==> (#[trigger] bs[k]).2.len() > 0,
            forall|j: int| 0 <= j < rows.len() ==> bucket_row(#[trigger] rows@[j], bs[j], realm@, sender_email@),
            forall|k: int| 0 <= k < bs.len() ==> crate::clock::chrono_day(#[trigger] bs[k].0),
            forall|k: int, j: int|
                0 <= k < bs.len() && 0 <= j < bs[k].2.len() ==> crate::clock::placeable(#[trigger] bs[k].2[j].timestamp),
        decreases buckets.len(),
    {
        let ghost k = rows.len();
        let ghost before = buckets@;
        let b = buckets.remove(0);
        assert(bucket_view(b) == bucket_views(before)[0]);
        assert(bucket_view(b) == bs[k as int]);
        assert(bucket_views(buckets@) =~= bs.subrange(k + 1, n as int)) by {
            assert forall|t: int| 0 <= t < buckets@.len() implies bucket_views(buckets@)[t] == bs.subrange(k + 1, n as int)[t] by {
                assert(buckets@[t] == before[t + 1]);
                assert(bucket_views(before)[t + 1] == bucket_view(before[t + 1]));
                assert(bucket_views(before)[t + 1] == bs.subrange(k as int, n as int)[t + 1]);
            }
        }
        let msgs_b = sort_messages(b.messages);
        proof {
            lemma_messages_by_time_members(b.messages@);
            let first = choose|j: int| 0 <= j < b.messages@.len() && messages_by_time(b.messages@)[0] == b.messages@[j];
            assert(b.messages@[first] == bs[k as int].2[first]);
            let last = msgs_b.len() - 1;
            let lj = choose|j: int| 0 <= j < b.messages@.len() && messages_by_time(b.messages@)[last] == b.messages@[j];
            assert(b.messages@[lj] == bs[k as int].2[lj]);
            assert(crate::clock::chrono_day(bs[k as int].0));
        }
        let time = match local_hhmm(msgs_b[0].timestamp) {
            Ok(t) => t,
            Err(m) => return Err(m),
        };
        let last_time = match local_hhmm(msgs_b[msgs_b.len() - 1].timestamp) {
            Ok(t) => t,
            Err(m) => return Err(m),
        };
        proof {
            reveal_strlit("%Y-%m-%d");
            assert("%Y-%m-%d"@ =~= crate::clock::iso_format());
        }
        let day_text = match crate::clock::format_day(b.day, "%Y-%m-%d") {
            Some(t) => t,
            None => return Err(String::from_str("invalid day")),
        };
        let row = bucket_event(realm, sender_email, b.day, day_text.as_str(), b.key.as_str(), &msgs_b, time.as_str(), last_time.as_str());
        assert(bucket_row(row, bs[k as int], realm@, sender_email@)) by {
            let c1 = choose|c: crate::clock::LocalClock| #[trigger] crate::clock::reads(c, msgs_b@[0].timestamp) && time@ == c.hhmm@;
            let c2 = choose|c: crate::clock::LocalClock|
                #[trigger] crate::clock::reads(c, msgs_b@[msgs_b.len() - 1].timestamp) && last_time@ == c.hhmm@;
            assert(msgs_b@.last() == msgs_b@[msgs_b.len() - 1]);
            assert(row.2.title@ == bucket_title(b.key@, msgs_b@, sender_email@, c1.hhmm@, c2.hhmm@));
        }
        let ghost old_rows = rows@;
        rows.push(row);
        assert forall|j: int| 0 <= j < rows.len() implies bucket_row(#[trigger] rows@[j], bs[j], realm@, sender_email@) by {
            if j < old_rows.len() {
                assert(rows@[j] == old_rows[j]);
            }
        }
    }
    let ghost unsorted = rows@;
    let sorted = crate::range::sort_rows_by_time(rows);
    proof {
        crate::range::lemma_rows_by_time(unsorted);
        let out = crate::range::rows_by_time(unsorted);
        assert forall|i: int| 0 <= i < sorted.len() implies row_of_some_bucket(#[trigger] sorted@[i], bs, realm@, sender_email@) by {
            let j = choose|j: int| 0 <= j < unsorted.len() && out[i] == unsorted[j];
            assert(bucket_row(unsorted[j], bs[j], realm@, sender_email@));
        }
        assert forall|k: int| 0 <= k < bs.len() implies bucket_shown(sorted@, #[trigger] bs[k], realm@, sender_email@) by {
            vstd::seq_lib::to_multiset_contains(unsorted, unsorted[k]);
            vstd::seq_lib::to_multiset_contains(out, unsorted[k]);
            assert(unsorted.contains(unsorted[k]));
            let i = choose|i: int| 0 <= i < out.len() && out[i] == unsorted[k];
            assert(bucket_row(sorted@[i], bs[k], realm@, sender_email@));
        }
        assert(zulip_rows_of(sorted@, msgs, realm@, sender_email@)) by {
            assert(days@.len() == msgs.len());
        }
    }
    Ok(sorted)
}

// ---------------------------------------------------------------------------
// Requests
// ---------------------------------------------------------------------------

/// The realm (normalised), email and API key (trimmed) to fetch with;
/// `None` when Zulip is off or any of them is empty.
pub fn zulip_credentials(enabled: bool, realm_url: &str, email: &str, api_key: &str) -> (r: Option<(String, String, String)>)
    ensures
        r is Some <==> enabled && normalized_url(realm_url@).len() > 0 && trim(email@).len() > 0
            && trim(api_key@).len() > 0,
        r matches Some(c) ==> c.0@ == normalized_url(realm_url@) && c.1@ == trim(email@) && c.2@ == trim(
            api_key@,
        ),
{
    if !enabled {
        return None;
    }
    let realm = normalize_realm_url(realm_url);
    let e = trim_slice(email);
    let k = trim_slice(api_key);
    if realm.as_str().is_empty() || e.is_empty() || k.is_empty() {
        return None;
    }
    Some((realm, e.to_owned(), k.to_owned()))
}

/// Why a connection test cannot start, checked in this order.
pub fn zulip_connection_problem(realm_url: &str, email: &str, api_key: &str) -> (r: Option<String>)
    ensures
        normalized_url(realm_url@).len() == 0 ==> crate::timeline::text_of(r) == Some("Realm URL is required"@),
        normalized_url(realm_url@).len() > 0 && (trim(email@).len() == 0 || trim(api_key@).len() == 0)
            ==> crate::timeline::text_of(r) == Some("Email and API key are required"@),
        normalized_url(realm_url@).len() > 0 && trim(email@).len() > 0 && trim(api_key@).len() > 0
            ==> r is None,
{
    let realm = normalize_realm_url(realm_url);
    if realm.as_str().is_empty() {
        return Some(String::from_str("Realm URL is required"));
    }
    if trim_slice(email).is_empty() || trim_slice(api_key).is_empty() {
        return Some(String::from_str("Email and API key are required"));
    }
    None
}

/// HTTP Basic credentials for the Zulip API.
pub fn zulip_auth(email: &str, api_key: &str) -> (r: String)
    ensures
        r@ == crate::auth::basic_auth_text(email@, api_key@),
{
    crate::auth::basic_auth(email, api_key)
}

/// The narrow that selects the messages `email` sent, as JSON text:
/// `[{"operator":"sender","operand":<email as a JSON string>}]`.
pub open spec fn sender_narrow_text(email: Seq<char>) -> Seq<char> {
    "[{\"operator\":\"sender\",\"operand\":"@ + crate::json::json_string(email) + "}]"@
}

/// The narrow that selects the user's own messages, as JSON text; the
/// address is quoted and escaped by `serde_json`.
fn sender_narrow(email: &str) -> (r: String)
    ensures
        r@ == sender_narrow_text(email@),
{
    let mut r = String::from_str("[{\"operator\":\"sender\",\"operand\":");
    let q = crate::json::json_quote(email);
    r.append(q.as_str());
    r.append("}]");
    proof {
        reveal_strlit("[{\"operator\":\"sender\",\"operand\":");
        reveal_strlit("}]");
    }
    r
}

/// One page of the user's messages (those `email` sent), anchored at
/// `anchor` and going back.
pub fn messages_url(realm: &str, anchor: &str, email: &str) -> (r: String)
    ensures
        r@ == realm@ + "/api/v1/messages?anchor="@ + url_encoded(anchor@) + "&num_before="@
            + crate::text::decimal(ZULIP_PAGE_SIZE as nat) + "&num_after=0&narrow="@ + url_encoded(sender_narrow_text(email@))
            + "&apply_markdown=false"@,
{
    let narrow = sender_narrow(email);
    let mut r = realm.to_owned();
    r.append("/api/v1/messages?anchor=");
    let a = url_encode(anchor);
    r.append(a.as_str());
    r.append("&num_before=");
    let n = crate::text::decimal_string(ZULIP_PAGE_SIZE as u64);
    r.append(n.as_str());
    r.append("&num_after=0&narrow=");
    let q = url_encode(narrow.as_str());
    r.append(q.as_str());
    r.append("&apply_markdown=false");
    r
}

/// The error for an HTTP error status while fetching messages.
pub fn zulip_fetch_error(status: u16) -> (m: String)
    ensures
        m@ == "Zulip returned HTTP "@ + crate::text::decimal(status as nat) + " (check realm URL, email, and API key)"@,
{
    let mut m = String::from_str("Zulip returned HTTP ");
    let s = crate::text::decimal_string(status as u64);
    m.append(s.as_str());
    m.append(" (check realm URL, email, and API key)");
    m
}

/// The connection test's error for an HTTP error status.
pub fn zulip_connection_status_error(status: u16) -> (m: String)
    ensures
        m@ == "Zulip returned HTTP "@ + crate::text::decimal(status as nat) + " \u{2014} check realm URL, email, and API key"@,
{
    let mut m = String::from_str("Zulip returned HTTP ");
    let s = crate::text::decimal_string(status as u64);
    m.append(s.as_str());
    m.append(" \u{2014} check realm URL, email, and API key");
    m
}

/// The unix-second window `[start, end)` covering local days
/// `start_day..=end_day`: from local midnight of the first day to local
/// midnight after the last (open-ended where chrono has no such midnight).
/// Fails, naming the last day, exactly when the last day has no successor.
pub fn zulip_window(start_day: i32, end_day: i32) -> (r: Result<(i64, i64), String>)
    ensures
        r is Ok <==> (end_day < i32::MAX && crate::clock::formatted_day((end_day + 1) as i32, "%Y-%m-%d"@) is Some),
        r matches Err(m) ==> m@ == "no day after "@ + match crate::clock::formatted_day(end_day, "%Y-%m-%d"@) {
            Some(t) => t,
            None => Seq::<char>::empty(),
        },
        r matches Ok(w) ==> (!crate::clock::chrono_day(start_day) ==> w.0 == 0),
        r matches Ok(w) ==> (w.0 == 0 || crate::clock::wall_time(w.0 as int, start_day as int, 0)),
        r matches Ok(w) ==> (w.1 == i64::MAX || crate::clock::wall_time(w.1 as int, end_day + 1, 0)),
{
    let fmt = "%Y-%m-%d";
    proof {
        reveal_strlit("%Y-%m-%d");
        assert(fmt@ =~= crate::clock::iso_format());
    }
    let next_ok = end_day < i32::MAX && crate::clock::format_day(end_day + 1, fmt).is_some();
    if !next_ok {
        let mut m = String::from_str("no day after ");
        proof {
            reveal_strlit("no day after ");
        }
        match crate::clock::format_day(end_day, fmt) {
            Some(t) => m.append(t.as_str()),
            None => {
                assert(m@ =~= "no day after "@ + Seq::<char>::empty());
            },
        }
        return Err(m);
    }
    let start = match crate::clock::local_instant(start_day, 0) {
        Some(t) => t,
        None => 0,
    };
    let end = match crate::clock::local_instant(end_day + 1, 0) {
        Some(t) => t,
        None => i64::MAX,
    };
    Ok((start, end))
}


pub open spec fn distinct_ids(s: Seq<u64>) -> bool {
    forall|i: int, j: int| 0 <= i < j < s.len() ==> s[i] != s[j]
}

/// Paging keeps what was gathered and adds only messages inside the window,
/// each once: their ids were not seen before and differ from one another,
/// and the ids seen stay free of repeats.
pub proof fn lemma_absorb_window(seen: Seq<u64>, win: Seq<ZulipMessage>, msgs: Seq<ZulipMessage>, start: i64, end: i64)
    ensures
        ({
            let a = absorb(seen, win, msgs, start, end);
            &&& a.1.len() >= win.len()
            &&& a.1.subrange(0, win.len() as int) == win
            &&& seen.is_prefix_of(a.0)
            &&& (distinct_ids(seen) ==> distinct_ids(a.0))
            &&& forall|k: int| win.len() <= k < a.1.len() ==> {
                let m = #[trigger] a.1[k];
                &&& start <= m.timestamp < end
                &&& a.0.contains(m.id)
                &&& !seen.contains(m.id)
            }
            &&& forall|k1: int, k2: int| win.len() <= k1 < k2 < a.1.len() ==> (#[trigger] a.1[k1]).id != (#[trigger] a.1[k2]).id
        }),
    decreases msgs.len(),
{
    if msgs.len() == 0 {
        assert(win.subrange(0, win.len() as int) =~= win);
        assert(seen.is_prefix_of(seen));
    } else {
        lemma_absorb_window(seen, win, msgs.drop_last(), start, end);
        let (s, w, e, eid) = absorb(seen, win, msgs.drop_last(), start, end);
        let m = msgs.last();
        if !s.contains(m.id) {
            let s2 = s.push(m.id);
            assert(seen.is_prefix_of(s2)) by {
                assert forall|i: int| 0 <= i < seen.len() implies seen[i] == s2[i] by {
                    assert(seen[i] == s[i]);
                }
            }
            if distinct_ids(seen) {
                assert forall|i: int, j: int| 0 <= i < j < s2.len() implies s2[i] != s2[j] by {
                    if j == s2.len() - 1 {
                        assert(s.contains(s[i]));
                    }
                }
            }
            if start <= m.timestamp < end {
                let w2 = w.push(m);
                assert(w2.subrange(0, win.len() as int) =~= w.subrange(0, win.len() as int));
                assert forall|k: int| win.len() <= k < w2.len() implies {
                    let x = #[trigger] w2[k];
                    &&& start <= x.timestamp < end
                    &&& s2.contains(x.id)
                    &&& !seen.contains(x.id)
                } by {
                    if k < w.len() {
                        assert(w2[k] == w[k]);
                        assert(s.contains(w[k].id));
                        let i = choose|i: int| 0 <= i < s.len() && s[i] == w[k].id;
                        assert(s2[i] == w[k].id);
                    } else {
                        assert(s2[s2.len() - 1] == m.id);
                        if seen.contains(m.id) {
                            let i = choose|i: int| 0 <= i < seen.len() && seen[i] == m.id;
                            assert(s[i] == m.id);
                        }
                    }
                }
                assert forall|k1: int, k2: int| win.len() <= k1 < k2 < w2.len() implies (#[trigger] w2[k1]).id != (#[trigger] w2[k2]).id by {
                    if k2 == w2.len() - 1 {
                        assert(w2[k1] == w[k1]);
                        assert(s.contains(w[k1].id));
                    } else {
                        assert(w2[k1] == w[k1]);
                        assert(w2[k2] == w[k2]);
                    }
                }
            } else {
                assert forall|k: int| win.len() <= k < w.len() implies #[trigger] s2.contains(w[k].id) by {
                    assert(s.contains(w[k].id));
                    let i = choose|i: int| 0 <= i < s.len() && s[i] == w[k].id;
                    assert(s2[i] == w[k].id);
                }
            }
        }
    }
}


proof fn lemma_text_le_total(a: Seq<char>, b: Seq<char>)
    ensures
        text_le(a, b) || text_le(b, a),
    decreases a.len(),
{
    if a.len() > 0 && b.len() > 0 && a[0] == b[0] {
        lemma_text_le_total(a.skip(1), b.skip(1));
    } else if a.len() > 0 && b.len() > 0 {
        vstd::utf8::char_u32_cast(a[0], a[0] as u32);
        vstd::utf8::char_u32_cast(b[0], b[0] as u32);
    }
}

proof fn lemma_text_le_trans(a: Seq<char>, b: Seq<char>, c: Seq<char>)
    requires
        text_le(a, b),
        text_le(b, c),
    ensures
        text_le(a, c),
    decreases a.len(),
{
    if a.len() > 0 && b.len() > 0 && c.len() > 0 && a[0] == b[0] && b[0] == c[0] {
        lemma_text_le_trans(a.skip(1), b.skip(1), c.skip(1));
    }
}

proof fn lemma_text_le_antisym(a: Seq<char>, b: Seq<char>)
    requires
        text_le(a, b),
        text_le(b, a),
    ensures
        a == b,
    decreases a.len(),
{
    if a.len() > 0 && b.len() > 0 {
        lemma_text_le_antisym(a.skip(1), b.skip(1));
        assert(a =~= seq![a[0]] + a.skip(1));
        assert(b =~= seq![b[0]] + b.skip(1));
    }
}

pub open spec fn texts_ascending(s: Seq<Seq<char>>) -> bool {
    forall|i: int, j: int| 0 <= i < j < s.len() ==> text_le(#[trigger] s[i], #[trigger] s[j])
}

proof fn lemma_slot_split(t: Seq<Seq<char>>, x: Seq<char>)
    requires
        texts_ascending(t),
    ensures
        0 <= text_slot(t, x) <= t.len(),
        forall|k: int| 0 <= k < text_slot(t, x) ==> text_le(#[trigger] t[k], x),
        forall|k: int| text_slot(t, x) <= k < t.len() ==> text_le(x, #[trigger] t[k]),
    decreases t.len(),
{
    if t.len() > 0 {
        let p = t.drop_last();
        assert forall|i: int, j: int| 0 <= i < j < p.len() implies text_le(#[trigger] p[i], #[trigger] p[j]) by {
            assert(p[i] == t[i] && p[j] == t[j]);
        }
        lemma_slot_split(p, x);
        if text_le(t.last(), x) {
            assert forall|k: int| 0 <= k < t.len() implies text_le(#[trigger] t[k], x) by {
                if k < t.len() - 1 {
                    lemma_text_le_trans(t[k], t.last(), x);
                }
            }
        } else {
            lemma_text_le_total(t.last(), x);
            assert forall|k: int| text_slot(t, x) <= k < t.len() implies text_le(x, #[trigger] t[k]) by {
                if k < t.len() - 1 {
                    assert(t[k] == p[k]);
                }
            }
            assert forall|k: int| 0 <= k < text_slot(t, x) implies text_le(#[trigger] t[k], x) by {
                assert(t[k] == p[k]);
            }
        }
    }
}

/// Sorting texts orders them and keeps every one, as often as it occurred.
pub proof fn lemma_sorted_texts(s: Seq<Seq<char>>)
    ensures
        texts_ascending(sorted_texts(s)),
        sorted_texts(s).to_multiset() == s.to_multiset(),
    decreases s.len(),
{
    if s.len() == 0 {
        assert(s =~= Seq::<Seq<char>>::empty());
    } else {
        let rest = s.drop_last();
        let x = s.last();
        lemma_sorted_texts(rest);
        let t = sorted_texts(rest);
        lemma_slot_split(t, x);
        let pos = text_slot(t, x);
        let u = t.insert(pos, x);
        assert forall|i: int, j: int| 0 <= i < j < u.len() implies text_le(#[trigger] u[i], #[trigger] u[j]) by {
            if j < pos {
                assert(u[i] == t[i] && u[j] == t[j]);
            } else if j == pos {
                assert(u[i] == t[i]);
            } else if i < pos {
                assert(u[i] == t[i] && u[j] == t[j - 1]);
                lemma_text_le_trans(t[i], x, t[j - 1]);
            } else if i == pos {
                assert(u[j] == t[j - 1]);
            } else {
                assert(u[i] == t[i - 1] && u[j] == t[j - 1]);
            }
        }
        vstd::seq_lib::to_multiset_insert(t, pos, x);
        vstd::seq_lib::to_multiset_build(rest, x);
        assert(rest.push(x) =~= s);
    }
}

proof fn lemma_other_emails(rs: Seq<Recipient>, sender: Seq<char>)
    ensures
        forall|i: int, j: int| 0 <= i < j < other_emails(rs, sender).len() ==> #[trigger] other_emails(rs, sender)[i]
            != #[trigger] other_emails(rs, sender)[j],
        forall|i: int| 0 <= i < other_emails(rs, sender).len() ==> #[trigger] other_emails(rs, sender)[i]
            != lower_seq(sender),
    decreases rs.len(),
{
    if rs.len() > 0 {
        lemma_other_emails(rs.drop_last(), sender);
        let earlier = other_emails(rs.drop_last(), sender);
        let o = other_emails(rs, sender);
        match rs.last().email {
            Some(e) => {
                if !(lower_seq(e@) == lower_seq(sender) || earlier.contains(lower_seq(e@))) {
                    assert forall|i: int, j: int| 0 <= i < j < o.len() implies #[trigger] o[i] != #[trigger] o[j] by {
                        if j == o.len() - 1 {
                            assert(o[i] == earlier[i]);
                            if o[i] == o[j] {
                                assert(earlier.contains(lower_seq(e@)));
                            }
                        } else {
                            assert(o[i] == earlier[i] && o[j] == earlier[j]);
                        }
                    }
                    assert forall|i: int| 0 <= i < o.len() implies #[trigger] o[i] != lower_seq(sender) by {
                        if i < o.len() - 1 {
                            assert(o[i] == earlier[i]);
                        }
                    }
                }
            },
            None => {},
        }
    }
}

/// A direct-message conversation key lists each other participant's
/// lower-cased address once, never the sender's, in ascending order; so the
/// same thread always lands in the same bucket.
pub proof fn lemma_dm_key_parts(d: DisplayRecipient, sender: Seq<char>)
    ensures
        ({
            let e = other_emails(recipients_of(d), sender);
            let k = sorted_texts(e);
            &&& texts_ascending(k)
            &&& k.to_multiset() == e.to_multiset()
            &&& forall|i: int, j: int| 0 <= i < j < e.len() ==> #[trigger] e[i] != #[trigger] e[j]
            &&& forall|i: int| 0 <= i < e.len() ==> #[trigger] e[i] != lower_seq(sender)
            &&& dm_key(d, sender) == if e.len() == 0 {
                "self"@
            } else {
                joined_texts(k, ","@)
            }
        }),
{
    let e = other_emails(recipients_of(d), sender);
    lemma_sorted_texts(e);
    lemma_other_emails(recipients_of(d), sender);
}


/// Recipient `r` has address `x` (in any letter case).
pub open spec fn has_address(r: Recipient, x: Seq<char>) -> bool {
    match r.email {
        Some(e) => lower_seq(e@) == x,
        None => false,
    }
}

/// Some recipient of `rs` has address `x`.
pub open spec fn names_address(rs: Seq<Recipient>, x: Seq<char>) -> bool {
    exists|i: int| 0 <= i < rs.len() && has_address(#[trigger] rs[i], x)
}

/// An address is among the other participants exactly when some recipient
/// has it (in any letter case) and it is not the sender's.
proof fn lemma_other_emails_contains(rs: Seq<Recipient>, sender: Seq<char>, x: Seq<char>)
    ensures
        other_emails(rs, sender).contains(x) <==> (x != lower_seq(sender) && exists|i: int|
            0 <= i < rs.len() && has_address(#[trigger] rs[i], x)),
    decreases rs.len(),
{
    if rs.len() > 0 {
        let p = rs.drop_last();
        lemma_other_emails_contains(p, sender, x);
        let earlier = other_emails(p, sender);
        let o = other_emails(rs, sender);
        if o.contains(x) {
            let k = choose|k: int| 0 <= k < o.len() && o[k] == x;
            lemma_other_emails(rs, sender);
            if k < earlier.len() && o == earlier {
                assert(earlier.contains(x));
                let i = choose|i: int| 0 <= i < p.len() && has_address(#[trigger] p[i], x);
                assert(rs[i] == p[i]);
            } else if k < earlier.len() {
                assert(o[k] == earlier[k]);
                assert(earlier.contains(x));
                let i = choose|i: int| 0 <= i < p.len() && has_address(#[trigger] p[i], x);
                assert(rs[i] == p[i]);
            } else {
                let i = rs.len() - 1;
                assert(rs[i] == rs.last());
            }
        }
        if x != lower_seq(sender) && exists|i: int|
            0 <= i < rs.len() && has_address(#[trigger] rs[i], x) {
            let i = choose|i: int| 0 <= i < rs.len() && has_address(#[trigger] rs[i], x);
            if i < rs.len() - 1 {
                assert(rs[i] == p[i]);
                assert(earlier.contains(x));
                let k = choose|k: int| 0 <= k < earlier.len() && earlier[k] == x;
                match rs.last().email {
                    Some(e) => {
                        if !(lower_seq(e@) == lower_seq(sender) || earlier.contains(lower_seq(e@))) {
                            assert(o[k] == earlier[k]);
                        }
                    },
                    None => {},
                }
                assert(o[k] == x);
            } else {
                match rs.last().email {
                    Some(e) => {
                        if earlier.contains(lower_seq(e@)) {
                        } else {
                            assert(o[o.len() - 1] == x);
                        }
                    },
                    None => {},
                }
            }
        }
    }
}

pub open spec fn no_repeats(s: Seq<Seq<char>>) -> bool {
    forall|i: int, j: int| 0 <= i < j < s.len() ==> #[trigger] s[i] != #[trigger] s[j]
}

proof fn lemma_distinct_count(s: Seq<Seq<char>>, x: Seq<char>)
    requires
        no_repeats(s),
    ensures
        s.to_multiset().count(x) == if s.contains(x) {
            1nat
        } else {
            0nat
        },
    decreases s.len(),
{
    broadcast use vstd::seq_lib::group_to_multiset_ensures;

    if s.len() > 0 {
        let p = s.drop_last();
        assert forall|i: int, j: int| 0 <= i < j < p.len() implies #[trigger] p[i] != #[trigger] p[j] by {
            assert(p[i] == s[i] && p[j] == s[j]);
        }
        lemma_distinct_count(p, x);
        assert(p.push(s.last()) =~= s);
        if p.contains(s.last()) {
            let k = choose|k: int| 0 <= k < p.len() && p[k] == s.last();
            assert(s[k] == s[s.len() - 1]);
        }
        if s.contains(x) && !p.contains(x) {
            let k = choose|k: int| 0 <= k < s.len() && s[k] == x;
            if k < s.len() - 1 {
                assert(p[k] == x);
            }
        }
        if p.contains(x) {
            let k = choose|k: int| 0 <= k < p.len() && p[k] == x;
            assert(s[k] == x);
        }
    } else {
        assert(s.to_multiset() =~= vstd::multiset::Multiset::<Seq<char>>::empty());
    }
}

/// Two ascending orderings of the same texts are the same sequence.
proof fn lemma_ascending_unique(a: Seq<Seq<char>>, b: Seq<Seq<char>>)
    requires
        texts_ascending(a),
        texts_ascending(b),
        a.to_multiset() == b.to_multiset(),
    ensures
        a == b,
    decreases a.len(),
{
    broadcast use vstd::seq_lib::group_to_multiset_ensures, vstd::multiset::group_multiset_axioms;

    if a.len() == 0 {
        assert(b.to_multiset().len() == 0);
        assert(b.len() == 0);
        assert(a =~= b);
    } else {
        assert(a.to_multiset().len() == a.len());
        assert(b.to_multiset().len() == b.len());
        assert(b.len() == a.len());
        let x = a.last();
        let y = b.last();
        assert(a.contains(x)) by {
            assert(a[a.len() - 1] == x);
        }
        assert(a.to_multiset().count(x) > 0);
        assert(b.to_multiset().count(x) > 0);
        assert(b.contains(x));
        assert(b.contains(y)) by {
            assert(b[b.len() - 1] == y);
        }
        assert(b.to_multiset().count(y) > 0);
        assert(a.to_multiset().count(y) > 0);
        assert(a.contains(y));
        let i = choose|i: int| 0 <= i < b.len() && b[i] == x;
        let j = choose|j: int| 0 <= j < a.len() && a[j] == y;
        if i < b.len() - 1 {
            assert(text_le(b[i], b[b.len() - 1]));
        } else {
            lemma_text_le_total(x, y);
        }
        if j < a.len() - 1 {
            assert(text_le(a[j], a[a.len() - 1]));
        } else {
            lemma_text_le_total(x, y);
        }
        lemma_text_le_antisym(x, y);
        let pa = a.drop_last();
        let pb = b.drop_last();
        assert(pa.push(x) =~= a);
        assert(pb.push(y) =~= b);
        assert(pa.to_multiset() =~= pb.to_multiset()) by {
            assert(a.to_multiset() == pa.to_multiset().insert(x));
            assert(b.to_multiset() == pb.to_multiset().insert(x));
            assert forall|z: Seq<char>| pa.to_multiset().count(z) == pb.to_multiset().count(z) by {
                assert(a.to_multiset().count(z) == b.to_multiset().count(z));
                assert(pa.to_multiset().insert(x).count(z) == pa.to_multiset().count(z) + if z == x {
                    1nat
                } else {
                    0nat
                });
                assert(pb.to_multiset().insert(x).count(z) == pb.to_multiset().count(z) + if z == x {
                    1nat
                } else {
                    0nat
                });
            }
        }
        assert forall|p: int, q: int| 0 <= p < q < pa.len() implies text_le(#[trigger] pa[p], #[trigger] pa[q]) by {
            assert(pa[p] == a[p] && pa[q] == a[q]);
        }
        assert forall|p: int, q: int| 0 <= p < q < pb.len() implies text_le(#[trigger] pb[p], #[trigger] pb[q]) by {
            assert(pb[p] == b[p] && pb[q] == b[q]);
        }
        lemma_ascending_unique(pa, pb);
    }
}

/// The conversation key does not depend on the order in which Zulip lists
/// the participants, nor on their letter case or repeats: recipient lists
/// that name the same addresses give the same key.
pub proof fn lemma_dm_key_order_free(d1: DisplayRecipient, d2: DisplayRecipient, sender: Seq<char>)
    requires
        forall|x: Seq<char>|
            #[trigger] names_address(recipients_of(d1), x) <==> names_address(recipients_of(d2), x),
    ensures
        dm_key(d1, sender) == dm_key(d2, sender),
{
    let e1 = other_emails(recipients_of(d1), sender);
    let e2 = other_emails(recipients_of(d2), sender);
    lemma_dm_key_parts(d1, sender);
    lemma_dm_key_parts(d2, sender);
    assert forall|x: Seq<char>| e1.contains(x) <==> e2.contains(x) by {
        lemma_other_emails_contains(recipients_of(d1), sender, x);
        lemma_other_emails_contains(recipients_of(d2), sender, x);
        assert(names_address(recipients_of(d1), x) <==> names_address(recipients_of(d2), x));
    }
    assert(e1.to_multiset() =~= e2.to_multiset()) by {
        assert forall|x: Seq<char>| e1.to_multiset().count(x) == e2.to_multiset().count(x) by {
            lemma_distinct_count(e1, x);
            lemma_distinct_count(e2, x);
        }
    }
    lemma_sorted_texts(e1);
    lemma_sorted_texts(e2);
    lemma_ascending_unique(sorted_texts(e1), sorted_texts(e2));
    if e1.len() == 0 && e2.len() > 0 {
        assert(e2.contains(e2[0]));
    }
    if e2.len() == 0 && e1.len() > 0 {
        assert(e1.contains(e1[0]));
    }
}

} // verus!
