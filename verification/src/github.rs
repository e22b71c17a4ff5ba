//! GitHub activity: the search queries and REST URLs, the paging rules, and
//! the mapping from API objects (held here as plain values) to timeline rows.
//!
//! Pushes come from the Events API as far back as it reaches; before that
//! horizon, commit search fills in. Everything else comes from issue search
//! plus per-issue follow-up lists.
use vstd::prelude::*;

use crate::clock::{
    chrono_instant, format_day, formatted_day, local_clock, parse_rfc3339, rfc3339_seconds,
    unique_local_instant, LocalClock,
};
use crate::git::{can_shorten, short_hash, short_of_hash};
use crate::range::{rows_by_time, sort_rows_by_time, Row};
use crate::text::{
    ascii_lowercase, chars_of, decimal, decimal_string, eq_ignore_case_chars, find_char,
    first_line, first_line_of, lower_seq, next_char, same_text, strip_prefix_str, text_opt,
    trim, trim_slice, trim_start_all, trim_start_matches_str, url_encode, url_encoded,
    without_prefix,
};
use crate::telemetry::alnum;
use crate::timeline::{sanitize_event_url, sanitized_url, text_of, TimelineEvent, TimelineEventSource};

verus! {

pub const PER_PAGE: usize = 100;

/// GitHub search never pages past this many results.
pub const SEARCH_RESULT_CAP: usize = 1000;

/// The Events API only returns events created within this many days.
pub const EVENTS_API_MAX_AGE_DAYS: i64 = 90;

/// Seconds in `EVENTS_API_MAX_AGE_DAYS` days.
pub const EVENTS_API_MAX_AGE_SECS: i64 = 7776000;

/// Follow-up list endpoints are read for at most this many pages.
pub const MAX_LIST_PAGES: u32 = 50;

/// The Events API is read for at most this many pages.
pub const MAX_EVENT_PAGES: u32 = 10;

/// GitHub activity kinds a user can opt into.
#[derive(Debug, Clone, Copy, PartialEq, Eq, Structural)]
pub enum GitHubEvent {
    PushEvent,
    PullRequestEvent,
    IssuesEvent,
    IssueCommentEvent,
    PullRequestReviewEvent,
    PullRequestReviewCommentEvent,
}

// ---------------------------------------------------------------------------
// chrono, urlencoding and std formatting
// ---------------------------------------------------------------------------

/// What chrono's `DateTime::<Utc>::from_timestamp(t, 0)` formatted with
/// `fmt` renders (`None` when `t` is outside chrono's range).
pub uninterp spec fn utc_text(t: i64, fmt: Seq<char>) -> Option<Seq<char>>;

/// `%Y-%m-%dT%H:%M:%S+00:00`: search qualifiers want an explicit offset.
pub open spec fn search_time_format() -> Seq<char> {
    seq!['%', 'Y', '-', '%', 'm', '-', '%', 'd', 'T', '%', 'H', ':', '%', 'M', ':', '%', 'S', '+', '0', '0', ':', '0', '0']
}

/// Unix second `t` as a search qualifier writes it.
pub open spec fn search_time_text(t: i64) -> Option<Seq<char>> {
    utc_text(t, search_time_format())
}

/// chrono's `DateTime::<Utc>::from_timestamp(t, 0)` formatted with `fmt`;
/// `None` when `t` is outside chrono's range. The contract names the result.
/// Only the search-qualifier format is admitted: rendering a malformed
/// format string panics in `to_string`.
#[verifier::external_body]
fn format_utc(t: i64, fmt: &str) -> (r: Option<String>)
    requires
        fmt@ == search_time_format(),
    ensures
        text_of(r) == utc_text(t, fmt@),
{
    chrono::DateTime::from_timestamp(t, 0).map(|d| d.format(fmt).to_string())
}

/// Unix second `t` as a search qualifier writes it
/// (`%Y-%m-%dT%H:%M:%S+00:00`).
pub(crate) fn fmt_search_time(t: i64) -> (r: Option<String>)
    ensures
        text_of(r) == search_time_text(t),
{
    let fmt = "%Y-%m-%dT%H:%M:%S+00:00";
    proof {
        reveal_strlit("%Y-%m-%dT%H:%M:%S+00:00");
        assert(fmt@ =~= search_time_format());
    }
    format_utc(t, fmt)
}

/// What `rfc3339_utc` renders for unix second `t`.
pub uninterp spec fn rfc3339_utc_text(t: i64) -> Option<Seq<char>>;

/// chrono's `to_rfc3339_opts(SecondsFormat::Secs, true)` on unix second `t`
/// in UTC (`2026-09-01T00:00:00Z`); `None` outside chrono's range. The
/// contract names the result.
#[verifier::external_body]
fn rfc3339_utc(t: i64) -> (r: Option<String>)
    ensures
        text_of(r) == rfc3339_utc_text(t),
{
    chrono::DateTime::from_timestamp(t, 0).map(
        |d| d.to_rfc3339_opts(chrono::SecondsFormat::Secs, true),
    )
}

/// What `str::parse::<DateTime<Utc>>` yields for `s`: unix seconds, or
/// chrono's error message.
pub uninterp spec fn utc_from_str(s: Seq<char>) -> Result<i64, Seq<char>>;

pub open spec fn result_text(r: Result<i64, String>) -> Result<i64, Seq<char>> {
    match r {
        Ok(t) => Ok(t),
        Err(e) => Err(e@),
    }
}

/// chrono's `FromStr` for `DateTime<Utc>` (it accepts more shapes than RFC
/// 3339, such as a space before the offset). The contract names the result,
/// and states what chrono documents of every `DateTime`: its `timestamp()`
/// round-trips through `DateTime::from_timestamp`.
#[verifier::external_body]
fn parse_utc(s: &str) -> (r: Result<i64, String>)
    ensures
        result_text(r) == utc_from_str(s@),
        r matches Ok(t) ==> chrono_instant(t),
{
    s.parse::<chrono::DateTime<chrono::Utc>>().map(|d| d.timestamp()).map_err(|e| e.to_string())
}

/// What `{:?}` writes for a string.
pub uninterp spec fn debug_text(s: Seq<char>) -> Seq<char>;

/// std's `Debug` for `str`: the string quoted, with escapes. The contract
/// names the result.
#[verifier::external_body]
fn debug_quoted(s: &str) -> (r: String)
    ensures
        r@ == debug_text(s@),
{
    format!("{s:?}")
}

// ---------------------------------------------------------------------------
// Time ranges
// ---------------------------------------------------------------------------

/// Whether chrono can render both ends of `[since, until)` the way the
/// queries need them.
pub open spec fn range_renders(since: i64, until: i64) -> bool {
    &&& search_time_text(since) is Some
    &&& until > i64::MIN
    &&& search_time_text((until - 1) as i64) is Some
    &&& rfc3339_utc_text(since) is Some
}

/// A UTC time range in unix seconds; `until` is exclusive.
#[derive(Debug, Clone, Copy, PartialEq, Eq)]
pub struct Range {
    since: i64,
    until: i64,
}

impl View for Range {
    type V = (i64, i64);

    closed spec fn view(&self) -> (i64, i64) {
        (self.since, self.until)
    }
}

impl Range {
    #[verifier::type_invariant]
    spec fn renders(self) -> bool {
        range_renders(self.since, self.until)
    }

    /// The range `[since, until)`, or `None` when an end lies outside what
    /// chrono can represent.
    pub fn new(since: i64, until: i64) -> (r: Option<Range>)
        ensures
            r is Some <==> range_renders(since, until),
            r matches Some(g) ==> g@ == (since, until),
    {
        let a = fmt_search_time(since);
        if a.is_none() || until == i64::MIN {
            return None;
        }
        let b = fmt_search_time(until - 1);
        let c = rfc3339_utc(since);
        if b.is_none() || c.is_none() {
            return None;
        }
        Some(Range { since, until })
    }

    pub fn since(&self) -> (t: i64)
        ensures
            t == self@.0,
    {
        self.since
    }

    pub fn until(&self) -> (t: i64)
        ensures
            t == self@.1,
    {
        self.until
    }

    pub fn contains(&self, t: i64) -> (b: bool)
        ensures
            b == (self@.0 <= t < self@.1),
    {
        t >= self.since && t < self.until
    }

    /// `A..B` for `created:` / `author-date:`. Search ranges are inclusive at
    /// both ends, so the exclusive end is pulled back one second.
    pub fn created_qualifier(&self) -> (q: String)
        ensures
            q@ == created_qualifier_text(self@),
    {
        proof {
            use_type_invariant(self);
        }
        let mut q = fmt_search_time(self.since).unwrap();
        q.append("..");
        let b = fmt_search_time(self.until - 1).unwrap();
        q.append(b.as_str());
        q
    }

    /// `>=A` for `updated:`: open-ended, as an issue commented on inside the
    /// range may have been updated again long after.
    pub fn since_qualifier(&self) -> (q: String)
        ensures
            q@ == since_qualifier_text(self@),
    {
        proof {
            use_type_invariant(self);
        }
        let mut q = String::from_str(">=");
        let a = fmt_search_time(self.since).unwrap();
        q.append(a.as_str());
        q
    }

    /// The `since=` parameter of the REST list endpoints.
    pub fn since_param(&self) -> (q: String)
        ensures
            q@ == rfc3339_utc_text(self@.0).unwrap(),
    {
        proof {
            use_type_invariant(self);
        }
        rfc3339_utc(self.since).unwrap()
    }
}

pub open spec fn created_qualifier_text(r: (i64, i64)) -> Seq<char> {
    search_time_text(r.0).unwrap() + ".."@ + search_time_text((r.1 - 1) as i64).unwrap()
}

pub open spec fn since_qualifier_text(r: (i64, i64)) -> Seq<char> {
    ">="@ + search_time_text(r.0).unwrap()
}

/// `start..=end` ascending (empty when `end` is before `start`).
pub open spec fn days_from_to(start: i32, end: i32) -> Seq<i32> {
    if end < start {
        Seq::empty()
    } else {
        Seq::new((end - start + 1) as nat, |i: int| (start + i) as i32)
    }
}

/// Every day from `start` through `end`.
pub fn days_between(start: i32, end: i32) -> (days: Vec<i32>)
    ensures
        days@ == days_from_to(start, end),
{
    let mut days: Vec<i32> = Vec::new();
    if end < start {
        assert(days@ =~= days_from_to(start, end));
        return days;
    }
    let mut d = start;
    loop
        invariant_except_break
            start <= d <= end,
            days@ == Seq::new((d - start) as nat, |i: int| (start + i) as i32),
        ensures
            days@ == days_from_to(start, end),
        decreases end - d,
    {
        days.push(d);
        if d == end {
            assert(days@ =~= days_from_to(start, end));
            break;
        }
        d = d + 1;
    }
    days
}

// ---------------------------------------------------------------------------
// Queries
// ---------------------------------------------------------------------------

/// GitHub logins: ASCII letters, digits and hyphens, at least one.
pub open spec fn valid_login(user: Seq<char>) -> bool {
    user.len() > 0 && forall|i: int| 0 <= i < user.len() ==> (alnum(#[trigger] user[i]) || user[i] == '-')
}

pub open spec fn invalid_login_message(user: Seq<char>) -> Seq<char> {
    "Invalid GitHub username "@ + debug_text(user)
}

/// The username is interpolated into search qualifiers, so anything that
/// could smuggle in extra qualifiers is refused.
pub fn validate_username(user: &str) -> (r: Result<(), String>)
    ensures
        r is Ok <==> valid_login(user@),
        r matches Err(m) ==> m@ == invalid_login_message(user@),
{
    let v = chars_of(user);
    let mut ok = v.len() > 0;
    let mut i: usize = 0;
    while i < v.len()
        invariant
            i <= v.len(),
            v@ == user@,
            ok == (v.len() > 0 && forall|j: int| 0 <= j < i ==> (alnum(#[trigger] v@[j]) || v@[j] == '-')),
        decreases v.len() - i,
    {
        let c = v[i];
        let good = ('a' <= c && c <= 'z') || ('A' <= c && c <= 'Z') || ('0' <= c && c <= '9') || c == '-';
        if !good {
            ok = false;
            assert(!(alnum(v@[i as int]) || v@[i as int] == '-'));
        }
        i += 1;
    }
    if ok {
        Ok(())
    } else {
        let mut m = String::from_str("Invalid GitHub username ");
        let q = debug_quoted(user);
        m.append(q.as_str());
        Err(m)
    }
}

pub open spec fn opened_query_text(user: Seq<char>, prs: bool, issues: bool, r: (i64, i64)) -> Option<Seq<char>> {
    let kind = if prs && issues {
        Some(""@)
    } else if prs {
        Some("is:pr "@)
    } else if issues {
        Some("is:issue "@)
    } else {
        None
    };
    match kind {
        Some(k) => Some(k + "author:"@ + user + " created:"@ + created_qualifier_text(r)),
        None => None,
    }
}

/// Search query for PRs and/or issues the user opened inside `range`, or
/// `None` when neither kind is wanted.
pub fn opened_query(user: &str, prs: bool, issues: bool, range: &Range) -> (q: Option<String>)
    ensures
        text_of(q) == opened_query_text(user@, prs, issues, range@),
{
    let kind = if prs && issues {
        ""
    } else if prs {
        "is:pr "
    } else if issues {
        "is:issue "
    } else {
        return None;
    };
    let mut q = String::from_str(kind);
    q.append("author:");
    q.append(user);
    q.append(" created:");
    let c = range.created_qualifier();
    q.append(c.as_str());
    Some(q)
}

pub open spec fn candidate_query_text(user: Seq<char>, comments: bool, reviews: bool, r: (i64, i64)) -> Option<Seq<char>> {
    let who = if comments && reviews {
        Some("(commenter:"@ + user + " OR reviewed-by:"@ + user + ")"@)
    } else if comments {
        Some("commenter:"@ + user)
    } else if reviews {
        Some("is:pr reviewed-by:"@ + user)
    } else {
        None
    };
    match who {
        Some(w) => Some(w + " updated:"@ + since_qualifier_text(r)),
        None => None,
    }
}

/// Search query for issues/PRs the user commented on and/or reviewed that
/// saw activity since the range started; one query covers both roles.
pub fn candidate_query(user: &str, comments: bool, reviews: bool, range: &Range) -> (q: Option<String>)
    ensures
        text_of(q) == candidate_query_text(user@, comments, reviews, range@),
{
    let mut q = if comments && reviews {
        let mut w = String::from_str("(commenter:");
        w.append(user);
        w.append(" OR reviewed-by:");
        w.append(user);
        w.append(")");
        w
    } else if comments {
        let mut w = String::from_str("commenter:");
        w.append(user);
        w
    } else if reviews {
        let mut w = String::from_str("is:pr reviewed-by:");
        w.append(user);
        w
    } else {
        return None;
    };
    q.append(" updated:");
    let s = range.since_qualifier();
    q.append(s.as_str());
    Some(q)
}

/// The commit search for the part of a range the Events API does not cover.
pub fn commit_query(user: &str, range: &Range) -> (q: String)
    ensures
        q@ == "author:"@ + user@ + " author-date:"@ + created_qualifier_text(range@),
{
    let mut q = String::from_str("author:");
    q.append(user);
    q.append(" author-date:");
    let c = range.created_qualifier();
    q.append(c.as_str());
    q
}

pub open spec fn max_i64(a: i64, b: i64) -> i64 {
    if a >= b {
        a
    } else {
        b
    }
}

pub open spec fn push_horizon_spec(reached_since: bool, oldest: Option<i64>, r: (i64, i64), now: i64) -> i64 {
    let floor = (now - EVENTS_API_MAX_AGE_SECS) as i64;
    let h = if reached_since {
        r.0
    } else {
        match oldest {
            Some(t) => t,
            None => floor,
        }
    };
    max_i64(max_i64(h, floor), r.0)
}

/// Earliest instant from which Events API push data is complete: the range
/// start when paging reached it, else the oldest event returned (nothing at
/// all when none was); never before the API's 90-day floor, never before the
/// range.
pub fn push_horizon(reached_since: bool, oldest: Option<i64>, range: &Range, now: i64) -> (h: i64)
    requires
        now >= i64::MIN + EVENTS_API_MAX_AGE_SECS,
    ensures
        h == push_horizon_spec(reached_since, oldest, range@, now),
{
    let floor = now - EVENTS_API_MAX_AGE_SECS;
    let h = if reached_since {
        range.since()
    } else {
        match oldest {
            Some(t) => t,
            None => floor,
        }
    };
    let h2 = if h >= floor {
        h
    } else {
        floor
    };
    if h2 >= range.since() {
        h2
    } else {
        range.since()
    }
}

/// The part of `range` before the push horizon, searched by commit date;
/// `None` when the Events API covers the whole range.
pub fn commit_search_range(range: &Range, horizon: i64) -> (r: Option<Range>)
    ensures
        horizon <= range@.0 ==> r is None,
        r matches Some(g) ==> g@ == (range@.0, if horizon < range@.1 {
            horizon
        } else {
            range@.1
        }),
        horizon > range@.0 && range_renders(range@.0, if horizon < range@.1 {
            horizon
        } else {
            range@.1
        }) ==> r is Some,
{
    if horizon <= range.since() {
        return None;
    }
    let end = if horizon < range.until() {
        horizon
    } else {
        range.until()
    };
    Range::new(range.since(), end)
}

/// The last day has no successor chrono can write.
pub open spec fn no_next_day(end_day: i32) -> bool {
    end_day == i32::MAX || formatted_day((end_day + 1) as i32, "%Y-%m-%d"@) is None
}

pub open spec fn no_day_after_text(day: i32) -> Seq<char> {
    "no day after "@ + match formatted_day(day, "%Y-%m-%d"@) {
        Some(t) => t,
        None => Seq::empty(),
    }
}

/// The UTC range covering local days `start_day..=end_day`: from local
/// midnight of the first day to local midnight after the last. A last day
/// without a successor is refused; so is a midnight that the machine's time
/// zone makes ambiguous or skips (which depends on the zone, and is not
/// stated).
pub fn github_range(start_day: i32, end_day: i32) -> (r: Result<Range, String>)
    ensures
        no_next_day(end_day) ==> (r matches Err(m) && m@ == no_day_after_text(end_day)),
        !no_next_day(end_day) ==> (r matches Err(m) ==> (m@ == "Ambiguous local start of range"@ || m@
            == "Ambiguous local end of range"@ || m@ == "Invalid range start"@)),
        r matches Ok(g) ==> crate::clock::wall_time(g@.0 as int, start_day as int, 0) && crate::clock::wall_time(
            g@.1 as int,
            end_day + 1,
            0,
        ),
{
    let fmt = "%Y-%m-%d";
    proof {
        reveal_strlit("%Y-%m-%d");
        assert(fmt@ =~= crate::clock::iso_format());
    }
    if end_day == i32::MAX || format_day(end_day + 1, fmt).is_none() {
        let mut m = String::from_str("no day after ");
        match format_day(end_day, fmt) {
            Some(t) => m.append(t.as_str()),
            None => {},
        }
        return Err(m);
    }
    proof {
        reveal_strlit("Ambiguous local start of range");
        reveal_strlit("Ambiguous local end of range");
        reveal_strlit("Invalid range start");
    }
    let since = match unique_local_instant(start_day, 0) {
        Some(t) => t,
        None => return Err(String::from_str("Ambiguous local start of range")),
    };
    let until = match unique_local_instant(end_day + 1, 0) {
        Some(t) => t,
        None => return Err(String::from_str("Ambiguous local end of range")),
    };
    match Range::new(since, until) {
        Some(g) => Ok(g),
        None => Err(String::from_str("Invalid range start")),
    }
}

// ---------------------------------------------------------------------------
// HTTP
// ---------------------------------------------------------------------------

pub open spec fn api_root() -> Seq<char> {
    "https://api.github.com"@
}

/// Credentials for the GitHub REST API.
pub struct GhClient {
    pub auth: String,
}

impl GhClient {
    pub fn new(token: &str) -> (c: GhClient)
        ensures
            c.auth@ == "Bearer "@ + token@,
    {
        let mut auth = String::from_str("Bearer ");
        auth.append(token);
        GhClient { auth }
    }
}

/// An exhausted rate limit: 403 or 429 with `x-ratelimit-remaining: 0`.
pub fn rate_limit_exhausted(status: u16, remaining: Option<&str>) -> (b: bool)
    ensures
        b == ((status == 403 || status == 429) && (remaining matches Some(r) && r@ == "0"@)),
{
    if status != 403 && status != 429 {
        return false;
    }
    match remaining {
        Some(r) => same_text(r, "0"),
        None => false,
    }
}

pub open spec fn api_error_text(status: u16, message: Option<Seq<char>>, label: Seq<char>) -> Seq<char> {
    let m = match message {
        Some(m) => ": "@ + m,
        None => Seq::empty(),
    };
    let head = "GitHub API returned HTTP "@ + decimal(status as nat) + " for "@ + label;
    if status == 401 || status == 403 {
        head + " (check your username and token)"@ + m
    } else {
        head + m
    }
}

/// The error for a failed API call; `message` is the body's `message` text.
pub fn api_error(status: u16, message: &Option<String>, label: &str) -> (r: String)
    ensures
        r@ == api_error_text(status, text_of(*message), label@),
{
    let mut r = String::from_str("GitHub API returned HTTP ");
    let code = decimal_string(status as u64);
    r.append(code.as_str());
    r.append(" for ");
    r.append(label);
    if status == 401 || status == 403 {
        r.append(" (check your username and token)");
    }
    match message {
        Some(m) => {
            r.append(": ");
            r.append(m.as_str());
        },
        None => {},
    }
    r
}

pub open spec fn search_url_text(endpoint: Seq<char>, query: Seq<char>, page: u64) -> Seq<char> {
    let base = api_root() + "/search/"@ + endpoint + "?q="@ + url_encoded(query) + "&per_page=100&page="@
        + decimal(page as nat);
    if endpoint == "issues"@ {
        base + "&advanced_search=true"@
    } else {
        base
    }
}

/// One page of a search. Issue search asks for advanced search explicitly,
/// whose `AND`/`OR` semantics the combined candidate query relies on.
pub fn search_url(endpoint: &str, query: &str, page: u64) -> (r: String)
    ensures
        r@ == search_url_text(endpoint@, query@, page),
{
    let mut r = String::from_str("https://api.github.com");
    r.append("/search/");
    r.append(endpoint);
    r.append("?q=");
    let q = url_encode(query);
    r.append(q.as_str());
    r.append("&per_page=100&page=");
    let p = decimal_string(page);
    r.append(p.as_str());
    if same_text(endpoint, "issues") {
        r.append("&advanced_search=true");
    }
    r
}

/// What the search loop does after reading a page.
#[derive(Debug, Clone, Copy, PartialEq, Eq, Structural)]
pub enum SearchPageStep {
    /// Stop; `complete` says whether every result was read.
    Done { complete: bool },
    /// Read the next page.
    Next { complete: bool },
}

/// After a page of `got` items (`collected` items so far, this page
/// included) of a search reporting `total` results: stop on a short page or
/// once `total` is reached; stop incomplete at the 1,000-result cap.
/// `incomplete_results` from GitHub marks the result incomplete too.
pub fn search_page_step(collected: usize, got: usize, total: u64, incomplete_results: bool, complete: bool) -> (s: SearchPageStep)
    ensures
        s == (if got < PER_PAGE || collected as int >= total as int {
            SearchPageStep::Done { complete: complete && !incomplete_results }
        } else if collected >= SEARCH_RESULT_CAP {
            SearchPageStep::Done { complete: false }
        } else {
            SearchPageStep::Next { complete: complete && !incomplete_results }
        }),
{
    let complete = complete && !incomplete_results;
    if got < PER_PAGE || collected as u64 >= total {
        SearchPageStep::Done { complete }
    } else if collected >= SEARCH_RESULT_CAP {
        SearchPageStep::Done { complete: false }
    } else {
        SearchPageStep::Next { complete }
    }
}

/// What a follow-up list loop does after a response.
#[derive(Debug, Clone, Copy, PartialEq, Eq, Structural)]
pub enum ListStep {
    /// 404/410: the item vanished since the search; yield nothing.
    Vanished,
    /// Another error status.
    Failed,
    /// Keep what was read and stop.
    Done,
    /// Keep what was read and read the next page.
    Next,
}

pub fn list_page_step(page: u32, status: u16, got: usize) -> (s: ListStep)
    ensures
        s == (if status == 404 || status == 410 {
            ListStep::Vanished
        } else if status >= 400 {
            ListStep::Failed
        } else if got < PER_PAGE || page >= MAX_LIST_PAGES {
            ListStep::Done
        } else {
            ListStep::Next
        }),
{
    if status == 404 || status == 410 {
        ListStep::Vanished
    } else if status >= 400 {
        ListStep::Failed
    } else if got < PER_PAGE || page >= MAX_LIST_PAGES {
        ListStep::Done
    } else {
        ListStep::Next
    }
}

pub open spec fn list_page_url_text(url: Seq<char>, page: u32) -> Seq<char> {
    let sep = if url.contains('?') {
        "&"@
    } else {
        "?"@
    };
    url + sep + "per_page=100&page="@ + decimal(page as nat)
}

/// One page of a list endpoint.
pub fn list_page_url(url: &str, page: u32) -> (r: String)
    ensures
        r@ == list_page_url_text(url@, page),
{
    let v = chars_of(url);
    let mut has_query = false;
    let mut i: usize = 0;
    while i < v.len()
        invariant
            i <= v.len(),
            v@ == url@,
            has_query == (exists|j: int| 0 <= j < i && v@[j] == '?'),
        decreases v.len() - i,
    {
        if v[i] == '?' {
            has_query = true;
        }
        i += 1;
    }
    let mut r = String::from_str(url);
    if has_query {
        r.append("&");
    } else {
        r.append("?");
    }
    r.append("per_page=100&page=");
    let p = decimal_string(page as u64);
    r.append(p.as_str());
    r
}

/// What the Events API loop does after a response.
#[derive(Debug, Clone, Copy, PartialEq, Eq, Structural)]
pub enum EventsStep {
    /// Error status.
    Failed,
    /// Stop: the API ran dry before reaching the range start.
    RanDry,
    /// Stop: this page reached back past the range start.
    Reached,
    /// Read the next page.
    Next,
}

/// Events come newest first; once a page's oldest event predates the range,
/// every later page would too. 422 past page one is the API's page limit.
pub fn events_page_step(page: u32, status: u16, count: usize, oldest: Option<i64>, since: i64) -> (s: EventsStep)
    ensures
        s == (if status == 422 && page > 1 {
            EventsStep::RanDry
        } else if status >= 400 {
            EventsStep::Failed
        } else if count == 0 {
            EventsStep::RanDry
        } else if oldest matches Some(t) && t < since {
            EventsStep::Reached
        } else if page >= MAX_EVENT_PAGES {
            EventsStep::RanDry
        } else {
            EventsStep::Next
        }),
{
    if status == 422 && page > 1 {
        EventsStep::RanDry
    } else if status >= 400 {
        EventsStep::Failed
    } else if count == 0 {
        EventsStep::RanDry
    } else {
        match oldest {
            Some(t) => {
                if t < since {
                    return EventsStep::Reached;
                }
            },
            None => {},
        }
        if page >= MAX_EVENT_PAGES {
            EventsStep::RanDry
        } else {
            EventsStep::Next
        }
    }
}

/// One page of `GET /users/{username}/events`.
pub fn events_url(username: &str, page: u32) -> (r: String)
    ensures
        r@ == api_root() + "/users/"@ + url_encoded(username@) + "/events?per_page=100&page="@
            + decimal(page as nat),
{
    let mut r = String::from_str("https://api.github.com");
    r.append("/users/");
    let u = url_encode(username);
    r.append(u.as_str());
    r.append("/events?per_page=100&page=");
    let p = decimal_string(page as u64);
    r.append(p.as_str());
    r
}

// ---------------------------------------------------------------------------
// API objects, as the logic reads them
// ---------------------------------------------------------------------------

/// A `/search/issues` hit: the fields the mapping reads (string and number
/// fields are `None` when absent or of another JSON type).
#[derive(Debug, Clone)]
pub struct SearchIssueItem {
    pub id: Option<u64>,
    pub number: Option<u64>,
    pub title: Option<String>,
    pub repository_url: Option<String>,
    pub html_url: Option<String>,
    /// Whether the hit has a `pull_request` member.
    pub pull_request: bool,
    pub created_at: Option<String>,
}

/// An issue comment or a PR review comment.
#[derive(Debug, Clone)]
pub struct IssueComment {
    pub id: Option<u64>,
    /// `user.login`
    pub user_login: Option<String>,
    pub created_at: Option<String>,
}

/// A PR review.
#[derive(Debug, Clone)]
pub struct PrReview {
    pub id: Option<u64>,
    pub user_login: Option<String>,
    pub state: Option<String>,
    pub submitted_at: Option<String>,
}

/// A `/search/commits` hit.
#[derive(Debug, Clone)]
pub struct CommitItem {
    pub sha: Option<String>,
    /// `commit.author.date`
    pub author_date: Option<String>,
    /// `commit.message`
    pub message: Option<String>,
    /// `repository.full_name`
    pub repository_full_name: Option<String>,
    pub html_url: Option<String>,
}

/// The `id` of an Events API event.
#[derive(Debug, Clone)]
pub enum EventId {
    /// A JSON number, as its decimal text.
    Number(String),
    Text(String),
    Other,
}

/// One commit of a push event's payload.
#[derive(Debug, Clone)]
pub struct PushCommit {
    pub sha: Option<String>,
    pub message: Option<String>,
}

/// An Events API event with the push payload fields the mapping reads.
#[derive(Debug, Clone)]
pub struct GhEvent {
    pub id: EventId,
    pub event_type: String,
    /// `repo.name`
    pub repo_name: String,
    pub created_at: String,
    /// `payload.ref`
    pub git_ref: Option<String>,
    /// `payload.size`
    pub size: Option<u64>,
    /// `payload.before`
    pub before: Option<String>,
    /// `payload.head`
    pub head: Option<String>,
    /// `payload.commits` (empty when absent)
    pub commits: Vec<PushCommit>,
}

pub open spec fn event_id_text(id: EventId) -> Seq<char> {
    match id {
        EventId::Number(n) => n@,
        EventId::Text(s) => s@,
        EventId::Other => "unknown"@,
    }
}

pub fn github_event_id_str(id: &EventId) -> (r: String)
    ensures
        r@ == event_id_text(*id),
{
    match id {
        EventId::Number(n) => n.clone(),
        EventId::Text(s) => s.clone(),
        EventId::Other => String::from_str("unknown"),
    }
}

// ---------------------------------------------------------------------------
// Issues and PRs
// ---------------------------------------------------------------------------

/// `owner/name` from the part of a URL after its fixed prefix: the first two
/// `/`-separated segments, both non-empty.
pub open spec fn owner_and_name(rest: Seq<char>) -> Option<Seq<char>> {
    let i = next_char(rest, '/', 0);
    if i == 0 || i >= rest.len() {
        None
    } else {
        let j = next_char(rest, '/', i + 1);
        if j == i + 1 {
            None
        } else {
            Some(rest.subrange(0, i) + "/"@ + rest.subrange(i + 1, j))
        }
    }
}

fn owner_and_name_of(rest: &str) -> (r: Option<String>)
    ensures
        text_of(r) == owner_and_name(rest@),
{
    let v = chars_of(rest);
    let i = find_char(&v, '/', 0);
    if i == 0 || i >= v.len() {
        return None;
    }
    let j = find_char(&v, '/', i + 1);
    if j == i + 1 {
        return None;
    }
    let mut r = rest.substring_char(0, i).to_owned();
    r.append("/");
    r.append(rest.substring_char(i + 1, j));
    Some(r)
}

pub open spec fn repo_from_repository_url_text(url: Seq<char>) -> Option<Seq<char>> {
    match without_prefix(url, "https://api.github.com/repos/"@) {
        Some(rest) => owner_and_name(rest),
        None => None,
    }
}

/// `https://api.github.com/repos/owner/name` → `owner/name`
pub fn repo_from_repository_url(url: &str) -> (r: Option<String>)
    ensures
        text_of(r) == repo_from_repository_url_text(url@),
{
    match strip_prefix_str(url, "https://api.github.com/repos/") {
        Some(rest) => owner_and_name_of(rest),
        None => None,
    }
}

pub open spec fn repo_from_html_url_text(url: Seq<char>) -> Option<Seq<char>> {
    match without_prefix(url, "https://github.com/"@) {
        Some(rest) => owner_and_name(rest),
        None => None,
    }
}

/// `https://github.com/owner/name/pull/1` → `owner/name`
pub fn repo_from_html_url(url: &str) -> (r: Option<String>)
    ensures
        text_of(r) == repo_from_html_url_text(url@),
{
    match strip_prefix_str(url, "https://github.com/") {
        Some(rest) => owner_and_name_of(rest),
        None => None,
    }
}

/// The issue or PR a search hit refers to.
#[derive(Debug, Clone, PartialEq)]
pub struct IssueRef {
    /// `owner/name`
    pub repo: String,
    pub number: u64,
    pub title: String,
    pub is_pr: bool,
}

/// `(repo, number, title, is_pr)`
pub type IssueRefView = (Seq<char>, u64, Seq<char>, bool);

pub open spec fn issue_view(i: IssueRef) -> IssueRefView {
    (i.repo@, i.number, i.title@, i.is_pr)
}

pub open spec fn issue_path(is_pr: bool) -> Seq<char> {
    if is_pr {
        "pull"@
    } else {
        "issues"@
    }
}

pub open spec fn issue_html_url(i: IssueRefView) -> Seq<char> {
    "https://github.com/"@ + i.0 + "/"@ + issue_path(i.3) + "/"@ + decimal(i.1 as nat)
}

/// The title, unless it is blank.
pub open spec fn subject_of(title: Seq<char>) -> Option<Seq<char>> {
    if trim(title).len() == 0 {
        None
    } else {
        Some(title)
    }
}

impl IssueRef {
    /// `pull` or `issues`: the path segment GitHub uses in html URLs.
    pub fn path(&self) -> (p: &'static str)
        ensures
            p@ == issue_path(self.is_pr),
    {
        if self.is_pr {
            "pull"
        } else {
            "issues"
        }
    }

    pub fn html_url(&self) -> (u: String)
        ensures
            u@ == issue_html_url(issue_view(*self)),
    {
        let mut u = String::from_str("https://github.com/");
        u.append(self.repo.as_str());
        u.append("/");
        u.append(self.path());
        u.append("/");
        let n = decimal_string(self.number);
        u.append(n.as_str());
        u
    }

    pub fn subject(&self) -> (s: Option<String>)
        ensures
            text_of(s) == subject_of(self.title@),
    {
        let t = trim_slice(self.title.as_str());
        if t.is_empty() {
            None
        } else {
            Some(self.title.clone())
        }
    }
}

pub open spec fn issue_ref_spec(item: SearchIssueItem) -> Option<IssueRefView> {
    let from_api = match item.repository_url {
        Some(u) => repo_from_repository_url_text(u@),
        None => None,
    };
    let repo = if from_api is Some {
        from_api
    } else {
        match item.html_url {
            Some(u) => repo_from_html_url_text(u@),
            None => None,
        }
    };
    match (repo, item.number) {
        (Some(r), Some(n)) => Some(
            (
                r,
                n,
                match item.title {
                    Some(t) => t@,
                    None => Seq::empty(),
                },
                item.pull_request,
            ),
        ),
        _ => None,
    }
}

/// The issue or PR a `/search/issues` hit refers to: the repository from
/// `repository_url`, else from `html_url`.
pub fn issue_ref(item: &SearchIssueItem) -> (r: Option<IssueRef>)
    ensures
        r matches Some(i) ==> issue_ref_spec(*item) == Some(issue_view(i)),
        r is None ==> issue_ref_spec(*item) is None,
{
    let from_api = match &item.repository_url {
        Some(u) => repo_from_repository_url(u.as_str()),
        None => None,
    };
    let repo = match from_api {
        Some(r) => r,
        None => match &item.html_url {
            Some(u) => match repo_from_html_url(u.as_str()) {
                Some(r) => r,
                None => return None,
            },
            None => return None,
        },
    };
    let number = match item.number {
        Some(n) => n,
        None => return None,
    };
    let title = match &item.title {
        Some(t) => t.clone(),
        None => String::new(),
    };
    Some(IssueRef { repo, number, title, is_pr: item.pull_request })
}

pub open spec fn with_subject(head: Seq<char>, subject: Option<Seq<char>>) -> Seq<char> {
    match subject {
        Some(s) => if trim(s).len() > 0 {
            head + ": "@ + s
        } else {
            head
        },
        None => head,
    }
}

/// `head: subject`, or just `head` when the subject is missing or blank.
pub fn format_with_optional_subject(head: String, subject: Option<String>) -> (r: String)
    ensures
        r@ == with_subject(head@, text_of(subject)),
{
    match subject {
        Some(s) => {
            let t = trim_slice(s.as_str());
            if t.is_empty() {
                head
            } else {
                let mut r = head;
                r.append(": ");
                r.append(s.as_str());
                r
            }
        },
        None => head,
    }
}

// ---------------------------------------------------------------------------
// Times
// ---------------------------------------------------------------------------

/// A GitHub timestamp: RFC 3339, else whatever chrono's `DateTime<Utc>`
/// parser accepts; the error names the text.
pub open spec fn github_time(s: Seq<char>) -> Result<i64, Seq<char>> {
    match rfc3339_seconds(s) {
        Some(t) => Ok(t),
        None => match utc_from_str(s) {
            Ok(t) => Ok(t),
            Err(e) => Err("Invalid GitHub timestamp "@ + debug_text(s) + ": "@ + e),
        },
    }
}

pub fn parse_github_datetime(s: &str) -> (r: Result<i64, String>)
    ensures
        result_text(r) == github_time(s@),
        r matches Ok(t) ==> chrono_instant(t),
{
    match parse_rfc3339(s) {
        Some(t) => Ok(t),
        None => match parse_utc(s) {
            Ok(t) => Ok(t),
            Err(e) => {
                let mut m = String::from_str("Invalid GitHub timestamp ");
                let q = debug_quoted(s);
                m.append(q.as_str());
                m.append(": ");
                m.append(e.as_str());
                Err(m)
            },
        },
    }
}

/// The instant in `field` when it parses and lies inside the range.
pub open spec fn time_in_range(field: Option<String>, r: (i64, i64)) -> Option<i64> {
    match field {
        Some(s) => match github_time(s@) {
            Ok(t) => if r.0 <= t < r.1 {
                Some(t)
            } else {
                None
            },
            Err(_) => None,
        },
        None => None,
    }
}

pub fn timestamp_in_range(field: &Option<String>, range: &Range) -> (r: Option<i64>)
    ensures
        r == time_in_range(*field, range@),
        r matches Some(t) ==> chrono_instant(t),
{
    match field {
        Some(s) => match parse_github_datetime(s.as_str()) {
            Ok(t) => if range.contains(t) {
                Some(t)
            } else {
                None
            },
            Err(_) => None,
        },
        None => None,
    }
}

/// Whether `login` is `user` (GitHub logins are case-insensitive).
pub open spec fn is_user_spec(login: Option<String>, user: Seq<char>) -> bool {
    match login {
        Some(l) => lower_seq(l@) == lower_seq(user),
        None => false,
    }
}

pub fn is_user(login: &Option<String>, user: &str) -> (b: bool)
    ensures
        b == is_user_spec(*login, user@),
{
    match login {
        Some(l) => {
            let a = chars_of(l.as_str());
            let b = chars_of(user);
            eq_ignore_case_chars(&a, &b)
        },
        None => false,
    }
}

// ---------------------------------------------------------------------------
// Rows
// ---------------------------------------------------------------------------

/// Everything a GitHub row needs but its local day and time.
#[derive(Debug, Clone)]
pub struct RowDraft {
    pub id: String,
    pub at: i64,
    pub title: String,
    pub detail: String,
    pub url: Option<String>,
}

/// `(id, at, title, detail, url)`
pub type DraftView = (Seq<char>, i64, Seq<char>, Seq<char>, Option<Seq<char>>);

pub open spec fn draft_view(d: RowDraft) -> DraftView {
    (d.id@, d.at, d.title@, d.detail@, text_of(d.url))
}

/// Whether `row` is the row for `d`, whatever its local day and time. The
/// URL only survives when it is http(s).
pub open spec fn github_row_of(row: Row, d: DraftView) -> bool {
    &&& row.1 == d.1
    &&& row.2.id@ == d.0
    &&& row.2.timestamp == d.1
    &&& row.2.source == TimelineEventSource::Github
    &&& row.2.title@ == d.2
    &&& text_of(row.2.detail) == Some(d.3)
    &&& text_of(row.2.url) == match d.4 {
        Some(u) => sanitized_url(u),
        None => None,
    }
    &&& exists|c: LocalClock| #[trigger] crate::clock::reads(c, d.1) && row.0 == c.day && row.2.time@ == c.hhmm@
}

/// The row for `d` seen on the local clock `clock`.
pub fn row_at(d: RowDraft, clock: LocalClock) -> (row: Row)
    requires
        crate::clock::reads(clock, d.at),
    ensures
        github_row_of(row, draft_view(d)),
        row.0 == clock.day,
        row.2.time@ == clock.hhmm@,
{
    let ghost c0 = clock;
    let url = match &d.url {
        Some(u) => sanitize_event_url(u.as_str()),
        None => None,
    };
    let row = (
        clock.day,
        d.at,
        TimelineEvent {
            id: d.id,
            time: clock.hhmm,
            timestamp: d.at,
            source: TimelineEventSource::Github,
            title: d.title,
            detail: Some(d.detail),
            url,
        },
    );
    assert(crate::clock::reads(c0, draft_view(d).1) && row.0 == c0.day && row.2.time@ == c0.hhmm@);
    row
}

/// The row for an activity at `at`, bucketed by its local day; `None` when
/// `at` lies within a day of chrono's range ends. The day and `HH:MM` are
/// `at` read on the local clock (less than a day off UTC).
pub fn make_row(id: String, at: i64, title: String, detail: String, url: Option<String>) -> (r: Option<Row>)
    ensures
        r is Some <==> crate::clock::placeable(at),
        r matches Some(row) ==> github_row_of(row, (id@, at, title@, detail@, text_of(url))),
{
    match local_clock(at) {
        Some(c) => Some(row_at(RowDraft { id, at, title, detail, url }, c)),
        None => None,
    }
}

fn row_of_draft(d: Option<RowDraft>) -> (r: Option<Row>)
    ensures
        r is Some <==> (d matches Some(x) && crate::clock::placeable(x.at)),
        r matches Some(row) ==> d matches Some(x) && github_row_of(row, draft_view(x)),
{
    match d {
        Some(x) => make_row(x.id, x.at, x.title, x.detail, x.url),
        None => None,
    }
}

pub open spec fn opt_view(d: Option<RowDraft>) -> Option<DraftView> {
    match d {
        Some(x) => Some(draft_view(x)),
        None => None,
    }
}

/// The draft a PR or issue the user opened yields.
pub open spec fn opened_spec(item: SearchIssueItem, r: (i64, i64)) -> Option<DraftView> {
    match (issue_ref_spec(item), time_in_range(item.created_at, r), item.id) {
        (Some(i), Some(at), Some(db)) => {
            let kind = if i.3 {
                "pr"@
            } else {
                "issue"@
            };
            let noun = if i.3 {
                "Pull request"@
            } else {
                "Issue"@
            };
            Some(
                (
                    "github:"@ + kind + ":"@ + decimal(db as nat) + ":opened"@,
                    at,
                    with_subject(noun + " #"@ + decimal(i.1 as nat) + " opened"@, subject_of(i.2)),
                    i.0,
                    Some(issue_html_url(i)),
                ),
            )
        },
        _ => None,
    }
}

fn opened_draft(item: &SearchIssueItem, range: &Range) -> (d: Option<RowDraft>)
    ensures
        opt_view(d) == opened_spec(*item, range@),
        d matches Some(x) ==> chrono_instant(x.at),
{
    let issue = match issue_ref(item) {
        Some(i) => i,
        None => return None,
    };
    let at = match timestamp_in_range(&item.created_at, range) {
        Some(t) => t,
        None => return None,
    };
    let db = match item.id {
        Some(x) => x,
        None => return None,
    };
    let (kind, noun) = if issue.is_pr {
        ("pr", "Pull request")
    } else {
        ("issue", "Issue")
    };
    let mut head = String::from_str(noun);
    head.append(" #");
    let n = decimal_string(issue.number);
    head.append(n.as_str());
    head.append(" opened");
    let title = format_with_optional_subject(head, issue.subject());
    let mut id = String::from_str("github:");
    id.append(kind);
    id.append(":");
    let dbs = decimal_string(db);
    id.append(dbs.as_str());
    id.append(":opened");
    let url = issue.html_url();
    Some(RowDraft { id, at, title, detail: issue.repo, url: Some(url) })
}

/// A PR or issue the user opened (a `/search/issues` hit for `author:`).
pub fn map_opened(item: &SearchIssueItem, range: &Range) -> (r: Option<Row>)
    ensures
        r is Some <==> placed(opened_spec(*item, range@)),
        r matches Some(row) ==> opened_spec(*item, range@) matches Some(d) && github_row_of(row, d),
{
    row_of_draft(opened_draft(item, range))
}

pub open spec fn comment_spec(c: IssueComment, i: IssueRefView, user: Seq<char>, r: (i64, i64)) -> Option<DraftView> {
    if !is_user_spec(c.user_login, user) {
        None
    } else {
        match (time_in_range(c.created_at, r), c.id) {
            (Some(at), Some(cid)) => Some(
                (
                    "github:comment:"@ + decimal(cid as nat),
                    at,
                    with_subject("Comment on #"@ + decimal(i.1 as nat), subject_of(i.2)),
                    i.0,
                    Some(issue_html_url(i) + "#issuecomment-"@ + decimal(cid as nat)),
                ),
            ),
            _ => None,
        }
    }
}

fn comment_draft(c: &IssueComment, issue: &IssueRef, user: &str, range: &Range) -> (d: Option<RowDraft>)
    ensures
        opt_view(d) == comment_spec(*c, issue_view(*issue), user@, range@),
        d matches Some(x) ==> chrono_instant(x.at),
{
    if !is_user(&c.user_login, user) {
        return None;
    }
    let at = match timestamp_in_range(&c.created_at, range) {
        Some(t) => t,
        None => return None,
    };
    let cid = match c.id {
        Some(x) => x,
        None => return None,
    };
    let cids = decimal_string(cid);
    let mut head = String::from_str("Comment on #");
    let n = decimal_string(issue.number);
    head.append(n.as_str());
    let title = format_with_optional_subject(head, issue.subject());
    let mut id = String::from_str("github:comment:");
    id.append(cids.as_str());
    let mut url = issue.html_url();
    url.append("#issuecomment-");
    url.append(cids.as_str());
    Some(RowDraft { id, at, title, detail: issue.repo.clone(), url: Some(url) })
}

/// One comment from `/repos/{repo}/issues/{n}/comments`; PR conversation
/// comments arrive here too, and their URL uses `pull/`.
pub fn map_issue_comment(c: &IssueComment, issue: &IssueRef, user: &str, range: &Range) -> (r: Option<Row>)
    ensures
        r is Some <==> placed(comment_spec(*c, issue_view(*issue), user@, range@)),
        r matches Some(row) ==> comment_spec(*c, issue_view(*issue), user@, range@) matches Some(d)
            && github_row_of(row, d),
{
    row_of_draft(comment_draft(c, issue, user, range))
}

/// A review's state as shown: lower-cased, `reviewed` when absent.
pub open spec fn review_state(state: Option<String>) -> Seq<char> {
    match state {
        Some(s) => lower_seq(s@),
        None => "reviewed"@,
    }
}

pub open spec fn review_spec(rv: PrReview, i: IssueRefView, user: Seq<char>, r: (i64, i64)) -> Option<DraftView> {
    let state = review_state(rv.state);
    if !is_user_spec(rv.user_login, user) || state == "pending"@ {
        None
    } else {
        match (time_in_range(rv.submitted_at, r), rv.id) {
            (Some(at), Some(rid)) => Some(
                (
                    "github:review:"@ + decimal(rid as nat),
                    at,
                    with_subject(
                        "PR review ("@ + state + ") on #"@ + decimal(i.1 as nat),
                        subject_of(i.2),
                    ),
                    i.0,
                    Some(issue_html_url(i) + "#pullrequestreview-"@ + decimal(rid as nat)),
                ),
            ),
            _ => None,
        }
    }
}

fn review_draft(rv: &PrReview, pr: &IssueRef, user: &str, range: &Range) -> (d: Option<RowDraft>)
    ensures
        opt_view(d) == review_spec(*rv, issue_view(*pr), user@, range@),
        d matches Some(x) ==> chrono_instant(x.at),
{
    if !is_user(&rv.user_login, user) {
        return None;
    }
    let state = match &rv.state {
        Some(s) => ascii_lowercase(s.as_str()),
        None => String::from_str("reviewed"),
    };
    if same_text(state.as_str(), "pending") {
        return None;
    }
    let at = match timestamp_in_range(&rv.submitted_at, range) {
        Some(t) => t,
        None => return None,
    };
    let rid = match rv.id {
        Some(x) => x,
        None => return None,
    };
    let rids = decimal_string(rid);
    let mut head = String::from_str("PR review (");
    head.append(state.as_str());
    head.append(") on #");
    let n = decimal_string(pr.number);
    head.append(n.as_str());
    let title = format_with_optional_subject(head, pr.subject());
    let mut id = String::from_str("github:review:");
    id.append(rids.as_str());
    let mut url = pr.html_url();
    url.append("#pullrequestreview-");
    url.append(rids.as_str());
    Some(RowDraft { id, at, title, detail: pr.repo.clone(), url: Some(url) })
}

/// One review from `/repos/{repo}/pulls/{n}/reviews`. Pending (unsubmitted)
/// reviews are skipped.
pub fn map_pr_review(rv: &PrReview, pr: &IssueRef, user: &str, range: &Range) -> (r: Option<Row>)
    ensures
        r is Some <==> placed(review_spec(*rv, issue_view(*pr), user@, range@)),
        r matches Some(row) ==> review_spec(*rv, issue_view(*pr), user@, range@) matches Some(d)
            && github_row_of(row, d),
{
    row_of_draft(review_draft(rv, pr, user, range))
}

pub open spec fn review_comment_spec(c: IssueComment, i: IssueRefView, user: Seq<char>, r: (i64, i64)) -> Option<DraftView> {
    if !is_user_spec(c.user_login, user) {
        None
    } else {
        match (time_in_range(c.created_at, r), c.id) {
            (Some(at), Some(cid)) => Some(
                (
                    "github:review-comment:"@ + decimal(cid as nat),
                    at,
                    with_subject("PR review comment on #"@ + decimal(i.1 as nat), subject_of(i.2)),
                    i.0,
                    Some(issue_html_url(i) + "#discussion_r"@ + decimal(cid as nat)),
                ),
            ),
            _ => None,
        }
    }
}

fn review_comment_draft(c: &IssueComment, pr: &IssueRef, user: &str, range: &Range) -> (d: Option<RowDraft>)
    ensures
        opt_view(d) == review_comment_spec(*c, issue_view(*pr), user@, range@),
        d matches Some(x) ==> chrono_instant(x.at),
{
    if !is_user(&c.user_login, user) {
        return None;
    }
    let at = match timestamp_in_range(&c.created_at, range) {
        Some(t) => t,
        None => return None,
    };
    let cid = match c.id {
        Some(x) => x,
        None => return None,
    };
    let cids = decimal_string(cid);
    let mut head = String::from_str("PR review comment on #");
    let n = decimal_string(pr.number);
    head.append(n.as_str());
    let title = format_with_optional_subject(head, pr.subject());
    let mut id = String::from_str("github:review-comment:");
    id.append(cids.as_str());
    let mut url = pr.html_url();
    url.append("#discussion_r");
    url.append(cids.as_str());
    Some(RowDraft { id, at, title, detail: pr.repo.clone(), url: Some(url) })
}

/// One inline comment from `/repos/{repo}/pulls/{n}/comments`.
pub fn map_pr_review_comment(c: &IssueComment, pr: &IssueRef, user: &str, range: &Range) -> (r: Option<Row>)
    ensures
        r is Some <==> placed(review_comment_spec(*c, issue_view(*pr), user@, range@)),
        r matches Some(row) ==> review_comment_spec(*c, issue_view(*pr), user@, range@) matches Some(
            d,
        ) && github_row_of(row, d),
{
    row_of_draft(review_comment_draft(c, pr, user, range))
}

pub open spec fn string_views(v: Seq<String>) -> Seq<Seq<char>> {
    v.map_values(|s: String| s@)
}

/// The first line of a commit message, or `Commit` when there is none or it
/// is blank.
pub open spec fn commit_subject(message: Option<String>) -> Seq<char> {
    let line = match message {
        Some(m) => first_line(m@),
        None => None,
    };
    match line {
        Some(l) => if trim(l).len() > 0 {
            l
        } else {
            "Commit"@
        },
        None => "Commit"@,
    }
}

pub open spec fn commit_spec(item: CommitItem, r: (i64, i64), pushed: Seq<Seq<char>>) -> Option<DraftView> {
    match (item.sha, item.author_date, item.repository_full_name) {
        (Some(sha), Some(date), Some(repo)) => {
            if pushed.contains(sha@) {
                None
            } else {
                match github_time(date@) {
                    Ok(at) => if r.0 <= at < r.1 {
                        Some(
                            (
                                "github:commit:"@ + sha@,
                                at,
                                commit_subject(item.message),
                                repo@ + " \u{2014} "@ + short_hash(sha@),
                                Some(
                                    match item.html_url {
                                        Some(u) => u@,
                                        None => "https://github.com/"@ + repo@ + "/commit/"@ + sha@,
                                    },
                                ),
                            ),
                        )
                    } else {
                        None
                    },
                    Err(_) => None,
                }
            }
        },
        _ => None,
    }
}

fn contains_text(v: &Vec<String>, s: &str) -> (b: bool)
    ensures
        b == string_views(v@).contains(s@),
{
    let mut i: usize = 0;
    while i < v.len()
        invariant
            i <= v.len(),
            forall|j: int| 0 <= j < i ==> v@[j]@ != s@,
        decreases v.len() - i,
    {
        if same_text(v[i].as_str(), s) {
            assert(string_views(v@)[i as int] == s@);
            return true;
        }
        i += 1;
    }
    proof {
        if string_views(v@).contains(s@) {
            let j = choose|j: int| 0 <= j < string_views(v@).len() && string_views(v@)[j] == s@;
            assert(v@[j]@ == s@);
        }
    }
    false
}

fn commit_draft(item: &CommitItem, range: &Range, pushed: &Vec<String>) -> (d: Option<RowDraft>)
    requires
        item.sha matches Some(s) ==> can_shorten(s@),
    ensures
        opt_view(d) == commit_spec(*item, range@, string_views(pushed@)),
        d matches Some(x) ==> chrono_instant(x.at),
{
    let sha = match &item.sha {
        Some(s) => s,
        None => return None,
    };
    let date = match &item.author_date {
        Some(s) => s,
        None => return None,
    };
    let repo = match &item.repository_full_name {
        Some(s) => s,
        None => return None,
    };
    if contains_text(pushed, sha.as_str()) {
        return None;
    }
    let at = match parse_github_datetime(date.as_str()) {
        Ok(t) => t,
        Err(_) => return None,
    };
    if !range.contains(at) {
        return None;
    }
    let line = match &item.message {
        Some(m) => first_line_of(m.as_str()),
        None => None,
    };
    let title = match line {
        Some(l) => {
            if trim_slice(l.as_str()).is_empty() {
                String::from_str("Commit")
            } else {
                l
            }
        },
        None => String::from_str("Commit"),
    };
    let short = short_of_hash(sha.as_str());
    let mut detail = repo.clone();
    detail.append(" \u{2014} ");
    detail.append(short);
    let url = match &item.html_url {
        Some(u) => u.clone(),
        None => {
            let mut u = String::from_str("https://github.com/");
            u.append(repo.as_str());
            u.append("/commit/");
            u.append(sha.as_str());
            u
        },
    };
    let mut id = String::from_str("github:commit:");
    id.append(sha.as_str());
    Some(RowDraft { id, at, title, detail, url: Some(url) })
}

/// One `/search/commits` hit (default branch only, placed by author date).
/// Commits already covered by a push event are skipped.
pub fn map_commit(item: &CommitItem, range: &Range, pushed_shas: &Vec<String>) -> (r: Option<Row>)
    requires
        item.sha matches Some(s) ==> can_shorten(s@),
    ensures
        r is Some <==> placed(commit_spec(*item, range@, string_views(pushed_shas@))),
        r matches Some(row) ==> commit_spec(*item, range@, string_views(pushed_shas@)) matches Some(
            d,
        ) && github_row_of(row, d),
{
    row_of_draft(commit_draft(item, range, pushed_shas))
}

/// The shas a push event carries, in order.
pub open spec fn push_shas_spec(commits: Seq<PushCommit>) -> Seq<Seq<char>>
    decreases commits.len(),
{
    if commits.len() == 0 {
        Seq::empty()
    } else {
        let earlier = push_shas_spec(commits.drop_last());
        match commits.last().sha {
            Some(s) => earlier.push(s@),
            None => earlier,
        }
    }
}

/// Shas of the commits carried by a push event.
pub fn push_event_shas(ev: &GhEvent) -> (r: Vec<String>)
    ensures
        string_views(r@) == push_shas_spec(ev.commits@),
{
    let mut r: Vec<String> = Vec::new();
    let mut i: usize = 0;
    while i < ev.commits.len()
        invariant
            i <= ev.commits.len(),
            string_views(r@) == push_shas_spec(ev.commits@.take(i as int)),
        decreases ev.commits.len() - i,
    {
        assert(ev.commits@.take(i + 1).drop_last() =~= ev.commits@.take(i as int));
        match &ev.commits[i].sha {
            Some(s) => {
                r.push(s.clone());
                assert(string_views(r@) =~= push_shas_spec(ev.commits@.take(i as int)).push(s@));
            },
            None => {},
        }
        i += 1;
    }
    assert(ev.commits@.take(ev.commits.len() as int) =~= ev.commits@);
    r
}

/// The non-empty first lines of a push's commit messages, in order.
pub open spec fn push_messages(commits: Seq<PushCommit>) -> Seq<Seq<char>>
    decreases commits.len(),
{
    if commits.len() == 0 {
        Seq::empty()
    } else {
        let earlier = push_messages(commits.drop_last());
        match commits.last().message {
            Some(m) => {
                let line = match first_line(m@) {
                    Some(l) => l,
                    None => Seq::empty(),
                };
                if line.len() > 0 {
                    earlier.push(line)
                } else {
                    earlier
                }
            },
            None => earlier,
        }
    }
}

/// `parts` joined with `sep`.
pub open spec fn joined(parts: Seq<Seq<char>>, sep: Seq<char>) -> Seq<char>
    decreases parts.len(),
{
    if parts.len() == 0 {
        Seq::empty()
    } else if parts.len() == 1 {
        parts[0]
    } else {
        joined(parts.drop_last(), sep) + sep + parts.last()
    }
}

/// Title, detail and URL of a push row.
#[derive(Debug, Clone)]
pub struct MappedGithub {
    pub title: String,
    pub detail: String,
    pub url: Option<String>,
}

pub open spec fn push_branch(git_ref: Option<String>) -> Seq<char> {
    match git_ref {
        Some(r) => trim_start_all(r@, "refs/heads/"@),
        None => "unknown branch"@,
    }
}

pub open spec fn opt_text_or_empty(o: Option<String>) -> Seq<char> {
    match o {
        Some(s) => s@,
        None => Seq::empty(),
    }
}

/// `(title, detail, url)` of a push event's row; `None` for other events.
/// The Events API strips `html_url` from payloads, so the URL is rebuilt
/// from the repository and the push's before/head shas.
pub open spec fn push_spec(ev: GhEvent) -> Option<(Seq<char>, Seq<char>, Option<Seq<char>>)> {
    if ev.event_type@ != "PushEvent"@ {
        None
    } else {
        let repo = ev.repo_name@;
        let branch = push_branch(ev.git_ref);
        let size: u64 = match ev.size {
            Some(n) => n,
            None => 1,
        };
        let before = opt_text_or_empty(ev.before);
        let head = opt_text_or_empty(ev.head);
        let url = if before.len() > 0 && head.len() > 0 {
            "https://github.com/"@ + repo + "/compare/"@ + before + "..."@ + head
        } else {
            "https://github.com/"@ + repo + "/tree/"@ + branch
        };
        let word = if size == 1 {
            "commit"@
        } else {
            "commits"@
        };
        let messages = push_messages(ev.commits@);
        let detail = if messages.len() == 0 {
            repo
        } else {
            repo + " \u{2014} "@ + joined(messages, "; "@)
        };
        Some(("Pushed "@ + decimal(size as nat) + " "@ + word + " to "@ + branch, detail, Some(url)))
    }
}

pub open spec fn mapped_view(m: MappedGithub) -> (Seq<char>, Seq<char>, Option<Seq<char>>) {
    (m.title@, m.detail@, text_of(m.url))
}

fn push_message_list(commits: &Vec<PushCommit>) -> (r: Vec<String>)
    ensures
        string_views(r@) == push_messages(commits@),
{
    let mut r: Vec<String> = Vec::new();
    let mut i: usize = 0;
    while i < commits.len()
        invariant
            i <= commits.len(),
            string_views(r@) == push_messages(commits@.take(i as int)),
        decreases commits.len() - i,
    {
        assert(commits@.take(i + 1).drop_last() =~= commits@.take(i as int));
        match &commits[i].message {
            Some(m) => {
                let line = match first_line_of(m.as_str()) {
                    Some(l) => l,
                    None => String::new(),
                };
                if !line.as_str().is_empty() {
                    r.push(line);
                    assert(string_views(r@) =~= push_messages(commits@.take(i as int)).push(
                        r@[r.len() - 1]@,
                    ));
                }
            },
            None => {},
        }
        i += 1;
    }
    assert(commits@.take(commits.len() as int) =~= commits@);
    r
}

fn join_texts(parts: &Vec<String>, sep: &str) -> (r: String)
    ensures
        r@ == joined(string_views(parts@), sep@),
{
    let mut r = String::new();
    let mut i: usize = 0;
    while i < parts.len()
        invariant
            i <= parts.len(),
            r@ == joined(string_views(parts@).take(i as int), sep@),
        decreases parts.len() - i,
    {
        let ghost before = string_views(parts@).take(i as int);
        let ghost after = string_views(parts@).take(i + 1);
        assert(after.drop_last() =~= before);
        if i > 0 {
            r.append(sep);
        }
        r.append(parts[i].as_str());
        proof {
            if i == 0 {
                assert(before.len() == 0);
                assert(r@ =~= after[0]);
            } else {
                assert(r@ =~= joined(before, sep@) + sep@ + after.last());
            }
        }
        i += 1;
    }
    assert(string_views(parts@).take(parts.len() as int) =~= string_views(parts@));
    r
}

/// Title, detail and URL of a push event's row; `None` for other events.
pub fn map_push_event(ev: &GhEvent) -> (r: Option<MappedGithub>)
    ensures
        r is None <==> push_spec(*ev) is None,
        r matches Some(m) ==> push_spec(*ev) == Some(mapped_view(m)),
{
    if !same_text(ev.event_type.as_str(), "PushEvent") {
        return None;
    }
    let repo = ev.repo_name.as_str();
    let branch = match &ev.git_ref {
        Some(r) => trim_start_matches_str(r.as_str(), "refs/heads/"),
        None => String::from_str("unknown branch"),
    };
    let size: u64 = match ev.size {
        Some(n) => n,
        None => 1,
    };
    let before = match &ev.before {
        Some(b) => b.clone(),
        None => String::new(),
    };
    let head = match &ev.head {
        Some(h) => h.clone(),
        None => String::new(),
    };
    let mut url = String::from_str("https://github.com/");
    url.append(repo);
    if !before.as_str().is_empty() && !head.as_str().is_empty() {
        url.append("/compare/");
        url.append(before.as_str());
        url.append("...");
        url.append(head.as_str());
    } else {
        url.append("/tree/");
        url.append(branch.as_str());
    }
    let word = if size == 1 {
        "commit"
    } else {
        "commits"
    };
    let messages = push_message_list(&ev.commits);
    let detail = if messages.len() == 0 {
        repo.to_owned()
    } else {
        let mut d = repo.to_owned();
        d.append(" \u{2014} ");
        let j = join_texts(&messages, "; ");
        d.append(j.as_str());
        d
    };
    let mut title = String::from_str("Pushed ");
    let n = decimal_string(size);
    title.append(n.as_str());
    title.append(" ");
    title.append(word);
    title.append(" to ");
    title.append(branch.as_str());
    Some(MappedGithub { title, detail, url: Some(url) })
}

// ---------------------------------------------------------------------------
// Assembling a range
// ---------------------------------------------------------------------------

/// The earliest parseable `created_at` among events.
pub open spec fn oldest_spec(evs: Seq<GhEvent>) -> Option<i64>
    decreases evs.len(),
{
    if evs.len() == 0 {
        None
    } else {
        let rest = oldest_spec(evs.drop_last());
        match github_time(evs.last().created_at@) {
            Ok(t) => match rest {
                Some(m) => Some(if t < m {
                    t
                } else {
                    m
                }),
                None => Some(t),
            },
            Err(_) => rest,
        }
    }
}

pub fn oldest_event_time(events: &Vec<GhEvent>) -> (r: Option<i64>)
    ensures
        r == oldest_spec(events@),
{
    let mut r: Option<i64> = None;
    let mut i: usize = 0;
    while i < events.len()
        invariant
            i <= events.len(),
            r == oldest_spec(events@.take(i as int)),
        decreases events.len() - i,
    {
        assert(events@.take(i + 1).drop_last() =~= events@.take(i as int));
        match parse_github_datetime(events[i].created_at.as_str()) {
            Ok(t) => {
                r = match r {
                    Some(m) => Some(if t < m {
                        t
                    } else {
                        m
                    }),
                    None => Some(t),
                };
            },
            Err(_) => {},
        }
        i += 1;
    }
    assert(events@.take(events.len() as int) =~= events@);
    r
}

/// The push events that count: in the range and not before the horizon, as
/// `(index, created)`. A push event whose time does not parse fails the
/// whole range with that error.
pub open spec fn push_selection(evs: Seq<GhEvent>, horizon: i64, r: (i64, i64)) -> Result<Seq<(usize, i64)>, Seq<char>>
    decreases evs.len(),
{
    if evs.len() == 0 {
        Ok(Seq::empty())
    } else {
        match push_selection(evs.drop_last(), horizon, r) {
            Err(e) => Err(e),
            Ok(sel) => {
                let ev = evs.last();
                if ev.event_type@ != "PushEvent"@ {
                    Ok(sel)
                } else {
                    match github_time(ev.created_at@) {
                        Err(e) => Err(e),
                        Ok(t) => if t < horizon || !(r.0 <= t < r.1) {
                            Ok(sel)
                        } else {
                            Ok(sel.push(((evs.len() - 1) as usize, t)))
                        },
                    }
                }
            },
        }
    }
}

proof fn lemma_selection_indices(evs: Seq<GhEvent>, horizon: i64, r: (i64, i64))
    requires
        evs.len() <= usize::MAX,
    ensures
        push_selection(evs, horizon, r) matches Ok(sel) ==> forall|j: int|
            0 <= j < sel.len() ==> (#[trigger] sel[j]).0 < evs.len() && evs[sel[j].0 as int].event_type@
                == "PushEvent"@,
    decreases evs.len(),
{
    if evs.len() > 0 {
        let prev = evs.drop_last();
        lemma_selection_indices(prev, horizon, r);
        match push_selection(prev, horizon, r) {
            Err(_) => {},
            Ok(ps) => {
                assert forall|j: int| 0 <= j < ps.len() implies (#[trigger] ps[j]).0 < evs.len()
                    && evs[ps[j].0 as int].event_type@ == "PushEvent"@ by {
                    assert(prev[ps[j].0 as int] == evs[ps[j].0 as int]);
                }
                let ev = evs.last();
                if ev.event_type@ == "PushEvent"@ {
                    match github_time(ev.created_at@) {
                        Ok(t) => {
                            if !(t < horizon || !(r.0 <= t < r.1)) {
                                let sel = ps.push(((evs.len() - 1) as usize, t));
                                assert forall|j: int| 0 <= j < sel.len() implies (#[trigger] sel[j]).0
                                    < evs.len() && evs[sel[j].0 as int].event_type@ == "PushEvent"@ by {
                                    if j < ps.len() {
                                        assert(sel[j] == ps[j]);
                                    }
                                }
                            }
                        },
                        Err(_) => {},
                    }
                }
            },
        }
    }
}

/// Picks the push events inside the range and not before the horizon.
pub fn select_push_events(events: &Vec<GhEvent>, horizon: i64, range: &Range) -> (r: Result<Vec<(usize, i64)>, String>)
    ensures
        r matches Ok(v) ==> push_selection(events@, horizon, range@) == Ok::<Seq<(usize, i64)>, Seq<char>>(v@),
        r matches Err(e) ==> push_selection(events@, horizon, range@) == Err::<Seq<(usize, i64)>, Seq<char>>(e@),
        r matches Ok(v) ==> forall|j: int|
            0 <= j < v.len() ==> (#[trigger] v@[j]).0 < events.len() && events@[v@[j].0 as int].event_type@
                == "PushEvent"@,
        r matches Ok(v) ==> forall|j: int| 0 <= j < v.len() ==> chrono_instant((#[trigger] v@[j]).1),
{
    let mut sel: Vec<(usize, i64)> = Vec::new();
    let mut i: usize = 0;
    while i < events.len()
        invariant
            i <= events.len(),
            push_selection(events@.take(i as int), horizon, range@) == Ok::<Seq<(usize, i64)>, Seq<char>>(sel@),
            forall|j: int| 0 <= j < sel.len() ==> chrono_instant((#[trigger] sel@[j]).1),
        decreases events.len() - i,
    {
        assert(events@.take(i + 1).drop_last() =~= events@.take(i as int));
        assert(events@.take(i + 1).last() == events@[i as int]);
        let ev = &events[i];
        if same_text(ev.event_type.as_str(), "PushEvent") {
            match parse_github_datetime(ev.created_at.as_str()) {
                Err(e) => {
                    proof {
                        lemma_selection_prefix_err(events@, horizon, range@, i + 1, e@);
                    }
                    return Err(e);
                },
                Ok(t) => {
                    if t >= horizon && range.contains(t) {
                        let ghost before = sel@;
                        sel.push((i, t));
                        assert forall|j: int| 0 <= j < sel.len() implies chrono_instant((#[trigger] sel@[j]).1) by {
                            if j < before.len() {
                                assert(sel@[j] == before[j]);
                            }
                        }
                    }
                },
            }
        }
        i += 1;
    }
    assert(events@.take(events.len() as int) =~= events@);
    proof {
        lemma_selection_indices(events@, horizon, range@);
    }
    Ok(sel)
}

proof fn lemma_selection_prefix_err(evs: Seq<GhEvent>, horizon: i64, r: (i64, i64), k: int, e: Seq<char>)
    requires
        0 <= k <= evs.len(),
        push_selection(evs.take(k), horizon, r) == Err::<Seq<(usize, i64)>, Seq<char>>(e),
    ensures
        push_selection(evs, horizon, r) == Err::<Seq<(usize, i64)>, Seq<char>>(e),
    decreases evs.len() - k,
{
    if k < evs.len() {
        assert(evs.take(k + 1).drop_last() =~= evs.take(k));
        lemma_selection_prefix_err(evs, horizon, r, k + 1, e);
    } else {
        assert(evs.take(k) =~= evs);
    }
}

/// The draft of a selected push event's row.
pub open spec fn push_draft(ev: GhEvent, created: i64) -> Option<DraftView> {
    match push_spec(ev) {
        Some(m) => Some(("github:"@ + event_id_text(ev.id), created, m.0, m.1, m.2)),
        None => None,
    }
}

/// All shas the selected push events carry, in order.
pub open spec fn selected_shas(evs: Seq<GhEvent>, sel: Seq<(usize, i64)>) -> Seq<Seq<char>>
    decreases sel.len(),
{
    if sel.len() == 0 {
        Seq::empty()
    } else {
        selected_shas(evs, sel.drop_last()) + push_shas_spec(evs[sel.last().0 as int].commits@)
    }
}

pub open spec fn push_drafts(evs: Seq<GhEvent>, sel: Seq<(usize, i64)>) -> Seq<Option<DraftView>> {
    sel.map_values(|p: (usize, i64)| push_draft(evs[p.0 as int], p.1))
}

/// Rows of the selected push events (ids are kept from the Events API, so
/// earlier Harvest marks stay valid) and the shas they carry; commit search
/// skips those shas.
pub fn push_rows(events: &Vec<GhEvent>, selected: &Vec<(usize, i64)>) -> (r: (Vec<Row>, Vec<String>))
    requires
        forall|j: int| 0 <= j < selected.len() ==> (#[trigger] selected@[j]).0 < events.len(),
    ensures
        string_views(r.1@) == selected_shas(events@, selected@),
        placed_rows(r.0@, push_drafts(events@, selected@)),
{
    let ghost drafts = push_drafts(events@, selected@);
    let ghost mut pidx: Seq<int> = Seq::empty();
    let mut rows: Vec<Row> = Vec::new();
    let mut shas: Vec<String> = Vec::new();
    let mut i: usize = 0;
    while i < selected.len()
        invariant
            i <= selected.len(),
            forall|j: int| 0 <= j < selected.len() ==> (#[trigger] selected@[j]).0 < events.len(),
            string_views(shas@) == selected_shas(events@, selected@.take(i as int)),
            drafts == push_drafts(events@, selected@),
            rows_in_order(rows@, drafts, pidx),
            forall|k: int| 0 <= k < pidx.len() ==> #[trigger] pidx[k] < i,
            forall|k: int| 0 <= k < i && placed(#[trigger] drafts[k]) ==> pidx.contains(k),
        decreases selected.len() - i,
    {
        let (idx, created) = selected[i];
        let ev = &events[idx];
        let more = push_event_shas(ev);
        let ghost old_shas = shas@;
        let mut m: usize = 0;
        while m < more.len()
            invariant
                m <= more.len(),
                shas@ == old_shas + more@.take(m as int),
            decreases more.len() - m,
        {
            shas.push(more[m].clone());
            assert(more@.take(m + 1) =~= more@.take(m as int).push(more@[m as int]));
            m += 1;
        }
        proof {
            assert(more@.take(more.len() as int) =~= more@);
            assert(selected@.take(i + 1).drop_last() =~= selected@.take(i as int));
            assert(string_views(shas@) =~= string_views(old_shas) + string_views(more@));
        }
        match map_push_event(ev) {
            Some(mapped) => {
                let mut id = String::from_str("github:");
                let ids = github_event_id_str(&ev.id);
                id.append(ids.as_str());
                match make_row(id, created, mapped.title, mapped.detail, mapped.url) {
                    Some(row) => {
                        proof {
                            assert(selected@[i as int] == (idx, created));
                            lemma_rows_in_order_push(rows@, drafts, pidx, row, i as int);
                            pidx = pidx.push(i as int);
                        }
                        rows.push(row);
                    },
                    None => {},
                }
            },
            None => {},
        }
        i += 1;
    }
    assert(selected@.take(selected.len() as int) =~= selected@);
    (rows, shas)
}

/// Which GitHub requests a range fetch makes.
#[derive(Debug, Clone)]
pub struct GithubPlan {
    /// The search for PRs/issues the user opened.
    pub opened: Option<String>,
    /// The search for issues/PRs the user commented on or reviewed.
    pub candidates: Option<String>,
    pub comments: bool,
    pub reviews: bool,
    pub review_comments: bool,
    pub pushes: bool,
}

pub open spec fn wants(events: Seq<GitHubEvent>, e: GitHubEvent) -> bool {
    events.contains(e)
}

fn enabled(events: &Vec<GitHubEvent>, e: GitHubEvent) -> (b: bool)
    ensures
        b == wants(events@, e),
{
    let mut i: usize = 0;
    while i < events.len()
        invariant
            i <= events.len(),
            forall|j: int| 0 <= j < i ==> events@[j] != e,
        decreases events.len() - i,
    {
        if events[i] == e {
            return true;
        }
        i += 1;
    }
    false
}

/// The requests for the enabled event kinds: at most two issue searches
/// (search requests are the scarce resource), follow-ups per candidate, and
/// pushes.
pub fn github_plan(user: &str, events: &Vec<GitHubEvent>, range: &Range) -> (p: GithubPlan)
    ensures
        text_of(p.opened) == opened_query_text(
            user@,
            wants(events@, GitHubEvent::PullRequestEvent),
            wants(events@, GitHubEvent::IssuesEvent),
            range@,
        ),
        p.comments == wants(events@, GitHubEvent::IssueCommentEvent),
        p.reviews == wants(events@, GitHubEvent::PullRequestReviewEvent),
        p.review_comments == wants(events@, GitHubEvent::PullRequestReviewCommentEvent),
        text_of(p.candidates) == candidate_query_text(user@, p.comments, p.reviews || p.review_comments, range@),
        p.pushes == wants(events@, GitHubEvent::PushEvent),
{
    let opened = opened_query(
        user,
        enabled(events, GitHubEvent::PullRequestEvent),
        enabled(events, GitHubEvent::IssuesEvent),
        range,
    );
    let comments = enabled(events, GitHubEvent::IssueCommentEvent);
    let reviews = enabled(events, GitHubEvent::PullRequestReviewEvent);
    let review_comments = enabled(events, GitHubEvent::PullRequestReviewCommentEvent);
    let candidates = candidate_query(user, comments, reviews || review_comments, range);
    let pushes = enabled(events, GitHubEvent::PushEvent);
    GithubPlan { opened, candidates, comments, reviews, review_comments, pushes }
}

/// The user whose activity is fetched: `None` when GitHub is off, the
/// trimmed username or the token is empty, or no event kind is enabled; an
/// error when the username could smuggle search qualifiers.
pub fn github_user(enabled: bool, username: &str, token: &str, any_event: bool) -> (r: Result<Option<String>, String>)
    ensures
        !enabled || trim(username@).len() == 0 || token@.len() == 0 || !any_event ==> r matches Ok(
            None,
        ),
        enabled && trim(username@).len() > 0 && token@.len() > 0 && any_event ==> (match r {
            Ok(Some(u)) => u@ == trim(username@) && valid_login(trim(username@)),
            Err(m) => !valid_login(trim(username@)) && m@ == invalid_login_message(trim(username@)),
            Ok(None) => false,
        }),
{
    if !enabled {
        return Ok(None);
    }
    let user = trim_slice(username);
    if user.is_empty() || token.is_empty() || !any_event {
        return Ok(None);
    }
    match validate_username(user) {
        Ok(()) => Ok(Some(user.to_owned())),
        Err(m) => Err(m),
    }
}

/// A follow-up list request for one candidate issue or PR.
#[derive(Debug, Clone, Copy, PartialEq, Eq, Structural)]
pub enum FollowUpKind {
    IssueComments,
    PrReviews,
    PrReviewComments,
}

pub open spec fn issue_api_base(i: IssueRefView, segment: Seq<char>) -> Seq<char> {
    api_root() + "/repos/"@ + i.0 + "/"@ + segment + "/"@ + decimal(i.1 as nat)
}

pub open spec fn follow_up_url(kind: FollowUpKind, i: IssueRefView, r: (i64, i64)) -> Seq<char> {
    let since = url_encoded(rfc3339_utc_text(r.0).unwrap());
    match kind {
        FollowUpKind::IssueComments => issue_api_base(i, "issues"@) + "/comments?since="@ + since,
        FollowUpKind::PrReviews => issue_api_base(i, "pulls"@) + "/reviews"@,
        FollowUpKind::PrReviewComments => issue_api_base(i, "pulls"@) + "/comments?since="@ + since,
    }
}

pub open spec fn follow_up_kinds(is_pr: bool, comments: bool, reviews: bool, review_comments: bool) -> Seq<FollowUpKind> {
    let a = if comments {
        seq![FollowUpKind::IssueComments]
    } else {
        Seq::empty()
    };
    let b = if is_pr && reviews {
        seq![FollowUpKind::PrReviews]
    } else {
        Seq::empty()
    };
    let c = if is_pr && review_comments {
        seq![FollowUpKind::PrReviewComments]
    } else {
        Seq::empty()
    };
    a + b + c
}

/// Each follow-up depends on its own switch alone: a candidate's comments
/// are fetched exactly when issue comments are wanted, and a PR's reviews
/// and review comments exactly when each is wanted, whatever the others;
/// no kind is fetched twice, and comments come before reviews, reviews
/// before review comments.
pub proof fn lemma_follow_up_kinds_independent(is_pr: bool, comments: bool, reviews: bool, review_comments: bool)
    ensures
        follow_up_kinds(is_pr, comments, reviews, review_comments).contains(FollowUpKind::IssueComments) <==> comments,
        follow_up_kinds(is_pr, comments, reviews, review_comments).contains(FollowUpKind::PrReviews) <==> is_pr && reviews,
        follow_up_kinds(is_pr, comments, reviews, review_comments).contains(FollowUpKind::PrReviewComments) <==> is_pr
            && review_comments,
        follow_up_kinds(is_pr, comments, reviews, review_comments).len() == (if comments {
            1int
        } else {
            0
        }) + (if is_pr && reviews {
            1int
        } else {
            0
        }) + (if is_pr && review_comments {
            1int
        } else {
            0
        }),
        forall|i: int, j: int|
            0 <= i < j < follow_up_kinds(is_pr, comments, reviews, review_comments).len() ==> kind_rank(
                #[trigger] follow_up_kinds(is_pr, comments, reviews, review_comments)[i],
            ) < kind_rank(#[trigger] follow_up_kinds(is_pr, comments, reviews, review_comments)[j]),
{
    let v = follow_up_kinds(is_pr, comments, reviews, review_comments);
    if comments {
        assert(v[0] == FollowUpKind::IssueComments);
    }
    if is_pr && reviews {
        assert(v[if comments { 1int } else { 0 }] == FollowUpKind::PrReviews);
    }
    if is_pr && review_comments {
        assert(v[v.len() - 1] == FollowUpKind::PrReviewComments);
    }
    assert forall|k: FollowUpKind| v.contains(k) implies (k == FollowUpKind::IssueComments ==> comments) && (k
        == FollowUpKind::PrReviews ==> is_pr && reviews) && (k == FollowUpKind::PrReviewComments ==> is_pr
        && review_comments) by {
        let i = choose|i: int| 0 <= i < v.len() && v[i] == k;
    }
}

/// Position of a follow-up kind in fetch order.
pub open spec fn kind_rank(k: FollowUpKind) -> int {
    match k {
        FollowUpKind::IssueComments => 0,
        FollowUpKind::PrReviews => 1,
        FollowUpKind::PrReviewComments => 2,
    }
}

/// The list URL of one follow-up (the reviews endpoint has no `since`).
pub fn follow_up_url_of(kind: FollowUpKind, issue: &IssueRef, range: &Range) -> (u: String)
    ensures
        u@ == follow_up_url(kind, issue_view(*issue), range@),
{
    let mut u = String::from_str("https://api.github.com");
    u.append("/repos/");
    u.append(issue.repo.as_str());
    u.append("/");
    match kind {
        FollowUpKind::IssueComments => u.append("issues"),
        _ => u.append("pulls"),
    }
    u.append("/");
    let n = decimal_string(issue.number);
    u.append(n.as_str());
    match kind {
        FollowUpKind::PrReviews => {
            u.append("/reviews");
        },
        _ => {
            u.append("/comments?since=");
            let p = range.since_param();
            let e = url_encode(p.as_str());
            u.append(e.as_str());
        },
    }
    u
}

/// The follow-ups a candidate needs: its comments, and for PRs its reviews
/// and review comments, as the plan asks.
pub fn follow_ups(issue: &IssueRef, plan: &GithubPlan) -> (v: Vec<FollowUpKind>)
    ensures
        v@ == follow_up_kinds(issue.is_pr, plan.comments, plan.reviews, plan.review_comments),
{
    let mut v: Vec<FollowUpKind> = Vec::new();
    if plan.comments {
        v.push(FollowUpKind::IssueComments);
    }
    if issue.is_pr && plan.reviews {
        v.push(FollowUpKind::PrReviews);
    }
    if issue.is_pr && plan.review_comments {
        v.push(FollowUpKind::PrReviewComments);
    }
    assert(v@ =~= follow_up_kinds(issue.is_pr, plan.comments, plan.reviews, plan.review_comments));
    v
}

pub open spec fn ref_pick() -> spec_fn(SearchIssueItem) -> Option<IssueRefView> {
    |it: SearchIssueItem| issue_ref_spec(it)
}

pub open spec fn issue_views(v: Seq<IssueRef>) -> Seq<IssueRefView> {
    v.map_values(|i: IssueRef| issue_view(i))
}

/// The candidates among issue search hits: the reference of every hit that
/// has one, in order.
pub fn candidate_refs(items: &Vec<SearchIssueItem>) -> (r: Vec<IssueRef>)
    ensures
        issue_views(r@) == items@.filter_map(ref_pick()),
{
    let ghost f = ref_pick();
    let ghost g = |i: IssueRef| issue_view(i);
    let mut r: Vec<IssueRef> = Vec::new();
    let mut i: usize = 0;
    while i < items.len()
        invariant
            i <= items.len(),
            f == ref_pick(),
            g == (|i: IssueRef| issue_view(i)),
            issue_views(r@) == items@.take(i as int).filter_map(f),
        decreases items.len() - i,
    {
        proof {
            items@.lemma_filter_map_take_succ(f, i as int);
        }
        match issue_ref(&items[i]) {
            Some(x) => {
                let ghost before = r@;
                r.push(x);
                proof {
                    before.lemma_push_map_commute(g, x);
                    assert(r@ =~= before.push(x));
                }
            },
            None => {},
        }
        i += 1;
    }
    assert(items@.take(items.len() as int) =~= items@);
    r
}

/// `rows` are rows of some of `drafts`, in the drafts' order and at most one
/// per draft: the k-th row is the row of draft `idx[k]`, `idx` strictly
/// increasing.
pub open spec fn rows_in_order(rows: Seq<Row>, drafts: Seq<Option<DraftView>>, idx: Seq<int>) -> bool {
    &&& idx.len() == rows.len()
    &&& forall|a: int, b: int| 0 <= a < b < idx.len() ==> #[trigger] idx[a] < #[trigger] idx[b]
    &&& forall|k: int| 0 <= k < idx.len() ==> 0 <= #[trigger] idx[k] < drafts.len() && row_from(drafts[idx[k]], rows[k])
}

/// A draft that exists, whose instant lies a day inside chrono's range, so
/// that it can be placed on the local clock.
pub open spec fn placed(d: Option<DraftView>) -> bool {
    match d {
        Some(x) => crate::clock::placeable(x.1),
        None => false,
    }
}

/// `rows` are the rows of `drafts` in order: exactly one per draft that
/// exists and whose instant chrono can place, none for the others.
pub open spec fn placed_rows(rows: Seq<Row>, drafts: Seq<Option<DraftView>>) -> bool {
    exists|idx: Seq<int>|
        #![trigger rows_in_order(rows, drafts, idx)]
        rows_in_order(rows, drafts, idx) && forall|k: int|
            0 <= k < drafts.len() && placed(#[trigger] drafts[k]) ==> idx.contains(k)
}

proof fn lemma_rows_in_order_push(rows: Seq<Row>, drafts: Seq<Option<DraftView>>, idx: Seq<int>, row: Row, i: int)
    requires
        rows_in_order(rows, drafts, idx),
        forall|k: int| 0 <= k < idx.len() ==> #[trigger] idx[k] < i,
        0 <= i < drafts.len(),
        row_from(drafts[i], row),
    ensures
        rows_in_order(rows.push(row), drafts, idx.push(i)),
        idx.push(i).contains(i),
        forall|k: int| idx.contains(k) ==> idx.push(i).contains(k),
{
    let idx2 = idx.push(i);
    assert(idx2[idx.len() as int] == i);
    assert forall|k: int| idx.contains(k) implies idx2.contains(k) by {
        let j = choose|j: int| 0 <= j < idx.len() && idx[j] == k;
        assert(idx2[j] == k);
    }
    let rows2 = rows.push(row);
    assert forall|a: int, b: int| 0 <= a < b < idx2.len() implies #[trigger] idx2[a] < #[trigger] idx2[b] by {
        if b < idx.len() {
            assert(idx2[a] == idx[a] && idx2[b] == idx[b]);
        } else {
            assert(idx2[a] == idx[a]);
        }
    }
    assert forall|k: int| 0 <= k < idx2.len() implies 0 <= #[trigger] idx2[k] < drafts.len() && row_from(drafts[idx2[k]], rows2[k]) by {
        if k < idx.len() {
            assert(idx2[k] == idx[k]);
            assert(rows2[k] == rows[k]);
        }
    }
}

pub open spec fn opened_drafts(items: Seq<SearchIssueItem>, r: (i64, i64)) -> Seq<Option<DraftView>> {
    items.map_values(|it: SearchIssueItem| opened_spec(it, r))
}

pub open spec fn follow_up_drafts(kind: FollowUpKind, items: Seq<FollowUpItem>, i: IssueRefView, user: Seq<char>, r: (i64, i64)) -> Seq<Option<DraftView>> {
    items.map_values(|it: FollowUpItem| follow_up_spec(kind, it, i, user, r))
}

pub open spec fn commit_drafts(items: Seq<CommitItem>, r: (i64, i64), pushed: Seq<Seq<char>>) -> Seq<Option<DraftView>> {
    items.map_values(|it: CommitItem| commit_spec(it, r, pushed))
}

/// Rows for the opened-search hits.
pub fn opened_rows(items: &Vec<SearchIssueItem>, range: &Range) -> (r: Vec<Row>)
    ensures
        placed_rows(r@, opened_drafts(items@, range@)),
{
    let ghost drafts = opened_drafts(items@, range@);
    let ghost mut idx: Seq<int> = Seq::empty();
    let mut r: Vec<Row> = Vec::new();
    let mut i: usize = 0;
    while i < items.len()
        invariant
            i <= items.len(),
            drafts == opened_drafts(items@, range@),
            rows_in_order(r@, drafts, idx),
            forall|k: int| 0 <= k < idx.len() ==> #[trigger] idx[k] < i,
            forall|k: int| 0 <= k < i && placed(#[trigger] drafts[k]) ==> idx.contains(k),
        decreases items.len() - i,
    {
        match map_opened(&items[i], range) {
            Some(row) => {
                proof {
                    lemma_rows_in_order_push(r@, drafts, idx, row, i as int);
                    idx = idx.push(i as int);
                }
                r.push(row);
            },
            None => {},
        }
        i += 1;
    }
    r
}

/// The draft a follow-up item yields.
pub open spec fn follow_up_spec(kind: FollowUpKind, item: FollowUpItem, i: IssueRefView, user: Seq<char>, r: (i64, i64)) -> Option<DraftView> {
    match (kind, item) {
        (FollowUpKind::IssueComments, FollowUpItem::Comment(c)) => comment_spec(c, i, user, r),
        (FollowUpKind::PrReviews, FollowUpItem::Review(v)) => review_spec(v, i, user, r),
        (FollowUpKind::PrReviewComments, FollowUpItem::Comment(c)) => review_comment_spec(c, i, user, r),
        _ => None,
    }
}

/// One item of a follow-up list.
#[derive(Debug, Clone)]
pub enum FollowUpItem {
    Comment(IssueComment),
    Review(PrReview),
}

/// Rows for the items of one follow-up list of `issue`.
pub fn follow_up_rows(kind: FollowUpKind, items: &Vec<FollowUpItem>, issue: &IssueRef, user: &str, range: &Range) -> (r: Vec<Row>)
    ensures
        placed_rows(r@, follow_up_drafts(kind, items@, issue_view(*issue), user@, range@)),
{
    let ghost drafts = follow_up_drafts(kind, items@, issue_view(*issue), user@, range@);
    let ghost mut idx: Seq<int> = Seq::empty();
    let mut r: Vec<Row> = Vec::new();
    let mut i: usize = 0;
    while i < items.len()
        invariant
            i <= items.len(),
            drafts == follow_up_drafts(kind, items@, issue_view(*issue), user@, range@),
            rows_in_order(r@, drafts, idx),
            forall|k: int| 0 <= k < idx.len() ==> #[trigger] idx[k] < i,
            forall|k: int| 0 <= k < i && placed(#[trigger] drafts[k]) ==> idx.contains(k),
        decreases items.len() - i,
    {
        let row = match (kind, &items[i]) {
            (FollowUpKind::IssueComments, FollowUpItem::Comment(c)) => map_issue_comment(c, issue, user, range),
            (FollowUpKind::PrReviews, FollowUpItem::Review(v)) => map_pr_review(v, issue, user, range),
            (FollowUpKind::PrReviewComments, FollowUpItem::Comment(c)) => map_pr_review_comment(c, issue, user, range),
            _ => None,
        };
        match row {
            Some(row) => {
                proof {
                    lemma_rows_in_order_push(r@, drafts, idx, row, i as int);
                    idx = idx.push(i as int);
                }
                r.push(row);
            },
            None => {},
        }
        i += 1;
    }
    r
}

/// Rows for the commit-search hits not already covered by a push.
pub fn commit_rows(items: &Vec<CommitItem>, range: &Range, pushed: &Vec<String>) -> (r: Vec<Row>)
    requires
        forall|j: int| 0 <= j < items.len() ==> ((#[trigger] items@[j]).sha matches Some(s) ==> can_shorten(s@)),
    ensures
        placed_rows(r@, commit_drafts(items@, range@, string_views(pushed@))),
{
    let ghost drafts = commit_drafts(items@, range@, string_views(pushed@));
    let ghost mut idx: Seq<int> = Seq::empty();
    let mut r: Vec<Row> = Vec::new();
    let mut i: usize = 0;
    while i < items.len()
        invariant
            i <= items.len(),
            forall|j: int| 0 <= j < items.len() ==> ((#[trigger] items@[j]).sha matches Some(s) ==> can_shorten(s@)),
            drafts == commit_drafts(items@, range@, string_views(pushed@)),
            rows_in_order(r@, drafts, idx),
            forall|k: int| 0 <= k < idx.len() ==> #[trigger] idx[k] < i,
            forall|k: int| 0 <= k < i && placed(#[trigger] drafts[k]) ==> idx.contains(k),
        decreases items.len() - i,
    {
        match map_commit(&items[i], range, pushed) {
            Some(row) => {
                proof {
                    lemma_rows_in_order_push(r@, drafts, idx, row, i as int);
                    idx = idx.push(i as int);
                }
                r.push(row);
            },
            None => {},
        }
        i += 1;
    }
    r
}

/// Whether `row` is the row of a draft that exists.
pub open spec fn row_from(d: Option<DraftView>, row: Row) -> bool {
    match d {
        Some(x) => github_row_of(row, x),
        None => false,
    }
}

/// The rows of a range fetch ordered by time, and the days it could not
/// fetch completely (all of them, when any search was incomplete); such days
/// must not be cached.
pub fn finish_range(rows: Vec<Row>, complete: bool, start: i32, end: i32) -> (r: (Vec<Row>, Vec<i32>))
    ensures
        r.0@ == rows_by_time(rows@),
        r.1@ == (if complete {
            Seq::<i32>::empty()
        } else {
            days_from_to(start, end)
        }),
{
    let sorted = sort_rows_by_time(rows);
    let incomplete = if complete {
        Vec::new()
    } else {
        days_between(start, end)
    };
    (sorted, incomplete)
}

/// Why a connection test cannot start.
pub fn connection_problem(username: &str, token: &str) -> (r: Option<String>)
    ensures
        r is None <==> username@.len() > 0 && token@.len() > 0,
        r matches Some(m) ==> m@ == "Username and Personal Access Token are required"@,
{
    if username.is_empty() || token.is_empty() {
        Some(String::from_str("Username and Personal Access Token are required"))
    } else {
        None
    }
}

/// The connection test's error for an HTTP error status.
pub fn connection_status_error(status: u16) -> (m: String)
    ensures
        m@ == "GitHub API returned HTTP "@ + decimal(status as nat) + " \u{2014} check your username and token"@,
{
    let mut m = String::from_str("GitHub API returned HTTP ");
    let s = decimal_string(status as u64);
    m.append(s.as_str());
    m.append(" \u{2014} check your username and token");
    m
}


/// The push horizon is never before the range start nor before the Events
/// API's 90-day floor; when paging reached the range start, it is the later
/// of those two.
pub proof fn lemma_push_horizon_bounds(reached_since: bool, oldest: Option<i64>, r: (i64, i64), now: i64)
    requires
        now >= i64::MIN + EVENTS_API_MAX_AGE_SECS,
    ensures
        push_horizon_spec(reached_since, oldest, r, now) >= r.0,
        push_horizon_spec(reached_since, oldest, r, now) >= now - EVENTS_API_MAX_AGE_SECS,
        reached_since ==> push_horizon_spec(reached_since, oldest, r, now) == max_i64(
            r.0,
            (now - EVENTS_API_MAX_AGE_SECS) as i64,
        ),
{
}

proof fn lemma_selected_shas_contains(evs: Seq<GhEvent>, sel: Seq<(usize, i64)>, j: int, sha: Seq<char>)
    requires
        0 <= j < sel.len(),
        push_shas_spec(evs[sel[j].0 as int].commits@).contains(sha),
    ensures
        selected_shas(evs, sel).contains(sha),
    decreases sel.len(),
{
    let rest = sel.drop_last();
    let tail = push_shas_spec(evs[sel.last().0 as int].commits@);
    assert(selected_shas(evs, sel) == selected_shas(evs, rest) + tail);
    if j < sel.len() - 1 {
        assert(rest[j] == sel[j]);
        lemma_selected_shas_contains(evs, rest, j, sha);
        let k = choose|k: int| 0 <= k < selected_shas(evs, rest).len() && selected_shas(evs, rest)[k] == sha;
        assert((selected_shas(evs, rest) + tail)[k] == sha);
    } else {
        let k = choose|k: int| 0 <= k < tail.len() && tail[k] == sha;
        assert((selected_shas(evs, rest) + tail)[selected_shas(evs, rest).len() + k] == sha);
    }
}

/// A commit that a selected push event carries never gets a second row from
/// commit search: with the pushes' shas as `pushed`, its draft is `None`.
pub proof fn lemma_pushed_commit_not_repeated(evs: Seq<GhEvent>, sel: Seq<(usize, i64)>, j: int, item: CommitItem, r: (i64, i64))
    requires
        0 <= j < sel.len(),
        item.sha matches Some(s) && push_shas_spec(evs[sel[j].0 as int].commits@).contains(s@),
    ensures
        commit_spec(item, r, selected_shas(evs, sel)) is None,
{
    let s = item.sha->0;
    lemma_selected_shas_contains(evs, sel, j, s@);
}

} // verus!
