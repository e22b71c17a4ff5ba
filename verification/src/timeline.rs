//! Timeline events, the shape every activity source normalises to.
use vstd::prelude::*;

use crate::text::{chars_of, lower_chars, lower_seq, string_of, trim, trim_chars};

verus! {

/// Activity source for the day timeline.
#[derive(Debug, Clone, Copy, PartialEq, Eq, Structural)]
pub enum TimelineEventSource {
    Git,
    Github,
    Calendar,
    Gmail,
    Drive,
    Jira,
    Zulip,
}

/// One row on the timeline (all sources normalize to this shape).
#[derive(Debug, Clone, PartialEq)]
pub struct TimelineEvent {
    /// Stable id for UI state; namespaced per source (`git:…`, `zulip:…`).
    pub id: String,
    /// Local time `HH:MM` on the selected calendar day.
    pub time: String,
    /// UTC unix seconds.
    pub timestamp: i64,
    pub source: TimelineEventSource,
    pub title: String,
    pub detail: Option<String>,
    pub url: Option<String>,
}

/// The text of an optional string.
pub open spec fn text_of(o: Option<String>) -> Option<Seq<char>> {
    match o {
        Some(s) => Some(s@),
        None => None,
    }
}

fn copy_text(o: &Option<String>) -> (r: Option<String>)
    ensures
        r == *o,
{
    match o {
        Some(s) => Some(s.clone()),
        None => None,
    }
}

/// A field-by-field copy of an event.
pub fn copy_event(e: &TimelineEvent) -> (r: TimelineEvent)
    ensures
        r == *e,
{
    TimelineEvent {
        id: e.id.clone(),
        time: e.time.clone(),
        timestamp: e.timestamp,
        source: e.source,
        title: e.title.clone(),
        detail: copy_text(&e.detail),
        url: copy_text(&e.url),
    }
}

pub open spec fn http_scheme() -> Seq<char> {
    seq!['h', 't', 't', 'p', ':', '/', '/']
}

pub open spec fn https_scheme() -> Seq<char> {
    seq!['h', 't', 't', 'p', 's', ':', '/', '/']
}

/// A URL is accepted when, trimmed, it is non-empty and starts with
/// `http://` or `https://` in any letter case.
pub open spec fn is_http_url(trimmed: Seq<char>) -> bool {
    trimmed.len() > 0 && (http_scheme().is_prefix_of(lower_seq(trimmed))
        || https_scheme().is_prefix_of(lower_seq(trimmed)))
}

/// What `sanitize_event_url` returns for `raw`.
pub open spec fn sanitized_url(raw: Seq<char>) -> Option<Seq<char>> {
    if is_http_url(trim(raw)) {
        Some(trim(raw))
    } else {
        None
    }
}

pub fn scheme_chars(secure: bool) -> (v: Vec<char>)
    ensures
        v@ == if secure { https_scheme() } else { http_scheme() },
{
    if secure {
        let v = chars_of("https://");
        proof {
            reveal_strlit("https://");
        }
        assert(v@ =~= https_scheme());
        v
    } else {
        let v = chars_of("http://");
        proof {
            reveal_strlit("http://");
        }
        assert(v@ =~= http_scheme());
        v
    }
}

/// Return the input, trimmed, only if it is an http(s) URL; otherwise None.
/// Event URLs come from external feeds, so anything that could launch a
/// non-http handler is refused.
pub fn sanitize_event_url(raw: &str) -> (r: Option<String>)
    ensures
        text_of(r) == sanitized_url(raw@),
{
    let chars = chars_of(raw);
    let t = trim_chars(&chars);
    if t.len() == 0 {
        return None;
    }
    let low = lower_chars(&t);
    let http = scheme_chars(false);
    let https = scheme_chars(true);
    if crate::text::starts_with_chars(&low, &http) || crate::text::starts_with_chars(&low, &https) {
        Some(string_of(&t))
    } else {
        None
    }
}


/// Sanitizing is stable: a URL that passed comes through a second pass
/// unchanged.
pub proof fn lemma_sanitize_idempotent(raw: Seq<char>)
    ensures
        sanitized_url(raw) matches Some(u) ==> sanitized_url(u) == Some(u),
{
    crate::text::lemma_trim_idempotent(raw);
}


} // verus!
