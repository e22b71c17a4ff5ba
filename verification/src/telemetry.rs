//! Privacy-first usage telemetry: counter keys, buckets and error classes,
//! and the daily summary assembled from booleans, buckets and identifiers
//! only.
use vstd::prelude::*;
use vstd::string::StringSliceAdditionalSpecFns;

use crate::text::{chars_of, contains_chars, has_infix, lower, lower_chars, lower_seq, string_of, trim, trim_str};

verus! {

pub const MAX_KEY_LEN: usize = 64;

pub const MAX_GAUGE_LEN: usize = 32;

/// Bumped whenever the payload shape changes.
pub const SCHEMA_VERSION: u32 = 2;

pub open spec fn key_char(c: char) -> bool {
    ('a' <= c && c <= 'z') || ('0' <= c && c <= '9') || c == '_' || c == '.'
}

/// Counter keys are dotted lowercase identifiers of at most 64 characters
/// (all ASCII, so also at most 64 bytes).
pub open spec fn is_valid_key(key: Seq<char>) -> bool {
    key.len() > 0 && key.len() <= MAX_KEY_LEN && forall|i: int|
        0 <= i < key.len() ==> key_char(#[trigger] key[i])
}

/// Counter keys are dotted lowercase identifiers (`nav.prev`,
/// `error.github.auth`); anything else is dropped so a stray value can never
/// leak into the payload.
pub fn valid_key(key: &str) -> (b: bool)
    ensures
        b == is_valid_key(key@),
{
    let v = chars_of(key);
    if v.len() == 0 || v.len() > MAX_KEY_LEN {
        return false;
    }
    let mut i: usize = 0;
    while i < v.len()
        invariant
            v@ == key@,
            i <= v.len(),
            forall|j: int| 0 <= j < i ==> key_char(#[trigger] v@[j]),
        decreases v.len() - i,
    {
        let c = v[i];
        if !(('a' <= c && c <= 'z') || ('0' <= c && c <= '9') || c == '_' || c == '.') {
            assert(!key_char(key@[i as int]));
            return false;
        }
        i += 1;
    }
    assert forall|j: int| 0 <= j < key@.len() implies key_char(#[trigger] key@[j]) by {
        assert(key@[j] == v@[j]);
    }
    true
}

/// The coarse class of an error message (ASCII case-insensitive):
/// authentication, rate limiting, network, configuration, or other.
pub open spec fn error_class(m: Seq<char>) -> Seq<char> {
    if has_infix(m, "401"@) || has_infix(m, "403"@) || has_infix(m, "unauthori"@) || has_infix(
        m,
        "forbidden"@,
    ) || has_infix(m, "authentication"@) || has_infix(m, "invalid token"@) || has_infix(
        m,
        "bad credentials"@,
    ) {
        "auth"@
    } else if has_infix(m, "429"@) || has_infix(m, "rate limit"@) || has_infix(
        m,
        "too many requests"@,
    ) {
        "rate_limit"@
    } else if has_infix(m, "timed out"@) || has_infix(m, "timeout"@) || has_infix(m, "dns"@)
        || has_infix(m, "connection"@) || has_infix(m, "connect"@) || has_infix(m, "network"@)
        || has_infix(m, "io error"@) {
        "network"@
    } else if has_infix(m, "required"@) || has_infix(m, "not a directory"@) || has_infix(
        m,
        "not configured"@,
    ) || has_infix(m, "missing"@) || has_infix(m, "not found"@) {
        "config"@
    } else {
        "other"@
    }
}

/// The markers of an authentication failure.
pub open spec fn auth_markers() -> Seq<Seq<char>> {
    seq!["401"@, "403"@, "unauthori"@, "forbidden"@, "authentication"@, "invalid token"@, "bad credentials"@]
}

/// An authentication failure is always classed `auth`: any message that,
/// ASCII-lower-cased, mentions 401, 403, unauthori(s|z)ed, forbidden,
/// authentication, an invalid token or bad credentials, whatever else it
/// says; and every message falls into one of the five classes.
pub proof fn lemma_auth_errors_classed_auth(message: Seq<char>, marker: int)
    ensures
        0 <= marker < auth_markers().len() && has_infix(lower_seq(message), auth_markers()[marker]) ==> error_class(
            lower_seq(message),
        ) == "auth"@,
        ({
            let c = error_class(lower_seq(message));
            c == "auth"@ || c == "rate_limit"@ || c == "network"@ || c == "config"@ || c == "other"@
        }),
{
}

/// The markers of rate limiting.
pub open spec fn rate_limit_markers() -> Seq<Seq<char>> {
    seq!["429"@, "rate limit"@, "too many requests"@]
}

/// Rate limiting is classed `rate_limit` unless the message also reports an
/// authentication failure.
pub proof fn lemma_rate_limits_classed_rate_limit(message: Seq<char>, marker: int)
    requires
        0 <= marker < rate_limit_markers().len(),
        has_infix(lower_seq(message), rate_limit_markers()[marker]),
        forall|i: int| 0 <= i < auth_markers().len() ==> !has_infix(lower_seq(message), #[trigger] auth_markers()[i]),
    ensures
        error_class(lower_seq(message)) == "rate_limit"@,
{
    assert(!has_infix(lower_seq(message), auth_markers()[0]));
    assert(!has_infix(lower_seq(message), auth_markers()[1]));
    assert(!has_infix(lower_seq(message), auth_markers()[2]));
    assert(!has_infix(lower_seq(message), auth_markers()[3]));
    assert(!has_infix(lower_seq(message), auth_markers()[4]));
    assert(!has_infix(lower_seq(message), auth_markers()[5]));
    assert(!has_infix(lower_seq(message), auth_markers()[6]));
}

fn has(m: &Vec<char>, needle: &str) -> (b: bool)
    ensures
        b == has_infix(m@, needle@),
{
    let n = chars_of(needle);
    contains_chars(m, &n)
}

/// Map an error message onto a handful of classes. Only the class is sent.
pub fn classify_error(message: &str) -> (r: &'static str)
    ensures
        r@ == error_class(lower_seq(message@)),
{
    let raw = chars_of(message);
    let m = lower_chars(&raw);
    if has(&m, "401") || has(&m, "403") || has(&m, "unauthori") || has(&m, "forbidden") || has(
        &m,
        "authentication",
    ) || has(&m, "invalid token") || has(&m, "bad credentials") {
        "auth"
    } else if has(&m, "429") || has(&m, "rate limit") || has(&m, "too many requests") {
        "rate_limit"
    } else if has(&m, "timed out") || has(&m, "timeout") || has(&m, "dns") || has(&m, "connection")
        || has(&m, "connect") || has(&m, "network") || has(&m, "io error") {
        "network"
    } else if has(&m, "required") || has(&m, "not a directory") || has(&m, "not configured") || has(
        &m,
        "missing",
    ) || has(&m, "not found") {
        "config"
    } else {
        "other"
    }
}

pub open spec fn duration_class(ms: u64) -> Seq<char> {
    if ms <= 999 {
        "lt1s"@
    } else if ms <= 2999 {
        "1to3s"@
    } else if ms <= 9999 {
        "3to10s"@
    } else {
        "gt10s"@
    }
}

/// Bucket of a fetch duration in milliseconds.
pub fn duration_bucket(ms: u64) -> (r: &'static str)
    ensures
        r@ == duration_class(ms),
{
    if ms <= 999 {
        "lt1s"
    } else if ms <= 2999 {
        "1to3s"
    } else if ms <= 9999 {
        "3to10s"
    } else {
        "gt10s"
    }
}

pub open spec fn events_class(n: usize) -> Seq<char> {
    if n == 0 {
        "0"@
    } else if n <= 10 {
        "1to10"@
    } else if n <= 50 {
        "11to50"@
    } else {
        "50plus"@
    }
}

/// Bucket of how many events a source returned for one day.
pub fn events_bucket(n: usize) -> (r: &'static str)
    ensures
        r@ == events_class(n),
{
    if n == 0 {
        "0"
    } else if n <= 10 {
        "1to10"
    } else if n <= 50 {
        "11to50"
    } else {
        "50plus"
    }
}

pub open spec fn count_class(n: usize) -> Seq<char> {
    if n == 0 {
        "0"@
    } else if n == 1 {
        "1"@
    } else if n == 2 {
        "2"@
    } else {
        "3plus"@
    }
}

/// Bucket of a small configuration count (e.g. calendar URLs).
pub fn count_bucket(n: usize) -> (r: &'static str)
    ensures
        r@ == count_class(n),
{
    if n == 0 {
        "0"
    } else if n == 1 {
        "1"
    } else if n == 2 {
        "2"
    } else {
        "3plus"
    }
}

pub const DAY_MS: i64 = 86_400_000;

/// Whole days since the install was first seen; clock skew counts as 0.
pub open spec fn install_age_days(first_seen_ms: i64, now_ms: i64) -> int {
    if now_ms - first_seen_ms < 0 {
        0
    } else {
        (now_ms - first_seen_ms) / (DAY_MS as int)
    }
}

pub open spec fn install_age_class(first_seen_ms: i64, now_ms: i64) -> Seq<char> {
    let days = install_age_days(first_seen_ms, now_ms);
    if days <= 7 {
        "0to7d"@
    } else if days <= 30 {
        "8to30d"@
    } else if days <= 90 {
        "31to90d"@
    } else if days <= 365 {
        "91to365d"@
    } else {
        "365dplus"@
    }
}

/// Bucket of how long ago the install was first seen.
pub fn install_age_bucket(first_seen_ms: i64, now_ms: i64) -> (r: &'static str)
    requires
        i64::MIN <= now_ms - first_seen_ms <= i64::MAX,
    ensures
        r@ == install_age_class(first_seen_ms, now_ms),
{
    let diff = now_ms - first_seen_ms;
    let days = if diff < 0 {
        0
    } else {
        diff / DAY_MS
    };
    if days <= 7 {
        "0to7d"
    } else if days <= 30 {
        "8to30d"
    } else if days <= 90 {
        "31to90d"
    } else if days <= 365 {
        "91to365d"
    } else {
        "365dplus"
    }
}


/// `{prefix}.{source, lowercased}.{class}`.
pub open spec fn dotted_key(prefix: Seq<char>, source: Seq<char>, class: Seq<char>) -> Seq<char> {
    prefix + "."@ + lower_seq(source) + "."@ + class
}

fn dotted(prefix: &str, source: &str, class: &str) -> (r: String)
    ensures
        r@ == dotted_key(prefix@, source@, class@),
{
    let mut k = String::from_str(prefix);
    k.append(".");
    let src = chars_of(source);
    let low = string_of(&lower_chars(&src));
    k.append(low.as_str());
    k.append(".");
    k.append(class);
    k
}

/// Counter key for how long a source took for one fetch; `prefix` is
/// `load_ms` for a single-day load and `range_ms` for a range fetch.
pub fn source_timing_key(prefix: &str, source: &str, elapsed_ms: u64) -> (r: String)
    ensures
        r@ == dotted_key(prefix@, source@, duration_class(elapsed_ms)),
{
    dotted(prefix, source, duration_bucket(elapsed_ms))
}

/// Counter key for how many events a source returned for one day.
pub fn source_events_key(source: &str, count: usize) -> (r: String)
    ensures
        r@ == dotted_key("events"@, source@, events_class(count)),
{
    dotted("events", source, events_bucket(count))
}

/// Counter key for a source failure; only the coarse class is kept, never
/// the message.
pub fn source_error_key(source: &str, error: &str) -> (r: String)
    ensures
        r@ == dotted_key("error"@, source@, error_class(lower_seq(error@))),
{
    dotted("error", source, classify_error(error))
}

/// A gauge is stored only when both its name and its value are valid keys
/// and the value is at most 32 bytes.
pub fn gauge_accepted(name: &str, value: &str) -> (b: bool)
    ensures
        b == (is_valid_key(name@) && is_valid_key(value@) && value@.len() <= MAX_GAUGE_LEN),
{
    valid_key(name) && valid_key(value) && value.unicode_len() <= MAX_GAUGE_LEN
}

/// Settings key under which gauge `name` is stored.
pub fn gauge_setting_key(name: &str) -> (r: String)
    ensures
        r@ == "telemetry_gauge_"@ + name@,
{
    let mut k = String::from_str("telemetry_gauge_");
    k.append(name);
    k
}

/// A short identifier-like string passes; anything else (free text) is
/// replaced by nothing.
pub open spec fn identifier_value(v: Option<String>) -> Option<Seq<char>> {
    match v {
        Some(s) => if is_valid_key(s@) && s@.len() <= MAX_GAUGE_LEN {
            Some(s@)
        } else {
            None
        },
        None => None,
    }
}

pub fn sanitized_str(v: &Option<String>) -> (r: Option<String>)
    ensures
        crate::timeline::text_of(r) == identifier_value(*v),
{
    match v {
        Some(s) => if valid_key(s.as_str()) && s.as_str().unicode_len() <= MAX_GAUGE_LEN {
            Some(s.clone())
        } else {
            None
        },
        None => None,
    }
}

pub open spec fn alnum(c: char) -> bool {
    ('a' <= c && c <= 'z') || ('A' <= c && c <= 'Z') || ('0' <= c && c <= '9')
}

/// An enum variant name as serde writes it: at most 32 ASCII letters and
/// digits.
pub open spec fn is_variant_name(s: Seq<char>) -> bool {
    s.len() <= MAX_GAUGE_LEN && forall|i: int| 0 <= i < s.len() ==> alnum(#[trigger] s[i])
}

pub open spec fn keep_variant() -> spec_fn(Option<String>) -> Option<Seq<char>> {
    |v: Option<String>|
        match v {
            Some(s) => if is_variant_name(s@) {
                Some(s@)
            } else {
                None
            },
            None => None,
        }
}

fn variant_name(s: &str) -> (b: bool)
    ensures
        b == is_variant_name(s@),
{
    let v = chars_of(s);
    if v.len() > MAX_GAUGE_LEN {
        return false;
    }
    let mut i: usize = 0;
    while i < v.len()
        invariant
            v@ == s@,
            i <= v.len(),
            forall|j: int| 0 <= j < i ==> alnum(#[trigger] v@[j]),
        decreases v.len() - i,
    {
        let c = v[i];
        if !(('a' <= c && c <= 'z') || ('A' <= c && c <= 'Z') || ('0' <= c && c <= '9')) {
            assert(!alnum(s@[i as int]));
            return false;
        }
        i += 1;
    }
    assert forall|j: int| 0 <= j < s@.len() implies alnum(#[trigger] s@[j]) by {
        assert(s@[j] == v@[j]);
    }
    true
}

pub open spec fn views(v: Seq<String>) -> Seq<Seq<char>> {
    v.map_values(|s: String| s@)
}

/// The string entries of a JSON array that look like enum variant names;
/// an absent array gives none.
pub fn enum_names(v: &Option<Vec<Option<String>>>) -> (r: Vec<String>)
    ensures
        views(r@) == match v {
            Some(a) => a@.filter_map(keep_variant()),
            None => Seq::empty(),
        },
{
    let mut r: Vec<String> = Vec::new();
    match v {
        Some(a) => {
            let ghost f = keep_variant();
            let mut i: usize = 0;
            while i < a.len()
                invariant
                    i <= a.len(),
                    f == keep_variant(),
                    views(r@) == a@.take(i as int).filter_map(f),
                decreases a.len() - i,
            {
                proof {
                    a@.lemma_filter_map_take_succ(f, i as int);
                }
                let ghost before = r@;
                match &a[i] {
                    Some(s) => {
                        if variant_name(s.as_str()) {
                            r.push(s.clone());
                            proof {
                                before.lemma_push_map_commute(|s: String| s@, r@.last());
                                assert(r@ =~= before.push(r@.last()));
                            }
                        }
                    },
                    None => {},
                }
                i += 1;
            }
            assert(a@.take(a@.len() as int) =~= a@);
        },
        None => {
            assert(views(r@) =~= Seq::empty());
        },
    }
    r
}

pub open spec fn nonblank(v: Option<String>) -> bool {
    v matches Some(s) && trim(s@).len() > 0
}

/// How many entries of a JSON array are non-blank strings.
pub open spec fn nonblank_count(a: Seq<Option<String>>) -> nat
    decreases a.len(),
{
    if a.len() == 0 {
        0
    } else {
        nonblank_count(a.drop_last()) + if nonblank(a.last()) {
            1nat
        } else {
            0nat
        }
    }
}

fn is_nonblank(v: &Option<String>) -> (b: bool)
    ensures
        b == nonblank(*v),
{
    match v {
        Some(s) => {
            let t = trim_str(s.as_str());
            !t.as_str().is_empty()
        },
        None => false,
    }
}

/// Number of configured calendar URLs that are not blank.
pub fn ical_url_count(urls: &Option<Vec<Option<String>>>) -> (n: usize)
    ensures
        n == match urls {
            Some(a) => nonblank_count(a@),
            None => 0,
        },
{
    match urls {
        Some(a) => {
            let mut n: usize = 0;
            let mut i: usize = 0;
            while i < a.len()
                invariant
                    i <= a.len(),
                    n == nonblank_count(a@.take(i as int)),
                    n <= i,
                decreases a.len() - i,
            {
                assert(a@.take(i + 1).drop_last() =~= a@.take(i as int));
                if is_nonblank(&a[i]) {
                    n += 1;
                }
                i += 1;
            }
            assert(a@.take(a@.len() as int) =~= a@);
            n
        },
        None => 0,
    }
}

/// What the daily summary reads from the stored settings and gauges, as
/// plain values: booleans as found (absent when missing or not a boolean),
/// arrays of strings (non-strings as `None`), and single strings.
pub struct SettingsSnapshot {
    pub theme: Option<String>,
    pub lang_gauge: Option<String>,
    pub group_mode_gauge: Option<String>,
    pub git_enabled: Option<bool>,
    pub github_enabled: Option<bool>,
    pub calendar_enabled: Option<bool>,
    pub jira_enabled: Option<bool>,
    pub zulip_enabled: Option<bool>,
    pub github_events: Option<Vec<Option<String>>>,
    pub jira_events: Option<Vec<Option<String>>>,
    pub ical_urls: Option<Vec<Option<String>>>,
    pub export_prompt: Option<String>,
}

/// Which features are configured, as booleans and buckets only.
pub struct ConfigSummary {
    pub git: bool,
    pub github: bool,
    pub calendar: bool,
    pub jira: bool,
    pub zulip: bool,
    pub github_events: Vec<String>,
    pub jira_events: Vec<String>,
    pub ical_urls: String,
    pub custom_export_prompt: bool,
}

/// The daily summary: exactly what leaves the machine, apart from the app
/// version, OS family and CPU architecture.
pub struct Payload {
    pub id: String,
    pub date: String,
    pub schema: u32,
    pub lang: Option<String>,
    pub theme: Option<String>,
    pub group_mode: Option<String>,
    pub install_age: String,
    pub config: ConfigSummary,
    pub counters: Vec<(String, i64)>,
}

pub open spec fn flag(v: Option<bool>) -> bool {
    v == Some(true)
}

/// The event kinds a summary lists for a stored array.
pub open spec fn kinds_of(a: Option<Vec<Option<String>>>) -> Seq<Seq<char>> {
    match a {
        Some(a) => a@.filter_map(keep_variant()),
        None => Seq::empty(),
    }
}

/// How many calendar URLs are configured (non-blank entries).
pub open spec fn url_count(a: Option<Vec<Option<String>>>) -> nat {
    match a {
        Some(a) => nonblank_count(a@),
        None => 0,
    }
}

/// A summary as plain values.
pub type SummaryView = (
    Seq<char>,
    Seq<char>,
    u32,
    Option<Seq<char>>,
    Option<Seq<char>>,
    Option<Seq<char>>,
    Seq<char>,
    (bool, bool, bool, bool, bool, Seq<Seq<char>>, Seq<Seq<char>>, Seq<char>, bool),
    Seq<(String, i64)>,
);

pub open spec fn payload_view(p: Payload) -> SummaryView {
    (
        p.id@,
        p.date@,
        p.schema,
        crate::timeline::text_of(p.lang),
        crate::timeline::text_of(p.theme),
        crate::timeline::text_of(p.group_mode),
        p.install_age@,
        (
            p.config.git,
            p.config.github,
            p.config.calendar,
            p.config.jira,
            p.config.zulip,
            views(p.config.github_events@),
            views(p.config.jira_events@),
            p.config.ical_urls@,
            p.config.custom_export_prompt,
        ),
        p.counters@,
    )
}

/// The summary for an install, a day, its install age, the counters and a
/// settings snapshot: gauges and theme only as short identifiers, the
/// sources as flags, event kinds as enum names, the calendar URLs as a count
/// bucket and the export prompt as whether one is set.
pub open spec fn summary_of(
    install_id: Seq<char>,
    date: Seq<char>,
    first_seen_ms: i64,
    now_ms: i64,
    counters: Seq<(String, i64)>,
    s: SettingsSnapshot,
) -> SummaryView {
    (
        install_id,
        date,
        SCHEMA_VERSION,
        identifier_value(s.lang_gauge),
        identifier_value(s.theme),
        identifier_value(s.group_mode_gauge),
        install_age_class(first_seen_ms, now_ms),
        (
            flag(s.git_enabled),
            flag(s.github_enabled),
            flag(s.calendar_enabled),
            flag(s.jira_enabled),
            flag(s.zulip_enabled),
            kinds_of(s.github_events),
            kinds_of(s.jira_events),
            count_class(url_count(s.ical_urls) as usize),
            nonblank(s.export_prompt),
        ),
        counters,
    )
}

/// Two snapshots that differ only in free text: the same gauges, theme,
/// flags and event kinds, as many non-blank calendar URLs, and an export
/// prompt set in both or in neither.
pub open spec fn differ_in_free_text_only(s1: SettingsSnapshot, s2: SettingsSnapshot) -> bool {
    &&& s1.theme == s2.theme
    &&& s1.lang_gauge == s2.lang_gauge
    &&& s1.group_mode_gauge == s2.group_mode_gauge
    &&& s1.git_enabled == s2.git_enabled
    &&& s1.github_enabled == s2.github_enabled
    &&& s1.calendar_enabled == s2.calendar_enabled
    &&& s1.jira_enabled == s2.jira_enabled
    &&& s1.zulip_enabled == s2.zulip_enabled
    &&& kinds_of(s1.github_events) == kinds_of(s2.github_events)
    &&& kinds_of(s1.jira_events) == kinds_of(s2.jira_events)
    &&& url_count(s1.ical_urls) == url_count(s2.ical_urls)
    &&& nonblank(s1.export_prompt) == nonblank(s2.export_prompt)
}

/// Free text never reaches the summary: two settings snapshots that differ
/// only in free-text values (calendar URL strings, export prompt text) give
/// the same summary.
pub proof fn lemma_summary_ignores_free_text(
    install_id: Seq<char>,
    date: Seq<char>,
    first_seen_ms: i64,
    now_ms: i64,
    counters: Seq<(String, i64)>,
    s1: SettingsSnapshot,
    s2: SettingsSnapshot,
)
    requires
        differ_in_free_text_only(s1, s2),
    ensures
        summary_of(install_id, date, first_seen_ms, now_ms, counters, s1) == summary_of(
            install_id,
            date,
            first_seen_ms,
            now_ms,
            counters,
            s2,
        ),
{
}

/// Assemble the daily summary from the install identity, the day, the
/// install age, the counters and the settings snapshot.
pub fn build_payload(
    install_id: &str,
    date: &str,
    first_seen_ms: i64,
    now_ms: i64,
    counters: Vec<(String, i64)>,
    s: &SettingsSnapshot,
) -> (p: Payload)
    requires
        i64::MIN <= now_ms - first_seen_ms <= i64::MAX,
    ensures
        payload_view(p) == summary_of(install_id@, date@, first_seen_ms, now_ms, counters@, *s),
{
    let urls = ical_url_count(&s.ical_urls);
    Payload {
        id: String::from_str(install_id),
        date: String::from_str(date),
        schema: SCHEMA_VERSION,
        lang: sanitized_str(&s.lang_gauge),
        theme: sanitized_str(&s.theme),
        group_mode: sanitized_str(&s.group_mode_gauge),
        install_age: String::from_str(install_age_bucket(first_seen_ms, now_ms)),
        config: ConfigSummary {
            git: s.git_enabled == Some(true),
            github: s.github_enabled == Some(true),
            calendar: s.calendar_enabled == Some(true),
            jira: s.jira_enabled == Some(true),
            zulip: s.zulip_enabled == Some(true),
            github_events: enum_names(&s.github_events),
            jira_events: enum_names(&s.jira_events),
            ical_urls: String::from_str(count_bucket(urls)),
            custom_export_prompt: is_nonblank(&s.export_prompt),
        },
        counters,
    }
}


/// Whether the daily summary is still due on `today`: none was recorded as
/// sent that day.
pub open spec fn ping_due_spec(last: Option<Seq<char>>, today: Seq<char>) -> bool {
    !(last == Some(today))
}

/// Whether the daily summary is still due on `today` (`YYYY-MM-DD`), given
/// the day the last one was sent.
pub fn ping_due(last: &Option<String>, today: &str) -> (b: bool)
    ensures
        b == ping_due_spec(crate::timeline::text_of(*last), today@),
{
    match last {
        Some(l) => !crate::text::same_text(l.as_str(), today),
        None => true,
    }
}

/// One summary per day: once a summary is recorded as sent on a day, none
/// is due again that day, and one is due on any other day.
pub proof fn lemma_one_summary_per_day(today: Seq<char>, other: Seq<char>)
    ensures
        !ping_due_spec(Some(today), today),
        other != today ==> ping_due_spec(Some(other), today),
        ping_due_spec(None, today),
{
}

/// Milliseconds since the Unix epoch, as telemetry stamps them.
pub fn now_ms() -> (r: i64) {
    crate::clock::now()
}

/// Nothing free-form leaves the machine: a setting's text reaches the daily
/// summary only as a short lowercase identifier (gauges, theme) or as an
/// enum variant name (event kinds); counts and ages only as fixed bucket
/// names.
pub proof fn lemma_payload_texts_are_identifiers(v: Option<String>, a: Seq<Option<String>>, n: usize, first_seen_ms: i64, now_ms: i64)
    ensures
        identifier_value(v) matches Some(t) ==> is_valid_key(t) && t.len() <= MAX_GAUGE_LEN,
        forall|i: int|
            0 <= i < a.filter_map(keep_variant()).len() ==> is_variant_name(#[trigger] a.filter_map(keep_variant())[i]),
        count_class(n) == "0"@ || count_class(n) == "1"@ || count_class(n) == "2"@ || count_class(n) == "3plus"@,
        ({
            let c = install_age_class(first_seen_ms, now_ms);
            c == "0to7d"@ || c == "8to30d"@ || c == "31to90d"@ || c == "91to365d"@ || c == "365dplus"@
        }),
{
    let kept = a.filter_map(keep_variant());
    assert forall|i: int| 0 <= i < kept.len() implies is_variant_name(#[trigger] kept[i]) by {
        assert(kept.contains(kept[i]));
        a.lemma_filter_map_contains(keep_variant(), kept[i]);
        let t = choose|t: Option<String>| #[trigger] a.contains(t) && keep_variant()(t) == Some(kept[i]);
    }
}

} // verus!
