//! The per-source settings documents and the decisions taken on them.
use vstd::prelude::*;

use crate::text::{trim, trim_slice, trim_str};

verus! {

/// Settings for the AI export. An empty prompt means "use the built-in,
/// language-aware default".
#[derive(Debug, Clone, PartialEq)]
pub struct SettingsExport {
    pub prompt: String,
}

#[derive(Debug, Clone, PartialEq)]
pub struct SettingsUi {
    pub theme: String,
}

/// Anonymous daily usage summary on/off.
#[derive(Debug, Clone, PartialEq)]
pub struct SettingsTelemetry {
    pub enabled: bool,
}

impl Default for SettingsTelemetry {
    /// Telemetry defaults to on.
    fn default() -> (r: Self)
        ensures
            r.enabled,
    {
        SettingsTelemetry { enabled: true }
    }
}

/// Turning telemetry off also discards the counters not yet sent.
pub fn clears_counters(settings: &SettingsTelemetry) -> (b: bool)
    ensures
        b == !settings.enabled,
{
    !settings.enabled
}

/// Harvest API v2 credentials: a personal access token plus the numeric
/// account id it belongs to.
#[derive(Debug, Clone, PartialEq)]
pub struct SettingsHarvest {
    pub enabled: bool,
    pub access_token: String,
    pub account_id: String,
}

impl SettingsHarvest {
    /// `Some((token, account_id))`, both trimmed, when the source is enabled
    /// and both credentials are present; otherwise `None`.
    pub fn credentials(&self) -> (r: Option<(&str, &str)>)
        ensures
            r is Some <==> (self.enabled && trim(self.access_token@).len() > 0 && trim(
                self.account_id@,
            ).len() > 0),
            r matches Some((t, a)) ==> t@ == trim(self.access_token@) && a@ == trim(
                self.account_id@,
            ),
    {
        if !self.enabled {
            return None;
        }
        let token = trim_slice(self.access_token.as_str());
        let account_id = trim_slice(self.account_id.as_str());
        if token.is_empty() || account_id.is_empty() {
            return None;
        }
        Some((token, account_id))
    }
}

/// Timeline categories for Jira activity.
#[derive(Debug, Clone, Copy, PartialEq, Eq, Structural)]
pub enum JiraEvent {
    /// Comments you authored on issues.
    CommentWritten,
    /// Issues where you are the reporter/creator.
    IssueCreated,
    /// Issues transitioned into a Done-style status category.
    IssueCompleted,
    /// You were @mentioned in an issue field or comment body.
    Mentioned,
}

#[derive(Debug, Clone, PartialEq)]
pub struct SettingsJira {
    pub enabled: bool,
    pub site_url: String,
    pub email: String,
    pub api_token: String,
    pub enabled_events: Vec<JiraEvent>,
}

/// The site URL used when a stored document has none.
pub fn default_site_url() -> (r: String)
    ensures
        r@ == "https://reload.atlassian.net"@,
{
    String::from_str("https://reload.atlassian.net")
}

/// The Jira event types enabled when a stored document names none.
pub fn default_jira_events() -> (r: Vec<JiraEvent>)
    ensures
        r@ == seq![
            JiraEvent::CommentWritten,
            JiraEvent::IssueCreated,
            JiraEvent::IssueCompleted,
            JiraEvent::Mentioned,
        ],
{
    let mut v = Vec::new();
    v.push(JiraEvent::CommentWritten);
    v.push(JiraEvent::IssueCreated);
    v.push(JiraEvent::IssueCompleted);
    v.push(JiraEvent::Mentioned);
    v
}

#[derive(Debug, Clone, PartialEq)]
pub struct SettingsZulip {
    pub enabled: bool,
    pub realm_url: String,
    pub email: String,
    pub api_key: String,
}

/// The realm URL used when a stored document has none.
pub fn default_realm_url() -> (r: String)
    ensures
        r@ == "https://reload.zulipchat.com"@,
{
    String::from_str("https://reload.zulipchat.com")
}

/// Calendar feeds: the iCal URLs and the user's address, used to recognise
/// their own `ATTENDEE` entry and drop declined events.
#[derive(Debug, Clone, PartialEq)]
pub struct SettingsIcal {
    pub enabled: bool,
    pub urls: Vec<String>,
    pub email: Option<String>,
}

impl Default for SettingsIcal {
    /// Disabled, no URLs, no address.
    fn default() -> (r: Self)
        ensures
            !r.enabled,
            r.urls@.len() == 0,
            r.email is None,
    {
        SettingsIcal { enabled: false, urls: Vec::new(), email: None }
    }
}

pub open spec fn url_views(v: Seq<String>) -> Seq<Seq<char>> {
    v.map_values(|s: String| s@)
}

fn same_urls(a: &Vec<String>, b: &Vec<String>) -> (r: bool)
    ensures
        r == (url_views(a@) == url_views(b@)),
{
    if a.len() != b.len() {
        assert(url_views(a@).len() != url_views(b@).len());
        return false;
    }
    let mut i: usize = 0;
    while i < a.len()
        invariant
            a.len() == b.len(),
            i <= a.len(),
            forall|j: int| 0 <= j < i ==> a@[j]@ == b@[j]@,
        decreases a.len() - i,
    {
        if !crate::text::same_text(a[i].as_str(), b[i].as_str()) {
            assert(url_views(a@)[i as int] != url_views(b@)[i as int]);
            return false;
        }
        i += 1;
    }
    assert(url_views(a@) =~= url_views(b@));
    true
}

/// What saving calendar settings implies: `(urls_changed, should_sync)`.
/// A URL change drops the day cache and the stored events; a sync starts
/// when the new settings are enabled and either the URLs changed or the
/// source was off before.
pub fn ical_settings_change(old: &SettingsIcal, new: &SettingsIcal) -> (r: (bool, bool))
    ensures
        r.0 == (url_views(old.urls@) != url_views(new.urls@)),
        r.1 == (new.enabled && (r.0 || !old.enabled)),
{
    let urls_changed = !same_urls(&old.urls, &new.urls);
    let should_sync = new.enabled && (urls_changed || !old.enabled);
    (urls_changed, should_sync)
}

pub open spec fn nonblank_text(s: String) -> bool {
    trim(s@).len() > 0
}

/// The URLs a background sync fetches: the non-blank ones, in order; `None`
/// when the source is disabled or has none, in which case no sync starts.
pub fn sync_targets(settings: &SettingsIcal) -> (r: Option<Vec<String>>)
    ensures
        r is None <==> (!settings.enabled || settings.urls@.filter(|u: String| nonblank_text(u)).len()
            == 0),
        r matches Some(v) ==> url_views(v@) == url_views(
            settings.urls@.filter(|u: String| nonblank_text(u)),
        ),
{
    let ghost p = |u: String| nonblank_text(u);
    let mut out: Vec<String> = Vec::new();
    let mut i: usize = 0;
    while i < settings.urls.len()
        invariant
            i <= settings.urls.len(),
            p == (|u: String| nonblank_text(u)),
            url_views(out@) == url_views(settings.urls@.take(i as int).filter(p)),
            out@.len() == settings.urls@.take(i as int).filter(p).len(),
        decreases settings.urls.len() - i,
    {
        proof {
            settings.urls@.take(i as int).lemma_filter_push(settings.urls@[i as int], p);
            assert(settings.urls@.take(i + 1) =~= settings.urls@.take(i as int).push(
                settings.urls@[i as int],
            ));
        }
        let t = trim_str(settings.urls[i].as_str());
        let ghost before = out@;
        if !t.as_str().is_empty() {
            out.push(settings.urls[i].clone());
            proof {
                let f = |s: String| s@;
                before.lemma_push_map_commute(f, out@.last());
                settings.urls@.take(i as int).filter(p).lemma_push_map_commute(f, settings.urls@[i as int]);
                assert(out@ =~= before.push(out@.last()));
            }
        }
        i += 1;
    }
    assert(settings.urls@.take(settings.urls@.len() as int) =~= settings.urls@);
    if !settings.enabled || out.len() == 0 {
        None
    } else {
        Some(out)
    }
}

/// What clearing the caches removed.
#[derive(Debug, Clone, Copy, PartialEq, Eq, Structural)]
pub struct ClearCachesResult {
    /// Cached days and stored calendar occurrences deleted, together.
    pub rows_deleted: u32,
}

/// How large the stored data is.
#[derive(Debug, Clone, Copy, PartialEq, Eq, Structural)]
pub struct CacheSizeResult {
    /// Size of the database file in bytes.
    pub bytes: u32,
    /// Days held in the timeline cache.
    pub cached_days: u32,
}

/// The report of a cache clear that deleted `cached_days` cached days and
/// `occurrences` stored calendar occurrences.
pub fn clear_caches_result(cached_days: u32, occurrences: u32) -> (r: ClearCachesResult)
    requires
        cached_days + occurrences <= u32::MAX,
    ensures
        r.rows_deleted == cached_days + occurrences,
{
    ClearCachesResult { rows_deleted: cached_days + occurrences }
}

} // verus!
