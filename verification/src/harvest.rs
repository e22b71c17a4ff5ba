//! Harvest API v2: error messages, the web day-view link, pagination and
//! which time entries of a day are shown, in what order.
use vstd::prelude::*;

use crate::clock::{format_day, formatted_day};
use crate::jira::{normalized_url, normalize_site_url};
use crate::json::{json_field, json_top_string};
use crate::range::Row;
use crate::sorting::{sort_by_ts, sort_rows_by_ts};
use crate::text::{decimal, decimal_string, signed_decimal, signed_decimal_string, trim, trim_str, same_text};
use crate::timeline::{sanitize_event_url, sanitized_url, text_of};

verus! {

/// A single day never has thousands of entries; this only guards against a
/// runaway pagination loop.
pub const MAX_PAGES: u32 = 10;

/// The description Harvest puts in an error body: `error_description`, or
/// `message` when there is no `error_description`.
pub open spec fn error_description(body: Seq<char>) -> Option<Seq<char>> {
    match json_top_string(body, "error_description"@) {
        Some(d) => d,
        None => match json_top_string(body, "message"@) {
            Some(m) => m,
            None => None,
        },
    }
}

pub open spec fn http_error_text(label: Seq<char>, status: u16, body: Seq<char>) -> Seq<char> {
    let head = "Harvest "@ + label + ": HTTP "@ + decimal(status as nat);
    match error_description(body) {
        Some(d) => head + " — "@ + d,
        None => if status == 401 || status == 403 {
            head + " — check your access token and account ID"@
        } else {
            head
        },
    }
}

/// Human-readable error for a non-2xx Harvest response.
pub fn http_error(label: &str, status: u16, body: &str) -> (r: String)
    ensures
        r@ == http_error_text(label@, status, body@),
{
    let description = match json_field(body, "error_description") {
        Some(d) => d,
        None => match json_field(body, "message") {
            Some(m) => m,
            None => None,
        },
    };
    let mut msg = String::from_str("Harvest ");
    msg.append(label);
    msg.append(": HTTP ");
    let n = decimal_string(status as u64);
    msg.append(n.as_str());
    match description {
        Some(d) => {
            msg.append(" — ");
            msg.append(d.as_str());
        },
        None => {
            if status == 401 || status == 403 {
                msg.append(" — check your access token and account ID");
            }
        },
    }
    msg
}

/// A project/client/task reference of a time entry.
#[derive(Debug, Clone, PartialEq)]
pub struct Named {
    pub name: Option<String>,
}

/// The name, or the empty string.
pub fn name_of(named: &Option<Named>) -> (r: String)
    ensures
        r@ == match named {
            Some(n) => match n.name {
                Some(s) => s@,
                None => Seq::empty(),
            },
            None => Seq::empty(),
        },
{
    match named {
        Some(n) => match &n.name {
            Some(s) => s.clone(),
            None => String::new(),
        },
        None => String::new(),
    }
}

/// Notes as shown: trimmed, and absent when blank.
pub fn clean_notes(notes: &Option<String>) -> (r: Option<String>)
    ensures
        text_of(r) == match notes {
            Some(n) => if trim(n@).len() > 0 { Some(trim(n@)) } else { None },
            None => None,
        },
{
    match notes {
        Some(n) => {
            let t = trim_str(n.as_str());
            if t.as_str().is_empty() {
                None
            } else {
                Some(t)
            }
        },
        None => None,
    }
}

pub open spec fn slash_format() -> Seq<char> {
    seq!['%', 'Y', '/', '%', 'm', '/', '%', 'd']
}

/// The Harvest web "day" view for `user_id` on `day`, e.g.
/// `https://acme.harvestapp.com/time/day/2026/09/21/1234567`; `None` when
/// the base is not an http(s) URL.
pub fn harvest_day_url(base_uri: &str, day: i32, user_id: i64) -> (r: Option<String>)
    ensures
        match formatted_day(day, slash_format()) {
            None => r is None,
            Some(d) => text_of(r) == sanitized_url(
                normalized_url(base_uri@) + "/time/day/"@ + d + "/"@ + signed_decimal(
                    user_id as int,
                ),
            ),
        },
{
    proof { reveal_strlit("%Y/%m/%d"); }
    let fmt = "%Y/%m/%d";
    assert(fmt@ =~= slash_format());
    let d = format_day(day, fmt)?;
    let mut url = normalize_site_url(base_uri);
    url.append("/time/day/");
    url.append(d.as_str());
    url.append("/");
    let u = signed_decimal_string(user_id);
    url.append(u.as_str());
    sanitize_event_url(url.as_str())
}

/// After page `page`, the next page to fetch: Harvest's `next_page` when it
/// moves forward and fewer than `MAX_PAGES` pages were read.
pub fn next_entries_page(page: u32, next_page: Option<u32>) -> (r: Option<u32>)
    ensures
        r == match next_page {
            Some(n) => if n > page && page < MAX_PAGES { Some(n) } else { None },
            None => None,
        },
{
    match next_page {
        Some(n) => if n > page && page < MAX_PAGES {
            Some(n)
        } else {
            None
        },
        None => None,
    }
}

/// A 401/403 means the credentials went bad since the identity was cached.
pub fn credentials_rejected(status: u16) -> (b: bool)
    ensures
        b == (status == 401 || status == 403),
{
    status == 401 || status == 403
}

/// The entries of `day` among `(id, spent_date)`, as positions in the input,
/// ascending by id (ties keep input order).
pub open spec fn entry_order(entries: Seq<(i64, String)>, day: Seq<char>) -> Seq<usize> {
    sort_by_ts(
        Seq::new(entries.len(), |i: int| (entries[i].0, i as usize)).filter(
            |p: (i64, usize)| entries[p.1 as int].1@ == day,
        ),
    ).map_values(|p: (i64, usize)| p.1)
}

/// Which of the fetched entries belong to `day` and in which order they are
/// shown: positions into `entries`, sorted by entry id.
pub fn entries_for_day(entries: &Vec<(i64, String)>, day: &str) -> (r: Vec<usize>)
    ensures
        r@ == entry_order(entries@, day@),
{
    let ghost all = Seq::new(entries@.len(), |i: int| (entries@[i].0, i as usize));
    let ghost p = |q: (i64, usize)| entries@[q.1 as int].1@ == day@;
    let mut picked: Vec<(i64, usize)> = Vec::new();
    let mut i: usize = 0;
    while i < entries.len()
        invariant
            i <= entries.len(),
            all == Seq::new(entries@.len(), |i: int| (entries@[i].0, i as usize)),
            p == (|q: (i64, usize)| entries@[q.1 as int].1@ == day@),
            picked@ == all.take(i as int).filter(p),
        decreases entries.len() - i,
    {
        proof {
            all.take(i as int).lemma_filter_push(all[i as int], p);
            assert(all.take(i + 1) =~= all.take(i as int).push(all[i as int]));
        }
        if same_text(entries[i].1.as_str(), day) {
            picked.push((entries[i].0, i));
        }
        i += 1;
    }
    assert(all.take(entries.len() as int) =~= all);
    let sorted = sort_rows_by_ts(picked);
    let mut r: Vec<usize> = Vec::new();
    let mut k: usize = 0;
    let ghost g = |q: (i64, usize)| q.1;
    while k < sorted.len()
        invariant
            k <= sorted.len(),
            g == (|q: (i64, usize)| q.1),
            r@ == sorted@.take(k as int).map_values(g),
        decreases sorted.len() - k,
    {
        proof {
            sorted@.take(k as int).lemma_push_map_commute(g, sorted@[k as int]);
            assert(sorted@.take(k + 1) =~= sorted@.take(k as int).push(sorted@[k as int]));
        }
        r.push(sorted[k].1);
        k += 1;
    }
    assert(sorted@.take(sorted.len() as int) =~= sorted@);
    r
}


/// Who the Harvest credentials belong to: the user and the account's web
/// address, fetched once per pair of credentials.
#[derive(Debug, Clone)]
pub struct Identity {
    pub token: String,
    pub account_id: String,
    pub user_id: i64,
    pub base_uri: Option<String>,
}

/// The remembered identity when it was fetched with these credentials.
pub open spec fn reused(cached: Option<Identity>, token: Seq<char>, account_id: Seq<char>) -> Option<Identity> {
    match cached {
        Some(c) => if c.token@ == token && c.account_id@ == account_id {
            Some(c)
        } else {
            None
        },
        None => None,
    }
}

/// The remembered identity, when it was fetched with these credentials;
/// changing the token or the account forces a fresh lookup.
pub fn reuse_identity(cached: &Option<Identity>, token: &str, account_id: &str) -> (r: Option<Identity>)
    ensures
        r == reused(*cached, token@, account_id@),
{
    match cached {
        Some(c) => {
            if crate::text::same_text(c.token.as_str(), token) && crate::text::same_text(
                c.account_id.as_str(),
                account_id,
            ) {
                Some(Identity {
                    token: c.token.clone(),
                    account_id: c.account_id.clone(),
                    user_id: c.user_id,
                    base_uri: match &c.base_uri {
                        Some(b) => Some(b.clone()),
                        None => None,
                    },
                })
            } else {
                None
            }
        },
        None => None,
    }
}

/// Remembers the identity just fetched, replacing any earlier one.
pub fn remember_identity(cache: &mut Option<Identity>, fetched: Identity)
    ensures
        *final(cache) == Some(fetched),
{
    *cache = Some(fetched);
}

/// Forgets the remembered identity (the credentials changed or were
/// rejected).
pub fn forget_identity(cache: &mut Option<Identity>)
    ensures
        *final(cache) == None::<Identity>,
{
    *cache = None;
}

/// An identity, once fetched and remembered, is reused for the same token
/// and account, with no new lookup, until it is forgotten or replaced; other
/// credentials, or a forgotten cache, always get a fresh lookup.
pub proof fn lemma_identity_reuse(fetched: Identity, token: Seq<char>, account_id: Seq<char>)
    ensures
        reused(Some(fetched), fetched.token@, fetched.account_id@) == Some(fetched),
        (token != fetched.token@ || account_id != fetched.account_id@) ==> reused(Some(fetched), token, account_id) is None,
        reused(None, token, account_id) is None,
{
}

} // verus!
