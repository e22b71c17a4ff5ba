//! Jira Cloud timeline source: which of the user's own actions on an issue
//! become timeline rows, and how search / changelog pages are walked.
use vstd::prelude::*;

use crate::clock::{chrono_instant, format_day, formatted_day, iso_format, iso_format_str, local_clock, parse_rfc3339, rfc3339_seconds};
use crate::json::{json_quote, json_string};
use crate::timeline::{sanitize_event_url, sanitized_url, text_of, TimelineEvent, TimelineEventSource};
use crate::text::decimal_string;
use crate::text::decimal;
use crate::text::{
    chars_of, eq_ignore_case_chars, lower_seq, same_text, string_of, trim, trim_chars, trim_slice,
};
use vstd::string::StringSliceAdditionalSpecFns;
use vstd::utf8::is_char_boundary;

verus! {

/// Issues asked for per search page.
pub const SEARCH_PAGE_SIZE: u32 = 100;

/// Search pages read at most for one range (5 000 issues).
pub const SEARCH_MAX_PAGES: usize = 50;

/// Changelog entries asked for per page.
pub const CHANGELOG_PAGE_SIZE: u32 = 100;

/// Changelog pages read at most for one issue.
pub const CHANGELOG_MAX_PAGES: usize = 20;

/// A timestamp as the timeline reads it: the local calendar day number it
/// falls on and its unix seconds.
#[derive(Debug, Clone, Copy, PartialEq, Eq, Structural)]
pub struct Stamp {
    pub day: i32,
    pub ts: i64,
}

#[derive(Debug, Clone, PartialEq)]
pub struct JiraAccountUser {
    pub account_id: Option<String>,
}

#[derive(Debug, Clone, PartialEq)]
pub struct JiraComment {
    pub author: Option<JiraAccountUser>,
    /// When the comment was written; `None` when absent or unparseable.
    pub created: Option<Stamp>,
}

#[derive(Debug, Clone, PartialEq)]
pub struct JiraCommentBlock {
    pub comments: Vec<JiraComment>,
}

/// The issue fields the timeline reads.
#[derive(Debug, Clone, PartialEq)]
pub struct JiraFields {
    pub summary: String,
    /// Last update by anyone; `None` when unparseable.
    pub updated: Option<Stamp>,
    pub created: Option<Stamp>,
    pub creator: Option<JiraAccountUser>,
    pub comment: Option<JiraCommentBlock>,
}

#[derive(Debug, Clone, PartialEq)]
pub struct ChangeItem {
    pub field: Option<String>,
    pub field_id: Option<String>,
}

#[derive(Debug, Clone, PartialEq)]
pub struct ChangelogEntry {
    pub author: Option<JiraAccountUser>,
    pub created: Option<Stamp>,
    pub items: Vec<ChangeItem>,
}

/// What the user did to an issue. The label is part of the event id
/// (`jira:{key}:{day}:{label}`), so labels must stay stable.
#[derive(Debug, Clone, Copy, PartialEq, Eq, Structural)]
pub enum JiraAction {
    Created,
    Commented,
    Transitioned,
    Edited,
}

/// One distinct action by the user on one local day: the earliest
/// occurrence and how many times it happened that day.
#[derive(Debug, Clone, Copy, PartialEq, Eq, Structural)]
pub struct ActionOnDay {
    pub day: i32,
    pub action: JiraAction,
    pub first_ts: i64,
    pub count: usize,
}

/// `(day, ts, action)` before grouping.
pub type RawAction = (i32, i64, JiraAction);

pub open spec fn rank(a: JiraAction) -> int {
    match a {
        JiraAction::Created => 0,
        JiraAction::Commented => 1,
        JiraAction::Transitioned => 2,
        JiraAction::Edited => 3,
    }
}

pub open spec fn label_of(a: JiraAction) -> Seq<char> {
    match a {
        JiraAction::Created => seq!['C', 'r', 'e', 'a', 't', 'e', 'd'],
        JiraAction::Commented => seq!['C', 'o', 'm', 'm', 'e', 'n', 't', 'e', 'd'],
        JiraAction::Transitioned => seq![
            'T', 'r', 'a', 'n', 's', 'i', 't', 'i', 'o', 'n', 'e', 'd'
        ],
        JiraAction::Edited => seq!['E', 'd', 'i', 't', 'e', 'd'],
    }
}

impl JiraAction {
    /// Stable label used in titles and event ids.
    pub fn label(self) -> (r: String)
        ensures
            r@ == label_of(self),
    {
        match self {
            JiraAction::Created => {
                let s = String::from_str("Created");
                proof { reveal_strlit("Created"); }
                assert(s@ =~= label_of(self));
                s
            },
            JiraAction::Commented => {
                let s = String::from_str("Commented");
                proof { reveal_strlit("Commented"); }
                assert(s@ =~= label_of(self));
                s
            },
            JiraAction::Transitioned => {
                let s = String::from_str("Transitioned");
                proof { reveal_strlit("Transitioned"); }
                assert(s@ =~= label_of(self));
                s
            },
            JiraAction::Edited => {
                let s = String::from_str("Edited");
                proof { reveal_strlit("Edited"); }
                assert(s@ =~= label_of(self));
                s
            },
        }
    }

    fn rank(self) -> (r: u8)
        ensures
            r == rank(self),
    {
        match self {
            JiraAction::Created => 0,
            JiraAction::Commented => 1,
            JiraAction::Transitioned => 2,
            JiraAction::Edited => 3,
        }
    }
}

pub open spec fn status_word() -> Seq<char> {
    seq!['s', 't', 'a', 't', 'u', 's']
}

pub open spec fn names_status(f: Option<String>) -> bool {
    f matches Some(s) && lower_seq(s@) == status_word()
}

pub open spec fn is_status_item(i: ChangeItem) -> bool {
    names_status(i.field_id) || names_status(i.field)
}

fn names_status_exec(f: &Option<String>) -> (b: bool)
    ensures
        b == names_status(*f),
{
    match f {
        Some(s) => {
            let v = chars_of(s.as_str());
            let w = chars_of("status");
            proof { reveal_strlit("status"); }
            assert(w@ =~= status_word());
            assert(lower_seq(w@) =~= w@);
            eq_ignore_case_chars(&v, &w)
        },
        None => false,
    }
}

impl ChangeItem {
    /// A changelog item that touches the issue status (by field id or name,
    /// ASCII case-insensitively).
    pub fn is_status(&self) -> (b: bool)
        ensures
            b == is_status_item(*self),
    {
        names_status_exec(&self.field_id) || names_status_exec(&self.field)
    }
}

pub open spec fn has_status_item(items: Seq<ChangeItem>) -> bool {
    exists|j: int| 0 <= j < items.len() && #[trigger] is_status_item(items[j])
}

pub open spec fn is_me_spec(user: Option<JiraAccountUser>, me: Seq<char>) -> bool {
    user matches Some(u) && u.account_id matches Some(a) && a@ == me
}

/// The user object names the account `my_account_id`.
pub fn is_me(user: Option<&JiraAccountUser>, my_account_id: &str) -> (b: bool)
    ensures
        b == (user matches Some(u) && is_me_spec(Some(*u), my_account_id@)),
{
    match user {
        Some(u) => match &u.account_id {
            Some(a) => same_text(a.as_str(), my_account_id),
            None => false,
        },
        None => false,
    }
}

pub open spec fn in_range(day: i32, start: i32, end: i32) -> bool {
    start <= day && day <= end
}

pub open spec fn comment_raw(me: Seq<char>, start: i32, end: i32, c: JiraComment) -> Option<
    RawAction,
> {
    if is_me_spec(c.author, me) && c.created is Some && in_range(
        c.created->0.day,
        start,
        end,
    ) {
        Some((c.created->0.day, c.created->0.ts, JiraAction::Commented))
    } else {
        None
    }
}

pub open spec fn entry_raw(me: Seq<char>, start: i32, end: i32, e: ChangelogEntry) -> Option<
    RawAction,
> {
    if is_me_spec(e.author, me) && e.created is Some && in_range(e.created->0.day, start, end) {
        Some(
            (
                e.created->0.day,
                e.created->0.ts,
                if has_status_item(e.items@) {
                    JiraAction::Transitioned
                } else {
                    JiraAction::Edited
                },
            ),
        )
    } else {
        None
    }
}

pub open spec fn comment_actions(me: Seq<char>, start: i32, end: i32, f: JiraFields) -> Seq<
    RawAction,
> {
    match f.comment {
        Some(b) => b.comments@.filter_map(|c: JiraComment| comment_raw(me, start, end, c)),
        None => Seq::empty(),
    }
}

pub open spec fn created_actions(me: Seq<char>, start: i32, end: i32, f: JiraFields) -> Seq<
    RawAction,
> {
    if is_me_spec(f.creator, me) && f.created is Some && in_range(f.created->0.day, start, end) {
        seq![(f.created->0.day, f.created->0.ts, JiraAction::Created)]
    } else {
        Seq::empty()
    }
}

/// The user's own actions inside `start..=end`, in the order they are read:
/// comments, creation, changelog entries. When there are none, the issue's
/// last update stands in as one `Edited` (if that update is in range).
pub open spec fn raw_actions(
    me: Seq<char>,
    start: i32,
    end: i32,
    f: JiraFields,
    log: Seq<ChangelogEntry>,
) -> Seq<RawAction> {
    let own = comment_actions(me, start, end, f) + created_actions(me, start, end, f)
        + log.filter_map(|e: ChangelogEntry| entry_raw(me, start, end, e));
    if own.len() == 0 && f.updated is Some && in_range(f.updated->0.day, start, end) {
        seq![(f.updated->0.day, f.updated->0.ts, JiraAction::Edited)]
    } else {
        own
    }
}

pub open spec fn same_key(x: RawAction, day: i32, a: JiraAction) -> bool {
    x.0 == day && x.2 == a
}

/// How many raw actions carry `(day, a)`.
pub open spec fn key_count(r: Seq<RawAction>, day: i32, a: JiraAction) -> nat
    decreases r.len(),
{
    if r.len() == 0 {
        0
    } else {
        key_count(r.drop_last(), day, a) + if same_key(r.last(), day, a) {
            1nat
        } else {
            0nat
        }
    }
}

/// The earliest timestamp among raw actions carrying `(day, a)`.
pub open spec fn key_min(r: Seq<RawAction>, day: i32, a: JiraAction) -> i64
    decreases r.len(),
{
    if r.len() == 0 {
        0
    } else {
        let p = r.drop_last();
        if same_key(r.last(), day, a) {
            if key_count(p, day, a) == 0 || r.last().1 < key_min(p, day, a) {
                r.last().1
            } else {
                key_min(p, day, a)
            }
        } else {
            key_min(p, day, a)
        }
    }
}

/// Output order: by first timestamp, then action, then day.
pub open spec fn before(x: ActionOnDay, y: ActionOnDay) -> bool {
    x.first_ts < y.first_ts || (x.first_ts == y.first_ts && (rank(x.action) < rank(y.action) || (
    rank(x.action) == rank(y.action) && x.day < y.day)))
}

/// Some row of `g` carries the key of `x`.
pub open spec fn key_covered(g: Seq<ActionOnDay>, x: RawAction) -> bool {
    exists|i: int| 0 <= i < g.len() && #[trigger] same_key(x, g[i].day, g[i].action)
}

/// `out` summarises `r`: one row per distinct `(day, action)` of `r`, with
/// its earliest timestamp and count, in `before` order.
pub open spec fn summarises(r: Seq<RawAction>, out: Seq<ActionOnDay>) -> bool {
    &&& forall|i: int|
        0 <= i < out.len() ==> {
            &&& #[trigger] out[i].count == key_count(r, out[i].day, out[i].action)
            &&& out[i].count > 0
            &&& out[i].first_ts == key_min(r, out[i].day, out[i].action)
        }
    &&& forall|j: int| 0 <= j < r.len() ==> key_covered(out, #[trigger] r[j])
    &&& forall|i: int, k: int| 0 <= i < k < out.len() ==> before(#[trigger] out[i], #[trigger] out[k])
}


fn any_status(items: &Vec<ChangeItem>) -> (b: bool)
    ensures
        b == has_status_item(items@),
{
    let mut k: usize = 0;
    while k < items.len()
        invariant
            k <= items.len(),
            forall|j: int| 0 <= j < k ==> !is_status_item(#[trigger] items@[j]),
        decreases items.len() - k,
    {
        if items[k].is_status() {
            assert(is_status_item(items@[k as int]));
            return true;
        }
        k += 1;
    }
    false
}

fn comment_raw_exec(me: &str, start: i32, end: i32, c: &JiraComment) -> (r: Option<RawAction>)
    ensures
        r == comment_raw(me@, start, end, *c),
{
    if is_me(c.author.as_ref(), me) {
        if let Some(st) = c.created {
            if start <= st.day && st.day <= end {
                return Some((st.day, st.ts, JiraAction::Commented));
            }
        }
    }
    None
}

fn entry_raw_exec(me: &str, start: i32, end: i32, e: &ChangelogEntry) -> (r: Option<RawAction>)
    ensures
        r == entry_raw(me@, start, end, *e),
{
    if is_me(e.author.as_ref(), me) {
        if let Some(st) = e.created {
            if start <= st.day && st.day <= end {
                let action = if any_status(&e.items) {
                    JiraAction::Transitioned
                } else {
                    JiraAction::Edited
                };
                return Some((st.day, st.ts, action));
            }
        }
    }
    None
}

/// The raw own actions of `raw_actions`, in reading order.
fn collect_raw(
    me: &str,
    start: i32,
    end: i32,
    fields: &JiraFields,
    changelog: &[ChangelogEntry],
) -> (r: Vec<RawAction>)
    ensures
        r@ == raw_actions(me@, start, end, *fields, changelog@),
{
    let mut raw: Vec<RawAction> = Vec::new();
    if let Some(block) = &fields.comment {
        let ghost f = |c: JiraComment| comment_raw(me@, start, end, c);
        let mut i: usize = 0;
        while i < block.comments.len()
            invariant
                i <= block.comments.len(),
                f == (|c: JiraComment| comment_raw(me@, start, end, c)),
                raw@ == block.comments@.take(i as int).filter_map(f),
            decreases block.comments.len() - i,
        {
            proof {
                block.comments@.lemma_filter_map_take_succ(f, i as int);
            }
            assert(f(block.comments@[i as int]) == comment_raw(me@, start, end, block.comments@[i as int]));
            if let Some(x) = comment_raw_exec(me, start, end, &block.comments[i]) {
                raw.push(x);
            }
            i += 1;
        }
        assert(block.comments@.take(block.comments@.len() as int) == block.comments@);
    }
    assert(raw@ == comment_actions(me@, start, end, *fields));
    if is_me(fields.creator.as_ref(), me) {
        if let Some(st) = fields.created {
            if start <= st.day && st.day <= end {
                raw.push((st.day, st.ts, JiraAction::Created));
            }
        }
    }
    assert(raw@ == comment_actions(me@, start, end, *fields) + created_actions(
        me@,
        start,
        end,
        *fields,
    ));
    let ghost before_log = raw@;
    let ghost g = |e: ChangelogEntry| entry_raw(me@, start, end, e);
    let mut i: usize = 0;
    while i < changelog.len()
        invariant
            i <= changelog.len(),
            g == (|e: ChangelogEntry| entry_raw(me@, start, end, e)),
            raw@ == before_log + changelog@.take(i as int).filter_map(g),
        decreases changelog.len() - i,
    {
        proof {
            changelog@.lemma_filter_map_take_succ(g, i as int);
        }
        assert(g(changelog@[i as int]) == entry_raw(me@, start, end, changelog@[i as int]));
        if let Some(x) = entry_raw_exec(me, start, end, &changelog[i]) {
            raw.push(x);
        }
        i += 1;
    }
    assert(changelog@.take(changelog@.len() as int) == changelog@);
    if raw.len() == 0 {
        if let Some(u) = fields.updated {
            if start <= u.day && u.day <= end {
                raw.push((u.day, u.ts, JiraAction::Edited));
            }
        }
    }
    raw
}


proof fn lemma_key_push(r: Seq<RawAction>, x: RawAction, day: i32, a: JiraAction)
    ensures
        key_count(r.push(x), day, a) == key_count(r, day, a) + if same_key(x, day, a) {
            1nat
        } else {
            0nat
        },
        key_min(r.push(x), day, a) == if same_key(x, day, a) {
            if key_count(r, day, a) == 0 || x.1 < key_min(r, day, a) {
                x.1
            } else {
                key_min(r, day, a)
            }
        } else {
            key_min(r, day, a)
        },
{
    assert(r.push(x).drop_last() =~= r);
}

proof fn lemma_key_witness(r: Seq<RawAction>, day: i32, a: JiraAction)
    requires
        key_count(r, day, a) > 0,
    ensures
        exists|j: int| 0 <= j < r.len() && same_key(#[trigger] r[j], day, a),
    decreases r.len(),
{
    if same_key(r.last(), day, a) {
        assert(same_key(r[r.len() - 1], day, a));
    } else {
        lemma_key_witness(r.drop_last(), day, a);
        let j = choose|j: int| 0 <= j < r.drop_last().len() && same_key(r.drop_last()[j], day, a);
        assert(same_key(r[j], day, a));
    }
}

/// Position of the group carrying the key of `x`, or `g.len()`.
fn find_group(g: &Vec<ActionOnDay>, x: RawAction) -> (k: usize)
    ensures
        k <= g.len(),
        k < g.len() ==> same_key(x, g@[k as int].day, g@[k as int].action),
        forall|i: int| 0 <= i < k ==> !same_key(x, #[trigger] g@[i].day, g@[i].action),
{
    let mut k: usize = 0;
    while k < g.len()
        invariant
            k <= g.len(),
            forall|i: int| 0 <= i < k ==> !same_key(x, #[trigger] g@[i].day, g@[i].action),
        decreases g.len() - k,
    {
        if g[k].day == x.0 && g[k].action == x.2 {
            return k;
        }
        k += 1;
    }
    k
}

/// Group raw actions by `(day, action)`, keeping the earliest timestamp and
/// the number of occurrences.
fn group_actions(raw: &Vec<RawAction>) -> (g: Vec<ActionOnDay>)
    ensures
        forall|i: int|
            0 <= i < g.len() ==> {
                &&& #[trigger] g@[i].count == key_count(raw@, g@[i].day, g@[i].action)
                &&& g@[i].count > 0
                &&& g@[i].first_ts == key_min(raw@, g@[i].day, g@[i].action)
            },
        forall|i: int, k: int|
            0 <= i < k < g.len() ==> !same_key(
                (#[trigger] g@[i].day, 0i64, g@[i].action),
                #[trigger] g@[k].day,
                g@[k].action,
            ),
        forall|j: int| 0 <= j < raw.len() ==> key_covered(g@, #[trigger] raw@[j]),
{
    let mut g: Vec<ActionOnDay> = Vec::new();
    let mut j: usize = 0;
    while j < raw.len()
        invariant
            j <= raw.len(),
            forall|i: int|
                0 <= i < g.len() ==> {
                    &&& #[trigger] g@[i].count == key_count(
                        raw@.take(j as int),
                        g@[i].day,
                        g@[i].action,
                    )
                    &&& g@[i].count > 0
                    &&& g@[i].count <= j
                    &&& g@[i].first_ts == key_min(raw@.take(j as int), g@[i].day, g@[i].action)
                },
            forall|i: int, k: int|
                0 <= i < k < g.len() ==> !same_key(
                    (#[trigger] g@[i].day, 0i64, g@[i].action),
                    #[trigger] g@[k].day,
                    g@[k].action,
                ),
            forall|t: int| 0 <= t < j ==> key_covered(g@, #[trigger] raw@[t]),
        decreases raw.len() - j,
    {
        let x = raw[j];
        let ghost p = raw@.take(j as int);
        assert(raw@.take(j + 1) =~= p.push(x));
        let k = find_group(&g, x);
        let ghost old_g = g@;
        if k < g.len() {
            let cur = g[k];
            let first = if x.1 < cur.first_ts { x.1 } else { cur.first_ts };
            g.set(k, ActionOnDay { day: cur.day, action: cur.action, first_ts: first, count: cur.count + 1 });
            assert forall|i: int| 0 <= i < g.len() implies {
                &&& #[trigger] g@[i].count == key_count(
                    raw@.take(j + 1),
                    g@[i].day,
                    g@[i].action,
                )
                &&& g@[i].count > 0
                &&& g@[i].count <= j + 1
                &&& g@[i].first_ts == key_min(raw@.take(j + 1), g@[i].day, g@[i].action)
            } by {
                lemma_key_push(p, x, g@[i].day, g@[i].action);
                if i != k {
                    assert(!same_key(x, g@[i].day, g@[i].action)) by {
                        if i < k {
                            assert(!same_key((old_g[i].day, 0i64, old_g[i].action), old_g[k as int].day, old_g[k as int].action));
                        } else {
                            assert(!same_key((old_g[k as int].day, 0i64, old_g[k as int].action), old_g[i].day, old_g[i].action));
                        }
                    }
                }
            }
            assert forall|t: int| 0 <= t < j + 1 implies key_covered(g@, #[trigger] raw@[t]) by {
                let rt = raw@[t];
                if t < j {
                    assert(key_covered(old_g, raw@[t]));
                    let i0 = choose|i: int| 0 <= i < old_g.len() && #[trigger] same_key(raw@[t], old_g[i].day, old_g[i].action);
                    assert(same_key(raw@[t], g@[i0].day, g@[i0].action));
                } else {
                    assert(same_key(raw@[t], g@[k as int].day, g@[k as int].action));
                }
            }
        } else {
            proof {
                if key_count(p, x.0, x.2) > 0 {
                    lemma_key_witness(p, x.0, x.2);
                    let t = choose|t: int| 0 <= t < p.len() && same_key(#[trigger] p[t], x.0, x.2);
                    assert(raw@[t] == p[t]);
                    assert(key_covered(g@, raw@[t]));
                    let i0 = choose|i: int| 0 <= i < g.len() && #[trigger] same_key(raw@[t], g@[i].day, g@[i].action);
                    assert(same_key(x, g@[i0].day, g@[i0].action));
                }
            }
            g.push(ActionOnDay { day: x.0, action: x.2, first_ts: x.1, count: 1 });
            assert forall|i: int| 0 <= i < g.len() implies {
                &&& #[trigger] g@[i].count == key_count(
                    raw@.take(j + 1),
                    g@[i].day,
                    g@[i].action,
                )
                &&& g@[i].count > 0
                &&& g@[i].count <= j + 1
                &&& g@[i].first_ts == key_min(raw@.take(j + 1), g@[i].day, g@[i].action)
            } by {
                lemma_key_push(p, x, g@[i].day, g@[i].action);
                if i < old_g.len() {
                    assert(!same_key(x, old_g[i].day, old_g[i].action));
                }
            }
            assert forall|t: int| 0 <= t < j + 1 implies key_covered(g@, #[trigger] raw@[t]) by {
                let rt = raw@[t];
                if t < j {
                    assert(key_covered(old_g, raw@[t]));
                    let i0 = choose|i: int| 0 <= i < old_g.len() && #[trigger] same_key(raw@[t], old_g[i].day, old_g[i].action);
                    assert(same_key(raw@[t], g@[i0].day, g@[i0].action));
                } else {
                    assert(same_key(raw@[t], g@[old_g.len() as int].day, g@[old_g.len() as int].action));
                }
            }
        }
        j += 1;
    }
    assert(raw@.take(raw.len() as int) =~= raw@);
    assert forall|t: int| 0 <= t < raw.len() implies key_covered(g@, #[trigger] raw@[t]) by {
        let rt = raw@[t];
    }
    g
}


fn before_exec(x: &ActionOnDay, y: &ActionOnDay) -> (b: bool)
    ensures
        b == before(*x, *y),
{
    let rx = x.action.rank();
    let ry = y.action.rank();
    x.first_ts < y.first_ts || (x.first_ts == y.first_ts && (rx < ry || (rx == ry && x.day < y.day)))
}

pub open spec fn distinct_keys(g: Seq<ActionOnDay>) -> bool {
    forall|i: int, k: int|
        0 <= i < k < g.len() ==> !same_key(
            (#[trigger] g[i].day, 0i64, g[i].action),
            #[trigger] g[k].day,
            g[k].action,
        )
}

pub open spec fn in_seq(g: Seq<ActionOnDay>, y: ActionOnDay) -> bool {
    exists|k: int| 0 <= k < g.len() && g[k] == y
}

pub open spec fn sorted_by_before(out: Seq<ActionOnDay>) -> bool {
    forall|i: int, k: int| 0 <= i < k < out.len() ==> before(#[trigger] out[i], #[trigger] out[k])
}

proof fn lemma_before_total(x: ActionOnDay, y: ActionOnDay)
    requires
        !(x.day == y.day && x.action == y.action),
    ensures
        before(x, y) || before(y, x),
        !(before(x, y) && before(y, x)),
{
    if x.action != y.action {
        assert(rank(x.action) != rank(y.action));
    }
}

proof fn lemma_before_trans(x: ActionOnDay, y: ActionOnDay, z: ActionOnDay)
    requires
        before(x, y),
        before(y, z),
    ensures
        before(x, z),
{
}

/// Order distinct-key groups by `before` (insertion sort).
fn sort_actions(g: &Vec<ActionOnDay>) -> (out: Vec<ActionOnDay>)
    requires
        distinct_keys(g@),
    ensures
        forall|i: int| 0 <= i < out.len() ==> in_seq(g@, #[trigger] out@[i]),
        forall|k: int| 0 <= k < g.len() ==> in_seq(out@, #[trigger] g@[k]),
        sorted_by_before(out@),
{
    let mut out: Vec<ActionOnDay> = Vec::new();
    let mut n: usize = 0;
    while n < g.len()
        invariant
            n <= g.len(),
            distinct_keys(g@),
            forall|i: int| 0 <= i < out.len() ==> exists|k: int|
                0 <= k < n && g@[k] == #[trigger] out@[i],
            forall|k: int| 0 <= k < n ==> in_seq(out@, #[trigger] g@[k]),
            sorted_by_before(out@),
        decreases g.len() - n,
    {
        let x = g[n];
        let mut pos: usize = 0;
        while pos < out.len() && before_exec(&out[pos], &x)
            invariant
                pos <= out.len(),
                forall|i: int| 0 <= i < pos ==> before(#[trigger] out@[i], x),
            decreases out.len() - pos,
        {
            pos += 1;
        }
        let ghost old_out = out@;
        proof {
            assert forall|i: int| pos <= i < old_out.len() implies before(x, #[trigger] old_out[i]) by {
                let k = choose|k: int| 0 <= k < n && g@[k] == old_out[i];
                assert(!same_key((g@[k].day, 0i64, g@[k].action), g@[n as int].day, g@[n as int].action));
                let p0 = old_out[pos as int];
                let k0 = choose|k: int| 0 <= k < n && g@[k] == old_out[pos as int];
                assert(!same_key((g@[k0].day, 0i64, g@[k0].action), g@[n as int].day, g@[n as int].action));
                lemma_before_total(x, p0);
                if i > pos {
                    lemma_before_trans(x, p0, old_out[i]);
                }
            }
        }
        out.insert(pos, x);
        proof {
            old_out.insert_ensures(pos as int, x);
            assert forall|i: int, k: int| 0 <= i < k < out@.len() implies before(#[trigger] out@[i], #[trigger] out@[k]) by {
                if k == pos {
                } else if i == pos {
                } else if k < pos {
                } else if i < pos {
                    lemma_before_trans(out@[i], x, out@[k]);
                } else {
                }
            }
            assert forall|i: int| 0 <= i < out@.len() implies exists|k: int|
                0 <= k < n + 1 && g@[k] == #[trigger] out@[i] by {
                if i == pos {
                    assert(g@[n as int] == out@[i]);
                } else if i < pos {
                    assert(out@[i] == old_out[i]);
                } else {
                    assert(out@[i] == old_out[i - 1]);
                }
            }
            assert forall|k: int| 0 <= k < n + 1 implies in_seq(out@, #[trigger] g@[k]) by {
                if k == n {
                    assert(out@[pos as int] == g@[k]);
                } else {
                    assert(in_seq(old_out, g@[k]));
                    let i = choose|i: int| 0 <= i < old_out.len() && old_out[i] == g@[k];
                    if i < pos {
                        assert(out@[i] == g@[k]);
                    } else {
                        assert(out@[i + 1] == g@[k]);
                    }
                }
            }
        }
        n += 1;
    }
    proof {
        assert forall|i: int| 0 <= i < out.len() implies in_seq(g@, #[trigger] out@[i]) by {
            let k = choose|k: int| 0 <= k < n && g@[k] == out@[i];
        }
    }
    out
}

/// The user's own actions on an issue within `start_day..=end_day` (local
/// days), one entry per distinct `(day, action)`:
///
/// * comments authored by the user → `Commented` at the comment's time;
/// * issue created by the user → `Created` at the issue's creation time;
/// * changelog entries authored by the user → `Transitioned` when a status
///   item is present, otherwise `Edited`, at the entry's time.
///
/// If none of those fall inside the range, a single `Edited` at the issue's
/// last update stands in when that is in range, so an issue Jira says the
/// user touched never disappears from the timeline.
pub fn user_actions(
    my_account_id: &str,
    start_day: i32,
    end_day: i32,
    fields: &JiraFields,
    changelog: &[ChangelogEntry],
) -> (out: Vec<ActionOnDay>)
    ensures
        summarises(raw_actions(my_account_id@, start_day, end_day, *fields, changelog@), out@),
{
    let raw = collect_raw(my_account_id, start_day, end_day, fields, changelog);
    let g = group_actions(&raw);
    let out = sort_actions(&g);
    proof {
        assert forall|i: int| 0 <= i < out@.len() implies {
            &&& #[trigger] out@[i].count == key_count(raw@, out@[i].day, out@[i].action)
            &&& out@[i].count > 0
            &&& out@[i].first_ts == key_min(raw@, out@[i].day, out@[i].action)
        } by {
            assert(in_seq(g@, out@[i]));
            let k = choose|k: int| 0 <= k < g@.len() && g@[k] == out@[i];
            assert(g@[k].count == key_count(raw@, g@[k].day, g@[k].action));
        }
        assert forall|j: int| 0 <= j < raw@.len() implies key_covered(out@, #[trigger] raw@[j]) by {
            assert(key_covered(g@, raw@[j]));
            let k = choose|k: int| 0 <= k < g@.len() && #[trigger] same_key(raw@[j], g@[k].day, g@[k].action);
            assert(in_seq(out@, g@[k]));
            let i = choose|i: int| 0 <= i < out@.len() && out@[i] == g@[k];
            assert(same_key(raw@[j], out@[i].day, out@[i].action));
        }
    }
    out
}


pub open spec fn jql_escape(c: char) -> Seq<char> {
    if c == '\\' {
        seq!['\\', '\\']
    } else if c == '"' {
        seq!['\\', '"']
    } else {
        seq![c]
    }
}

/// `"…"` with backslashes and double quotes backslash-escaped.
pub open spec fn jql_quoted(id: Seq<char>) -> Seq<char> {
    seq!['"'] + id.flat_map(|c: char| jql_escape(c)) + seq!['"']
}

/// HTTP Basic credentials for the Jira API (`email:api_token`).
pub fn jira_basic_auth(email: &str, api_token: &str) -> (r: String)
    ensures
        r@ == crate::auth::basic_auth_text(email@, api_token@),
{
    crate::auth::basic_auth(email, api_token)
}

/// Quote a user id / account id for use inside JQL `updatedBy("…")`.
pub fn jql_quoted_identifier(id: &str) -> (r: String)
    ensures
        r@ == jql_quoted(id@),
{
    let v = chars_of(id);
    let mut out: Vec<char> = Vec::new();
    out.push('"');
    let ghost f = |c: char| jql_escape(c);
    let mut i: usize = 0;
    while i < v.len()
        invariant
            i <= v.len(),
            f == (|c: char| jql_escape(c)),
            out@ == seq!['"'] + v@.take(i as int).flat_map(f),
        decreases v.len() - i,
    {
        proof {
            v@.lemma_flat_map_take_append(f, i as int);
        }
        let c = v[i];
        if c == '\\' {
            out.push('\\');
            out.push('\\');
        } else if c == '"' {
            out.push('\\');
            out.push('"');
        } else {
            out.push(c);
        }
        i += 1;
    }
    out.push('"');
    assert(v@.take(v@.len() as int) =~= v@);
    assert(out@ =~= jql_quoted(id@));
    string_of(&out)
}

/// `s` with every trailing `c` removed (`str::trim_end_matches`).
pub open spec fn strip_trailing(s: Seq<char>, c: char) -> Seq<char>
    decreases s.len(),
{
    if s.len() > 0 && s.last() == c {
        strip_trailing(s.drop_last(), c)
    } else {
        s
    }
}

pub fn strip_trailing_chars(s: &[char], c: char) -> (r: Vec<char>)
    ensures
        r@ == strip_trailing(s@, c),
{
    let mut n = s.len();
    assert(s@.subrange(0, n as int) =~= s@);
    while n > 0 && s[n - 1] == c
        invariant
            n <= s.len(),
            strip_trailing(s@, c) == strip_trailing(s@.subrange(0, n as int), c),
        decreases n,
    {
        assert(s@.subrange(0, n as int).drop_last() =~= s@.subrange(0, n - 1));
        n -= 1;
    }
    let mut r: Vec<char> = Vec::new();
    let mut i: usize = 0;
    while i < n
        invariant
            i <= n <= s.len(),
            r@ == s@.subrange(0, i as int),
        decreases n - i,
    {
        r.push(s[i]);
        i += 1;
    }
    r
}

/// A base URL as typed by the user: trimmed, without trailing slashes.
pub open spec fn normalized_url(raw: Seq<char>) -> Seq<char> {
    strip_trailing(trim(raw), '/')
}

/// Site URL without surrounding whitespace or trailing slashes.
pub fn normalize_site_url(raw: &str) -> (r: String)
    ensures
        r@ == normalized_url(raw@),
{
    let v = chars_of(raw);
    let t = trim_chars(&v);
    let u = strip_trailing_chars(&t, '/');
    string_of(&u)
}

pub open spec fn is_ascii_digit(c: char) -> bool {
    '0' <= c && c <= '9'
}

/// The last five characters read `+HHMM` or `-HHMM`.
pub open spec fn has_compact_offset(s: Seq<char>) -> bool {
    s.len() >= 5 && (s[s.len() - 5] == '+' || s[s.len() - 5] == '-') && is_ascii_digit(
        s[s.len() - 4],
    ) && is_ascii_digit(s[s.len() - 3]) && is_ascii_digit(s[s.len() - 2]) && is_ascii_digit(
        s[s.len() - 1],
    )
}

/// Jira's `+0100` offset rewritten as RFC 3339's `+01:00`; anything else
/// unchanged.
pub open spec fn rfc3339_offset(s: Seq<char>) -> Seq<char> {
    if has_compact_offset(s) {
        s.subrange(0, s.len() - 2).push(':') + s.subrange(s.len() - 2, s.len() as int)
    } else {
        s
    }
}

/// Splitting `s` five bytes before its end does not cut a character (the
/// offset rewrite slices there, which would panic otherwise).
pub open spec fn tail_splits_cleanly(s: &str) -> bool {
    s.spec_bytes().len() < 5 || is_char_boundary(s.spec_bytes(), s.spec_bytes().len() - 5)
}

/// Jira often returns offsets like `+0100`; RFC3339 expects `+01:00`.
pub fn jira_timestamp_to_rfc3339(s: &str) -> (r: String)
    requires
        tail_splits_cleanly(s),
    ensures
        r@ == rfc3339_offset(s@),
{
    let v = chars_of(s);
    let n = v.len();
    if n >= 5 && (v[n - 5] == '+' || v[n - 5] == '-') && '0' <= v[n - 4] && v[n - 4] <= '9' && '0'
        <= v[n - 3] && v[n - 3] <= '9' && '0' <= v[n - 2] && v[n - 2] <= '9' && '0' <= v[n - 1]
        && v[n - 1] <= '9' {
        let mut out: Vec<char> = Vec::new();
        let mut i: usize = 0;
        while i < n - 2
            invariant
                n == v@.len(),
                n >= 5,
                i <= n - 2,
                out@ == v@.subrange(0, i as int),
            decreases n - 2 - i,
        {
            out.push(v[i]);
            i += 1;
        }
        out.push(':');
        out.push(v[n - 2]);
        out.push(v[n - 1]);
        assert(out@ =~= rfc3339_offset(s@));
        string_of(&out)
    } else {
        string_of(&v)
    }
}

/// Unix seconds of a Jira timestamp: RFC 3339 as is, or after rewriting a
/// `+HHMM` offset.
pub open spec fn jira_instant(s: Seq<char>) -> Option<i64> {
    match rfc3339_seconds(s) {
        Some(t) => Some(t),
        None => rfc3339_seconds(rfc3339_offset(s)),
    }
}

/// Parse a Jira datetime into unix seconds.
pub fn parse_jira_updated(s: &str) -> (r: Option<i64>)
    requires
        tail_splits_cleanly(s),
    ensures
        r == jira_instant(s@),
        r matches Some(t) ==> chrono_instant(t),
{
    match parse_rfc3339(s) {
        Some(t) => Some(t),
        None => {
            let fixed = jira_timestamp_to_rfc3339(s);
            parse_rfc3339(fixed.as_str())
        },
    }
}

/// The local calendar day and unix seconds of a Jira datetime; `None` when
/// it does not parse or lies within a day of the end of chrono's range (no
/// local reading). The day is the instant's day on the local clock.
pub fn local_day_and_ts(raw: &str) -> (r: Option<Stamp>)
    requires
        tail_splits_cleanly(raw),
    ensures
        r matches Some(st) ==> jira_instant(raw@) == Some(st.ts),
        r matches Some(st) ==> crate::clock::on_local_day(st.ts as int, st.day as int),
        r is Some <==> (jira_instant(raw@) matches Some(t) && crate::clock::placeable(t)),
{
    let ts = parse_jira_updated(raw)?;
    let clock = local_clock(ts)?;
    Some(Stamp { day: clock.day, ts })
}

/// `expand=changelog` block on a search-result issue (newest first, may be
/// truncated).
#[derive(Debug, Clone, PartialEq)]
pub struct InlineChangelog {
    pub histories: Vec<ChangelogEntry>,
    pub total: Option<u64>,
}

/// The inline block is complete when Jira reports a `total` no larger than
/// the histories it returned; without a `total` it is treated as truncated.
pub fn inline_changelog_is_complete(inline: &InlineChangelog) -> (b: bool)
    ensures
        b == (inline.total matches Some(t) && t <= inline.histories@.len()),
{
    match inline.total {
        Some(t) => t as u128 <= inline.histories.len() as u128,
        None => false,
    }
}


/// Text of `workItemKey IN updatedBy(…)` for the issues the account touched
/// from `from` (inclusive) to `to` (exclusive), newest first.
pub open spec fn updated_by_jql(account: Seq<char>, from: Seq<char>, to: Seq<char>) -> Seq<char> {
    "workItemKey IN updatedBy("@ + jql_quoted(account) + ", \""@ + from + "\", \""@ + to
        + "\") ORDER BY updated DESC"@
}

/// The enhanced-search JQL for the issues `account_id` touched on the local
/// days `start_day..=end_day` (the upper bound is the day after, exclusive).
/// `None` when a day cannot be rendered.
pub fn search_jql(account_id: &str, start_day: i32, end_day: i32) -> (r: Option<String>)
    ensures
        r is Some <==> (end_day < i32::MAX && formatted_day(start_day, iso_format()) is Some
            && formatted_day((end_day + 1) as i32, iso_format()) is Some),
        r matches Some(q) ==> q@ == updated_by_jql(
            account_id@,
            formatted_day(start_day, iso_format())->0,
            formatted_day((end_day + 1) as i32, iso_format())->0,
        ),
{
    if end_day == i32::MAX {
        return None;
    }
    let from = format_day(start_day, iso_format_str())?;
    let to = format_day(end_day + 1, iso_format_str())?;
    let mut q = String::from_str("workItemKey IN updatedBy(");
    let user = jql_quoted_identifier(account_id);
    q.append(user.as_str());
    q.append(", \"");
    q.append(from.as_str());
    q.append("\", \"");
    q.append(to.as_str());
    q.append("\") ORDER BY updated DESC");
    Some(q)
}

/// JSON body for one enhanced-search page: the JQL, 100 issues per page, the
/// fields the timeline reads and the inline changelog. `next_page_token` is
/// omitted on the first page and echoed back verbatim afterwards.
pub open spec fn search_body(jql: Seq<char>, token: Option<Seq<char>>) -> Seq<char> {
    "{\"expand\":\"changelog\",\"fields\":[\"summary\",\"updated\",\"created\",\"creator\",\"comment\"],\"jql\":"@
        + json_string(jql) + ",\"maxResults\":100"@ + match token {
        Some(t) => ",\"nextPageToken\":"@ + json_string(t),
        None => Seq::empty(),
    } + "}"@
}

pub fn search_request_body(jql: &str, next_page_token: Option<&str>) -> (r: String)
    ensures
        r@ == search_body(jql@, match next_page_token { Some(t) => Some(t@), None => None }),
{
    let mut b = String::from_str(
        "{\"expand\":\"changelog\",\"fields\":[\"summary\",\"updated\",\"created\",\"creator\",\"comment\"],\"jql\":",
    );
    let q = json_quote(jql);
    b.append(q.as_str());
    b.append(",\"maxResults\":100");
    if let Some(t) = next_page_token {
        b.append(",\"nextPageToken\":");
        let tq = json_quote(t);
        b.append(tq.as_str());
    }
    b.append("}");
    b
}

/// What to do after one enhanced-search page.
#[derive(Debug, Clone, Copy, PartialEq, Eq, Structural)]
pub enum SearchStep {
    /// The walk is complete.
    Done,
    /// Fetch the next page with the `nextPageToken` just received.
    Next,
    /// The server sent back the token it was given.
    RepeatedToken,
    /// `max_pages` pages were read and the server still has more.
    Exceeded,
}

pub open spec fn nonempty_token(t: Option<String>) -> Option<Seq<char>> {
    match t {
        Some(s) => if s@.len() > 0 { Some(s@) } else { None },
        None => None,
    }
}

/// Decide after page `page` (1-based) of at most `max_pages`: stop on
/// `isLast`, on an absent or empty `nextPageToken` or on an empty page; fail
/// when the token repeats or the page budget is spent; otherwise go on.
pub open spec fn search_step(
    page: usize,
    max_pages: usize,
    token: Option<Seq<char>>,
    got: usize,
    next: Option<Seq<char>>,
    is_last: Option<bool>,
) -> SearchStep {
    if is_last == Some(true) || next is None || got == 0 {
        SearchStep::Done
    } else if next == token {
        SearchStep::RepeatedToken
    } else if page >= max_pages {
        SearchStep::Exceeded
    } else {
        SearchStep::Next
    }
}

pub fn search_page_step(
    page: usize,
    max_pages: usize,
    token: &Option<String>,
    got: usize,
    next_page_token: Option<String>,
    is_last: Option<bool>,
) -> (r: SearchStep)
    ensures
        r == search_step(
            page,
            max_pages,
            match token { Some(t) => Some(t@), None => None },
            got,
            nonempty_token(next_page_token),
            is_last,
        ),
{
    let next = match next_page_token {
        Some(t) => if !t.as_str().is_empty() { Some(t) } else { None },
        None => None,
    };
    if is_last == Some(true) || next.is_none() || got == 0 {
        return SearchStep::Done;
    }
    let same = match (token, &next) {
        (Some(t), Some(n)) => crate::text::same_text(t.as_str(), n.as_str()),
        _ => false,
    };
    if same {
        SearchStep::RepeatedToken
    } else if page >= max_pages {
        SearchStep::Exceeded
    } else {
        SearchStep::Next
    }
}

/// What to do after one page of `GET /issue/{key}/changelog`.
#[derive(Debug, Clone, Copy, PartialEq, Eq, Structural)]
pub enum ChangelogStep {
    Done,
    /// Fetch again from this `startAt`.
    Next(u64),
    Exceeded,
}

/// Stop on `isLast`, an empty page, or once `startAt + returned` reaches
/// `total`; fail once `max_pages` pages were read; otherwise continue right
/// after the entries just read.
pub open spec fn changelog_step(
    page: usize,
    max_pages: usize,
    start_at: u64,
    got: u64,
    total: Option<u64>,
    is_last: Option<bool>,
) -> ChangelogStep {
    if is_last == Some(true) || got == 0 || (total matches Some(t) && start_at + got >= t) {
        ChangelogStep::Done
    } else if page >= max_pages {
        ChangelogStep::Exceeded
    } else {
        ChangelogStep::Next((start_at + got) as u64)
    }
}

pub fn changelog_page_step(
    page: usize,
    max_pages: usize,
    start_at: u64,
    got: u64,
    total: Option<u64>,
    is_last: Option<bool>,
) -> (r: ChangelogStep)
    requires
        start_at + got <= u64::MAX,
    ensures
        r == changelog_step(page, max_pages, start_at, got, total, is_last),
{
    let reached_total = match total {
        Some(t) => start_at + got >= t,
        None => false,
    };
    if is_last == Some(true) || got == 0 || reached_total {
        ChangelogStep::Done
    } else if page >= max_pages {
        ChangelogStep::Exceeded
    } else {
        ChangelogStep::Next(start_at + got)
    }
}


/// Detail line of a Jira row: the issue summary, with ` ×N` when the action
/// happened N > 1 times that day.
pub open spec fn jira_detail(summary: Seq<char>, count: nat) -> Seq<char> {
    if count > 1 {
        summary + " ×"@ + decimal(count)
    } else {
        summary
    }
}

/// A row's detail tells how often the action happened: it starts with the
/// summary, is the summary alone for a single action, and for more than one
/// ends in ` ×` and the count, which reads back from it; so two different
/// counts never give the same detail.
pub proof fn lemma_detail_tells_count(summary: Seq<char>, n1: nat, n2: nat)
    requires
        n1 >= 1,
        n2 >= 1,
    ensures
        summary.is_prefix_of(jira_detail(summary, n1)),
        n1 == 1 ==> jira_detail(summary, n1) == summary,
        n1 > 1 ==> jira_detail(summary, n1).subrange(summary.len() as int, summary.len() as int + 2) == " ×"@,
        n1 > 1 ==> crate::text::digits_value(
            jira_detail(summary, n1).subrange(summary.len() as int + 2, jira_detail(summary, n1).len() as int),
        ) == n1,
        jira_detail(summary, n1) == jira_detail(summary, n2) ==> n1 == n2,
{
    reveal_strlit(" ×");
    crate::text::lemma_decimal_digits(n1);
    crate::text::lemma_decimal_digits(n2);
    let d1 = jira_detail(summary, n1);
    let d2 = jira_detail(summary, n2);
    assert(summary.is_prefix_of(d1)) by {
        assert(d1.subrange(0, summary.len() as int) =~= summary);
    }
    if n1 > 1 {
        assert(d1.subrange(summary.len() as int, summary.len() as int + 2) =~= " ×"@);
        assert(d1.subrange(summary.len() as int + 2, d1.len() as int) =~= decimal(n1));
    }
    if d1 == d2 {
        if n1 > 1 && n2 > 1 {
            assert(d1.subrange(summary.len() as int + 2, d1.len() as int) =~= decimal(n1));
            assert(d2.subrange(summary.len() as int + 2, d2.len() as int) =~= decimal(n2));
        }
    }
}

/// The timeline row for one user action on issue `key`: id
/// `jira:{key}:{day}:{label}`, title `{label} {key}`, the summary as
/// detail and the issue's browse URL. `None` when the day cannot be
/// rendered or the instant has no local reading.
pub fn jira_event(base: &str, key: &str, summary: &str, a: &ActionOnDay) -> (r: Option<
    (i32, i64, TimelineEvent),
>)
    ensures
        r matches Some((d, ts, ev)) ==> {
            &&& d == a.day
            &&& ts == a.first_ts
            &&& ev.timestamp == a.first_ts
            &&& ev.source == TimelineEventSource::Jira
            &&& formatted_day(a.day, iso_format()) is Some
            &&& ev.id@ == "jira:"@ + key@ + ":"@ + formatted_day(a.day, iso_format())->0 + ":"@
                + label_of(a.action)
            &&& ev.title@ == label_of(a.action) + " "@ + key@
            &&& text_of(ev.detail) == Some(jira_detail(summary@, a.count as nat))
            &&& text_of(ev.url) == sanitized_url(base@ + "/browse/"@ + key@)
        },
        r is Some <==> (formatted_day(a.day, iso_format()) is Some && crate::clock::placeable(a.first_ts)),
        r matches Some((d, ts, ev)) ==> exists|c: crate::clock::LocalClock|
            #[trigger] crate::clock::reads(c, a.first_ts) && ev.time@ == c.hhmm@,
{
    let day_text = format_day(a.day, iso_format_str())?;
    let clock = local_clock(a.first_ts)?;
    let label = a.action.label();
    let mut id = String::from_str("jira:");
    id.append(key);
    id.append(":");
    id.append(day_text.as_str());
    id.append(":");
    id.append(label.as_str());
    let mut title = label.clone();
    title.append(" ");
    title.append(key);
    let mut detail = String::from_str(summary);
    if a.count > 1 {
        detail.append(" ×");
        let n = decimal_string(a.count as u64);
        detail.append(n.as_str());
    }
    let mut browse = String::from_str(base);
    browse.append("/browse/");
    browse.append(key);
    let url = sanitize_event_url(browse.as_str());
    Some(
        (
            a.day,
            a.first_ts,
            TimelineEvent {
                id,
                time: clock.hhmm,
                timestamp: a.first_ts,
                source: TimelineEventSource::Jira,
                title,
                detail: Some(detail),
                url,
            },
        ),
    )
}

// ---------------------------------------------------------------------------
// Requests
// ---------------------------------------------------------------------------

/// The site (normalised), email and API token (trimmed) to fetch with;
/// `None` when Jira is off or any of them is empty.
pub fn jira_credentials(enabled: bool, site_url: &str, email: &str, api_token: &str) -> (r: Option<(String, String, String)>)
    ensures
        r is Some <==> enabled && normalized_url(site_url@).len() > 0 && trim(email@).len() > 0
            && trim(api_token@).len() > 0,
        r matches Some(c) ==> c.0@ == normalized_url(site_url@) && c.1@ == trim(email@) && c.2@ == trim(
            api_token@,
        ),
{
    if !enabled {
        return None;
    }
    let base = normalize_site_url(site_url);
    let e = trim_slice(email);
    let t = trim_slice(api_token);
    if base.as_str().is_empty() || e.is_empty() || t.is_empty() {
        return None;
    }
    Some((base, e.to_owned(), t.to_owned()))
}

/// Why a connection test cannot start, checked in this order.
pub fn jira_connection_problem(site_url: &str, email: &str, api_token: &str) -> (r: Option<String>)
    ensures
        normalized_url(site_url@).len() == 0 ==> text_of(r) == Some("Site URL is required"@),
        normalized_url(site_url@).len() > 0 && (trim(email@).len() == 0 || trim(api_token@).len() == 0)
            ==> text_of(r) == Some("Email and API token are required"@),
        normalized_url(site_url@).len() > 0 && trim(email@).len() > 0 && trim(api_token@).len() > 0
            ==> r is None,
{
    let base = normalize_site_url(site_url);
    if base.as_str().is_empty() {
        return Some(String::from_str("Site URL is required"));
    }
    if trim_slice(email).is_empty() || trim_slice(api_token).is_empty() {
        return Some(String::from_str("Email and API token are required"));
    }
    None
}

/// The error for an HTTP error status from `/myself` while fetching.
pub fn jira_myself_error(status: u16) -> (m: String)
    ensures
        m@ == "Jira /myself returned HTTP "@ + decimal(status as nat) + " (check site URL, email, and API token)"@,
{
    let mut m = String::from_str("Jira /myself returned HTTP ");
    let s = decimal_string(status as u64);
    m.append(s.as_str());
    m.append(" (check site URL, email, and API token)");
    m
}

/// The connection test's error for an HTTP error status.
pub fn jira_connection_status_error(status: u16) -> (m: String)
    ensures
        m@ == "Jira returned HTTP "@ + decimal(status as nat) + " \u{2014} check site URL, email, and API token"@,
{
    let mut m = String::from_str("Jira returned HTTP ");
    let s = decimal_string(status as u64);
    m.append(s.as_str());
    m.append(" \u{2014} check site URL, email, and API token");
    m
}

} // verus!
