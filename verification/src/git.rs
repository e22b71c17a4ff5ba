//! Commits from local git repositories: the scan rules, reading the output
//! of `git log -z --pretty=format:%H%x09%ct%x09%s`, and one timeline row per
//! commit.
use vstd::prelude::*;
use vstd::string::StringSliceAdditionalSpecFns;
use vstd::utf8::{decode_utf8, encode_utf8, encode_utf8_decode_utf8, is_char_boundary, valid_utf8};

use crate::clock::{format_day, formatted_day, local_clock, parse_day, parsed_day, unique_local_instant};
use crate::text::{chars_of, parse_i64, parsed_i64, same_text, trim, trim_slice};
use crate::timeline::{text_of, TimelineEvent, TimelineEventSource};

verus! {

/// Directories deeper than this below the scan root are not visited.
pub const MAX_SCAN_DEPTH: u32 = 14;

/// What the repository scan does with one directory.
#[derive(Debug, Clone, Copy, PartialEq, Eq, Structural)]
pub enum ScanStep {
    /// Too deep: leave it alone.
    Skip,
    /// It holds `.git`: record it and do not look inside.
    Repo,
    /// Look at its subdirectories.
    Children,
}

/// The scan's decision for a directory at `depth` below the root.
pub fn scan_step(depth: u32, has_git_entry: bool) -> (r: ScanStep)
    ensures
        r == (if depth > MAX_SCAN_DEPTH {
            ScanStep::Skip
        } else if has_git_entry {
            ScanStep::Repo
        } else {
            ScanStep::Children
        }),
{
    if depth > MAX_SCAN_DEPTH {
        ScanStep::Skip
    } else if has_git_entry {
        ScanStep::Repo
    } else {
        ScanStep::Children
    }
}

/// Directory names the scan never enters (dependency and build trees).
pub open spec fn skipped_dir_name(name: Seq<char>) -> bool {
    name == "node_modules"@ || name == "target"@ || name == ".git"@ || name == ".cargo"@
        || name == "dist"@ || name == "build"@
}

/// Whether the scan enters a directory entry: real directories only (no
/// symlinks, which could lead back up the tree), and none of the skipped names.
pub fn descend_into(name: &str, is_dir: bool, is_symlink: bool) -> (r: bool)
    ensures
        r == (is_dir && !is_symlink && !skipped_dir_name(name@)),
{
    if !is_dir || is_symlink {
        return false;
    }
    let skipped = same_text(name, "node_modules") || same_text(name, "target") || same_text(
        name,
        ".git",
    ) || same_text(name, ".cargo") || same_text(name, "dist") || same_text(name, "build");
    !skipped
}

/// The first configured user name, trying candidates in order (the scan
/// root's config first, then each repository's); empty names do not count.
pub open spec fn first_user_name(c: Seq<Option<Seq<char>>>) -> Option<Seq<char>>
    decreases c.len(),
{
    if c.len() == 0 {
        None
    } else {
        match c[0] {
            Some(n) => if n.len() > 0 {
                Some(n)
            } else {
                first_user_name(c.skip(1))
            },
            None => first_user_name(c.skip(1)),
        }
    }
}

pub open spec fn option_texts(c: Seq<Option<String>>) -> Seq<Option<Seq<char>>> {
    c.map_values(|o: Option<String>| text_of(o))
}

/// Picks the author whose commits are shown.
pub fn resolve_git_user_name(candidates: &Vec<Option<String>>) -> (r: Option<String>)
    ensures
        text_of(r) == first_user_name(option_texts(candidates@)),
{
    let ghost all = option_texts(candidates@);
    assert(all.skip(0) =~= all);
    let mut i: usize = 0;
    while i < candidates.len()
        invariant
            i <= candidates.len(),
            all == option_texts(candidates@),
            first_user_name(all) == first_user_name(all.skip(i as int)),
        decreases candidates.len() - i,
    {
        assert(all.skip(i as int)[0] == text_of(candidates@[i as int]));
        assert(all.skip(i as int).skip(1) =~= all.skip(i + 1));
        match &candidates[i] {
            Some(n) => {
                if !n.as_str().is_empty() {
                    return Some(n.clone());
                }
            },
            None => {},
        }
        i += 1;
    }
    assert(all.skip(i as int).len() == 0);
    None
}

/// Index of the first tab at or after `from`, or the length when none.
pub open spec fn next_tab(s: Seq<char>, from: int) -> int
    decreases s.len() - from,
{
    if from < 0 || from >= s.len() {
        s.len() as int
    } else if s[from] == '\t' {
        from
    } else {
        next_tab(s, from + 1)
    }
}

/// One `git log` record: hash, tab, commit time, tab, subject. The fields
/// are the first three tab-separated parts (the subject keeps later tabs),
/// each trimmed. A record whose hash is under seven bytes, or whose time is
/// missing or not an `i64`, is malformed.
pub open spec fn git_record(s: Seq<char>) -> Option<(Seq<char>, i64, Seq<char>)> {
    let t1 = next_tab(s, 0);
    if t1 >= s.len() {
        None
    } else {
        let hash = trim(s.subrange(0, t1));
        let t2 = next_tab(s, t1 + 1);
        let ts = trim(s.subrange(t1 + 1, t2));
        let subject = if t2 < s.len() {
            trim(s.subrange(t2 + 1, s.len() as int))
        } else {
            Seq::<char>::empty()
        };
        if encode_utf8(hash).len() < 7 || ts.len() == 0 {
            None
        } else {
            match parsed_i64(ts) {
                Some(v) => Some((hash, v, subject)),
                None => None,
            }
        }
    }
}

fn find_tab(v: &Vec<char>, from: usize) -> (r: usize)
    requires
        from <= v.len(),
    ensures
        r as int == next_tab(v@, from as int),
        from <= r <= v.len(),
{
    let mut i = from;
    while i < v.len() && v[i] != '\t'
        invariant
            from <= i <= v.len(),
            next_tab(v@, from as int) == next_tab(v@, i as int),
        decreases v.len() - i,
    {
        i += 1;
    }
    i
}

/// Parses one null-delimited `git log` record into `(hash, unix time,
/// subject)`; `None` when it is malformed.
pub fn parse_git_log_record(record: &str) -> (r: Option<(String, i64, String)>)
    ensures
        r matches Some(p) ==> git_record(record@) == Some((p.0@, p.1, p.2@)),
        r is None ==> git_record(record@) is None,
{
    let v = chars_of(record);
    let n = v.len();
    let t1 = find_tab(&v, 0);
    if t1 >= n {
        return None;
    }
    let t2 = find_tab(&v, t1 + 1);
    let hash = trim_slice(record.substring_char(0, t1));
    let ts_str = trim_slice(record.substring_char(t1 + 1, t2));
    let subject: &str = if t2 < n {
        trim_slice(record.substring_char(t2 + 1, n))
    } else {
        let e = record.substring_char(0, 0);
        assert(e@ =~= Seq::<char>::empty());
        e
    };
    assert(hash@ == trim(record@.subrange(0, t1 as int)));
    assert(ts_str@ == trim(record@.subrange(t1 + 1, t2 as int)));
    if hash.as_bytes().len() < 7 || ts_str.is_empty() {
        return None;
    }
    let ts_chars = chars_of(ts_str);
    match parse_i64(&ts_chars) {
        Some(ts) => Some((hash.to_owned(), ts, subject.to_owned())),
        None => None,
    }
}

/// The short form of a commit hash shown in the row: its first seven bytes.
pub open spec fn short_hash(hash: Seq<char>) -> Seq<char> {
    if encode_utf8(hash).len() <= 7 {
        hash
    } else {
        decode_utf8(encode_utf8(hash).subrange(0, 7))
    }
}

/// Whether seven bytes can be cut from the hash without splitting a
/// character (always so for the hex hashes git prints).
pub open spec fn can_shorten(hash: Seq<char>) -> bool {
    encode_utf8(hash).len() <= 7 || is_char_boundary(encode_utf8(hash), 7)
}

/// The first seven bytes of a hash (all of it when shorter).
pub fn short_of_hash(hash: &str) -> (r: &str)
    requires
        can_shorten(hash@),
    ensures
        r@ == short_hash(hash@),
{
    if hash.as_bytes().len() <= 7 {
        hash
    } else {
        let (a, _rest) = hash.split_at(7);
        proof {
            encode_utf8_decode_utf8(a@);
            assert(a.spec_bytes() == encode_utf8(a@));
            assert(encode_utf8(a@) == encode_utf8(hash@).subrange(0, 7));
        }
        a
    }
}

pub open spec fn git_event_id(repo_display: Seq<char>, hash: Seq<char>) -> Seq<char> {
    "git:"@ + repo_display + ":"@ + hash
}

pub open spec fn git_event_detail(repo_name: Seq<char>, hash: Seq<char>) -> Seq<char> {
    repo_name + " \u{2014} "@ + short_hash(hash)
}

/// The row time when the commit's local time is unknown.
pub open spec fn midnight_text() -> Seq<char> {
    "00:00"@
}

/// The timeline row for one commit of the repository shown as
/// `repo_display` (named `repo_name`), at local time `time` when known.
pub fn git_event(
    repo_display: &str,
    repo_name: &str,
    hash: &str,
    ts: i64,
    subject: &str,
    time: Option<String>,
) -> (e: TimelineEvent)
    requires
        can_shorten(hash@),
    ensures
        e.id@ == git_event_id(repo_display@, hash@),
        e.time@ == (match time {
            Some(t) => t@,
            None => midnight_text(),
        }),
        e.timestamp == ts,
        e.source == TimelineEventSource::Git,
        e.title@ == subject@,
        text_of(e.detail) == Some(git_event_detail(repo_name@, hash@)),
        e.url is None,
{
    let mut id = String::from_str("git:");
    id.append(repo_display);
    id.append(":");
    id.append(hash);
    let short = short_of_hash(hash);
    let mut detail = repo_name.to_owned();
    detail.append(" \u{2014} ");
    detail.append(short);
    let time_text = match time {
        Some(t) => t,
        None => String::from_str("00:00"),
    };
    proof {
        reveal_strlit("git:");
        reveal_strlit(":");
        reveal_strlit(" \u{2014} ");
    }
    assert(id@ =~= git_event_id(repo_display@, hash@));
    assert(detail@ =~= git_event_detail(repo_name@, hash@));
    TimelineEvent {
        id,
        time: time_text,
        timestamp: ts,
        source: TimelineEventSource::Git,
        title: subject.to_owned(),
        detail: Some(detail),
        url: None,
    }
}

/// The well-formed records among `texts`, in order.
pub open spec fn git_records(texts: Seq<Seq<char>>) -> Seq<(Seq<char>, i64, Seq<char>)>
    decreases texts.len(),
{
    if texts.len() == 0 {
        Seq::empty()
    } else {
        let earlier = git_records(texts.drop_last());
        match git_record(texts.last()) {
            Some(p) => earlier.push(p),
            None => earlier,
        }
    }
}

pub open spec fn string_texts(v: Seq<String>) -> Seq<Seq<char>> {
    v.map_values(|s: String| s@)
}

/// Whether every well-formed record has a hash that can be shortened.
pub open spec fn hashes_can_shorten(texts: Seq<Seq<char>>) -> bool {
    forall|k: int|
        0 <= k < git_records(texts).len() ==> can_shorten(#[trigger] git_records(texts)[k].0)
}

proof fn lemma_records_prefix(texts: Seq<Seq<char>>, i: int)
    requires
        0 <= i <= texts.len(),
    ensures
        git_records(texts.take(i)).len() <= git_records(texts).len(),
        forall|k: int|
            0 <= k < git_records(texts.take(i)).len() ==> git_records(texts.take(i))[k]
                == git_records(texts)[k],
    decreases texts.len(),
{
    if i == texts.len() {
        assert(texts.take(i) =~= texts);
    } else {
        lemma_records_prefix(texts.drop_last(), i);
        assert(texts.drop_last().take(i) =~= texts.take(i));
    }
}

/// Whether `row` is the timeline row of commit record `p` (whatever its
/// local time).
pub open spec fn git_row_of(
    row: (i64, TimelineEvent),
    p: (Seq<char>, i64, Seq<char>),
    repo_display: Seq<char>,
    repo_name: Seq<char>,
) -> bool {
    let e = row.1;
    &&& row.0 == p.1
    &&& e.id@ == git_event_id(repo_display, p.0)
    &&& e.timestamp == p.1
    &&& e.source == TimelineEventSource::Git
    &&& e.title@ == p.2
    &&& text_of(e.detail) == Some(git_event_detail(repo_name, p.0))
    &&& e.url is None
    &&& crate::clock::placeable(p.1) ==> exists|c: crate::clock::LocalClock|
        #[trigger] crate::clock::reads(c, p.1) && e.time@ == c.hhmm@
    &&& !crate::clock::placeable(p.1) ==> e.time@ == midnight_text()
}

/// Rows of several repositories one after another, in repository order.
pub open spec fn concat_rows(per_repo: Seq<Seq<(i64, TimelineEvent)>>) -> Seq<(i64, TimelineEvent)>
    decreases per_repo.len(),
{
    if per_repo.len() == 0 {
        Seq::empty()
    } else {
        per_repo[0] + concat_rows(per_repo.drop_first())
    }
}

pub open spec fn row_lists(v: Seq<Vec<(i64, TimelineEvent)>>) -> Seq<Seq<(i64, TimelineEvent)>> {
    v.map_values(|r: Vec<(i64, TimelineEvent)>| r@)
}

/// A day's commits across repositories: every repository's rows, ordered by
/// commit time (a stable sort, so equal times keep repository and log order).
pub fn day_rows(per_repo: Vec<Vec<(i64, TimelineEvent)>>) -> (out: Vec<(i64, TimelineEvent)>)
    ensures
        out@ == crate::sorting::sort_by_ts(concat_rows(row_lists(per_repo@))),
        crate::sorting::ascending(out@),
        out@.to_multiset() == concat_rows(row_lists(per_repo@)).to_multiset(),
{
    let ghost whole = concat_rows(row_lists(per_repo@));
    let mut rest = per_repo;
    let mut all: Vec<(i64, TimelineEvent)> = Vec::new();
    while rest.len() > 0
        invariant
            whole == all@ + concat_rows(row_lists(rest@)),
        decreases rest.len(),
    {
        let ghost before = rest@;
        let mut first = rest.remove(0);
        proof {
            assert(row_lists(rest@) =~= row_lists(before).drop_first());
            assert(row_lists(before)[0] == first@);
        }
        let ghost old_all = all@;
        all.append(&mut first);
        proof {
            assert(whole == old_all + (row_lists(before)[0] + concat_rows(row_lists(before).drop_first())));
            assert(all@ + concat_rows(row_lists(rest@)) =~= old_all + (row_lists(before)[0] + concat_rows(row_lists(before).drop_first())));
        }
    }
    proof {
        assert(concat_rows(row_lists(rest@)) =~= Seq::empty());
        assert(all@ =~= whole);
        crate::sorting::lemma_sort_by_ts_ascending(whole);
        crate::sorting::lemma_sort_by_ts_perm(whole);
    }
    crate::sorting::sort_rows_by_ts(all)
}

/// The timeline rows of one repository's `git log` records: one row per
/// well-formed record, in order, keyed by its commit time. The row time is
/// the commit's `HH:MM` on the local clock (`00:00` for an instant within a
/// day of chrono's range ends).
pub fn git_repo_rows(repo_display: &str, repo_name: &str, records: &Vec<String>) -> (rows: Vec<(i64, TimelineEvent)>)
    requires
        hashes_can_shorten(string_texts(records@)),
    ensures
        rows.len() == git_records(string_texts(records@)).len(),
        forall|k: int|
            0 <= k < rows.len() ==> git_row_of(
                rows@[k],
                #[trigger] git_records(string_texts(records@))[k],
                repo_display@,
                repo_name@,
            ),
{
    let ghost texts = string_texts(records@);
    let mut rows: Vec<(i64, TimelineEvent)> = Vec::new();
    let mut i: usize = 0;
    while i < records.len()
        invariant
            i <= records.len(),
            texts == string_texts(records@),
            hashes_can_shorten(texts),
            rows.len() == git_records(texts.take(i as int)).len(),
            forall|k: int|
                0 <= k < rows.len() ==> git_row_of(
                    rows@[k],
                    #[trigger] git_records(texts.take(i as int))[k],
                    repo_display@,
                    repo_name@,
                ),
        decreases records.len() - i,
    {
        let ghost before = git_records(texts.take(i as int));
        let ghost old_rows = rows@;
        assert(texts.take(i + 1).drop_last() =~= texts.take(i as int));
        assert(texts.take(i + 1).last() == records@[i as int]@);
        match parse_git_log_record(records[i].as_str()) {
            Some((hash, ts, subject)) => {
                proof {
                    let p = (hash@, ts, subject@);
                    assert(git_record(records@[i as int]@) == Some(p));
                    assert(git_records(texts.take(i + 1)) == before.push(p));
                    lemma_records_prefix(texts, i + 1);
                    let j = before.len() as int;
                    assert(git_records(texts.take(i + 1))[j] == git_records(texts)[j]);
                    assert(can_shorten(git_records(texts)[j].0));
                }
                let time = match local_clock(ts) {
                    Some(c) => Some(c.hhmm),
                    None => None,
                };
                let e = git_event(repo_display, repo_name, hash.as_str(), ts, subject.as_str(), time);
                rows.push((ts, e));
                let ghost now = git_records(texts.take(i + 1));
                assert(now == before.push((hash@, ts, subject@)));
                assert forall|k: int| 0 <= k < rows.len() implies git_row_of(
                    rows@[k],
                    #[trigger] now[k],
                    repo_display@,
                    repo_name@,
                ) by {
                    if k < old_rows.len() {
                        assert(old_rows[k] == rows@[k]);
                        assert(before[k] == now[k]);
                    }
                }
            },
            None => {
                assert(git_records(texts.take(i + 1)) == before);
            },
        }
        i += 1;
    }
    assert(texts.take(records.len() as int) =~= texts);
    rows
}

/// Splits `git log -z` output at NUL bytes into its non-empty records:
/// the finished records so far and the one being read.
pub open spec fn split_nul(b: Seq<u8>) -> (Seq<Seq<u8>>, Seq<u8>)
    decreases b.len(),
{
    if b.len() == 0 {
        (Seq::empty(), Seq::empty())
    } else {
        let (done, cur) = split_nul(b.drop_last());
        if b.last() == 0 {
            (if cur.len() > 0 {
                done.push(cur)
            } else {
                done
            }, Seq::empty())
        } else {
            (done, cur.push(b.last()))
        }
    }
}

/// The non-empty NUL-separated records of `b`.
pub open spec fn nul_records(b: Seq<u8>) -> Seq<Seq<u8>> {
    let (done, cur) = split_nul(b);
    if cur.len() > 0 {
        done.push(cur)
    } else {
        done
    }
}

/// What `String::from_utf8_lossy` returns for `b`.
pub uninterp spec fn lossy_utf8(b: Seq<u8>) -> Seq<char>;

/// `String::from_utf8_lossy` from std: the text of `b`, with each invalid
/// UTF-8 sequence replaced by U+FFFD. The contract names the result and
/// states what std documents for valid input: it is decoded unchanged.
#[verifier::external_body]
fn utf8_lossy(b: &[u8]) -> (r: String)
    ensures
        r@ == lossy_utf8(b@),
        valid_utf8(b@) ==> r@ == decode_utf8(b@),
{
    String::from_utf8_lossy(b).into_owned()
}

/// The records of `git log -z` output, each read as text.
pub fn git_log_records(out: &[u8]) -> (r: Vec<String>)
    ensures
        r.len() == nul_records(out@).len(),
        forall|k: int| 0 <= k < r.len() ==> r@[k]@ == lossy_utf8(nul_records(out@)[k]),
{
    let mut r: Vec<String> = Vec::new();
    let mut cur: Vec<u8> = Vec::new();
    let mut i: usize = 0;
    while i < out.len()
        invariant
            i <= out.len(),
            cur@ == split_nul(out@.take(i as int)).1,
            r.len() == split_nul(out@.take(i as int)).0.len(),
            forall|k: int|
                0 <= k < r.len() ==> r@[k]@ == lossy_utf8(
                    #[trigger] split_nul(out@.take(i as int)).0[k],
                ),
        decreases out.len() - i,
    {
        assert(out@.take(i + 1).drop_last() =~= out@.take(i as int));
        if out[i] == 0 {
            if cur.len() > 0 {
                let t = utf8_lossy(cur.as_slice());
                r.push(t);
            }
            cur = Vec::new();
        } else {
            cur.push(out[i]);
        }
        i += 1;
    }
    assert(out@.take(out.len() as int) =~= out@);
    if cur.len() > 0 {
        let t = utf8_lossy(cur.as_slice());
        r.push(t);
    }
    r
}

/// Text of `git config user.name` output: the trimmed name, or `None` when
/// the command failed or printed nothing.
pub fn config_user_name(success: bool, out: &[u8]) -> (r: Option<String>)
    ensures
        !success ==> r is None,
        success ==> text_of(r) == (if trim(lossy_utf8(out@)).len() == 0 {
            None
        } else {
            Some(trim(lossy_utf8(out@)))
        }),
{
    if !success {
        return None;
    }
    let text = utf8_lossy(out);
    let name = trim_slice(text.as_str());
    if name.is_empty() {
        None
    } else {
        Some(name.to_owned())
    }
}

/// The `git log --since/--until` bounds for a `YYYY-MM-DD` day: local
/// midnight at its start and at the start of the next day.
pub open spec fn day_bound_text(d: i32) -> Option<Seq<char>> {
    match formatted_day(d, "%Y-%m-%d"@) {
        Some(t) => Some(t + " 00:00:00"@),
        None => None,
    }
}

/// The message of a failed result.
pub open spec fn err_text<T>(r: Result<T, String>) -> Option<Seq<char>> {
    match r {
        Ok(_) => None,
        Err(m) => Some(m@),
    }
}

pub open spec fn invalid_git_day(day: Seq<char>) -> Seq<char> {
    "Invalid date (expected YYYY-MM-DD): "@ + day
}

pub open spec fn no_next_day(day: Seq<char>) -> Seq<char> {
    "no day after "@ + day
}

/// The time window handed to `git log` for one day. A day that does not
/// parse is refused; so is one with no following day. Whether local
/// midnight falls in a clock change depends on the machine's time zone: then
/// the window is refused as ambiguous.
pub fn git_log_window(day: &str) -> (r: Result<(String, String), String>)
    ensures
        parsed_day(day@, "%Y-%m-%d"@) is None ==> err_text(r) == Some(invalid_git_day(day@)),
        parsed_day(day@, "%Y-%m-%d"@) matches Some(d) ==> (d == i32::MAX || day_bound_text(
            (d + 1) as i32,
        ) is None) ==> err_text(r) == Some(no_next_day(day@)),
        parsed_day(day@, "%Y-%m-%d"@) matches Some(d) ==> (d < i32::MAX && day_bound_text(d)
            is Some && day_bound_text((d + 1) as i32) is Some) ==> (r is Ok || err_text(r)
            == Some("Ambiguous local start of day"@) || err_text(r) == Some(
            "Ambiguous local end of day"@,
        )),
        r matches Ok(w) ==> parsed_day(day@, "%Y-%m-%d"@) matches Some(d) && d < i32::MAX
            && day_bound_text(d) == Some(w.0@) && day_bound_text((d + 1) as i32) == Some(w.1@),
{
    let fmt = "%Y-%m-%d";
    proof {
        reveal_strlit("%Y-%m-%d");
        assert(fmt@ =~= crate::clock::iso_format());
    }
    let d = match parse_day(day, fmt) {
        Some(d) => d,
        None => {
            let mut m = String::from_str("Invalid date (expected YYYY-MM-DD): ");
            m.append(day);
            proof {
                reveal_strlit("Invalid date (expected YYYY-MM-DD): ");
            }
            return Err(m);
        },
    };
    let next_text = if d < i32::MAX {
        format_day(d + 1, fmt)
    } else {
        None
    };
    let until_day = match next_text {
        Some(t) => t,
        None => {
            let mut m = String::from_str("no day after ");
            m.append(day);
            proof {
                reveal_strlit("no day after ");
            }
            return Err(m);
        },
    };
    let since_day = match format_day(d, fmt) {
        Some(t) => t,
        None => {
            return Err(String::from_str("Invalid day start"));
        },
    };
    if unique_local_instant(d, 0).is_none() {
        return Err(String::from_str("Ambiguous local start of day"));
    }
    if unique_local_instant(d + 1, 0).is_none() {
        return Err(String::from_str("Ambiguous local end of day"));
    }
    let mut since = since_day;
    since.append(" 00:00:00");
    let mut until = until_day;
    until.append(" 00:00:00");
    proof {
        reveal_strlit(" 00:00:00");
    }
    Ok((since, until))
}


proof fn lemma_next_tab_at(s: Seq<char>, from: int, to: int)
    requires
        0 <= from <= to < s.len(),
        s[to] == '\t',
        forall|i: int| from <= i < to ==> s[i] != '\t',
    ensures
        next_tab(s, from) == to,
    decreases to - from,
{
    if from < to {
        lemma_next_tab_at(s, from + 1, to);
    }
}

proof fn lemma_next_tab_none(s: Seq<char>, from: int)
    requires
        0 <= from <= s.len(),
        forall|i: int| from <= i < s.len() ==> s[i] != '\t',
    ensures
        next_tab(s, from) == s.len(),
    decreases s.len() - from,
{
    if from < s.len() {
        lemma_next_tab_none(s, from + 1);
    }
}

/// What `git log -z --pretty=format:%H%x09%ct%x09%s` writes for one commit
/// is read back as that commit: the hash (at least seven bytes, without tabs
/// or surrounding whitespace), the commit time and the subject (without
/// surrounding whitespace; it may hold tabs).
pub proof fn lemma_git_record_round_trip(hash: Seq<char>, ts: i64, subject: Seq<char>)
    requires
        forall|i: int| 0 <= i < hash.len() ==> hash[i] != '\t',
        trim(hash) == hash,
        encode_utf8(hash).len() >= 7,
        trim(subject) == subject,
    ensures
        git_record(hash + seq!['\t'] + crate::text::signed_decimal(ts as int) + seq!['\t'] + subject) == Some(
            (hash, ts, subject),
        ),
{
    let d = crate::text::signed_decimal(ts as int);
    crate::text::lemma_parse_signed_decimal(ts);
    let rec = hash + seq!['\t'] + d + seq!['\t'] + subject;
    let t1 = hash.len() as int;
    assert(rec[t1] == '\t');
    assert forall|i: int| 0 <= i < t1 implies rec[i] != '\t' by {
        assert(rec[i] == hash[i]);
    }
    lemma_next_tab_at(rec, 0, t1);
    let t2 = t1 + 1 + d.len();
    assert(rec[t2] == '\t');
    assert forall|i: int| t1 + 1 <= i < t2 implies rec[i] != '\t' by {
        assert(rec[i] == d[i - t1 - 1]);
        let c = d[i - t1 - 1];
        assert(crate::text::is_digit(c) || c == '-');
    }
    lemma_next_tab_at(rec, t1 + 1, t2);
    assert(rec.subrange(0, t1) =~= hash);
    assert(rec.subrange(t1 + 1, t2) =~= d);
    assert(rec.subrange(t2 + 1, rec.len() as int) =~= subject);
    let c0 = d[0];
    let cl = d.last();
    assert(crate::text::is_digit(c0) || c0 == '-');
    assert(crate::text::is_digit(cl) || cl == '-');
    crate::text::lemma_trim_unchanged(d);
}

} // verus!
