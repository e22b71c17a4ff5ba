//! Assembling a day, a range of days or a month from the activity sources:
//! which days are read from the cache, how source results are merged and
//! which days may be cached.
use vstd::prelude::*;

use crate::clock::{civil_day, format_day, formatted_day, parse_day, parsed_day, ymd_day};
use crate::text::{decimal, decimal_string, signed_decimal, signed_decimal_string};
use crate::clock::{iso_format, iso_format_str};
use crate::sorting::{sort_by_ts, sort_rows_by_ts};
use crate::timeline::{copy_event, TimelineEvent};

verus! {

/// Maximum span (inclusive, in days) a single export may cover.
pub const MAX_EXPORT_DAYS: i64 = 366;

/// One timeline row bucketed by local day: `(day, unix seconds, event)`.
pub type Row = (i32, i64, TimelineEvent);

/// `start..=end` ascending; an inverted range yields just `start`.
pub open spec fn day_span(start: i32, end: i32) -> Seq<i32> {
    if end <= start {
        seq![start]
    } else {
        Seq::new((end - start + 1) as nat, |i: int| (start + i) as i32)
    }
}

/// All days from `start` through `end` inclusive, ascending. An inverted
/// range (`end` before `start`) yields just `start`.
pub fn days_in_range(start: i32, end: i32) -> (days: Vec<i32>)
    ensures
        days@ == day_span(start, end),
{
    let mut days: Vec<i32> = Vec::new();
    let mut d = start;
    loop
        invariant_except_break
            start <= d,
            d <= end || d == start,
            days@ == Seq::new((d - start) as nat, |i: int| (start + i) as i32),
        ensures
            days@ == day_span(start, end),
        decreases end - d,
    {
        days.push(d);
        if d >= end {
            assert(days@ =~= day_span(start, end));
            break;
        }
        d = d + 1;
    }
    days
}

/// The error text for a day argument that does not parse.
pub open spec fn invalid_day_message(prefix: Seq<char>, arg: Seq<char>) -> Seq<char> {
    prefix + " (expected YYYY-MM-DD): "@ + arg
}

/// Parse a `YYYY-MM-DD` day argument; the error names the argument.
pub fn parse_day_arg(label: &str, arg: &str) -> (r: Result<i32, String>)
    ensures
        match parsed_day(arg@, iso_format()) {
            Some(d) => r == Ok::<i32, String>(d),
            None => r matches Err(e) && e@ == invalid_day_message(label@, arg@),
        },
{
    match parse_day(arg, iso_format_str()) {
        Some(d) => Ok(d),
        None => {
            let mut e = String::from_str(label);
            e.append(" (expected YYYY-MM-DD): ");
            e.append(arg);
            Err(e)
        },
    }
}

/// What `export_timeline_for_range` accepts: both days parse, the range is
/// not inverted and spans at most `MAX_EXPORT_DAYS` days.
pub open spec fn export_bounds_spec(start: Seq<char>, end: Seq<char>) -> Result<(i32, i32), Seq<char>> {
    match parsed_day(start, iso_format()) {
        None => Err(invalid_day_message("Invalid start date"@, start)),
        Some(s) => match parsed_day(end, iso_format()) {
            None => Err(invalid_day_message("Invalid end date"@, end)),
            Some(e) => if e < s {
                Err("End date "@ + end + " is before start date "@ + start)
            } else if e - s + 1 > MAX_EXPORT_DAYS {
                Err("Range too large (max 366 days)"@)
            } else {
                Ok((s, e))
            },
        },
    }
}

/// Validate the days of an export request.
pub fn export_bounds(start: &str, end: &str) -> (r: Result<(i32, i32), String>)
    ensures
        match (r, export_bounds_spec(start@, end@)) {
            (Ok(x), Ok(y)) => x == y,
            (Err(x), Err(y)) => x@ == y,
            _ => false,
        },
{
    let s = match parse_day_arg("Invalid start date", start) {
        Ok(d) => d,
        Err(e) => {
            proof { reveal_strlit("Invalid start date"); }
            return Err(e);
        },
    };
    let e = match parse_day_arg("Invalid end date", end) {
        Ok(d) => d,
        Err(err) => {
            proof { reveal_strlit("Invalid end date"); }
            return Err(err);
        },
    };
    if e < s {
        let mut m = String::from_str("End date ");
        m.append(end);
        m.append(" is before start date ");
        m.append(start);
        return Err(m);
    }
    if (e as i64) - (s as i64) + 1 > MAX_EXPORT_DAYS {
        return Err(String::from_str("Range too large (max 366 days)"));
    }
    Ok((s, e))
}

/// Outcome of one source over a range of days.
pub struct SourceOutcome {
    /// Source name as shown to the user (`Git`, `GitHub`, …).
    pub source: String,
    pub result: Result<Vec<Row>, String>,
    /// Days the source returned without complete data (a result cap hit).
    pub incomplete: Vec<i32>,
}

/// A source that failed, so the user can be told the result is partial.
#[derive(Debug, Clone, PartialEq)]
pub struct ExportSourceError {
    pub source: String,
    pub error: String,
}

/// Every source merged over a set of wanted days.
pub struct RangeCollection {
    /// Rows on wanted days, sources in the order given, rows in the order
    /// each source returned them.
    pub rows: Vec<Row>,
    pub errors: Vec<ExportSourceError>,
    /// Days some source reported as incomplete.
    pub incomplete: Vec<i32>,
}

pub open spec fn ok_rows(outcomes: Seq<SourceOutcome>) -> Seq<Row>
    decreases outcomes.len(),
{
    if outcomes.len() == 0 {
        Seq::empty()
    } else {
        ok_rows(outcomes.drop_last()) + match outcomes.last().result {
            Ok(v) => v@,
            Err(_) => Seq::empty(),
        }
    }
}

pub open spec fn error_pairs(outcomes: Seq<SourceOutcome>) -> Seq<(Seq<char>, Seq<char>)>
    decreases outcomes.len(),
{
    if outcomes.len() == 0 {
        Seq::empty()
    } else {
        error_pairs(outcomes.drop_last()) + match outcomes.last().result {
            Ok(_) => Seq::empty(),
            Err(e) => seq![(outcomes.last().source@, e@)],
        }
    }
}

pub open spec fn incomplete_days(outcomes: Seq<SourceOutcome>) -> Seq<i32>
    decreases outcomes.len(),
{
    if outcomes.len() == 0 {
        Seq::empty()
    } else {
        incomplete_days(outcomes.drop_last()) + match outcomes.last().result {
            Ok(_) => outcomes.last().incomplete@,
            Err(_) => Seq::empty(),
        }
    }
}

pub open spec fn on_wanted_day(wanted: Seq<i32>) -> spec_fn(Row) -> bool {
    |r: Row| wanted.contains(r.0)
}

pub open spec fn error_views(errors: Seq<ExportSourceError>) -> Seq<(Seq<char>, Seq<char>)> {
    errors.map_values(|e: ExportSourceError| (e.source@, e.error@))
}


fn contains_day(v: &Vec<i32>, d: i32) -> (b: bool)
    ensures
        b == v@.contains(d),
{
    let mut i: usize = 0;
    while i < v.len()
        invariant
            i <= v.len(),
            forall|j: int| 0 <= j < i ==> v@[j] != d,
        decreases v.len() - i,
    {
        if v[i] == d {
            assert(v@[i as int] == d);
            return true;
        }
        i += 1;
    }
    false
}

/// Merge the sources' results over `wanted` days: rows on other days are
/// dropped, failures are listed per source, and incomplete days are pooled.
pub fn collect_outcomes(wanted: &Vec<i32>, outcomes: Vec<SourceOutcome>) -> (c: RangeCollection)
    ensures
        c.rows@ == ok_rows(outcomes@).filter(on_wanted_day(wanted@)),
        error_views(c.errors@) == error_pairs(outcomes@),
        c.incomplete@ == incomplete_days(outcomes@),
{
    broadcast use Seq::lemma_filter_push, Seq::lemma_push_map_commute;
    broadcast use Seq::filter_distributes_over_add;

    let ghost input = outcomes@;
    let ghost pred = on_wanted_day(wanted@);
    let mut rest = outcomes;
    let mut rows: Vec<Row> = Vec::new();
    let mut errors: Vec<ExportSourceError> = Vec::new();
    let mut incomplete: Vec<i32> = Vec::new();
    let n = rest.len();
    let mut i: usize = 0;
    while rest.len() > 0
        invariant
            n == input.len(),
            i + rest.len() == n,
            rest@ == input.subrange(i as int, n as int),
            pred == on_wanted_day(wanted@),
            rows@ == ok_rows(input.take(i as int)).filter(pred),
            error_views(errors@) == error_pairs(input.take(i as int)),
            incomplete@ == incomplete_days(input.take(i as int)),
        decreases rest.len(),
    {
        let o = rest.remove(0);
        proof {
            assert(o == input[i as int]);
            assert(input.take(i + 1).drop_last() =~= input.take(i as int));
            assert(input.take(i + 1).last() == o);
            assert(rest@ =~= input.subrange(i + 1, n as int));
        }
        let SourceOutcome { source, result, incomplete: partial } = o;
        match result {
            Ok(source_rows) => {
                let ghost base = rows@;
                let ghost sr = source_rows@;
                let mut srest = source_rows;
                let m = srest.len();
                let mut j: usize = 0;
                while srest.len() > 0
                    invariant
                        m == sr.len(),
                        j + srest.len() == m,
                        srest@ == sr.subrange(j as int, m as int),
                        pred == on_wanted_day(wanted@),
                        rows@ == base + sr.take(j as int).filter(pred),
                    decreases srest.len(),
                {
                    let r = srest.remove(0);
                    proof {
                        assert(r == sr[j as int]);
                        assert(sr.take(j + 1) =~= sr.take(j as int).push(r));
                        assert(srest@ =~= sr.subrange(j + 1, m as int));
                    }
                    assert(pred(r) == wanted@.contains(r.0));
                    proof {
                        sr.take(j as int).lemma_filter_push(r, pred);
                    }
                    let ghost before_push = rows@;
                    if contains_day(wanted, r.0) {
                        rows.push(r);
                        assert(rows@ =~= base + sr.take(j as int).filter(pred).push(r));
                    }
                    j += 1;
                }
                assert(sr.take(m as int) =~= sr);
                let mut k: usize = 0;
                let ghost before_inc = incomplete@;
                while k < partial.len()
                    invariant
                        k <= partial.len(),
                        incomplete@ == before_inc + partial@.take(k as int),
                    decreases partial.len() - k,
                {
                    incomplete.push(partial[k]);
                    k += 1;
                    assert(partial@.take(k as int) =~= partial@.take(k - 1).push(partial@[k - 1]));
                }
                assert(partial@.take(partial.len() as int) =~= partial@);
                assert(error_views(errors@) == error_pairs(input.take(i + 1)));
            },
            Err(e) => {
                let ghost before = errors@;
                errors.push(ExportSourceError { source, error: e });
                proof {
                    let f = |x: ExportSourceError| (x.source@, x.error@);
                    before.lemma_push_map_commute(f, errors@.last());
                    assert(errors@ =~= before.push(errors@.last()));
                }
            },
        }
        i += 1;
    }
    assert(input.take(n as int) =~= input);
    RangeCollection { rows, errors, incomplete }
}

/// `(timestamp, event)` of the rows on `day`, in row order.
pub open spec fn day_pick(day: i32) -> spec_fn(Row) -> Option<(i64, TimelineEvent)> {
    |r: Row| if r.0 == day { Some((r.1, r.2)) } else { None }
}

pub open spec fn pair_event() -> spec_fn((i64, TimelineEvent)) -> TimelineEvent {
    |p: (i64, TimelineEvent)| p.1
}

pub open spec fn day_pairs(rows: Seq<Row>, day: i32) -> Seq<(i64, TimelineEvent)> {
    rows.filter_map(day_pick(day))
}

/// The events of `day`, ascending by timestamp (ties keep row order).
pub open spec fn day_events(rows: Seq<Row>, day: i32) -> Seq<TimelineEvent> {
    sort_by_ts(day_pairs(rows, day)).map_values(pair_event())
}

/// The events of one day, sorted by timestamp.
pub fn events_on_day(rows: &Vec<Row>, day: i32) -> (evs: Vec<TimelineEvent>)
    ensures
        evs@ == day_events(rows@, day),
{
    let ghost f = day_pick(day);
    let mut pairs: Vec<(i64, TimelineEvent)> = Vec::new();
    let mut i: usize = 0;
    while i < rows.len()
        invariant
            i <= rows.len(),
            f == day_pick(day),
            pairs@ == rows@.take(i as int).filter_map(f),
        decreases rows.len() - i,
    {
        proof {
            rows@.lemma_filter_map_take_succ(f, i as int);
        }
        if rows[i].0 == day {
            pairs.push((rows[i].1, copy_event(&rows[i].2)));
        }
        i += 1;
    }
    assert(rows@.take(rows.len() as int) =~= rows@);
    assert(pairs@ == day_pairs(rows@, day));
    let sorted = sort_rows_by_ts(pairs);
    let mut evs: Vec<TimelineEvent> = Vec::new();
    let mut k: usize = 0;
    let ghost g = pair_event();
    while k < sorted.len()
        invariant
            k <= sorted.len(),
            g == pair_event(),
            evs@ == sorted@.take(k as int).map_values(g),
        decreases sorted.len() - k,
    {
        proof {
            sorted@.take(k as int).lemma_push_map_commute(g, sorted@[k as int]);
            assert(sorted@.take(k + 1) =~= sorted@.take(k as int).push(sorted@[k as int]));
        }
        evs.push(copy_event(&sorted[k].1));
        k += 1;
    }
    assert(sorted@.take(sorted.len() as int) =~= sorted@);
    assert(evs@ == sorted@.map_values(g));
    assert(evs@ =~= day_events(rows@, day));
    evs
}

/// A fetched day may be cached only when it has fully elapsed, no source
/// failed and no source reported it incomplete.
pub open spec fn may_cache(day: i32, today: i32, any_error: bool, incomplete: Seq<i32>) -> bool {
    day < today && !any_error && !incomplete.contains(day)
}

/// Whether `day`, fetched into `c`, may be written to the day cache.
pub fn cacheable(day: i32, today: i32, c: &RangeCollection) -> (b: bool)
    ensures
        b == may_cache(day, today, c.errors@.len() > 0, c.incomplete@),
{
    day < today && c.errors.len() == 0 && !contains_day(&c.incomplete, day)
}


/// `{year}-{month}` as written in the month errors.
pub open spec fn year_month_text(year: i32, month: u32) -> Seq<char> {
    signed_decimal(year as int) + "-"@ + decimal(month as nat)
}

/// The elapsed days of a calendar month: from its first day to its last
/// day or yesterday, whichever comes first; `None` when no day of the month
/// has elapsed yet.
pub open spec fn month_window_spec(year: i32, month: u32, today: i32) -> Result<
    Option<(i32, i32)>,
    Seq<char>,
> {
    match civil_day(year, month, 1) {
        None => Err("Invalid year/month: "@ + year_month_text(year, month)),
        Some(first) => {
            let next = if month == 12 {
                if year < i32::MAX {
                    civil_day((year + 1) as i32, 1, 1)
                } else {
                    None
                }
            } else {
                civil_day(year, (month + 1) as u32, 1)
            };
            match next {
                None => Err("Invalid month boundary: "@ + year_month_text(year, month)),
                Some(n) => if n == i32::MIN {
                    Err("No day before next-month boundary"@)
                } else if today == i32::MIN {
                    Ok(None)
                } else {
                    let last = if n - 1 < today - 1 {
                        n - 1
                    } else {
                        today - 1
                    };
                    if first > last {
                        Ok(None)
                    } else {
                        Ok(Some((first, last as i32)))
                    }
                },
            }
        },
    }
}

fn year_month(year: i32, month: u32) -> (r: String)
    ensures
        r@ == year_month_text(year, month),
{
    let mut t = signed_decimal_string(year as i64);
    t.append("-");
    let m = decimal_string(month as u64);
    t.append(m.as_str());
    t
}

/// The days of `year`-`month` whose counts the month view shows.
pub fn month_window(year: i32, month: u32, today: i32) -> (r: Result<Option<(i32, i32)>, String>)
    ensures
        match (r, month_window_spec(year, month, today)) {
            (Ok(x), Ok(y)) => x == y,
            (Err(x), Err(y)) => x@ == y,
            _ => false,
        },
{
    let first = match ymd_day(year, month, 1) {
        Some(d) => d,
        None => {
            let mut e = String::from_str("Invalid year/month: ");
            let t = year_month(year, month);
            e.append(t.as_str());
            return Err(e);
        },
    };
    let next = if month == 12 {
        if year < i32::MAX {
            ymd_day(year + 1, 1, 1)
        } else {
            None
        }
    } else {
        ymd_day(year, month + 1, 1)
    };
    let n = match next {
        Some(n) => n,
        None => {
            let mut e = String::from_str("Invalid month boundary: ");
            let t = year_month(year, month);
            e.append(t.as_str());
            return Err(e);
        },
    };
    if n == i32::MIN {
        return Err(String::from_str("No day before next-month boundary"));
    }
    if today == i32::MIN {
        return Ok(None);
    }
    let last = if n - 1 < today - 1 {
        n - 1
    } else {
        today - 1
    };
    if first > last {
        Ok(None)
    } else {
        Ok(Some((first, last)))
    }
}


pub open spec fn keyed_row(r: Row) -> (i64, (i32, TimelineEvent)) {
    (r.1, (r.0, r.2))
}

pub open spec fn unkeyed_row(p: (i64, (i32, TimelineEvent))) -> Row {
    (p.1.0, p.0, p.1.1)
}

/// Rows ordered by timestamp, ties keeping their order.
pub open spec fn key_fn() -> spec_fn(Row) -> (i64, (i32, TimelineEvent)) {
    |r: Row| keyed_row(r)
}

pub open spec fn unkey_fn() -> spec_fn((i64, (i32, TimelineEvent))) -> Row {
    |p: (i64, (i32, TimelineEvent))| unkeyed_row(p)
}

pub open spec fn rows_by_time(rows: Seq<Row>) -> Seq<Row> {
    sort_by_ts(rows.map_values(key_fn())).map_values(unkey_fn())
}

/// Orders rows by timestamp (a stable sort).
pub fn sort_rows_by_time(rows: Vec<Row>) -> (out: Vec<Row>)
    ensures
        out@ == rows_by_time(rows@),
{
    let ghost input = rows@;
    let ghost kf = key_fn();
    let mut rest = rows;
    let mut keyed: Vec<(i64, (i32, TimelineEvent))> = Vec::new();
    let n = rest.len();
    while rest.len() > 0
        invariant
            kf == key_fn(),
            keyed.len() + rest.len() == n == input.len(),
            rest@ == input.subrange(keyed.len() as int, n as int),
            keyed@ == input.take(keyed.len() as int).map_values(kf),
        decreases rest.len(),
    {
        let ghost k = keyed.len();
        let r = rest.remove(0);
        assert(r == input[k as int]);
        keyed.push((r.1, (r.0, r.2)));
        assert(keyed@ =~= input.take(k + 1).map_values(kf));
        assert(rest@ =~= input.subrange(k + 1, n as int));
    }
    assert(input.take(n as int) =~= input);
    let sorted = sort_rows_by_ts(keyed);
    let ghost uf = unkey_fn();
    let mut rest2 = sorted;
    let ghost sorted_view = rest2@;
    let mut out: Vec<Row> = Vec::new();
    let m = rest2.len();
    while rest2.len() > 0
        invariant
            uf == unkey_fn(),
            out.len() + rest2.len() == m == sorted_view.len(),
            rest2@ == sorted_view.subrange(out.len() as int, m as int),
            out@ == sorted_view.take(out.len() as int).map_values(uf),
        decreases rest2.len(),
    {
        let ghost k = out.len();
        let p = rest2.remove(0);
        assert(p == sorted_view[k as int]);
        out.push((p.1.0, p.0, p.1.1));
        assert(out@ =~= sorted_view.take(k + 1).map_values(uf));
        assert(rest2@ =~= sorted_view.subrange(k + 1, m as int));
    }
    assert(sorted_view.take(m as int) =~= sorted_view);
    out
}


/// Ordering rows by time makes them ascending by timestamp and keeps every
/// row exactly once: the same rows, each as often as before.
pub proof fn lemma_rows_by_time(rows: Seq<Row>)
    ensures
        rows_by_time(rows).to_multiset() == rows.to_multiset(),
        rows_by_time(rows).len() == rows.len(),
        forall|i: int, j: int|
            0 <= i <= j < rows.len() ==> (#[trigger] rows_by_time(rows)[i]).1 <= (#[trigger] rows_by_time(rows)[j]).1,
        forall|i: int|
            0 <= i < rows.len() ==> exists|j: int|
                0 <= j < rows.len() && #[trigger] rows_by_time(rows)[i] == rows[j],
{
    let keyed = rows.map_values(key_fn());
    crate::sorting::lemma_sort_by_ts_ascending(keyed);
    crate::sorting::lemma_sort_by_ts_perm(keyed);
    let s = crate::sorting::sort_by_ts(keyed);
    assert forall|i: int| 0 <= i < rows.len() implies exists|j: int|
        0 <= j < rows.len() && #[trigger] rows_by_time(rows)[i] == rows[j] by {
        vstd::seq_lib::to_multiset_contains(s, s[i]);
        vstd::seq_lib::to_multiset_contains(keyed, s[i]);
        assert(s.contains(s[i]));
        assert(keyed.to_multiset().count(s[i]) > 0);
        let j = choose|j: int| 0 <= j < keyed.len() && keyed[j] == s[i];
        assert(rows_by_time(rows)[i] == unkeyed_row(s[i]));
        assert(keyed[j] == keyed_row(rows[j]));
    }
    crate::sorting::lemma_map_keeps_multiset(s, keyed, unkey_fn());
    assert(keyed.map_values(unkey_fn()) =~= rows);
}

/// One day of an export: the local day as `YYYY-MM-DD` and its events,
/// ascending by time.
pub struct ExportDay {
    pub date: String,
    pub events: Vec<TimelineEvent>,
}

/// An export: every day of the range, and the sources that failed (empty on
/// a complete export).
pub struct ExportResult {
    pub days: Vec<ExportDay>,
    pub errors: Vec<ExportSourceError>,
}

fn copy_errors(v: &Vec<ExportSourceError>) -> (r: Vec<ExportSourceError>)
    ensures
        error_views(r@) == error_views(v@),
{
    let mut r: Vec<ExportSourceError> = Vec::new();
    let mut i: usize = 0;
    while i < v.len()
        invariant
            i <= v.len(),
            r.len() == i,
            forall|k: int| 0 <= k < i ==> (#[trigger] r@[k]).source@ == v@[k].source@ && r@[k].error@ == v@[k].error@,
        decreases v.len() - i,
    {
        r.push(ExportSourceError { source: v[i].source.clone(), error: v[i].error.clone() });
        i += 1;
    }
    assert(error_views(r@) =~= error_views(v@));
    r
}

/// The events an export shows for the `k`-th day: the cached ones when the
/// day was read from the cache, else those fetched for it.
pub open spec fn export_events(day: i32, cached: Option<Vec<TimelineEvent>>, rows: Seq<Row>) -> Seq<TimelineEvent> {
    match cached {
        Some(v) => v@,
        None => day_events(rows, day),
    }
}

/// Every day of `range_days` in order, with the events read from the cache
/// (`cached[k]`) or fetched into `c`, and the sources that failed. `None`
/// when some day has no `YYYY-MM-DD` rendering.
pub fn assemble_export(range_days: &Vec<i32>, cached: Vec<Option<Vec<TimelineEvent>>>, c: &RangeCollection) -> (r: Option<ExportResult>)
    requires
        cached.len() == range_days.len(),
    ensures
        r is None <==> exists|k: int| 0 <= k < range_days.len() && formatted_day(#[trigger] range_days@[k], iso_format()) is None,
        r matches Some(x) ==> {
            &&& x.days.len() == range_days.len()
            &&& forall|k: int| 0 <= k < x.days.len() ==> {
                &&& formatted_day(range_days@[k], iso_format()) == Some((#[trigger] x.days@[k]).date@)
                &&& x.days@[k].events@ == export_events(range_days@[k], cached@[k], c.rows@)
            }
            &&& error_views(x.errors@) == error_views(c.errors@)
        },
{
    let ghost all = cached@;
    let mut rest = cached;
    let mut days: Vec<ExportDay> = Vec::new();
    let n = range_days.len();
    while days.len() < n
        invariant
            n == range_days.len() == all.len(),
            days.len() + rest.len() == n,
            rest@ == all.subrange(days.len() as int, n as int),
            forall|k: int| 0 <= k < days.len() ==> formatted_day(range_days@[k], iso_format()) is Some,
            forall|k: int| 0 <= k < days.len() ==> {
                &&& formatted_day(range_days@[k], iso_format()) == Some((#[trigger] days@[k]).date@)
                &&& days@[k].events@ == export_events(range_days@[k], all[k], c.rows@)
            },
        decreases n - days.len(),
    {
        let k = days.len();
        let d = range_days[k];
        let entry = rest.remove(0);
        assert(entry == all[k as int]);
        assert(rest@ =~= all.subrange(k + 1, n as int));
        let date = match format_day(d, iso_format_str()) {
            Some(t) => t,
            None => return None,
        };
        let events = match entry {
            Some(v) => v,
            None => events_on_day(&c.rows, d),
        };
        let ghost old_days = days@;
        days.push(ExportDay { date, events });
        assert forall|j: int| 0 <= j < days.len() implies {
            &&& formatted_day(range_days@[j], iso_format()) == Some((#[trigger] days@[j]).date@)
            &&& days@[j].events@ == export_events(range_days@[j], all[j], c.rows@)
        } by {
            if j < old_days.len() {
                assert(days@[j] == old_days[j]);
            }
        }
    }
    let errors = copy_errors(&c.errors);
    Some(ExportResult { days, errors })
}

} // verus!
