//! Calendar feeds: reading iCal events (with recurrence rules, exception
//! dates and overrides) into stored occurrences, and laying stored
//! occurrences out on the days they cover.
use vstd::prelude::*;

use chrono::{Datelike, TimeZone, Timelike};

use crate::clock::{local_clock, LocalClock};
use crate::git::string_texts;
use crate::range::Row;
use crate::text::{decimal, decimal_string};
use crate::timeline::{sanitize_event_url, sanitized_url, text_of, TimelineEvent, TimelineEventSource};

verus! {

// ---------------------------------------------------------------------------
// Stored occurrences on the timeline
// ---------------------------------------------------------------------------

/// One stored occurrence, as the timeline reads it.
#[derive(Debug, Clone)]
pub struct CalendarRow {
    pub uid: String,
    pub dtstart: i64,
    pub dtend: Option<i64>,
    pub summary: String,
    pub event_url: Option<String>,
}

/// The end minus the start fits in an `i64`.
pub open spec fn span_fits(start: i64, end: Option<i64>) -> bool {
    match end {
        Some(e) => i64::MIN <= e - start <= i64::MAX,
        None => true,
    }
}

/// `1h 30m`, `45m` or `2h`; `None` without an end or for a span under a
/// minute (or negative).
pub open spec fn duration_text(start: i64, end: Option<i64>) -> Option<Seq<char>> {
    match end {
        None => None,
        Some(e) => {
            let mins = (e - start) / 60;
            if mins <= 0 {
                None
            } else {
                let h = mins / 60;
                let m = mins % 60;
                Some(
                    if h == 0 {
                        decimal(m as nat) + "m"@
                    } else if m == 0 {
                        decimal(h as nat) + "h"@
                    } else {
                        decimal(h as nat) + "h "@ + decimal(m as nat) + "m"@
                    },
                )
            }
        },
    }
}

pub fn duration_detail(start: i64, end: Option<i64>) -> (r: Option<String>)
    requires
        span_fits(start, end),
    ensures
        text_of(r) == duration_text(start, end),
{
    let e = match end {
        Some(e) => e,
        None => return None,
    };
    let diff: i64 = e - start;
    if diff < 60 {
        return None;
    }
    let mins: i64 = diff / 60;
    let h: i64 = mins / 60;
    let m: i64 = mins % 60;
    if h == 0 {
        let mut s = decimal_string(m as u64);
        s.append("m");
        Some(s)
    } else if m == 0 {
        let mut s = decimal_string(h as u64);
        s.append("h");
        Some(s)
    } else {
        let mut s = decimal_string(h as u64);
        s.append("h ");
        let ms = decimal_string(m as u64);
        s.append(ms.as_str());
        s.append("m");
        Some(s)
    }
}

/// The last local day an occurrence covers: the day it ends, except that an
/// end exactly at midnight does not reach into that day.
pub open spec fn cover_end_day(start: LocalClock, end: LocalClock, has_end: bool) -> i32 {
    if has_end && end.seconds == 0 && end.day > start.day {
        (end.day - 1) as i32
    } else {
        end.day
    }
}

pub open spec fn max_day(a: i32, b: i32) -> i32 {
    if a >= b {
        a
    } else {
        b
    }
}

pub open spec fn min_day(a: i32, b: i32) -> i32 {
    if a <= b {
        a
    } else {
        b
    }
}

/// Whether `row` shows occurrence `r` on day `d`: at its local start time
/// on its first day, at `00:00` on the days it runs into, always sorted by
/// its real start.
pub open spec fn calendar_row_of(row: Row, r: CalendarRow, d: i32, start: LocalClock) -> bool {
    &&& row.0 == d
    &&& row.1 == r.dtstart
    &&& row.2.id@ == "calendar:"@ + r.uid@
    &&& row.2.time@ == (if d == start.day {
        start.hhmm@
    } else {
        "00:00"@
    })
    &&& row.2.timestamp == r.dtstart
    &&& row.2.source == TimelineEventSource::Calendar
    &&& row.2.title@ == r.summary@
    &&& text_of(row.2.detail) == duration_text(r.dtstart, r.dtend)
    &&& text_of(row.2.url) == match r.event_url {
        Some(u) => sanitized_url(u@),
        None => None,
    }
}

/// How many rows occurrence `r` gets when its start and end read `rd` on the
/// local clock: one per covered day inside `range_start..=range_end`.
pub open spec fn row_count(r: CalendarRow, rd: (LocalClock, LocalClock), range_start: i32, range_end: i32) -> int {
    let first = max_day(rd.0.day, range_start);
    let last = min_day(cover_end_day(rd.0, rd.1, r.dtend is Some), range_end);
    if first > last {
        0
    } else {
        last - first + 1
    }
}

/// Whether `rows` are the rows of occurrence `r` read as `rd`: one per covered
/// day inside `range_start..=range_end`, in day order.
pub open spec fn event_rows_of(rows: Seq<Row>, r: CalendarRow, rd: (LocalClock, LocalClock), range_start: i32, range_end: i32) -> bool {
    &&& rows.len() == row_count(r, rd, range_start, range_end)
    &&& forall|k: int|
        0 <= k < rows.len() ==> calendar_row_of(#[trigger] rows[k], r, (max_day(rd.0.day, range_start) + k) as i32, rd.0)
}

/// The rows of one occurrence whose start and end read `start` and `end` on
/// the local clock: one per covered day inside `range_start..=range_end`.
pub fn calendar_event_rows(r: &CalendarRow, start: &LocalClock, end: &LocalClock, range_start: i32, range_end: i32) -> (rows: Vec<Row>)
    requires
        span_fits(r.dtstart, r.dtend),
    ensures
        event_rows_of(rows@, *r, (*start, *end), range_start, range_end),
{
    let detail = duration_detail(r.dtstart, r.dtend);
    let cover_end = if r.dtend.is_some() && end.seconds == 0 && end.day > start.day {
        end.day - 1
    } else {
        end.day
    };
    let first = if start.day >= range_start {
        start.day
    } else {
        range_start
    };
    let last = if cover_end <= range_end {
        cover_end
    } else {
        range_end
    };
    let mut rows: Vec<Row> = Vec::new();
    if first > last {
        return rows;
    }
    let url = match &r.event_url {
        Some(u) => sanitize_event_url(u.as_str()),
        None => None,
    };
    let mut d = first;
    loop
        invariant_except_break
            first <= d <= last,
            rows.len() == d - first,
            forall|k: int| 0 <= k < rows.len() ==> calendar_row_of(#[trigger] rows@[k], *r, (first + k) as i32, *start),
            text_of(detail) == duration_text(r.dtstart, r.dtend),
            text_of(url) == match r.event_url {
                Some(u) => sanitized_url(u@),
                None => None,
            },
        ensures
            rows.len() == last - first + 1,
            forall|k: int| 0 <= k < rows.len() ==> calendar_row_of(#[trigger] rows@[k], *r, (first + k) as i32, *start),
        decreases last - d,
    {
        let time = if d == start.day {
            start.hhmm.clone()
        } else {
            String::from_str("00:00")
        };
        let mut id = String::from_str("calendar:");
        id.append(r.uid.as_str());
        let ghost old_rows = rows@;
        rows.push(
            (
                d,
                r.dtstart,
                TimelineEvent {
                    id,
                    time,
                    timestamp: r.dtstart,
                    source: TimelineEventSource::Calendar,
                    title: r.summary.clone(),
                    detail: match &detail {
                        Some(x) => Some(x.clone()),
                        None => None,
                    },
                    url: match &url {
                        Some(x) => Some(x.clone()),
                        None => None,
                    },
                },
            ),
        );
        assert forall|k: int| 0 <= k < rows.len() implies calendar_row_of(#[trigger] rows@[k], *r, (first + k) as i32, *start) by {
            if k < old_rows.len() {
                assert(rows@[k] == old_rows[k]);
            }
        }
        if d == last {
            break;
        }
        d = d + 1;
    }
    rows
}

/// `chrono::Local::now()`: today's local day number and seconds since local
/// midnight. Depends on the clock, so nothing is promised of it beyond
/// chrono's bound on seconds since midnight.
#[verifier::external_body]
fn now_reading() -> (r: (i32, u32))
    ensures
        r.1 < 86400,
{
    let l = chrono::Local::now();
    (l.date_naive().num_days_from_ce(), l.num_seconds_from_midnight())
}

/// The local clock now (day, `HH:MM`, seconds since midnight).
fn local_now_clock() -> (r: LocalClock)
    ensures
        r.seconds < 86400,
        r.hhmm@ == crate::clock::hhmm_text(r.seconds as nat),
{
    let (day, seconds) = now_reading();
    let hhmm = crate::clock::hhmm_of(seconds);
    LocalClock { day, hhmm, seconds }
}

/// Where the rows of occurrence `i` begin when the occurrences before it are
/// laid out one after another, occurrence `j` read as `rds[j]`.
pub open spec fn row_offset(occs: Seq<CalendarRow>, rds: Seq<(LocalClock, LocalClock)>, start_day: i32, end_day: i32, i: int) -> int
    decreases i,
{
    if i <= 0 {
        0
    } else {
        row_offset(occs, rds, start_day, end_day, i - 1) + row_count(occs[i - 1], rds[i - 1], start_day, end_day)
    }
}

/// The stretch of `all` that holds the rows of occurrence `i`.
pub open spec fn row_block(all: Seq<Row>, occs: Seq<CalendarRow>, rds: Seq<(LocalClock, LocalClock)>, start_day: i32, end_day: i32, i: int) -> Seq<Row> {
    all.subrange(row_offset(occs, rds, start_day, end_day, i), row_offset(occs, rds, start_day, end_day, i + 1))
}

/// The instant an occurrence's end is read at: its end, or its start when it
/// has none or ends before it starts.
pub open spec fn occurrence_end(r: CalendarRow) -> i64 {
    match r.dtend {
        Some(e) => if e >= r.dtstart {
            e
        } else {
            r.dtstart
        },
        None => r.dtstart,
    }
}

/// Whether `rd` reads occurrence `r` on the local clock: its start (and its
/// end) as the local clock shows them, wherever they lie a day inside
/// chrono's range.
pub open spec fn reads_occurrence(rd: (LocalClock, LocalClock), r: CalendarRow) -> bool {
    &&& crate::clock::placeable(r.dtstart) ==> crate::clock::reads(rd.0, r.dtstart)
    &&& crate::clock::placeable(occurrence_end(r)) ==> crate::clock::reads(rd.1, occurrence_end(r))
}

/// Whether `all` holds the rows of the first `n` occurrences, one occurrence
/// after another, occurrence `i` read on the local clock as `rds[i]`.
pub open spec fn laid_out(all: Seq<Row>, occs: Seq<CalendarRow>, rds: Seq<(LocalClock, LocalClock)>, start_day: i32, end_day: i32, n: int) -> bool {
    &&& n <= occs.len()
    &&& rds.len() == n
    &&& all.len() == row_offset(occs, rds, start_day, end_day, n)
    &&& forall|i: int| 0 <= i < n ==> reads_occurrence(#[trigger] rds[i], occs[i])
    &&& forall|i: int|
        0 <= i < n ==> event_rows_of(#[trigger] row_block(all, occs, rds, start_day, end_day, i), occs[i], rds[i], start_day, end_day)
}

proof fn lemma_row_offset_grows(occs: Seq<CalendarRow>, rds: Seq<(LocalClock, LocalClock)>, start_day: i32, end_day: i32, j: int, i: int)
    requires
        0 <= j <= i,
    ensures
        row_offset(occs, rds, start_day, end_day, j) <= row_offset(occs, rds, start_day, end_day, i),
    decreases i,
{
    if j < i {
        lemma_row_offset_grows(occs, rds, start_day, end_day, j, i - 1);
    }
}

/// Whether `row` shows one of `occs` on a day of `start_day..=end_day` (as
/// `calendar_row_of` lays it out, for some reading of its start on the local
/// clock).
pub open spec fn shows_occurrence(row: Row, occs: Seq<CalendarRow>, start_day: i32, end_day: i32) -> bool {
    exists|i: int, c: LocalClock|
        #![trigger occs[i], calendar_row_of(row, occs[i], row.0, c)]
        0 <= i < occs.len() && start_day <= row.0 <= end_day && calendar_row_of(row, occs[i], row.0, c)
}

/// The rows for stored occurrences over local days `start_day..=end_day`:
/// each occurrence laid out by `calendar_event_rows` on the days it covers,
/// then all of them ordered by start (a stable sort). Local days and times
/// come from the machine's time zone, so the readings of the occurrences on
/// the local clock are only said to exist.
pub fn calendar_rows(occurrences: &Vec<CalendarRow>, start_day: i32, end_day: i32) -> (rows: Vec<Row>)
    requires
        forall|i: int| 0 <= i < occurrences.len() ==> span_fits(#[trigger] occurrences@[i].dtstart, occurrences@[i].dtend),
    ensures
        exists|all: Seq<Row>, rds: Seq<(LocalClock, LocalClock)>|
            #[trigger] laid_out(all, occurrences@, rds, start_day, end_day, occurrences.len() as int)
                && rows@ == crate::range::rows_by_time(all),
        forall|i: int, j: int| 0 <= i <= j < rows.len() ==> (#[trigger] rows@[i]).1 <= (#[trigger] rows@[j]).1,
        forall|i: int| 0 <= i < rows.len() ==> shows_occurrence(#[trigger] rows@[i], occurrences@, start_day, end_day),
{
    let mut all: Vec<Row> = Vec::new();
    let ghost mut rds: Seq<(LocalClock, LocalClock)> = Seq::empty();
    let mut i: usize = 0;
    while i < occurrences.len()
        invariant
            i <= occurrences.len(),
            forall|i: int| 0 <= i < occurrences.len() ==> span_fits(#[trigger] occurrences@[i].dtstart, occurrences@[i].dtend),
            laid_out(all@, occurrences@, rds, start_day, end_day, i as int),
        decreases occurrences.len() - i,
    {
        let r = &occurrences[i];
        assert(span_fits(occurrences@[i as int].dtstart, occurrences@[i as int].dtend));
        let start = match local_clock(r.dtstart) {
            Some(c) => c,
            None => local_now_clock(),
        };
        let end_ts = match r.dtend {
            Some(e) => if e >= r.dtstart {
                e
            } else {
                r.dtstart
            },
            None => r.dtstart,
        };
        let end = match local_clock(end_ts) {
            Some(c) => c,
            None => start.clone(),
        };
        let mut more = calendar_event_rows(r, &start, &end, start_day, end_day);
        let ghost old_all = all@;
        let ghost old_rds = rds;
        let ghost block = more@;
        all.append(&mut more);
        proof {
            rds = rds.push((start, end));
            let occs = occurrences@;
            assert(row_offset(occs, rds, start_day, end_day, i as int) == row_offset(occs, old_rds, start_day, end_day, i as int)) by {
                assert forall|j: int| 0 <= j <= i implies row_offset(occs, rds, start_day, end_day, j) == row_offset(occs, old_rds, start_day, end_day, j) by {
                    lemma_row_offset_same_prefix(occs, rds, old_rds, start_day, end_day, j);
                }
            }
            assert forall|j: int| 0 <= j < i + 1 implies event_rows_of(#[trigger] row_block(all@, occs, rds, start_day, end_day, j), occs[j], rds[j], start_day, end_day) by {
                if j < i {
                    lemma_row_offset_same_prefix(occs, rds, old_rds, start_day, end_day, j);
                    lemma_row_offset_same_prefix(occs, rds, old_rds, start_day, end_day, j + 1);
                    lemma_row_offset_grows(occs, old_rds, start_day, end_day, j + 1, i as int);
                    lemma_row_offset_grows(occs, old_rds, start_day, end_day, 0, j);
                    lemma_row_offset_grows(occs, old_rds, start_day, end_day, j, j + 1);
                    assert(row_block(all@, occs, rds, start_day, end_day, j) =~= row_block(old_all, occs, old_rds, start_day, end_day, j));
                    assert(rds[j] == old_rds[j]);
                } else {
                    lemma_row_offset_same_prefix(occs, rds, old_rds, start_day, end_day, j);
                    assert(row_block(all@, occs, rds, start_day, end_day, j) =~= block);
                }
            }
        }
        i += 1;
    }
    let ghost unsorted = all@;
    let sorted = crate::range::sort_rows_by_time(all);
    proof {
        let occs = occurrences@;
        let n = occurrences.len() as int;
        assert(laid_out(unsorted, occs, rds, start_day, end_day, n));
        crate::range::lemma_rows_by_time(unsorted);
        assert forall|k: int| 0 <= k < sorted.len() implies shows_occurrence(#[trigger] sorted@[k], occs, start_day, end_day) by {
            let p = choose|p: int| 0 <= p < unsorted.len() && crate::range::rows_by_time(unsorted)[k] == unsorted[p];
            let (j, q) = lemma_row_in_block(unsorted, occs, rds, start_day, end_day, n, p);
            let b = row_block(unsorted, occs, rds, start_day, end_day, j);
            assert(b[q] == unsorted[p]);
            assert(calendar_row_of(b[q], occs[j], (max_day(rds[j].0.day, start_day) + q) as i32, rds[j].0));
        }
    }
    sorted
}

/// The offsets of the first `j` occurrences depend on their readings alone.
proof fn lemma_row_offset_same_prefix(
    occs: Seq<CalendarRow>,
    rds: Seq<(LocalClock, LocalClock)>,
    other: Seq<(LocalClock, LocalClock)>,
    start_day: i32,
    end_day: i32,
    j: int,
)
    requires
        0 <= j <= other.len() <= rds.len(),
        forall|k: int| 0 <= k < other.len() ==> rds[k] == other[k],
    ensures
        row_offset(occs, rds, start_day, end_day, j) == row_offset(occs, other, start_day, end_day, j),
    decreases j,
{
    if j > 0 {
        lemma_row_offset_same_prefix(occs, rds, other, start_day, end_day, j - 1);
    }
}

/// Every position of a laid-out sequence lies in the block of some occurrence.
proof fn lemma_row_in_block(
    all: Seq<Row>,
    occs: Seq<CalendarRow>,
    rds: Seq<(LocalClock, LocalClock)>,
    start_day: i32,
    end_day: i32,
    n: int,
    p: int,
) -> (jq: (int, int))
    requires
        0 <= n,
        laid_out(all, occs, rds, start_day, end_day, n),
        0 <= p < all.len(),
    ensures
        0 <= jq.0 < n,
        0 <= jq.1 < row_block(all, occs, rds, start_day, end_day, jq.0).len(),
        row_block(all, occs, rds, start_day, end_day, jq.0)[jq.1] == all[p],
        start_day <= (max_day(rds[jq.0].0.day, start_day) + jq.1) <= end_day,
    decreases n,
{
    let lo = row_offset(occs, rds, start_day, end_day, n - 1);
    lemma_row_offset_grows(occs, rds, start_day, end_day, 0, n - 1);
    let b = row_block(all, occs, rds, start_day, end_day, n - 1);
    assert(event_rows_of(b, occs[n - 1], rds[n - 1], start_day, end_day));
    if p >= lo {
        let q = p - lo;
        assert(b[q] == all[p]);
        (n - 1, q)
    } else {
        let prefix = all.subrange(0, lo);
        let r = rds.subrange(0, n - 1);
        assert forall|j: int| 0 <= j <= n - 1 implies row_offset(occs, r, start_day, end_day, j) == row_offset(occs, rds, start_day, end_day, j) by {
            lemma_row_offset_same_prefix(occs, rds, r, start_day, end_day, j);
        }
        assert forall|i: int| 0 <= i < n - 1 implies event_rows_of(#[trigger] row_block(prefix, occs, r, start_day, end_day, i), occs[i], r[i], start_day, end_day) by {
            lemma_row_offset_grows(occs, rds, start_day, end_day, i + 1, n - 1);
            lemma_row_offset_grows(occs, rds, start_day, end_day, 0, i);
            lemma_row_offset_grows(occs, rds, start_day, end_day, i, i + 1);
            assert(row_block(prefix, occs, r, start_day, end_day, i) =~= row_block(all, occs, rds, start_day, end_day, i));
        }
        let (j, q) = lemma_row_in_block(prefix, occs, r, start_day, end_day, n - 1, p);
        lemma_row_offset_grows(occs, rds, start_day, end_day, j + 1, n - 1);
        lemma_row_offset_grows(occs, rds, start_day, end_day, 0, j);
        lemma_row_offset_grows(occs, rds, start_day, end_day, j, j + 1);
        assert(row_block(prefix, occs, r, start_day, end_day, j) =~= row_block(all, occs, rds, start_day, end_day, j));
        (j, q)
    }
}

// ---------------------------------------------------------------------------
// Date-times in feeds
// ---------------------------------------------------------------------------

/// Every instant chrono represents lies strictly within this many seconds of
/// the epoch (its years stay within ±262143).
pub const CHRONO_SECS_BOUND: i64 = 8796093022208;

pub open spec fn in_chrono_range(t: i64) -> bool {
    -CHRONO_SECS_BOUND < t < CHRONO_SECS_BOUND
}

/// What chrono's `NaiveDateTime::parse_from_str(s, "%Y%m%dT%H%M%S")` reads,
/// as seconds on a UTC clock.
pub uninterp spec fn naive_utc_seconds(s: Seq<char>, fmt: Seq<char>) -> Option<i64>;

/// `%Y%m%dT%H%M%S`, an iCal `DATE-TIME` without its zone.
pub open spec fn ics_datetime_format() -> Seq<char> {
    seq!['%', 'Y', '%', 'm', '%', 'd', 'T', '%', 'H', '%', 'M', '%', 'S']
}

/// The unix second of an iCal `DATE-TIME` body read as UTC.
pub open spec fn ics_naive(s: Seq<char>) -> Option<i64> {
    naive_utc_seconds(s, ics_datetime_format())
}

/// `NaiveDateTime::parse_from_str(s, fmt)` read as UTC. The contract names
/// the result and states chrono's range.
#[verifier::external_body]
fn naive_seconds(s: &str, fmt: &str) -> (r: Option<i64>)
    ensures
        r == naive_utc_seconds(s@, fmt@),
        r matches Some(t) ==> in_chrono_range(t),
{
    chrono::NaiveDateTime::parse_from_str(s, fmt).ok().map(|n| n.and_utc().timestamp())
}

/// `chrono::Local::from_local_datetime(..).earliest()` for the wall time
/// `naive` (seconds on a UTC clock): the instant it names on this machine.
/// The offset depends on the time zone; chrono's source shows that the
/// instant is the wall time less an offset under a day, inside its range.
#[verifier::external_body]
fn local_from_naive(naive: i64) -> (r: Option<i64>)
    ensures
        r matches Some(t) ==> in_chrono_range(t),
        r matches Some(t) ==> naive - 86400 < t < naive + 86400,
{
    chrono::DateTime::from_timestamp(naive, 0)
        .map(|d| d.naive_utc())
        .and_then(|n| chrono::Local.from_local_datetime(&n).earliest())
        .map(|l| l.timestamp())
}

/// An iCal `DATE-TIME`: `YYYYMMDDTHHMMSS` with a trailing `Z` is UTC;
/// without it, local wall time.
pub fn parse_ics_datetime(value: &str) -> (r: Option<i64>)
    ensures
        value@.len() > 0 && value@.last() == 'Z' ==> r == ics_naive(value@.drop_last()),
        !(value@.len() > 0 && value@.last() == 'Z') && ics_naive(value@) is None ==> r is None,
        !(value@.len() > 0 && value@.last() == 'Z') ==> (r matches Some(t) ==> (ics_naive(value@) matches Some(n)
            && n - 86400 < t < n + 86400)),
        r matches Some(t) ==> in_chrono_range(t),
{
    let fmt = "%Y%m%dT%H%M%S";
    proof {
        reveal_strlit("%Y%m%dT%H%M%S");
        assert(fmt@ =~= ics_datetime_format());
    }
    let n = value.unicode_len();
    if n > 0 && value.get_char(n - 1) == 'Z' {
        let without_z = value.substring_char(0, n - 1);
        assert(without_z@ =~= value@.drop_last());
        naive_seconds(without_z, fmt)
    } else {
        match naive_seconds(value, fmt) {
            Some(naive) => local_from_naive(naive),
            None => None,
        }
    }
}

// ---------------------------------------------------------------------------
// Feeds
// ---------------------------------------------------------------------------

/// A content line of a `VEVENT`.
#[derive(Debug, Clone)]
pub struct IcsProperty {
    pub name: String,
    pub params: Option<Vec<(String, Vec<String>)>>,
    pub value: Option<String>,
}

/// A `VEVENT` as its content lines.
#[derive(Debug, Clone)]
pub struct IcsEvent {
    pub properties: Vec<IcsProperty>,
}

pub type ParamView = (Seq<char>, Seq<Seq<char>>);

pub type PropView = (Seq<char>, Option<Seq<ParamView>>, Option<Seq<char>>);

pub open spec fn param_view(p: (String, Vec<String>)) -> ParamView {
    (p.0@, string_texts(p.1@))
}

pub open spec fn prop_view(p: IcsProperty) -> PropView {
    (
        p.name@,
        match p.params {
            Some(ps) => Some(ps@.map_values(|q: (String, Vec<String>)| param_view(q))),
            None => None,
        },
        text_of(p.value),
    )
}

pub open spec fn event_views(v: Seq<IcsEvent>) -> Seq<Seq<PropView>> {
    v.map_values(|e: IcsEvent| e.properties@.map_values(|p: IcsProperty| prop_view(p)))
}

/// The events the `ical` crate reads from a feed, as content lines.
pub uninterp spec fn ics_parse(body: Seq<char>) -> Seq<Seq<PropView>>;

/// `ical::IcalParser` over `body`: the `VEVENT`s of every calendar that
/// parses (calendars it fails on are skipped), as their content lines. The
/// contract names the result.
#[verifier::external_body]
pub(crate) fn ics_events(body: &str) -> (r: Vec<IcsEvent>)
    ensures
        event_views(r@) == ics_parse(body@),
{
    ical::IcalParser::new(std::io::BufReader::new(body.as_bytes()))
        .flatten()
        .flat_map(|cal| cal.events)
        .map(|e| IcsEvent {
            properties: e.properties.into_iter().map(|p| IcsProperty { name: p.name, params: p.params, value: p.value }).collect(),
        })
        .collect()
}

/// The first content line called `name`.
pub open spec fn first_named(props: Seq<IcsProperty>, name: Seq<char>) -> Option<IcsProperty>
    decreases props.len(),
{
    if props.len() == 0 {
        None
    } else if props[0].name@ == name {
        Some(props[0])
    } else {
        first_named(props.skip(1), name)
    }
}

/// The value of the first content line called `name`.
pub open spec fn prop_value(props: Seq<IcsProperty>, name: Seq<char>) -> Option<Seq<char>> {
    match first_named(props, name) {
        Some(p) => text_of(p.value),
        None => None,
    }
}

/// The values of the first parameter called `key`.
pub open spec fn first_param(ps: Seq<(String, Vec<String>)>, key: Seq<char>) -> Option<Seq<Seq<char>>>
    decreases ps.len(),
{
    if ps.len() == 0 {
        None
    } else if ps[0].0@ == key {
        Some(string_texts(ps[0].1@))
    } else {
        first_param(ps.skip(1), key)
    }
}

pub open spec fn param_values(p: IcsProperty, key: Seq<char>) -> Option<Seq<Seq<char>>> {
    match p.params {
        Some(ps) => first_param(ps@, key),
        None => None,
    }
}

fn find_prop(props: &Vec<IcsProperty>, name: &str) -> (r: Option<usize>)
    ensures
        match r {
            Some(i) => i < props.len() && first_named(props@, name@) == Some(props@[i as int]),
            None => first_named(props@, name@) is None,
        },
{
    let mut i: usize = 0;
    assert(props@.skip(0) =~= props@);
    while i < props.len()
        invariant
            i <= props.len(),
            first_named(props@, name@) == first_named(props@.skip(i as int), name@),
        decreases props.len() - i,
    {
        assert(props@.skip(i as int)[0] == props@[i as int]);
        if crate::text::same_text(props[i].name.as_str(), name) {
            return Some(i);
        }
        assert(props@.skip(i as int).skip(1) =~= props@.skip(i + 1));
        i += 1;
    }
    None
}

fn get_value(props: &Vec<IcsProperty>, name: &str) -> (r: Option<String>)
    ensures
        text_of(r) == prop_value(props@, name@),
{
    match find_prop(props, name) {
        Some(i) => match &props[i].value {
            Some(v) => Some(v.clone()),
            None => None,
        },
        None => None,
    }
}

fn find_param(p: &IcsProperty, key: &str) -> (r: Option<Vec<String>>)
    ensures
        match r {
            Some(v) => param_values(*p, key@) == Some(string_texts(v@)),
            None => param_values(*p, key@) is None,
        },
{
    match &p.params {
        Some(ps) => {
            let mut i: usize = 0;
            assert(ps@.skip(0) =~= ps@);
            while i < ps.len()
                invariant
                    i <= ps.len(),
                    p.params == Some(*ps),
                    first_param(ps@, key@) == first_param(ps@.skip(i as int), key@),
                decreases ps.len() - i,
            {
                assert(ps@.skip(i as int)[0] == ps@[i as int]);
                if crate::text::same_text(ps[i].0.as_str(), key) {
                    let mut out: Vec<String> = Vec::new();
                    let src = &ps[i].1;
                    let mut k: usize = 0;
                    while k < src.len()
                        invariant
                            k <= src.len(),
                            out.len() == k,
                            forall|j: int| 0 <= j < k ==> (#[trigger] out@[j])@ == src@[j]@,
                        decreases src.len() - k,
                    {
                        out.push(src[k].clone());
                        k += 1;
                    }
                    assert(string_texts(out@) =~= string_texts(src@));
                    assert(ps@.skip(i as int)[0].0@ == key@);
                    assert(first_param(ps@.skip(i as int), key@) == Some(string_texts(ps@[i as int].1@)));
                    assert(param_values(*p, key@) == first_param(ps@, key@));
                    return Some(out);
                }
                assert(ps@.skip(i as int).skip(1) =~= ps@.skip(i + 1));
                i += 1;
            }
            None
        },
        None => None,
    }
}

fn any_text(v: &Vec<String>, t: &str) -> (b: bool)
    ensures
        b == string_texts(v@).contains(t@),
{
    let mut i: usize = 0;
    while i < v.len()
        invariant
            i <= v.len(),
            forall|j: int| 0 <= j < i ==> v@[j]@ != t@,
        decreases v.len() - i,
    {
        if crate::text::same_text(v[i].as_str(), t) {
            assert(string_texts(v@)[i as int] == t@);
            return true;
        }
        i += 1;
    }
    proof {
        let m = string_texts(v@);
        if m.contains(t@) {
            let j = choose|j: int| 0 <= j < m.len() && m[j] == t@;
            assert(v@[j]@ == t@);
        }
    }
    false
}

/// The values of every `EXDATE` line that has one, in order.
pub open spec fn exdate_values(props: Seq<IcsProperty>) -> Seq<Seq<char>>
    decreases props.len(),
{
    if props.len() == 0 {
        Seq::empty()
    } else {
        let earlier = exdate_values(props.drop_last());
        let p = props.last();
        if p.name@ == "EXDATE"@ {
            match p.value {
                Some(v) => earlier.push(v@),
                None => earlier,
            }
        } else {
            earlier
        }
    }
}

/// A content line `EXDATE` that carries a value.
pub open spec fn is_exdate_line(p: IcsProperty) -> bool {
    p.name@ == "EXDATE"@ && p.value is Some
}

proof fn lemma_exdate_values_filter(props: Seq<IcsProperty>)
    ensures
        exdate_values(props) == props.filter(|p: IcsProperty| is_exdate_line(p)).map_values(
            |p: IcsProperty| p.value->0@,
        ),
    decreases props.len(),
{
    let f = |p: IcsProperty| is_exdate_line(p);
    let g = |p: IcsProperty| p.value->0@;
    if props.len() > 0 {
        lemma_exdate_values_filter(props.drop_last());
        let kept = props.drop_last().filter(f);
        props.drop_last().lemma_filter_push(props.last(), f);
        assert(props.drop_last().push(props.last()) =~= props);
        if f(props.last()) {
            assert(props.filter(f) == kept.push(props.last()));
            assert(kept.push(props.last()).map_values(g) =~= kept.map_values(g).push(g(props.last())));
        } else {
            assert(props.filter(f) == kept);
        }
    } else {
        reveal(Seq::filter);
        assert(props.filter(f) =~= Seq::<IcsProperty>::empty());
        assert(props.filter(f).map_values(g) =~= Seq::<Seq<char>>::empty());
    }
}

/// Every exception date of an event is kept: a parsed event's exdates are
/// the values of all its `EXDATE` lines, in order: as many as there are
/// such lines, and each line's value among them.
pub proof fn lemma_every_exdate_kept(e: ParsedEvent, props: Seq<IcsProperty>, email: Option<Seq<char>>)
    requires
        parsed_from(e, props, email),
    ensures
        string_texts(e.exdates@) == props.filter(|p: IcsProperty| is_exdate_line(p)).map_values(
            |p: IcsProperty| p.value->0@,
        ),
        e.exdates.len() == props.filter(|p: IcsProperty| is_exdate_line(p)).len(),
        forall|i: int|
            0 <= i < props.len() && is_exdate_line(#[trigger] props[i]) ==> string_texts(e.exdates@).contains(
                props[i].value->0@,
            ),
{
    let f = |p: IcsProperty| is_exdate_line(p);
    let g = |p: IcsProperty| p.value->0@;
    lemma_exdate_values_filter(props);
    assert(string_texts(e.exdates@).len() == e.exdates@.len());
    assert forall|i: int| 0 <= i < props.len() && is_exdate_line(#[trigger] props[i]) implies string_texts(e.exdates@).contains(
        props[i].value->0@,
    ) by {
        props.lemma_filter_contains(f, i);
        let k = choose|k: int| 0 <= k < props.filter(f).len() && props.filter(f)[k] == props[i];
        assert(props.filter(f).map_values(g)[k] == g(props[i]));
    }
}

/// An `ATTENDEE` line naming `email` (in its lower-cased value) with
/// `PARTSTAT=DECLINED`.
pub open spec fn declines(p: IcsProperty, email: Seq<char>) -> bool {
    &&& p.name@ == "ATTENDEE"@
    &&& match p.value {
        Some(v) => crate::text::has_infix(crate::text::unicode_lowercase(v@), email),
        None => false,
    }
    &&& match param_values(p, "PARTSTAT"@) {
        Some(vs) => vs.contains("DECLINED"@),
        None => false,
    }
}

pub open spec fn declined_by(props: Seq<IcsProperty>, email: Option<Seq<char>>) -> bool {
    match email {
        Some(e) => exists|i: int| 0 <= i < props.len() && declines(#[trigger] props[i], e),
        None => false,
    }
}

/// An event read from a feed, before recurrence expansion.
#[derive(Debug, Clone)]
pub struct ParsedEvent {
    pub uid: String,
    pub summary: String,
    pub event_url: Option<String>,
    pub dtstart_val: String,
    pub dtstart_tzid: Option<String>,
    pub dtend_val: Option<String>,
    pub is_all_day: bool,
    pub rrule: Option<String>,
    pub exdates: Vec<String>,
    /// `RECURRENCE-ID`: this event replaces one occurrence of its series.
    pub recurrence_id: Option<String>,
    pub declined: bool,
}

/// Whether `e` is what the content lines `props` describe, for a user whose
/// (lower-cased) address is `email`.
pub open spec fn parsed_from(e: ParsedEvent, props: Seq<IcsProperty>, email: Option<Seq<char>>) -> bool {
    match first_named(props, "DTSTART"@) {
        Some(dp) => match dp.value {
            Some(start) => {
                &&& e.dtstart_val@ == start@
                &&& text_of(e.dtstart_tzid) == match param_values(dp, "TZID"@) {
                    Some(v) => if v.len() > 0 {
                        Some(v[0])
                    } else {
                        None
                    },
                    None => None,
                }
                &&& e.is_all_day == ((match param_values(dp, "VALUE"@) {
                    Some(v) => v.contains("DATE"@),
                    None => false,
                }) || !start@.contains('T'))
                &&& text_of(e.dtend_val) == prop_value(props, "DTEND"@)
                &&& string_texts(e.exdates@) == exdate_values(props)
                &&& text_of(e.recurrence_id) == prop_value(props, "RECURRENCE-ID"@)
                &&& e.uid@ == match prop_value(props, "UID"@) {
                    Some(u) => u,
                    None => "no-uid:"@ + start@,
                }
                &&& e.summary@ == match prop_value(props, "SUMMARY"@) {
                    Some(t) => t,
                    None => "(No title)"@,
                }
                &&& text_of(e.event_url) == prop_value(props, "URL"@)
                &&& text_of(e.rrule) == prop_value(props, "RRULE"@)
                &&& e.declined == declined_by(props, email)
            },
            None => false,
        },
        None => false,
    }
}

/// Whether an event has a `DTSTART` value (events without one are skipped).
pub open spec fn has_start(e: IcsEvent) -> bool {
    match first_named(e.properties@, "DTSTART"@) {
        Some(p) => p.value is Some,
        None => false,
    }
}

pub open spec fn with_start(events: Seq<IcsEvent>) -> Seq<IcsEvent> {
    events.filter(|e: IcsEvent| has_start(e))
}

fn exdates_of(props: &Vec<IcsProperty>) -> (r: Vec<String>)
    ensures
        string_texts(r@) == exdate_values(props@),
{
    let mut r: Vec<String> = Vec::new();
    let mut i: usize = 0;
    while i < props.len()
        invariant
            i <= props.len(),
            string_texts(r@) == exdate_values(props@.take(i as int)),
        decreases props.len() - i,
    {
        assert(props@.take(i + 1).drop_last() =~= props@.take(i as int));
        if crate::text::same_text(props[i].name.as_str(), "EXDATE") {
            match &props[i].value {
                Some(v) => {
                    r.push(v.clone());
                    assert(string_texts(r@) =~= exdate_values(props@.take(i as int)).push(v@));
                },
                None => {},
            }
        }
        i += 1;
    }
    assert(props@.take(props.len() as int) =~= props@);
    r
}

fn attendee_declines(p: &IcsProperty, email: &str) -> (b: bool)
    ensures
        b == declines(*p, email@),
{
    if !crate::text::same_text(p.name.as_str(), "ATTENDEE") {
        return false;
    }
    let value_matches = match &p.value {
        Some(v) => {
            let low = crate::text::to_lowercase(v.as_str());
            let lv = crate::text::chars_of(low.as_str());
            let ev = crate::text::chars_of(email);
            crate::text::contains_chars(&lv, &ev)
        },
        None => false,
    };
    let declined = match find_param(p, "PARTSTAT") {
        Some(vs) => any_text(&vs, "DECLINED"),
        None => false,
    };
    value_matches && declined
}

fn is_declined(props: &Vec<IcsProperty>, email: &Option<String>) -> (b: bool)
    ensures
        b == declined_by(props@, text_of(*email)),
{
    match email {
        Some(e) => {
            let mut i: usize = 0;
            while i < props.len()
                invariant
                    i <= props.len(),
                    *email == Some(*e),
                    forall|j: int| 0 <= j < i ==> !declines(#[trigger] props@[j], e@),
                decreases props.len() - i,
            {
                if attendee_declines(&props[i], e.as_str()) {
                    assert(declines(props@[i as int], e@));
                    return true;
                }
                i += 1;
            }
            false
        },
        None => false,
    }
}

fn parse_event(ev: &IcsEvent, email: &Option<String>) -> (r: Option<ParsedEvent>)
    ensures
        r is Some <==> has_start(*ev),
        r matches Some(e) ==> parsed_from(e, ev.properties@, text_of(*email)),
{
    let props = &ev.properties;
    let di = match find_prop(props, "DTSTART") {
        Some(i) => i,
        None => return None,
    };
    let dp = &props[di];
    let start = match &dp.value {
        Some(v) => v.clone(),
        None => return None,
    };
    let tzid = match find_param(dp, "TZID") {
        Some(v) => if v.len() > 0 {
            Some(v[0].clone())
        } else {
            None
        },
        None => None,
    };
    let date_valued = match find_param(dp, "VALUE") {
        Some(v) => any_text(&v, "DATE"),
        None => false,
    };
    let sv = crate::text::chars_of(start.as_str());
    let mut has_t = false;
    let mut k: usize = 0;
    while k < sv.len()
        invariant
            k <= sv.len(),
            has_t == (exists|j: int| 0 <= j < k && sv@[j] == 'T'),
        decreases sv.len() - k,
    {
        if sv[k] == 'T' {
            has_t = true;
        }
        k += 1;
    }
    proof {
        if start@.contains('T') {
            let j = choose|j: int| 0 <= j < start@.len() && start@[j] == 'T';
            assert(sv@[j] == 'T');
        }
    }
    let uid = match get_value(props, "UID") {
        Some(u) => u,
        None => {
            let mut u = String::from_str("no-uid:");
            u.append(start.as_str());
            u
        },
    };
    let summary = match get_value(props, "SUMMARY") {
        Some(t) => t,
        None => String::from_str("(No title)"),
    };
    Some(ParsedEvent {
        uid,
        summary,
        event_url: get_value(props, "URL"),
        dtstart_val: start,
        dtstart_tzid: tzid,
        dtend_val: get_value(props, "DTEND"),
        is_all_day: date_valued || !has_t,
        rrule: get_value(props, "RRULE"),
        exdates: exdates_of(props),
        recurrence_id: get_value(props, "RECURRENCE-ID"),
        declined: is_declined(props, email),
    })
}

/// The events of a feed that have a start, in order, read for the user
/// whose lower-cased address is `email`.
pub fn parsed_events(events: &Vec<IcsEvent>, email: &Option<String>) -> (r: Vec<ParsedEvent>)
    ensures
        r.len() == with_start(events@).len(),
        forall|k: int| 0 <= k < r.len() ==> parsed_from(#[trigger] r@[k], with_start(events@)[k].properties@, text_of(*email)),
{
    let mut r: Vec<ParsedEvent> = Vec::new();
    let mut i: usize = 0;
    while i < events.len()
        invariant
            i <= events.len(),
            r.len() == with_start(events@.take(i as int)).len(),
            forall|k: int| 0 <= k < r.len() ==> parsed_from(#[trigger] r@[k], with_start(events@.take(i as int))[k].properties@, text_of(*email)),
        decreases events.len() - i,
    {
        let ghost before = with_start(events@.take(i as int));
        proof {
            events@.take(i as int).lemma_filter_push(events@[i as int], |e: IcsEvent| has_start(e));
            assert(events@.take(i + 1) =~= events@.take(i as int).push(events@[i as int]));
        }
        let ghost old_r = r@;
        match parse_event(&events[i], email) {
            Some(e) => {
                r.push(e);
                assert(with_start(events@.take(i + 1)) == before.push(events@[i as int]));
                assert forall|k: int| 0 <= k < r.len() implies parsed_from(#[trigger] r@[k], with_start(events@.take(i + 1))[k].properties@, text_of(*email)) by {
                    if k < old_r.len() {
                        assert(r@[k] == old_r[k]);
                    }
                }
            },
            None => {
                assert(with_start(events@.take(i + 1)) == before);
            },
        }
        i += 1;
    }
    assert(events@.take(events.len() as int) =~= events@);
    r
}

/// `parsed` is what a feed holds: its events with a start, in order.
pub open spec fn feed_reading(body: Seq<char>, email: Option<Seq<char>>, parsed: Seq<ParsedEvent>) -> bool {
    exists|evs: Seq<IcsEvent>|
        #![trigger event_views(evs)]
        event_views(evs) == ics_parse(body) && parsed.len() == with_start(evs).len() && forall|k: int|
            0 <= k < parsed.len() ==> parsed_from(#[trigger] parsed[k], with_start(evs)[k].properties@, email)
}

/// The events of an iCal feed, read for the user whose lower-cased address
/// is `email`.
pub fn parse_events_from_ics(body: &str, email: &Option<String>) -> (r: Vec<ParsedEvent>)
    ensures
        feed_reading(body@, text_of(*email), r@),
{
    let events = ics_events(body);
    let r = parsed_events(&events, email);
    assert(event_views(events@) == ics_parse(body@));
    r
}

// ---------------------------------------------------------------------------
// Recurrence
// ---------------------------------------------------------------------------

/// The `EXDATE:` lines of a rule set.
pub open spec fn exdate_lines(xs: Seq<Seq<char>>) -> Seq<char>
    decreases xs.len(),
{
    if xs.len() == 0 {
        Seq::empty()
    } else {
        exdate_lines(xs.drop_last()) + "EXDATE:"@ + xs.last() + "\n"@
    }
}

pub open spec fn rrule_text_spec(start: Seq<char>, tzid: Option<Seq<char>>, rule: Seq<char>, exdates: Seq<Seq<char>>) -> Seq<char> {
    let tz = match tzid {
        Some(t) => ";TZID="@ + t,
        None => Seq::empty(),
    };
    "DTSTART"@ + tz + ":"@ + start + "\nRRULE:"@ + rule + "\n"@ + exdate_lines(exdates)
}

/// The rule set handed to `rrule`: the start (with its zone), the rule and
/// the exception dates.
pub fn rrule_text(start: &str, tzid: &Option<String>, rule: &str, exdates: &Vec<String>) -> (r: String)
    ensures
        r@ == rrule_text_spec(start@, text_of(*tzid), rule@, string_texts(exdates@)),
{
    let mut r = String::from_str("DTSTART");
    match tzid {
        Some(t) => {
            r.append(";TZID=");
            r.append(t.as_str());
        },
        None => {},
    }
    r.append(":");
    r.append(start);
    r.append("\nRRULE:");
    r.append(rule);
    r.append("\n");
    let ghost head = r@;
    let mut i: usize = 0;
    while i < exdates.len()
        invariant
            i <= exdates.len(),
            r@ == head + exdate_lines(string_texts(exdates@).take(i as int)),
        decreases exdates.len() - i,
    {
        assert(string_texts(exdates@).take(i + 1).drop_last() =~= string_texts(exdates@).take(i as int));
        r.append("EXDATE:");
        r.append(exdates[i].as_str());
        r.append("\n");
        i += 1;
    }
    assert(string_texts(exdates@).take(exdates.len() as int) =~= string_texts(exdates@));
    r
}

/// `rrule`: the `RRuleSet` read from `text`, its occurrences from `after`
/// through `before`, at most `limit` of them (`.after(..).before(..)
/// .all(limit)`), as unix seconds; `None` when the text does not parse.
/// Floating start times follow the machine's time zone, so the contract
/// states only what rrule's source shows of every outcome: at most `limit`
/// dates, each inside the bounds.
#[verifier::external_body]
fn rrule_occurrences(text: &str, after: i64, before: i64, limit: u16) -> (r: Option<Vec<i64>>)
    ensures
        r matches Some(v) ==> v.len() <= limit && forall|i: int| 0 <= i < v.len() ==> after <= #[trigger] v@[i] <= before
            && in_chrono_range(v@[i]),
{
    let set: rrule::RRuleSet = text.parse().ok()?;
    let a = rrule::Tz::UTC.timestamp_opt(after, 0).single()?;
    let b = rrule::Tz::UTC.timestamp_opt(before, 0).single()?;
    Some(set.after(a).before(b).all(limit).dates.into_iter().map(|d| d.timestamp()).collect())
}

/// The most occurrences one series yields per window.
pub const MAX_OCCURRENCES: u16 = 5000;

/// `a` is local midnight of `window_start` and `b` is 23:59:59 of
/// `window_end`, each on a clock less than a day off UTC.
pub open spec fn window_ends(a: i64, b: i64, window_start: i32, window_end: i32) -> bool {
    &&& crate::clock::wall_time(a as int, window_start as int, 0)
    &&& crate::clock::wall_time(b as int, window_end as int, crate::clock::LAST_SECOND as int)
}

/// Every instant of `occ` lies between local midnight of `window_start` and
/// 23:59:59 of `window_end` on the local clock.
pub open spec fn within_window(occ: Seq<i64>, window_start: i32, window_end: i32) -> bool {
    occ.len() > 0 ==> exists|a: i64, b: i64|
        #[trigger] window_ends(a, b, window_start, window_end) && forall|i: int| 0 <= i < occ.len() ==> a <= #[trigger] occ[i] <= b
}

/// Occurrences of a recurring event between local midnight of
/// `window_start` and 23:59:59 of `window_end`: none when the rule does not
/// parse or the window's ends do not exist on the local clock (always so
/// when either end is not one of chrono's dates). Which dates the rule
/// yields inside the window is rrule's, and floating times follow the
/// machine's time zone.
pub fn expand_rrule_for_range(
    start: &str,
    tzid: &Option<String>,
    rule: &str,
    exdates: &Vec<String>,
    window_start: i32,
    window_end: i32,
) -> (r: Vec<i64>)
    ensures
        r.len() <= MAX_OCCURRENCES,
        forall|i: int| 0 <= i < r.len() ==> in_chrono_range(#[trigger] r@[i]),
        !crate::clock::chrono_day(window_start) || !crate::clock::chrono_day(window_end) ==> r.len() == 0,
        within_window(r@, window_start, window_end),
{
    let text = rrule_text(start, tzid, rule, exdates);
    let after = match crate::clock::local_instant(window_start, 0) {
        Some(t) => t,
        None => return Vec::new(),
    };
    let before = match crate::clock::local_instant(window_end, crate::clock::LAST_SECOND) {
        Some(t) => t,
        None => return Vec::new(),
    };
    match rrule_occurrences(text.as_str(), after, before, MAX_OCCURRENCES) {
        Some(v) => {
            assert(window_ends(after, before, window_start, window_end));
            v
        },
        None => Vec::new(),
    }
}

// ---------------------------------------------------------------------------
// Expansion
// ---------------------------------------------------------------------------

/// An occurrence to store.
#[derive(Debug, Clone)]
pub struct ExpandedEvent {
    pub uid: String,
    pub dtstart: i64,
    pub dtend: Option<i64>,
    pub summary: String,
    pub event_url: Option<String>,
    pub declined: bool,
}

/// The instants read for one parsed event.
#[derive(Debug, Clone)]
pub struct EventTimes {
    /// `DTSTART`
    pub start: Option<i64>,
    /// Local day of `DTSTART`.
    pub start_day: Option<i32>,
    /// `DTEND`
    pub end: Option<i64>,
    /// `RECURRENCE-ID`
    pub recurrence: Option<i64>,
    /// Occurrences of the event's rule inside the window.
    pub occurrences: Vec<i64>,
}

pub open spec fn opt_in_range(t: Option<i64>) -> bool {
    match t {
        Some(x) => in_chrono_range(x),
        None => true,
    }
}

pub open spec fn times_bounded(t: EventTimes) -> bool {
    &&& opt_in_range(t.start)
    &&& opt_in_range(t.end)
    &&& forall|i: int| 0 <= i < t.occurrences.len() ==> in_chrono_range(#[trigger] t.occurrences@[i])
}

/// Some event of the feed overrides the occurrence of series `uid` at `ts`.
pub open spec fn overridden(parsed: Seq<ParsedEvent>, times: Seq<EventTimes>, uid: Seq<char>, ts: i64) -> bool {
    exists|i: int| 0 <= i < parsed.len() && (#[trigger] parsed[i]).uid@ == uid && times[i].recurrence == Some(ts)
}

/// `(uid, dtstart, dtend, summary, url, declined)`
pub type ExpView = (Seq<char>, i64, Option<i64>, Seq<char>, Option<Seq<char>>, bool);

pub open spec fn exp_view(e: ExpandedEvent) -> ExpView {
    (e.uid@, e.dtstart, e.dtend, e.summary@, text_of(e.event_url), e.declined)
}

pub open spec fn exp_views(v: Seq<ExpandedEvent>) -> Seq<ExpView> {
    v.map_values(|e: ExpandedEvent| exp_view(e))
}

/// A recurring event's end moved along with each occurrence.
pub open spec fn shifted_end(t: EventTimes, ts: i64) -> Option<i64> {
    match (t.end, t.start) {
        (Some(e), Some(s)) => Some((e - s + ts) as i64),
        _ => None,
    }
}

pub open spec fn occurrence_views(parsed: Seq<ParsedEvent>, times: Seq<EventTimes>, i: int, occ: Seq<i64>) -> Seq<ExpView>
    decreases occ.len(),
{
    if occ.len() == 0 {
        Seq::empty()
    } else {
        let earlier = occurrence_views(parsed, times, i, occ.drop_last());
        let ts = occ.last();
        let pe = parsed[i];
        if overridden(parsed, times, pe.uid@, ts) {
            earlier
        } else {
            earlier.push(
                (
                    pe.uid@ + ":"@ + crate::text::signed_decimal(ts as int),
                    ts,
                    shifted_end(times[i], ts),
                    pe.summary@,
                    text_of(pe.event_url),
                    pe.declined,
                ),
            )
        }
    }
}

/// What event `i` contributes: nothing when it lasts all day; for a series,
/// each occurrence not overridden by another event; otherwise itself when
/// its local start day lies in the window.
pub open spec fn event_expansion(parsed: Seq<ParsedEvent>, times: Seq<EventTimes>, i: int, ws: i32, we: i32) -> Seq<ExpView> {
    let pe = parsed[i];
    let t = times[i];
    if pe.is_all_day {
        Seq::empty()
    } else if pe.rrule is Some {
        occurrence_views(parsed, times, i, t.occurrences@)
    } else {
        match (t.start, t.start_day) {
            (Some(ts), Some(d)) => if ws <= d && d <= we {
                seq![(pe.uid@, ts, t.end, pe.summary@, text_of(pe.event_url), pe.declined)]
            } else {
                Seq::empty()
            },
            _ => Seq::empty(),
        }
    }
}

pub open spec fn expansion(parsed: Seq<ParsedEvent>, times: Seq<EventTimes>, n: int, ws: i32, we: i32) -> Seq<ExpView>
    decreases n,
{
    if n <= 0 {
        Seq::empty()
    } else {
        expansion(parsed, times, n - 1, ws, we) + event_expansion(parsed, times, n - 1, ws, we)
    }
}

fn is_overridden(parsed: &Vec<ParsedEvent>, times: &Vec<EventTimes>, uid: &str, ts: i64) -> (b: bool)
    requires
        parsed.len() == times.len(),
    ensures
        b == overridden(parsed@, times@, uid@, ts),
{
    let mut j: usize = 0;
    while j < parsed.len()
        invariant
            j <= parsed.len() == times.len(),
            forall|k: int| 0 <= k < j ==> !((#[trigger] parsed@[k]).uid@ == uid@ && times@[k].recurrence == Some(ts)),
        decreases parsed.len() - j,
    {
        if times[j].recurrence == Some(ts) && crate::text::same_text(parsed[j].uid.as_str(), uid) {
            assert(parsed@[j as int].uid@ == uid@);
            return true;
        }
        j += 1;
    }
    false
}

fn copy_opt(o: &Option<String>) -> (r: Option<String>)
    ensures
        text_of(r) == text_of(*o),
{
    match o {
        Some(s) => Some(s.clone()),
        None => None,
    }
}

/// The occurrences to store, given the instants read for each event.
pub fn expand_events(parsed: &Vec<ParsedEvent>, times: &Vec<EventTimes>, window_start: i32, window_end: i32) -> (r: Vec<ExpandedEvent>)
    requires
        parsed.len() == times.len(),
        forall|i: int| 0 <= i < times.len() ==> times_bounded(#[trigger] times@[i]),
    ensures
        exp_views(r@) == expansion(parsed@, times@, parsed.len() as int, window_start, window_end),
{
    let mut r: Vec<ExpandedEvent> = Vec::new();
    let mut i: usize = 0;
    while i < parsed.len()
        invariant
            i <= parsed.len() == times.len(),
            forall|i: int| 0 <= i < times.len() ==> times_bounded(#[trigger] times@[i]),
            exp_views(r@) == expansion(parsed@, times@, i as int, window_start, window_end),
        decreases parsed.len() - i,
    {
        let pe = &parsed[i];
        let t = &times[i];
        assert(times_bounded(times@[i as int]));
        let ghost before = exp_views(r@);
        if pe.is_all_day {
            assert(event_expansion(parsed@, times@, i as int, window_start, window_end) =~= Seq::<ExpView>::empty());
        } else if pe.rrule.is_some() {
            let mut k: usize = 0;
            while k < t.occurrences.len()
                invariant
                    k <= t.occurrences.len(),
                    i < parsed.len() == times.len(),
                    pe == parsed@[i as int],
                    t == times@[i as int],
                    times_bounded(*t),
                    exp_views(r@) == before + occurrence_views(parsed@, times@, i as int, t.occurrences@.take(k as int)),
                decreases t.occurrences.len() - k,
            {
                let ts = t.occurrences[k];
                assert(t.occurrences@.take(k + 1).drop_last() =~= t.occurrences@.take(k as int));
                assert(in_chrono_range(t.occurrences@[k as int]));
                if !is_overridden(parsed, times, pe.uid.as_str(), ts) {
                    let end = match (t.end, t.start) {
                        (Some(e), Some(s)) => Some(e - s + ts),
                        _ => None,
                    };
                    let mut uid = pe.uid.clone();
                    uid.append(":");
                    let tss = crate::text::signed_decimal_string(ts);
                    uid.append(tss.as_str());
                    let ghost old_r = r@;
                    r.push(ExpandedEvent {
                        uid,
                        dtstart: ts,
                        dtend: end,
                        summary: pe.summary.clone(),
                        event_url: copy_opt(&pe.event_url),
                        declined: pe.declined,
                    });
                    assert(exp_views(r@) =~= exp_views(old_r).push(exp_view(r@[r.len() - 1])));
                }
                k += 1;
            }
            assert(t.occurrences@.take(t.occurrences.len() as int) =~= t.occurrences@);
        } else {
            match (t.start, t.start_day) {
                (Some(ts), Some(d)) => {
                    if window_start <= d && d <= window_end {
                        let ghost old_r = r@;
                        r.push(ExpandedEvent {
                            uid: pe.uid.clone(),
                            dtstart: ts,
                            dtend: t.end,
                            summary: pe.summary.clone(),
                            event_url: copy_opt(&pe.event_url),
                            declined: pe.declined,
                        });
                        assert(exp_views(r@) =~= exp_views(old_r).push(exp_view(r@[r.len() - 1])));
                    }
                },
                _ => {},
            }
        }
        i += 1;
    }
    r
}

/// `r` is a reading of the iCal date-time `s`: exact for UTC; a local wall
/// time names an instant less than a day from the same wall time read as
/// UTC (the time zone decides which).
pub open spec fn ics_time_ok(s: Seq<char>, r: Option<i64>) -> bool {
    &&& (s.len() > 0 && s.last() == 'Z' ==> r == ics_naive(s.drop_last()))
    &&& (!(s.len() > 0 && s.last() == 'Z') && ics_naive(s) is None ==> r is None)
    &&& (!(s.len() > 0 && s.last() == 'Z') ==> (r matches Some(t) ==> (ics_naive(s) matches Some(n) && n - 86400 < t < n
        + 86400)))
    &&& opt_in_range(r)
}

/// `t` holds the instants read for `pe`, its occurrences inside the window
/// of local days `window_start..=window_end`.
pub open spec fn times_read(pe: ParsedEvent, t: EventTimes, window_start: i32, window_end: i32) -> bool {
    &&& ics_time_ok(pe.dtstart_val@, t.start)
    &&& (t.start_day is Some <==> (t.start matches Some(ts) && crate::clock::placeable(ts)))
    &&& (t.start matches Some(ts) ==> (t.start_day matches Some(d) ==> crate::clock::on_local_day(ts as int, d as int)))
    &&& match pe.dtend_val {
        Some(v) => ics_time_ok(v@, t.end),
        None => t.end is None,
    }
    &&& match pe.recurrence_id {
        Some(v) => ics_time_ok(v@, t.recurrence),
        None => t.recurrence is None,
    }
    &&& (pe.is_all_day || pe.rrule is None ==> t.occurrences.len() == 0)
    &&& t.occurrences.len() <= MAX_OCCURRENCES
    &&& within_window(t.occurrences@, window_start, window_end)
    &&& times_bounded(t)
}

fn read_times(pe: &ParsedEvent, window_start: i32, window_end: i32) -> (t: EventTimes)
    ensures
        times_read(*pe, t, window_start, window_end),
{
    let start = parse_ics_datetime(pe.dtstart_val.as_str());
    let start_day = match start {
        Some(ts) => match local_clock(ts) {
            Some(c) => Some(c.day),
            None => None,
        },
        None => None,
    };
    let end = match &pe.dtend_val {
        Some(v) => parse_ics_datetime(v.as_str()),
        None => None,
    };
    let recurrence = match &pe.recurrence_id {
        Some(v) => parse_ics_datetime(v.as_str()),
        None => None,
    };
    let occurrences = if pe.is_all_day {
        Vec::new()
    } else {
        match &pe.rrule {
            Some(rule) => expand_rrule_for_range(
                pe.dtstart_val.as_str(),
                &pe.dtstart_tzid,
                rule.as_str(),
                &pe.exdates,
                window_start,
                window_end,
            ),
            None => Vec::new(),
        }
    };
    EventTimes { start, start_day, end, recurrence, occurrences }
}

/// The occurrences of a feed's events inside the window of local days
/// `window_start..=window_end`, for the user whose lower-cased address is
/// `email`: all-day events are left out, series are expanded (minus their
/// exception dates and the occurrences other events override), and each
/// occurrence carries whether the user declined it.
pub fn parse_and_expand(body: &str, window_start: i32, window_end: i32, email: &Option<String>) -> (r: Vec<ExpandedEvent>)
    ensures
        exists|parsed: Seq<ParsedEvent>, times: Seq<EventTimes>|
            #![trigger expansion(parsed, times, parsed.len() as int, window_start, window_end)]
            feed_reading(body@, text_of(*email), parsed) && times.len() == parsed.len() && (forall|i: int|
                0 <= i < parsed.len() ==> times_read(#[trigger] parsed[i], times[i], window_start, window_end)) && exp_views(r@)
                == expansion(parsed, times, parsed.len() as int, window_start, window_end),
{
    let parsed = parse_events_from_ics(body, email);
    let mut times: Vec<EventTimes> = Vec::new();
    let mut i: usize = 0;
    while i < parsed.len()
        invariant
            i <= parsed.len(),
            times.len() == i,
            forall|k: int| 0 <= k < i ==> times_read(#[trigger] parsed@[k], times@[k], window_start, window_end),
        decreases parsed.len() - i,
    {
        let t = read_times(&parsed[i], window_start, window_end);
        times.push(t);
        i += 1;
    }
    assert forall|k: int| 0 <= k < times.len() implies times_bounded(#[trigger] times@[k]) by {
        assert(times_read(parsed@[k], times@[k], window_start, window_end));
    }
    let r = expand_events(&parsed, &times, window_start, window_end);
    assert(expansion(parsed@, times@, parsed@.len() as int, window_start, window_end) == exp_views(r@));
    r
}

/// The sync window around `today`: three years back, one year ahead.
pub fn sync_window(today: i32) -> (w: (i32, i32))
    requires
        i32::MIN + 1095 <= today <= i32::MAX - 365,
    ensures
        w == ((today - 1095) as i32, (today + 365) as i32),
{
    (today - 1095, today + 365)
}

/// The address that marks the user's attendee lines: trimmed and
/// lower-cased, `None` when blank.
pub fn normalized_email(email: &Option<String>) -> (r: Option<String>)
    ensures
        text_of(r) == match *email {
            Some(e) => if crate::text::unicode_lowercase(crate::text::trim(e@)).len() > 0 {
                Some(crate::text::unicode_lowercase(crate::text::trim(e@)))
            } else {
                None
            },
            None => None,
        },
{
    match email {
        Some(e) => {
            let t = crate::text::trim_slice(e.as_str());
            let l = crate::text::to_lowercase(t);
            if l.as_str().is_empty() {
                None
            } else {
                Some(l)
            }
        },
        None => None,
    }
}

/// A feed answer that is not an iCal calendar.
pub fn ical_feed_problem(url: &str, body: &str) -> (r: Option<String>)
    ensures
        r is None <==> crate::text::has_infix(body@, "BEGIN:VCALENDAR"@),
        r matches Some(m) ==> m@ == "URL did not return an iCal feed (missing BEGIN:VCALENDAR): "@ + url@,
{
    let b = crate::text::chars_of(body);
    let marker = crate::text::chars_of("BEGIN:VCALENDAR");
    if crate::text::contains_chars(&b, &marker) {
        None
    } else {
        let mut m = String::from_str("URL did not return an iCal feed (missing BEGIN:VCALENDAR): ");
        m.append(url);
        Some(m)
    }
}

/// The connection test's error for an HTTP error status of `url`.
pub fn ical_status_error(status: u16, url: &str) -> (m: String)
    ensures
        m@ == "iCal URL returned HTTP "@ + decimal(status as nat) + ": "@ + url@,
{
    let mut m = String::from_str("iCal URL returned HTTP ");
    let s = decimal_string(status as u64);
    m.append(s.as_str());
    m.append(": ");
    m.append(url);
    m
}

/// The unix-second window `[start, end)` of stored occurrences shown for
/// local days `start_day..=end_day`: local midnight of the first day to
/// local midnight after the last (the earliest instant where the wall clock
/// repeats). Refused when the last day has no successor, or when chrono has
/// no such midnight in the machine's time zone (not stated).
pub fn calendar_window(start_day: i32, end_day: i32) -> (r: Result<(i64, i64), String>)
    ensures
        crate::github::no_next_day(end_day) ==> (r matches Err(m) && m@ == crate::github::no_day_after_text(end_day)),
        !crate::github::no_next_day(end_day) ==> (r matches Err(m) ==> (m@ == "Invalid range start"@ || m@
            == "Invalid range end"@)),
        r matches Ok(w) ==> crate::clock::wall_time(w.0 as int, start_day as int, 0) && crate::clock::wall_time(
            w.1 as int,
            end_day + 1,
            0,
        ),
{
    let fmt = "%Y-%m-%d";
    proof {
        reveal_strlit("%Y-%m-%d");
        assert(fmt@ =~= crate::clock::iso_format());
    }
    if end_day == i32::MAX || crate::clock::format_day(end_day + 1, fmt).is_none() {
        let mut m = String::from_str("no day after ");
        match crate::clock::format_day(end_day, fmt) {
            Some(t) => m.append(t.as_str()),
            None => {},
        }
        return Err(m);
    }
    proof {
        reveal_strlit("Invalid range start");
        reveal_strlit("Invalid range end");
    }
    let start = match crate::clock::local_instant(start_day, 0) {
        Some(t) => t,
        None => return Err(String::from_str("Invalid range start")),
    };
    let end = match crate::clock::local_instant(end_day + 1, 0) {
        Some(t) => t,
        None => return Err(String::from_str("Invalid range end")),
    };
    Ok((start, end))
}

} // verus!
