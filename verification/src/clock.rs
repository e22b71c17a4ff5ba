//! Calendar days and local wall-clock time.
//!
//! A calendar day is carried as chrono's day number (`num_days_from_ce`:
//! 0001-01-01 is day 1), so day arithmetic is integer arithmetic. Everything
//! that needs the proleptic Gregorian calendar or the machine's time zone goes
//! through the few chrono calls below.
use vstd::prelude::*;

use chrono::{Datelike, TimeZone, Timelike};

verus! {

/// A local calendar day and the wall-clock reading of one instant.
#[derive(Debug, Clone, PartialEq)]
pub struct LocalClock {
    /// Local calendar day number.
    pub day: i32,
    /// Local time as `HH:MM`.
    pub hhmm: String,
    /// Seconds since local midnight.
    pub seconds: u32,
}

/// What chrono's `NaiveDate::parse_from_str(s, fmt)` yields, as a day number.
pub uninterp spec fn parsed_day(s: Seq<char>, fmt: Seq<char>) -> Option<i32>;

/// What chrono's `NaiveDate::format(fmt)` renders for a day number (`None`
/// when the number is outside chrono's date range).
pub uninterp spec fn formatted_day(day: i32, fmt: Seq<char>) -> Option<Seq<char>>;

/// Day number of `NaiveDate::MIN` (January 1 of year -262143).
pub const MIN_CHRONO_DAY: i32 = -95746129;

/// Day number of `NaiveDate::MAX` (December 31 of year 262142).
pub const MAX_CHRONO_DAY: i32 = 95745399;

/// Whether chrono's `NaiveDate::from_num_days_from_ce_opt(day)` gives a date:
/// `day` lies between `NaiveDate::MIN` and `NaiveDate::MAX`.
pub open spec fn chrono_day(day: i32) -> bool {
    MIN_CHRONO_DAY <= day <= MAX_CHRONO_DAY
}

/// `%Y-%m-%d`, the ISO day format.
pub open spec fn iso_format() -> Seq<char> {
    seq!['%', 'Y', '-', '%', 'm', '-', '%', 'd']
}

/// `%Y-%m-%d`, the ISO day format used throughout.
pub fn iso_format_str() -> (r: &'static str)
    ensures
        r@ == iso_format(),
{
    proof {
        reveal_strlit("%Y-%m-%d");
    }
    "%Y-%m-%d"
}

/// The day formats rendered here: `%Y-%m-%d` and `%Y/%m/%d`, chrono's
/// numeric year, month and day fields (formats chrono renders without error).
pub open spec fn day_format(fmt: Seq<char>) -> bool {
    fmt == iso_format() || fmt == seq!['%', 'Y', '/', '%', 'm', '/', '%', 'd']
}

/// The day number of a year/month/day triple (`NaiveDate::from_ymd_opt`).
pub uninterp spec fn civil_day(year: i32, month: u32, day: u32) -> Option<i32>;

/// Unix seconds of an RFC 3339 timestamp (`DateTime::parse_from_rfc3339`).
pub uninterp spec fn rfc3339_seconds(s: Seq<char>) -> Option<i64>;

/// Whether chrono's `DateTime::from_timestamp(ts, 0)` gives an instant: the
/// day of `ts` in UTC is one of chrono's dates.
pub open spec fn chrono_instant(ts: i64) -> bool {
    MIN_CHRONO_DAY <= utc_day_number(ts as int) <= MAX_CHRONO_DAY
}

/// `chrono::NaiveDate::parse_from_str`: the calendar day written in `s`
/// according to `fmt`, as a day number. The contract names the result; it
/// says nothing more about chrono's parser.
#[verifier::external_body]
pub(crate) fn parse_day(s: &str, fmt: &str) -> (r: Option<i32>)
    ensures
        r == parsed_day(s@, fmt@),
{
    chrono::NaiveDate::parse_from_str(s, fmt).ok().map(|d| d.num_days_from_ce())
}

/// `chrono::NaiveDate::format`: the day rendered with `fmt`. The contract
/// names the result; `None` stands for a day number chrono cannot represent.
/// Only the plain day formats are admitted: rendering a malformed format
/// string panics in `to_string`.
#[verifier::external_body]
pub(crate) fn format_day(day: i32, fmt: &str) -> (r: Option<String>)
    requires
        day_format(fmt@),
    ensures
        r is Some <==> chrono_day(day),
        r is Some <==> formatted_day(day, fmt@) is Some,
        r matches Some(t) ==> formatted_day(day, fmt@) == Some(t@),
{
    chrono::NaiveDate::from_num_days_from_ce_opt(day).map(|d| d.format(fmt).to_string())
}

/// `chrono::NaiveDate::from_ymd_opt`: the day number of a civil date, or
/// `None` for an impossible one. The contract names the result and states
/// what chrono documents: no date exists for a month outside 1..=12 or a
/// day outside 1..=31.
#[verifier::external_body]
pub(crate) fn ymd_day(year: i32, month: u32, day: u32) -> (r: Option<i32>)
    ensures
        r == civil_day(year, month, day),
        r is Some ==> 1 <= month <= 12 && 1 <= day <= 31,
{
    chrono::NaiveDate::from_ymd_opt(year, month, day).map(|d| d.num_days_from_ce())
}

/// `chrono::DateTime::parse_from_rfc3339`: unix seconds of an RFC 3339
/// timestamp with offset, or `None` when `s` is not one. The contract names
/// the result, and states what chrono documents of every `DateTime`: its
/// `timestamp()` round-trips through `DateTime::from_timestamp`.
#[verifier::external_body]
pub(crate) fn parse_rfc3339(s: &str) -> (r: Option<i64>)
    ensures
        r == rfc3339_seconds(s@),
        r matches Some(t) ==> chrono_instant(t),
{
    chrono::DateTime::parse_from_rfc3339(s).ok().map(|d| d.timestamp())
}


/// Day number of 1970-01-01 (`NaiveDate::num_days_from_ce`).
pub open spec fn epoch_day() -> int {
    719163
}

/// Whether `day` and `seconds` (since midnight) read instant `ts` on a clock
/// `off` seconds ahead of UTC, with `|off|` under a day (chrono's bound on a
/// `FixedOffset`, which `Local` uses).
pub open spec fn reading_of(ts: int, off: int, day: int, seconds: int) -> bool {
    &&& -86400 < off < 86400
    &&& day == local_day_number(ts, off)
    &&& seconds == (ts + off) % 86400
}

/// The day number of instant `ts` on a clock `off` seconds ahead of UTC.
pub open spec fn local_day_number(ts: int, off: int) -> int {
    (ts + off) / 86400 + epoch_day()
}

/// The day number of instant `ts` in UTC.
pub open spec fn utc_day_number(ts: int) -> int {
    ts / 86400 + epoch_day()
}

/// Whether `day` is the day of instant `ts` on some clock less than a day
/// off UTC.
pub open spec fn on_local_day(ts: int, day: int) -> bool {
    exists|off: int| -86400 < off < 86400 && day == #[trigger] local_day_number(ts, off)
}

/// A local day lies within one day of the instant's UTC day.
pub proof fn lemma_local_day_near(ts: int, day: int)
    requires
        on_local_day(ts, day),
    ensures
        utc_day_number(ts) - 1 <= day <= utc_day_number(ts) + 1,
{
    let off = choose|off: int| -86400 < off < 86400 && day == #[trigger] local_day_number(ts, off);
    assert((ts + off) / 86400 <= ts / 86400 + 1 && (ts + off) / 86400 >= ts / 86400 - 1) by (nonlinear_arith)
        requires
            -86400 < off < 86400,
    ;
}

/// A unix second at least a day inside chrono's range, so that its reading
/// on any local clock is a date-time chrono can hold.
pub open spec fn placeable(ts: i64) -> bool {
    &&& i64::MIN + 86400 <= ts <= i64::MAX - 86400
    &&& chrono_instant((ts - 86400) as i64)
    &&& chrono_instant((ts + 86400) as i64)
}

/// `DateTime::from_timestamp` seen through `chrono::Local`: the local day
/// number and seconds since local midnight of unix second `ts`. The offset
/// comes from the machine's time zone; the contract states what chrono's
/// source shows of every outcome: the offset is under a day, and the day is
/// one of chrono's dates. `ts` stays a day inside chrono's range, where
/// adding the offset cannot leave it (`naive_local` panics outside).
#[verifier::external_body]
fn local_reading(ts: i64) -> (r: (i32, u32))
    requires
        placeable(ts),
    ensures
        exists|off: int| #[trigger] reading_of(ts as int, off, r.0 as int, r.1 as int),
        chrono_day(r.0),
{
    let l = chrono::DateTime::from_timestamp(ts, 0).unwrap_or_default().with_timezone(&chrono::Local);
    (l.date_naive().num_days_from_ce(), l.num_seconds_from_midnight())
}

/// `HH:MM` of `seconds` since midnight.
pub open spec fn hhmm_text(seconds: nat) -> Seq<char> {
    let h = seconds / 3600;
    let m = (seconds % 3600) / 60;
    seq![crate::text::digit_char(h / 10), crate::text::digit_char(h % 10), ':', crate::text::digit_char(m / 10), crate::text::digit_char(m % 10)]
}

/// `HH:MM` of `seconds` since midnight, as chrono's `%H:%M` writes it.
pub fn hhmm_of(seconds: u32) -> (s: String)
    requires
        seconds < 86400,
    ensures
        s@ == hhmm_text(seconds as nat),
{
    let h = seconds / 3600;
    let m = (seconds % 3600) / 60;
    let mut s = String::new();
    crate::text::push_char(&mut s, ((h / 10) as u8 + 48) as char);
    crate::text::push_char(&mut s, ((h % 10) as u8 + 48) as char);
    crate::text::push_char(&mut s, ':');
    crate::text::push_char(&mut s, ((m / 10) as u8 + 48) as char);
    crate::text::push_char(&mut s, ((m % 10) as u8 + 48) as char);
    s
}

/// Whether `c` reads instant `ts` on a clock less than a day off UTC, its
/// `HH:MM` written from its seconds since midnight.
pub open spec fn reads(c: LocalClock, ts: i64) -> bool {
    &&& exists|off: int| #[trigger] reading_of(ts as int, off, c.day as int, c.seconds as int)
    &&& c.seconds < 86400
    &&& c.hhmm@ == hhmm_text(c.seconds as nat)
}

/// The local day, `HH:MM` and seconds since local midnight of unix second
/// `ts`; `None` exactly when `ts` is not a day inside chrono's range. The
/// reading is the instant seen on a clock less than a day off UTC (the
/// machine's time zone decides the offset).
pub fn local_clock(ts: i64) -> (r: Option<LocalClock>)
    ensures
        r is Some <==> placeable(ts),
        r matches Some(c) ==> chrono_day(c.day),
        r matches Some(c) ==> exists|off: int| #[trigger] reading_of(ts as int, off, c.day as int, c.seconds as int),
        r matches Some(c) ==> on_local_day(ts as int, c.day as int),
        r matches Some(c) ==> c.seconds < 86400 && c.hhmm@ == hhmm_text(c.seconds as nat),
        r matches Some(c) ==> reads(c, ts),
{
    if ts < i64::MIN + 86400 || ts > i64::MAX - 86400 {
        return None;
    }
    // The UTC days of `ts - 86400` and `ts + 86400` are chrono's dates exactly
    // when `ts` lies at least a day after the first second of `NaiveDate::MIN`
    // and a day before the last second of `NaiveDate::MAX`.
    if ts < -8334601228800 + 86400 || ts > 8210266876799 - 86400 {
        return None;
    }
    proof {
        assert((ts - 86400) / 86400 == ts / 86400 - 1) by (nonlinear_arith);
        assert((ts + 86400) / 86400 == ts / 86400 + 1) by (nonlinear_arith);
    }
    let (day, seconds) = local_reading(ts);
    let hhmm = hhmm_of(seconds);
    let c = LocalClock { day, hhmm, seconds };
    proof {
        let off = choose|off: int| #[trigger] reading_of(ts as int, off, day as int, seconds as int);
        assert(reading_of(ts as int, off, c.day as int, c.seconds as int));
        assert(c.day == local_day_number(ts as int, off));
    }
    Some(c)
}

/// Whether unix second `t` shows `seconds` past midnight of local day `day`
/// on a clock less than a day off UTC.
pub open spec fn wall_time(t: int, day: int, seconds: int) -> bool {
    exists|off: int| #[trigger] reading_of(t, off, day, seconds)
}

/// Seconds past midnight of a day's last second, 23:59:59.
pub const LAST_SECOND: u32 = 86399;

/// `chrono::Local::from_local_datetime` at `seconds` past midnight of `day`:
/// the unix second that wall time names, the earliest one when the wall
/// clock repeats, or `None` when it does not exist that day. The offset
/// depends on the machine's time zone; the contract states what chrono's
/// source shows of every outcome: the instant reads that wall time on a
/// clock less than a day off UTC (a `FixedOffset`), and there is none for a
/// day number that is not one of chrono's dates.
#[verifier::external_body]
pub(crate) fn local_instant(day: i32, seconds: u32) -> (r: Option<i64>)
    requires
        seconds < 86400,
    ensures
        r is Some ==> chrono_day(day),
        r matches Some(t) ==> wall_time(t as int, day as int, seconds as int),
{
    chrono::NaiveDate::from_num_days_from_ce_opt(day)
        .zip(chrono::NaiveTime::from_num_seconds_from_midnight_opt(seconds, 0))
        .map(|(d, t)| d.and_time(t))
        .and_then(|dt| chrono::Local.from_local_datetime(&dt).earliest())
        .map(|l| l.timestamp())
}

/// `chrono::Local::from_local_datetime` at `seconds` past midnight of `day`,
/// when that wall time names exactly one instant (`LocalResult::single`):
/// its unix second. As for `local_instant`, the instant reads that wall time
/// on a clock less than a day off UTC.
#[verifier::external_body]
pub(crate) fn unique_local_instant(day: i32, seconds: u32) -> (r: Option<i64>)
    requires
        seconds < 86400,
    ensures
        r is Some ==> chrono_day(day),
        r matches Some(t) ==> wall_time(t as int, day as int, seconds as int),
{
    chrono::NaiveDate::from_num_days_from_ce_opt(day)
        .zip(chrono::NaiveTime::from_num_seconds_from_midnight_opt(seconds, 0))
        .map(|(d, t)| d.and_time(t))
        .and_then(|dt| chrono::Local.from_local_datetime(&dt).single())
        .map(|l| l.timestamp())
}

/// Milliseconds since the Unix epoch from std's `SystemTime::now()` (0 for a
/// clock set before 1970). Depends on the clock, so nothing is promised of
/// it.
#[verifier::external_body]
pub fn now() -> (r: i64)
{
    std::time::SystemTime::now().duration_since(std::time::UNIX_EPOCH).unwrap_or_default().as_millis() as i64
}

} // verus!
