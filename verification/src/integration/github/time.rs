//! Instants and calendar dates as plain values, and the parsers for the
//! textual forms the GitHub APIs use.

use vstd::prelude::*;
use chrono::Datelike;

verus! {

/// An instant: whole seconds since the Unix epoch and the nanoseconds past
/// that second (`DateTime::timestamp`, `DateTime::timestamp_subsec_nanos`).
#[derive(Debug, Clone, Copy, PartialEq, Eq, Structural)]
pub struct Timestamp {
    pub secs: i64,
    pub nanos: u32,
}

/// A calendar date in the proleptic Gregorian calendar.
#[derive(Debug, Clone, Copy, PartialEq, Eq, Structural)]
pub struct Date {
    pub year: i32,
    pub month: u32,
    pub day: u32,
}

/// The instant in nanoseconds since the epoch.
pub open spec fn nanos_of(t: Timestamp) -> int {
    t.secs * 1_000_000_000 + t.nanos
}

/// `a` is no later than `b`.
pub open spec fn no_later(a: Timestamp, b: Timestamp) -> bool {
    a.secs < b.secs || (a.secs == b.secs && a.nanos <= b.nanos)
}

/// Whether `a` is strictly earlier than `b`.
pub fn earlier(a: &Timestamp, b: &Timestamp) -> (r: bool)
    ensures
        r == !no_later(*b, *a),
{
    a.secs < b.secs || (a.secs == b.secs && a.nanos < b.nanos)
}

/// The seconds elapsed from `then` to `now`, truncated toward zero
/// (`(now - then).num_seconds()`).
pub open spec fn elapsed_secs(now: Timestamp, then: Timestamp) -> int {
    let d = nanos_of(now) - nanos_of(then);
    if d >= 0 {
        d / 1_000_000_000
    } else {
        -((-d) / 1_000_000_000)
    }
}

/// Instants within the range of calendar dates the parsers produce.
pub open spec fn in_range(t: Timestamp) -> bool {
    -0x1000_0000_0000 < t.secs < 0x1000_0000_0000 && t.nanos < 2_000_000_000
}

/// The whole seconds elapsed from `then` to `now`.
pub fn seconds_between(now: Timestamp, then: Timestamp) -> (r: i64)
    requires
        in_range(now),
        in_range(then),
    ensures
        r == elapsed_secs(now, then),
{
    let d: i128 = (now.secs as i128 - then.secs as i128) * 1_000_000_000 + (now.nanos as i128
        - then.nanos as i128);
    assert(d == nanos_of(now) - nanos_of(then));
    let q: i128 = if d >= 0 {
        d / 1_000_000_000
    } else {
        -((-d) / 1_000_000_000)
    };
    q as i64
}

/// What `s.parse::<DateTime<Utc>>()` gives for `s`: the instant as whole
/// epoch seconds and subsecond nanoseconds, or `None` when `s` is not a
/// date-time it accepts (a relaxed RFC 3339 form).
pub uninterp spec fn utc_parse(s: Seq<char>) -> Option<(i64, u32)>;

/// What `DateTime::parse_from_rfc3339(s)` converted to UTC gives for `s`.
pub uninterp spec fn rfc3339_parse(s: Seq<char>) -> Option<(i64, u32)>;

/// What `NaiveDate::parse_from_str(s, "%Y-%m-%d")` gives for `s`: the year,
/// month and day, or the text of the parse error.
pub uninterp spec fn ymd_parse(s: Seq<char>) -> Result<(i32, u32, u32), Seq<char>>;

/// The timestamp a parse result stands for.
pub open spec fn stamp(p: Option<(i64, u32)>) -> Option<Timestamp> {
    match p {
        Some((secs, nanos)) => Some(Timestamp { secs, nanos }),
        None => None,
    }
}

/// Parses an instant the way `str::parse::<DateTime<Utc>>` does.
///
/// Trusted: chrono's `FromStr` for `DateTime<Utc>`; the result is
/// `utc_parse` of the text, a function of the text alone, and lies within
/// chrono's date range.
#[verifier::external_body]
pub fn parse_utc(s: &str) -> (r: Option<Timestamp>)
    ensures
        r == stamp(utc_parse(s@)),
        r matches Some(t) ==> in_range(t),
{
    match s.parse::<chrono::DateTime<chrono::Utc>>() {
        Ok(dt) => Some(Timestamp { secs: dt.timestamp(), nanos: dt.timestamp_subsec_nanos() }),
        Err(_) => None,
    }
}

/// Parses an RFC 3339 instant with any UTC offset.
///
/// Trusted: chrono's `DateTime::parse_from_rfc3339` followed by
/// `to_utc`; the result is `rfc3339_parse` of the text, a function of the
/// text alone, and lies within chrono's date range.
#[verifier::external_body]
pub fn parse_rfc3339(s: &str) -> (r: Option<Timestamp>)
    ensures
        r == stamp(rfc3339_parse(s@)),
        r matches Some(t) ==> in_range(t),
{
    match chrono::DateTime::parse_from_rfc3339(s) {
        Ok(dt) => {
            let utc = dt.to_utc();
            Some(Timestamp { secs: utc.timestamp(), nanos: utc.timestamp_subsec_nanos() })
        },
        Err(_) => None,
    }
}

/// The date a parse result stands for, or the error text.
pub open spec fn date_of(p: Result<(i32, u32, u32), Seq<char>>) -> Result<Date, Seq<char>> {
    match p {
        Ok((year, month, day)) => Ok(Date { year, month, day }),
        Err(e) => Err(e),
    }
}

/// A date parse outcome with the error read as its text.
pub open spec fn date_view(r: Result<Date, String>) -> Result<Date, Seq<char>> {
    match r {
        Ok(d) => Ok(d),
        Err(e) => Err(e@),
    }
}

/// Parses a `YYYY-MM-DD` date.
///
/// Trusted: chrono's `NaiveDate::parse_from_str` with the format
/// `"%Y-%m-%d"`; the result, the date or the error's text, is `ymd_parse`
/// of the input, a function of the text alone.
#[verifier::external_body]
pub fn parse_ymd(s: &str) -> (r: Result<Date, String>)
    ensures
        date_view(r) == date_of(ymd_parse(s@)),
{
    match chrono::NaiveDate::parse_from_str(s, "%Y-%m-%d") {
        Ok(d) => Ok(Date { year: d.year(), month: d.month(), day: d.day() }),
        Err(e) => Err(e.to_string()),
    }
}

} // verus!
