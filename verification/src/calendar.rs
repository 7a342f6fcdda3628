//! Calendar arithmetic and date parsing, done by chrono on plain timestamps.

use vstd::prelude::*;
use crate::model::{max_secs, min_secs, valid_ts, Timestamp};

verus! {

/// The instant that `NaiveDate::parse_from_str(s, "%Y-%m-%d")` gives, at midnight UTC.
pub uninterp spec fn ymd_midnight(s: Seq<char>) -> Option<(i64, u32)>;

/// What `DateTime::parse_from_rfc3339` makes of `s`: the instant in UTC, or the text of
/// its error.
pub uninterp spec fn rfc3339_parsed(s: Seq<char>) -> Result<(i64, u32), Seq<char>>;

/// What `DateTime::checked_add_signed` gives for `TimeDelta::seconds(delta)`.
pub uninterp spec fn delta_added(secs: i64, nanos: u32, delta: i64) -> Option<(i64, u32)>;

/// What `DateTime::checked_add_months` gives for `Months::new(months)`.
pub uninterp spec fn months_added(secs: i64, nanos: u32, months: u32) -> Option<(i64, u32)>;

/// What `DateTime::checked_sub_months` gives for `Months::new(months)`.
pub uninterp spec fn months_subtracted(secs: i64, nanos: u32, months: u32) -> Option<(i64, u32)>;

/// A timestamp from its two parts.
pub open spec fn ts_of(p: (i64, u32)) -> Timestamp {
    Timestamp { secs: p.0, nanos: p.1 }
}

/// `ts_of` inside an option.
pub open spec fn opt_ts(o: Option<(i64, u32)>) -> Option<Timestamp> {
    match o {
        Some(p) => Some(ts_of(p)),
        None => None,
    }
}

/// The largest number of seconds that `TimeDelta::seconds` accepts either way
/// (`i64::MAX / 1000`).
pub open spec fn max_delta_secs() -> int {
    9_223_372_036_854_775
}

/// Calls `NaiveDate::parse_from_str(s, "%Y-%m-%d")` and takes that day's midnight in UTC.
/// The result is named, not described (chrono's format parser decides what it accepts);
/// whatever it returns is a date chrono can hold.
#[verifier::external_body]
pub(crate) fn parse_ymd(s: &str) -> (r: Option<Timestamp>)
    ensures
        r == opt_ts(ymd_midnight(s@)),
        r matches Some(t) ==> valid_ts(t),
{
    match chrono::NaiveDate::parse_from_str(s, "%Y-%m-%d") {
        Ok(d) => {
            let dt = d.and_hms_opt(0, 0, 0).unwrap().and_utc();
            Some(Timestamp { secs: dt.timestamp(), nanos: dt.timestamp_subsec_nanos() })
        },
        Err(_) => None,
    }
}

/// Calls `DateTime::parse_from_rfc3339` and keeps the instant (the offset is applied), or
/// the error's text. The outcome is named, not described; an instant it returns is one
/// chrono can hold.
#[verifier::external_body]
pub(crate) fn parse_rfc3339(s: &str) -> (r: Result<Timestamp, String>)
    ensures
        match (r, rfc3339_parsed(s@)) {
            (Ok(t), Ok(p)) => t == ts_of(p) && valid_ts(t),
            (Err(e), Err(m)) => e@ == m,
            _ => false,
        },
{
    match chrono::DateTime::parse_from_rfc3339(s) {
        Ok(d) => Ok(Timestamp { secs: d.timestamp(), nanos: d.timestamp_subsec_nanos() }),
        Err(e) => Err(e.to_string()),
    }
}

/// Calls `DateTime::checked_add_signed` with `TimeDelta::seconds(delta)`. Outside a leap
/// second this moves the instant by `delta` seconds, or gives `None` when the result
/// leaves chrono's range; how a leap second moves is left to the name.
#[verifier::external_body]
pub(crate) fn add_seconds(t: Timestamp, delta: i64) -> (r: Option<Timestamp>)
    requires
        valid_ts(t),
        -max_delta_secs() <= delta <= max_delta_secs(),
    ensures
        r == opt_ts(delta_added(t.secs, t.nanos, delta)),
        r matches Some(u) ==> valid_ts(u),
        t.nanos < 1_000_000_000 ==> r == (if min_secs() <= t.secs + delta <= max_secs() {
            Some(Timestamp { secs: (t.secs + delta) as i64, nanos: t.nanos })
        } else {
            None
        }),
{
    let dt = chrono::DateTime::from_timestamp(t.secs, t.nanos).unwrap();
    match dt.checked_add_signed(chrono::TimeDelta::seconds(delta)) {
        Some(d) => Some(Timestamp { secs: d.timestamp(), nanos: d.timestamp_subsec_nanos() }),
        None => None,
    }
}

/// Calls `DateTime::checked_add_months`: calendar months forward, clamping the day to the
/// end of a shorter month. The result is named, not described.
#[verifier::external_body]
pub(crate) fn add_months(t: Timestamp, months: u32) -> (r: Option<Timestamp>)
    requires
        valid_ts(t),
    ensures
        r == opt_ts(months_added(t.secs, t.nanos, months)),
        r matches Some(u) ==> valid_ts(u),
{
    let dt = chrono::DateTime::from_timestamp(t.secs, t.nanos).unwrap();
    match dt.checked_add_months(chrono::Months::new(months)) {
        Some(d) => Some(Timestamp { secs: d.timestamp(), nanos: d.timestamp_subsec_nanos() }),
        None => None,
    }
}

/// Calls `DateTime::checked_sub_months`: calendar months back, clamping the day to the
/// end of a shorter month. The result is named, not described.
#[verifier::external_body]
pub(crate) fn sub_months(t: Timestamp, months: u32) -> (r: Option<Timestamp>)
    requires
        valid_ts(t),
    ensures
        r == opt_ts(months_subtracted(t.secs, t.nanos, months)),
        r matches Some(u) ==> valid_ts(u),
{
    let dt = chrono::DateTime::from_timestamp(t.secs, t.nanos).unwrap();
    match dt.checked_sub_months(chrono::Months::new(months)) {
        Some(d) => Some(Timestamp { secs: d.timestamp(), nanos: d.timestamp_subsec_nanos() }),
        None => None,
    }
}

/// The text that `to_rfc3339_opts(SecondsFormat::Millis, true)` gives for the instant.
pub uninterp spec fn rfc3339_millis(secs: i64, nanos: u32) -> Seq<char>;

/// Calls `DateTime::to_rfc3339_opts(SecondsFormat::Millis, true)`, the form runs are
/// stored and compared in (`2026-09-19T14:30:00.000Z`). The text is named, not described.
#[verifier::external_body]
pub(crate) fn format_millis(t: Timestamp) -> (s: String)
    requires
        valid_ts(t),
    ensures
        s@ == rfc3339_millis(t.secs, t.nanos),
{
    let dt = chrono::DateTime::from_timestamp(t.secs, t.nanos).unwrap();
    dt.to_rfc3339_opts(chrono::SecondsFormat::Millis, true)
}

/// The text that `DateTime::to_rfc3339` gives for the instant.
pub uninterp spec fn rfc3339_text(secs: i64, nanos: u32) -> Seq<char>;

/// A parse outcome that is exactly the instant `t`.
pub open spec fn reads_as(r: Result<(i64, u32), Seq<char>>, t: Timestamp) -> bool {
    r == Ok::<(i64, u32), Seq<char>>((t.secs, t.nanos))
}

/// The first second of year 0 (`0000-01-01T00:00:00Z`).
pub open spec fn year0_secs() -> int {
    -62167219200
}

/// The last second of year 9999 (`9999-12-31T23:59:59Z`).
pub open spec fn year9999_secs() -> int {
    253402300799
}

/// Calls `DateTime::to_rfc3339` on the instant in UTC. The text is named; for years 0 to
/// 9999 (which chrono writes with four digits) `parse_from_rfc3339` reads back the same
/// instant, seconds and nanoseconds (a leap second is written as `:60`).
#[verifier::external_body]
pub(crate) fn format_rfc3339(t: Timestamp) -> (s: String)
    requires
        valid_ts(t),
    ensures
        s@ == rfc3339_text(t.secs, t.nanos),
        year0_secs() <= t.secs <= year9999_secs() ==> reads_as(rfc3339_parsed(s@), t),
{
    let dt = chrono::DateTime::from_timestamp(t.secs, t.nanos).unwrap();
    dt.to_rfc3339()
}

} // verus!
