use chrono::TimeZone;
use recover::model::Timestamp;
use recover::timequery::{parse_instant, try_parse_instant};

fn at(y: i32, mo: u32, d: u32, h: u32, mi: u32, s: u32) -> Timestamp {
    let t = chrono::Utc.with_ymd_and_hms(y, mo, d, h, mi, s).unwrap();
    Timestamp { secs: t.timestamp(), nanos: 0 }
}

/// Parse with shortcuts enabled (quick mode).
fn p(expr: &str, now: Timestamp) -> Result<Timestamp, String> {
    parse_instant(expr, now, true)
}

#[test]
fn today_is_midnight_of_now() {
    let now = at(2026, 9, 19, 14, 30, 0);
    assert_eq!(p("today", now).unwrap(), at(2026, 9, 19, 0, 0, 0));
}

#[test]
fn today_minus_five_days() {
    let now = at(2026, 9, 19, 14, 30, 0);
    assert_eq!(p("today-5day", now).unwrap(), at(2026, 9, 14, 0, 0, 0));
}

#[test]
fn now_keeps_wall_clock() {
    let now = at(2026, 9, 19, 14, 30, 0);
    assert_eq!(p("now", now).unwrap(), now);
}

#[test]
fn now_minus_two_hours() {
    let now = at(2026, 9, 19, 14, 30, 0);
    assert_eq!(p("now-2h", now).unwrap(), at(2026, 9, 19, 12, 30, 0));
}

#[test]
fn iso_date_anchor_is_that_days_midnight() {
    let now = at(2026, 9, 19, 14, 30, 0);
    assert_eq!(p("2026-09-01", now).unwrap(), at(2026, 9, 1, 0, 0, 0));
}

#[test]
fn iso_date_plus_five_days_keeps_internal_dashes() {
    let now = at(2026, 9, 19, 14, 30, 0);
    assert_eq!(p("2026-09-01+5day", now).unwrap(), at(2026, 9, 6, 0, 0, 0));
}

#[test]
fn calendar_month_arithmetic() {
    let now = at(2026, 1, 31, 10, 0, 0);
    assert_eq!(p("today-1month", now).unwrap(), at(2025, 12, 31, 0, 0, 0));
}

#[test]
fn year_arithmetic() {
    let now = at(2026, 9, 19, 14, 30, 0);
    assert_eq!(p("today+1year", now).unwrap(), at(2027, 9, 19, 0, 0, 0));
}

#[test]
fn bare_duration_defaults_to_today_minus_for_days() {
    let now = at(2026, 9, 19, 14, 30, 0);
    assert_eq!(p("3day", now).unwrap(), at(2026, 9, 16, 0, 0, 0));
    assert_eq!(p("1week", now).unwrap(), at(2026, 9, 12, 0, 0, 0));
    assert_eq!(p("-3day", now).unwrap(), at(2026, 9, 16, 0, 0, 0));
    assert_eq!(p("+3day", now).unwrap(), at(2026, 9, 22, 0, 0, 0));
}

#[test]
fn bare_hours_anchor_from_now() {
    let now = at(2026, 9, 19, 14, 30, 0);
    assert_eq!(p("2h", now).unwrap(), at(2026, 9, 19, 12, 30, 0));
    assert_eq!(p("-90min", now).unwrap(), at(2026, 9, 19, 13, 0, 0));
    assert_eq!(p("3day", now).unwrap(), at(2026, 9, 16, 0, 0, 0));
}

#[test]
fn standard_mode_rejects_shortcuts_but_allows_explicit() {
    let now = at(2026, 9, 19, 14, 30, 0);
    assert!(parse_instant("3day", now, false).is_err());
    assert!(parse_instant("-3day", now, false).is_err());
    assert!(parse_instant("2h", now, false).is_err());
    assert_eq!(parse_instant("today-3day", now, false).unwrap(), at(2026, 9, 16, 0, 0, 0));
    assert_eq!(parse_instant("now-2h", now, false).unwrap(), at(2026, 9, 19, 12, 30, 0));
}

#[test]
fn garbage_is_an_error() {
    let now = at(2026, 9, 19, 14, 30, 0);
    assert!(p("bogus", now).is_err());
    assert!(p("today-5furlong", now).is_err());
}

#[test]
fn error_messages_are_exact() {
    let now = at(2026, 9, 19, 14, 30, 0);
    assert_eq!(p("   ", now).unwrap_err(), "empty date expression");
    assert_eq!(p("bogus", now).unwrap_err(), "unrecognized date anchor: bogus");
    assert_eq!(p("today-5furlong", now).unwrap_err(), "unrecognized time unit: furlong");
    assert_eq!(
        parse_instant(" 3day ", now, false).unwrap_err(),
        "bare duration `3day` needs quick mode; use e.g. today-3day"
    );
    assert_eq!(
        parse_instant("-3day", now, false).unwrap_err(),
        "date `-3day` needs an explicit anchor in standard mode (e.g. today-3day)"
    );
    assert_eq!(
        p("today-99999999999999999999day", now).unwrap_err(),
        "number too large: 99999999999999999999"
    );
    assert_eq!(p("today-٣day", now).unwrap_err(), "number too large: ٣");
}

#[test]
fn anchors_and_units_in_any_case() {
    let now = at(2026, 9, 19, 14, 30, 0);
    assert_eq!(p("yesterday", now).unwrap(), at(2026, 9, 18, 0, 0, 0));
    assert_eq!(p("tomorrow", now).unwrap(), at(2026, 9, 20, 0, 0, 0));
    assert_eq!(p("now - 30 S", now).unwrap(), at(2026, 9, 19, 14, 29, 30));
    assert_eq!(p("today + 2 Weeks", now).unwrap(), at(2026, 10, 3, 0, 0, 0));
    assert_eq!(p("2026-09-01T10:00:00+02:00", now).unwrap(), at(2026, 9, 1, 8, 0, 0));
    assert_eq!(p("2026-09-01T10:00:00Z-1hr", now).unwrap(), at(2026, 9, 1, 9, 0, 0));
    assert_eq!(p("1y", now).unwrap(), at(2025, 9, 19, 0, 0, 0));
}

#[test]
fn huge_spans_are_refused_before_the_call() {
    let now = at(2026, 9, 19, 14, 30, 0);
    assert!(try_parse_instant("now-9999999999999999s", now, true).is_none());
    assert!(try_parse_instant("today+999999999999999week", now, true).is_none());
    assert!(try_parse_instant("today+400000000year", now, true).is_none());
    assert_eq!(
        try_parse_instant("bogus-9999999999999999s", now, true),
        Some(Err("unrecognized date anchor: bogus".to_string()))
    );
    assert_eq!(
        try_parse_instant("today+999999999day", now, true),
        Some(Err("date arithmetic overflow".to_string()))
    );
}
