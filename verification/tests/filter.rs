use chrono::TimeZone;
use recover::filter::{parse, try_parse};
use recover::model::Timestamp;

fn at(y: i32, mo: u32, d: u32, h: u32, mi: u32, s: u32) -> Timestamp {
    let t = chrono::Utc.with_ymd_and_hms(y, mo, d, h, mi, s).unwrap();
    Timestamp { secs: t.timestamp(), nanos: 0 }
}

fn now() -> Timestamp {
    at(2026, 9, 19, 14, 30, 0)
}

fn toks(s: &[&str]) -> Vec<String> {
    s.iter().map(|t| t.to_string()).collect()
}

#[test]
fn parses_regex_sources() {
    let f = parse(&toks(&["cmd:git", "out:panic", "reg:foo", "com:bar"]), now(), true).unwrap();
    assert_eq!(f.cmd_re.as_deref(), Some("git"));
    assert_eq!(f.out_re.as_deref(), Some("panic"));
    assert_eq!(f.reg_re.as_deref(), Some("foo"));
    assert_eq!(f.com_re.as_deref(), Some("bar"));
}

#[test]
fn date_window_sets_inclusive_after_only() {
    let f = parse(&toks(&["date:today-5day"]), now(), true).unwrap();
    assert_eq!(f.after, Some(at(2026, 9, 14, 0, 0, 0)));
    assert_eq!(f.before, None);
}

#[test]
fn date_range_is_half_open() {
    let f = parse(&toks(&["date:2026-09-01..2026-09-10"]), now(), true).unwrap();
    assert_eq!(f.after, Some(at(2026, 9, 1, 0, 0, 0)));
    assert_eq!(f.before, Some(at(2026, 9, 10, 0, 0, 0)));
}

#[test]
fn one_sided_before_and_after() {
    let f = parse(&toks(&["date.after:yesterday", "date.before:today"]), now(), true).unwrap();
    assert_eq!(f.after, Some(at(2026, 9, 18, 0, 0, 0)));
    assert_eq!(f.before, Some(at(2026, 9, 19, 0, 0, 0)));
}

#[test]
fn exit_and_limit() {
    let f = parse(&toks(&["exit:3", "limit:20"]), now(), true).unwrap();
    assert_eq!(f.exit, Some(3));
    assert_eq!(f.limit, Some(20));
    assert_eq!(parse(&toks(&["limit:0"]), now(), true).unwrap().limit, Some(0));
}

#[test]
fn regex_value_may_contain_a_colon() {
    let f = parse(&toks(&["cmd:foo:bar"]), now(), true).unwrap();
    assert_eq!(f.cmd_re.as_deref(), Some("foo:bar"));
}

#[test]
fn unknown_key_and_bad_token_error() {
    assert!(parse(&toks(&["bogus:x"]), now(), true).is_err());
    assert!(parse(&toks(&["nocolon"]), now(), true).is_err());
    assert!(parse(&toks(&["exit:notanumber"]), now(), true).is_err());
}

#[test]
fn standard_mode_rejects_bare_duration_but_allows_explicit() {
    assert!(parse(&toks(&["date:3day"]), now(), false).is_err());
    let f = parse(&toks(&["date:today-3day"]), now(), false).unwrap();
    assert_eq!(f.after, Some(at(2026, 9, 16, 0, 0, 0)));
}

#[test]
fn filter_error_messages_are_exact() {
    assert_eq!(parse(&toks(&["bogus:x"]), now(), true).unwrap_err(), "unknown filter key: bogus");
    assert_eq!(parse(&toks(&["nocolon"]), now(), true).unwrap_err(), "not a filter (expected key:value): nocolon");
    assert_eq!(parse(&toks(&["exit:x1"]), now(), true).unwrap_err(), "invalid exit code: x1");
    assert_eq!(parse(&toks(&["limit:-1"]), now(), true).unwrap_err(), "invalid limit: -1");
    assert_eq!(parse(&toks(&["exit:2147483648"]), now(), true).unwrap_err(), "invalid exit code: 2147483648");
}

#[test]
fn numbers_take_signs_as_std_does() {
    assert_eq!(parse(&toks(&["exit:-2147483648"]), now(), true).unwrap().exit, Some(i32::MIN));
    assert_eq!(parse(&toks(&["exit:+7"]), now(), true).unwrap().exit, Some(7));
    assert_eq!(parse(&toks(&["limit:+5"]), now(), true).unwrap().limit, Some(5));
    assert!(parse(&toks(&["exit:-"]), now(), true).is_err());
    assert!(parse(&toks(&["limit:"]), now(), true).is_err());
}

#[test]
fn later_tokens_override_and_first_error_wins() {
    let f = parse(&toks(&["cmd:a", "cmd:b", "date:today", "date.after:yesterday"]), now(), true).unwrap();
    assert_eq!(f.cmd_re.as_deref(), Some("b"));
    assert_eq!(f.after, Some(at(2026, 9, 18, 0, 0, 0)));
    assert_eq!(parse(&toks(&["x", "bogus:y"]), now(), true).unwrap_err(), "not a filter (expected key:value): x");
    assert_eq!(parse(&[], now(), true).unwrap(), recover::model::Filters::default());
}

#[test]
fn panicking_dates_are_refused_by_try_parse() {
    assert!(try_parse(&toks(&["date:now-9999999999999999s"]), now(), true).is_none());
    assert_eq!(
        try_parse(&toks(&["bogus:x", "date:now-9999999999999999s"]), now(), true),
        Some(Err("unknown filter key: bogus".to_string()))
    );
}

#[test]
fn date_range_equals_two_bounds() {
    let range = parse(&toks(&["date:2026-09-01..today-2day"]), now(), true).unwrap();
    let bounds = parse(&toks(&["date.after:2026-09-01", "date.before:today-2day"]), now(), true).unwrap();
    assert_eq!(range, bounds);
    let bad = parse(&toks(&["date:2026-09-01..bogus"]), now(), true).unwrap_err();
    let bad2 = parse(&toks(&["date.after:2026-09-01", "date.before:bogus"]), now(), true).unwrap_err();
    assert_eq!(bad, bad2);
}
