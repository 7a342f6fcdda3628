use chrono::TimeZone;
use recover::model::{Filters, Run, Timestamp};
use recover::query::{finish_lookup, lookup_index, missing_index_message, query_plan, select_runs, IdLookup, SqlValue};

fn ts(y: i32, mo: u32, d: u32) -> Timestamp {
    let t = chrono::Utc.with_ymd_and_hms(y, mo, d, 12, 0, 0).unwrap();
    Timestamp { secs: t.timestamp(), nanos: 0 }
}

fn mk(id: i64, command: &str, output: &[u8], exit: i32, day: u32) -> Run {
    Run {
        id,
        command: command.to_string(),
        output: output.to_vec(),
        exit_code: Some(exit),
        signal: None,
        started_at: ts(2026, 9, day),
        finished_at: ts(2026, 9, day),
        duration_ms: 0,
        cwd: None,
        host: None,
        shell: None,
        comment: None,
    }
}

/// As the database hands them back, newest first.
fn seeded() -> Vec<Run> {
    vec![
        mk(3, "git push", b"done", 0, 18),
        mk(2, "cargo build", b"error: panic here", 101, 15),
        mk(1, "git status", b"clean", 0, 10),
    ]
}

fn commands(runs: &[Run]) -> Vec<&str> {
    runs.iter().map(|r| r.command.as_str()).collect()
}

#[test]
fn select_without_filters_keeps_order() {
    let runs = select_runs(seeded(), &Filters::default()).unwrap();
    assert_eq!(commands(&runs), vec!["git push", "cargo build", "git status"]);
}

#[test]
fn query_cmd_regex_matches_command_only() {
    let f = Filters { cmd_re: Some("git".into()), ..Default::default() };
    assert_eq!(commands(&select_runs(seeded(), &f).unwrap()), vec!["git push", "git status"]);
}

#[test]
fn query_out_regex_matches_output_only() {
    let f = Filters { out_re: Some("panic".into()), ..Default::default() };
    assert_eq!(commands(&select_runs(seeded(), &f).unwrap()), vec!["cargo build"]);
}

#[test]
fn query_reg_regex_matches_command_or_output() {
    let f = Filters { reg_re: Some("done|panic".into()), ..Default::default() };
    assert_eq!(commands(&select_runs(seeded(), &f).unwrap()), vec!["git push", "cargo build"]);
}

#[test]
fn query_limit_caps_after_ordering_and_zero_means_all() {
    let two = Filters { limit: Some(2), ..Default::default() };
    assert_eq!(commands(&select_runs(seeded(), &two).unwrap()), vec!["git push", "cargo build"]);
    let all = Filters { limit: Some(0), ..Default::default() };
    assert_eq!(select_runs(seeded(), &all).unwrap().len(), 3);
    let one = Filters { cmd_re: Some("git".into()), limit: Some(1), ..Default::default() };
    assert_eq!(commands(&select_runs(seeded(), &one).unwrap()), vec!["git push"]);
}

#[test]
fn query_strips_ansi_before_matching_output() {
    let runs = vec![mk(1, "colorcmd", b"\x1b[31mred\x1b[0m", 0, 12)];
    let f = Filters { out_re: Some("^red$".into()), ..Default::default() };
    assert_eq!(commands(&select_runs(runs, &f).unwrap()), vec!["colorcmd"]);
}

#[test]
fn query_com_regex_matches_comment() {
    let mut runs = seeded();
    runs[2].comment = Some("keep: prod deploy".into());
    runs[0].comment = Some("scratch".into());
    let f = Filters { com_re: Some("^keep:".into()), ..Default::default() };
    assert_eq!(commands(&select_runs(runs, &f).unwrap()), vec!["git status"]);
    let empty = Filters { com_re: Some("^$".into()), ..Default::default() };
    assert_eq!(commands(&select_runs(seeded(), &empty).unwrap()).len(), 3);
}

#[test]
fn select_reports_an_invalid_pattern() {
    let f = Filters { cmd_re: Some("(".into()), ..Default::default() };
    assert!(select_runs(seeded(), &f).is_err());
    let g = Filters { com_re: Some("[".into()), ..Default::default() };
    assert!(select_runs(Vec::new(), &g).is_err());
}

#[test]
fn plan_without_filters_selects_all_newest_first() {
    let p = query_plan(&Filters::default());
    assert_eq!(
        p.sql,
        "SELECT id, command, output, exit_code, signal, started_at, finished_at, duration_ms, cwd, host, shell, comment FROM runs ORDER BY id DESC"
    );
    assert!(p.params.is_empty());
}

#[test]
fn plan_binds_dates_and_exit_in_order() {
    let f = Filters { after: Some(ts(2026, 9, 14)), before: Some(ts(2026, 9, 16)), exit: Some(0), ..Default::default() };
    let p = query_plan(&f);
    assert!(p.sql.ends_with(" FROM runs WHERE started_at >= ? AND started_at < ? AND exit_code = ? ORDER BY id DESC"));
    assert_eq!(p.params.len(), 3);
    match &p.params[0] {
        SqlValue::Text(t) => assert_eq!(t, "2026-09-14T12:00:00.000Z"),
        SqlValue::Integer(_) => panic!("expected text"),
    }
    match &p.params[2] {
        SqlValue::Integer(i) => assert_eq!(*i, 0),
        SqlValue::Text(_) => panic!("expected integer"),
    }
    let only_exit = query_plan(&Filters { exit: Some(7), ..Default::default() });
    assert!(only_exit.sql.ends_with(" FROM runs WHERE exit_code = ? ORDER BY id DESC"));
}

#[test]
fn indices_resolve_to_ids_or_offsets() {
    assert!(matches!(lookup_index(2, true), IdLookup::Id(2)));
    assert!(matches!(lookup_index(-1, true), IdLookup::Offset(0)));
    assert!(matches!(lookup_index(-3, true), IdLookup::Offset(2)));
    match lookup_index(0, true) {
        IdLookup::Invalid(m) => assert_eq!(m, "index 0 is not valid; use a positive id, or -1 for the most recent run"),
        _ => panic!("0 must be invalid"),
    }
    assert!(matches!(lookup_index(-1, false), IdLookup::Invalid(_)));
    assert!(matches!(lookup_index(4, false), IdLookup::Id(4)));
    assert_eq!(missing_index_message(-4, 3), "no run at index -4 (history has 3 runs)");
}

#[test]
fn offsets_finish_with_the_found_id_or_the_count() {
    assert_eq!(finish_lookup(-2, Some(2), 0), Ok(2));
    assert_eq!(finish_lookup(-4, None, 3), Err("no run at index -4 (history has 3 runs)".to_string()));
}
