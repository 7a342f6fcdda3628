use chrono::TimeZone;
use recover::archive::{export_record, import_record};
use recover::model::{Run, Timestamp};

fn sample() -> Run {
    let t = chrono::Utc.with_ymd_and_hms(2026, 9, 19, 14, 30, 0).unwrap();
    Run {
        id: 9,
        command: "echo hello".to_string(),
        output: vec![b'h', b'i', 0xFF, b'\n'],
        exit_code: Some(0),
        signal: None,
        started_at: Timestamp { secs: t.timestamp(), nanos: 123_000_000 },
        finished_at: Timestamp { secs: t.timestamp() + 1, nanos: 0 },
        duration_ms: 1000,
        cwd: Some("/tmp".to_string()),
        host: None,
        shell: Some("/bin/bash".to_string()),
        comment: Some("note".to_string()),
    }
}

#[test]
fn export_writes_base64_and_rfc3339() {
    let e = export_record(sample());
    assert_eq!(e.id, 9);
    assert_eq!(e.output_b64, "aGn/Cg==");
    assert_eq!(e.started_at, "2026-09-19T14:30:00.123+00:00");
    assert_eq!(e.finished_at, "2026-09-19T14:30:01+00:00");
}

#[test]
fn export_then_import_gives_the_run_back() {
    let run = sample();
    let back = import_record(export_record(run.clone())).unwrap();
    assert_eq!(back.command, run.command);
    assert_eq!(back.output, run.output);
    assert_eq!(back.started_at, run.started_at);
    assert_eq!(back.finished_at, run.finished_at);
    assert_eq!(back.comment, run.comment);
    assert_eq!(back.cwd, run.cwd);
}

#[test]
fn import_reports_bad_fields() {
    let mut e = export_record(sample());
    e.output_b64 = "!!".to_string();
    assert!(import_record(e).is_err());
    let mut e = export_record(sample());
    e.started_at = "yesterday".to_string();
    assert!(import_record(e).is_err());
}
