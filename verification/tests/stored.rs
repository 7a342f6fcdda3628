use recover::model::Timestamp;
use recover::stored::{run_from_row, stored_text, ts_valid};

#[test]
fn validity_follows_chrono_range_and_leap_seconds() {
    assert!(ts_valid(Timestamp { secs: 0, nanos: 0 }));
    assert!(ts_valid(Timestamp { secs: 59, nanos: 1_500_000_000 }));
    assert!(!ts_valid(Timestamp { secs: 58, nanos: 1_500_000_000 }));
    assert!(ts_valid(Timestamp { secs: -1, nanos: 1_000_000_000 }));
    assert!(!ts_valid(Timestamp { secs: 0, nanos: 2_000_000_000 }));
    assert!(ts_valid(Timestamp { secs: 8210266876799, nanos: 0 }));
    assert!(!ts_valid(Timestamp { secs: 8210266876800, nanos: 0 }));
    assert!(ts_valid(Timestamp { secs: -8334601315200, nanos: 0 }));
    assert!(!ts_valid(Timestamp { secs: -8334601315201, nanos: 0 }));
}

#[test]
fn stored_text_has_milliseconds_and_z() {
    assert_eq!(stored_text(Timestamp { secs: 1789828200, nanos: 123_456_789 }), "2026-09-19T14:30:00.123Z");
}

#[test]
fn rows_read_back_their_instants() {
    let r = run_from_row(
        3, "echo".into(), b"hi".to_vec(), Some(0), None,
        "2026-09-19T14:30:00.123Z", "2026-09-19T14:30:01.000Z", 877,
        None, None, None, Some("note".into()),
    )
    .unwrap();
    assert_eq!(r.started_at, Timestamp { secs: 1789828200, nanos: 123_000_000 });
    assert_eq!(r.finished_at, Timestamp { secs: 1789828201, nanos: 0 });
    assert_eq!(r.comment.as_deref(), Some("note"));
    let bad = run_from_row(1, "x".into(), vec![], None, None, "2026-09-19T14:30:00Z", "later", 0, None, None, None, None);
    assert!(matches!(bad, Err((6, _))));
    let bad = run_from_row(1, "x".into(), vec![], None, None, "soon", "later", 0, None, None, None, None);
    assert!(matches!(bad, Err((5, _))));
}
