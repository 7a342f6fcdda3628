//! How runs are kept in the database: instants as RFC 3339 text with milliseconds, read
//! back from that text, and the rows that the query's date and exit conditions keep.

use vstd::prelude::*;
use crate::calendar::{format_millis, parse_rfc3339, rfc3339_millis, rfc3339_parsed, ts_of};
use crate::filter::FiltersView;
use crate::model::{min_secs, valid_ts, Run, Timestamp};

verus! {

/// Whether chrono can hold `t` (what rendering and storing an instant require).
pub fn ts_valid(t: Timestamp) -> (b: bool)
    ensures
        b == valid_ts(t),
{
    if t.secs < -8334601315200 || t.secs > 8210266876799 || t.nanos >= 2_000_000_000 {
        return false;
    }
    if t.nanos < 1_000_000_000 {
        return true;
    }
    let shifted = (t.secs + 8334601315200) as u64;
    assert(t.secs % 60 == 59 <==> shifted % 60 == 59) by {
        assert(shifted == t.secs - min_secs());
        assert(min_secs() % 60 == 0);
    }
    shifted % 60 == 59
}

/// The text an instant is stored and compared in: `2026-09-19T14:30:00.000Z`.
pub fn stored_text(t: Timestamp) -> (s: String)
    requires
        valid_ts(t),
    ensures
        s@ == rfc3339_millis(t.secs, t.nanos),
{
    format_millis(t)
}

/// The run a stored row holds: both instants parsed from their stored text, the other
/// columns as they are; on a bad instant, its column (5, then 6) and chrono's message.
pub fn run_from_row(
    id: i64,
    command: String,
    output: Vec<u8>,
    exit_code: Option<i32>,
    signal: Option<String>,
    started: &str,
    finished: &str,
    duration_ms: i64,
    cwd: Option<String>,
    host: Option<String>,
    shell: Option<String>,
    comment: Option<String>,
) -> (r: Result<Run, (usize, String)>)
    ensures
        match (rfc3339_parsed(started@), rfc3339_parsed(finished@)) {
            (Err(m), _) => r matches Err((c, e)) && c == 5 && e@ == m,
            (Ok(_), Err(m)) => r matches Err((c, e)) && c == 6 && e@ == m,
            (Ok(s), Ok(f)) => r matches Ok(run) && run.id == id && run.command == command
                && run.output == output && run.exit_code == exit_code && run.signal == signal
                && run.started_at == ts_of(s) && run.finished_at == ts_of(f)
                && run.duration_ms == duration_ms && run.cwd == cwd && run.host == host
                && run.shell == shell && run.comment == comment,
        },
{
    let started_at = match parse_rfc3339(started) {
        Ok(t) => t,
        Err(e) => return Err((5, e)),
    };
    let finished_at = match parse_rfc3339(finished) {
        Ok(t) => t,
        Err(e) => return Err((6, e)),
    };
    Ok(Run {
        id,
        command,
        output,
        exit_code,
        signal,
        started_at,
        finished_at,
        duration_ms,
        cwd,
        host,
        shell,
        comment,
    })
}

/// Whether text `a` sorts before text `b` character by character, a proper prefix first
/// (the order SQL's default text comparison gives; for characters it is the order of their
/// UTF-8 bytes).
pub open spec fn text_lt(a: Seq<char>, b: Seq<char>) -> bool
    decreases a.len(),
{
    if a.len() == 0 {
        b.len() > 0
    } else if b.len() == 0 {
        false
    } else if a[0] != b[0] {
        a[0] < b[0]
    } else {
        text_lt(a.drop_first(), b.drop_first())
    }
}

/// Whether the query's SQL conditions keep a row whose start is stored as `start` and
/// whose exit code is `exit`: the stored start at or after the lower bound's stored text,
/// before the upper bound's, and the exit code equal (a row without one never is).
pub open spec fn sql_keeps(start: Seq<char>, exit: Option<i32>, f: FiltersView) -> bool {
    &&& f.after matches Some(t) ==> !text_lt(start, rfc3339_millis(t.secs, t.nanos))
    &&& f.before matches Some(t) ==> text_lt(start, rfc3339_millis(t.secs, t.nanos))
    &&& f.exit matches Some(x) ==> exit == Some(x)
}

/// The runs of `rows` (each with the text its start is stored as) that the SQL conditions
/// keep, in the given order.
pub open spec fn sql_rows(rows: Seq<(Run, Seq<char>)>, f: FiltersView) -> Seq<Run>
    decreases rows.len(),
{
    if rows.len() == 0 {
        Seq::empty()
    } else {
        let r = rows.last();
        let before = sql_rows(rows.drop_last(), f);
        if sql_keeps(r.1, r.0.exit_code, f) { before.push(r.0) } else { before }
    }
}

/// The runs of `rows` that every filter keeps: the SQL conditions and the patterns.
pub open spec fn query_rows(rows: Seq<(Run, Seq<char>)>, f: FiltersView) -> Seq<Run>
    decreases rows.len(),
{
    if rows.len() == 0 {
        Seq::empty()
    } else {
        let r = rows.last();
        let before = query_rows(rows.drop_last(), f);
        if sql_keeps(r.1, r.0.exit_code, f) && crate::query::passes(r.0, f) {
            before.push(r.0)
        } else {
            before
        }
    }
}

} // verus!
