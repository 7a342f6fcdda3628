//! Core data types shared across modules.

use vstd::prelude::*;

verus! {

/// An instant in UTC: whole seconds since 1970-01-01T00:00:00Z and the nanoseconds
/// past that second (1_000_000_000 or more only during a leap second).
#[derive(Debug, Clone, Copy, PartialEq, Eq, Structural)]
pub struct Timestamp {
    pub secs: i64,
    pub nanos: u32,
}

/// The first second that chrono's `DateTime<Utc>` can hold: -262143-01-01T00:00:00Z.
pub open spec fn min_secs() -> int {
    -8334601315200
}

/// The last second that chrono's `DateTime<Utc>` can hold: +262142-12-31T23:59:59Z.
pub open spec fn max_secs() -> int {
    8210266876799
}

/// A value that chrono's `DateTime::from_timestamp` accepts: within chrono's range, and
/// nanoseconds past one billion only in the last second of a minute (a leap second).
pub open spec fn valid_ts(t: Timestamp) -> bool {
    &&& min_secs() <= t.secs <= max_secs()
    &&& t.nanos < 2_000_000_000
    &&& t.nanos >= 1_000_000_000 ==> t.secs % 60 == 59
}

/// A single recorded command execution.
#[derive(Debug, Clone, PartialEq, Eq)]
pub struct Run {
    pub id: i64,
    pub command: String,
    pub output: Vec<u8>,
    pub exit_code: Option<i32>,
    pub signal: Option<String>,
    pub started_at: Timestamp,
    pub finished_at: Timestamp,
    pub duration_ms: i64,
    pub cwd: Option<String>,
    pub host: Option<String>,
    pub shell: Option<String>,
    pub comment: Option<String>,
}

/// A run ready to be inserted: the same as [`Run`] but without an assigned `id`.
#[derive(Debug, Clone, PartialEq, Eq)]
pub struct NewRun {
    pub command: String,
    pub output: Vec<u8>,
    pub exit_code: Option<i32>,
    pub signal: Option<String>,
    pub started_at: Timestamp,
    pub finished_at: Timestamp,
    pub duration_ms: i64,
    pub cwd: Option<String>,
    pub host: Option<String>,
    pub shell: Option<String>,
    pub comment: Option<String>,
}

/// Parsed query filters. Regex fields hold the raw pattern source (compiled at match time).
/// Date bounds are half-open: `after` is inclusive (`>=`), `before` is exclusive (`<`).
/// `limit`: `None` = unspecified (caller applies default), `Some(0)` = no cap, `Some(n)` = n.
#[derive(Debug, Clone, PartialEq, Eq)]
pub struct Filters {
    pub cmd_re: Option<String>,
    pub out_re: Option<String>,
    pub reg_re: Option<String>,
    pub com_re: Option<String>,
    pub after: Option<Timestamp>,
    pub before: Option<Timestamp>,
    pub exit: Option<i32>,
    pub limit: Option<usize>,
}

/// No filter at all.
pub open spec fn no_filters(f: Filters) -> bool {
    &&& f.cmd_re is None
    &&& f.out_re is None
    &&& f.reg_re is None
    &&& f.com_re is None
    &&& f.after is None
    &&& f.before is None
    &&& f.exit is None
    &&& f.limit is None
}

impl Default for Filters {
    fn default() -> (f: Self)
        ensures
            no_filters(f),
    {
        Filters {
            cmd_re: None,
            out_re: None,
            reg_re: None,
            com_re: None,
            after: None,
            before: None,
            exit: None,
            limit: None,
        }
    }
}

} // verus!
