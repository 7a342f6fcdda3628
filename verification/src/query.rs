//! Selecting stored runs: the SQL that narrows them by date and exit code, and the
//! regular-expression filters, ordering and limit applied to what comes back.

use vstd::prelude::*;
use crate::calendar::{format_millis, rfc3339_millis};
use crate::chars::{dec_int, from_chars, joined, lit, push_dec_i64, push_str};
use crate::filter::FiltersView;
use crate::model::{valid_ts, Filters, Run, Timestamp};
use crate::text::{decode_lossy_stripped, decoded};

verus! {

#[verifier::external_type_specification]
#[verifier::external_body]
pub struct ExRegex(regex::Regex);

/// `Regex::new(pat)`'s outcome: `None` when the pattern compiles, else the error's text.
pub uninterp spec fn regex_error(pat: Seq<char>) -> Option<Seq<char>>;

/// Whether the regex that `Regex::new(pat)` builds (default options) matches somewhere in
/// `text` (`Regex::is_match`).
pub uninterp spec fn regex_matches(pat: Seq<char>, text: Seq<char>) -> bool;

/// A regular expression built by `Regex::new`, together with the pattern it was built
/// from. Its fields are private: only [`compile_regex`] makes one, so the regex is always
/// `Regex::new` of that pattern.
pub struct Pattern {
    re: regex::Regex,
    pat: Ghost<Seq<char>>,
}

impl Pattern {
    /// The pattern the regex was built from.
    pub closed spec fn source(&self) -> Seq<char> {
        self.pat@
    }
}

/// Calls `regex::Regex::new`. The contract names the outcome: the regex built from `pat`,
/// or the error's text; which patterns compile is left to the name.
#[verifier::external_body]
fn compile_regex(pat: &str) -> (r: Result<Pattern, String>)
    ensures
        match r {
            Ok(p) => regex_error(pat@) is None && p.source() == pat@,
            Err(e) => regex_error(pat@) == Some(e@),
        },
{
    match regex::Regex::new(pat) {
        Ok(re) => Ok(Pattern { re, pat: Ghost(pat@) }),
        Err(e) => Err(e.to_string()),
    }
}

/// Calls `regex::Regex::is_match` on a regex that `Regex::new` built from `p.source()`;
/// the answer is named by that pattern and the text.
#[verifier::external_body]
fn regex_is_match(p: &Pattern, text: &str) -> (b: bool)
    ensures
        b == regex_matches(p.source(), text@),
{
    p.re.is_match(text)
}

/// The characters of a run's comment, empty when it has none.
pub open spec fn comment_text(run: Run) -> Seq<char> {
    match run.comment {
        Some(c) => c@,
        None => Seq::empty(),
    }
}

/// Whether `run` passes the regular-expression filters of `f`: `cmd` on the command,
/// `out` on the decoded output, `reg` on either, `com` on the comment (empty if none).
pub open spec fn passes(run: Run, f: FiltersView) -> bool {
    &&& f.cmd_re matches Some(p) ==> regex_matches(p, run.command@)
    &&& f.out_re matches Some(p) ==> regex_matches(p, decoded(run.output@))
    &&& f.reg_re matches Some(p) ==> regex_matches(p, run.command@) || regex_matches(p, decoded(run.output@))
    &&& f.com_re matches Some(p) ==> regex_matches(p, comment_text(run))
}

/// The runs that pass, in their input order.
pub open spec fn passing(runs: Seq<Run>, f: FiltersView) -> Seq<Run>
    decreases runs.len(),
{
    if runs.len() == 0 {
        Seq::empty()
    } else if passes(runs.last(), f) {
        passing(runs.drop_last(), f).push(runs.last())
    } else {
        passing(runs.drop_last(), f)
    }
}

/// The first compile error among the patterns, taken in the order cmd, out, reg, com.
pub open spec fn first_regex_error(f: FiltersView) -> Option<Seq<char>> {
    let e1 = match f.cmd_re { Some(p) => regex_error(p), None => None };
    let e2 = match f.out_re { Some(p) => regex_error(p), None => None };
    let e3 = match f.reg_re { Some(p) => regex_error(p), None => None };
    let e4 = match f.com_re { Some(p) => regex_error(p), None => None };
    if e1 is Some { e1 } else if e2 is Some { e2 } else if e3 is Some { e3 } else { e4 }
}

/// At most `limit` items of `s` (all of them for `None` or `Some(0)`).
pub open spec fn capped<T>(s: Seq<T>, limit: Option<usize>) -> Seq<T> {
    match limit {
        Some(n) => if n > 0 && n < s.len() { s.take(n as int) } else { s },
        None => s,
    }
}

/// What querying gives after the database has handed back `runs` (newest first): an
/// invalid pattern is an error; otherwise the runs that pass, in order, capped by the limit.
pub open spec fn spec_select(runs: Seq<Run>, f: FiltersView) -> Result<Seq<Run>, Seq<char>> {
    match first_regex_error(f) {
        Some(e) => Err(e),
        None => Ok(capped(passing(runs, f), f.limit)),
    }
}

fn compile_opt(pat: &Option<String>) -> (r: Result<Option<Pattern>, String>)
    ensures
        match r {
            Ok(o) => match (*pat, o) {
                (Some(p), Some(re)) => regex_error(p@) is None && re.source() == p@,
                (None, None) => true,
                _ => false,
            },
            Err(e) => pat matches Some(p) && regex_error(p@) == Some(e@),
        },
{
    match pat {
        Some(p) => match compile_regex(p.as_str()) {
            Ok(re) => Ok(Some(re)),
            Err(e) => Err(e),
        },
        None => Ok(None),
    }
}

/// A pattern and its compiled form agree.
pub open spec fn compiled_as(o: Option<Pattern>, pat: Option<Seq<char>>) -> bool {
    match (o, pat) {
        (Some(re), Some(p)) => re.source() == p,
        (None, None) => true,
        _ => false,
    }
}

fn passes_exec(
    run: &Run,
    cmd: &Option<Pattern>,
    out: &Option<Pattern>,
    reg: &Option<Pattern>,
    com: &Option<Pattern>,
    Ghost(f): Ghost<FiltersView>,
) -> (b: bool)
    requires
        compiled_as(*cmd, f.cmd_re),
        compiled_as(*out, f.out_re),
        compiled_as(*reg, f.reg_re),
        compiled_as(*com, f.com_re),
    ensures
        b == passes(*run, f),
{
    match cmd {
        Some(re) => if !regex_is_match(re, run.command.as_str()) {
            return false;
        },
        None => {},
    }
    match out {
        Some(re) => {
            let text = decode_lossy_stripped(run.output.as_slice());
            if !regex_is_match(re, text.as_str()) {
                return false;
            }
        },
        None => {},
    }
    match reg {
        Some(re) => {
            if !regex_is_match(re, run.command.as_str()) {
                let text = decode_lossy_stripped(run.output.as_slice());
                if !regex_is_match(re, text.as_str()) {
                    return false;
                }
            }
        },
        None => {},
    }
    match com {
        Some(re) => {
            let empty = String::new();
            let text = match &run.comment {
                Some(c) => c,
                None => &empty,
            };
            if !regex_is_match(re, text.as_str()) {
                return false;
            }
        },
        None => {},
    }
    true
}

/// Apply the regular-expression filters and the limit to `runs` as the database returned
/// them (newest first), keeping their order. A pattern that does not compile is an error,
/// checked in the order cmd, out, reg, com before any run is looked at.
pub fn select_runs(runs: Vec<Run>, filters: &Filters) -> (r: Result<Vec<Run>, String>)
    ensures
        match (r, spec_select(runs@, filters@)) {
            (Ok(v), Ok(s)) => v@ == s,
            (Err(e), Err(m)) => e@ == m,
            _ => false,
        },
{
    let ghost f = filters@;
    let cmd = match compile_opt(&filters.cmd_re) {
        Ok(o) => o,
        Err(e) => return Err(e),
    };
    let out = match compile_opt(&filters.out_re) {
        Ok(o) => o,
        Err(e) => return Err(e),
    };
    let reg = match compile_opt(&filters.reg_re) {
        Ok(o) => o,
        Err(e) => return Err(e),
    };
    let com = match compile_opt(&filters.com_re) {
        Ok(o) => o,
        Err(e) => return Err(e),
    };
    assert(first_regex_error(f) is None);
    let ghost all = runs@;
    let mut kept: Vec<Run> = Vec::new();
    for run in it: runs.into_iter()
        invariant
            it.seq() == all,
            compiled_as(cmd, f.cmd_re),
            compiled_as(out, f.out_re),
            compiled_as(reg, f.reg_re),
            compiled_as(com, f.com_re),
            kept@ == passing(all.take(it.index() as int), f),
    {
        let ghost k = it.index() as int;
        assert(all.take(k + 1).drop_last() =~= all.take(k));
        assert(all.take(k + 1).last() == run);
        if passes_exec(&run, &cmd, &out, &reg, &com, Ghost(f)) {
            kept.push(run);
        }
    }
    assert(all.take(all.len() as int) =~= all);
    match filters.limit {
        Some(n) => if n > 0 && n < kept.len() {
            kept.truncate(n);
        },
        None => {},
    }
    Ok(kept)
}

/// A parameter bound to a `?` of the query.
pub enum SqlValue {
    Text(String),
    Integer(i64),
}

/// The abstract content of a [`SqlValue`].
pub enum SqlValueView {
    Text(Seq<char>),
    Integer(i64),
}

impl View for SqlValue {
    type V = SqlValueView;

    open spec fn view(&self) -> SqlValueView {
        match self {
            SqlValue::Text(s) => SqlValueView::Text(s@),
            SqlValue::Integer(i) => SqlValueView::Integer(*i),
        }
    }
}

/// The statement that fetches candidate runs, and the values for its `?` placeholders.
pub struct QueryPlan {
    pub sql: String,
    pub params: Vec<SqlValue>,
}

/// The columns of a run, in the order the database returns them.
pub open spec fn columns() -> Seq<char> {
    "id, command, output, exit_code, signal, started_at, finished_at, duration_ms, cwd, host, shell, comment"@
}

/// The conditions that SQL checks: `started_at >= ?` for `after`, `started_at < ?` for
/// `before`, `exit_code = ?` for `exit`, in that order.
pub open spec fn conditions(f: FiltersView) -> Seq<Seq<char>> {
    (if f.after is Some { seq!["started_at >= ?"@] } else { Seq::empty() })
        + (if f.before is Some { seq!["started_at < ?"@] } else { Seq::empty() })
        + (if f.exit is Some { seq!["exit_code = ?"@] } else { Seq::empty() })
}

/// The values for those conditions, in the same order; instants in the stored text form.
pub open spec fn condition_values(f: FiltersView) -> Seq<SqlValueView> {
    (match f.after { Some(t) => seq![SqlValueView::Text(rfc3339_millis(t.secs, t.nanos))], None => Seq::empty() })
        + (match f.before { Some(t) => seq![SqlValueView::Text(rfc3339_millis(t.secs, t.nanos))], None => Seq::empty() })
        + (match f.exit { Some(x) => seq![SqlValueView::Integer(x as i64)], None => Seq::empty() })
}

/// The statement: all columns, the conditions joined with `AND` when there are any,
/// newest (highest id) first.
pub open spec fn spec_sql(f: FiltersView) -> Seq<char> {
    let c = conditions(f);
    "SELECT "@ + columns() + " FROM runs"@
        + (if c.len() > 0 { " WHERE "@ + joined(c, " AND "@) } else { Seq::empty() })
        + " ORDER BY id DESC"@
}

/// Every bound that `f` holds can be written out by chrono.
pub open spec fn bounds_valid(f: FiltersView) -> bool {
    &&& f.after matches Some(t) ==> valid_ts(t)
    &&& f.before matches Some(t) ==> valid_ts(t)
}

/// The statement and parameters that fetch the runs matching the cheap predicates of
/// `filters` (date bounds, exit code); the regular expressions and the limit are left to
/// [`select_runs`].
#[verifier::spinoff_prover]
#[verifier::rlimit(40)]
pub fn query_plan(filters: &Filters) -> (p: QueryPlan)
    requires
        bounds_valid(filters@),
    ensures
        p.sql@ == spec_sql(filters@),
        p.params@.map_values(|v: SqlValue| v@) == condition_values(filters@),
{
    let ghost f = filters@;
    let mut params: Vec<SqlValue> = Vec::new();
    let ghost mut cs: Seq<Seq<char>> = Seq::empty();
    match filters.after {
        Some(t) => {
            params.push(SqlValue::Text(format_millis(t)));
            proof { cs = cs.push("started_at >= ?"@); }
        },
        None => {},
    }
    let ghost c1 = cs;
    let ghost p1 = params@.map_values(|v: SqlValue| v@);
    match filters.before {
        Some(t) => {
            params.push(SqlValue::Text(format_millis(t)));
            proof { cs = cs.push("started_at < ?"@); }
        },
        None => {},
    }
    let ghost c2 = cs;
    let ghost p2 = params@.map_values(|v: SqlValue| v@);
    match filters.exit {
        Some(x) => {
            params.push(SqlValue::Integer(x as i64));
            proof { cs = cs.push("exit_code = ?"@); }
        },
        None => {},
    }
    assert(cs =~= conditions(f));
    assert(params@.map_values(|v: SqlValue| v@) =~= condition_values(f));
    let mut sql = lit("SELECT ");
    push_str(&mut sql, "id, command, output, exit_code, signal, started_at, finished_at, duration_ms, cwd, host, shell, comment");
    push_str(&mut sql, " FROM runs");
    let ghost head = sql@;
    let n: usize = (if filters.after.is_some() { 1usize } else { 0 }) + (if filters.before.is_some() { 1usize } else { 0 }) + (if filters.exit.is_some() { 1usize } else { 0 });
    assert(n == cs.len());
    if n > 0 {
        push_str(&mut sql, " WHERE ");
        let ghost w = sql@;
        let mut first = true;
        let ghost mut done: Seq<Seq<char>> = Seq::empty();
        if filters.after.is_some() {
            push_str(&mut sql, "started_at >= ?");
            first = false;
            proof { done = done.push("started_at >= ?"@); }
        }
        assert(sql@ == w + joined(done, " AND "@));
        assert(done == c1);
        if filters.before.is_some() {
            if !first {
                push_str(&mut sql, " AND ");
            }
            push_str(&mut sql, "started_at < ?");
            first = false;
            proof {
                let prev = done;
                done = done.push("started_at < ?"@);
                assert(done.drop_last() =~= prev);
            }
        }
        assert(done =~= c2);
        assert(sql@ =~= w + joined(done, " AND "@));
        if filters.exit.is_some() {
            if !first {
                push_str(&mut sql, " AND ");
            }
            push_str(&mut sql, "exit_code = ?");
            proof {
                let prev = done;
                done = done.push("exit_code = ?"@);
                assert(done.drop_last() =~= prev);
            }
        }
        assert(done =~= cs);
        assert(sql@ =~= w + joined(done, " AND "@));
    }
    push_str(&mut sql, " ORDER BY id DESC");
    assert(sql@ =~= spec_sql(f));
    QueryPlan { sql: from_chars(&sql), params }
}

/// How an index names a run: `Id` for a positive index (the id itself), `Offset(k)` for
/// the k-th newest run counted from 0 (index `-k-1`), `Invalid` with the message to report.
pub enum IdLookup {
    Id(i64),
    Offset(i64),
    Invalid(String),
}

/// What an index resolves to: positive indices are ids; 0 is invalid; `-k` is the k-th
/// most recent run (`-1` = newest), allowed only when shortcuts are on.
pub open spec fn spec_lookup(idx: int, shortcuts: bool) -> Result<Result<int, int>, Seq<char>> {
    if idx < 0 && !shortcuts {
        Err("negative indices need quick mode (set `mode = quick` in ~/.recoverc, or use a positive id)"@)
    } else if idx > 0 {
        Ok(Ok(idx))
    } else if idx == 0 {
        Err("index 0 is not valid; use a positive id, or -1 for the most recent run"@)
    } else {
        Ok(Err(-idx - 1))
    }
}

/// Resolve a possibly-negative index. A positive value is the id itself; `-k` is the k-th
/// most recent run (`-1` = newest), found at offset `k-1` of the newest-first order.
pub fn lookup_index(idx: i64, shortcuts: bool) -> (r: IdLookup)
    requires
        idx > i64::MIN,
    ensures
        match (r, spec_lookup(idx as int, shortcuts)) {
            (IdLookup::Id(i), Ok(Ok(j))) => i == j,
            (IdLookup::Offset(k), Ok(Err(j))) => k == j,
            (IdLookup::Invalid(m), Err(e)) => m@ == e,
            _ => false,
        },
{
    if idx < 0 && !shortcuts {
        IdLookup::Invalid(String::from_str("negative indices need quick mode (set `mode = quick` in ~/.recoverc, or use a positive id)"))
    } else if idx > 0 {
        IdLookup::Id(idx)
    } else if idx == 0 {
        IdLookup::Invalid(String::from_str("index 0 is not valid; use a positive id, or -1 for the most recent run"))
    } else {
        IdLookup::Offset(-idx - 1)
    }
}

/// The message for an index past the start of history.
pub open spec fn spec_missing_index(idx: int, count: int) -> Seq<char> {
    "no run at index "@ + dec_int(idx) + " (history has "@ + dec_int(count) + " runs)"@
}

/// The error reported when `idx` reaches past the `count` runs there are.
pub fn missing_index_message(idx: i64, count: i64) -> (s: String)
    ensures
        s@ == spec_missing_index(idx as int, count as int),
{
    let mut m = lit("no run at index ");
    push_dec_i64(&mut m, idx);
    push_str(&mut m, " (history has ");
    push_dec_i64(&mut m, count);
    push_str(&mut m, " runs)");
    from_chars(&m)
}

/// What an index resolves to over the stored ids, newest first: the id itself when
/// positive, the `k`-th of them for `-k`, or the error.
pub open spec fn resolved_over(ids: Seq<i64>, idx: int, shortcuts: bool) -> Result<int, Seq<char>> {
    match spec_lookup(idx, shortcuts) {
        Err(e) => Err(e),
        Ok(Ok(id)) => Ok(id),
        Ok(Err(off)) => if off < ids.len() {
            Ok(ids[off] as int)
        } else {
            Err(spec_missing_index(idx, ids.len() as int))
        },
    }
}

/// The end of a lookup by offset: the id found there, or the error naming how many runs
/// there are.
pub fn finish_lookup(idx: i64, found: Option<i64>, count: i64) -> (r: Result<i64, String>)
    ensures
        match found {
            Some(id) => r == Ok::<i64, String>(id),
            None => r matches Err(m) && m@ == spec_missing_index(idx as int, count as int),
        },
{
    match found {
        Some(id) => Ok(id),
        None => Err(missing_index_message(idx, count)),
    }
}

/// Resolving through `lookup_index` and, for an offset, the id at that offset of the
/// newest-first ids (or their count when there is none), gives `resolved_over`.
pub proof fn law_lookup_then_offset(ids: Seq<i64>, idx: int, shortcuts: bool)
    requires
        i64::MIN < idx <= i64::MAX,
    ensures
        match spec_lookup(idx, shortcuts) {
            Err(e) => resolved_over(ids, idx, shortcuts) == Err::<int, Seq<char>>(e),
            Ok(Ok(id)) => resolved_over(ids, idx, shortcuts) == Ok::<int, Seq<char>>(id) && id == idx && idx > 0,
            Ok(Err(off)) => idx < 0 && off == -idx - 1 && shortcuts
                && (off < ids.len() ==> resolved_over(ids, idx, shortcuts) == Ok::<int, Seq<char>>(ids[off] as int))
                && (off >= ids.len() ==> resolved_over(ids, idx, shortcuts)
                    == Err::<int, Seq<char>>(spec_missing_index(idx, ids.len() as int))),
        },
{
}

} // verus!
