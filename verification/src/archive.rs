//! The export format: one record per run with the output in base64 and the instants as
//! RFC 3339 text, and the way back to a run to insert.

use vstd::prelude::*;
use base64::Engine;
use crate::calendar::{format_rfc3339, parse_rfc3339, reads_as, rfc3339_parsed, rfc3339_text, ts_of, year0_secs, year9999_secs};
use crate::filter::opt_chars;
use crate::model::{valid_ts, NewRun, Run, Timestamp};

verus! {

/// The text that `BASE64_STANDARD.encode` gives for `bytes`.
pub uninterp spec fn base64_text(bytes: Seq<u8>) -> Seq<char>;

/// What `BASE64_STANDARD.decode` makes of the text: the bytes, or the text of its error.
pub uninterp spec fn base64_decoded(text: Seq<char>) -> Result<Seq<u8>, Seq<char>>;

/// A decoding outcome that is exactly `bytes`.
pub open spec fn decodes_to(r: Result<Seq<u8>, Seq<char>>, bytes: Seq<u8>) -> bool {
    r == Ok::<Seq<u8>, Seq<char>>(bytes)
}

/// Calls `BASE64_STANDARD.encode` (standard alphabet, padded). The text is named; decoding
/// it gives the bytes back.
#[verifier::external_body]
fn encode_base64(bytes: &[u8]) -> (s: String)
    requires
        bytes@.len() <= usize::MAX / 2,
    ensures
        s@ == base64_text(bytes@),
        decodes_to(base64_decoded(s@), bytes@),
{
    base64::prelude::BASE64_STANDARD.encode(bytes)
}

/// Calls `BASE64_STANDARD.decode` on the text's bytes; the outcome is named.
#[verifier::external_body]
fn decode_base64(text: &str) -> (r: Result<Vec<u8>, String>)
    ensures
        match (r, base64_decoded(text@)) {
            (Ok(b), Ok(c)) => b@ == c,
            (Err(e), Err(m)) => e@ == m,
            _ => false,
        },
{
    match base64::prelude::BASE64_STANDARD.decode(text.as_bytes()) {
        Ok(b) => Ok(b),
        Err(e) => Err(e.to_string()),
    }
}

/// One run as exported.
pub struct ExportRun {
    pub id: i64,
    pub command: String,
    pub output_b64: String,
    pub exit_code: Option<i32>,
    pub signal: Option<String>,
    pub started_at: String,
    pub finished_at: String,
    pub duration_ms: i64,
    pub cwd: Option<String>,
    pub host: Option<String>,
    pub shell: Option<String>,
    pub comment: Option<String>,
}

/// The abstract content of an [`ExportRun`].
pub struct ExportView {
    pub id: i64,
    pub command: Seq<char>,
    pub output_b64: Seq<char>,
    pub exit_code: Option<i32>,
    pub signal: Option<Seq<char>>,
    pub started_at: Seq<char>,
    pub finished_at: Seq<char>,
    pub duration_ms: i64,
    pub cwd: Option<Seq<char>>,
    pub host: Option<Seq<char>>,
    pub shell: Option<Seq<char>>,
    pub comment: Option<Seq<char>>,
}

impl View for ExportRun {
    type V = ExportView;

    open spec fn view(&self) -> ExportView {
        ExportView {
            id: self.id,
            command: self.command@,
            output_b64: self.output_b64@,
            exit_code: self.exit_code,
            signal: opt_chars(self.signal),
            started_at: self.started_at@,
            finished_at: self.finished_at@,
            duration_ms: self.duration_ms,
            cwd: opt_chars(self.cwd),
            host: opt_chars(self.host),
            shell: opt_chars(self.shell),
            comment: opt_chars(self.comment),
        }
    }
}

/// The abstract content of a run to insert.
pub struct NewRunView {
    pub command: Seq<char>,
    pub output: Seq<u8>,
    pub exit_code: Option<i32>,
    pub signal: Option<Seq<char>>,
    pub started_at: Timestamp,
    pub finished_at: Timestamp,
    pub duration_ms: i64,
    pub cwd: Option<Seq<char>>,
    pub host: Option<Seq<char>>,
    pub shell: Option<Seq<char>>,
    pub comment: Option<Seq<char>>,
}

impl View for NewRun {
    type V = NewRunView;

    open spec fn view(&self) -> NewRunView {
        NewRunView {
            command: self.command@,
            output: self.output@,
            exit_code: self.exit_code,
            signal: opt_chars(self.signal),
            started_at: self.started_at,
            finished_at: self.finished_at,
            duration_ms: self.duration_ms,
            cwd: opt_chars(self.cwd),
            host: opt_chars(self.host),
            shell: opt_chars(self.shell),
            comment: opt_chars(self.comment),
        }
    }
}

/// The export record of a run: fields as they are, output in base64, instants as
/// RFC 3339 text.
pub open spec fn spec_export(run: Run) -> ExportView {
    ExportView {
        id: run.id,
        command: run.command@,
        output_b64: base64_text(run.output@),
        exit_code: run.exit_code,
        signal: opt_chars(run.signal),
        started_at: rfc3339_text(run.started_at.secs, run.started_at.nanos),
        finished_at: rfc3339_text(run.finished_at.secs, run.finished_at.nanos),
        duration_ms: run.duration_ms,
        cwd: opt_chars(run.cwd),
        host: opt_chars(run.host),
        shell: opt_chars(run.shell),
        comment: opt_chars(run.comment),
    }
}

/// The run to insert for an export record, or the first error among decoding the output,
/// reading the start and reading the finish (the id is not kept).
pub open spec fn spec_import(r: ExportView) -> Result<NewRunView, Seq<char>> {
    match base64_decoded(r.output_b64) {
        Err(e) => Err(e),
        Ok(output) => match rfc3339_parsed(r.started_at) {
            Err(e) => Err(e),
            Ok(s) => match rfc3339_parsed(r.finished_at) {
                Err(e) => Err(e),
                Ok(f) => Ok(NewRunView {
                    command: r.command,
                    output,
                    exit_code: r.exit_code,
                    signal: r.signal,
                    started_at: ts_of(s),
                    finished_at: ts_of(f),
                    duration_ms: r.duration_ms,
                    cwd: r.cwd,
                    host: r.host,
                    shell: r.shell,
                    comment: r.comment,
                }),
            },
        },
    }
}

/// Both instants of a run can be written out by chrono.
pub open spec fn run_times_valid(run: Run) -> bool {
    valid_ts(run.started_at) && valid_ts(run.finished_at)
}

/// Turn a stored run into its export record.
pub fn export_record(run: Run) -> (r: ExportRun)
    requires
        run_times_valid(run),
        run.output@.len() <= usize::MAX / 2,
    ensures
        r@ == spec_export(run),
        run_times_in_years(run) ==> spec_import(r@) == Ok::<NewRunView, Seq<char>>(as_new(run)),
{
    let output_b64 = encode_base64(run.output.as_slice());
    let started_at = format_rfc3339(run.started_at);
    let finished_at = format_rfc3339(run.finished_at);
    ExportRun {
        id: run.id,
        command: run.command,
        output_b64,
        exit_code: run.exit_code,
        signal: run.signal,
        started_at,
        finished_at,
        duration_ms: run.duration_ms,
        cwd: run.cwd,
        host: run.host,
        shell: run.shell,
        comment: run.comment,
    }
}

/// Turn an export record back into a run to insert.
pub fn import_record(r: ExportRun) -> (res: Result<NewRun, String>)
    ensures
        match (res, spec_import(r@)) {
            (Ok(n), Ok(v)) => n@ == v,
            (Err(e), Err(m)) => e@ == m,
            _ => false,
        },
{
    let output = match decode_base64(r.output_b64.as_str()) {
        Ok(b) => b,
        Err(e) => return Err(e),
    };
    let started_at = match parse_rfc3339(r.started_at.as_str()) {
        Ok(t) => t,
        Err(e) => return Err(e),
    };
    let finished_at = match parse_rfc3339(r.finished_at.as_str()) {
        Ok(t) => t,
        Err(e) => return Err(e),
    };
    Ok(NewRun {
        command: r.command,
        output,
        exit_code: r.exit_code,
        signal: r.signal,
        started_at,
        finished_at,
        duration_ms: r.duration_ms,
        cwd: r.cwd,
        host: r.host,
        shell: r.shell,
        comment: r.comment,
    })
}

/// The run to insert that carries the same data as `run`.
pub open spec fn as_new(run: Run) -> NewRunView {
    NewRunView {
        command: run.command@,
        output: run.output@,
        exit_code: run.exit_code,
        signal: opt_chars(run.signal),
        started_at: run.started_at,
        finished_at: run.finished_at,
        duration_ms: run.duration_ms,
        cwd: opt_chars(run.cwd),
        host: opt_chars(run.host),
        shell: opt_chars(run.shell),
        comment: opt_chars(run.comment),
    }
}

/// Both instants of a run fall in years 0 to 9999.
pub open spec fn run_times_in_years(run: Run) -> bool {
    &&& year0_secs() <= run.started_at.secs <= year9999_secs()
    &&& year0_secs() <= run.finished_at.secs <= year9999_secs()
}

} // verus!
