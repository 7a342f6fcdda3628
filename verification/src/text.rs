//! Small text helpers for output handling (ANSI stripping, lossy decoding).

use vstd::prelude::*;
use crate::chars::{from_chars, to_chars};

verus! {

/// What `strip_ansi_escapes::strip` returns for `data`.
pub uninterp spec fn ansi_stripped(data: Seq<u8>) -> Seq<u8>;

/// What `String::from_utf8_lossy` decodes `bytes` to.
pub uninterp spec fn utf8_lossy(bytes: Seq<u8>) -> Seq<char>;

/// Remove ANSI escape sequences (colors, cursor moves) from raw bytes.
///
/// Calls `strip_ansi_escapes::strip`; its result is named, not described: the crate runs
/// the bytes through a terminal parser and writes out only the printable characters it
/// reports (never a control character such as a carriage return) and line feeds, so no
/// carriage-return byte (13) is left.
#[verifier::external_body]
pub fn strip_ansi(bytes: &[u8]) -> (r: Vec<u8>)
    ensures
        r@ == ansi_stripped(bytes@),
        forall|i: int| 0 <= i < r@.len() ==> r@[i] != 13,
{
    strip_ansi_escapes::strip(bytes)
}

/// Calls `String::from_utf8_lossy`: invalid sequences become U+FFFD. The contract
/// names the result and states only that bytes below 128 decode one for one, and that a
/// carriage return comes out only from a carriage-return byte.
#[verifier::external_body]
fn decode_utf8_lossy(bytes: &[u8]) -> (s: String)
    ensures
        s@ == utf8_lossy(bytes@),
        (forall|i: int| 0 <= i < bytes@.len() ==> bytes@[i] != 13) ==> forall|j: int|
            0 <= j < s@.len() ==> s@[j] != '\r',
        (forall|i: int| 0 <= i < bytes@.len() ==> bytes@[i] < 128) ==> s@.len() == bytes@.len()
            && forall|i: int| 0 <= i < bytes@.len() ==> s@[i] == (bytes@[i] as char),
{
    String::from_utf8_lossy(bytes).into_owned()
}

/// `s` with every `\r\n` replaced by `\n`, scanning left to right.
pub open spec fn crlf_to_lf(s: Seq<char>) -> Seq<char>
    decreases s.len(),
{
    if s.len() < 2 {
        s
    } else if s[0] == '\r' && s[1] == '\n' {
        seq!['\n'] + crlf_to_lf(s.subrange(2, s.len() as int))
    } else {
        seq![s[0]] + crlf_to_lf(s.drop_first())
    }
}

/// Replace each `\r\n` in `s` by `\n`.
pub fn normalize_newlines(s: &str) -> (r: String)
    ensures
        r@ == crlf_to_lf(s@),
{
    let v = to_chars(s);
    let n = v.len();
    let mut out: Vec<char> = Vec::new();
    let mut i: usize = 0;
    assert(v@.subrange(0, n as int) =~= v@);
    while i < n
        invariant
            n == v@.len(),
            i <= n,
            out@ + crlf_to_lf(v@.subrange(i as int, n as int)) == crlf_to_lf(v@),
        decreases n - i,
    {
        let ghost rest = v@.subrange(i as int, n as int);
        if v[i] == '\r' && i + 1 < n && v[i + 1] == '\n' {
            assert(rest.subrange(2, rest.len() as int) =~= v@.subrange(i + 2, n as int));
            assert(out@.push('\n') + crlf_to_lf(v@.subrange(i + 2, n as int)) =~= out@ + crlf_to_lf(rest));
            out.push('\n');
            i = i + 2;
        } else {
            proof {
                if rest.len() >= 2 {
                    assert(rest.drop_first() =~= v@.subrange(i + 1, n as int));
                    assert(out@.push(v@[i as int]) + crlf_to_lf(v@.subrange(i + 1, n as int)) =~= out@ + crlf_to_lf(rest));
                } else {
                    assert(v@.subrange(i + 1, n as int) =~= Seq::<char>::empty());
                    assert(out@.push(v@[i as int]) + crlf_to_lf(v@.subrange(i + 1, n as int)) =~= out@ + crlf_to_lf(rest));
                }
            }
            out.push(v[i]);
            i = i + 1;
        }
    }
    assert(out@ + crlf_to_lf(v@.subrange(n as int, n as int)) =~= out@);
    from_chars(&out)
}

/// What `decode_lossy_stripped` gives for `bytes`.
pub open spec fn decoded(bytes: Seq<u8>) -> Seq<char> {
    crlf_to_lf(utf8_lossy(ansi_stripped(bytes)))
}

/// Decode bytes to a String after stripping ANSI escapes and normalizing CRLF line
/// endings to LF. Storage stays raw; this is for matching and display only. No carriage
/// return is left, so no CRLF pair either.
pub fn decode_lossy_stripped(bytes: &[u8]) -> (s: String)
    ensures
        s@ == decoded(bytes@),
        forall|i: int| 0 <= i < s@.len() ==> s@[i] != '\r',
{
    let stripped = strip_ansi(bytes);
    let text = decode_utf8_lossy(stripped.as_slice());
    proof {
        lemma_no_cr_unchanged(text@);
    }
    normalize_newlines(text.as_str())
}

/// Without carriage returns there is nothing to rewrite.
proof fn lemma_no_cr_unchanged(s: Seq<char>)
    requires
        forall|i: int| 0 <= i < s.len() ==> s[i] != '\r',
    ensures
        crlf_to_lf(s) == s,
    decreases s.len(),
{
    if s.len() >= 2 {
        let t = s.drop_first();
        assert forall|i: int| 0 <= i < t.len() implies t[i] != '\r' by {
            assert(t[i] == s[i + 1]);
        }
        lemma_no_cr_unchanged(t);
        assert(seq![s[0]] + t =~= s);
    }
}

} // verus!
