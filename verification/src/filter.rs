//! Taskwarrior-style `key:value` filter tokens, read into [`Filters`].
//!
//! Keys: `cmd`, `out`, `reg`, `com` (regex sources); `date`, `date.after`, `date.before`
//! (date expressions, `date:A..B` for a half-open range); `exit`, `limit`.

use vstd::prelude::*;
use crate::chars::{
    all_ascii_digits, bounded_number, digits_val, eq_lit, from_chars, index_of, lit, push_seq,
    read_number, slice_vec, to_chars,
};
use crate::model::{no_filters, valid_ts, Filters, Timestamp};
use crate::timequery::{instant_outcome, outcome_is, spec_parse_instant};

verus! {

/// The abstract content of [`Filters`].
pub struct FiltersView {
    pub cmd_re: Option<Seq<char>>,
    pub out_re: Option<Seq<char>>,
    pub reg_re: Option<Seq<char>>,
    pub com_re: Option<Seq<char>>,
    pub after: Option<Timestamp>,
    pub before: Option<Timestamp>,
    pub exit: Option<i32>,
    pub limit: Option<usize>,
}

/// The characters of an optional string.
pub open spec fn opt_chars(o: Option<String>) -> Option<Seq<char>> {
    match o {
        Some(s) => Some(s@),
        None => None,
    }
}

impl View for Filters {
    type V = FiltersView;

    open spec fn view(&self) -> FiltersView {
        FiltersView {
            cmd_re: opt_chars(self.cmd_re),
            out_re: opt_chars(self.out_re),
            reg_re: opt_chars(self.reg_re),
            com_re: opt_chars(self.com_re),
            after: self.after,
            before: self.before,
            exit: self.exit,
            limit: self.limit,
        }
    }
}

/// No filter set.
pub open spec fn empty_filters() -> FiltersView {
    FiltersView {
        cmd_re: None,
        out_re: None,
        reg_re: None,
        com_re: None,
        after: None,
        before: None,
        exit: None,
        limit: None,
    }
}

/// What `str::parse::<i32>` gives: an optional sign, then ASCII digits, within range.
pub open spec fn parse_i32(s: Seq<char>) -> Option<i32> {
    if s.len() > 0 && s[0] == '-' {
        match bounded_number(s.drop_first(), 0x8000_0000) {
            Some(n) => Some((-n) as i32),
            None => None,
        }
    } else {
        let body = if s.len() > 0 && s[0] == '+' { s.drop_first() } else { s };
        match bounded_number(body, 0x7fff_ffff) {
            Some(n) => Some(n as i32),
            None => None,
        }
    }
}

/// What `str::parse::<usize>` gives: an optional `+`, then ASCII digits, within range.
pub open spec fn parse_usize(s: Seq<char>) -> Option<usize> {
    let body = if s.len() > 0 && s[0] == '+' { s.drop_first() } else { s };
    match bounded_number(body, usize::MAX as int) {
        Some(n) => Some(n as usize),
        None => None,
    }
}

/// Position of the first `..` in `s`, or the length of `s` when there is none.
pub open spec fn index_of_dots(s: Seq<char>) -> nat
    decreases s.len(),
{
    if s.len() < 2 {
        s.len()
    } else if s[0] == '.' && s[1] == '.' {
        0
    } else {
        1 + index_of_dots(s.drop_first())
    }
}

/// A date outcome stored into one of the bounds.
pub open spec fn with_bound(f: FiltersView, after: bool, r: Option<Result<Timestamp, Seq<char>>>) -> Option<Result<FiltersView, Seq<char>>> {
    match r {
        None => None,
        Some(Err(m)) => Some(Err(m)),
        Some(Ok(t)) => if after {
            Some(Ok(FiltersView { after: Some(t), ..f }))
        } else {
            Some(Ok(FiltersView { before: Some(t), ..f }))
        },
    }
}

/// The effect of `exit:val` on `f`.
pub open spec fn exit_pair(f: FiltersView, val: Seq<char>) -> Option<Result<FiltersView, Seq<char>>> {
    match parse_i32(val) {
        Some(x) => Some(Ok(FiltersView { exit: Some(x), ..f })),
        None => Some(Err("invalid exit code: "@ + val)),
    }
}

/// The effect of `limit:val` on `f`.
pub open spec fn limit_pair(f: FiltersView, val: Seq<char>) -> Option<Result<FiltersView, Seq<char>>> {
    match parse_usize(val) {
        Some(x) => Some(Ok(FiltersView { limit: Some(x), ..f })),
        None => Some(Err("invalid limit: "@ + val)),
    }
}

/// The effect of `date:val` on `f`: `A..B` (split at the first `..`) sets both bounds,
/// anything else sets the lower one.
pub open spec fn date_pair(f: FiltersView, val: Seq<char>, now: Timestamp, shortcuts: bool) -> Option<Result<FiltersView, Seq<char>>> {
    let d = index_of_dots(val);
    if d < val.len() {
        match with_bound(f, true, spec_parse_instant(val.subrange(0, d as int), now, shortcuts)) {
            Some(Ok(g)) => with_bound(g, false, spec_parse_instant(val.subrange(d + 2 as int, val.len() as int), now, shortcuts)),
            other => other,
        }
    } else {
        with_bound(f, true, spec_parse_instant(val, now, shortcuts))
    }
}

/// The effect of `key:val` on `f`; `None` where a date expression's arithmetic has no result.
pub open spec fn apply_pair(f: FiltersView, key: Seq<char>, val: Seq<char>, now: Timestamp, shortcuts: bool) -> Option<Result<FiltersView, Seq<char>>> {
    if key == "cmd"@ {
        Some(Ok(FiltersView { cmd_re: Some(val), ..f }))
    } else if key == "out"@ {
        Some(Ok(FiltersView { out_re: Some(val), ..f }))
    } else if key == "reg"@ {
        Some(Ok(FiltersView { reg_re: Some(val), ..f }))
    } else if key == "com"@ {
        Some(Ok(FiltersView { com_re: Some(val), ..f }))
    } else if key == "exit"@ {
        exit_pair(f, val)
    } else if key == "limit"@ {
        limit_pair(f, val)
    } else if key == "date"@ {
        date_pair(f, val, now, shortcuts)
    } else if key == "date.after"@ {
        with_bound(f, true, spec_parse_instant(val, now, shortcuts))
    } else if key == "date.before"@ {
        with_bound(f, false, spec_parse_instant(val, now, shortcuts))
    } else {
        Some(Err("unknown filter key: "@ + key))
    }
}

/// The effect of one token on `f`: it must hold a `:`, which splits key from value.
pub open spec fn apply_token(f: FiltersView, tok: Seq<char>, now: Timestamp, shortcuts: bool) -> Option<Result<FiltersView, Seq<char>>> {
    let c = index_of(tok, ':');
    if c == tok.len() {
        Some(Err("not a filter (expected key:value): "@ + tok))
    } else {
        apply_pair(f, tok.subrange(0, c as int), tok.subrange(c + 1 as int, tok.len() as int), now, shortcuts)
    }
}

/// The filters that the tokens describe, applied in order, or the first error; `None`
/// where a date expression met before any error has arithmetic with no result.
pub open spec fn spec_parse_filters(toks: Seq<Seq<char>>, now: Timestamp, shortcuts: bool) -> Option<Result<FiltersView, Seq<char>>>
    decreases toks.len(),
{
    if toks.len() == 0 {
        Some(Ok(empty_filters()))
    } else {
        match spec_parse_filters(toks.drop_last(), now, shortcuts) {
            Some(Ok(f)) => apply_token(f, toks.last(), now, shortcuts),
            other => other,
        }
    }
}

/// The characters of each token.
pub open spec fn token_chars(toks: Seq<String>) -> Seq<Seq<char>> {
    toks.map_values(|t: String| t@)
}

/// An executable outcome agrees with a specified one.
pub open spec fn filters_outcome_is(r: Option<Result<Filters, Vec<char>>>, s: Option<Result<FiltersView, Seq<char>>>) -> bool {
    match (r, s) {
        (None, None) => true,
        (Some(Ok(a)), Some(Ok(b))) => a@ == b,
        (Some(Err(a)), Some(Err(b))) => a@ == b,
        _ => false,
    }
}

fn parse_i32_exec(v: &[char]) -> (r: Option<i32>)
    ensures
        r == parse_i32(v@),
{
    let n = v.len();
    if n > 0 && v[0] == '-' {
        assert(v@.drop_first() =~= v@.subrange(1, n as int));
        match read_number(v, 1, n, 0x8000_0000) {
            Some(x) => Some((-(x as i64)) as i32),
            None => None,
        }
    } else {
        let start: usize = if n > 0 && v[0] == '+' { 1 } else { 0 };
        assert(v@.drop_first() =~= v@.subrange(1, n as int));
        assert(v@ =~= v@.subrange(0, n as int));
        match read_number(v, start, n, 0x7fff_ffff) {
            Some(x) => Some(x as i32),
            None => None,
        }
    }
}

fn parse_usize_exec(v: &[char]) -> (r: Option<usize>)
    ensures
        r == parse_usize(v@),
{
    let n = v.len();
    let start: usize = if n > 0 && v[0] == '+' { 1 } else { 0 };
    assert(v@.drop_first() =~= v@.subrange(1, n as int));
    assert(v@ =~= v@.subrange(0, n as int));
    match read_number(v, start, n, usize::MAX as u64) {
        Some(x) => Some(x as usize),
        None => None,
    }
}

/// `s` holds `..` at `k`.
pub open spec fn dots_at(s: Seq<char>, k: int) -> bool {
    0 <= k && k + 1 < s.len() && s[k] == '.' && s[k + 1] == '.'
}

/// `index_of_dots` is the first place that holds `..`.
proof fn lemma_index_of_dots(s: Seq<char>, i: int)
    requires
        0 <= i <= s.len(),
        forall|k: int| 0 <= k < i ==> !#[trigger] dots_at(s, k),
        i + 1 < s.len() ==> dots_at(s, i),
        i + 1 >= s.len() ==> i == s.len(),
    ensures
        index_of_dots(s) == i,
    decreases i,
{
    if s.len() >= 2 && i > 0 {
        let t = s.drop_first();
        assert(!dots_at(s, 0));
        assert forall|k: int| 0 <= k < i - 1 implies !#[trigger] dots_at(t, k) by {
            assert(!dots_at(s, k + 1));
            if k + 1 < t.len() {
                assert(t[k] == s[k + 1] && t[k + 1] == s[k + 2]);
            }
        }
        if i - 1 + 1 < t.len() {
            assert(dots_at(s, i));
            assert(t[i - 1] == s[i] && t[i] == s[i + 1]);
        }
        lemma_index_of_dots(t, i - 1);
    }
}

fn find_dots(v: &[char]) -> (d: usize)
    ensures
        d == index_of_dots(v@),
        d <= v@.len(),
        d < v@.len() ==> dots_at(v@, d as int),
{
    let n = v.len();
    let mut i: usize = 0;
    while i < n && i + 1 < n && !(v[i] == '.' && v[i + 1] == '.')
        invariant
            n == v@.len(),
            i <= n,
            forall|k: int| 0 <= k < i ==> !#[trigger] dots_at(v@, k),
        decreases n - i,
    {
        i = i + 1;
    }
    let d = if i < n && i + 1 < n { i } else { n };
    proof {
        lemma_index_of_dots(v@, d as int);
    }
    d
}

fn store_bound(f: Filters, after: bool, r: Option<Result<Timestamp, Vec<char>>>) -> (o: Option<Result<Filters, Vec<char>>>)
    ensures
        forall|s: Option<Result<Timestamp, Seq<char>>>| outcome_is(r, s) ==> filters_outcome_is(o, with_bound(f@, after, s)),
{
    match r {
        None => None,
        Some(Err(m)) => Some(Err(m)),
        Some(Ok(t)) => if after {
            Some(Ok(Filters { after: Some(t), ..f }))
        } else {
            Some(Ok(Filters { before: Some(t), ..f }))
        },
    }
}

fn date_pair_exec(f: Filters, val: &[char], now: Timestamp, shortcuts: bool) -> (r: Option<Result<Filters, Vec<char>>>)
    requires
        valid_ts(now),
    ensures
        filters_outcome_is(r, date_pair(f@, val@, now, shortcuts)),
{
    let d = find_dots(val);
    if d < val.len() {
        let a = from_chars(&slice_vec(val, 0, d));
        let first = store_bound(f, true, instant_outcome(a.as_str(), now, shortcuts));
        match first {
            Some(Ok(g)) => {
                let b = from_chars(&slice_vec(val, d + 2, val.len()));
                store_bound(g, false, instant_outcome(b.as_str(), now, shortcuts))
            },
            other => other,
        }
    } else {
        store_bound(f, true, instant_outcome(from_chars(val).as_str(), now, shortcuts))
    }
}

fn number_pair_exec(f: Filters, exit: bool, val: &[char]) -> (r: Option<Result<Filters, Vec<char>>>)
    ensures
        filters_outcome_is(r, if exit { exit_pair(f@, val@) } else { limit_pair(f@, val@) }),
{
    if exit {
        match parse_i32_exec(val) {
            Some(x) => Some(Ok(Filters { exit: Some(x), ..f })),
            None => {
                let mut m = lit("invalid exit code: ");
                push_seq(&mut m, val);
                Some(Err(m))
            },
        }
    } else {
        match parse_usize_exec(val) {
            Some(x) => Some(Ok(Filters { limit: Some(x), ..f })),
            None => {
                let mut m = lit("invalid limit: ");
                push_seq(&mut m, val);
                Some(Err(m))
            },
        }
    }
}

fn apply_pair_exec(f: Filters, key: &[char], val: &[char], now: Timestamp, shortcuts: bool) -> (r: Option<Result<Filters, Vec<char>>>)
    requires
        valid_ts(now),
    ensures
        filters_outcome_is(r, apply_pair(f@, key@, val@, now, shortcuts)),
{
    if eq_lit(key, "cmd") {
        Some(Ok(Filters { cmd_re: Some(from_chars(val)), ..f }))
    } else if eq_lit(key, "out") {
        Some(Ok(Filters { out_re: Some(from_chars(val)), ..f }))
    } else if eq_lit(key, "reg") {
        Some(Ok(Filters { reg_re: Some(from_chars(val)), ..f }))
    } else if eq_lit(key, "com") {
        Some(Ok(Filters { com_re: Some(from_chars(val)), ..f }))
    } else if eq_lit(key, "exit") {
        number_pair_exec(f, true, val)
    } else if eq_lit(key, "limit") {
        number_pair_exec(f, false, val)
    } else if eq_lit(key, "date") {
        date_pair_exec(f, val, now, shortcuts)
    } else if eq_lit(key, "date.after") {
        store_bound(f, true, instant_outcome(from_chars(val).as_str(), now, shortcuts))
    } else if eq_lit(key, "date.before") {
        store_bound(f, false, instant_outcome(from_chars(val).as_str(), now, shortcuts))
    } else {
        let mut m = lit("unknown filter key: ");
        push_seq(&mut m, key);
        Some(Err(m))
    }
}

fn apply_token_exec(f: Filters, tok: &str, now: Timestamp, shortcuts: bool) -> (r: Option<Result<Filters, Vec<char>>>)
    requires
        valid_ts(now),
    ensures
        filters_outcome_is(r, apply_token(f@, tok@, now, shortcuts)),
{
    let v = to_chars(tok);
    let n = v.len();
    let c = crate::chars::find_char(&v, 0, n, ':');
    assert(v@.subrange(0, n as int) =~= v@);
    if c == n {
        let mut m = lit("not a filter (expected key:value): ");
        push_seq(&mut m, &v);
        return Some(Err(m));
    }
    let key = slice_vec(&v, 0, c);
    let val = slice_vec(&v, c + 1, n);
    apply_pair_exec(f, &key, &val, now, shortcuts)
}

fn filters_outcome(tokens: &[String], now: Timestamp, shortcuts: bool) -> (r: Option<Result<Filters, Vec<char>>>)
    requires
        valid_ts(now),
    ensures
        filters_outcome_is(r, spec_parse_filters(token_chars(tokens@), now, shortcuts)),
{
    let mut f = Filters::default();
    let mut i: usize = 0;
    assert(token_chars(tokens@).subrange(0, 0) =~= Seq::<Seq<char>>::empty());
    while i < tokens.len()
        invariant
            i <= tokens@.len(),
            spec_parse_filters(token_chars(tokens@).subrange(0, i as int), now, shortcuts) == Some(Ok::<FiltersView, Seq<char>>(f@)),
            valid_ts(now),
        decreases tokens.len() - i,
    {
        let ghost toks = token_chars(tokens@).subrange(0, i + 1);
        assert(toks.drop_last() =~= token_chars(tokens@).subrange(0, i as int));
        assert(toks.last() == tokens@[i as int]@);
        match apply_token_exec(f, tokens[i].as_str(), now, shortcuts) {
            Some(Ok(g)) => {
                f = g;
            },
            other => {
                proof {
                    lemma_filters_stop(token_chars(tokens@), i as int + 1, now, shortcuts);
                }
                return other;
            },
        }
        i = i + 1;
    }
    assert(token_chars(tokens@).subrange(0, tokens@.len() as int) =~= token_chars(tokens@));
    Some(Ok(f))
}

/// Once a prefix of the tokens fails or panics, the whole sequence does the same.
proof fn lemma_filters_stop(toks: Seq<Seq<char>>, k: int, now: Timestamp, shortcuts: bool)
    requires
        0 <= k <= toks.len(),
        !(spec_parse_filters(toks.subrange(0, k), now, shortcuts) matches Some(Ok(_))),
    ensures
        spec_parse_filters(toks, now, shortcuts) == spec_parse_filters(toks.subrange(0, k), now, shortcuts),
    decreases toks.len() - k,
{
    if k < toks.len() {
        let t = toks.subrange(0, k + 1);
        assert(t.drop_last() =~= toks.subrange(0, k));
        lemma_filters_stop(toks, k + 1, now, shortcuts);
    } else {
        assert(toks.subrange(0, k) =~= toks);
    }
}

/// An executable result agrees with a specified one that does not panic.
pub open spec fn filters_result_is(r: Result<Filters, String>, s: Option<Result<FiltersView, Seq<char>>>) -> bool {
    match (r, s) {
        (Ok(a), Some(Ok(b))) => a@ == b,
        (Err(a), Some(Err(b))) => a@ == b,
        _ => false,
    }
}

/// Parse filter tokens. `now` anchors relative date expressions; `shortcuts` allows the
/// bare-duration date forms (`date:3day`), disabled in standard mode.
pub fn parse(tokens: &[String], now: Timestamp, shortcuts: bool) -> (r: Result<Filters, String>)
    requires
        valid_ts(now),
        spec_parse_filters(token_chars(tokens@), now, shortcuts) is Some,
    ensures
        filters_result_is(r, spec_parse_filters(token_chars(tokens@), now, shortcuts)),
{
    match filters_outcome(tokens, now, shortcuts) {
        Some(Ok(f)) => Ok(f),
        Some(Err(m)) => Err(from_chars(&m)),
        None => {
            proof {
                assert(false);
            }
            Err(String::new())
        },
    }
}

/// Like [`parse`], but `None` where that function must not be called: where a date
/// expression's arithmetic has no result.
pub fn try_parse(tokens: &[String], now: Timestamp, shortcuts: bool) -> (r: Option<Result<Filters, String>>)
    requires
        valid_ts(now),
    ensures
        r is None <==> spec_parse_filters(token_chars(tokens@), now, shortcuts) is None,
        r matches Some(x) ==> filters_result_is(x, spec_parse_filters(token_chars(tokens@), now, shortcuts)),
{
    if filters_outcome(tokens, now, shortcuts).is_none() {
        None
    } else {
        Some(parse(tokens, now, shortcuts))
    }
}

} // verus!
