//! Taskwarrior-style date expressions, read into UTC instants.
//!
//! Grammar: `<anchor>` optionally followed by one arithmetic term `<±><N><unit>`.
//! Anchors: `now`, `today`, `yesterday`, `tomorrow`, `YYYY-MM-DD`, RFC3339 datetime.
//! Units: `s/sec`, `m/min`, `h/hour`, `d/day`, `w/week`, `mon/month`, `y/year`.

use vstd::prelude::*;
use crate::calendar::{
    add_months, add_seconds, delta_added, max_delta_secs, months_added,
    months_subtracted, opt_ts, parse_rfc3339, parse_ymd, rfc3339_parsed, sub_months, ts_of,
    ymd_midnight,
};
use crate::chars::{
    bounded_number, char_is_ws, eq_lit, from_chars, is_ws, lit, push_seq, push_str, read_number,
    slice_vec, to_chars, trim, trim_range,
};
use crate::model::{max_secs, min_secs, valid_ts, Timestamp};

verus! {

/// A Unicode decimal digit (general category Nd), what `\d` matches.
pub open spec fn is_digit_class(c: char) -> bool {
    ||| ('\u{30}' <= c && c <= '\u{39}')
    ||| ('\u{660}' <= c && c <= '\u{669}')
    ||| ('\u{6f0}' <= c && c <= '\u{6f9}')
    ||| ('\u{7c0}' <= c && c <= '\u{7c9}')
    ||| ('\u{966}' <= c && c <= '\u{96f}')
    ||| ('\u{9e6}' <= c && c <= '\u{9ef}')
    ||| ('\u{a66}' <= c && c <= '\u{a6f}')
    ||| ('\u{ae6}' <= c && c <= '\u{aef}')
    ||| ('\u{b66}' <= c && c <= '\u{b6f}')
    ||| ('\u{be6}' <= c && c <= '\u{bef}')
    ||| ('\u{c66}' <= c && c <= '\u{c6f}')
    ||| ('\u{ce6}' <= c && c <= '\u{cef}')
    ||| ('\u{d66}' <= c && c <= '\u{d6f}')
    ||| ('\u{de6}' <= c && c <= '\u{def}')
    ||| ('\u{e50}' <= c && c <= '\u{e59}')
    ||| ('\u{ed0}' <= c && c <= '\u{ed9}')
    ||| ('\u{f20}' <= c && c <= '\u{f29}')
    ||| ('\u{1040}' <= c && c <= '\u{1049}')
    ||| ('\u{1090}' <= c && c <= '\u{1099}')
    ||| ('\u{17e0}' <= c && c <= '\u{17e9}')
    ||| ('\u{1810}' <= c && c <= '\u{1819}')
    ||| ('\u{1946}' <= c && c <= '\u{194f}')
    ||| ('\u{19d0}' <= c && c <= '\u{19d9}')
    ||| ('\u{1a80}' <= c && c <= '\u{1a89}')
    ||| ('\u{1a90}' <= c && c <= '\u{1a99}')
    ||| ('\u{1b50}' <= c && c <= '\u{1b59}')
    ||| ('\u{1bb0}' <= c && c <= '\u{1bb9}')
    ||| ('\u{1c40}' <= c && c <= '\u{1c49}')
    ||| ('\u{1c50}' <= c && c <= '\u{1c59}')
    ||| ('\u{a620}' <= c && c <= '\u{a629}')
    ||| ('\u{a8d0}' <= c && c <= '\u{a8d9}')
    ||| ('\u{a900}' <= c && c <= '\u{a909}')
    ||| ('\u{a9d0}' <= c && c <= '\u{a9d9}')
    ||| ('\u{a9f0}' <= c && c <= '\u{a9f9}')
    ||| ('\u{aa50}' <= c && c <= '\u{aa59}')
    ||| ('\u{abf0}' <= c && c <= '\u{abf9}')
    ||| ('\u{ff10}' <= c && c <= '\u{ff19}')
    ||| ('\u{104a0}' <= c && c <= '\u{104a9}')
    ||| ('\u{10d30}' <= c && c <= '\u{10d39}')
    ||| ('\u{10d40}' <= c && c <= '\u{10d49}')
    ||| ('\u{11066}' <= c && c <= '\u{1106f}')
    ||| ('\u{110f0}' <= c && c <= '\u{110f9}')
    ||| ('\u{11136}' <= c && c <= '\u{1113f}')
    ||| ('\u{111d0}' <= c && c <= '\u{111d9}')
    ||| ('\u{112f0}' <= c && c <= '\u{112f9}')
    ||| ('\u{11450}' <= c && c <= '\u{11459}')
    ||| ('\u{114d0}' <= c && c <= '\u{114d9}')
    ||| ('\u{11650}' <= c && c <= '\u{11659}')
    ||| ('\u{116c0}' <= c && c <= '\u{116c9}')
    ||| ('\u{116d0}' <= c && c <= '\u{116e3}')
    ||| ('\u{11730}' <= c && c <= '\u{11739}')
    ||| ('\u{118e0}' <= c && c <= '\u{118e9}')
    ||| ('\u{11950}' <= c && c <= '\u{11959}')
    ||| ('\u{11bf0}' <= c && c <= '\u{11bf9}')
    ||| ('\u{11c50}' <= c && c <= '\u{11c59}')
    ||| ('\u{11d50}' <= c && c <= '\u{11d59}')
    ||| ('\u{11da0}' <= c && c <= '\u{11da9}')
    ||| ('\u{11f50}' <= c && c <= '\u{11f59}')
    ||| ('\u{16130}' <= c && c <= '\u{16139}')
    ||| ('\u{16a60}' <= c && c <= '\u{16a69}')
    ||| ('\u{16ac0}' <= c && c <= '\u{16ac9}')
    ||| ('\u{16b50}' <= c && c <= '\u{16b59}')
    ||| ('\u{16d70}' <= c && c <= '\u{16d79}')
    ||| ('\u{1ccf0}' <= c && c <= '\u{1ccf9}')
    ||| ('\u{1d7ce}' <= c && c <= '\u{1d7ff}')
    ||| ('\u{1e140}' <= c && c <= '\u{1e149}')
    ||| ('\u{1e2f0}' <= c && c <= '\u{1e2f9}')
    ||| ('\u{1e4f0}' <= c && c <= '\u{1e4f9}')
    ||| ('\u{1e5f1}' <= c && c <= '\u{1e5fa}')
    ||| ('\u{1e950}' <= c && c <= '\u{1e959}')
    ||| ('\u{1fbf0}' <= c && c <= '\u{1fbf9}')
}

fn digit_class(c: char) -> (b: bool)
    ensures
        b == is_digit_class(c),
{
        ('\u{30}' <= c && c <= '\u{39}') ||
        ('\u{660}' <= c && c <= '\u{669}') ||
        ('\u{6f0}' <= c && c <= '\u{6f9}') ||
        ('\u{7c0}' <= c && c <= '\u{7c9}') ||
        ('\u{966}' <= c && c <= '\u{96f}') ||
        ('\u{9e6}' <= c && c <= '\u{9ef}') ||
        ('\u{a66}' <= c && c <= '\u{a6f}') ||
        ('\u{ae6}' <= c && c <= '\u{aef}') ||
        ('\u{b66}' <= c && c <= '\u{b6f}') ||
        ('\u{be6}' <= c && c <= '\u{bef}') ||
        ('\u{c66}' <= c && c <= '\u{c6f}') ||
        ('\u{ce6}' <= c && c <= '\u{cef}') ||
        ('\u{d66}' <= c && c <= '\u{d6f}') ||
        ('\u{de6}' <= c && c <= '\u{def}') ||
        ('\u{e50}' <= c && c <= '\u{e59}') ||
        ('\u{ed0}' <= c && c <= '\u{ed9}') ||
        ('\u{f20}' <= c && c <= '\u{f29}') ||
        ('\u{1040}' <= c && c <= '\u{1049}') ||
        ('\u{1090}' <= c && c <= '\u{1099}') ||
        ('\u{17e0}' <= c && c <= '\u{17e9}') ||
        ('\u{1810}' <= c && c <= '\u{1819}') ||
        ('\u{1946}' <= c && c <= '\u{194f}') ||
        ('\u{19d0}' <= c && c <= '\u{19d9}') ||
        ('\u{1a80}' <= c && c <= '\u{1a89}') ||
        ('\u{1a90}' <= c && c <= '\u{1a99}') ||
        ('\u{1b50}' <= c && c <= '\u{1b59}') ||
        ('\u{1bb0}' <= c && c <= '\u{1bb9}') ||
        ('\u{1c40}' <= c && c <= '\u{1c49}') ||
        ('\u{1c50}' <= c && c <= '\u{1c59}') ||
        ('\u{a620}' <= c && c <= '\u{a629}') ||
        ('\u{a8d0}' <= c && c <= '\u{a8d9}') ||
        ('\u{a900}' <= c && c <= '\u{a909}') ||
        ('\u{a9d0}' <= c && c <= '\u{a9d9}') ||
        ('\u{a9f0}' <= c && c <= '\u{a9f9}') ||
        ('\u{aa50}' <= c && c <= '\u{aa59}') ||
        ('\u{abf0}' <= c && c <= '\u{abf9}') ||
        ('\u{ff10}' <= c && c <= '\u{ff19}') ||
        ('\u{104a0}' <= c && c <= '\u{104a9}') ||
        ('\u{10d30}' <= c && c <= '\u{10d39}') ||
        ('\u{10d40}' <= c && c <= '\u{10d49}') ||
        ('\u{11066}' <= c && c <= '\u{1106f}') ||
        ('\u{110f0}' <= c && c <= '\u{110f9}') ||
        ('\u{11136}' <= c && c <= '\u{1113f}') ||
        ('\u{111d0}' <= c && c <= '\u{111d9}') ||
        ('\u{112f0}' <= c && c <= '\u{112f9}') ||
        ('\u{11450}' <= c && c <= '\u{11459}') ||
        ('\u{114d0}' <= c && c <= '\u{114d9}') ||
        ('\u{11650}' <= c && c <= '\u{11659}') ||
        ('\u{116c0}' <= c && c <= '\u{116c9}') ||
        ('\u{116d0}' <= c && c <= '\u{116e3}') ||
        ('\u{11730}' <= c && c <= '\u{11739}') ||
        ('\u{118e0}' <= c && c <= '\u{118e9}') ||
        ('\u{11950}' <= c && c <= '\u{11959}') ||
        ('\u{11bf0}' <= c && c <= '\u{11bf9}') ||
        ('\u{11c50}' <= c && c <= '\u{11c59}') ||
        ('\u{11d50}' <= c && c <= '\u{11d59}') ||
        ('\u{11da0}' <= c && c <= '\u{11da9}') ||
        ('\u{11f50}' <= c && c <= '\u{11f59}') ||
        ('\u{16130}' <= c && c <= '\u{16139}') ||
        ('\u{16a60}' <= c && c <= '\u{16a69}') ||
        ('\u{16ac0}' <= c && c <= '\u{16ac9}') ||
        ('\u{16b50}' <= c && c <= '\u{16b59}') ||
        ('\u{16d70}' <= c && c <= '\u{16d79}') ||
        ('\u{1ccf0}' <= c && c <= '\u{1ccf9}') ||
        ('\u{1d7ce}' <= c && c <= '\u{1d7ff}') ||
        ('\u{1e140}' <= c && c <= '\u{1e149}') ||
        ('\u{1e2f0}' <= c && c <= '\u{1e2f9}') ||
        ('\u{1e4f0}' <= c && c <= '\u{1e4f9}') ||
        ('\u{1e5f1}' <= c && c <= '\u{1e5fa}') ||
        ('\u{1e950}' <= c && c <= '\u{1e959}') ||
        ('\u{1fbf0}' <= c && c <= '\u{1fbf9}')
}

/// A letter that `(?i)[a-z]` matches: ASCII letters of either case, and the two characters
/// that fold to `s` and `k` (LATIN SMALL LETTER LONG S, KELVIN SIGN).
pub open spec fn is_letter_class(c: char) -> bool {
    ('a' <= c && c <= 'z') || ('A' <= c && c <= 'Z') || c == '\u{17f}' || c == '\u{212a}'
}

fn letter_class(c: char) -> (b: bool)
    ensures
        b == is_letter_class(c),
{
    ('a' <= c && c <= 'z') || ('A' <= c && c <= 'Z') || c == '\u{17f}' || c == '\u{212a}'
}

/// The end of the run of white space that starts at `i`.
pub open spec fn skip_ws(s: Seq<char>, i: int) -> int
    decreases s.len() - i,
{
    if 0 <= i < s.len() && is_ws(s[i]) { skip_ws(s, i + 1) } else { i }
}

/// The end of the run of digits that starts at `i`.
pub open spec fn skip_digits(s: Seq<char>, i: int) -> int
    decreases s.len() - i,
{
    if 0 <= i < s.len() && is_digit_class(s[i]) { skip_digits(s, i + 1) } else { i }
}

/// The end of the run of letters that starts at `i`.
pub open spec fn skip_letters(s: Seq<char>, i: int) -> int
    decreases s.len() - i,
{
    if 0 <= i < s.len() && is_letter_class(s[i]) { skip_letters(s, i + 1) } else { i }
}

/// Where the sign of a term that starts at `i` stands.
pub open spec fn sign_pos(e: Seq<char>, i: int) -> int {
    skip_ws(e, i)
}

/// Where the number of a term that starts at `i` begins.
pub open spec fn num_start(e: Seq<char>, i: int) -> int {
    skip_ws(e, sign_pos(e, i) + 1)
}

/// Where the number of a term that starts at `i` ends.
pub open spec fn num_end(e: Seq<char>, i: int) -> int {
    skip_digits(e, num_start(e, i))
}

/// Where the unit of a term that starts at `i` begins.
pub open spec fn unit_start(e: Seq<char>, i: int) -> int {
    skip_ws(e, num_end(e, i))
}

/// Where the unit of a term that starts at `i` ends.
pub open spec fn unit_end(e: Seq<char>, i: int) -> int {
    skip_letters(e, unit_start(e, i))
}

/// `e[i..]` is an arithmetic term: `\s*[+-]\s*\d+\s*[a-z]+\s*` (letters of either case)
/// running to the end of `e`.
pub open spec fn term_at(e: Seq<char>, i: int) -> bool {
    &&& sign_pos(e, i) < e.len()
    &&& (e[sign_pos(e, i)] == '+' || e[sign_pos(e, i)] == '-')
    &&& num_end(e, i) > num_start(e, i)
    &&& unit_end(e, i) > unit_start(e, i)
    &&& skip_ws(e, unit_end(e, i)) == e.len()
}

/// The shortest anchor, searching from `i`, after which a term follows; the anchor cannot
/// run past a line feed (a lazy `^(.*?)` match).
pub open spec fn find_term(e: Seq<char>, i: int) -> Option<int>
    decreases e.len() - i,
{
    if i < 0 || i > e.len() {
        None
    } else if term_at(e, i) {
        Some(i)
    } else if i < e.len() && e[i] != '\n' {
        find_term(e, i + 1)
    } else {
        None
    }
}

/// What `find_term` finds is a term start.
pub proof fn lemma_find_term(e: Seq<char>, j: int)
    ensures
        find_term(e, j) matches Some(i) ==> j <= i <= e.len() && term_at(e, i),
    decreases e.len() - j,
{
    if 0 <= j <= e.len() && !term_at(e, j) && j < e.len() && e[j] != '\n' {
        lemma_find_term(e, j + 1);
    }
}

/// `e` is a bare duration: `\d+\s*[a-z]+` and nothing else.
pub open spec fn bare_at(e: Seq<char>) -> bool {
    let c = skip_digits(e, 0);
    let d = skip_ws(e, c);
    let f = skip_letters(e, d);
    c > 0 && f > d && f == e.len()
}

/// ASCII lower case of one character.
pub open spec fn lower(c: char) -> char {
    if 'A' <= c && c <= 'Z' { ((c as int) + 32) as char } else { c }
}

/// ASCII lower case of a string, as `to_ascii_lowercase` gives it.
pub open spec fn ascii_lower(s: Seq<char>) -> Seq<char> {
    s.map_values(|c: char| lower(c))
}

/// Units that count from `now` when the anchor is left out.
pub open spec fn is_sub_day_unit(u: Seq<char>) -> bool {
    unit_seconds(u) is Some && unit_seconds(u)->0 < 86400
}

/// Seconds in one unit, for the fixed-length units.
pub open spec fn unit_seconds(u: Seq<char>) -> Option<int> {
    if u == "s"@ || u == "sec"@ || u == "secs"@ || u == "second"@ || u == "seconds"@ {
        Some(1)
    } else if u == "m"@ || u == "min"@ || u == "mins"@ || u == "minute"@ || u == "minutes"@ {
        Some(60)
    } else if u == "h"@ || u == "hr"@ || u == "hrs"@ || u == "hour"@ || u == "hours"@ {
        Some(3600)
    } else if u == "d"@ || u == "day"@ || u == "days"@ {
        Some(86400)
    } else if u == "w"@ || u == "wk"@ || u == "wks"@ || u == "week"@ || u == "weeks"@ {
        Some(604800)
    } else {
        None
    }
}

/// The month units.
pub open spec fn is_month_unit(u: Seq<char>) -> bool {
    u == "mon"@ || u == "month"@ || u == "months"@
}

/// The year units.
pub open spec fn is_year_unit(u: Seq<char>) -> bool {
    u == "y"@ || u == "yr"@ || u == "yrs"@ || u == "year"@ || u == "years"@
}

/// Midnight (UTC) of the day of `t`.
pub open spec fn midnight(t: Timestamp) -> Timestamp {
    Timestamp { secs: (t.secs - t.secs % 86400) as i64, nanos: 0 }
}

/// The anchor used when an expression gives only a duration: `now` for units shorter
/// than a day, `today` otherwise.
pub open spec fn default_base(unit: Seq<char>, now: Timestamp) -> Timestamp {
    if is_sub_day_unit(ascii_lower(unit)) { now } else { midnight(now) }
}

/// What an anchor denotes relative to `now`: `Some(Ok(t))`, `Some(Err(message))`, or
/// `None` where a day before or after `today` leaves chrono's range.
pub open spec fn spec_anchor(s: Seq<char>, now: Timestamp) -> Option<Result<Timestamp, Seq<char>>> {
    let m = midnight(now);
    if s == "now"@ {
        Some(Ok(now))
    } else if s == "today"@ {
        Some(Ok(m))
    } else if s == "yesterday"@ {
        if m.secs - 86400 < min_secs() { None } else { Some(Ok(Timestamp { secs: (m.secs - 86400) as i64, nanos: 0 })) }
    } else if s == "tomorrow"@ {
        if m.secs + 86400 > max_secs() { None } else { Some(Ok(Timestamp { secs: (m.secs + 86400) as i64, nanos: 0 })) }
    } else {
        match ymd_midnight(s) {
            Some(p) => Some(Ok(ts_of(p))),
            None => match rfc3339_parsed(s) {
                Ok(p) => Some(Ok(ts_of(p))),
                Err(_) => Some(Err("unrecognized date anchor: "@ + s)),
            },
        }
    }
}

/// A chrono result as an outcome: the instant, or the overflow error.
pub open spec fn arith_outcome(o: Option<(i64, u32)>) -> Option<Result<Timestamp, Seq<char>>> {
    match o {
        Some(p) => Some(Ok(ts_of(p))),
        None => Some(Err("date arithmetic overflow"@)),
    }
}

/// `base` moved by `delta` seconds, as chrono's `checked_add_signed` does it: outside a
/// leap second the seconds count moves by `delta` (`None` when that leaves chrono's
/// range); within a leap second the outcome is chrono's, named `delta_added`.
pub open spec fn seconds_moved(base: Timestamp, delta: i64) -> Option<(i64, u32)> {
    if base.nanos < 1_000_000_000 {
        if min_secs() <= base.secs + delta <= max_secs() {
            Some(((base.secs + delta) as i64, base.nanos))
        } else {
            None
        }
    } else {
        delta_added(base.secs, base.nanos, delta)
    }
}

/// `base` moved by `n` units (back when `neg`); `None` where the step has no result: a
/// fixed-length span past `TimeDelta`'s range, or a year count whose months overflow `u32`.
/// Month and year counts are first cut to `u32`, as `n as u32` does.
pub open spec fn spec_apply_term(base: Timestamp, neg: bool, n: nat, unit: Seq<char>) -> Option<Result<Timestamp, Seq<char>>> {
    let u = ascii_lower(unit);
    match unit_seconds(u) {
        Some(k) => if n * k > max_delta_secs() {
            None
        } else {
            arith_outcome(seconds_moved(base, (if neg { -(n * k) } else { n * k }) as i64))
        },
        None => if is_month_unit(u) || is_year_unit(u) {
            let m = n % 0x1_0000_0000;
            if is_year_unit(u) && m * 12 > u32::MAX {
                None
            } else {
                let months = (if is_year_unit(u) { m * 12 } else { m }) as u32;
                arith_outcome(if neg {
                    months_subtracted(base.secs, base.nanos, months)
                } else {
                    months_added(base.secs, base.nanos, months)
                })
            }
        } else {
            Some(Err("unrecognized time unit: "@ + u))
        },
    }
}

/// What a date expression denotes relative to `now`, or its error message; `None` where
/// its arithmetic has no result. `shortcuts` allows leaving the anchor out.
pub open spec fn spec_parse_instant(expr: Seq<char>, now: Timestamp, shortcuts: bool) -> Option<Result<Timestamp, Seq<char>>> {
    let e = trim(expr);
    if e.len() == 0 {
        Some(Err("empty date expression"@))
    } else {
        match find_term(e, 0) {
            Some(i) => {
                let neg = e[sign_pos(e, i)] == '-';
                let digits = e.subrange(num_start(e, i), num_end(e, i));
                let unit = e.subrange(unit_start(e, i), unit_end(e, i));
                if i == 0 && !shortcuts {
                    Some(Err("date `"@ + e + "` needs an explicit anchor in standard mode (e.g. today"@ + e + ")"@))
                } else {
                    let base = if i == 0 { Some(Ok(default_base(unit, now))) } else { spec_anchor(e.subrange(0, i), now) };
                    match base {
                        Some(Ok(t)) => match bounded_number(digits, i64::MAX as int) {
                            Some(n) => spec_apply_term(t, neg, n, unit),
                            None => Some(Err("number too large: "@ + digits)),
                        },
                        other => other,
                    }
                }
            },
            None => if bare_at(e) {
                if !shortcuts {
                    Some(Err("bare duration `"@ + e + "` needs quick mode; use e.g. today-"@ + e))
                } else {
                    let c = skip_digits(e, 0);
                    let digits = e.subrange(0, c);
                    let unit = e.subrange(skip_ws(e, c), e.len() as int);
                    match bounded_number(digits, i64::MAX as int) {
                        Some(n) => spec_apply_term(default_base(unit, now), true, n, unit),
                        None => Some(Err("number too large: "@ + digits)),
                    }
                }
            } else {
                spec_anchor(e, now)
            },
        }
    }
}

/// An executable outcome agrees with a specified one.
pub open spec fn outcome_is(r: Option<Result<Timestamp, Vec<char>>>, s: Option<Result<Timestamp, Seq<char>>>) -> bool {
    match (r, s) {
        (None, None) => true,
        (Some(Ok(a)), Some(Ok(b))) => a == b,
        (Some(Err(a)), Some(Err(b))) => a@ == b,
        _ => false,
    }
}

fn skip_ws_exec(v: &[char], i: usize) -> (j: usize)
    requires
        i <= v@.len(),
    ensures
        j == skip_ws(v@, i as int),
        i <= j <= v@.len(),
{
    let mut j = i;
    while j < v.len() && char_is_ws(v[j])
        invariant
            i <= j <= v@.len(),
            skip_ws(v@, i as int) == skip_ws(v@, j as int),
        decreases v.len() - j,
    {
        j = j + 1;
    }
    j
}

fn skip_digits_exec(v: &[char], i: usize) -> (j: usize)
    requires
        i <= v@.len(),
    ensures
        j == skip_digits(v@, i as int),
        i <= j <= v@.len(),
{
    let mut j = i;
    while j < v.len() && digit_class(v[j])
        invariant
            i <= j <= v@.len(),
            skip_digits(v@, i as int) == skip_digits(v@, j as int),
        decreases v.len() - j,
    {
        j = j + 1;
    }
    j
}

fn skip_letters_exec(v: &[char], i: usize) -> (j: usize)
    requires
        i <= v@.len(),
    ensures
        j == skip_letters(v@, i as int),
        i <= j <= v@.len(),
{
    let mut j = i;
    while j < v.len() && letter_class(v[j])
        invariant
            i <= j <= v@.len(),
            skip_letters(v@, i as int) == skip_letters(v@, j as int),
        decreases v.len() - j,
    {
        j = j + 1;
    }
    j
}

fn term_at_exec(e: &[char], i: usize) -> (b: bool)
    requires
        i <= e@.len(),
    ensures
        b == term_at(e@, i as int),
{
    let a = skip_ws_exec(e, i);
    if a >= e.len() || !(e[a] == '+' || e[a] == '-') {
        return false;
    }
    let b = skip_ws_exec(e, a + 1);
    let c = skip_digits_exec(e, b);
    if c == b {
        return false;
    }
    let d = skip_ws_exec(e, c);
    let f = skip_letters_exec(e, d);
    if f == d {
        return false;
    }
    skip_ws_exec(e, f) == e.len()
}

fn find_term_exec(e: &[char]) -> (r: Option<usize>)
    ensures
        match r {
            Some(i) => find_term(e@, 0) == Some(i as int) && i <= e@.len(),
            None => find_term(e@, 0) is None,
        },
{
    let mut i: usize = 0;
    loop
        invariant
            i <= e@.len(),
            find_term(e@, 0) == find_term(e@, i as int),
        decreases e@.len() - i,
    {
        if term_at_exec(e, i) {
            return Some(i);
        }
        if i == e.len() || e[i] == '\n' {
            return None;
        }
        i = i + 1;
    }
}

fn lower_exec(v: &[char]) -> (r: Vec<char>)
    ensures
        r@ == ascii_lower(v@),
{
    let mut r: Vec<char> = Vec::new();
    let mut i: usize = 0;
    while i < v.len()
        invariant
            i <= v@.len(),
            r@ == ascii_lower(v@.subrange(0, i as int)),
        decreases v.len() - i,
    {
        let c = v[i];
        let l = if 'A' <= c && c <= 'Z' { ((c as u8) + 32) as char } else { c };
        assert(ascii_lower(v@.subrange(0, i + 1)) =~= ascii_lower(v@.subrange(0, i as int)).push(l));
        r.push(l);
        i = i + 1;
    }
    assert(v@.subrange(0, v@.len() as int) =~= v@);
    r
}

fn unit_seconds_exec(u: &[char]) -> (r: Option<i64>)
    ensures
        match r {
            Some(k) => unit_seconds(u@) == Some(k as int),
            None => unit_seconds(u@) is None,
        },
{
    if eq_lit(u, "s") || eq_lit(u, "sec") || eq_lit(u, "secs") || eq_lit(u, "second") || eq_lit(u, "seconds") {
        Some(1)
    } else if eq_lit(u, "m") || eq_lit(u, "min") || eq_lit(u, "mins") || eq_lit(u, "minute") || eq_lit(u, "minutes") {
        Some(60)
    } else if eq_lit(u, "h") || eq_lit(u, "hr") || eq_lit(u, "hrs") || eq_lit(u, "hour") || eq_lit(u, "hours") {
        Some(3600)
    } else if eq_lit(u, "d") || eq_lit(u, "day") || eq_lit(u, "days") {
        Some(86400)
    } else if eq_lit(u, "w") || eq_lit(u, "wk") || eq_lit(u, "wks") || eq_lit(u, "week") || eq_lit(u, "weeks") {
        Some(604800)
    } else {
        None
    }
}

fn midnight_exec(t: Timestamp) -> (m: Timestamp)
    requires
        valid_ts(t),
    ensures
        m == midnight(t),
        valid_ts(m),
{
    let r = t.secs % 86400;
    let r = if r < 0 { r + 86400 } else { r };
    assert(r == t.secs % 86400);
    Timestamp { secs: t.secs - r, nanos: 0 }
}

fn default_base_exec(unit: &[char], now: Timestamp) -> (t: Timestamp)
    requires
        valid_ts(now),
    ensures
        t == default_base(unit@, now),
        valid_ts(t),
{
    let u = lower_exec(unit);
    match unit_seconds_exec(&u) {
        Some(k) => if k < 86400 { now } else { midnight_exec(now) },
        None => midnight_exec(now),
    }
}

fn anchor_exec(s: &[char], now: Timestamp) -> (r: Option<Result<Timestamp, Vec<char>>>)
    requires
        valid_ts(now),
    ensures
        outcome_is(r, spec_anchor(s@, now)),
        r matches Some(Ok(t)) ==> valid_ts(t),
{
    let m = midnight_exec(now);
    if eq_lit(s, "now") {
        Some(Ok(now))
    } else if eq_lit(s, "today") {
        Some(Ok(m))
    } else if eq_lit(s, "yesterday") {
        if m.secs < -8334601315200 + 86400 {
            None
        } else {
            Some(Ok(Timestamp { secs: m.secs - 86400, nanos: 0 }))
        }
    } else if eq_lit(s, "tomorrow") {
        if m.secs > 8210266876799 - 86400 {
            None
        } else {
            Some(Ok(Timestamp { secs: m.secs + 86400, nanos: 0 }))
        }
    } else {
        let text = from_chars(s);
        match parse_ymd(text.as_str()) {
            Some(t) => Some(Ok(t)),
            None => match parse_rfc3339(text.as_str()) {
                Ok(t) => Some(Ok(t)),
                Err(_) => {
                    let mut msg = lit("unrecognized date anchor: ");
                    push_seq(&mut msg, s);
                    Some(Err(msg))
                },
            },
        }
    }
}

fn overflow_outcome(o: Option<Timestamp>) -> (r: Option<Result<Timestamp, Vec<char>>>)
    ensures
        r is Some,
        o matches Some(t) ==> r == Some(Ok::<Timestamp, Vec<char>>(t)),
        o is None ==> (r matches Some(Err(m)) && m@ == "date arithmetic overflow"@),
{
    match o {
        Some(t) => Some(Ok(t)),
        None => Some(Err(lit("date arithmetic overflow"))),
    }
}

fn apply_term_exec(base: Timestamp, neg: bool, n: u64, unit: &[char]) -> (r: Option<Result<Timestamp, Vec<char>>>)
    requires
        valid_ts(base),
        n <= i64::MAX,
    ensures
        outcome_is(r, spec_apply_term(base, neg, n as nat, unit@)),
        r matches Some(Ok(t)) ==> valid_ts(t),
{
    let u = lower_exec(unit);
    match unit_seconds_exec(&u) {
        Some(k) => {
            if n > 9_223_372_036_854_775u64 / (k as u64) {
                assert(n * k > max_delta_secs()) by (nonlinear_arith)
                    requires
                        n > 9_223_372_036_854_775u64 / (k as u64),
                        k >= 1,
                ;
                return None;
            }
            assert(n * k <= max_delta_secs()) by (nonlinear_arith)
                requires
                    n <= 9_223_372_036_854_775u64 / (k as u64),
                    k >= 1,
            ;
            let span = (n as i64) * k;
            let delta = if neg { -span } else { span };
            let r = overflow_outcome(add_seconds(base, delta));
            proof {
                let o = delta_added(base.secs, base.nanos, delta);
                assert(opt_ts(o) matches Some(t) ==> o matches Some(p) && t == ts_of(p));
                assert(opt_ts(seconds_moved(base, delta)) == opt_ts(o));
            }
            r
        },
        None => {
            let month = eq_lit(&u, "mon") || eq_lit(&u, "month") || eq_lit(&u, "months");
            let year = eq_lit(&u, "y") || eq_lit(&u, "yr") || eq_lit(&u, "yrs") || eq_lit(&u, "year") || eq_lit(&u, "years");
            if month || year {
                let m = n as u32;
                assert(m == n % 0x1_0000_0000) by (bit_vector)
                    requires
                        m == n as u32,
                ;
                if year && m > u32::MAX / 12 {
                    return None;
                }
                let months = if year { m * 12 } else { m };
                let o = if neg { sub_months(base, months) } else { add_months(base, months) };
                let r = overflow_outcome(o);
                r
            } else {
                let mut msg = lit("unrecognized time unit: ");
                push_seq(&mut msg, &u);
                Some(Err(msg))
            }
        },
    }
}

fn number_too_large(e: &[char], lo: usize, hi: usize) -> (r: Option<Result<Timestamp, Vec<char>>>)
    requires
        lo <= hi <= e@.len(),
    ensures
        r matches Some(Err(m)) && m@ == "number too large: "@ + e@.subrange(lo as int, hi as int),
        !(r matches Some(Ok(_))),
{
    let mut msg = lit("number too large: ");
    let digits = slice_vec(e, lo, hi);
    push_seq(&mut msg, &digits);
    Some(Err(msg))
}

pub(crate) fn instant_outcome(expr: &str, now: Timestamp, shortcuts: bool) -> (r: Option<Result<Timestamp, Vec<char>>>)
    requires
        valid_ts(now),
    ensures
        outcome_is(r, spec_parse_instant(expr@, now, shortcuts)),
        r matches Some(Ok(t)) ==> valid_ts(t),
{
    let v = to_chars(expr);
    let e = trim_range(&v, 0, v.len());
    assert(v@.subrange(0, v@.len() as int) =~= v@);
    if e.len() == 0 {
        return Some(Err(lit("empty date expression")));
    }
    match find_term_exec(&e) {
        Some(i) => {
            proof {
                lemma_find_term(e@, 0);
            }
            let a = skip_ws_exec(&e, i);
            let neg = e[a] == '-';
            let b = skip_ws_exec(&e, a + 1);
            let c = skip_digits_exec(&e, b);
            let d = skip_ws_exec(&e, c);
            let f = skip_letters_exec(&e, d);
            let unit = slice_vec(&e, d, f);
            if i == 0 && !shortcuts {
                let mut msg = lit("date `");
                push_seq(&mut msg, &e);
                push_str(&mut msg, "` needs an explicit anchor in standard mode (e.g. today");
                push_seq(&mut msg, &e);
                push_str(&mut msg, ")");
                return Some(Err(msg));
            }
            let base = if i == 0 {
                default_base_exec(&unit, now)
            } else {
                let anchor = slice_vec(&e, 0, i);
                match anchor_exec(&anchor, now) {
                    Some(Ok(t)) => t,
                    other => {
                        return other;
                    },
                }
            };
            match read_number(&e, b, c, i64::MAX as u64) {
                Some(n) => apply_term_exec(base, neg, n, &unit),
                None => number_too_large(&e, b, c),
            }
        },
        None => {
            let c = skip_digits_exec(&e, 0);
            let d = skip_ws_exec(&e, c);
            let f = skip_letters_exec(&e, d);
            if c > 0 && f > d && f == e.len() {
                if !shortcuts {
                    let mut msg = lit("bare duration `");
                    push_seq(&mut msg, &e);
                    push_str(&mut msg, "` needs quick mode; use e.g. today-");
                    push_seq(&mut msg, &e);
                    return Some(Err(msg));
                }
                let unit = slice_vec(&e, d, e.len());
                match read_number(&e, 0, c, i64::MAX as u64) {
                    Some(n) => apply_term_exec(default_base_exec(&unit, now), true, n, &unit),
                    None => number_too_large(&e, 0, c),
                }
            } else {
                anchor_exec(&e, now)
            }
        },
    }
}

/// An executable result agrees with a specified one that does not panic.
pub open spec fn result_is(r: Result<Timestamp, String>, s: Option<Result<Timestamp, Seq<char>>>) -> bool {
    match (r, s) {
        (Ok(a), Some(Ok(b))) => a == b,
        (Err(a), Some(Err(b))) => a@ == b,
        _ => false,
    }
}

/// Parse a date expression into a UTC instant, relative to `now`.
///
/// When `shortcuts` is true, a bare duration (`3day`) or a leading-sign duration (`-3day`)
/// is shorthand for the default anchor minus/plus that duration (`date:3day` ==
/// `date:today-3day`; `date:2h` == `date:now-2h`). When false (standard mode), only
/// explicit anchors are accepted.
pub fn parse_instant(expr: &str, now: Timestamp, shortcuts: bool) -> (r: Result<Timestamp, String>)
    requires
        valid_ts(now),
        spec_parse_instant(expr@, now, shortcuts) is Some,
    ensures
        result_is(r, spec_parse_instant(expr@, now, shortcuts)),
        r matches Ok(t) ==> valid_ts(t),
{
    match instant_outcome(expr, now, shortcuts) {
        Some(Ok(t)) => {
            Ok(t)
        },
        Some(Err(m)) => Err(from_chars(&m)),
        None => {
            proof {
                assert(false);
            }
            Err(String::new())
        },
    }
}

/// Like [`parse_instant`], but `None` where that function must not be called: on the
/// expressions whose arithmetic has no result (chrono would panic there).
pub fn try_parse_instant(expr: &str, now: Timestamp, shortcuts: bool) -> (r: Option<Result<Timestamp, String>>)
    requires
        valid_ts(now),
    ensures
        r is None <==> spec_parse_instant(expr@, now, shortcuts) is None,
        r matches Some(x) ==> result_is(x, spec_parse_instant(expr@, now, shortcuts)),
{
    if instant_outcome(expr, now, shortcuts).is_none() {
        None
    } else {
        Some(parse_instant(expr, now, shortcuts))
    }
}

} // verus!
