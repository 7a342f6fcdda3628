//! Properties that relate several calls of the library, proved over its specifications.

use vstd::prelude::*;
use crate::config::{apply_line, apply_lines, apply_setting, default_config, spec_parse, ColorMode, Config, Mode};
use crate::cli::{escape_quotes, is_shell_safe, spec_quote};
use crate::chars::{dec, dec_int, digit_char, pad_left, pad_right, spaces, joined, index_of, is_ws, lemma_index_of, trim, trim_end, trim_start};
use crate::filter::{
    apply_token, date_pair, empty_filters, index_of_dots, spec_parse_filters, with_bound,
    FiltersView,
};
use crate::model::{valid_ts, Run, Timestamp};
use crate::stored::{query_rows, sql_rows};
use crate::query::{capped, first_regex_error, passes, passing, regex_error, regex_matches, spec_select};
use crate::render::{
    div_round_even, duration_tenths,
    hex_val, is_hex, Rgb,
    first_line, header_line, shown_comment, spec_bg, spec_format_list, spec_human_duration,
    spec_prefix, spec_row, spec_rows, spec_status, spec_stripe, start_text, ListStyle, avail_cols, sat_sub, six_hex, spec_parse_hex, spec_styled_line, styled_body, truncate};
use crate::timequery::{
    ascii_lower, bare_at, default_base, midnight, find_term, is_digit_class, is_letter_class,
    is_sub_day_unit, num_end, num_start, sign_pos, skip_digits, skip_letters, skip_ws,
    spec_anchor, spec_apply_term, spec_parse_instant, term_at, unit_end, unit_start,
};
use crate::calendar::{max_delta_secs, months_added, months_subtracted, ts_of};
use crate::model::{max_secs, min_secs};

verus! {

proof fn lemma_skip_ws_concat(a: Seq<char>, b: Seq<char>, j: int)
    requires
        0 <= j <= b.len(),
    ensures
        skip_ws(a + b, a.len() + j) == a.len() + skip_ws(b, j),
    decreases b.len() - j,
{
    if j < b.len() {
        assert((a + b)[a.len() + j] == b[j]);
        if is_ws(b[j]) {
            lemma_skip_ws_concat(a, b, j + 1);
        }
    }
}

proof fn lemma_skip_digits_concat(a: Seq<char>, b: Seq<char>, j: int)
    requires
        0 <= j <= b.len(),
    ensures
        skip_digits(a + b, a.len() + j) == a.len() + skip_digits(b, j),
    decreases b.len() - j,
{
    if j < b.len() {
        assert((a + b)[a.len() + j] == b[j]);
        if is_digit_class(b[j]) {
            lemma_skip_digits_concat(a, b, j + 1);
        }
    }
}

proof fn lemma_skip_letters_concat(a: Seq<char>, b: Seq<char>, j: int)
    requires
        0 <= j <= b.len(),
    ensures
        skip_letters(a + b, a.len() + j) == a.len() + skip_letters(b, j),
    decreases b.len() - j,
{
    if j < b.len() {
        assert((a + b)[a.len() + j] == b[j]);
        if is_letter_class(b[j]) {
            lemma_skip_letters_concat(a, b, j + 1);
        }
    }
}

proof fn lemma_skip_bounds(s: Seq<char>, i: int)
    requires
        0 <= i <= s.len(),
    ensures
        i <= skip_ws(s, i) <= s.len(),
        i <= skip_digits(s, i) <= s.len(),
        i <= skip_letters(s, i) <= s.len(),
    decreases s.len() - i,
{
    if i < s.len() {
        lemma_skip_bounds(s, i + 1);
    }
}

/// A sequence that neither starts nor ends with white space is its own trim.
proof fn lemma_trim_id(s: Seq<char>)
    requires
        s.len() > 0,
        !is_ws(s[0]),
        !is_ws(s.last()),
    ensures
        trim(s) == s,
{
}

/// A bare duration starts with a digit and ends with a letter.
proof fn lemma_bare_shape(e: Seq<char>)
    requires
        bare_at(e),
    ensures
        e.len() > 0,
        is_digit_class(e[0]),
        is_letter_class(e.last()),
{
    lemma_skip_bounds(e, 0);
    let c = skip_digits(e, 0);
    let d = skip_ws(e, c);
    lemma_skip_bounds(e, c);
    lemma_skip_bounds(e, d);
    lemma_last_letter(e, d);
}

proof fn lemma_last_letter(e: Seq<char>, d: int)
    requires
        0 <= d < e.len(),
        skip_letters(e, d) == e.len(),
    ensures
        is_letter_class(e.last()),
    decreases e.len() - d,
{
    if d + 1 < e.len() {
        lemma_last_letter(e, d + 1);
    }
}

/// `find_term` stops at `k` when no earlier place from `i` is a term start or a line feed.
proof fn lemma_find_term_at(e: Seq<char>, i: int, k: int)
    requires
        0 <= i <= k <= e.len(),
        term_at(e, k),
        forall|j: int| i <= j < k ==> !term_at(e, j) && e[j] != '\n',
    ensures
        find_term(e, i) == Some(k),
    decreases k - i,
{
    if i < k {
        lemma_find_term_at(e, i + 1, k);
    }
}

/// The term after `pre` (a word of lower-case letters and then a sign) reads the same as
/// the term that `e` itself opens with.
proof fn lemma_term_after_word(w: Seq<char>, sign: char, e: Seq<char>)
    requires
        w.len() > 0,
        forall|j: int| 0 <= j < w.len() ==> 'a' <= #[trigger] w[j] && w[j] <= 'z',
        sign == '-' || sign == '+',
        bare_at(e),
    ensures
        ({
            let big = w + seq![sign] + e;
            let p = w.len() as int + 1;
            &&& find_term(big, 0) == Some(w.len() as int)
            &&& big[sign_pos(big, w.len() as int)] == sign
            &&& num_start(big, w.len() as int) == p
            &&& num_end(big, w.len() as int) == p + skip_digits(e, 0)
            &&& unit_start(big, w.len() as int) == p + skip_ws(e, skip_digits(e, 0))
            &&& unit_end(big, w.len() as int) == p + e.len()
            &&& big.subrange(0, w.len() as int) == w
        }),
{
    let pre = w + seq![sign];
    let big = w + seq![sign] + e;
    let k = w.len() as int;
    let p = k + 1;
    lemma_bare_shape(e);
    assert(big =~= pre + e);
    assert(big[k] == sign);
    assert(!is_ws(sign));
    assert(sign_pos(big, k) == k);
    lemma_skip_ws_concat(pre, e, 0);
    assert(!is_ws(e[0]));
    assert(skip_ws(e, 0) == 0);
    assert(num_start(big, k) == p);
    lemma_skip_digits_concat(pre, e, 0);
    let c = skip_digits(e, 0);
    lemma_skip_bounds(e, 0);
    lemma_skip_ws_concat(pre, e, c);
    let d = skip_ws(e, c);
    lemma_skip_bounds(e, c);
    lemma_skip_letters_concat(pre, e, d);
    lemma_skip_ws_concat(pre, e, e.len() as int);
    assert(term_at(big, k));
    assert forall|j: int| 0 <= j < k implies !term_at(big, j) && big[j] != '\n' by {
        assert(big[j] == w[j]);
        assert(!is_ws(big[j]));
        assert(sign_pos(big, j) == j);
    }
    lemma_find_term_at(big, 0, k);
    assert(big.subrange(0, k) =~= w);
}

/// The term that a bare duration `e` forms after a leading sign.
proof fn lemma_term_after_sign(sign: char, e: Seq<char>)
    requires
        sign == '-' || sign == '+',
        bare_at(e),
    ensures
        ({
            let big = seq![sign] + e;
            &&& find_term(big, 0) == Some(0int)
            &&& big[sign_pos(big, 0)] == sign
            &&& num_start(big, 0) == 1
            &&& num_end(big, 0) == 1 + skip_digits(e, 0)
            &&& unit_start(big, 0) == 1 + skip_ws(e, skip_digits(e, 0))
            &&& unit_end(big, 0) == 1 + e.len()
        }),
{
    let pre = seq![sign];
    let big = pre + e;
    lemma_bare_shape(e);
    assert(big[0] == sign);
    assert(!is_ws(sign));
    assert(sign_pos(big, 0) == 0);
    lemma_skip_ws_concat(pre, e, 0);
    assert(skip_ws(e, 0) == 0);
    lemma_skip_digits_concat(pre, e, 0);
    let c = skip_digits(e, 0);
    lemma_skip_bounds(e, 0);
    lemma_skip_ws_concat(pre, e, c);
    let d = skip_ws(e, c);
    lemma_skip_bounds(e, c);
    lemma_skip_letters_concat(pre, e, d);
    lemma_skip_ws_concat(pre, e, e.len() as int);
    assert(term_at(big, 0));
    lemma_find_term_at(big, 0, 0);
}

/// The unit of a bare duration.
pub open spec fn bare_unit(e: Seq<char>) -> Seq<char> {
    e.subrange(skip_ws(e, skip_digits(e, 0)), e.len() as int)
}

/// The anchor a bare duration counts back from: `now` for units shorter than a day,
/// `today` otherwise.
pub open spec fn implied_anchor(e: Seq<char>) -> Seq<char> {
    if is_sub_day_unit(ascii_lower(bare_unit(e))) { "now"@ } else { "today"@ }
}

/// With shortcuts on, a bare duration is shorthand for its default anchor minus that
/// duration: `3day` reads as `today-3day` and `2h` as `now-2h`, for every `now`.
pub proof fn law_bare_duration_counts_back(x: Seq<char>, now: Timestamp)
    requires
        valid_ts(now),
        bare_at(trim(x)),
    ensures
        spec_parse_instant(x, now, true) == spec_parse_instant(implied_anchor(trim(x)) + "-"@ + trim(x), now, true),
{
    let e = trim(x);
    reveal_strlit("now");
    reveal_strlit("today");
    reveal_strlit("-");
    let w = implied_anchor(e);
    assert(forall|j: int| 0 <= j < w.len() ==> 'a' <= #[trigger] w[j] && w[j] <= 'z');
    lemma_term_after_word(w, '-', e);
    lemma_bare_shape(e);
    let big = w + seq!['-'] + e;
    assert(w + "-"@ + e =~= big);
    assert(big[0] == w[0]);
    assert(big.last() == e.last());
    lemma_trim_id(big);
    lemma_no_term_in_bare(e);
    let c = skip_digits(e, 0);
    let p = w.len() as int + 1;
    lemma_skip_bounds(e, 0);
    lemma_skip_bounds(e, c);
    assert(big.subrange(p, p + c) =~= e.subrange(0, c));
    assert(big.subrange(p + skip_ws(e, c), p + e.len()) =~= bare_unit(e));
    assert(spec_anchor(w, now) == Some(Ok::<Timestamp, Seq<char>>(default_base(bare_unit(e), now))));
}

/// A bare duration holds no term (it has no sign).
proof fn lemma_no_term_in_bare(e: Seq<char>)
    requires
        bare_at(e),
    ensures
        find_term(e, 0) is None,
{
    lemma_bare_shape(e);
    lemma_no_sign(e, 0);
}

proof fn lemma_no_sign(e: Seq<char>, i: int)
    requires
        bare_at(e),
        0 <= i <= e.len(),
    ensures
        find_term(e, i) is None,
    decreases e.len() - i,
{
    lemma_skip_bounds(e, i);
    let c = skip_digits(e, 0);
    let d = skip_ws(e, c);
    lemma_skip_bounds(e, 0);
    lemma_skip_bounds(e, c);
    lemma_skip_bounds(e, d);
    lemma_all_classes(e, 0, c, d);
    let a = sign_pos(e, i);
    if a < e.len() {
        assert(e[a] != '+' && e[a] != '-');
    }
    assert(!term_at(e, i));
    if i < e.len() {
        lemma_no_sign(e, i + 1);
    }
}

/// Every character of a bare duration is a digit, white space or a letter.
proof fn lemma_all_classes(e: Seq<char>, zero: int, c: int, d: int)
    requires
        zero == 0,
        c == skip_digits(e, 0),
        d == skip_ws(e, c),
        bare_at(e),
    ensures
        forall|j: int| 0 <= j < e.len() ==> is_digit_class(#[trigger] e[j]) || is_ws(e[j]) || is_letter_class(e[j]),
{
    assert forall|j: int| 0 <= j < e.len() implies is_digit_class(#[trigger] e[j]) || is_ws(e[j]) || is_letter_class(e[j]) by {
        if j < c {
            lemma_skip_digits_in(e, 0, j);
        } else if j < d {
            lemma_skip_ws_in(e, c, j);
        } else {
            lemma_skip_letters_in(e, d, j);
        }
    }
}

proof fn lemma_skip_digits_in(e: Seq<char>, i: int, j: int)
    requires
        0 <= i <= j < skip_digits(e, i),
    ensures
        is_digit_class(e[j]),
    decreases j - i,
{
    if i < j {
        lemma_skip_digits_in(e, i + 1, j);
    }
}

proof fn lemma_skip_ws_in(e: Seq<char>, i: int, j: int)
    requires
        0 <= i <= j < skip_ws(e, i),
    ensures
        is_ws(e[j]),
    decreases j - i,
{
    if i < j {
        lemma_skip_ws_in(e, i + 1, j);
    }
}

proof fn lemma_skip_letters_in(e: Seq<char>, i: int, j: int)
    requires
        0 <= i <= j < skip_letters(e, i),
    ensures
        is_letter_class(e[j]),
    decreases j - i,
{
    if i < j {
        lemma_skip_letters_in(e, i + 1, j);
    }
}

/// With shortcuts on, a leading `-` changes nothing: `-3day` reads as `3day`; a leading
/// `+` counts forward from the same anchor: `+3day` reads as `today+3day`.
pub proof fn law_signed_duration(x: Seq<char>, now: Timestamp)
    requires
        valid_ts(now),
        bare_at(trim(x)),
    ensures
        spec_parse_instant("-"@ + trim(x), now, true) == spec_parse_instant(x, now, true),
        spec_parse_instant("+"@ + trim(x), now, true) == spec_parse_instant(implied_anchor(trim(x)) + "+"@ + trim(x), now, true),
{
    let e = trim(x);
    reveal_strlit("now");
    reveal_strlit("today");
    reveal_strlit("-");
    reveal_strlit("+");
    lemma_bare_shape(e);
    lemma_no_term_in_bare(e);
    let c = skip_digits(e, 0);
    lemma_skip_bounds(e, 0);
    lemma_skip_bounds(e, c);
    let minus = seq!['-'] + e;
    assert("-"@ + e =~= minus);
    lemma_term_after_sign('-', e);
    assert(minus.last() == e.last());
    lemma_trim_id(minus);
    assert(minus.subrange(1, 1 + c) =~= e.subrange(0, c));
    assert(minus.subrange(1 + skip_ws(e, c), 1 + e.len() as int) =~= bare_unit(e));
    let plus = seq!['+'] + e;
    assert("+"@ + e =~= plus);
    lemma_term_after_sign('+', e);
    assert(plus.last() == e.last());
    lemma_trim_id(plus);
    assert(plus.subrange(1, 1 + c) =~= e.subrange(0, c));
    assert(plus.subrange(1 + skip_ws(e, c), 1 + e.len() as int) =~= bare_unit(e));
    let w = implied_anchor(e);
    assert(forall|j: int| 0 <= j < w.len() ==> 'a' <= #[trigger] w[j] && w[j] <= 'z');
    lemma_term_after_word(w, '+', e);
    let big = w + seq!['+'] + e;
    assert(w + "+"@ + e =~= big);
    assert(big[0] == w[0]);
    assert(big.last() == e.last());
    lemma_trim_id(big);
    let p = w.len() as int + 1;
    assert(big.subrange(p, p + c) =~= e.subrange(0, c));
    assert(big.subrange(p + skip_ws(e, c), p + e.len()) =~= bare_unit(e));
    assert(spec_anchor(w, now) == Some(Ok::<Timestamp, Seq<char>>(default_base(bare_unit(e), now))));
}

/// In standard mode (shortcuts off) a duration without an anchor is refused, bare or
/// signed, while the same duration after an explicit anchor is read as with shortcuts.
pub proof fn law_standard_mode_needs_anchor(x: Seq<char>, now: Timestamp)
    requires
        valid_ts(now),
        bare_at(trim(x)),
    ensures
        spec_parse_instant(x, now, false) matches Some(Err(_)),
        spec_parse_instant("-"@ + trim(x), now, false) matches Some(Err(_)),
        spec_parse_instant("+"@ + trim(x), now, false) matches Some(Err(_)),
        spec_parse_instant(implied_anchor(trim(x)) + "-"@ + trim(x), now, false)
            == spec_parse_instant(implied_anchor(trim(x)) + "-"@ + trim(x), now, true),
{
    let e = trim(x);
    reveal_strlit("now");
    reveal_strlit("today");
    reveal_strlit("-");
    reveal_strlit("+");
    lemma_bare_shape(e);
    lemma_no_term_in_bare(e);
    let minus = seq!['-'] + e;
    assert("-"@ + e =~= minus);
    lemma_term_after_sign('-', e);
    assert(minus.last() == e.last());
    lemma_trim_id(minus);
    let plus = seq!['+'] + e;
    assert("+"@ + e =~= plus);
    lemma_term_after_sign('+', e);
    assert(plus.last() == e.last());
    lemma_trim_id(plus);
    let w = implied_anchor(e);
    assert(forall|j: int| 0 <= j < w.len() ==> 'a' <= #[trigger] w[j] && w[j] <= 'z');
    lemma_term_after_word(w, '-', e);
    let big = w + seq!['-'] + e;
    assert(w + "-"@ + e =~= big);
    assert(big[0] == w[0]);
    assert(big.last() == e.last());
    lemma_trim_id(big);
}

proof fn lemma_truncate_len(s: Seq<char>, m: int)
    requires
        m >= 0,
    ensures
        truncate(s, m).len() <= m,
{
}

/// A styled row of the list (the text between its colour codes) is exactly `width`
/// columns wide whenever the id, start, duration and status columns leave at least eight
/// for the command; otherwise it is the prefix and at most eight more columns.
pub proof fn law_styled_row_width(prefix: Seq<char>, cmd: Seq<char>, comment: Option<Seq<char>>, width: int)
    requires
        width >= 0,
    ensures
        prefix.len() + 8 <= width ==> spec_styled_line(prefix, cmd, comment, width).len() == width,
        prefix.len() + 8 > width ==> spec_styled_line(prefix, cmd, comment, width).len() <= prefix.len() + 8,
{
    let avail = avail_cols(prefix, width);
    lemma_truncate_len(cmd, avail);
    let body = truncate(cmd, avail);
    match comment {
        Some(t) => {
            let remaining = sat_sub(avail, body.len() as int);
            if remaining > 5 {
                lemma_truncate_len(t, remaining - 4);
                reveal_strlit("  # ");
            }
        },
        None => {},
    }
    assert(styled_body(cmd, comment, avail).len() <= avail);
}

/// Positions in `runs` of the runs that pass, in increasing order.
pub open spec fn passing_positions(runs: Seq<Run>, f: FiltersView) -> Seq<int>
    decreases runs.len(),
{
    if runs.len() == 0 {
        Seq::empty()
    } else if passes(runs.last(), f) {
        passing_positions(runs.drop_last(), f).push(runs.len() - 1)
    } else {
        passing_positions(runs.drop_last(), f)
    }
}

proof fn lemma_passing_positions(runs: Seq<Run>, f: FiltersView)
    ensures
        ({
            let out = passing(runs, f);
            let pos = passing_positions(runs, f);
            &&& pos.len() == out.len()
            &&& forall|k: int| 0 <= k < pos.len() ==> 0 <= #[trigger] pos[k] < runs.len() && out[k] == runs[pos[k]]
            &&& forall|k: int, l: int| 0 <= k < l < pos.len() ==> pos[k] < pos[l]
        }),
    decreases runs.len(),
{
    if runs.len() > 0 {
        let r = runs.drop_last();
        lemma_passing_positions(r, f);
        assert forall|k: int| 0 <= k < passing_positions(r, f).len() implies runs[passing_positions(r, f)[k]] == r[passing_positions(r, f)[k]] by {}
    }
}

/// What selecting returns is made of runs that pass every pattern, taken from the input
/// in their input (newest-first) order, and no more of them than a positive limit.
pub proof fn law_select_keeps_order(runs: Seq<Run>, f: FiltersView)
    ensures
        spec_select(runs, f) matches Ok(out) ==> {
            &&& forall|k: int| 0 <= k < out.len() ==> passes(#[trigger] out[k], f)
            &&& exists|pos: Seq<int>| {
                &&& pos.len() == out.len()
                &&& forall|k: int| 0 <= k < pos.len() ==> 0 <= #[trigger] pos[k] < runs.len() && out[k] == runs[pos[k]]
                &&& forall|k: int, l: int| 0 <= k < l < pos.len() ==> pos[k] < pos[l]
            }
            &&& f.limit matches Some(n) ==> (n > 0 ==> out.len() <= n)
        },
{
    lemma_passing_positions(runs, f);
    lemma_passing_pass(runs, f);
    let all = passing(runs, f);
    let pos = passing_positions(runs, f);
    match f.limit {
        Some(n) => if n > 0 && n < all.len() {
            let cut = pos.take(n as int);
            assert(cut.len() == all.take(n as int).len());
        },
        None => {},
    }
}

proof fn lemma_passing_pass(runs: Seq<Run>, f: FiltersView)
    ensures
        forall|k: int| 0 <= k < passing(runs, f).len() ==> passes(#[trigger] passing(runs, f)[k], f),
    decreases runs.len(),
{
    if runs.len() > 0 {
        let r = runs.drop_last();
        lemma_passing_pass(r, f);
        let prev = passing(r, f);
        assert forall|k: int| 0 <= k < passing(runs, f).len() implies passes(#[trigger] passing(runs, f)[k], f) by {
            if k < prev.len() {
                assert(passing(runs, f)[k] == prev[k]);
            }
        }
    }
}

/// A colour reads the same with or without its leading `#`.
pub proof fn law_hash_is_optional(h: Seq<char>)
    requires
        six_hex(h),
    ensures
        spec_parse_hex(h) is Ok,
        spec_parse_hex(h) == spec_parse_hex(seq!['#'] + h),
{
    assert forall|i: int| 0 <= i < 6 implies !is_ws(#[trigger] h[i]) by {
        assert(crate::render::is_hex(h[i]));
    }
    let g = seq!['#'] + h;
    lemma_trim_id(h);
    lemma_trim_id(g);
    assert(g.drop_first() =~= h);
}

/// `key:` then `val` splits back into `key` and `val` when `key` holds no `:`.
proof fn lemma_split_token(key: Seq<char>, val: Seq<char>)
    requires
        forall|j: int| 0 <= j < key.len() ==> #[trigger] key[j] != ':',
    ensures
        ({
            let t = key + ":"@ + val;
            &&& index_of(t, ':') == key.len()
            &&& t.subrange(0, key.len() as int) == key
            &&& t.subrange(key.len() + 1int, t.len() as int) == val
        }),
{
    reveal_strlit(":");
    let t = key + ":"@ + val;
    assert forall|j: int| 0 <= j < key.len() implies t[j] != ':' by {
        assert(t[j] == key[j]);
    }
    assert(t[key.len() as int] == ':');
    lemma_index_of(t, ':', key.len() as int);
    assert(t.subrange(0, key.len() as int) =~= key);
    assert(t.subrange(key.len() + 1int, t.len() as int) =~= val);
}

/// `date:v` is the `date` pair with value `v`.
proof fn lemma_date_token(f: FiltersView, v: Seq<char>, now: Timestamp, shortcuts: bool)
    ensures
        apply_token(f, "date:"@ + v, now, shortcuts) == date_pair(f, v, now, shortcuts),
{
    reveal_strlit("date");
    reveal_strlit("date:");
    reveal_strlit(":");
    reveal_strlit("cmd");
    reveal_strlit("out");
    reveal_strlit("reg");
    reveal_strlit("com");
    reveal_strlit("exit");
    reveal_strlit("limit");
    assert("date"@ + ":"@ + v =~= "date:"@ + v);
    lemma_split_token("date"@, v);
}

/// `date.after:v` sets the lower bound to what `v` reads as.
proof fn lemma_after_token(f: FiltersView, v: Seq<char>, now: Timestamp, shortcuts: bool)
    ensures
        apply_token(f, "date.after:"@ + v, now, shortcuts)
            == with_bound(f, true, spec_parse_instant(v, now, shortcuts)),
{
    reveal_strlit("date.after");
    reveal_strlit("date.after:");
    reveal_strlit(":");
    reveal_strlit("date");
    reveal_strlit("cmd");
    reveal_strlit("out");
    reveal_strlit("reg");
    reveal_strlit("com");
    reveal_strlit("exit");
    reveal_strlit("limit");
    assert("date.after"@ + ":"@ + v =~= "date.after:"@ + v);
    lemma_split_token("date.after"@, v);
}

/// `date.before:v` sets the upper bound to what `v` reads as.
proof fn lemma_before_token(f: FiltersView, v: Seq<char>, now: Timestamp, shortcuts: bool)
    ensures
        apply_token(f, "date.before:"@ + v, now, shortcuts)
            == with_bound(f, false, spec_parse_instant(v, now, shortcuts)),
{
    reveal_strlit("date.before");
    reveal_strlit("date.before:");
    reveal_strlit(":");
    reveal_strlit("date.after");
    reveal_strlit("date");
    reveal_strlit("cmd");
    reveal_strlit("out");
    reveal_strlit("reg");
    reveal_strlit("com");
    reveal_strlit("exit");
    reveal_strlit("limit");
    assert("date.before"@ + ":"@ + v =~= "date.before:"@ + v);
    lemma_split_token("date.before"@, v);
}

/// A range `date:A..B` (split at its first `..`) sets the same bounds, with the same
/// errors, as `date.after:A` followed by `date.before:B`.
#[verifier::spinoff_prover]
#[verifier::rlimit(40)]
pub proof fn law_date_range_is_two_bounds(a: Seq<char>, b: Seq<char>, now: Timestamp, shortcuts: bool)
    requires
        index_of_dots(a + ".."@ + b) == a.len(),
    ensures
        spec_parse_filters(seq!["date:"@ + (a + ".."@ + b)], now, shortcuts)
            == spec_parse_filters(seq!["date.after:"@ + a, "date.before:"@ + b], now, shortcuts),
{
    reveal_strlit("..");
    let v = a + ".."@ + b;
    let t1 = "date:"@ + v;
    let t2 = "date.after:"@ + a;
    let t3 = "date.before:"@ + b;
    let e = empty_filters();
    lemma_date_token(e, v, now, shortcuts);
    lemma_after_token(e, a, now, shortcuts);
    assert(v.subrange(0, a.len() as int) =~= a);
    assert(v.subrange(a.len() + 2int, v.len() as int) =~= b);
    let one = seq![t1];
    let two = seq![t2, t3];
    assert(one.drop_last() =~= Seq::<Seq<char>>::empty());
    assert(two.drop_last() =~= seq![t2]);
    assert(seq![t2].drop_last() =~= Seq::<Seq<char>>::empty());
    assert(spec_parse_filters(Seq::<Seq<char>>::empty(), now, shortcuts) == Some(Ok::<FiltersView, Seq<char>>(e)));
    assert(one.last() == t1);
    assert(two.last() == t3);
    assert(seq![t2].last() == t2);
    assert(spec_parse_filters(one, now, shortcuts) == apply_token(e, t1, now, shortcuts));
    assert(spec_parse_filters(seq![t2], now, shortcuts) == apply_token(e, t2, now, shortcuts));
    assert(a.len() < v.len());
    assert(date_pair(e, v, now, shortcuts) == match with_bound(e, true, spec_parse_instant(a, now, shortcuts)) {
        Some(Ok(g)) => with_bound(g, false, spec_parse_instant(b, now, shortcuts)),
        other => other,
    });
    match with_bound(e, true, spec_parse_instant(a, now, shortcuts)) {
        Some(Ok(g)) => {
            lemma_before_token(g, b, now, shortcuts);
        },
        _ => {},
    }
}

/// The word a POSIX shell reads from `s`, outside quotes: `'` opens a quoted stretch and
/// `\` takes the next character as it is.
pub open spec fn sh_unquoted(s: Seq<char>) -> Seq<char>
    decreases s.len(), 0int,
{
    if s.len() == 0 {
        Seq::empty()
    } else if s[0] == '\'' {
        sh_quoted(s.drop_first())
    } else if s[0] == '\\' && s.len() >= 2 {
        seq![s[1]] + sh_unquoted(s.subrange(2, s.len() as int))
    } else {
        seq![s[0]] + sh_unquoted(s.drop_first())
    }
}

/// The word a POSIX shell reads from `s` inside single quotes, which only `'` closes.
pub open spec fn sh_quoted(s: Seq<char>) -> Seq<char>
    decreases s.len(), 1int,
{
    if s.len() == 0 {
        Seq::empty()
    } else if s[0] == '\'' {
        sh_unquoted(s.drop_first())
    } else {
        seq![s[0]] + sh_quoted(s.drop_first())
    }
}

proof fn lemma_safe_reads_back(s: Seq<char>)
    requires
        forall|i: int| 0 <= i < s.len() ==> is_shell_safe(#[trigger] s[i]),
    ensures
        sh_unquoted(s) == s,
    decreases s.len(),
{
    if s.len() > 0 {
        assert(is_shell_safe(s[0]));
        let t = s.drop_first();
        assert forall|i: int| 0 <= i < t.len() implies is_shell_safe(#[trigger] t[i]) by {
            assert(t[i] == s[i + 1]);
            assert(is_shell_safe(s[i + 1]));
        }
        lemma_safe_reads_back(t);
        assert(seq![s[0]] + t =~= s);
    }
}

proof fn lemma_escaped_reads_back(s: Seq<char>, tail: Seq<char>)
    ensures
        sh_quoted(escape_quotes(s) + tail) == s + sh_quoted(tail),
    decreases s.len(),
{
    reveal_strlit("'\\''");
    if s.len() == 0 {
        assert(escape_quotes(s) + tail =~= tail);
        assert(s + sh_quoted(tail) =~= sh_quoted(tail));
    } else {
        let p = s.drop_last();
        let c = s.last();
        let e = if c == '\'' { "'\\''"@ } else { seq![c] };
        assert(escape_quotes(s) == escape_quotes(p) + e);
        assert(escape_quotes(s) + tail =~= escape_quotes(p) + (e + tail));
        lemma_escaped_reads_back(p, e + tail);
        let et = e + tail;
        if c == '\'' {
            assert(et.drop_first() =~= seq!['\\', '\'', '\''] + tail);
            let u = et.drop_first();
            assert(u.subrange(2, u.len() as int) =~= seq!['\''] + tail);
            let w = seq!['\''] + tail;
            assert(w.drop_first() =~= tail);
            assert(w[0] == '\'');
            assert(sh_unquoted(w) == sh_quoted(tail));
            assert(u[0] == '\\' && u[1] == '\'' && u.len() >= 2);
            assert(sh_unquoted(u) == seq!['\''] + sh_unquoted(w));
            assert(et[0] == '\'');
            assert(sh_quoted(et) == sh_unquoted(u));
            assert(sh_quoted(et) == seq![c] + sh_quoted(tail));
        } else {
            assert(et.drop_first() =~= tail);
            assert(sh_quoted(et) == seq![c] + sh_quoted(tail));
        }
        assert(p + (seq![c] + sh_quoted(tail)) =~= s + sh_quoted(tail));
    }
}

/// A quoted word reads back, through the shell's quoting rules, as the word itself.
pub proof fn law_quote_reads_back(s: Seq<char>)
    ensures
        sh_unquoted(spec_quote(s)) == s,
{
    reveal_strlit("'");
    if s.len() > 0 && (forall|i: int| 0 <= i < s.len() ==> is_shell_safe(#[trigger] s[i])) {
        lemma_safe_reads_back(s);
    } else {
        let q = "'"@ + escape_quotes(s) + "'"@;
        assert(q.drop_first() =~= escape_quotes(s) + "'"@);
        lemma_escaped_reads_back(s, "'"@);
        assert(("'"@).drop_first() =~= Seq::<char>::empty());
        assert(sh_quoted("'"@) == sh_unquoted(Seq::<char>::empty()));
        assert(s + Seq::<char>::empty() =~= s);
    }
}

/// Where the word that starts scanning at `i` ends: the first space outside quotes, or
/// the end of `s`; `q` says whether the scan is inside single quotes.
pub open spec fn sh_end(s: Seq<char>, i: int, q: bool) -> int
    decreases s.len() - i,
{
    if i < 0 || i >= s.len() {
        s.len() as int
    } else if q {
        sh_end(s, i + 1, s[i] != '\'')
    } else if s[i] == ' ' {
        i
    } else if s[i] == '\'' {
        sh_end(s, i + 1, true)
    } else if s[i] == '\\' && i + 1 < s.len() {
        sh_end(s, i + 2, false)
    } else {
        sh_end(s, i + 1, false)
    }
}

/// The words a POSIX shell reads from a line whose only separator is the space.
pub open spec fn sh_split(s: Seq<char>) -> Seq<Seq<char>>
    decreases s.len(),
{
    if s.len() == 0 {
        Seq::empty()
    } else if s[0] == ' ' {
        sh_split(s.drop_first())
    } else {
        let e = sh_end(s, 0, false);
        if 0 <= e < s.len() {
            seq![sh_unquoted(s.subrange(0, e))] + sh_split(s.subrange(e + 1, s.len() as int))
        } else {
            seq![sh_unquoted(s)]
        }
    }
}

proof fn lemma_end_over_safe(s: Seq<char>, i: int, k: int)
    requires
        0 <= i <= k <= s.len(),
        forall|j: int| i <= j < k ==> is_shell_safe(#[trigger] s[j]),
    ensures
        sh_end(s, i, false) == sh_end(s, k, false),
    decreases k - i,
{
    if i < k {
        assert(is_shell_safe(s[i]));
        lemma_end_over_safe(s, i + 1, k);
    }
}

proof fn lemma_end_over_escaped(s: Seq<char>, o: int, a: Seq<char>)
    requires
        0 <= o,
        o + escape_quotes(a).len() <= s.len(),
        s.subrange(o, o + escape_quotes(a).len()) == escape_quotes(a),
    ensures
        sh_end(s, o, true) == sh_end(s, o + escape_quotes(a).len(), true),
    decreases a.len(),
{
    reveal_strlit("'\\''");
    if a.len() > 0 {
        let p = a.drop_last();
        let c = a.last();
        let e = if c == '\'' { "'\\''"@ } else { seq![c] };
        let ep = escape_quotes(p);
        assert(escape_quotes(a) == ep + e);
        assert forall|j: int| 0 <= j < ep.len() implies #[trigger] s.subrange(o, o + ep.len())[j] == ep[j] by {
            assert(s.subrange(o, o + escape_quotes(a).len())[j] == escape_quotes(a)[j]);
            assert((ep + e)[j] == ep[j]);
        }
        assert(s.subrange(o, o + ep.len()) =~= ep);
        lemma_end_over_escaped(s, o, p);
        let o2 = o + ep.len();
        assert(s[o2] == escape_quotes(a)[ep.len() as int]);
        if c == '\'' {
            assert(s[o2 + 1] == escape_quotes(a)[ep.len() + 1int]);
            assert(s[o2 + 3] == escape_quotes(a)[ep.len() + 3int]);
            assert(sh_end(s, o2 + 3, false) == sh_end(s, o2 + 4, true));
            assert(sh_end(s, o2 + 1, false) == sh_end(s, o2 + 3, false));
        }
    }
}

/// Scanning a quoted word from outside quotes ends at its last character, outside quotes.
proof fn lemma_end_over_quoted(w: Seq<char>, a: Seq<char>, r: Seq<char>)
    requires
        w == spec_quote(a),
    ensures
        w.len() > 0,
        w[0] != ' ',
        sh_end(w + r, 0, false) == sh_end(w + r, w.len() as int, false),
{
    reveal_strlit("'");
    let s = w + r;
    if a.len() > 0 && (forall|i: int| 0 <= i < a.len() ==> is_shell_safe(#[trigger] a[i])) {
        assert(is_shell_safe(a[0]));
        assert forall|j: int| 0 <= j < w.len() implies is_shell_safe(#[trigger] s[j]) by {
            assert(s[j] == a[j]);
            assert(is_shell_safe(a[j]));
        }
        lemma_end_over_safe(s, 0, w.len() as int);
    } else {
        let ea = escape_quotes(a);
        assert(w.len() == ea.len() + 2);
        assert(s[0] == '\'');
        assert(s.subrange(1, 1int + ea.len()) =~= ea);
        lemma_end_over_escaped(s, 1, a);
        assert(s[1int + ea.len()] == '\'');
        assert(sh_end(s, 1int + ea.len(), true) == sh_end(s, w.len() as int, false));
    }
}

/// One quoted word, then either the end of the line or a space and the rest.
proof fn lemma_split_quoted(a: Seq<char>, rest: Option<Seq<char>>)
    ensures
        ({
            let w = spec_quote(a);
            match rest {
                None => sh_split(w) == seq![a],
                Some(r) => sh_split(w + " "@ + r) == seq![a] + sh_split(r),
            }
        }),
{
    reveal_strlit(" ");
    let w = spec_quote(a);
    law_quote_reads_back(a);
    match rest {
        None => {
            lemma_end_over_quoted(w, a, Seq::empty());
            assert(w + Seq::<char>::empty() =~= w);
            assert(sh_end(w, w.len() as int, false) == w.len());
        },
        Some(r) => {
            let t = " "@ + r;
            lemma_end_over_quoted(w, a, t);
            let s = w + t;
            assert(s =~= w + " "@ + r);
            assert(s[w.len() as int] == ' ');
            assert(s.subrange(0, w.len() as int) =~= w);
            assert(s.subrange(w.len() + 1int, s.len() as int) =~= r);
            assert(s[0] == w[0]);
        },
    }
}

proof fn lemma_joined_front(parts: Seq<Seq<char>>, sep: Seq<char>)
    requires
        parts.len() >= 2,
    ensures
        joined(parts, sep) == parts[0] + sep + joined(parts.drop_first(), sep),
    decreases parts.len(),
{
    let t = parts.drop_first();
    if parts.len() == 2 {
        assert(t.len() == 1);
        assert(parts.drop_last().len() == 1);
        assert(parts.drop_last()[0] == parts[0]);
        assert(parts.last() == t[0]);
        assert(joined(parts.drop_last(), sep) == parts.drop_last()[0]);
        assert(joined(t, sep) == t[0]);
    } else {
        lemma_joined_front(parts.drop_last(), sep);
        assert(parts.drop_last().drop_first() =~= t.drop_last());
        assert(parts.drop_last()[0] == parts[0]);
        assert(t.last() == parts.last());
        assert(joined(t, sep) == joined(t.drop_last(), sep) + sep + t.last());
        assert(parts[0] + sep + joined(t.drop_last(), sep) + sep + parts.last()
            =~= parts[0] + sep + (joined(t.drop_last(), sep) + sep + t.last()));
    }
}

/// Words quoted one by one and joined with spaces read back, through the shell's word
/// splitting and quoting rules, as the same words.
pub proof fn law_joined_words_read_back(args: Seq<Seq<char>>)
    ensures
        sh_split(joined(args.map_values(|w: Seq<char>| spec_quote(w)), " "@)) == args,
    decreases args.len(),
{
    let q = args.map_values(|w: Seq<char>| spec_quote(w));
    if args.len() == 0 {
        assert(joined(q, " "@) =~= Seq::<char>::empty());
        assert(sh_split(Seq::<char>::empty()) =~= args);
    } else if args.len() == 1 {
        lemma_split_quoted(args[0], None);
        assert(joined(q, " "@) == q[0]);
        assert(seq![args[0]] =~= args);
    } else {
        let t = args.drop_first();
        lemma_joined_front(q, " "@);
        assert(q.drop_first() =~= t.map_values(|w: Seq<char>| spec_quote(w)));
        law_joined_words_read_back(t);
        lemma_split_quoted(args[0], Some(joined(q.drop_first(), " "@)));
        assert(seq![args[0]] + t =~= args);
    }
}

/// No escape character (`ESC`, which starts every colour sequence) in `s`.
pub open spec fn esc_free(s: Seq<char>) -> bool {
    forall|i: int| 0 <= i < s.len() ==> s[i] != '\x1b'
}

proof fn lemma_esc_cat(a: Seq<char>, b: Seq<char>)
    requires
        esc_free(a),
        esc_free(b),
    ensures
        esc_free(a + b),
{
    assert forall|i: int| 0 <= i < (a + b).len() implies (a + b)[i] != '\x1b' by {
        if i < a.len() {
            assert((a + b)[i] == a[i]);
        } else {
            assert((a + b)[i] == b[i - a.len()]);
        }
    }
}

proof fn lemma_dec_esc(n: nat)
    ensures
        esc_free(dec(n)),
    decreases n,
{
    if n >= 10 {
        lemma_dec_esc(n / 10);
        let d = digit_char(n % 10);
        assert(d != '\x1b');
        assert forall|i: int| 0 <= i < dec(n).len() implies dec(n)[i] != '\x1b' by {
            if i < dec(n / 10).len() {
                assert(dec(n)[i] == dec(n / 10)[i]);
            }
        }
    } else {
        assert(digit_char(n) != '\x1b');
    }
}

proof fn lemma_dec_int_esc(n: int)
    ensures
        esc_free(dec_int(n)),
{
    if n < 0 {
        lemma_dec_esc((-n) as nat);
        assert(esc_free(seq!['-']));
        lemma_esc_cat(seq!['-'], dec((-n) as nat));
    } else {
        lemma_dec_esc(n as nat);
    }
}

proof fn lemma_pads_esc(s: Seq<char>, w: int)
    requires
        esc_free(s),
    ensures
        esc_free(pad_left(s, w)),
        esc_free(pad_right(s, w)),
        pad_left(s, w).len() == (if s.len() < w { w } else { s.len() as int }),
        pad_right(s, w).len() == (if s.len() < w { w } else { s.len() as int }),
{
    let sp = spaces(w - s.len());
    assert(esc_free(sp));
    lemma_esc_cat(sp, s);
    lemma_esc_cat(s, sp);
}

proof fn lemma_duration_esc(ms: int)
    ensures
        esc_free(spec_human_duration(ms)),
{
    reveal_strlit("ms");
    reveal_strlit(".");
    reveal_strlit("s");
    reveal_strlit("m");
    reveal_strlit("h");
    assert(esc_free("ms"@));
    assert(esc_free("."@));
    assert(esc_free("s"@));
    assert(esc_free("m"@));
    assert(esc_free("h"@));
    if ms < 1000 {
        lemma_dec_int_esc(ms);
        lemma_esc_cat(dec_int(ms), "ms"@);
    } else if ms < 60_000 {
        let t = crate::render::duration_tenths(ms as nat);
        lemma_dec_esc(t / 10);
        lemma_dec_esc(t % 10);
        lemma_esc_cat(dec(t / 10), "."@);
        lemma_esc_cat(dec(t / 10) + "."@, dec(t % 10));
        lemma_esc_cat(dec(t / 10) + "."@ + dec(t % 10), "s"@);
    } else if ms < 3_600_000 {
        let secs = ms / 1000;
        lemma_dec_esc((secs / 60) as nat);
        lemma_dec_esc((secs % 60) as nat);
        lemma_esc_cat(dec((secs / 60) as nat), "m"@);
        lemma_esc_cat(dec((secs / 60) as nat) + "m"@, dec((secs % 60) as nat));
        lemma_esc_cat(dec((secs / 60) as nat) + "m"@ + dec((secs % 60) as nat), "s"@);
    } else {
        let mins = ms / 1000 / 60;
        lemma_dec_esc((mins / 60) as nat);
        lemma_dec_esc((mins % 60) as nat);
        lemma_esc_cat(dec((mins / 60) as nat), "h"@);
        lemma_esc_cat(dec((mins / 60) as nat) + "h"@, dec((mins % 60) as nat));
        lemma_esc_cat(dec((mins / 60) as nat) + "h"@ + dec((mins % 60) as nat), "m"@);
    }
}

/// A start time in the `%Y-%m-%d %H:%M` shape holds no escape character and no line feed.
pub proof fn law_start_text_is_plain(s: Seq<char>)
    requires
        start_text(s),
    ensures
        esc_free(s),
        forall|i: int| 0 <= i < s.len() ==> s[i] != '\n',
{
    assert forall|i: int| 0 <= i < s.len() implies s[i] != '\x1b' && s[i] != '\n' by {
        assert(crate::render::start_char(s[i]));
    }
}

/// The width of a list row's leading columns: id (at least 5), start time, duration (at
/// least 7) and status (at least 6), each followed by two spaces.
pub open spec fn prefix_width(run: Run, started: Seq<char>) -> int {
    let id = dec_int(run.id as int).len() as int;
    let dur = spec_human_duration(run.duration_ms as int).len() as int;
    let st = spec_status(run).len() as int;
    (if id < 5 { 5 } else { id }) + 2 + started.len() + 2 + (if dur < 7 { 7 } else { dur }) + 2
        + (if st < 6 { 6 } else { st }) + 2
}

/// The columns before a row's command: with a start time in the timestamp shape they hold
/// no escape character when the status holds none, and take `prefix_width` columns.
pub proof fn law_prefix_shape(run: Run, started: Seq<char>)
    requires
        start_text(started),
        esc_free(spec_status(run)),
    ensures
        esc_free(spec_prefix(run, started)),
        spec_prefix(run, started).len() == prefix_width(run, started),
{
    reveal_strlit("  ");
    assert(esc_free("  "@));
    law_start_text_is_plain(started);
    let id = dec_int(run.id as int);
    let dur = spec_human_duration(run.duration_ms as int);
    let st = spec_status(run);
    lemma_dec_int_esc(run.id as int);
    lemma_duration_esc(run.duration_ms as int);
    lemma_pads_esc(id, 5);
    lemma_pads_esc(started, 16);
    lemma_pads_esc(dur, 7);
    lemma_pads_esc(st, 6);
    let a = pad_left(id, 5) + "  "@;
    lemma_esc_cat(pad_left(id, 5), "  "@);
    let b = a + pad_right(started, 16);
    lemma_esc_cat(a, pad_right(started, 16));
    let c = b + "  "@;
    lemma_esc_cat(b, "  "@);
    let d = c + pad_left(dur, 7);
    lemma_esc_cat(c, pad_left(dur, 7));
    let e = d + "  "@;
    lemma_esc_cat(d, "  "@);
    let f = e + pad_left(st, 6);
    lemma_esc_cat(e, pad_left(st, 6));
    lemma_esc_cat(f, "  "@);
}

/// A run whose shown command and status hold no escape character.
pub open spec fn plain_run(run: Run) -> bool {
    &&& esc_free(first_line(run.command@))
    &&& run.signal matches Some(g) ==> esc_free(g@)
}

proof fn lemma_status_esc(run: Run)
    requires
        plain_run(run),
    ensures
        esc_free(spec_status(run)),
{
    reveal_strlit("-");
    match run.signal {
        Some(g) => {},
        None => match run.exit_code {
            Some(c) => lemma_dec_int_esc(c as int),
            None => assert(esc_free("-"@)),
        },
    }
}

/// Without a style, the list holds no escape character at all when no shown command or
/// signal holds one: every start time in the timestamp shape adds none.
pub proof fn law_plain_list_escape_free(runs: Seq<Run>, started: Seq<Seq<char>>, width: int)
    requires
        started.len() == runs.len(),
        forall|k: int| 0 <= k < started.len() ==> start_text(#[trigger] started[k]),
        forall|k: int| 0 <= k < runs.len() ==> plain_run(#[trigger] runs[k]),
    ensures
        esc_free(spec_format_list(runs, started, None, width)),
{
    reveal_strlit("   ID  STARTED               DUR    EXIT  COMMAND");
    reveal_strlit("\n");
    assert(esc_free(header_line()));
    assert(esc_free("\n"@));
    lemma_esc_cat(header_line(), "\n"@);
    lemma_plain_rows(runs, started, width, runs.len() as int);
    lemma_esc_cat(header_line() + "\n"@, spec_rows(runs, started, None, width, runs.len() as int));
}

proof fn lemma_plain_rows(runs: Seq<Run>, started: Seq<Seq<char>>, width: int, k: int)
    requires
        started.len() == runs.len(),
        0 <= k <= runs.len(),
        forall|j: int| 0 <= j < started.len() ==> start_text(#[trigger] started[j]),
        forall|j: int| 0 <= j < runs.len() ==> plain_run(#[trigger] runs[j]),
    ensures
        esc_free(spec_rows(runs, started, None, width, k)),
    decreases k,
{
    reveal_strlit("\n");
    if k > 0 {
        lemma_plain_rows(runs, started, width, k - 1);
        let run = runs[k - 1];
        let st = started[k - 1];
        assert(plain_run(run));
        assert(start_text(st));
        lemma_status_esc(run);
        law_prefix_shape(run, st);
        let p = spec_prefix(run, st);
        lemma_esc_cat(p, first_line(run.command@));
        assert(esc_free("\n"@));
        lemma_esc_cat(p + first_line(run.command@), "\n"@);
        assert(spec_row(run, st, None, width, k - 1) == p + first_line(run.command@) + "\n"@);
        lemma_esc_cat(spec_rows(runs, started, None, width, k - 1), spec_row(run, st, None, width, k - 1));
    }
}

proof fn lemma_truncate_esc(s: Seq<char>, max: int)
    requires
        esc_free(s),
    ensures
        esc_free(truncate(s, max)),
{
    if s.len() > max && max > 0 {
        let t = s.subrange(0, max - 1);
        assert forall|i: int| 0 <= i < t.push('…').len() implies t.push('…')[i] != '\x1b' by {
            if i < t.len() {
                assert(t[i] == s[i]);
            }
        }
    }
}

/// A styled row's text holds no escape character when its columns and comment hold none.
pub proof fn law_styled_line_escape_free(prefix: Seq<char>, cmd: Seq<char>, comment: Option<Seq<char>>, width: int)
    requires
        esc_free(prefix),
        esc_free(cmd),
        comment matches Some(t) ==> esc_free(t),
    ensures
        esc_free(spec_styled_line(prefix, cmd, comment, width)),
{
    reveal_strlit("  # ");
    assert(esc_free("  # "@));
    let avail = avail_cols(prefix, width);
    let body = truncate(cmd, avail);
    lemma_truncate_esc(cmd, avail);
    match comment {
        Some(t) => {
            let remaining = sat_sub(avail, body.len() as int);
            lemma_truncate_esc(t, remaining - 4);
            lemma_esc_cat(body, "  # "@);
            lemma_esc_cat(body + "  # "@, truncate(t, remaining - 4));
        },
        None => {},
    }
    let line = prefix + styled_body(cmd, comment, avail);
    lemma_esc_cat(prefix, styled_body(cmd, comment, avail));
    let sp = spaces(width - line.len());
    assert(esc_free(sp));
    lemma_esc_cat(line, sp);
}

/// In a styled list, row `i` holds the bar colour's background sequence exactly when `i`
/// is odd: an even row is its text and a line feed, with no escape character; an odd row
/// is the background and text colour, the text, the reset and a line feed.
pub proof fn law_styled_row_stripes(run: Run, started: Seq<char>, s: ListStyle, width: int, i: int)
    requires
        start_text(started),
        plain_run(run),
        shown_comment(run) matches Some(t) ==> esc_free(t),
    ensures
        ({
            let line = spec_styled_line(spec_prefix(run, started), first_line(run.command@), shown_comment(run), width);
            &&& esc_free(line)
            &&& i % 2 == 0 ==> esc_free(spec_row(run, started, Some(s), width, i))
            &&& i % 2 == 1 ==> spec_row(run, started, Some(s), width, i) == spec_stripe(s, line, i)
                && spec_stripe(s, line, i).subrange(0, spec_bg(s.bar_bg).len() as int) == spec_bg(s.bar_bg)
        }),
{
    reveal_strlit("\n");
    lemma_status_esc(run);
    law_prefix_shape(run, started);
    let prefix = spec_prefix(run, started);
    law_styled_line_escape_free(prefix, first_line(run.command@), shown_comment(run), width);
    let line = spec_styled_line(prefix, first_line(run.command@), shown_comment(run), width);
    assert(esc_free("\n"@));
    lemma_esc_cat(line, "\n"@);
    if i % 2 == 1 {
        let st = spec_stripe(s, line, i);
        let bg = spec_bg(s.bar_bg);
        assert(st.subrange(0, bg.len() as int) =~= bg);
    }
}

/// Cutting to `max` characters: never longer than `max`; text that fits is kept as it
/// is; longer text keeps its first `max - 1` characters and ends in `…`, so it is exactly
/// `max` long; nothing is kept when `max` is 0.
pub proof fn law_truncate(s: Seq<char>, max: int)
    requires
        max >= 0,
    ensures
        truncate(s, max).len() <= max,
        s.len() <= max ==> truncate(s, max) == s,
        s.len() > max && max > 0 ==> truncate(s, max) == s.subrange(0, max - 1).push('…')
            && truncate(s, max).len() == max,
        s.len() > max && max == 0 ==> truncate(s, max) == Seq::<char>::empty(),
{
}

/// The units that count from the clock rather than from midnight: seconds, minutes and
/// hours, in any of their spellings.
pub open spec fn is_clock_unit(u: Seq<char>) -> bool {
    u == "s"@ || u == "sec"@ || u == "secs"@ || u == "second"@ || u == "seconds"@
        || u == "m"@ || u == "min"@ || u == "mins"@ || u == "minute"@ || u == "minutes"@
        || u == "h"@ || u == "hr"@ || u == "hrs"@ || u == "hour"@ || u == "hours"@
}

/// A duration without an anchor counts from `now` when its unit (in any letter case) is a
/// second, minute or hour unit, and from today's midnight otherwise: `2h` from now,
/// `3day`, `1week` and unknown units from midnight.
pub proof fn law_default_anchor(unit: Seq<char>, now: Timestamp)
    ensures
        default_base(unit, now) == (if is_clock_unit(ascii_lower(unit)) { now } else { midnight(now) }),
{
}

proof fn lemma_trim_start_ws(pre: Seq<char>, x: Seq<char>)
    requires
        forall|i: int| 0 <= i < pre.len() ==> is_ws(#[trigger] pre[i]),
    ensures
        trim_start(pre + x) == trim_start(x),
    decreases pre.len(),
{
    if pre.len() > 0 {
        let p2 = pre.drop_first();
        assert forall|i: int| 0 <= i < p2.len() implies is_ws(#[trigger] p2[i]) by {
            assert(p2[i] == pre[i + 1]);
        }
        assert((pre + x)[0] == pre[0]);
        assert((pre + x).drop_first() =~= p2 + x);
        lemma_trim_start_ws(p2, x);
    } else {
        assert(pre + x =~= x);
    }
}

proof fn lemma_trim_end_ws(x: Seq<char>, post: Seq<char>)
    requires
        forall|i: int| 0 <= i < post.len() ==> is_ws(#[trigger] post[i]),
    ensures
        trim_end(x + post) == trim_end(x),
    decreases post.len(),
{
    if post.len() > 0 {
        let p2 = post.drop_last();
        assert forall|i: int| 0 <= i < p2.len() implies is_ws(#[trigger] p2[i]) by {
            assert(p2[i] == post[i]);
        }
        assert((x + post).last() == post.last());
        assert(is_ws(post[post.len() - 1]));
        assert((x + post).drop_last() =~= x + p2);
        lemma_trim_end_ws(x, p2);
    } else {
        assert(x + post =~= x);
    }
}

/// The digit for `d < 16`, a letter in upper or lower case from 10 on.
pub open spec fn hex_char(d: nat, upper: bool) -> char {
    if d < 10 {
        (48 + d) as char
    } else if upper {
        (55 + d) as char
    } else {
        (87 + d) as char
    }
}

/// A colour written as six hexadecimal digits, two per component.
pub open spec fn rgb_hex(c: Rgb, upper: bool) -> Seq<char> {
    seq![
        hex_char(c.r as nat / 16, upper), hex_char(c.r as nat % 16, upper),
        hex_char(c.g as nat / 16, upper), hex_char(c.g as nat % 16, upper),
        hex_char(c.b as nat / 16, upper), hex_char(c.b as nat % 16, upper),
    ]
}

proof fn lemma_hex_char(d: nat, upper: bool)
    requires
        d < 16,
    ensures
        is_hex(hex_char(d, upper)),
        hex_val(hex_char(d, upper)) == d,
        !is_ws(hex_char(d, upper)),
        hex_char(d, upper) != '#',
{
}

/// A colour written as six hexadecimal digits, in upper or lower case, with or without a
/// leading `#` and with any white space around it, reads back as that colour.
pub proof fn law_rgb_hex_reads_back(c: Rgb, upper: bool, hash: bool, pre: Seq<char>, post: Seq<char>)
    requires
        forall|i: int| 0 <= i < pre.len() ==> is_ws(#[trigger] pre[i]),
        forall|i: int| 0 <= i < post.len() ==> is_ws(#[trigger] post[i]),
    ensures
        spec_parse_hex(pre + (if hash { seq!['#'] } else { Seq::<char>::empty() }) + rgb_hex(c, upper) + post)
            == Ok::<Rgb, Seq<char>>(c),
{
    let h = rgb_hex(c, upper);
    let t = (if hash { seq!['#'] } else { Seq::<char>::empty() }) + h;
    lemma_hex_char(c.r as nat / 16, upper);
    lemma_hex_char(c.r as nat % 16, upper);
    lemma_hex_char(c.g as nat / 16, upper);
    lemma_hex_char(c.g as nat % 16, upper);
    lemma_hex_char(c.b as nat / 16, upper);
    lemma_hex_char(c.b as nat % 16, upper);
    assert(t.len() > 0 && !is_ws(t[0]) && !is_ws(t.last()));
    assert(pre + (if hash { seq!['#'] } else { Seq::<char>::empty() }) + h + post =~= pre + (t + post));
    lemma_trim_start_ws(pre, t + post);
    assert((t + post)[0] == t[0]);
    lemma_trim_end_ws(t, post);
    lemma_trim_id(t);
    if hash {
        assert(t.drop_first() =~= h);
    } else {
        assert(t =~= h);
    }
    assert(six_hex(h));
}

/// The lines of a settings text, split at each line feed (a text without one is one line).
pub open spec fn config_lines(s: Seq<char>) -> Seq<Seq<char>>
    decreases s.len(),
{
    let j = index_of(s, '\n');
    if j < s.len() {
        seq![s.subrange(0, j as int)] + config_lines(s.subrange(j + 1int, s.len() as int))
    } else {
        seq![s]
    }
}

/// A line that sets something: not blank, not a `#` comment, and holding a `=`.
pub open spec fn is_setting(l: Seq<char>) -> bool {
    let t = trim(l);
    t.len() > 0 && t[0] != '#' && index_of(t, '=') < t.len()
}

/// The key of a setting line: what stands before its first `=`, trimmed.
pub open spec fn line_key(l: Seq<char>) -> Seq<char> {
    let t = trim(l);
    trim(t.subrange(0, index_of(t, '=') as int))
}

/// The value of a setting line: what stands after its first `=`, trimmed.
pub open spec fn line_value(l: Seq<char>) -> Seq<char> {
    let t = trim(l);
    trim(t.subrange(index_of(t, '=') + 1int, t.len() as int))
}

/// Whether `v` is a value that `key` accepts.
pub open spec fn accepted(key: Seq<char>, v: Seq<char>) -> bool {
    if key == "mode"@ {
        v == "quick"@ || v == "standard"@
    } else if key == "color"@ {
        v == "auto"@ || v == "on"@ || v == "true"@ || v == "always"@ || v == "off"@ || v == "false"@
            || v == "never"@
    } else if key == "bar_color"@ || key == "header_color"@ {
        spec_parse_hex(v) is Ok
    } else {
        false
    }
}

/// A line that makes parsing fail: neither blank nor a comment, and without a `=`, or with
/// an unknown key, or with a value its key does not accept.
pub open spec fn bad_line(l: Seq<char>) -> bool {
    let t = trim(l);
    &&& t.len() > 0
    &&& t[0] != '#'
    &&& (index_of(t, '=') == t.len() || !accepted(line_key(l), line_value(l)))
}

/// The settings after the lines, applied from line number `n` on, or the first error.
pub open spec fn fold_lines(cfg: Config, ls: Seq<Seq<char>>, n: nat) -> Result<Config, Seq<char>>
    decreases ls.len(),
{
    if ls.len() == 0 {
        Ok(cfg)
    } else {
        match apply_line(cfg, ls[0], n) {
            Err(e) => Err(e),
            Ok(c) => fold_lines(c, ls.drop_first(), n + 1),
        }
    }
}

proof fn lemma_lines_fold(cfg: Config, s: Seq<char>, n: nat)
    ensures
        apply_lines(cfg, s, n) == fold_lines(cfg, config_lines(s), n),
    decreases s.len(),
{
    let j = index_of(s, '\n');
    crate::chars::lemma_index_of_bound(s, '\n');
    let ls = config_lines(s);
    if j < s.len() {
        let rest = s.subrange(j + 1int, s.len() as int);
        lemma_lines_fold_step(cfg, s, n);
        match apply_line(cfg, s.subrange(0, j as int), n) {
            Ok(c) => lemma_lines_fold(c, rest, n + 1),
            Err(_) => {},
        }
        let l0 = s.subrange(0, j as int);
        assert(config_lines(s)[0] == l0);
        match apply_line(cfg, l0, n) {
            Ok(c) => {
                assert(apply_lines(cfg, s, n) == apply_lines(c, rest, n + 1));
                assert(fold_lines(cfg, ls, n) == fold_lines(c, ls.drop_first(), n + 1));
            },
            Err(e) => {
                assert(apply_lines(cfg, s, n) == Err::<Config, Seq<char>>(e));
                assert(fold_lines(cfg, ls, n) == Err::<Config, Seq<char>>(e));
            },
        }
    } else {
        assert(ls == seq![s]);
        assert(ls.drop_first() =~= Seq::<Seq<char>>::empty());
        assert(s.subrange(0, j as int) =~= s);
        assert(ls[0] == s);
        match apply_line(cfg, s, n) {
            Ok(c) => {
                assert(fold_lines(c, ls.drop_first(), n + 1) == Ok::<Config, Seq<char>>(c));
            },
            Err(e) => {},
        }
    }
}

proof fn lemma_lines_fold_step(cfg: Config, s: Seq<char>, n: nat)
    requires
        index_of(s, '\n') < s.len(),
    ensures
        ({
            let j = index_of(s, '\n');
            let ls = config_lines(s);
            &&& ls[0] == s.subrange(0, j as int)
            &&& ls.drop_first() == config_lines(s.subrange(j + 1int, s.len() as int))
        }),
{
    let j = index_of(s, '\n');
    let ls = config_lines(s);
    let rest = config_lines(s.subrange(j + 1int, s.len() as int));
    assert(ls == seq![s.subrange(0, j as int)] + rest);
    assert(ls.drop_first() =~= rest);
}

/// The effect of one line on each setting, and when it fails.
proof fn lemma_one_line(cfg: Config, l: Seq<char>, n: nat)
    ensures
        apply_line(cfg, l, n) is Err <==> bad_line(l),
        apply_line(cfg, l, n) matches Ok(c) ==> c == line_effect(cfg, l),
{
    reveal_strlit("mode");
    reveal_strlit("color");
    reveal_strlit("bar_color");
    reveal_strlit("header_color");
    let t = trim(l);
    crate::chars::lemma_index_of_bound(t, '=');
    if t.len() > 0 && t[0] != '#' && index_of(t, '=') < t.len() {
        assert(is_setting(l));
        assert(apply_line(cfg, l, n) == apply_setting(cfg, line_key(l), line_value(l)));
    }
}

/// What an accepted line does to `cfg`: the setting its key names takes its value.
pub open spec fn line_effect(cfg: Config, l: Seq<char>) -> Config {
    if !is_setting(l) {
        cfg
    } else {
        let k = line_key(l);
        let v = line_value(l);
        if k == "mode"@ {
            Config { mode: mode_value(v), ..cfg }
        } else if k == "color"@ {
            Config { color: color_value(v), ..cfg }
        } else if k == "bar_color"@ {
            Config { bar_color: Some(hex_value(v)), ..cfg }
        } else if k == "header_color"@ {
            Config { header_color: Some(hex_value(v)), ..cfg }
        } else {
            cfg
        }
    }
}

/// The mode an accepted `mode` value names.
pub open spec fn mode_value(v: Seq<char>) -> Mode {
    if v == "quick"@ { Mode::Quick } else { Mode::Standard }
}

/// The colour mode an accepted `color` value names.
pub open spec fn color_value(v: Seq<char>) -> ColorMode {
    if v == "auto"@ {
        ColorMode::Auto
    } else if v == "on"@ || v == "true"@ || v == "always"@ {
        ColorMode::On
    } else {
        ColorMode::Off
    }
}

/// The colour an accepted colour value names.
pub open spec fn hex_value(v: Seq<char>) -> Rgb {
    match spec_parse_hex(v) {
        Ok(c) => c,
        Err(_) => Rgb { r: 0, g: 0, b: 0 },
    }
}

/// The value of the last line among `ls` that sets `key`, if any.
pub open spec fn last_value(ls: Seq<Seq<char>>, key: Seq<char>) -> Option<Seq<char>>
    decreases ls.len(),
{
    if ls.len() == 0 {
        None
    } else if is_setting(ls.last()) && line_key(ls.last()) == key {
        Some(line_value(ls.last()))
    } else {
        last_value(ls.drop_last(), key)
    }
}

proof fn lemma_fold_fails(cfg: Config, ls: Seq<Seq<char>>, n: nat)
    ensures
        fold_lines(cfg, ls, n) is Err <==> exists|k: int| 0 <= k < ls.len() && bad_line(#[trigger] ls[k]),
    decreases ls.len(),
{
    if ls.len() > 0 {
        lemma_one_line(cfg, ls[0], n);
        let rest = ls.drop_first();
        match apply_line(cfg, ls[0], n) {
            Ok(c) => {
                lemma_fold_fails(c, rest, n + 1);
                if exists|k: int| 0 <= k < ls.len() && bad_line(#[trigger] ls[k]) {
                    let k = choose|k: int| 0 <= k < ls.len() && bad_line(#[trigger] ls[k]);
                    assert(k > 0);
                    assert(rest[k - 1] == ls[k]);
                }
                if exists|k: int| 0 <= k < rest.len() && bad_line(#[trigger] rest[k]) {
                    let k = choose|k: int| 0 <= k < rest.len() && bad_line(#[trigger] rest[k]);
                    assert(ls[k + 1] == rest[k]);
                }
            },
            Err(_) => {
                assert(bad_line(ls[0]));
            },
        }
    }
}

/// Parsing the settings fails exactly when some line is neither blank nor a comment and
/// lacks a `=`, names an unknown key, or gives a value its key does not accept.
pub proof fn law_config_fails_iff_bad_line(text: Seq<char>)
    ensures
        spec_parse(text) is Err <==> exists|k: int|
            0 <= k < config_lines(text).len() && bad_line(#[trigger] config_lines(text)[k]),
{
    lemma_lines_fold(default_config(), text, 0);
    lemma_fold_fails(default_config(), config_lines(text), 0);
}

proof fn lemma_last_value_front(ls: Seq<Seq<char>>, key: Seq<char>)
    requires
        ls.len() > 0,
    ensures
        last_value(ls, key) == (match last_value(ls.drop_first(), key) {
            Some(v) => Some(v),
            None => if is_setting(ls[0]) && line_key(ls[0]) == key { Some(line_value(ls[0])) } else { None },
        }),
    decreases ls.len(),
{
    if ls.len() > 1 {
        let d = ls.drop_last();
        lemma_last_value_front(d, key);
        assert(d.drop_first() =~= ls.drop_first().drop_last());
        assert(ls.drop_first().last() == ls.last());
        assert(d[0] == ls[0]);
    } else {
        assert(ls.drop_first() =~= Seq::<Seq<char>>::empty());
        assert(ls.drop_last() =~= Seq::<Seq<char>>::empty());
        assert(ls.last() == ls[0]);
    }
}

/// Each setting after the lines, when they all apply: the value of the last line that sets
/// it, else what it was.
pub open spec fn settings_after(cfg: Config, ls: Seq<Seq<char>>) -> Config {
    Config {
        mode: match last_value(ls, "mode"@) {
            Some(v) => mode_value(v),
            None => cfg.mode,
        },
        color: match last_value(ls, "color"@) {
            Some(v) => color_value(v),
            None => cfg.color,
        },
        bar_color: match last_value(ls, "bar_color"@) {
            Some(v) => Some(hex_value(v)),
            None => cfg.bar_color,
        },
        header_color: match last_value(ls, "header_color"@) {
            Some(v) => Some(hex_value(v)),
            None => cfg.header_color,
        },
    }
}

proof fn lemma_fold_last_wins(cfg: Config, ls: Seq<Seq<char>>, n: nat)
    ensures
        fold_lines(cfg, ls, n) matches Ok(c) ==> c == settings_after(cfg, ls),
    decreases ls.len(),
{
    reveal_strlit("mode");
    reveal_strlit("color");
    reveal_strlit("bar_color");
    reveal_strlit("header_color");
    if ls.len() == 0 {
    } else {
        lemma_one_line(cfg, ls[0], n);
        match apply_line(cfg, ls[0], n) {
            Ok(c1) => {
                let rest = ls.drop_first();
                lemma_fold_last_wins(c1, rest, n + 1);
                lemma_last_value_front(ls, "mode"@);
                lemma_last_value_front(ls, "color"@);
                lemma_last_value_front(ls, "bar_color"@);
                lemma_last_value_front(ls, "header_color"@);
                assert("mode"@.len() == 4 && "color"@.len() == 5 && "bar_color"@.len() == 9
                    && "header_color"@.len() == 12);
                let l = ls[0];
                let sets = |k: Seq<char>| is_setting(l) && line_key(l) == k;
                assert(c1 == line_effect(cfg, l));
                assert(c1.mode == (if sets("mode"@) { mode_value(line_value(l)) } else { cfg.mode }));
                assert(c1.color == (if sets("color"@) { color_value(line_value(l)) } else { cfg.color }));
                assert(c1.bar_color == (if sets("bar_color"@) { Some(hex_value(line_value(l))) } else { cfg.bar_color }));
                assert(c1.header_color == (if sets("header_color"@) { Some(hex_value(line_value(l))) } else { cfg.header_color }));
                assert(fold_lines(cfg, ls, n) == fold_lines(c1, rest, n + 1));
                assert(settings_after(c1, rest) == settings_after(cfg, ls));
            },
            Err(_) => {},
        }
    }
}

/// When the settings parse, each one holds the value of the last line that sets it, and
/// its default when no line does; blank lines and comments change nothing.
pub proof fn law_config_last_line_wins(text: Seq<char>)
    ensures
        spec_parse(text) matches Ok(c) ==> c == settings_after(default_config(), config_lines(text)),
{
    lemma_lines_fold(default_config(), text, 0);
    lemma_fold_last_wins(default_config(), config_lines(text), 0);
}

proof fn lemma_passing_sql_rows(rows: Seq<(Run, Seq<char>)>, f: FiltersView)
    ensures
        passing(sql_rows(rows, f), f) == query_rows(rows, f),
    decreases rows.len(),
{
    if rows.len() > 0 {
        let d = rows.drop_last();
        lemma_passing_sql_rows(d, f);
        let r = rows.last();
        let s = sql_rows(d, f);
        if crate::stored::sql_keeps(r.1, r.0.exit_code, f) {
            assert(s.push(r.0).drop_last() =~= s);
            assert(s.push(r.0).last() == r.0);
        }
    }
}

/// The whole query: when the database hands back the stored rows that its SQL conditions
/// keep (newest first, as the statement orders them), selecting from them gives the first
/// invalid pattern's error, or else, in that order, the runs that every filter keeps, cut
/// to a positive limit.
pub proof fn law_query_is_sql_then_select(rows: Seq<(Run, Seq<char>)>, f: FiltersView)
    ensures
        spec_select(sql_rows(rows, f), f) == (match first_regex_error(f) {
            Some(e) => Err(e),
            None => Ok(capped(query_rows(rows, f), f.limit)),
        }),
{
    lemma_passing_sql_rows(rows, f);
}

proof fn lemma_digit_char(d: nat)
    requires
        d < 10,
    ensures
        '0' <= digit_char(d) <= '9',
        digit_char(d) as nat - '0' as nat == d,
{
}

/// The decimal text of `n` is a non-empty run of digits worth `n`.
proof fn lemma_dec_reads_back(n: nat)
    ensures
        dec(n).len() > 0,
        crate::chars::all_ascii_digits(dec(n)),
        crate::chars::digits_val(dec(n)) == n,
    decreases n,
{
    if n < 10 {
        lemma_digit_char(n);
        assert(dec(n).drop_last() =~= Seq::<char>::empty());
        assert(dec(n).last() == digit_char(n));
        assert(crate::chars::digits_val(Seq::<char>::empty()) == 0);
    } else {
        lemma_dec_reads_back(n / 10);
        lemma_digit_char(n % 10);
        let d = dec(n / 10);
        assert(dec(n).drop_last() =~= d);
        assert(dec(n).last() == digit_char(n % 10));
        assert(n == (n / 10) * 10 + n % 10);
        assert forall|i: int| 0 <= i < dec(n).len() implies '0' <= #[trigger] dec(n)[i] && dec(n)[i] <= '9' by {
            if i < d.len() {
                assert(dec(n)[i] == d[i]);
            }
        }
    }
}

/// Every `i32` written in decimal reads back as itself.
proof fn lemma_i32_reads_back(x: i32)
    ensures
        crate::filter::parse_i32(dec_int(x as int)) == Some(x),
{
    if x < 0 {
        let n = (-(x as int)) as nat;
        lemma_dec_reads_back(n);
        assert((seq!['-'] + dec(n)).drop_first() =~= dec(n));
    } else {
        lemma_dec_reads_back(x as nat);
        assert('0' <= dec(x as nat)[0] <= '9');
    }
}

/// The token `exit:` followed by any `i32` in decimal keeps only runs with that exit code,
/// and sets nothing else.
pub proof fn law_exit_token_sets_exit(x: i32, now: Timestamp, shortcuts: bool)
    ensures
        spec_parse_filters(seq!["exit:"@ + dec_int(x as int)], now, shortcuts)
            == Some(Ok::<FiltersView, Seq<char>>(FiltersView { exit: Some(x), ..empty_filters() })),
{
    reveal_strlit("exit");
    reveal_strlit("exit:");
    reveal_strlit(":");
    reveal_strlit("cmd");
    reveal_strlit("out");
    reveal_strlit("reg");
    reveal_strlit("com");
    let v = dec_int(x as int);
    let t = "exit:"@ + v;
    assert("exit"@ + ":"@ + v =~= t);
    lemma_split_token("exit"@, v);
    lemma_i32_reads_back(x);
    let one = seq![t];
    assert(one.drop_last() =~= Seq::<Seq<char>>::empty());
    assert(one.last() == t);
    assert(spec_parse_filters(Seq::<Seq<char>>::empty(), now, shortcuts) == Some(Ok::<FiltersView, Seq<char>>(empty_filters())));
    assert(apply_token(empty_filters(), t, now, shortcuts) == crate::filter::exit_pair(empty_filters(), v));
}

proof fn lemma_escape_len(s: Seq<char>)
    ensures
        escape_quotes(s).len() >= s.len(),
    decreases s.len(),
{
    reveal_strlit("'\\''");
    if s.len() > 0 {
        lemma_escape_len(s.drop_last());
    }
}

/// A word is stored bare only when it is non-empty and every character is an ASCII letter
/// or digit or one of `-_./=:@%+,`; any other word (one holding a space, a quote, a glob
/// or any other shell metacharacter) is stored inside single quotes.
pub proof fn law_bare_words_are_plain(w: Seq<char>)
    ensures
        spec_quote(w) == w ==> w.len() > 0 && forall|i: int| 0 <= i < w.len() ==> {
            let c = #[trigger] w[i];
            ('a' <= c && c <= 'z') || ('A' <= c && c <= 'Z') || ('0' <= c && c <= '9')
                || c == '-' || c == '_' || c == '.' || c == '/' || c == '=' || c == ':'
                || c == '@' || c == '%' || c == '+' || c == ','
        },
        spec_quote(w) != w ==> spec_quote(w).len() >= w.len() + 2 && spec_quote(w)[0] == '\''
            && spec_quote(w).last() == '\'',
{
    reveal_strlit("'");
    lemma_escape_len(w);
    if spec_quote(w) == w {
        if !(w.len() > 0 && (forall|i: int| 0 <= i < w.len() ==> is_shell_safe(#[trigger] w[i]))) {
            assert(spec_quote(w).len() == escape_quotes(w).len() + 2);
            assert(false);
        }
        assert forall|i: int| 0 <= i < w.len() implies {
            let c = #[trigger] w[i];
            ('a' <= c && c <= 'z') || ('A' <= c && c <= 'Z') || ('0' <= c && c <= '9')
                || c == '-' || c == '_' || c == '.' || c == '/' || c == '=' || c == ':'
                || c == '@' || c == '%' || c == '+' || c == ','
        } by {
            assert(is_shell_safe(w[i]));
        }
    }
}

/// Rounding `a / b` to the nearest integer is off by at most a half.
proof fn lemma_round_half(a: nat, b: nat)
    requires
        b > 0,
    ensures
        2 * b * div_round_even(a, b) >= 2 * a - b,
        2 * b * div_round_even(a, b) <= 2 * a + b,
{
    let q = a / b;
    let r = a % b;
    vstd::arithmetic::div_mod::lemma_fundamental_div_mod(a as int, b as int);
    assert(0 <= r < b);
    let x = div_round_even(a, b);
    assert(a == b * q + r);
    if x == q + 1 {
        assert(2 * r >= b);
        assert(2 * b * x == 2 * (b * q) + 2 * b) by (nonlinear_arith)
            requires
                x == q + 1,
        ;
    } else {
        assert(x == q);
        assert(2 * r <= b);
        assert(2 * b * x == 2 * (b * q)) by (nonlinear_arith)
            requires
                x == q,
        ;
    }
}

/// The tenths shown for `1000 <= ms < 60000` are `ms / 100` rounded down or up.
proof fn lemma_tenths_close(ms: nat)
    requires
        1000 <= ms < 60000,
    ensures
        ms / 100 <= duration_tenths(ms) <= ms / 100 + 1,
{
    let p: nat = if ms < 2000 {
        0x10_0000_0000_0000
    } else if ms < 4000 {
        0x8_0000_0000_0000
    } else if ms < 8000 {
        0x4_0000_0000_0000
    } else if ms < 16000 {
        0x2_0000_0000_0000
    } else if ms < 32000 {
        0x1_0000_0000_0000
    } else {
        0x8000_0000_0000
    };
    let x = div_round_even(ms * p, 1000);
    let y = div_round_even(x * 10, p);
    assert(duration_tenths(ms) == y);
    lemma_round_half(ms * p, 1000);
    lemma_round_half(x * 10, p);
    let f = ms / 100;
    let r = ms % 100;
    assert(ms == 100 * f + r && 0 <= r < 100);
    assert(p >= 100);
    assert(f <= y && y <= f + 1) by (nonlinear_arith)
        requires
            2000 * x >= 2 * (ms * p) - 1000,
            2000 * x <= 2 * (ms * p) + 1000,
            2 * p * y >= 2 * (x * 10) - p,
            2 * p * y <= 2 * (x * 10) + p,
            ms == 100 * f + r,
            0 <= r < 100,
            p >= 100,
            y >= 0,
            f >= 0,
    ;
}

/// Every duration reads as its parts: under a second, the milliseconds; under a minute,
/// whole seconds and one decimal within a tenth of the exact value (`ms / 100` rounded
/// down or up); under an hour, minutes and the seconds (below 60) left over; otherwise
/// hours and the minutes (below 60) left over, the parts adding back to the total.
pub proof fn law_duration_parts(ms: int)
    ensures
        ms < 1000 ==> spec_human_duration(ms) == dec_int(ms) + "ms"@,
        1000 <= ms < 60_000 ==> exists|a: nat, b: nat|
            b < 10 && ms / 100 <= a * 10 + b <= ms / 100 + 1
                && spec_human_duration(ms) == #[trigger] dec(a) + "."@ + #[trigger] dec(b) + "s"@,
        60_000 <= ms < 3_600_000 ==> exists|m: nat, s: nat|
            s < 60 && m * 60 + s == ms / 1000
                && spec_human_duration(ms) == #[trigger] dec(m) + "m"@ + #[trigger] dec(s) + "s"@,
        ms >= 3_600_000 ==> exists|h: nat, m: nat|
            m < 60 && h * 60 + m == ms / 60000
                && spec_human_duration(ms) == #[trigger] dec(h) + "h"@ + #[trigger] dec(m) + "m"@,
{
    if 1000 <= ms < 60_000 {
        let t = duration_tenths(ms as nat);
        lemma_tenths_close(ms as nat);
        let a = t / 10;
        let b = t % 10;
        assert(a * 10 + b == t);
        assert(spec_human_duration(ms) == dec(a) + "."@ + dec(b) + "s"@);
    } else if 60_000 <= ms < 3_600_000 {
        let secs = ms / 1000;
        let m = (secs / 60) as nat;
        let s2 = (secs % 60) as nat;
        assert(m * 60 + s2 == ms / 1000);
        assert(spec_human_duration(ms) == dec(m) + "m"@ + dec(s2) + "s"@);
    } else if ms >= 3_600_000 {
        let mins = ms / 1000 / 60;
        assert(mins == ms / 60000) by {
            vstd::arithmetic::div_mod::lemma_div_denominator(ms, 1000, 60);
        }
        let h = (mins / 60) as nat;
        let m = (mins % 60) as nat;
        assert(h * 60 + m == ms / 60000);
        assert(spec_human_duration(ms) == dec(h) + "h"@ + dec(m) + "m"@);
    }
}

proof fn lemma_lower_id(u: Seq<char>)
    requires
        forall|j: int| 0 <= j < u.len() ==> 'a' <= #[trigger] u[j] && u[j] <= 'z',
    ensures
        ascii_lower(u) == u,
{
    assert forall|j: int| 0 <= j < u.len() implies ascii_lower(u)[j] == u[j] by {
        assert('a' <= u[j] && u[j] <= 'z');
    }
    assert(ascii_lower(u) =~= u);
}

/// What moving `base` by `delta` seconds gives, outside a leap second: the instant that
/// many seconds later (earlier when negative), or the overflow error past chrono's range.
pub open spec fn moved_by(base: Timestamp, delta: int) -> Option<Result<Timestamp, Seq<char>>> {
    if min_secs() <= base.secs + delta <= max_secs() {
        Some(Ok(Timestamp { secs: (base.secs + delta) as i64, nanos: base.nanos }))
    } else {
        Some(Err("date arithmetic overflow"@))
    }
}

/// The fixed-length units in each of their spellings, with their length in seconds.
pub open spec fn fixed_unit(u: Seq<char>, k: int) -> bool {
    ||| k == 1 && (u == "s"@ || u == "sec"@ || u == "secs"@ || u == "second"@ || u == "seconds"@)
    ||| k == 60 && (u == "m"@ || u == "min"@ || u == "mins"@ || u == "minute"@ || u == "minutes"@)
    ||| k == 3600 && (u == "h"@ || u == "hr"@ || u == "hrs"@ || u == "hour"@ || u == "hours"@)
    ||| k == 86400 && (u == "d"@ || u == "day"@ || u == "days"@)
    ||| k == 604800 && (u == "w"@ || u == "wk"@ || u == "wks"@ || u == "week"@ || u == "weeks"@)
}

proof fn lemma_unit_lower(u: Seq<char>)
    requires
        (exists|k: int| fixed_unit(u, k)) || month_unit(u) || year_unit(u),
    ensures
        ascii_lower(u) == u,
        u.len() > 0,
        forall|j: int| 0 <= j < u.len() ==> 'a' <= #[trigger] u[j] && u[j] <= 'z',
{
    reveal_strlit("s"); reveal_strlit("sec"); reveal_strlit("secs"); reveal_strlit("second"); reveal_strlit("seconds");
    reveal_strlit("m"); reveal_strlit("min"); reveal_strlit("mins"); reveal_strlit("minute"); reveal_strlit("minutes");
    reveal_strlit("h"); reveal_strlit("hr"); reveal_strlit("hrs"); reveal_strlit("hour"); reveal_strlit("hours");
    reveal_strlit("d"); reveal_strlit("day"); reveal_strlit("days");
    reveal_strlit("w"); reveal_strlit("wk"); reveal_strlit("wks"); reveal_strlit("week"); reveal_strlit("weeks");
    reveal_strlit("mon"); reveal_strlit("month"); reveal_strlit("months");
    reveal_strlit("y"); reveal_strlit("yr"); reveal_strlit("yrs"); reveal_strlit("year"); reveal_strlit("years");
    assert(forall|j: int| 0 <= j < u.len() ==> 'a' <= #[trigger] u[j] && u[j] <= 'z');
    lemma_lower_id(u);
}

/// The month units in each of their spellings.
pub open spec fn month_unit(u: Seq<char>) -> bool {
    u == "mon"@ || u == "month"@ || u == "months"@
}

/// The year units in each of their spellings.
pub open spec fn year_unit(u: Seq<char>) -> bool {
    u == "y"@ || u == "yr"@ || u == "yrs"@ || u == "year"@ || u == "years"@
}

/// Each spelling of a second, minute, hour, day or week is accepted, and `n` of them move
/// the instant by exactly `n` times the unit's length in seconds, back for `-` and forward
/// for `+` (outside a leap second); counts too large for chrono's spans are refused.
pub proof fn law_fixed_length_units(base: Timestamp, neg: bool, n: nat, u: Seq<char>, k: int)
    requires
        valid_ts(base),
        base.nanos < 1_000_000_000,
        fixed_unit(u, k),
    ensures
        n * k > max_delta_secs() ==> spec_apply_term(base, neg, n, u) is None,
        n * k <= max_delta_secs() ==> spec_apply_term(base, neg, n, u)
            == moved_by(base, if neg { -(n * k) } else { n * k }),
{
    lemma_unit_lower(u);
    reveal_strlit("s"); reveal_strlit("sec"); reveal_strlit("secs"); reveal_strlit("second"); reveal_strlit("seconds");
    reveal_strlit("m"); reveal_strlit("min"); reveal_strlit("mins"); reveal_strlit("minute"); reveal_strlit("minutes");
    reveal_strlit("h"); reveal_strlit("hr"); reveal_strlit("hrs"); reveal_strlit("hour"); reveal_strlit("hours");
    reveal_strlit("d"); reveal_strlit("day"); reveal_strlit("days");
    reveal_strlit("w"); reveal_strlit("wk"); reveal_strlit("wks"); reveal_strlit("week"); reveal_strlit("weeks");
    reveal_strlit("mon"); reveal_strlit("month"); reveal_strlit("months");
    reveal_strlit("y"); reveal_strlit("yr"); reveal_strlit("yrs"); reveal_strlit("year"); reveal_strlit("years");
    if u == "s"@ {
        assert(u.len() == 1 && u[0] == 's');
    }
    if u == "sec"@ {
        assert(u.len() == 3 && u[0] == 's' && u[1] == 'e' && u[2] == 'c');
    }
    if u == "secs"@ {
        assert(u.len() == 4 && u[0] == 's' && u[1] == 'e' && u[2] == 'c' && u[3] == 's');
    }
    if u == "second"@ {
        assert(u.len() == 6 && u[0] == 's' && u[1] == 'e' && u[2] == 'c' && u[3] == 'o' && u[4] == 'n' && u[5] == 'd');
    }
    if u == "seconds"@ {
        assert(u.len() == 7 && u[0] == 's' && u[1] == 'e' && u[2] == 'c' && u[3] == 'o' && u[4] == 'n' && u[5] == 'd' && u[6] == 's');
    }
    if u == "m"@ {
        assert(u.len() == 1 && u[0] == 'm');
    }
    if u == "min"@ {
        assert(u.len() == 3 && u[0] == 'm' && u[1] == 'i' && u[2] == 'n');
    }
    if u == "mins"@ {
        assert(u.len() == 4 && u[0] == 'm' && u[1] == 'i' && u[2] == 'n' && u[3] == 's');
    }
    if u == "minute"@ {
        assert(u.len() == 6 && u[0] == 'm' && u[1] == 'i' && u[2] == 'n' && u[3] == 'u' && u[4] == 't' && u[5] == 'e');
    }
    if u == "minutes"@ {
        assert(u.len() == 7 && u[0] == 'm' && u[1] == 'i' && u[2] == 'n' && u[3] == 'u' && u[4] == 't' && u[5] == 'e' && u[6] == 's');
    }
    if u == "h"@ {
        assert(u.len() == 1 && u[0] == 'h');
    }
    if u == "hr"@ {
        assert(u.len() == 2 && u[0] == 'h' && u[1] == 'r');
    }
    if u == "hrs"@ {
        assert(u.len() == 3 && u[0] == 'h' && u[1] == 'r' && u[2] == 's');
    }
    if u == "hour"@ {
        assert(u.len() == 4 && u[0] == 'h' && u[1] == 'o' && u[2] == 'u' && u[3] == 'r');
    }
    if u == "hours"@ {
        assert(u.len() == 5 && u[0] == 'h' && u[1] == 'o' && u[2] == 'u' && u[3] == 'r' && u[4] == 's');
    }
    if u == "d"@ {
        assert(u.len() == 1 && u[0] == 'd');
    }
    if u == "day"@ {
        assert(u.len() == 3 && u[0] == 'd' && u[1] == 'a' && u[2] == 'y');
    }
    if u == "days"@ {
        assert(u.len() == 4 && u[0] == 'd' && u[1] == 'a' && u[2] == 'y' && u[3] == 's');
    }
    if u == "w"@ {
        assert(u.len() == 1 && u[0] == 'w');
    }
    if u == "wk"@ {
        assert(u.len() == 2 && u[0] == 'w' && u[1] == 'k');
    }
    if u == "wks"@ {
        assert(u.len() == 3 && u[0] == 'w' && u[1] == 'k' && u[2] == 's');
    }
    if u == "week"@ {
        assert(u.len() == 4 && u[0] == 'w' && u[1] == 'e' && u[2] == 'e' && u[3] == 'k');
    }
    if u == "weeks"@ {
        assert(u.len() == 5 && u[0] == 'w' && u[1] == 'e' && u[2] == 'e' && u[3] == 'k' && u[4] == 's');
    }
    if u == "mon"@ {
        assert(u.len() == 3 && u[0] == 'm' && u[1] == 'o' && u[2] == 'n');
    }
    if u == "month"@ {
        assert(u.len() == 5 && u[0] == 'm' && u[1] == 'o' && u[2] == 'n' && u[3] == 't' && u[4] == 'h');
    }
    if u == "months"@ {
        assert(u.len() == 6 && u[0] == 'm' && u[1] == 'o' && u[2] == 'n' && u[3] == 't' && u[4] == 'h' && u[5] == 's');
    }
    if u == "y"@ {
        assert(u.len() == 1 && u[0] == 'y');
    }
    if u == "yr"@ {
        assert(u.len() == 2 && u[0] == 'y' && u[1] == 'r');
    }
    if u == "yrs"@ {
        assert(u.len() == 3 && u[0] == 'y' && u[1] == 'r' && u[2] == 's');
    }
    if u == "year"@ {
        assert(u.len() == 4 && u[0] == 'y' && u[1] == 'e' && u[2] == 'a' && u[3] == 'r');
    }
    if u == "years"@ {
        assert(u.len() == 5 && u[0] == 'y' && u[1] == 'e' && u[2] == 'a' && u[3] == 'r' && u[4] == 's');
    }
    assert(crate::timequery::unit_seconds(u) == Some(k));
}

/// Each spelling of a month or a year is accepted: `n` of them (the count cut to 32 bits as
/// chrono's `Months` takes it, and twelve months to the year) move the instant by calendar
/// months, back for `-` and forward for `+`.
pub proof fn law_calendar_units(base: Timestamp, neg: bool, n: nat, u: Seq<char>)
    requires
        month_unit(u) || year_unit(u),
    ensures
        ({
            let m = n % 0x1_0000_0000;
            let months = if year_unit(u) { m * 12 } else { m };
            &&& months > u32::MAX ==> spec_apply_term(base, neg, n, u) is None
            &&& months <= u32::MAX ==> spec_apply_term(base, neg, n, u) == (match (if neg {
                months_subtracted(base.secs, base.nanos, months as u32)
            } else {
                months_added(base.secs, base.nanos, months as u32)
            }) {
                Some(p) => Some(Ok::<Timestamp, Seq<char>>(ts_of(p))),
                None => Some(Err("date arithmetic overflow"@)),
            })
        }),
{
    lemma_unit_lower(u);
    reveal_strlit("s"); reveal_strlit("sec"); reveal_strlit("secs"); reveal_strlit("second"); reveal_strlit("seconds");
    reveal_strlit("m"); reveal_strlit("min"); reveal_strlit("mins"); reveal_strlit("minute"); reveal_strlit("minutes");
    reveal_strlit("h"); reveal_strlit("hr"); reveal_strlit("hrs"); reveal_strlit("hour"); reveal_strlit("hours");
    reveal_strlit("d"); reveal_strlit("day"); reveal_strlit("days");
    reveal_strlit("w"); reveal_strlit("wk"); reveal_strlit("wks"); reveal_strlit("week"); reveal_strlit("weeks");
    reveal_strlit("mon"); reveal_strlit("month"); reveal_strlit("months");
    reveal_strlit("y"); reveal_strlit("yr"); reveal_strlit("yrs"); reveal_strlit("year"); reveal_strlit("years");
    if u == "s"@ {
        assert(u.len() == 1 && u[0] == 's');
    }
    if u == "sec"@ {
        assert(u.len() == 3 && u[0] == 's' && u[1] == 'e' && u[2] == 'c');
    }
    if u == "secs"@ {
        assert(u.len() == 4 && u[0] == 's' && u[1] == 'e' && u[2] == 'c' && u[3] == 's');
    }
    if u == "second"@ {
        assert(u.len() == 6 && u[0] == 's' && u[1] == 'e' && u[2] == 'c' && u[3] == 'o' && u[4] == 'n' && u[5] == 'd');
    }
    if u == "seconds"@ {
        assert(u.len() == 7 && u[0] == 's' && u[1] == 'e' && u[2] == 'c' && u[3] == 'o' && u[4] == 'n' && u[5] == 'd' && u[6] == 's');
    }
    if u == "m"@ {
        assert(u.len() == 1 && u[0] == 'm');
    }
    if u == "min"@ {
        assert(u.len() == 3 && u[0] == 'm' && u[1] == 'i' && u[2] == 'n');
    }
    if u == "mins"@ {
        assert(u.len() == 4 && u[0] == 'm' && u[1] == 'i' && u[2] == 'n' && u[3] == 's');
    }
    if u == "minute"@ {
        assert(u.len() == 6 && u[0] == 'm' && u[1] == 'i' && u[2] == 'n' && u[3] == 'u' && u[4] == 't' && u[5] == 'e');
    }
    if u == "minutes"@ {
        assert(u.len() == 7 && u[0] == 'm' && u[1] == 'i' && u[2] == 'n' && u[3] == 'u' && u[4] == 't' && u[5] == 'e' && u[6] == 's');
    }
    if u == "h"@ {
        assert(u.len() == 1 && u[0] == 'h');
    }
    if u == "hr"@ {
        assert(u.len() == 2 && u[0] == 'h' && u[1] == 'r');
    }
    if u == "hrs"@ {
        assert(u.len() == 3 && u[0] == 'h' && u[1] == 'r' && u[2] == 's');
    }
    if u == "hour"@ {
        assert(u.len() == 4 && u[0] == 'h' && u[1] == 'o' && u[2] == 'u' && u[3] == 'r');
    }
    if u == "hours"@ {
        assert(u.len() == 5 && u[0] == 'h' && u[1] == 'o' && u[2] == 'u' && u[3] == 'r' && u[4] == 's');
    }
    if u == "d"@ {
        assert(u.len() == 1 && u[0] == 'd');
    }
    if u == "day"@ {
        assert(u.len() == 3 && u[0] == 'd' && u[1] == 'a' && u[2] == 'y');
    }
    if u == "days"@ {
        assert(u.len() == 4 && u[0] == 'd' && u[1] == 'a' && u[2] == 'y' && u[3] == 's');
    }
    if u == "w"@ {
        assert(u.len() == 1 && u[0] == 'w');
    }
    if u == "wk"@ {
        assert(u.len() == 2 && u[0] == 'w' && u[1] == 'k');
    }
    if u == "wks"@ {
        assert(u.len() == 3 && u[0] == 'w' && u[1] == 'k' && u[2] == 's');
    }
    if u == "week"@ {
        assert(u.len() == 4 && u[0] == 'w' && u[1] == 'e' && u[2] == 'e' && u[3] == 'k');
    }
    if u == "weeks"@ {
        assert(u.len() == 5 && u[0] == 'w' && u[1] == 'e' && u[2] == 'e' && u[3] == 'k' && u[4] == 's');
    }
    if u == "mon"@ {
        assert(u.len() == 3 && u[0] == 'm' && u[1] == 'o' && u[2] == 'n');
    }
    if u == "month"@ {
        assert(u.len() == 5 && u[0] == 'm' && u[1] == 'o' && u[2] == 'n' && u[3] == 't' && u[4] == 'h');
    }
    if u == "months"@ {
        assert(u.len() == 6 && u[0] == 'm' && u[1] == 'o' && u[2] == 'n' && u[3] == 't' && u[4] == 'h' && u[5] == 's');
    }
    if u == "y"@ {
        assert(u.len() == 1 && u[0] == 'y');
    }
    if u == "yr"@ {
        assert(u.len() == 2 && u[0] == 'y' && u[1] == 'r');
    }
    if u == "yrs"@ {
        assert(u.len() == 3 && u[0] == 'y' && u[1] == 'r' && u[2] == 's');
    }
    if u == "year"@ {
        assert(u.len() == 4 && u[0] == 'y' && u[1] == 'e' && u[2] == 'a' && u[3] == 'r');
    }
    if u == "years"@ {
        assert(u.len() == 5 && u[0] == 'y' && u[1] == 'e' && u[2] == 'a' && u[3] == 'r' && u[4] == 's');
    }
    assert(crate::timequery::unit_seconds(u) is None);
}

proof fn lemma_skip_digits_run(e: Seq<char>, i: int, k: int)
    requires
        0 <= i <= k <= e.len(),
        forall|j: int| i <= j < k ==> is_digit_class(#[trigger] e[j]),
        k == e.len() || !is_digit_class(e[k]),
    ensures
        skip_digits(e, i) == k,
    decreases k - i,
{
    if i < k {
        lemma_skip_digits_run(e, i + 1, k);
    }
}

proof fn lemma_skip_letters_run(e: Seq<char>, i: int, k: int)
    requires
        0 <= i <= k <= e.len(),
        forall|j: int| i <= j < k ==> is_letter_class(#[trigger] e[j]),
        k == e.len() || !is_letter_class(e[k]),
    ensures
        skip_letters(e, i) == k,
    decreases k - i,
{
    if i < k {
        lemma_skip_letters_run(e, i + 1, k);
    }
}

/// Decimal digits followed by a lower-case word read as a bare duration, split between
/// them.
proof fn lemma_digits_word(d: Seq<char>, u: Seq<char>)
    requires
        d.len() > 0,
        crate::chars::all_ascii_digits(d),
        u.len() > 0,
        forall|j: int| 0 <= j < u.len() ==> 'a' <= #[trigger] u[j] && u[j] <= 'z',
    ensures
        skip_digits(d + u, 0) == d.len(),
        skip_ws(d + u, d.len() as int) == d.len(),
        bare_at(d + u),
{
    let e = d + u;
    assert forall|j: int| 0 <= j < d.len() implies is_digit_class(#[trigger] e[j]) by {
        assert(e[j] == d[j]);
        assert('0' <= d[j] && d[j] <= '9');
    }
    assert(e[d.len() as int] == u[0]);
    assert('a' <= u[0] && u[0] <= 'z');
    lemma_skip_digits_run(e, 0, d.len() as int);
    assert(!is_ws(e[d.len() as int]));
    assert forall|j: int| d.len() <= j < e.len() implies is_letter_class(#[trigger] e[j]) by {
        assert(e[j] == u[j - d.len()]);
        assert('a' <= u[j - d.len()] && u[j - d.len()] <= 'z');
    }
    lemma_skip_letters_run(e, d.len() as int, e.len() as int);
}

/// `today-N<unit>` for a fixed-length unit, in any of its spellings, is today's midnight
/// moved back by exactly `N` times the unit's length in seconds (or the overflow error past
/// chrono's range), in either mode.
pub proof fn law_today_minus_units(n: nat, u: Seq<char>, k: int, now: Timestamp, shortcuts: bool)
    requires
        valid_ts(now),
        fixed_unit(u, k),
        n * k <= max_delta_secs(),
    ensures
        spec_parse_instant("today-"@ + dec(n) + u, now, shortcuts) == moved_by(midnight(now), -(n * k)),
{
    reveal_strlit("today");
    reveal_strlit("today-");
    reveal_strlit("now");
    lemma_unit_lower(u);
    assert(forall|j: int| 0 <= j < u.len() ==> 'a' <= #[trigger] u[j] && u[j] <= 'z');
    assert(u.len() > 0);
    assert(k >= 1);
    assert(n <= max_delta_secs()) by (nonlinear_arith)
        requires
            n * k <= max_delta_secs(),
            k >= 1,
    ;
    lemma_dec_reads_back(n);
    let d = dec(n);
    let e = d + u;
    lemma_digits_word(d, u);
    let w = "today"@;
    assert(forall|j: int| 0 <= j < w.len() ==> 'a' <= #[trigger] w[j] && w[j] <= 'z');
    lemma_term_after_word(w, '-', e);
    let big = w + seq!['-'] + e;
    assert("today-"@ =~= w + seq!['-']);
    assert((w + seq!['-']) + d + u =~= big);
    assert("today-"@ + dec(n) + u == big);
    assert(big[0] == 't');
    assert(big.last() == u.last());
    lemma_trim_id(big);
    let p = 6int;
    assert(big.subrange(p, p + d.len()) =~= d);
    assert(big.subrange(p + d.len(), p + e.len()) =~= u);
    assert(big.subrange(0, 5) =~= w);
    assert(big[5] == '-');
    let m = midnight(now);
    assert(spec_anchor(w, now) == Some(Ok::<Timestamp, Seq<char>>(m)));
    assert(valid_ts(m) && m.nanos < 1_000_000_000) by {
        assert(min_secs() % 86400 == 0);
    }
    law_fixed_length_units(m, true, n, u, k);
}

proof fn lemma_passing_same(runs: Seq<Run>, f: FiltersView, g: FiltersView)
    requires
        forall|k: int| 0 <= k < runs.len() ==> (passes(#[trigger] runs[k], f) <==> passes(runs[k], g)),
    ensures
        passing(runs, f) == passing(runs, g),
    decreases runs.len(),
{
    if runs.len() > 0 {
        let d = runs.drop_last();
        assert forall|k: int| 0 <= k < d.len() implies (passes(#[trigger] d[k], f) <==> passes(d[k], g)) by {
            assert(d[k] == runs[k]);
        }
        lemma_passing_same(d, f, g);
        assert(passes(runs[runs.len() - 1], f) <==> passes(runs[runs.len() - 1], g));
    }
}

proof fn lemma_passing_none(runs: Seq<Run>, f: FiltersView)
    requires
        forall|k: int| 0 <= k < runs.len() ==> !passes(#[trigger] runs[k], f),
    ensures
        passing(runs, f) == Seq::<Run>::empty(),
    decreases runs.len(),
{
    if runs.len() > 0 {
        let d = runs.drop_last();
        assert forall|k: int| 0 <= k < d.len() implies !passes(#[trigger] d[k], f) by {
            assert(d[k] == runs[k]);
        }
        lemma_passing_none(d, f);
        assert(!passes(runs[runs.len() - 1], f));
    }
}

/// The `reg` pattern searches the command and the output: over runs whose commands all
/// match it, or whose (decoded) outputs all match it, selecting with it gives the same as
/// selecting without it; and when neither the command nor the output of any run matches
/// it, nothing is selected.
pub proof fn law_reg_searches_command_or_output(runs: Seq<Run>, f: FiltersView, p: Seq<char>)
    requires
        f.reg_re == Some(p),
        regex_error(p) is None,
    ensures
        (forall|k: int| 0 <= k < runs.len() ==> regex_matches(p, #[trigger] runs[k].command@))
            ==> spec_select(runs, f) == spec_select(runs, FiltersView { reg_re: None, ..f }),
        (forall|k: int| 0 <= k < runs.len() ==> regex_matches(p, crate::text::decoded(#[trigger] runs[k].output@)))
            ==> spec_select(runs, f) == spec_select(runs, FiltersView { reg_re: None, ..f }),
{
    let g = FiltersView { reg_re: None, ..f };
    assert(first_regex_error(f) == first_regex_error(g));
    if forall|k: int| 0 <= k < runs.len() ==> regex_matches(p, #[trigger] runs[k].command@) {
        assert forall|k: int| 0 <= k < runs.len() implies (passes(#[trigger] runs[k], f) <==> passes(runs[k], g)) by {
            assert(regex_matches(p, runs[k].command@));
        }
        lemma_passing_same(runs, f, g);
    }
    if forall|k: int| 0 <= k < runs.len() ==> regex_matches(p, crate::text::decoded(#[trigger] runs[k].output@)) {
        assert forall|k: int| 0 <= k < runs.len() implies (passes(#[trigger] runs[k], f) <==> passes(runs[k], g)) by {
            assert(regex_matches(p, crate::text::decoded(runs[k].output@)));
        }
        lemma_passing_same(runs, f, g);
    }
}

/// When neither the command nor the (decoded) output of any run matches the `reg`
/// pattern, and every pattern compiles, nothing is selected.
pub proof fn law_reg_drops_runs_matching_neither(runs: Seq<Run>, f: FiltersView, p: Seq<char>)
    requires
        f.reg_re == Some(p),
        first_regex_error(f) is None,
        forall|k: int| 0 <= k < runs.len() ==> !regex_matches(p, #[trigger] runs[k].command@)
            && !regex_matches(p, crate::text::decoded(runs[k].output@)),
    ensures
        spec_select(runs, f) == Ok::<Seq<Run>, Seq<char>>(Seq::empty()),
{
    assert forall|k: int| 0 <= k < runs.len() implies !passes(#[trigger] runs[k], f) by {
        assert(!regex_matches(p, runs[k].command@));
    }
    lemma_passing_none(runs, f);
    let e = Seq::<Run>::empty();
    assert(capped(e, f.limit) =~= e);
}

} // verus!
