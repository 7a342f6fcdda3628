//! Human-facing rendering: colours, the list table and the detail view.

use vstd::prelude::*;
use crate::chars::{
    dec, dec_int, from_chars, strings_chars, index_of, lit, pad_left, pad_right, push_dec, push_dec_i64,
    push_pad_left, push_pad_right, push_seq, push_spaces, push_str, spaces, to_chars, trim,
    trim_range, find_char,
};
use crate::model::{valid_ts, Run, Timestamp};
use crate::text::{decode_lossy_stripped, decoded};

verus! {

/// An RGB colour.
#[derive(Debug, Clone, Copy, PartialEq, Eq, Structural)]
pub struct Rgb {
    pub r: u8,
    pub g: u8,
    pub b: u8,
}

/// Whether `c` is an ASCII hexadecimal digit.
pub open spec fn is_hex(c: char) -> bool {
    ('0' <= c && c <= '9') || ('a' <= c && c <= 'f') || ('A' <= c && c <= 'F')
}

/// The value of a hexadecimal digit.
pub open spec fn hex_val(c: char) -> nat {
    if '0' <= c && c <= '9' {
        (c as nat - '0' as nat) as nat
    } else if 'a' <= c && c <= 'f' {
        (c as nat - 'a' as nat + 10) as nat
    } else {
        (c as nat - 'A' as nat + 10) as nat
    }
}

/// `t` without one leading `#`.
pub open spec fn strip_hash(t: Seq<char>) -> Seq<char> {
    if t.len() > 0 && t[0] == '#' { t.drop_first() } else { t }
}

/// Six hexadecimal digits.
pub open spec fn six_hex(h: Seq<char>) -> bool {
    h.len() == 6 && (forall|i: int| 0 <= i < 6 ==> is_hex(#[trigger] h[i]))
}

/// The colour that `#rrggbb` or `rrggbb` (surrounding white space ignored) denotes,
/// or the error message for `s`.
pub open spec fn spec_parse_hex(s: Seq<char>) -> Result<Rgb, Seq<char>> {
    let h = strip_hash(trim(s));
    if six_hex(h) {
        Ok(
            Rgb {
                r: (hex_val(h[0]) * 16 + hex_val(h[1])) as u8,
                g: (hex_val(h[2]) * 16 + hex_val(h[3])) as u8,
                b: (hex_val(h[4]) * 16 + hex_val(h[5])) as u8,
            },
        )
    } else {
        Err("invalid hex color `"@ + s + "` (expected #rrggbb)"@)
    }
}

fn hex_digit(c: char) -> (r: Option<u8>)
    ensures
        r is Some <==> is_hex(c),
        r matches Some(d) ==> d == hex_val(c) && d < 16,
{
    if '0' <= c && c <= '9' {
        Some(((c as u32) - ('0' as u32)) as u8)
    } else if 'a' <= c && c <= 'f' {
        Some(((c as u32) - ('a' as u32) + 10) as u8)
    } else if 'A' <= c && c <= 'F' {
        Some(((c as u32) - ('A' as u32) + 10) as u8)
    } else {
        None
    }
}

impl Rgb {
    /// Parse `#rrggbb` or `rrggbb`.
    pub fn parse_hex(s: &str) -> (res: Result<Rgb, String>)
        ensures
            match (res, spec_parse_hex(s@)) {
                (Ok(c), Ok(d)) => c == d,
                (Err(e), Err(m)) => e@ == m,
                _ => false,
            },
    {
        let v = to_chars(s);
        let t = trim_range(&v, 0, v.len());
        assert(v@.subrange(0, v@.len() as int) =~= v@);
        let start: usize = if t.len() > 0 && t[0] == '#' { 1 } else { 0 };
        let ghost h = strip_hash(t@);
        assert(h =~= t@.subrange(start as int, t@.len() as int));
        if t.len() - start == 6 {
            let d0 = hex_digit(t[start]);
            let d1 = hex_digit(t[start + 1]);
            let d2 = hex_digit(t[start + 2]);
            let d3 = hex_digit(t[start + 3]);
            let d4 = hex_digit(t[start + 4]);
            let d5 = hex_digit(t[start + 5]);
            match (d0, d1, d2, d3, d4, d5) {
                (Some(a0), Some(a1), Some(a2), Some(a3), Some(a4), Some(a5)) => {
                    assert forall|i: int| 0 <= i < 6 implies is_hex(#[trigger] h[i]) by {
                        assert(h[i] == t@[start + i]);
                    }
                    return Ok(Rgb { r: a0 * 16 + a1, g: a2 * 16 + a3, b: a4 * 16 + a5 });
                },
                _ => {
                    assert(!(forall|i: int| 0 <= i < 6 ==> is_hex(#[trigger] h[i]))) by {
                        if d0 is None { assert(!is_hex(h[0])); }
                        else if d1 is None { assert(!is_hex(h[1])); }
                        else if d2 is None { assert(!is_hex(h[2])); }
                        else if d3 is None { assert(!is_hex(h[3])); }
                        else if d4 is None { assert(!is_hex(h[4])); }
                        else { assert(!is_hex(h[5])); }
                    }
                },
            }
        }
        assert(t@ == trim(s@));
        assert(!six_hex(h));
        let mut m: Vec<char> = Vec::new();
        push_str(&mut m, "invalid hex color `");
        push_str(&mut m, s);
        push_str(&mut m, "` (expected #rrggbb)");
        Err(from_chars(&m))
    }
}


/// `a / b` rounded to the nearest integer, ties to the even one.
pub open spec fn div_round_even(a: nat, b: nat) -> nat
    recommends
        b > 0,
{
    let q = a / b;
    let r = a % b;
    if 2 * r > b || (2 * r == b && q % 2 == 1) { q + 1 } else { q }
}

/// For `1000 <= ms < 60000`: the number of tenths that `{:.1}` prints for the `f64`
/// nearest to `ms / 1000`. That double is `m / 2^k` with `m` the 53-bit mantissa
/// `ms * 2^k / 1000` rounded to nearest-even, where `2^(52 - k) <= ms / 1000`; printing
/// with one decimal rounds `10 * m / 2^k` to nearest-even.
pub open spec fn duration_tenths(ms: nat) -> nat {
    let p: nat = if ms < 2000 {
        0x10_0000_0000_0000
    } else if ms < 4000 {
        0x8_0000_0000_0000
    } else if ms < 8000 {
        0x4_0000_0000_0000
    } else if ms < 16000 {
        0x2_0000_0000_0000
    } else if ms < 32000 {
        0x1_0000_0000_0000
    } else {
        0x8000_0000_0000
    };
    div_round_even(div_round_even(ms * p, 1000) * 10, p)
}

/// The compact rendering of a duration in milliseconds.
pub open spec fn spec_human_duration(ms: int) -> Seq<char> {
    if ms < 1000 {
        dec_int(ms) + "ms"@
    } else if ms < 60_000 {
        let t = duration_tenths(ms as nat);
        dec(t / 10) + "."@ + dec(t % 10) + "s"@
    } else if ms < 3_600_000 {
        let secs = ms / 1000;
        dec((secs / 60) as nat) + "m"@ + dec((secs % 60) as nat) + "s"@
    } else {
        let mins = ms / 1000 / 60;
        dec((mins / 60) as nat) + "h"@ + dec((mins % 60) as nat) + "m"@
    }
}

fn div_round_even_exec(a: u128, b: u128) -> (r: u128)
    requires
        0 < b < 0x1_0000_0000_0000_0000_0000_0000,
        a < 0x1_0000_0000_0000_0000_0000_0000,
    ensures
        r == div_round_even(a as nat, b as nat),
{
    let q = a / b;
    let rem = a % b;
    if 2 * rem > b || (2 * rem == b && q % 2 == 1) {
        q + 1
    } else {
        q
    }
}

/// Format a duration in milliseconds compactly (e.g. `350ms`, `1.2s`, `2m3s`, `1h4m`).
pub fn human_duration(ms: i64) -> (s: String)
    ensures
        s@ == spec_human_duration(ms as int),
{
    let mut out: Vec<char> = Vec::new();
    if ms < 1000 {
        push_dec_i64(&mut out, ms);
        push_str(&mut out, "ms");
    } else if ms < 60_000 {
        let m = ms as u128;
        let p: u128 = if m < 2000 {
            0x10_0000_0000_0000
        } else if m < 4000 {
            0x8_0000_0000_0000
        } else if m < 8000 {
            0x4_0000_0000_0000
        } else if m < 16000 {
            0x2_0000_0000_0000
        } else if m < 32000 {
            0x1_0000_0000_0000
        } else {
            0x8000_0000_0000
        };
        assert(m * p <= 60000 * 0x10_0000_0000_0000) by (nonlinear_arith)
            requires
                m < 60000,
                p <= 0x10_0000_0000_0000,
        ;
        let mant = div_round_even_exec(m * p, 1000);
        assert(mant <= m * p / 1000 + 1) by (nonlinear_arith)
            requires
                mant == div_round_even((m * p) as nat, 1000),
        ;
        let t = div_round_even_exec(mant * 10, p);
        push_dec(&mut out, t / 10);
        push_str(&mut out, ".");
        push_dec(&mut out, t % 10);
        push_str(&mut out, "s");
    } else if ms < 3_600_000 {
        let secs = ms / 1000;
        push_dec(&mut out, (secs / 60) as u128);
        push_str(&mut out, "m");
        push_dec(&mut out, (secs % 60) as u128);
        push_str(&mut out, "s");
    } else {
        let mins = ms / 1000 / 60;
        push_dec(&mut out, (mins / 60) as u128);
        push_str(&mut out, "h");
        push_dec(&mut out, (mins % 60) as u128);
        push_str(&mut out, "m");
    }
    from_chars(&out)
}


/// Default zebra-stripe background: a subtle dark blue.
pub fn default_bar() -> (c: Rgb)
    ensures
        c == (Rgb { r: 0, g: 0, b: 0x33 }),
{
    Rgb { r: 0, g: 0, b: 0x33 }
}

/// Colors for the list table (quick mode on a terminal). `header` = None means bold only.
pub struct ListStyle {
    pub bar_bg: Rgb,
    pub header: Option<Rgb>,
}

/// The escape sequence that sets the background to `c` (24-bit colour).
pub open spec fn spec_bg(c: Rgb) -> Seq<char> {
    "\x1b[48;2;"@ + dec(c.r as nat) + ";"@ + dec(c.g as nat) + ";"@ + dec(c.b as nat) + "m"@
}

/// The escape sequence that sets the foreground to `c` (24-bit colour).
pub open spec fn spec_fg(c: Rgb) -> Seq<char> {
    "\x1b[38;2;"@ + dec(c.r as nat) + ";"@ + dec(c.g as nat) + ";"@ + dec(c.b as nat) + "m"@
}

/// `x` (a non-negative multiple of 2^-27, counted in those units, below 2^37) rounded to
/// the nearest `f32`: 24 significant bits, ties to even.
pub open spec fn f32_round(x: nat) -> nat {
    if x < 0x100_0000 {
        x
    } else if x < 0x200_0000 {
        div_round_even(x, 0x2) * 0x2
    } else if x < 0x400_0000 {
        div_round_even(x, 0x4) * 0x4
    } else if x < 0x800_0000 {
        div_round_even(x, 0x8) * 0x8
    } else if x < 0x1000_0000 {
        div_round_even(x, 0x10) * 0x10
    } else if x < 0x2000_0000 {
        div_round_even(x, 0x20) * 0x20
    } else if x < 0x4000_0000 {
        div_round_even(x, 0x40) * 0x40
    } else if x < 0x8000_0000 {
        div_round_even(x, 0x80) * 0x80
    } else if x < 0x1_0000_0000 {
        div_round_even(x, 0x100) * 0x100
    } else if x < 0x2_0000_0000 {
        div_round_even(x, 0x200) * 0x200
    } else if x < 0x4_0000_0000 {
        div_round_even(x, 0x400) * 0x400
    } else if x < 0x8_0000_0000 {
        div_round_even(x, 0x800) * 0x800
    } else if x < 0x10_0000_0000 {
        div_round_even(x, 0x1000) * 0x1000
    } else {
        div_round_even(x, 0x2000) * 0x2000
    }
}

/// Whether text on `c` should be dark: the luminance `0.299 r + 0.587 g + 0.114 b`,
/// computed in `f32` as written (each product and each sum rounded to the nearest `f32`),
/// is above 140. Values are counted in units of 2^-27, in which the three `f32`
/// constants are exactly 40131100, 78785808 and 15300821.
pub open spec fn spec_is_light(c: Rgb) -> bool {
    let p = f32_round(f32_round((40131100 * c.r) as nat) + f32_round((78785808 * c.g) as nat));
    f32_round(p + f32_round((15300821 * c.b) as nat)) > 140 * 0x800_0000
}

fn f32_round_exec(x: u64) -> (r: u64)
    requires
        x < 0x20_0000_0000,
    ensures
        r == f32_round(x as nat),
        r <= 2 * x,
{
    let m: u64 = if x < 0x100_0000 {
        return x;
    } else if x < 0x200_0000 {
        0x2
    } else if x < 0x400_0000 {
        0x4
    } else if x < 0x800_0000 {
        0x8
    } else if x < 0x1000_0000 {
        0x10
    } else if x < 0x2000_0000 {
        0x20
    } else if x < 0x4000_0000 {
        0x40
    } else if x < 0x8000_0000 {
        0x80
    } else if x < 0x1_0000_0000 {
        0x100
    } else if x < 0x2_0000_0000 {
        0x200
    } else if x < 0x4_0000_0000 {
        0x400
    } else if x < 0x8_0000_0000 {
        0x800
    } else if x < 0x10_0000_0000 {
        0x1000
    } else {
        0x2000
    };
    let q = div_round_even_exec(x as u128, m as u128) as u64;
    assert(q * m <= x + m) by (nonlinear_arith)
        requires
            q <= x / m + 1,
            m > 0,
    ;
    assert(m <= x);
    q * m
}

impl Rgb {
    /// The escape sequence that sets the background to this colour.
    pub fn bg(&self) -> (s: String)
        ensures
            s@ == spec_bg(*self),
    {
        let mut out = lit("\x1b[48;2;");
        push_dec(&mut out, self.r as u128);
        push_str(&mut out, ";");
        push_dec(&mut out, self.g as u128);
        push_str(&mut out, ";");
        push_dec(&mut out, self.b as u128);
        push_str(&mut out, "m");
        from_chars(&out)
    }

    /// The escape sequence that sets the foreground to this colour.
    pub fn fg(&self) -> (s: String)
        ensures
            s@ == spec_fg(*self),
    {
        let mut out = lit("\x1b[38;2;");
        push_dec(&mut out, self.r as u128);
        push_str(&mut out, ";");
        push_dec(&mut out, self.g as u128);
        push_str(&mut out, ";");
        push_dec(&mut out, self.b as u128);
        push_str(&mut out, "m");
        from_chars(&out)
    }

    /// Whether this color is light, so text on top of it should be dark.
    pub fn is_light(&self) -> (b: bool)
        ensures
            b == spec_is_light(*self),
    {
        let a = f32_round_exec(40131100 * self.r as u64);
        let g = f32_round_exec(78785808 * self.g as u64);
        let p = f32_round_exec(a + g);
        let c = f32_round_exec(15300821 * self.b as u64);
        f32_round_exec(p + c) > 140 * 0x800_0000
    }
}

/// The status cell of a run: its signal name, else its exit code, else `-`.
pub open spec fn spec_status(run: Run) -> Seq<char> {
    match run.signal {
        Some(sig) => sig@,
        None => match run.exit_code {
            Some(code) => dec_int(code as int),
            None => "-"@,
        },
    }
}

/// The exit/status cell for a run: exit code, or signal name, or `-`.
pub fn status_cell(run: &Run) -> (s: String)
    ensures
        s@ == spec_status(*run),
{
    match &run.signal {
        Some(sig) => sig.clone(),
        None => match run.exit_code {
            Some(code) => {
                let mut out: Vec<char> = Vec::new();
                push_dec_i64(&mut out, code as i64);
                from_chars(&out)
            },
            None => String::from_str("-"),
        },
    }
}

/// A character that a `%Y-%m-%d %H:%M` timestamp can hold: a digit, a sign or date
/// dash, a space or a colon.
pub open spec fn start_char(c: char) -> bool {
    ('0' <= c && c <= '9') || c == '-' || c == '+' || c == ' ' || c == ':'
}

/// Text in the shape of a `%Y-%m-%d %H:%M` timestamp: only `start_char`s, and 16 to 19 of
/// them (the year takes four digits, or a sign and up to six).
pub open spec fn start_text(s: Seq<char>) -> bool {
    &&& 16 <= s.len() <= 19
    &&& forall|i: int| 0 <= i < s.len() ==> start_char(#[trigger] s[i])
}

/// The text that chrono's `format("%Y-%m-%d %H:%M")` gives for the wall-clock time
/// `local_secs` seconds after 1970-01-01 00:00, read as a date and time of day with no
/// time zone.
pub uninterp spec fn minute_text(local_secs: int) -> Seq<char>;

/// An offset of less than a day that shifts `secs` to the minute `t` shows, when there is
/// one.
pub open spec fn start_offset(t: Seq<char>, secs: i64) -> int {
    choose|off: int| -86400 < off < 86400 && t == #[trigger] minute_text(secs + off)
}

/// `t` shows when `run` started in some time zone: the minute of its start shifted by an
/// offset of less than a day, in the `%Y-%m-%d %H:%M` shape.
pub open spec fn shows_start(run: Run, t: Seq<char>) -> bool {
    &&& start_text(t)
    &&& exists|off: int| -86400 < off < 86400 && t == #[trigger] minute_text(run.started_at.secs + off)
}

/// Local wall-clock timestamp for a run's start, `YYYY-MM-DD HH:MM`.
///
/// Calls chrono's `with_timezone(&Local)` and `format("%Y-%m-%d %H:%M")`. The machine's
/// time zone picks the offset (a whole number of seconds, less than a day either way), so
/// the offset is left open; the text is the start's minute shifted by it, and chrono writes
/// the year with at least four digits (with a sign before years outside 0 to 9999, at most
/// six digits in chrono's range) and two digits for every other field.
#[verifier::external_body]
pub fn started_local(run: &Run) -> (s: String)
    requires
        valid_ts(run.started_at),
    ensures
        start_text(s@),
        -86400 < start_offset(s@, run.started_at.secs) < 86400,
        s@ == minute_text(run.started_at.secs + start_offset(s@, run.started_at.secs)),
{
    let t = chrono::DateTime::from_timestamp(run.started_at.secs, run.started_at.nanos).unwrap();
    t.with_timezone(&chrono::Local).format("%Y-%m-%d %H:%M").to_string()
}

/// The first line of `s`, as `str::lines` gives it: up to the first line feed, without a
/// carriage return just before it; all of `s` when it has no line feed.
pub open spec fn first_line(s: Seq<char>) -> Seq<char> {
    let j = index_of(s, '\n');
    if j < s.len() {
        let l = s.subrange(0, j as int);
        if l.len() > 0 && l.last() == '\r' { l.drop_last() } else { l }
    } else {
        s
    }
}

/// At most `max` characters of `s`, ending in `…` when cut.
pub open spec fn truncate(s: Seq<char>, max: int) -> Seq<char> {
    if s.len() <= max {
        s
    } else if max <= 0 {
        Seq::empty()
    } else {
        s.subrange(0, max - 1).push('…')
    }
}

/// `a - b`, or 0 when `b` is larger.
pub open spec fn sat_sub(a: int, b: int) -> int {
    if a > b { a - b } else { 0 }
}

/// The table header.
pub open spec fn header_line() -> Seq<char> {
    "   ID  STARTED               DUR    EXIT  COMMAND"@
}

/// The first lines of the list: the header, bold and in the header colour when styled.
pub open spec fn spec_header(style: Option<ListStyle>) -> Seq<char> {
    match style {
        Some(s) => "\x1b[1m"@ + (match s.header {
            Some(c) => spec_fg(c),
            None => Seq::empty(),
        }) + header_line() + "\x1b[0m"@ + "\n"@,
        None => header_line() + "\n"@,
    }
}

/// The columns before the command: id, start, duration and status, aligned.
pub open spec fn spec_prefix(run: Run, started: Seq<char>) -> Seq<char> {
    pad_left(dec_int(run.id as int), 5) + "  "@ + pad_right(started, 16) + "  "@
        + pad_left(spec_human_duration(run.duration_ms as int), 7) + "  "@
        + pad_left(spec_status(run), 6) + "  "@
}

/// A run's comment with white space trimmed, when anything is left of it.
pub open spec fn shown_comment(run: Run) -> Option<Seq<char>> {
    match run.comment {
        Some(c) => if trim(c@).len() > 0 { Some(trim(c@)) } else { None },
        None => None,
    }
}

/// The command column of a styled row: the command cut to `avail`, then the comment when
/// more than five columns are left, itself cut to fit.
pub open spec fn styled_body(cmd: Seq<char>, comment: Option<Seq<char>>, avail: int) -> Seq<char> {
    let body = truncate(cmd, avail);
    match comment {
        Some(t) => {
            let remaining = sat_sub(avail, body.len() as int);
            if remaining > 5 {
                body + "  # "@ + truncate(t, remaining - 4)
            } else {
                body
            }
        },
        None => body,
    }
}

/// The columns available to the command in a styled row: what `width` leaves after
/// `prefix`, but never fewer than 8.
pub open spec fn avail_cols(prefix: Seq<char>, width: int) -> int {
    if sat_sub(width, prefix.len() as int) > 8 { sat_sub(width, prefix.len() as int) } else { 8 }
}

/// A styled row's text: prefix and command column, padded with spaces to `width`.
pub open spec fn spec_styled_line(prefix: Seq<char>, cmd: Seq<char>, comment: Option<Seq<char>>, width: int) -> Seq<char> {
    let line = prefix + styled_body(cmd, comment, avail_cols(prefix, width));
    if line.len() < width { line + spaces(width - line.len()) } else { line }
}

/// A styled line as printed: odd rows on the bar colour, with black or white text
/// depending on how light the bar is.
pub open spec fn spec_stripe(s: ListStyle, line: Seq<char>, i: int) -> Seq<char> {
    if i % 2 == 1 {
        spec_bg(s.bar_bg) + (if spec_is_light(s.bar_bg) {
            "\x1b[38;2;0;0;0m"@
        } else {
            "\x1b[38;2;255;255;255m"@
        }) + line + "\x1b[0m"@ + "\n"@
    } else {
        line + "\n"@
    }
}

/// Row `i` of the list for `run`, started at `started` (local time).
pub open spec fn spec_row(run: Run, started: Seq<char>, style: Option<ListStyle>, width: int, i: int) -> Seq<char> {
    let prefix = spec_prefix(run, started);
    let cmd = first_line(run.command@);
    match style {
        None => prefix + cmd + "\n"@,
        Some(s) => spec_stripe(s, spec_styled_line(prefix, cmd, shown_comment(run), width), i),
    }
}

/// The first `k` rows.
pub open spec fn spec_rows(runs: Seq<Run>, started: Seq<Seq<char>>, style: Option<ListStyle>, width: int, k: int) -> Seq<char>
    decreases k,
{
    if k <= 0 {
        Seq::empty()
    } else {
        spec_rows(runs, started, style, width, k - 1) + spec_row(runs[k - 1], started[k - 1], style, width, k - 1)
    }
}

/// The whole list: header, then one row per run in the given order.
pub open spec fn spec_format_list(runs: Seq<Run>, started: Seq<Seq<char>>, style: Option<ListStyle>, width: int) -> Seq<char> {
    spec_header(style) + spec_rows(runs, started, style, width, runs.len() as int)
}

/// The style behind an optional reference.
pub open spec fn style_of(style: Option<&ListStyle>) -> Option<ListStyle> {
    match style {
        Some(s) => Some(*s),
        None => None,
    }
}

#[verifier::spinoff_prover]
#[verifier::rlimit(40)]
fn push_truncated(out: &mut Vec<char>, s: &[char], max: usize)
    ensures
        final(out)@ == old(out)@ + truncate(s@, max as int),
{
    if s.len() <= max {
        push_seq(out, s);
    } else if max == 0 {
        assert(truncate(s@, max as int) =~= Seq::<char>::empty());
        assert(out@ =~= old(out)@ + truncate(s@, max as int));
    } else {
        let ghost o = out@;
        let mut i: usize = 0;
        while i < max - 1
            invariant
                i <= max - 1,
                max - 1 < s@.len(),
                out@ == o + s@.subrange(0, i as int),
            decreases max - 1 - i,
        {
            out.push(s[i]);
            assert(o + s@.subrange(0, i + 1) =~= out@);
            i = i + 1;
        }
        out.push('…');
        assert(out@ =~= o + truncate(s@, max as int));
    }
}

fn first_line_exec(s: &[char]) -> (r: Vec<char>)
    ensures
        r@ == first_line(s@),
{
    let n = s.len();
    let j = find_char(s, 0, n, '\n');
    assert(s@.subrange(0, n as int) =~= s@);
    if j < n {
        if j > 0 && s[j - 1] == '\r' {
            let r = crate::chars::slice_vec(s, 0, j - 1);
            assert(s@.subrange(0, j as int).drop_last() =~= r@);
            r
        } else {
            crate::chars::slice_vec(s, 0, j)
        }
    } else {
        crate::chars::slice_vec(s, 0, n)
    }
}

fn prefix_exec(run: &Run, started: &str) -> (r: Vec<char>)
    ensures
        r@ == spec_prefix(*run, started@),
{
    let mut out: Vec<char> = Vec::new();
    let mut id: Vec<char> = Vec::new();
    push_dec_i64(&mut id, run.id);
    push_pad_left(&mut out, &id, 5);
    push_str(&mut out, "  ");
    push_pad_right(&mut out, &to_chars(started), 16);
    push_str(&mut out, "  ");
    push_pad_left(&mut out, &to_chars(human_duration(run.duration_ms).as_str()), 7);
    push_str(&mut out, "  ");
    push_pad_left(&mut out, &to_chars(status_cell(run).as_str()), 6);
    push_str(&mut out, "  ");
    out
}

fn comment_exec(run: &Run) -> (r: Option<Vec<char>>)
    ensures
        vec_chars(r) == shown_comment(*run),
{
    match &run.comment {
        Some(c) => {
            let v = to_chars(c.as_str());
            let t = trim_range(&v, 0, v.len());
            assert(v@.subrange(0, v@.len() as int) =~= v@);
            if t.len() > 0 { Some(t) } else { None }
        },
        None => None,
    }
}

/// The characters of an optional vector.
pub open spec fn vec_chars(o: Option<Vec<char>>) -> Option<Seq<char>> {
    match o {
        Some(c) => Some(c@),
        None => None,
    }
}

#[verifier::spinoff_prover]
#[verifier::rlimit(40)]
fn styled_line_exec(prefix: Vec<char>, cmd: &[char], comment: Option<Vec<char>>, width: usize) -> (line: Vec<char>)
    ensures
        line@ == spec_styled_line(prefix@, cmd@, vec_chars(comment), width as int),
{
    let rest: usize = if width > prefix.len() { width - prefix.len() } else { 0 };
    let avail: usize = if rest > 8 { rest } else { 8 };
    let ghost pre = prefix@;
    let ghost com = vec_chars(comment);
    let mut line = prefix;
    let pre_len = line.len();
    push_truncated(&mut line, cmd, avail);
    let body_len = line.len() - pre_len;
    assert(body_len == truncate(cmd@, avail as int).len());
    match comment {
        Some(t) => {
            let remaining: usize = if avail > body_len { avail - body_len } else { 0 };
            if remaining > 5 {
                push_str(&mut line, "  # ");
                push_truncated(&mut line, &t, remaining - 4);
            }
        },
        None => {},
    }
    assert(line@ =~= pre + styled_body(cmd@, com, avail as int));
    if line.len() < width {
        let pad = width - line.len();
        push_spaces(&mut line, pad);
    }
    line
}

#[verifier::spinoff_prover]
#[verifier::rlimit(40)]
fn push_stripe(out: &mut Vec<char>, s: &ListStyle, line: &[char], i: usize)
    ensures
        final(out)@ == old(out)@ + spec_stripe(*s, line@, i as int),
{
    let ghost o = out@;
    if i % 2 == 1 {
        push_str(out, s.bar_bg.bg().as_str());
        if s.bar_bg.is_light() {
            push_str(out, "\x1b[38;2;0;0;0m");
        } else {
            push_str(out, "\x1b[38;2;255;255;255m");
        }
        push_seq(out, line);
        push_str(out, "\x1b[0m");
        push_str(out, "\n");
    } else {
        push_seq(out, line);
        push_str(out, "\n");
    }
    assert(out@ =~= o + spec_stripe(*s, line@, i as int));
}

#[verifier::spinoff_prover]
#[verifier::rlimit(40)]
fn push_row(out: &mut Vec<char>, run: &Run, started: &str, style: Option<&ListStyle>, width: usize, i: usize)
    ensures
        final(out)@ == old(out)@ + spec_row(*run, started@, style_of(style), width as int, i as int),
{
    let ghost o = out@;
    let prefix = prefix_exec(run, started);
    let cmd = first_line_exec(&to_chars(run.command.as_str()));
    match style {
        None => {
            push_seq(out, &prefix);
            push_seq(out, &cmd);
            push_str(out, "\n");
            assert(out@ =~= o + spec_row(*run, started@, style_of(style), width as int, i as int));
        },
        Some(s) => {
            let line = styled_line_exec(prefix, &cmd, comment_exec(run), width);
            push_stripe(out, s, &line, i);
        },
    }
}

/// Render a list of runs as an aligned table in the given order, with `started[i]` as the
/// start column of `runs[i]`.
///
/// With `style` set, alternate rows get a colored background spanning `width`, and
/// commands are truncated to fit one line. With `None`, output is plain and commands are
/// shown in full (first line only).
#[verifier::spinoff_prover]
#[verifier::rlimit(40)]
pub fn format_list_with(runs: &[Run], started: &[String], style: Option<&ListStyle>, width: usize) -> (s: String)
    requires
        started@.len() == runs@.len(),
    ensures
        s@ == spec_format_list(runs@, strings_chars(started@), style_of(style), width as int),
{
    let mut out: Vec<char> = Vec::new();
    match style {
        Some(s) => {
            push_str(&mut out, "\x1b[1m");
            match s.header {
                Some(c) => push_str(&mut out, c.fg().as_str()),
                None => {},
            }
            push_str(&mut out, "   ID  STARTED               DUR    EXIT  COMMAND");
            push_str(&mut out, "\x1b[0m");
            push_str(&mut out, "\n");
        },
        None => {
            push_str(&mut out, "   ID  STARTED               DUR    EXIT  COMMAND");
            push_str(&mut out, "\n");
        },
    }
    assert(out@ =~= spec_header(style_of(style)));
    let ghost st = strings_chars(started@);
    let mut i: usize = 0;
    while i < runs.len()
        invariant
            i <= runs@.len(),
            started@.len() == runs@.len(),
            st == strings_chars(started@),
            out@ == spec_header(style_of(style)) + spec_rows(runs@, st, style_of(style), width as int, i as int),
        decreases runs.len() - i,
    {
        push_row(&mut out, &runs[i], started[i].as_str(), style, width, i);
        assert(spec_header(style_of(style)) + spec_rows(runs@, st, style_of(style), width as int, i + 1) =~= out@);
        i = i + 1;
    }
    from_chars(&out)
}

/// Whether every run's start can be shown in local time.
pub open spec fn starts_valid(runs: Seq<Run>) -> bool {
    forall|i: int| 0 <= i < runs.len() ==> valid_ts(#[trigger] runs[i].started_at)
}

/// Render a list of runs as an aligned table, in the order given (newest first as queried).
///
/// With `style` set (quick mode on a terminal), alternate rows get a colored background
/// spanning `width`, and commands are truncated to fit one line. With `None`
/// (standard mode, piped, or `color = off`), output is plain and commands are shown in full.
/// The start column is local time, which depends on the machine; everything else is stated.
pub fn format_list(runs: &[Run], style: Option<&ListStyle>, width: usize) -> (s: String)
    requires
        starts_valid(runs@),
    ensures
        exists|started: Seq<Seq<char>>| {
            &&& started.len() == runs@.len()
            &&& forall|k: int| 0 <= k < started.len() ==> shows_start(runs@[k], #[trigger] started[k])
            &&& s@ == spec_format_list(runs@, started, style_of(style), width as int)
        },
{
    let mut started: Vec<String> = Vec::new();
    let mut i: usize = 0;
    while i < runs.len()
        invariant
            i <= runs@.len(),
            started@.len() == i,
            starts_valid(runs@),
            forall|k: int| 0 <= k < i ==> shows_start(runs@[k], #[trigger] strings_chars(started@)[k]),
        decreases runs.len() - i,
    {
        let t = started_local(&runs[i]);
        let ghost before = strings_chars(started@);
        started.push(t);
        assert forall|k: int| 0 <= k < i + 1 implies shows_start(runs@[k], #[trigger] strings_chars(started@)[k]) by {
            if k < i {
                assert(strings_chars(started@)[k] == before[k]);
            } else {
                assert(strings_chars(started@)[k] == t@);
            }
        }
        i = i + 1;
    }
    let r = format_list_with(runs, &started, style, width);
    assert(strings_chars(started@).len() == runs@.len());
    r
}

/// The detail view of a run started at `started` (local time).
pub open spec fn spec_show(run: Run, started: Seq<char>) -> Seq<char> {
    "id:       "@ + dec_int(run.id as int) + "\n"@
        + "command:  "@ + run.command@ + "\n"@
        + "started:  "@ + started + "\n"@
        + "duration: "@ + spec_human_duration(run.duration_ms as int) + "\n"@
        + "status:   "@ + spec_status(run) + "\n"@
        + (match run.cwd {
            Some(c) => "cwd:      "@ + c@ + "\n"@,
            None => Seq::empty(),
        })
        + (match run.comment {
            Some(c) => "comment:  "@ + c@ + "\n"@,
            None => Seq::empty(),
        })
        + "output:\n"@ + decoded(run.output@)
}

/// Render full detail for a single run (metadata header + output), with `started` as its
/// start time.
#[verifier::spinoff_prover]
#[verifier::rlimit(40)]
pub fn format_show_with(run: &Run, started: &str) -> (s: String)
    ensures
        s@ == spec_show(*run, started@),
{
    let mut out = lit("id:       ");
    push_dec_i64(&mut out, run.id);
    push_str(&mut out, "\n");
    push_str(&mut out, "command:  ");
    push_str(&mut out, run.command.as_str());
    push_str(&mut out, "\n");
    push_str(&mut out, "started:  ");
    push_str(&mut out, started);
    push_str(&mut out, "\n");
    push_str(&mut out, "duration: ");
    push_str(&mut out, human_duration(run.duration_ms).as_str());
    push_str(&mut out, "\n");
    push_str(&mut out, "status:   ");
    push_str(&mut out, status_cell(run).as_str());
    push_str(&mut out, "\n");
    let ghost head = out@;
    match &run.cwd {
        Some(c) => {
            push_str(&mut out, "cwd:      ");
            push_str(&mut out, c.as_str());
            push_str(&mut out, "\n");
        },
        None => {},
    }
    let ghost mid = out@;
    match &run.comment {
        Some(c) => {
            push_str(&mut out, "comment:  ");
            push_str(&mut out, c.as_str());
            push_str(&mut out, "\n");
        },
        None => {},
    }
    push_str(&mut out, "output:\n");
    push_str(&mut out, decode_lossy_stripped(run.output.as_slice()).as_str());
    assert(out@ =~= spec_show(*run, started@));
    from_chars(&out)
}

/// Render full detail for a single run (metadata header + output). The start line is
/// local time, which depends on the machine; everything else is stated.
pub fn format_show(run: &Run) -> (s: String)
    requires
        valid_ts(run.started_at),
    ensures
        exists|started: Seq<char>| shows_start(*run, started) && s@ == spec_show(*run, started),
{
    let started = started_local(run);
    format_show_with(run, started.as_str())
}

} // verus!
