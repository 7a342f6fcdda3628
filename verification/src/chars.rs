//! Character-level helpers: conversion between strings and character vectors,
//! whitespace trimming, decimal rendering and parsing of integers.

use vstd::prelude::*;

verus! {

/// `String::push` appends one character.
pub assume_specification[ String::push ](s: &mut String, ch: char)
    ensures
        final(s)@ == old(s)@.push(ch),
;

/// The characters of `s`, in order.
pub fn to_chars(s: &str) -> (v: Vec<char>)
    ensures
        v@ == s@,
{
    let mut v: Vec<char> = Vec::new();
    for c in it: s.chars()
        invariant
            it.seq() == s@,
            v@ == it.seq().take(it.index() as int),
    {
        v.push(c);
    }
    v
}

/// A string holding exactly the characters of `v`.
pub fn from_chars(v: &[char]) -> (s: String)
    ensures
        s@ == v@,
{
    let mut s = String::new();
    let mut i: usize = 0;
    while i < v.len()
        invariant
            i <= v@.len(),
            s@ == v@.subrange(0, i as int),
        decreases v.len() - i,
    {
        s.push(v[i]);
        i = i + 1;
    }
    s
}

} // verus!

verus! {

/// The White_Space property of Unicode, which `char::is_whitespace` tests.
pub open spec fn is_ws(c: char) -> bool {
    ||| ('\t' <= c && c <= '\r')
    ||| c == ' '
    ||| c == '\u{85}'
    ||| c == '\u{a0}'
    ||| c == '\u{1680}'
    ||| ('\u{2000}' <= c && c <= '\u{200a}')
    ||| c == '\u{2028}'
    ||| c == '\u{2029}'
    ||| c == '\u{202f}'
    ||| c == '\u{205f}'
    ||| c == '\u{3000}'
}

/// Whether `c` is white space.
pub fn char_is_ws(c: char) -> (b: bool)
    ensures
        b == is_ws(c),
{
    ('\t' <= c && c <= '\r') || c == ' ' || c == '\u{85}' || c == '\u{a0}' || c == '\u{1680}'
        || ('\u{2000}' <= c && c <= '\u{200a}') || c == '\u{2028}' || c == '\u{2029}'
        || c == '\u{202f}' || c == '\u{205f}' || c == '\u{3000}'
}

/// `s` without its leading white space.
pub open spec fn trim_start(s: Seq<char>) -> Seq<char>
    decreases s.len(),
{
    if s.len() > 0 && is_ws(s[0]) {
        trim_start(s.drop_first())
    } else {
        s
    }
}

/// `s` without its trailing white space.
pub open spec fn trim_end(s: Seq<char>) -> Seq<char>
    decreases s.len(),
{
    if s.len() > 0 && is_ws(s.last()) {
        trim_end(s.drop_last())
    } else {
        s
    }
}

/// `s` without leading and trailing white space, as `str::trim` gives it.
pub open spec fn trim(s: Seq<char>) -> Seq<char> {
    trim_end(trim_start(s))
}

/// Characters of `v` between `lo` and `hi`, with white space trimmed from both ends.
pub fn trim_range(v: &[char], lo: usize, hi: usize) -> (r: Vec<char>)
    requires
        lo <= hi <= v@.len(),
    ensures
        r@ == trim(v@.subrange(lo as int, hi as int)),
{
    let ghost s = v@.subrange(lo as int, hi as int);
    let mut i = lo;
    while i < hi && char_is_ws(v[i])
        invariant
            lo <= i <= hi <= v@.len(),
            s == v@.subrange(lo as int, hi as int),
            trim_start(s) == trim_start(v@.subrange(i as int, hi as int)),
        decreases hi - i,
    {
        assert(v@.subrange(i as int, hi as int).drop_first() =~= v@.subrange(i + 1, hi as int));
        i = i + 1;
    }
    assert(trim_start(v@.subrange(i as int, hi as int)) == v@.subrange(i as int, hi as int));
    let mut j = hi;
    while j > i && char_is_ws(v[j - 1])
        invariant
            lo <= i <= j <= hi <= v@.len(),
            trim_start(s) == v@.subrange(i as int, hi as int),
            trim_end(v@.subrange(i as int, hi as int)) == trim_end(v@.subrange(i as int, j as int)),
        decreases j - i,
    {
        assert(v@.subrange(i as int, j as int).drop_last() =~= v@.subrange(i as int, j - 1));
        j = j - 1;
    }
    let mut r: Vec<char> = Vec::new();
    let mut k = i;
    while k < j
        invariant
            i <= k <= j <= v@.len(),
            r@ == v@.subrange(i as int, k as int),
        decreases j - k,
    {
        r.push(v[k]);
        k = k + 1;
    }
    r
}

/// The decimal digit character for `d < 10`.
pub open spec fn digit_char(d: nat) -> char {
    if d == 0 { '0' }
    else if d == 1 { '1' }
    else if d == 2 { '2' }
    else if d == 3 { '3' }
    else if d == 4 { '4' }
    else if d == 5 { '5' }
    else if d == 6 { '6' }
    else if d == 7 { '7' }
    else if d == 8 { '8' }
    else { '9' }
}

/// Decimal rendering of a natural number, without leading zeros.
pub open spec fn dec(n: nat) -> Seq<char>
    decreases n,
{
    if n < 10 {
        seq![digit_char(n)]
    } else {
        dec(n / 10).push(digit_char(n % 10))
    }
}

/// Decimal rendering of an integer, with a leading `-` when negative, as `Display` gives it.
pub open spec fn dec_int(n: int) -> Seq<char> {
    if n < 0 {
        seq!['-'] + dec((-n) as nat)
    } else {
        dec(n as nat)
    }
}

fn digit(d: u128) -> (c: char)
    requires
        d < 10,
    ensures
        c == digit_char(d as nat),
{
    if d == 0 { '0' }
    else if d == 1 { '1' }
    else if d == 2 { '2' }
    else if d == 3 { '3' }
    else if d == 4 { '4' }
    else if d == 5 { '5' }
    else if d == 6 { '6' }
    else if d == 7 { '7' }
    else if d == 8 { '8' }
    else { '9' }
}

/// Appends the decimal rendering of `n` to `out`.
pub fn push_dec(out: &mut Vec<char>, n: u128)
    ensures
        final(out)@ == old(out)@ + dec(n as nat),
    decreases n,
{
    if n >= 10 {
        push_dec(out, n / 10);
    }
    out.push(digit(n % 10));
    proof {
        if n >= 10 {
            assert(old(out)@ + dec(n as nat) =~= old(out)@ + dec((n / 10) as nat) + seq![digit_char((n % 10) as nat)]);
        } else {
            assert(dec(n as nat) =~= seq![digit_char(n as nat)]);
        }
    }
}

/// Appends the decimal rendering of the signed `n` to `out`.
pub fn push_dec_i64(out: &mut Vec<char>, n: i64)
    ensures
        final(out)@ == old(out)@ + dec_int(n as int),
{
    if n < 0 {
        out.push('-');
        let m: u128 = if n == i64::MIN { 9223372036854775808u128 } else { (-n) as u128 };
        push_dec(out, m);
        assert(old(out)@ + dec_int(n as int) =~= old(out)@.push('-') + dec(m as nat));
    } else {
        push_dec(out, n as u128);
    }
}

/// Appends `s` to `out`.
pub fn push_str(out: &mut Vec<char>, s: &str)
    ensures
        final(out)@ == old(out)@ + s@,
{
    let ghost o = out@;
    for c in it: s.chars()
        invariant
            it.seq() == s@,
            out@ == o + it.seq().take(it.index() as int),
    {
        out.push(c);
        assert(o + it.seq().take(it.index() as int + 1) =~= out@);
    }
}

/// Appends the characters of `s` to `out`.
pub fn push_seq(out: &mut Vec<char>, s: &[char])
    ensures
        final(out)@ == old(out)@ + s@,
{
    let ghost o = out@;
    let mut i: usize = 0;
    while i < s.len()
        invariant
            i <= s@.len(),
            out@ == o + s@.subrange(0, i as int),
        decreases s.len() - i,
    {
        out.push(s[i]);
        assert(o + s@.subrange(0, i + 1) =~= out@);
        i = i + 1;
    }
    assert(s@.subrange(0, s@.len() as int) =~= s@);
}

} // verus!

verus! {

/// Position of the first `c` in `s`, or the length of `s` when there is none.
pub open spec fn index_of(s: Seq<char>, c: char) -> nat
    decreases s.len(),
{
    if s.len() == 0 {
        0
    } else if s[0] == c {
        0
    } else {
        1 + index_of(s.drop_first(), c)
    }
}

/// `index_of` is the first position that holds `c`.
pub proof fn lemma_index_of(s: Seq<char>, c: char, i: int)
    requires
        0 <= i <= s.len(),
        forall|k: int| 0 <= k < i ==> s[k] != c,
        i < s.len() ==> s[i] == c,
    ensures
        index_of(s, c) == i,
    decreases i,
{
    if i > 0 {
        assert(s[0] != c);
        lemma_index_of(s.drop_first(), c, i - 1);
    } else if s.len() > 0 {
        assert(s[0] == c);
    }
}

/// `index_of` never passes the end.
pub proof fn lemma_index_of_bound(s: Seq<char>, c: char)
    ensures
        index_of(s, c) <= s.len(),
        index_of(s, c) < s.len() ==> s[index_of(s, c) as int] == c,
        forall|k: int| 0 <= k < index_of(s, c) ==> s[k] != c,
    decreases s.len(),
{
    if s.len() > 0 && s[0] != c {
        lemma_index_of_bound(s.drop_first(), c);
        assert forall|k: int| 0 <= k < index_of(s, c) implies s[k] != c by {
            if k > 0 {
                assert(s[k] == s.drop_first()[k - 1]);
            }
        }
    }
}

/// The first position at or after `from` and before `to` that holds `c`, or `to`.
pub fn find_char(v: &[char], from: usize, to: usize, c: char) -> (j: usize)
    requires
        from <= to <= v@.len(),
    ensures
        from <= j <= to,
        j - from == index_of(v@.subrange(from as int, to as int), c),
{
    let mut j = from;
    while j < to && v[j] != c
        invariant
            from <= j <= to <= v@.len(),
            forall|k: int| from <= k < j ==> v@[k] != c,
        decreases to - j,
    {
        j = j + 1;
    }
    proof {
        lemma_index_of(v@.subrange(from as int, to as int), c, j - from);
    }
    j
}

/// Whether the characters of `v` are exactly those of `s`.
pub fn eq_lit(v: &[char], s: &str) -> (b: bool)
    ensures
        b == (v@ == s@),
{
    let n = s.unicode_len();
    if v.len() != n {
        return false;
    }
    let mut i: usize = 0;
    while i < n
        invariant
            n == s@.len(),
            n == v@.len(),
            i <= n,
            forall|k: int| 0 <= k < i ==> v@[k] == s@[k],
        decreases n - i,
    {
        if v[i] != s.get_char(i) {
            return false;
        }
        i = i + 1;
    }
    assert(v@ =~= s@);
    true
}

} // verus!

verus! {

/// The characters of `v` from `lo` up to `hi`.
pub fn slice_vec(v: &[char], lo: usize, hi: usize) -> (r: Vec<char>)
    requires
        lo <= hi <= v@.len(),
    ensures
        r@ == v@.subrange(lo as int, hi as int),
{
    let mut r: Vec<char> = Vec::new();
    let mut k = lo;
    while k < hi
        invariant
            lo <= k <= hi <= v@.len(),
            r@ == v@.subrange(lo as int, k as int),
        decreases hi - k,
    {
        r.push(v[k]);
        k = k + 1;
    }
    r
}

/// The characters of a literal.
pub fn lit(s: &str) -> (r: Vec<char>)
    ensures
        r@ == s@,
{
    to_chars(s)
}

/// All characters are ASCII decimal digits.
pub open spec fn all_ascii_digits(s: Seq<char>) -> bool {
    forall|i: int| 0 <= i < s.len() ==> '0' <= #[trigger] s[i] && s[i] <= '9'
}

/// The value of a string of ASCII decimal digits.
pub open spec fn digits_val(s: Seq<char>) -> nat
    decreases s.len(),
{
    if s.len() == 0 {
        0
    } else {
        digits_val(s.drop_last()) * 10 + (s.last() as nat - '0' as nat) as nat
    }
}

/// A longer run of digits is worth at least as much as its prefix.
pub proof fn lemma_digits_val_prefix(s: Seq<char>, k: int)
    requires
        0 <= k <= s.len(),
        all_ascii_digits(s),
    ensures
        digits_val(s.subrange(0, k)) <= digits_val(s),
    decreases s.len(),
{
    if k < s.len() {
        let t = s.drop_last();
        assert(all_ascii_digits(t)) by {
            assert forall|i: int| 0 <= i < t.len() implies '0' <= #[trigger] t[i] && t[i] <= '9' by {
                assert(t[i] == s[i]);
            }
        }
        lemma_digits_val_prefix(t, k);
        assert(t.subrange(0, k) =~= s.subrange(0, k));
    } else {
        assert(s.subrange(0, k) =~= s);
    }
}

/// What `str::parse::<u64>`-style reading of unsigned digits gives, bounded by `max`:
/// the value when every character is an ASCII digit, there is at least one, and the value
/// does not pass `max`.
pub open spec fn bounded_number(s: Seq<char>, max: int) -> Option<nat> {
    if s.len() > 0 && all_ascii_digits(s) && digits_val(s) <= max {
        Some(digits_val(s))
    } else {
        None
    }
}

/// Reads the digits `v[lo..hi]` as a number no larger than `max`.
pub fn read_number(v: &[char], lo: usize, hi: usize, max: u64) -> (r: Option<u64>)
    requires
        lo <= hi <= v@.len(),
    ensures
        r matches Some(n) ==> bounded_number(v@.subrange(lo as int, hi as int), max as int) == Some(n as nat),
        r is None ==> bounded_number(v@.subrange(lo as int, hi as int), max as int) is None,
{
    let ghost s = v@.subrange(lo as int, hi as int);
    if lo == hi {
        return None;
    }
    let mut acc: u64 = 0;
    let mut k = lo;
    while k < hi
        invariant
            lo <= k <= hi <= v@.len(),
            s == v@.subrange(lo as int, hi as int),
            all_ascii_digits(s.subrange(0, k - lo)),
            acc == digits_val(s.subrange(0, k - lo)),
            acc <= max,
        decreases hi - k,
    {
        let c = v[k];
        if !('0' <= c && c <= '9') {
            assert(!all_ascii_digits(s)) by {
                assert(s[k - lo] == c);
            }
            return None;
        }
        let d = (c as u32 - '0' as u32) as u64;
        let ghost p = s.subrange(0, k - lo + 1);
        assert(p.drop_last() =~= s.subrange(0, k - lo));
        assert(all_ascii_digits(p)) by {
            assert forall|i: int| 0 <= i < p.len() implies '0' <= #[trigger] p[i] && p[i] <= '9' by {
                if i < k - lo {
                    assert(p[i] == s.subrange(0, k - lo)[i]);
                }
            }
        }
        assert(digits_val(p) == acc * 10 + d);
        if d > max || acc > (max - d) / 10 {
            proof {
                assert(digits_val(p) > max) by (nonlinear_arith)
                    requires
                        digits_val(p) == acc * 10 + d,
                        d > max || acc > (max - d) / 10,
                {
                }
                if all_ascii_digits(s) {
                    lemma_digits_val_prefix(s, k - lo + 1);
                }
            }
            return None;
        }
        assert(acc * 10 + d <= max) by (nonlinear_arith)
            requires
                acc <= (max - d) / 10,
                d <= 9,
        {
        }
        acc = acc * 10 + d;
        k = k + 1;
    }
    assert(s.subrange(0, hi - lo) =~= s);
    Some(acc)
}

} // verus!

verus! {

/// `n` spaces.
pub open spec fn spaces(n: int) -> Seq<char> {
    Seq::new(if n > 0 { n as nat } else { 0 }, |i: int| ' ')
}

/// `s` right-aligned in `w` columns (`{:>w}`): spaces before it when it is shorter.
pub open spec fn pad_left(s: Seq<char>, w: int) -> Seq<char> {
    spaces(w - s.len()) + s
}

/// `s` left-aligned in `w` columns (`{:<w}`): spaces after it when it is shorter.
pub open spec fn pad_right(s: Seq<char>, w: int) -> Seq<char> {
    s + spaces(w - s.len())
}

/// Appends `n` spaces.
pub fn push_spaces(out: &mut Vec<char>, n: usize)
    ensures
        final(out)@ == old(out)@ + spaces(n as int),
{
    let ghost o = out@;
    let mut i: usize = 0;
    while i < n
        invariant
            i <= n,
            out@ == o + spaces(i as int),
        decreases n - i,
    {
        out.push(' ');
        assert(o + spaces(i + 1) =~= out@);
        i = i + 1;
    }
}

/// Appends `s` right-aligned in `w` columns.
pub fn push_pad_left(out: &mut Vec<char>, s: &[char], w: usize)
    ensures
        final(out)@ == old(out)@ + pad_left(s@, w as int),
{
    let ghost o = out@;
    if s.len() < w {
        push_spaces(out, w - s.len());
    } else {
        assert(spaces(w - s@.len()) =~= Seq::<char>::empty());
    }
    push_seq(out, s);
    assert(out@ =~= o + pad_left(s@, w as int));
}

/// Appends `s` left-aligned in `w` columns.
pub fn push_pad_right(out: &mut Vec<char>, s: &[char], w: usize)
    ensures
        final(out)@ == old(out)@ + pad_right(s@, w as int),
{
    let ghost o = out@;
    push_seq(out, s);
    if s.len() < w {
        push_spaces(out, w - s.len());
    } else {
        assert(spaces(w - s@.len()) =~= Seq::<char>::empty());
    }
    assert(out@ =~= o + pad_right(s@, w as int));
}

} // verus!

verus! {

/// What `str::parse` gives for a signed integer type with range `min..=max`: an optional
/// `+` or `-`, then at least one ASCII digit, the value within range.
pub open spec fn parse_signed(s: Seq<char>, min: int, max: int) -> Option<int> {
    if s.len() > 0 && s[0] == '-' {
        match bounded_number(s.drop_first(), -min) {
            Some(n) => Some(-n),
            None => None,
        }
    } else {
        let body = if s.len() > 0 && s[0] == '+' { s.drop_first() } else { s };
        match bounded_number(body, max) {
            Some(n) => Some(n as int),
            None => None,
        }
    }
}

/// Reads `v` as an `i64` the way `str::parse::<i64>` does.
pub fn read_i64(v: &[char]) -> (r: Option<i64>)
    ensures
        match r {
            Some(x) => parse_signed(v@, i64::MIN as int, i64::MAX as int) == Some(x as int),
            None => parse_signed(v@, i64::MIN as int, i64::MAX as int) is None,
        },
{
    let n = v.len();
    assert(v@.drop_first() =~= v@.subrange(1, n as int));
    assert(v@ =~= v@.subrange(0, n as int));
    if n > 0 && v[0] == '-' {
        match read_number(v, 1, n, 0x8000_0000_0000_0000) {
            Some(x) => if x == 0x8000_0000_0000_0000 {
                Some(i64::MIN)
            } else {
                Some(-(x as i64))
            },
            None => None,
        }
    } else {
        let start: usize = if n > 0 && v[0] == '+' { 1 } else { 0 };
        match read_number(v, start, n, 0x7fff_ffff_ffff_ffff) {
            Some(x) => Some(x as i64),
            None => None,
        }
    }
}

/// `parts` joined with `sep` between them.
pub open spec fn joined(parts: Seq<Seq<char>>, sep: Seq<char>) -> Seq<char>
    decreases parts.len(),
{
    if parts.len() == 0 {
        Seq::empty()
    } else if parts.len() == 1 {
        parts[0]
    } else {
        joined(parts.drop_last(), sep) + sep + parts.last()
    }
}

/// The characters of each string.
pub open spec fn strings_chars(v: Seq<String>) -> Seq<Seq<char>> {
    v.map_values(|s: String| s@)
}

/// The strings of `v` joined with `sep`, as `[String]::join` gives it.
pub fn join_strings(v: &[String], sep: &str) -> (s: String)
    ensures
        s@ == joined(strings_chars(v@), sep@),
{
    let mut out: Vec<char> = Vec::new();
    let mut i: usize = 0;
    let ghost parts = strings_chars(v@);
    while i < v.len()
        invariant
            i <= v@.len(),
            parts == strings_chars(v@),
            out@ == joined(parts.subrange(0, i as int), sep@),
        decreases v.len() - i,
    {
        let ghost prev = parts.subrange(0, i as int);
        assert(parts.subrange(0, i + 1).drop_last() =~= prev);
        if i > 0 {
            push_str(&mut out, sep);
        }
        push_str(&mut out, v[i].as_str());
        proof {
            if i == 0 {
                assert(out@ =~= parts.subrange(0, 1)[0]);
            } else {
                assert(out@ =~= joined(prev, sep@) + sep@ + parts.subrange(0, i + 1).last());
            }
        }
        i = i + 1;
    }
    assert(parts.subrange(0, v@.len() as int) =~= parts);
    from_chars(&out)
}

} // verus!
