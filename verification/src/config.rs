//! The `~/.recoverc` settings: parsing, defaults, and where the settings and the
//! database live.

use vstd::prelude::*;
use crate::chars::{
    dec, eq_lit, find_char, from_chars, index_of, lemma_index_of_bound, push_dec, push_seq,
    push_str, to_chars, trim, trim_range,
};
use crate::render::{spec_parse_hex, Rgb};

verus! {

/// Whether convenience shortcuts (negative indices, bare-duration dates) are enabled.
#[derive(Debug, Clone, Copy, PartialEq, Eq, Structural)]
pub enum Mode {
    Quick,
    Standard,
}

/// When to colorize the list table.
#[derive(Debug, Clone, Copy, PartialEq, Eq, Structural)]
pub enum ColorMode {
    Auto,
    On,
    Off,
}

/// Parsed `~/.recoverc` settings.
#[derive(Debug, Clone, Copy, PartialEq, Eq, Structural)]
pub struct Config {
    pub mode: Mode,
    pub color: ColorMode,
    pub bar_color: Option<Rgb>,
    pub header_color: Option<Rgb>,
}

/// The settings in effect when the file says nothing: quick mode, automatic colour,
/// no custom colours.
pub open spec fn default_config() -> Config {
    Config { mode: Mode::Quick, color: ColorMode::Auto, bar_color: None, header_color: None }
}

impl Default for Config {
    fn default() -> (c: Self)
        ensures
            c == default_config(),
    {
        Config { mode: Mode::Quick, color: ColorMode::Auto, bar_color: None, header_color: None }
    }
}

impl Config {
    /// True when shortcuts (negative indices, `date:3day`) are enabled.
    pub fn shortcuts(&self) -> (b: bool)
        ensures
            b == (self.mode == Mode::Quick),
    {
        match self.mode {
            Mode::Quick => true,
            Mode::Standard => false,
        }
    }
}

/// The effect of a `key = value` setting on `cfg`, or the error message.
pub open spec fn apply_setting(cfg: Config, key: Seq<char>, val: Seq<char>) -> Result<Config, Seq<char>> {
    if key == "mode"@ {
        if val == "quick"@ {
            Ok(Config { mode: Mode::Quick, ..cfg })
        } else if val == "standard"@ {
            Ok(Config { mode: Mode::Standard, ..cfg })
        } else {
            Err("invalid mode `"@ + val + "` (quick|standard)"@)
        }
    } else if key == "color"@ {
        if val == "auto"@ {
            Ok(Config { color: ColorMode::Auto, ..cfg })
        } else if val == "on"@ || val == "true"@ || val == "always"@ {
            Ok(Config { color: ColorMode::On, ..cfg })
        } else if val == "off"@ || val == "false"@ || val == "never"@ {
            Ok(Config { color: ColorMode::Off, ..cfg })
        } else {
            Err("invalid color `"@ + val + "` (auto|on|off)"@)
        }
    } else if key == "bar_color"@ {
        match spec_parse_hex(val) {
            Ok(c) => Ok(Config { bar_color: Some(c), ..cfg }),
            Err(e) => Err(e),
        }
    } else if key == "header_color"@ {
        match spec_parse_hex(val) {
            Ok(c) => Ok(Config { header_color: Some(c), ..cfg }),
            Err(e) => Err(e),
        }
    } else {
        Err("unknown config key `"@ + key + "`"@)
    }
}

/// The effect of one line (numbered from 0) on `cfg`: blank lines and `#` comments change
/// nothing; otherwise the line is `key = value`, split at its first `=`.
pub open spec fn apply_line(cfg: Config, line: Seq<char>, lineno: nat) -> Result<Config, Seq<char>> {
    let l = trim(line);
    if l.len() == 0 || l[0] == '#' {
        Ok(cfg)
    } else {
        let e = index_of(l, '=');
        if e == l.len() {
            Err("line "@ + dec(lineno + 1) + ": expected `key = value`"@)
        } else {
            apply_setting(cfg, trim(l.subrange(0, e as int)), trim(l.subrange(e + 1 as int, l.len() as int)))
        }
    }
}

/// The settings after applying each `\n`-separated line of `s` in turn, starting at
/// line number `lineno`, or the first error.
pub open spec fn apply_lines(cfg: Config, s: Seq<char>, lineno: nat) -> Result<Config, Seq<char>>
    decreases s.len(),
{
    let j = index_of(s, '\n');
    match apply_line(cfg, s.subrange(0, j as int), lineno) {
        Err(e) => Err(e),
        Ok(c) => if j < s.len() {
            apply_lines(c, s.subrange(j + 1 as int, s.len() as int), lineno + 1)
        } else {
            Ok(c)
        },
    }
}

/// The settings that `text` describes, starting from the defaults.
pub open spec fn spec_parse(text: Seq<char>) -> Result<Config, Seq<char>> {
    apply_lines(default_config(), text, 0)
}

fn apply_setting_exec(cfg: Config, key: &[char], val: &[char]) -> (r: Result<Config, Vec<char>>)
    ensures
        match (r, apply_setting(cfg, key@, val@)) {
            (Ok(c), Ok(d)) => c == d,
            (Err(e), Err(m)) => e@ == m,
            _ => false,
        },
{
    let mut m: Vec<char> = Vec::new();
    if eq_lit(key, "mode") {
        if eq_lit(val, "quick") {
            return Ok(Config { mode: Mode::Quick, ..cfg });
        } else if eq_lit(val, "standard") {
            return Ok(Config { mode: Mode::Standard, ..cfg });
        }
        push_str(&mut m, "invalid mode `");
        push_seq(&mut m, val);
        push_str(&mut m, "` (quick|standard)");
        Err(m)
    } else if eq_lit(key, "color") {
        if eq_lit(val, "auto") {
            return Ok(Config { color: ColorMode::Auto, ..cfg });
        } else if eq_lit(val, "on") || eq_lit(val, "true") || eq_lit(val, "always") {
            return Ok(Config { color: ColorMode::On, ..cfg });
        } else if eq_lit(val, "off") || eq_lit(val, "false") || eq_lit(val, "never") {
            return Ok(Config { color: ColorMode::Off, ..cfg });
        }
        push_str(&mut m, "invalid color `");
        push_seq(&mut m, val);
        push_str(&mut m, "` (auto|on|off)");
        Err(m)
    } else if eq_lit(key, "bar_color") || eq_lit(key, "header_color") {
        let bar = eq_lit(key, "bar_color");
        let vs = from_chars(val);
        match Rgb::parse_hex(vs.as_str()) {
            Ok(c) => if bar {
                Ok(Config { bar_color: Some(c), ..cfg })
            } else {
                Ok(Config { header_color: Some(c), ..cfg })
            },
            Err(e) => Err(to_chars(e.as_str())),
        }
    } else {
        push_str(&mut m, "unknown config key `");
        push_seq(&mut m, key);
        push_str(&mut m, "`");
        Err(m)
    }
}

/// Applies the line held in `v[lo..hi]`.
fn apply_line_exec(cfg: Config, v: &[char], lo: usize, hi: usize, lineno: usize) -> (r: Result<Config, Vec<char>>)
    requires
        lo <= hi <= v@.len(),
    ensures
        match (r, apply_line(cfg, v@.subrange(lo as int, hi as int), lineno as nat)) {
            (Ok(c), Ok(d)) => c == d,
            (Err(e), Err(m)) => e@ == m,
            _ => false,
        },
{
    let l = trim_range(v, lo, hi);
    if l.len() == 0 || l[0] == '#' {
        return Ok(cfg);
    }
    let e = find_char(&l, 0, l.len(), '=');
    assert(l@.subrange(0, l@.len() as int) =~= l@);
    if e == l.len() {
        let mut m: Vec<char> = Vec::new();
        push_str(&mut m, "line ");
        push_dec(&mut m, lineno as u128 + 1);
        push_str(&mut m, ": expected `key = value`");
        return Err(m);
    }
    let key = trim_range(&l, 0, e);
    let val = trim_range(&l, e + 1, l.len());
    apply_setting_exec(cfg, &key, &val)
}

/// Parse the `~/.recoverc` contents: `key = value` lines, `#` full-line comments.
pub fn parse(text: &str) -> (res: Result<Config, String>)
    ensures
        match (res, spec_parse(text@)) {
            (Ok(c), Ok(d)) => c == d,
            (Err(e), Err(m)) => e@ == m,
            _ => false,
        },
{
    let v = to_chars(text);
    let n = v.len();
    let mut cfg = Config::default();
    let mut pos: usize = 0;
    let mut lineno: usize = 0;
    assert(v@.subrange(0, n as int) =~= v@);
    loop
        invariant
            n == v@.len(),
            pos <= n,
            lineno <= pos,
            spec_parse(text@) == apply_lines(cfg, v@.subrange(pos as int, n as int), lineno as nat),
        decreases n - pos,
    {
        let j = find_char(&v, pos, n, '\n');
        let ghost rest = v@.subrange(pos as int, n as int);
        proof {
            lemma_index_of_bound(rest, '\n');
            assert(rest.subrange(0, (j - pos) as int) =~= v@.subrange(pos as int, j as int));
        }
        match apply_line_exec(cfg, &v, pos, j, lineno) {
            Err(e) => {
                return Err(from_chars(&e));
            },
            Ok(c) => {
                if j == n {
                    return Ok(c);
                }
                assert(rest.subrange(j - pos + 1, rest.len() as int) =~= v@.subrange(j + 1, n as int));
                cfg = c;
                pos = j + 1;
                lineno = lineno + 1;
            },
        }
    }
}

/// `seg` appended to the path `base` as `PathBuf::push` does for a relative component:
/// a `/` between them unless `base` is empty or already ends in one.
pub open spec fn path_join(base: Seq<char>, seg: Seq<char>) -> Seq<char> {
    if base.len() == 0 {
        seg
    } else if base.last() == '/' {
        base + seg
    } else {
        base + "/"@ + seg
    }
}

fn path_join_exec(base: &str, seg: &str) -> (r: String)
    ensures
        r@ == path_join(base@, seg@),
{
    let v = to_chars(base);
    let mut out = v.clone();
    if v.len() > 0 && v[v.len() - 1] != '/' {
        push_str(&mut out, "/");
    }
    push_str(&mut out, seg);
    assert(out@ =~= path_join(base@, seg@));
    from_chars(&out)
}

/// An environment value that counts: set and not empty.
pub open spec fn given(v: Option<String>) -> bool {
    v matches Some(s) && s@.len() > 0
}

/// The home directory, `.` when unknown.
pub open spec fn home_or_dot(home: Option<String>) -> Seq<char> {
    match home {
        Some(h) => h@,
        None => "."@,
    }
}

fn home_or_dot_exec(home: Option<String>) -> (r: String)
    ensures
        r@ == home_or_dot(home),
{
    match home {
        Some(h) => h,
        None => String::from_str("."),
    }
}

/// Where the settings live: `$RECOVER_CONFIG` when given, else `~/.recoverc`.
pub open spec fn spec_config_path(recover_config: Option<String>, home: Option<String>) -> Seq<char> {
    if given(recover_config) {
        recover_config->0@
    } else {
        path_join(home_or_dot(home), ".recoverc"@)
    }
}

/// Resolve the config path from the values of `RECOVER_CONFIG` and `HOME`.
pub fn config_path_from(recover_config: Option<String>, home: Option<String>) -> (p: String)
    ensures
        p@ == spec_config_path(recover_config, home),
{
    match recover_config {
        Some(p) => if p.unicode_len() > 0 {
            return p;
        },
        None => {},
    }
    path_join_exec(home_or_dot_exec(home).as_str(), ".recoverc")
}

/// Where the database lives: `$RECOVER_DB` when given, else `$XDG_DATA_HOME/recover/recover.db`
/// when that is given, else `~/.local/share/recover/recover.db`.
pub open spec fn spec_db_path(recover_db: Option<String>, xdg: Option<String>, home: Option<String>) -> Seq<char> {
    if given(recover_db) {
        recover_db->0@
    } else {
        let base = if given(xdg) {
            xdg->0@
        } else {
            path_join(path_join(home_or_dot(home), ".local"@), "share"@)
        };
        path_join(path_join(base, "recover"@), "recover.db"@)
    }
}

/// Resolve the database path from the values of `RECOVER_DB`, `XDG_DATA_HOME` and `HOME`.
pub fn db_path_from(recover_db: Option<String>, xdg: Option<String>, home: Option<String>) -> (p: String)
    ensures
        p@ == spec_db_path(recover_db, xdg, home),
{
    match recover_db {
        Some(p) => if p.unicode_len() > 0 {
            return p;
        },
        None => {},
    }
    let xdg_given = match &xdg {
        Some(x) => x.unicode_len() > 0,
        None => false,
    };
    let base = if xdg_given {
        match xdg {
            Some(x) => x,
            None => String::new(),
        }
    } else {
        let h = home_or_dot_exec(home);
        let l = path_join_exec(h.as_str(), ".local");
        path_join_exec(l.as_str(), "share")
    };
    let r = path_join_exec(base.as_str(), "recover");
    path_join_exec(r.as_str(), "recover.db")
}

/// The settings in effect for the file's contents (`None` when it could not be read), and
/// the parse error to report: a broken file falls back to the defaults, so a typo never
/// breaks the tool.
pub fn load_from(contents: Option<String>) -> (r: (Config, Option<String>))
    ensures
        match contents {
            None => r.0 == default_config() && r.1 is None,
            Some(t) => match spec_parse(t@) {
                Ok(c) => r.0 == c && r.1 is None,
                Err(m) => r.0 == default_config() && (r.1 matches Some(e) && e@ == m),
            },
        },
{
    match contents {
        None => (Config::default(), None),
        Some(t) => match parse(t.as_str()) {
            Ok(c) => (c, None),
            Err(e) => (Config::default(), Some(e)),
        },
    }
}

} // verus!
