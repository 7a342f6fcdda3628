//! The decisions of the command line: which subcommand a word selects, how the words
//! after it are read, and how a command is quoted for storage.

use vstd::prelude::*;
use crate::config::{ColorMode, Config};
use crate::render::{default_bar, ListStyle, Rgb};
use crate::chars::{
    dec_int, eq_lit, from_chars, joined, lit, parse_signed, push_dec_i64, push_seq, push_str,
    read_i64, strings_chars, to_chars, trim, trim_range, join_strings,
};

verus! {

/// Pushing a string pushes its characters.
pub proof fn lemma_push_chars(v: Seq<String>, s: String)
    ensures
        strings_chars(v.push(s)) == strings_chars(v).push(s@),
{
    assert(strings_chars(v.push(s)) =~= strings_chars(v).push(s@));
}

/// The words that select a subcommand.
pub open spec fn is_reserved(w: Seq<char>) -> bool {
    ||| w == "run"@ ||| w == "list"@ ||| w == "out"@ ||| w == "cmd"@ ||| w == "show"@
    ||| w == "rerun"@ ||| w == "rm"@ ||| w == "del"@ ||| w == "clear"@ ||| w == "export"@
    ||| w == "import"@ ||| w == "db"@ ||| w == "help"@ ||| w == "--help"@ ||| w == "-h"@
}

fn reserved_exec(w: &str) -> (b: bool)
    ensures
        b == is_reserved(w@),
{
    let v = to_chars(w);
    eq_lit(&v, "run") || eq_lit(&v, "list") || eq_lit(&v, "out") || eq_lit(&v, "cmd")
        || eq_lit(&v, "show") || eq_lit(&v, "rerun") || eq_lit(&v, "rm") || eq_lit(&v, "del")
        || eq_lit(&v, "clear") || eq_lit(&v, "export") || eq_lit(&v, "import") || eq_lit(&v, "db")
        || eq_lit(&v, "help") || eq_lit(&v, "--help") || eq_lit(&v, "-h")
}

/// The subcommand that the arguments select, and where its own arguments start: a
/// reserved first word selects itself (`list` the paged view `list-browse`, the help
/// spellings `help`); anything else is an implicit quick `list` over all the words.
pub open spec fn spec_split(args: Seq<Seq<char>>) -> (Seq<char>, int) {
    if args.len() == 0 {
        ("list"@, 0)
    } else if args[0] == "help"@ || args[0] == "--help"@ || args[0] == "-h"@ {
        ("help"@, 1)
    } else if args[0] == "list"@ {
        ("list-browse"@, 1)
    } else if is_reserved(args[0]) {
        (args[0], 1)
    } else {
        ("list"@, 0)
    }
}

/// Reserved word → (subcommand, index where its arguments start); otherwise implicit
/// `list` over all tokens. The explicit `list` word maps to `list-browse` (the paged view).
pub fn split_command(args: &[String]) -> (r: (String, usize))
    ensures
        r.0@ == spec_split(strings_chars(args@)).0,
        r.1 as int == spec_split(strings_chars(args@)).1,
{
    if args.len() == 0 {
        return (String::from_str("list"), 0);
    }
    let f = to_chars(args[0].as_str());
    if eq_lit(&f, "help") || eq_lit(&f, "--help") || eq_lit(&f, "-h") {
        (String::from_str("help"), 1)
    } else if eq_lit(&f, "list") {
        (String::from_str("list-browse"), 1)
    } else if reserved_exec(args[0].as_str()) {
        (args[0].clone(), 1)
    } else {
        (String::from_str("list"), 0)
    }
}

/// The run index that leads an id-first command (`recover 5 com "note"`), when the first
/// argument reads as an `i64`.
pub fn leading_index(args: &[String]) -> (r: Option<i64>)
    ensures
        match r {
            Some(x) => args@.len() > 0 && parse_signed(args@[0]@, i64::MIN as int, i64::MAX as int) == Some(x as int),
            None => args@.len() == 0 || parse_signed(args@[0]@, i64::MIN as int, i64::MAX as int) is None,
        },
{
    if args.len() == 0 {
        None
    } else {
        read_i64(&to_chars(args[0].as_str()))
    }
}

/// What an id-first command does with the run.
pub enum IdAction {
    /// `recover <id>` alone, or `show`: the detail view.
    Show,
    /// `com` / `comment`: print or set the note.
    Comment,
    /// `out`: print the output.
    Out,
    /// `cmd`: print the command.
    Cmd,
    /// `rerun`: run the command again.
    Rerun,
    /// `rm` / `del`: delete the run.
    Remove,
    /// Anything else, with the message to report.
    Unknown(String),
}

/// The action that the verb after an id selects (`None` = no verb).
pub open spec fn spec_id_action(verb: Option<Seq<char>>) -> Result<int, Seq<char>> {
    match verb {
        None => Ok(0),
        Some(v) => if v == "com"@ || v == "comment"@ {
            Ok(1)
        } else if v == "out"@ {
            Ok(2)
        } else if v == "cmd"@ {
            Ok(3)
        } else if v == "show"@ {
            Ok(0)
        } else if v == "rerun"@ {
            Ok(4)
        } else if v == "rm"@ || v == "del"@ {
            Ok(5)
        } else {
            Err("unknown action `"@ + v + "` for a run (try: out, cmd, com, show, rerun, rm/del)"@)
        },
    }
}

/// The number that `spec_id_action` gives for an action.
pub open spec fn action_code(a: IdAction) -> Result<int, Seq<char>> {
    match a {
        IdAction::Show => Ok(0),
        IdAction::Comment => Ok(1),
        IdAction::Out => Ok(2),
        IdAction::Cmd => Ok(3),
        IdAction::Rerun => Ok(4),
        IdAction::Remove => Ok(5),
        IdAction::Unknown(m) => Err(m@),
    }
}

/// The action for the words after an id (`rest`).
pub fn id_action(rest: &[String]) -> (a: IdAction)
    ensures
        action_code(a) == spec_id_action(if rest@.len() == 0 { None } else { Some(rest@[0]@) }),
{
    if rest.len() == 0 {
        return IdAction::Show;
    }
    let v = to_chars(rest[0].as_str());
    if eq_lit(&v, "com") || eq_lit(&v, "comment") {
        IdAction::Comment
    } else if eq_lit(&v, "out") {
        IdAction::Out
    } else if eq_lit(&v, "cmd") {
        IdAction::Cmd
    } else if eq_lit(&v, "show") {
        IdAction::Show
    } else if eq_lit(&v, "rerun") {
        IdAction::Rerun
    } else if eq_lit(&v, "rm") || eq_lit(&v, "del") {
        IdAction::Remove
    } else {
        let mut m = lit("unknown action `");
        push_seq(&mut m, &v);
        push_str(&mut m, "` for a run (try: out, cmd, com, show, rerun, rm/del)");
        IdAction::Unknown(from_chars(&m))
    }
}

/// The id in decimal followed by `after`: the arguments a verb-first handler expects.
pub fn with_id(idx: i64, after: &[String]) -> (v: Vec<String>)
    ensures
        strings_chars(v@) == seq![dec_int(idx as int)] + strings_chars(after@),
{
    let mut d: Vec<char> = Vec::new();
    push_dec_i64(&mut d, idx);
    let mut v: Vec<String> = Vec::new();
    v.push(from_chars(&d));
    let mut i: usize = 0;
    while i < after.len()
        invariant
            i <= after@.len(),
            strings_chars(v@) == seq![dec_int(idx as int)] + strings_chars(after@).subrange(0, i as int),
        decreases after.len() - i,
    {
        let c = after[i].clone();
        let ghost old_v = v@;
        v.push(c);
        proof {
            lemma_push_chars(old_v, c);
            let x = strings_chars(after@);
            assert(x.subrange(0, i + 1) =~= x.subrange(0, i as int).push(x[i as int]));
            assert(seq![dec_int(idx as int)] + x.subrange(0, i + 1) =~= (seq![dec_int(idx as int)] + x.subrange(0, i as int)).push(x[i as int]));
        }
        i = i + 1;
    }
    assert(strings_chars(after@).subrange(0, after@.len() as int) =~= strings_chars(after@));
    v
}

/// The characters that may stand unquoted in a shell word.
pub open spec fn is_shell_safe(c: char) -> bool {
    ('a' <= c && c <= 'z') || ('A' <= c && c <= 'Z') || ('0' <= c && c <= '9')
        || c == '-' || c == '_' || c == '.' || c == '/' || c == '=' || c == ':' || c == '@'
        || c == '%' || c == '+' || c == ','
}

fn shell_safe_exec(c: char) -> (b: bool)
    ensures
        b == is_shell_safe(c),
{
    ('a' <= c && c <= 'z') || ('A' <= c && c <= 'Z') || ('0' <= c && c <= '9')
        || c == '-' || c == '_' || c == '.' || c == '/' || c == '=' || c == ':' || c == '@'
        || c == '%' || c == '+' || c == ','
}

/// `s` with every `'` written as `'\''`.
pub open spec fn escape_quotes(s: Seq<char>) -> Seq<char>
    decreases s.len(),
{
    if s.len() == 0 {
        Seq::empty()
    } else {
        escape_quotes(s.drop_last()) + (if s.last() == '\'' { "'\\''"@ } else { seq![s.last()] })
    }
}

/// A word quoted for the shell: as it is when it is non-empty and every character is
/// safe, otherwise in single quotes with inner quotes escaped.
pub open spec fn spec_quote(s: Seq<char>) -> Seq<char> {
    if s.len() > 0 && (forall|i: int| 0 <= i < s.len() ==> is_shell_safe(#[trigger] s[i])) {
        s
    } else {
        "'"@ + escape_quotes(s) + "'"@
    }
}

/// Quote one word for the shell.
pub fn shell_quote(s: &str) -> (q: String)
    ensures
        q@ == spec_quote(s@),
{
    let v = to_chars(s);
    let n = v.len();
    let mut safe = n > 0;
    let mut i: usize = 0;
    while i < n
        invariant
            n == v@.len(),
            i <= n,
            safe == (n > 0 && forall|k: int| 0 <= k < i ==> is_shell_safe(#[trigger] v@[k])),
        decreases n - i,
    {
        if !shell_safe_exec(v[i]) {
            safe = false;
        }
        i = i + 1;
    }
    if safe {
        return String::from_str(s);
    }
    let mut out = lit("'");
    let ghost head = out@;
    let mut j: usize = 0;
    while j < n
        invariant
            n == v@.len(),
            j <= n,
            out@ == head + escape_quotes(v@.subrange(0, j as int)),
        decreases n - j,
    {
        assert(v@.subrange(0, j + 1).drop_last() =~= v@.subrange(0, j as int));
        if v[j] == '\'' {
            push_str(&mut out, "'\\''");
        } else {
            out.push(v[j]);
        }
        assert(out@ =~= head + escape_quotes(v@.subrange(0, j + 1)));
        j = j + 1;
    }
    assert(v@.subrange(0, n as int) =~= v@);
    push_str(&mut out, "'");
    from_chars(&out)
}

/// Join command tokens into a shell-safe string (for storage and reruns).
pub fn shell_join(args: &[String]) -> (s: String)
    ensures
        s@ == joined(strings_chars(args@).map_values(|w: Seq<char>| spec_quote(w)), " "@),
{
    let mut quoted: Vec<String> = Vec::new();
    let mut i: usize = 0;
    while i < args.len()
        invariant
            i <= args@.len(),
            strings_chars(quoted@) == strings_chars(args@).subrange(0, i as int).map_values(|w: Seq<char>| spec_quote(w)),
        decreases args.len() - i,
    {
        let q = shell_quote(args[i].as_str());
        let ghost old_q = quoted@;
        quoted.push(q);
        proof {
            lemma_push_chars(old_q, q);
            let x = strings_chars(args@);
            assert(x.subrange(0, i + 1) =~= x.subrange(0, i as int).push(x[i as int]));
            assert(x.subrange(0, i + 1).map_values(|w: Seq<char>| spec_quote(w)) =~= x.subrange(0, i as int).map_values(|w: Seq<char>| spec_quote(w)).push(spec_quote(x[i as int])));
        }
        i = i + 1;
    }
    assert(strings_chars(args@).subrange(0, args@.len() as int) =~= strings_chars(args@));
    join_strings(&quoted, " ")
}

/// How `recover run` was asked to run its command.
pub open spec fn run_flags_end(rest: Seq<Seq<char>>, i: int) -> (int, bool)
    decreases rest.len() - i,
{
    if 0 <= i < rest.len() && rest[i] == "-c"@ {
        let (j, _) = run_flags_end(rest, i + 1);
        (j, true)
    } else if 0 <= i < rest.len() && rest[i] == "--"@ {
        (i + 1, false)
    } else {
        (i, false)
    }
}

/// The words of `recover run` after the leading flags, and whether `-c` was among them.
pub open spec fn spec_run_words(rest: Seq<Seq<char>>) -> (Seq<Seq<char>>, bool) {
    let (j, shell) = run_flags_end(rest, 0);
    (rest.subrange(j, rest.len() as int), shell)
}

/// What `recover run` stores and executes: with `-c`, the words joined by spaces, run as
/// `shell -c <script>`; otherwise the shell-quoted words, run directly. No words is a
/// usage error.
pub open spec fn spec_run_line(rest: Seq<Seq<char>>, shell: Seq<char>) -> Result<(Seq<char>, Seq<Seq<char>>), Seq<char>> {
    let (words, shell_mode) = spec_run_words(rest);
    if words.len() == 0 {
        Err("usage: recover run [-c] <command...>"@)
    } else if shell_mode {
        let script = joined(words, " "@);
        Ok((script, seq![shell, "-c"@, script]))
    } else {
        Ok((joined(words.map_values(|w: Seq<char>| spec_quote(w)), " "@), words))
    }
}

/// Read the arguments of `recover run [-c] [--] <command...>`: the command string to store
/// and the program with its arguments to execute (`shell` runs `-c` scripts).
pub fn run_command_line(rest: &[String], shell: &str) -> (r: Result<(String, Vec<String>), String>)
    ensures
        match (r, spec_run_line(strings_chars(rest@), shell@)) {
            (Ok((c, argv)), Ok((sc, sargv))) => c@ == sc && strings_chars(argv@) == sargv,
            (Err(e), Err(m)) => e@ == m,
            _ => false,
        },
{
    let ghost rs = strings_chars(rest@);
    let mut shell_mode = false;
    let mut i: usize = 0;
    let mut done = false;
    while i < rest.len() && !done
        invariant
            i <= rest@.len(),
            rs == strings_chars(rest@),
            !done ==> run_flags_end(rs, 0) == (run_flags_end(rs, i as int).0, shell_mode || run_flags_end(rs, i as int).1),
            done ==> run_flags_end(rs, 0) == (i as int, shell_mode),
        decreases rest.len() - i + (if done { 0int } else { 1int }),
    {
        let w = to_chars(rest[i].as_str());
        if eq_lit(&w, "-c") {
            shell_mode = true;
            i = i + 1;
        } else if eq_lit(&w, "--") {
            i = i + 1;
            done = true;
        } else {
            done = true;
        }
    }
    let mut words: Vec<String> = Vec::new();
    let start = i;
    while i < rest.len()
        invariant
            start <= i <= rest@.len(),
            rs == strings_chars(rest@),
            strings_chars(words@) == rs.subrange(start as int, i as int),
        decreases rest.len() - i,
    {
        let c = rest[i].clone();
        let ghost old_w = words@;
        words.push(c);
        proof {
            lemma_push_chars(old_w, c);
            assert(rs.subrange(start as int, i + 1) =~= rs.subrange(start as int, i as int).push(rs[i as int]));
        }
        i = i + 1;
    }
    assert(spec_run_words(rs).0 =~= strings_chars(words@));
    if words.len() == 0 {
        return Err(String::from_str("usage: recover run [-c] <command...>"));
    }
    if shell_mode {
        let script = join_strings(&words, " ");
        let mut argv: Vec<String> = Vec::new();
        argv.push(String::from_str(shell));
        argv.push(String::from_str("-c"));
        argv.push(script.clone());
        assert(strings_chars(argv@) =~= seq![shell@, "-c"@, script@]);
        Ok((script, argv))
    } else {
        Ok((shell_join(&words), words))
    }
}

/// `s` read as a run id, or the error for it.
pub open spec fn spec_parse_id(s: Seq<char>) -> Result<int, Seq<char>> {
    match parse_signed(s, i64::MIN as int, i64::MAX as int) {
        Some(x) => Ok(x),
        None => Err("invalid id: "@ + s),
    }
}

/// Read a run id.
pub fn parse_id(s: &str) -> (r: Result<i64, String>)
    ensures
        match (r, spec_parse_id(s@)) {
            (Ok(x), Ok(y)) => x == y,
            (Err(e), Err(m)) => e@ == m,
            _ => false,
        },
{
    match read_i64(&to_chars(s)) {
        Some(x) => Ok(x),
        None => {
            let mut m = lit("invalid id: ");
            push_str(&mut m, s);
            Err(from_chars(&m))
        },
    }
}

/// The id that a verb-first command takes as its first argument.
pub fn single_id(rest: &[String]) -> (r: Result<i64, String>)
    ensures
        rest@.len() == 0 ==> (r matches Err(e) && e@ == "expected a run id"@),
        rest@.len() > 0 ==> match (r, spec_parse_id(rest@[0]@)) {
            (Ok(x), Ok(y)) => x == y,
            (Err(e), Err(m)) => e@ == m,
            _ => false,
        },
{
    if rest.len() == 0 {
        Err(String::from_str("expected a run id"))
    } else {
        parse_id(rest[0].as_str())
    }
}

/// The state after reading the words of `recover out` in order: the last id seen and
/// whether `--strip` was seen, or the first word that does not read as an id.
pub open spec fn out_state(rest: Seq<Seq<char>>) -> Result<(Option<int>, bool), Seq<char>>
    decreases rest.len(),
{
    if rest.len() == 0 {
        Ok((None, false))
    } else {
        match out_state(rest.drop_last()) {
            Err(e) => Err(e),
            Ok((id, strip)) => if rest.last() == "--strip"@ {
                Ok((id, true))
            } else {
                match spec_parse_id(rest.last()) {
                    Ok(x) => Ok((Some(x), strip)),
                    Err(m) => Err(m),
                }
            },
        }
    }
}

/// The arguments of `recover out`: `--strip` anywhere and an id (the last one given); a
/// word that is neither is an error, as is no id at all.
pub open spec fn spec_out_args(rest: Seq<Seq<char>>) -> Result<(int, bool), Seq<char>> {
    match out_state(rest) {
        Err(e) => Err(e),
        Ok((None, _)) => Err("usage: recover out <id> [--strip]"@),
        Ok((Some(x), strip)) => Ok((x, strip)),
    }
}

/// Read the arguments of `recover out <id> [--strip]`.
pub fn out_args(rest: &[String]) -> (r: Result<(i64, bool), String>)
    ensures
        match (r, spec_out_args(strings_chars(rest@))) {
            (Ok((x, s)), Ok((y, t))) => x == y && s == t,
            (Err(e), Err(m)) => e@ == m,
            _ => false,
        },
{
    let ghost rs = strings_chars(rest@);
    let mut strip = false;
    let mut id: Option<i64> = None;
    let mut i: usize = 0;
    while i < rest.len()
        invariant
            i <= rest@.len(),
            rs == strings_chars(rest@),
            out_state(rs.subrange(0, i as int)) == Ok::<(Option<int>, bool), Seq<char>>((match id {
                Some(x) => Some(x as int),
                None => None,
            }, strip)),
        decreases rest.len() - i,
    {
        assert(rs.subrange(0, i + 1).drop_last() =~= rs.subrange(0, i as int));
        let w = to_chars(rest[i].as_str());
        if eq_lit(&w, "--strip") {
            strip = true;
        } else {
            match parse_id(rest[i].as_str()) {
                Ok(x) => {
                    id = Some(x);
                },
                Err(e) => {
                    proof {
                        lemma_out_state_stop(rs, i as int + 1);
                    }
                    return Err(e);
                },
            }
        }
        i = i + 1;
    }
    assert(rs.subrange(0, rest@.len() as int) =~= rs);
    match id {
        Some(x) => Ok((x, strip)),
        None => Err(String::from_str("usage: recover out <id> [--strip]")),
    }
}

/// Once a prefix of the words is an error, all of them are.
proof fn lemma_out_state_stop(rest: Seq<Seq<char>>, k: int)
    requires
        0 <= k <= rest.len(),
        out_state(rest.subrange(0, k)) is Err,
    ensures
        out_state(rest) == out_state(rest.subrange(0, k)),
    decreases rest.len() - k,
{
    if k < rest.len() {
        assert(rest.subrange(0, k + 1).drop_last() =~= rest.subrange(0, k));
        lemma_out_state_stop(rest, k + 1);
    } else {
        assert(rest.subrange(0, k) =~= rest);
    }
}

/// What `recover <id> com [text...]` does.
pub enum CommentAction {
    /// No text: print the comment.
    Print,
    /// Text that is only white space: remove the comment.
    Clear,
    /// Otherwise: set the comment to the words joined by spaces.
    Replace(String),
}

/// The comment action for the words after `com`.
pub open spec fn spec_comment_action(args: Seq<Seq<char>>) -> Option<Option<Seq<char>>> {
    if args.len() == 0 {
        None
    } else if trim(joined(args, " "@)).len() == 0 {
        Some(None)
    } else {
        Some(Some(joined(args, " "@)))
    }
}

/// Decide what `recover <id> com [text...]` does.
pub fn comment_action(args: &[String]) -> (a: CommentAction)
    ensures
        match (a, spec_comment_action(strings_chars(args@))) {
            (CommentAction::Print, None) => true,
            (CommentAction::Clear, Some(None)) => true,
            (CommentAction::Replace(t), Some(Some(u))) => t@ == u,
            _ => false,
        },
{
    if args.len() == 0 {
        return CommentAction::Print;
    }
    let text = join_strings(args, " ");
    let v = to_chars(text.as_str());
    let t = trim_range(&v, 0, v.len());
    assert(v@.subrange(0, v@.len() as int) =~= v@);
    if t.len() == 0 {
        CommentAction::Clear
    } else {
        CommentAction::Replace(text)
    }
}

/// The arguments of `recover db`: nothing or `path` prints the database path; anything
/// else is an error.
pub open spec fn spec_db_args(rest: Seq<Seq<char>>) -> Result<(), Seq<char>> {
    if rest.len() == 0 || rest[0] == "path"@ {
        Ok(())
    } else {
        Err("unknown db subcommand: "@ + rest[0] + " (try: recover db path)"@)
    }
}

/// Check the arguments of `recover db`.
pub fn db_args(rest: &[String]) -> (r: Result<(), String>)
    ensures
        match (r, spec_db_args(strings_chars(rest@))) {
            (Ok(()), Ok(())) => true,
            (Err(e), Err(m)) => e@ == m,
            _ => false,
        },
{
    if rest.len() == 0 || eq_lit(&to_chars(rest[0].as_str()), "path") {
        Ok(())
    } else {
        let mut m = lit("unknown db subcommand: ");
        push_str(&mut m, rest[0].as_str());
        push_str(&mut m, " (try: recover db path)");
        Err(from_chars(&m))
    }
}

/// Whether some word of `rest` is `w`.
pub fn has_word(rest: &[String], w: &str) -> (b: bool)
    ensures
        b == exists|i: int| 0 <= i < rest@.len() && #[trigger] rest@[i]@ == w@,
{
    let mut i: usize = 0;
    while i < rest.len()
        invariant
            i <= rest@.len(),
            forall|k: int| 0 <= k < i ==> #[trigger] rest@[k]@ != w@,
        decreases rest.len() - i,
    {
        if eq_lit(&to_chars(rest[i].as_str()), w) {
            return true;
        }
        i = i + 1;
    }
    false
}

/// The position of the first word that is not `--json` (the file of export and import).
pub fn first_path(rest: &[String]) -> (r: Option<usize>)
    ensures
        match r {
            Some(i) => i < rest@.len() && rest@[i as int]@ != "--json"@
                && forall|k: int| 0 <= k < i ==> #[trigger] rest@[k]@ == "--json"@,
            None => forall|k: int| 0 <= k < rest@.len() ==> #[trigger] rest@[k]@ == "--json"@,
        },
{
    let mut i: usize = 0;
    while i < rest.len()
        invariant
            i <= rest@.len(),
            forall|k: int| 0 <= k < i ==> #[trigger] rest@[k]@ == "--json"@,
        decreases rest.len() - i,
    {
        if !eq_lit(&to_chars(rest[i].as_str()), "--json") {
            return Some(i);
        }
        i = i + 1;
    }
    None
}

/// Adds `id` to `ids` unless it is already there (first occurrence order is kept).
pub fn push_unique(ids: &mut Vec<i64>, id: i64)
    ensures
        old(ids)@.contains(id) ==> final(ids)@ == old(ids)@,
        !old(ids)@.contains(id) ==> final(ids)@ == old(ids)@.push(id),
{
    let mut i: usize = 0;
    while i < ids.len()
        invariant
            i <= ids@.len(),
            ids@ == old(ids)@,
            forall|k: int| 0 <= k < i ==> ids@[k] != id,
        decreases ids.len() - i,
    {
        if ids[i] == id {
            assert(old(ids)@.contains(id)) by {
                assert(old(ids)@[i as int] == id);
            }
            return;
        }
        i = i + 1;
    }
    assert(!old(ids)@.contains(id));
    ids.push(id);
}

/// The words of a listing without the `-l` flag, in order.
pub open spec fn without_flag(words: Seq<Seq<char>>) -> Seq<Seq<char>>
    decreases words.len(),
{
    if words.len() == 0 {
        Seq::empty()
    } else if words.last() == "-l"@ {
        without_flag(words.drop_last())
    } else {
        without_flag(words.drop_last()).push(words.last())
    }
}

/// Split the words of a listing into the `-l` (page it) flag and the filter tokens.
pub fn list_tokens(rest: &[String]) -> (r: (bool, Vec<String>))
    ensures
        r.0 == exists|i: int| 0 <= i < rest@.len() && #[trigger] rest@[i]@ == "-l"@,
        strings_chars(r.1@) == without_flag(strings_chars(rest@)),
{
    let ghost rs = strings_chars(rest@);
    let mut toks: Vec<String> = Vec::new();
    let mut flag = false;
    let mut i: usize = 0;
    while i < rest.len()
        invariant
            i <= rest@.len(),
            rs == strings_chars(rest@),
            strings_chars(toks@) == without_flag(rs.subrange(0, i as int)),
            flag == exists|k: int| 0 <= k < i && #[trigger] rest@[k]@ == "-l"@,
        decreases rest.len() - i,
    {
        assert(rs.subrange(0, i + 1).drop_last() =~= rs.subrange(0, i as int));
        if eq_lit(&to_chars(rest[i].as_str()), "-l") {
            flag = true;
        } else {
            let c = rest[i].clone();
            let ghost old_t = toks@;
            toks.push(c);
            proof {
                lemma_push_chars(old_t, c);
            }
        }
        i = i + 1;
    }
    assert(rs.subrange(0, rest@.len() as int) =~= rs);
    (flag, toks)
}

/// How many runs the quick listing shows when no `limit:` token says otherwise. The
/// settings file has no key for this cap, so it is fixed here, at 20.
pub open spec fn quick_limit() -> usize {
    20
}

/// The limit a listing applies: a `limit:` token wins; otherwise the paged view shows
/// everything (0) and the quick table the default cap.
pub fn list_limit(limit: Option<usize>, browse: bool) -> (r: Option<usize>)
    ensures
        r == (match limit {
            Some(n) => Some(n),
            None => Some(if browse { 0 } else { quick_limit() }),
        }),
{
    match limit {
        Some(n) => Some(n),
        None => Some(if browse { 0 } else { 20 }),
    }
}

/// Whether the table is coloured: never with `color = off`; with `on` unless `NO_COLOR`
/// is set; with `auto` only on a terminal and without `NO_COLOR`.
pub open spec fn spec_want_color(color: ColorMode, no_color: bool, stdout_tty: bool) -> bool {
    match color {
        ColorMode::Off => false,
        ColorMode::On => !no_color,
        ColorMode::Auto => stdout_tty && !no_color,
    }
}

/// Decide whether to colour the table.
pub fn want_color(color: ColorMode, no_color: bool, stdout_tty: bool) -> (b: bool)
    ensures
        b == spec_want_color(color, no_color, stdout_tty),
{
    match color {
        ColorMode::Off => false,
        ColorMode::On => !no_color,
        ColorMode::Auto => stdout_tty && !no_color,
    }
}

/// The width the table is laid out in: the terminal's columns when coloured and at least
/// 20 are known, else 100; one less in the pager when coloured, so full-width rows do not
/// wrap.
pub open spec fn spec_list_width(color: bool, cols: Option<u16>, browse: bool) -> int {
    let w: int = match cols {
        Some(c) => if color && c >= 20 { c as int } else { 100 },
        None => 100,
    };
    if browse && color { if w > 0 { w - 1 } else { 0 } } else { w }
}

/// Decide the width of the table.
pub fn list_width(color: bool, cols: Option<u16>, browse: bool) -> (w: usize)
    ensures
        w as int == spec_list_width(color, cols, browse),
{
    let w: usize = match cols {
        Some(c) => if color && c >= 20 { c as usize } else { 100 },
        None => 100,
    };
    if browse && color { if w > 0 { w - 1 } else { 0 } } else { w }
}

/// The table style when coloured: the configured bar colour (or the default) and header
/// colour.
pub fn list_style(color: bool, cfg: &Config) -> (s: Option<ListStyle>)
    ensures
        color ==> (s matches Some(st) && st.bar_bg == (match cfg.bar_color {
            Some(c) => c,
            None => Rgb { r: 0, g: 0, b: 0x33 },
        }) && st.header == cfg.header_color),
        !color ==> s is None,
{
    if color {
        let bar = match cfg.bar_color {
            Some(c) => c,
            None => default_bar(),
        };
        Some(ListStyle { bar_bg: bar, header: cfg.header_color })
    } else {
        None
    }
}

/// The size of the pseudo-terminal: the terminal's columns and rows when both are known
/// and non-zero, else 80 by 24.
pub fn pty_dims(dims: Option<(u16, u16)>) -> (r: (u16, u16))
    ensures
        r == (match dims {
            Some((c, rows)) => if c > 0 && rows > 0 { (c, rows) } else { (80u16, 24u16) },
            None => (80u16, 24u16),
        }),
{
    match dims {
        Some((c, rows)) => if c > 0 && rows > 0 { (c, rows) } else { (80, 24) },
        None => (80, 24),
    }
}

/// What a finished child leaves on its run: the signal's name when a signal ended it
/// (and no exit code), else its exit status as an `i32` (and no signal).
pub fn exit_fields(signal: Option<String>, code: u32) -> (r: (Option<i32>, Option<String>))
    ensures
        match signal {
            Some(sig) => r.0 is None && r.1 == Some(sig),
            None => r.0 == Some(code as i32) && r.1 is None,
        },
{
    match signal {
        Some(sig) => (None, Some(sig)),
        None => (Some(code as i32), None),
    }
}

} // verus!
