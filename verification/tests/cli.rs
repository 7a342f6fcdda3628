use recover::cli::{
    comment_action, db_args, exit_fields, first_path, has_word, id_action, leading_index, list_limit,
    list_style, list_tokens, list_width, out_args, parse_id, pty_dims, push_unique, run_command_line,
    shell_join, shell_quote, single_id, split_command, want_color, with_id, CommentAction,
    IdAction,
};
use recover::config::{ColorMode, Config};
use recover::render::Rgb;

fn s(v: &[&str]) -> Vec<String> {
    v.iter().map(|t| t.to_string()).collect()
}

#[test]
fn reserved_words_select_subcommands() {
    assert_eq!(split_command(&s(&[])), ("list".to_string(), 0));
    assert_eq!(split_command(&s(&["list", "cmd:x"])), ("list-browse".to_string(), 1));
    assert_eq!(split_command(&s(&["-h"])), ("help".to_string(), 1));
    assert_eq!(split_command(&s(&["rm", "3"])), ("rm".to_string(), 1));
    assert_eq!(split_command(&s(&["cmd:git"])), ("list".to_string(), 0));
}

#[test]
fn id_first_forms() {
    assert_eq!(leading_index(&s(&["5", "com"])), Some(5));
    assert_eq!(leading_index(&s(&["-1"])), Some(-1));
    assert_eq!(leading_index(&s(&["run"])), None);
    assert!(matches!(id_action(&s(&[])), IdAction::Show));
    assert!(matches!(id_action(&s(&["comment", "x"])), IdAction::Comment));
    assert!(matches!(id_action(&s(&["del"])), IdAction::Remove));
    match id_action(&s(&["bogus"])) {
        IdAction::Unknown(m) => assert_eq!(m, "unknown action `bogus` for a run (try: out, cmd, com, show, rerun, rm/del)"),
        _ => panic!("bogus is no action"),
    }
    assert_eq!(with_id(-2, &s(&["--strip"])), s(&["-2", "--strip"]));
}

#[test]
fn quoting_for_the_shell() {
    assert_eq!(shell_quote("echo"), "echo");
    assert_eq!(shell_quote("a b"), "'a b'");
    assert_eq!(shell_quote(""), "''");
    assert_eq!(shell_quote("it's"), "'it'\\''s'");
    assert_eq!(shell_quote("é"), "'é'");
    assert_eq!(shell_join(&s(&["echo", "hello world", "x=1,2"])), "echo 'hello world' x=1,2");
}

#[test]
fn run_arguments() {
    assert_eq!(run_command_line(&s(&["--", "echo", "hello"]), "/bin/sh").unwrap(), ("echo hello".to_string(), s(&["echo", "hello"])));
    assert_eq!(
        run_command_line(&s(&["-c", "ls | wc", "-l"]), "/bin/bash").unwrap(),
        ("ls | wc -l".to_string(), s(&["/bin/bash", "-c", "ls | wc -l"]))
    );
    assert_eq!(run_command_line(&s(&["-c", "--"]), "/bin/sh").unwrap_err(), "usage: recover run [-c] <command...>");
    assert_eq!(run_command_line(&s(&["sh", "-c", "exit 7"]), "/bin/sh").unwrap().0, "sh -c 'exit 7'");
}

#[test]
fn ids_and_out_arguments() {
    assert_eq!(parse_id("42"), Ok(42));
    assert_eq!(parse_id("x"), Err("invalid id: x".to_string()));
    assert_eq!(single_id(&[]), Err("expected a run id".to_string()));
    assert_eq!(out_args(&s(&["1", "--strip"])), Ok((1, true)));
    assert_eq!(out_args(&s(&["--strip", "2", "3"])), Ok((3, true)));
    assert_eq!(out_args(&s(&["4"])), Ok((4, false)));
    assert_eq!(out_args(&s(&["--strip"])), Err("usage: recover out <id> [--strip]".to_string()));
    assert_eq!(out_args(&s(&["nope", "1"])), Err("invalid id: nope".to_string()));
}

#[test]
fn comment_words() {
    assert!(matches!(comment_action(&[]), CommentAction::Print));
    assert!(matches!(comment_action(&s(&[" ", ""])), CommentAction::Clear));
    match comment_action(&s(&["important", "note"])) {
        CommentAction::Replace(t) => assert_eq!(t, "important note"),
        _ => panic!("expected a new comment"),
    }
}

#[test]
fn small_decisions() {
    assert_eq!(db_args(&s(&[])), Ok(()));
    assert_eq!(db_args(&s(&["path"])), Ok(()));
    assert_eq!(db_args(&s(&["size"])), Err("unknown db subcommand: size (try: recover db path)".to_string()));
    assert!(has_word(&s(&["a", "--yes"]), "--yes"));
    assert!(!has_word(&s(&["a"]), "--yes"));
    assert_eq!(first_path(&s(&["--json", "out.json"])), Some(1));
    assert_eq!(first_path(&s(&["--json"])), None);
    let mut ids = vec![3, 1];
    push_unique(&mut ids, 1);
    push_unique(&mut ids, 2);
    assert_eq!(ids, vec![3, 1, 2]);
}

#[test]
fn listing_decisions() {
    assert_eq!(list_tokens(&s(&["cmd:x", "-l", "out:y"])), (true, s(&["cmd:x", "out:y"])));
    assert_eq!(list_tokens(&s(&["cmd:x"])), (false, s(&["cmd:x"])));
    assert_eq!(list_limit(None, true), Some(0));
    assert_eq!(list_limit(None, false), Some(20));
    assert_eq!(list_limit(Some(5), true), Some(5));
    assert!(!want_color(ColorMode::Off, false, true));
    assert!(want_color(ColorMode::On, false, false));
    assert!(!want_color(ColorMode::On, true, true));
    assert!(want_color(ColorMode::Auto, false, true));
    assert_eq!(list_width(true, Some(120), false), 120);
    assert_eq!(list_width(true, Some(120), true), 119);
    assert_eq!(list_width(true, Some(10), false), 100);
    assert_eq!(list_width(false, Some(120), true), 100);
    let cfg = Config { bar_color: Some(Rgb { r: 1, g: 2, b: 3 }), ..Config::default() };
    assert_eq!(list_style(true, &cfg).unwrap().bar_bg, Rgb { r: 1, g: 2, b: 3 });
    assert_eq!(list_style(true, &Config::default()).unwrap().bar_bg, Rgb { r: 0, g: 0, b: 0x33 });
    assert!(list_style(false, &cfg).is_none());
}

#[test]
fn pty_size_and_exit_status() {
    assert_eq!(pty_dims(Some((120, 40))), (120, 40));
    assert_eq!(pty_dims(Some((0, 40))), (80, 24));
    assert_eq!(pty_dims(None), (80, 24));
    assert_eq!(exit_fields(None, 7), (Some(7), None));
    assert_eq!(exit_fields(Some("Terminated".to_string()), 1), (None, Some("Terminated".to_string())));
    assert_eq!(exit_fields(None, u32::MAX), (Some(-1), None));
}
