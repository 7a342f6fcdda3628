use recover::config::{
    config_path_from, db_path_from, load_from, parse, ColorMode, Config, Mode,
};
use recover::render::Rgb;

#[test]
fn empty_config_is_defaults() {
    let cfg = parse("# a comment\n\n   \n").unwrap();
    assert_eq!(cfg, Config::default());
    assert_eq!(cfg.mode, Mode::Quick);
    assert_eq!(cfg.color, ColorMode::Auto);
}

#[test]
fn parses_mode_color_and_hex() {
    let cfg = parse("mode = standard\ncolor = off\nbar_color = #00005f\nheader_color = ffcc00\n").unwrap();
    assert_eq!(cfg.mode, Mode::Standard);
    assert_eq!(cfg.color, ColorMode::Off);
    assert_eq!(cfg.bar_color, Some(Rgb { r: 0, g: 0, b: 0x5f }));
    assert_eq!(cfg.header_color, Some(Rgb { r: 0xff, g: 0xcc, b: 0 }));
    assert!(!cfg.shortcuts());
}

#[test]
fn rejects_bad_values_and_keys() {
    assert!(parse("mode = fancy").is_err());
    assert!(parse("color = rainbow").is_err());
    assert!(parse("bar_color = nothex").is_err());
    assert!(parse("unknown = 1").is_err());
    assert!(parse("noequalssign").is_err());
}

#[test]
fn config_error_messages_name_the_problem() {
    assert_eq!(parse("mode = fancy").unwrap_err(), "invalid mode `fancy` (quick|standard)");
    assert_eq!(parse("color = rainbow").unwrap_err(), "invalid color `rainbow` (auto|on|off)");
    assert_eq!(parse("bar_color = nothex").unwrap_err(), "invalid hex color `nothex` (expected #rrggbb)");
    assert_eq!(parse("unknown = 1").unwrap_err(), "unknown config key `unknown`");
    assert_eq!(parse("# c\n\nnoequalssign").unwrap_err(), "line 3: expected `key = value`");
}

#[test]
fn color_synonyms_and_later_lines_win() {
    let cfg = parse("color = always\r\n  color = never  \nmode=quick\n").unwrap();
    assert_eq!(cfg.color, ColorMode::Off);
    assert_eq!(cfg.mode, Mode::Quick);
    assert!(cfg.shortcuts());
    assert_eq!(parse("color = true").unwrap().color, ColorMode::On);
    assert_eq!(parse("color = auto").unwrap().color, ColorMode::Auto);
}

#[test]
fn value_may_hold_an_equals_sign_after_the_first() {
    assert_eq!(parse("mode = quick = x").unwrap_err(), "invalid mode `quick = x` (quick|standard)");
}

#[test]
fn paths_follow_the_environment() {
    assert_eq!(config_path_from(Some("/x/rc".into()), Some("/home/u".into())), "/x/rc");
    assert_eq!(config_path_from(Some("".into()), Some("/home/u".into())), "/home/u/.recoverc");
    assert_eq!(config_path_from(None, None), "./.recoverc");
    assert_eq!(config_path_from(None, Some("/".into())), "/.recoverc");
    assert_eq!(db_path_from(Some("/d.db".into()), None, None), "/d.db");
    assert_eq!(db_path_from(None, Some("/xdg".into()), Some("/h".into())), "/xdg/recover/recover.db");
    assert_eq!(db_path_from(None, Some("".into()), Some("/h".into())), "/h/.local/share/recover/recover.db");
}

#[test]
fn load_falls_back_to_defaults() {
    assert_eq!(load_from(None), (Config::default(), None));
    let (cfg, err) = load_from(Some("mode = bogus".into()));
    assert_eq!(cfg, Config::default());
    assert_eq!(err.as_deref(), Some("invalid mode `bogus` (quick|standard)"));
    let (cfg, err) = load_from(Some("mode = standard".into()));
    assert_eq!(cfg.mode, Mode::Standard);
    assert_eq!(err, None);
}

#[test]
fn last_setting_wins_and_the_rest_keep_defaults() {
    let cfg = parse("mode = standard\ncolor = on\n# mode = quick\nmode = quick\nbar_color = #0A0b0C\n").unwrap();
    assert_eq!(cfg.mode, Mode::Quick);
    assert_eq!(cfg.color, ColorMode::On);
    assert_eq!(cfg.bar_color, Some(Rgb { r: 10, g: 11, b: 12 }));
    assert_eq!(cfg.header_color, None);
    assert!(parse("mode = quick\nheader_color = 12345\n").is_err());
    assert!(parse("color = sometimes").is_err());
}
