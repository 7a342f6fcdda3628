use chrono::TimeZone;
use recover::model::{Run, Timestamp};
use recover::render::{
    default_bar, format_list, format_list_with, format_show, format_show_with, human_duration,
    started_local, status_cell,
    ListStyle, Rgb,
};
use recover::text::strip_ansi;

fn ts(y: i32, mo: u32, d: u32, h: u32, mi: u32, s: u32) -> Timestamp {
    let t = chrono::Utc.with_ymd_and_hms(y, mo, d, h, mi, s).unwrap();
    Timestamp { secs: t.timestamp(), nanos: 0 }
}

fn run_with(duration_ms: i64, exit: Option<i32>, signal: Option<&str>) -> Run {
    Run {
        id: 1,
        command: "x".into(),
        output: Vec::new(),
        exit_code: exit,
        signal: signal.map(|s| s.to_string()),
        started_at: ts(2026, 9, 19, 12, 0, 0),
        finished_at: ts(2026, 9, 19, 12, 0, 0),
        duration_ms,
        cwd: None,
        host: None,
        shell: None,
        comment: None,
    }
}

#[test]
fn durations_are_compact() {
    assert_eq!(human_duration(350), "350ms");
    assert_eq!(human_duration(1200), "1.2s");
    assert_eq!(human_duration(1000), "1.0s");
    assert_eq!(human_duration(123_000), "2m3s");
    assert_eq!(human_duration(3_840_000), "1h4m");
}

#[test]
fn durations_round_like_f64_formatting() {
    for ms in [1050i64, 1150, 1250, 1350, 1750, 2050, 9950, 59_999, 31_250, 45_650] {
        assert_eq!(human_duration(ms), format!("{:.1}s", ms as f64 / 1000.0), "ms = {ms}");
    }
    assert_eq!(human_duration(-5), "-5ms");
    assert_eq!(human_duration(59_999), "60.0s");
    assert_eq!(human_duration(60_000), "1m0s");
    assert_eq!(human_duration(3_600_000), "1h0m");
}

#[test]
fn status_shows_exit_signal_or_dash() {
    assert_eq!(status_cell(&run_with(0, Some(0), None)), "0");
    assert_eq!(status_cell(&run_with(0, Some(101), None)), "101");
    assert_eq!(status_cell(&run_with(0, None, Some("Terminated"))), "Terminated");
    assert_eq!(status_cell(&run_with(0, None, None)), "-");
    assert_eq!(status_cell(&run_with(0, Some(-3), None)), "-3");
}

fn run_n(id: i64, command: &str) -> Run {
    let mut r = run_with(10, Some(0), None);
    r.id = id;
    r.command = command.to_string();
    r
}

fn visible_len(line: &str) -> usize {
    String::from_utf8_lossy(&strip_ansi(line.as_bytes())).chars().count()
}

fn navy() -> ListStyle {
    ListStyle { bar_bg: Rgb { r: 0, g: 0, b: 0x5f }, header: None }
}

#[test]
fn rgb_parses_hex_forms() {
    assert_eq!(Rgb::parse_hex("#00005f").unwrap(), Rgb { r: 0, g: 0, b: 0x5f });
    assert_eq!(Rgb::parse_hex("ff8800").unwrap(), Rgb { r: 255, g: 136, b: 0 });
    assert!(Rgb::parse_hex("#zzzzzz").is_err());
    assert!(Rgb::parse_hex("#fff").is_err());
}

#[test]
fn rgb_hex_edge_cases() {
    assert_eq!(Rgb::parse_hex("  #A0b1C2 ").unwrap(), Rgb { r: 0xa0, g: 0xb1, b: 0xc2 });
    assert_eq!(Rgb::parse_hex("##000000").unwrap_err(), "invalid hex color `##000000` (expected #rrggbb)");
    assert!(Rgb::parse_hex("").is_err());
    assert!(Rgb::parse_hex("éééééé").is_err());
}

#[test]
fn escape_sequences_and_lightness() {
    let c = Rgb { r: 1, g: 22, b: 255 };
    assert_eq!(c.bg(), "\x1b[48;2;1;22;255m");
    assert_eq!(c.fg(), "\x1b[38;2;1;22;255m");
    assert!(Rgb { r: 255, g: 255, b: 255 }.is_light());
    assert!(!Rgb { r: 0, g: 0, b: 0x33 }.is_light());
    assert_eq!(default_bar(), Rgb { r: 0, g: 0, b: 0x33 });
    for r in (0..=255u16).step_by(5) {
        for g in (0..=255u16).step_by(5) {
            for b in [0u16, 1, 17, 128, 200, 255] {
                let c = Rgb { r: r as u8, g: g as u8, b: b as u8 };
                let l = 0.299 * c.r as f32 + 0.587 * c.g as f32 + 0.114 * c.b as f32;
                assert_eq!(c.is_light(), l > 140.0, "{r} {g} {b}");
            }
        }
    }
}

#[test]
fn plain_list_has_no_ansi_and_full_command() {
    let out = format_list(&[run_n(1, "echo hello world")], None, 100);
    assert!(!out.contains('\x1b'), "plain output must not contain ANSI");
    assert!(out.contains("echo hello world"));
}

#[test]
fn colored_list_stripes_every_other_row() {
    let runs = [run_n(3, "c"), run_n(2, "b"), run_n(1, "a")];
    let style = navy();
    let out = format_list(&runs, Some(&style), 80);
    assert_eq!(out.matches(&style.bar_bg.bg()).count(), 1, "one of three rows should be striped");
    assert!(out.contains("\x1b[1m"), "header should be bold");
}

#[test]
fn colored_list_truncates_to_width() {
    let long = "x".repeat(200);
    let style = navy();
    let out = format_list(&[run_n(1, &long), run_n(2, &long)], Some(&style), 60);
    for line in out.lines() {
        assert!(visible_len(line) <= 60, "line exceeds width: {}", visible_len(line));
    }
}

#[test]
fn colored_list_shows_comment_when_space_allows() {
    let mut r = run_n(1, "echo test");
    r.comment = Some("testing".into());
    let style = navy();
    let out = format_list(&[r], Some(&style), 100);
    assert!(out.contains("# testing"), "should append the comment: {out}");
}

#[test]
fn colored_list_hides_comment_when_command_fills_width() {
    let mut r = run_n(1, &"x".repeat(200));
    r.comment = Some("note".into());
    let style = navy();
    let out = format_list(&[r], Some(&style), 60);
    assert!(!out.contains("# note"), "no room for a comment at width 60");
}

#[test]
fn plain_list_omits_comments() {
    let mut r = run_n(1, "echo test");
    r.comment = Some("testing".into());
    let out = format_list(&[r], None, 100);
    assert!(!out.contains("testing"), "piped/plain output stays command-only");
}

#[test]
fn custom_header_color_appears() {
    let style = ListStyle { bar_bg: Rgb { r: 0, g: 0, b: 0x5f }, header: Some(Rgb { r: 255, g: 0, b: 0 }) };
    let out = format_list(&[run_n(1, "a")], Some(&style), 80);
    assert!(out.contains(&Rgb { r: 255, g: 0, b: 0 }.fg()), "header color should be applied");
}

#[test]
fn plain_list_layout_is_exact() {
    let mut r = run_n(7, "make\r\nsecond line");
    r.duration_ms = 1500;
    r.exit_code = Some(2);
    let out = format_list_with(&[r], &["2026-09-19 14:00".to_string()], None, 100);
    assert_eq!(
        out,
        "   ID  STARTED               DUR    EXIT  COMMAND\n    7  2026-09-19 14:00     1.5s       2  make\n"
    );
}

#[test]
fn styled_row_pads_and_cuts() {
    let mut r = run_n(12, "abcdefghijklmnopqrstuvwxyz");
    r.comment = Some("  note  ".into());
    let style = navy();
    let runs = [run_n(1, "a"), r];
    let started = vec!["S".to_string(), "S".to_string()];
    let out = format_list_with(&runs, &started, Some(&style), 50);
    let lines: Vec<&str> = out.lines().collect();
    assert_eq!(lines[0], "\x1b[1m   ID  STARTED               DUR    EXIT  COMMAND\x1b[0m");
    assert_eq!(lines[1], "    1  S                    10ms       0  a       ");
    // 42 columns of prefix leave the minimum of 8 for the command, which is cut.
    assert_eq!(
        lines[2],
        "\x1b[48;2;0;0;95m\x1b[38;2;255;255;255m   12  S                    10ms       0  abcdefg…\x1b[0m"
    );
}

#[test]
fn show_lists_fields_and_decoded_output() {
    let mut r = run_n(5, "echo hi");
    r.output = b"\x1b[32mhi\x1b[0m\r\n".to_vec();
    r.cwd = Some("/tmp".into());
    r.comment = Some("note".into());
    let out = format_show_with(&r, "2026-09-19 14:00");
    assert_eq!(
        out,
        "id:       5\ncommand:  echo hi\nstarted:  2026-09-19 14:00\nduration: 10ms\nstatus:   0\ncwd:      /tmp\ncomment:  note\noutput:\nhi\n"
    );
}

fn assert_start_shape(s: &str) {
    let n = s.chars().count();
    assert!((16..=19).contains(&n), "start text {s:?}");
    assert!(s.chars().all(|c| c.is_ascii_digit() || "-+ :".contains(c)), "start text {s:?}");
}

#[test]
fn start_times_have_the_timestamp_shape() {
    let mut r = run_with(0, Some(0), None);
    assert_start_shape(&started_local(&r));
    r.started_at = Timestamp { secs: 0, nanos: 0 };
    assert_start_shape(&started_local(&r));
    r.started_at = Timestamp { secs: 300_000_000_000, nanos: 0 };
    assert_start_shape(&started_local(&r));
    r.started_at = Timestamp { secs: -100_000_000_000, nanos: 0 };
    assert_start_shape(&started_local(&r));
    let show = format_show(&run_with(0, Some(0), None));
    assert!(show.starts_with("id:       1\ncommand:  x\nstarted:  "));
    assert!(!show.contains('\x1b'));
}

#[test]
fn written_colours_read_back() {
    for (r, g, b) in [(0u8, 0u8, 0u8), (255, 136, 0), (10, 171, 205)] {
        let lower = format!("#{:02x}{:02x}{:02x}", r, g, b);
        let upper = format!("{:02X}{:02X}{:02X}", r, g, b);
        assert_eq!(Rgb::parse_hex(&lower), Ok(Rgb { r, g, b }));
        assert_eq!(Rgb::parse_hex(&upper), Ok(Rgb { r, g, b }));
        assert_eq!(Rgb::parse_hex(&format!("  {upper}\t")), Ok(Rgb { r, g, b }));
    }
}
