use recover::text::{decode_lossy_stripped, normalize_newlines, strip_ansi};

#[test]
fn strips_ansi_and_normalizes_crlf() {
    let raw = b"\x1b[31mline1\x1b[0m\r\nline2\r\n";
    assert_eq!(decode_lossy_stripped(raw), "line1\nline2\n");
}

#[test]
fn keeps_bytes_when_plain() {
    assert_eq!(decode_lossy_stripped(b"just text"), "just text");
}

#[test]
fn crlf_becomes_lf_left_to_right() {
    assert_eq!(normalize_newlines("a\r\r\nb\r\n\n"), "a\r\nb\n\n");
    assert_eq!(normalize_newlines("\r"), "\r");
    assert_eq!(normalize_newlines(""), "");
}

#[test]
fn strip_removes_color_codes_only() {
    assert_eq!(strip_ansi(b"\x1b[1mbold\x1b[0m text\n"), b"bold text\n".to_vec());
}

#[test]
fn invalid_utf8_becomes_replacement_character() {
    assert_eq!(decode_lossy_stripped(b"hi\xff\n"), "hi\u{FFFD}\n");
}

#[test]
fn no_carriage_return_survives() {
    let s = decode_lossy_stripped(b"a\r\r\nb\rc\r\n");
    assert!(!s.contains('\r'));
    assert_eq!(s, "a\nbc\n");
    assert!(strip_ansi(b"x\ry\r\n").iter().all(|&b| b != 13));
}
