use textutils::escape::unescape;

#[test]
fn decode_newline() {
    assert_eq!(unescape("\\n"), "\n");
}

#[test]
fn decode_tab_cr_vt_bell() {
    assert_eq!(unescape("\\t"), "\t");
    assert_eq!(unescape("\\r"), "\r");
    assert_eq!(unescape("\\v"), "\u{b}");
    assert_eq!(unescape("\\a"), "\u{7}");
}

#[test]
fn decode_double_backslash() {
    assert_eq!(unescape("\\\\"), "\\");
}

#[test]
fn decode_hex_pair() {
    assert_eq!(unescape("\\x41"), "A");
}

#[test]
fn decode_hex_lowercase_digits() {
    assert_eq!(unescape("\\x6a"), "j");
}

#[test]
fn decode_unknown_escape_keeps_following_char() {
    assert_eq!(unescape("\\q"), "q");
}

#[test]
fn decode_lone_trailing_backslash() {
    assert_eq!(unescape("\\"), "\\");
}

#[test]
fn decode_invalid_hex_drops_whole_escape() {
    assert_eq!(unescape("\\xzz"), "");
    assert_eq!(unescape("a\\xzzb"), "ab");
}

#[test]
fn decode_single_hex_digit_at_end() {
    assert_eq!(unescape("\\xA"), "\n");
}

#[test]
fn decode_bare_x_escape_at_end() {
    assert_eq!(unescape("\\x"), "");
}

#[test]
fn decode_mixed_text() {
    assert_eq!(unescape("Hello\\nWorld"), "Hello\nWorld");
    assert_eq!(unescape("col1\\tcol2"), "col1\tcol2");
}

#[test]
fn decode_plain_text_is_unchanged() {
    assert_eq!(unescape("plain text"), "plain text");
}
