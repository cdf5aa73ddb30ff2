use textutils::tokenize::parse_command_line;

#[test]
fn tokenize_empty_line_yields_no_tokens() {
    let toks = parse_command_line("");
    assert!(toks.is_empty());
}

#[test]
fn tokenize_blank_line_yields_no_tokens() {
    let toks = parse_command_line("  \t  ");
    assert!(toks.is_empty());
}

#[test]
fn tokenize_splits_on_unquoted_whitespace() {
    let toks = parse_command_line("cat -n file.txt");
    assert_eq!(toks, vec!["cat", "-n", "file.txt"]);
}

#[test]
fn tokenize_keeps_quoted_whitespace_verbatim() {
    let toks = parse_command_line("cat -A \"file with  spaces.txt\"");
    assert_eq!(toks, vec!["cat", "-A", "file with  spaces.txt"]);
}

#[test]
fn tokenize_balanced_quotes_leave_no_quote_in_tokens() {
    let toks = parse_command_line("say \"hello world\" now");
    assert_eq!(toks, vec!["say", "hello world", "now"]);
    for t in &toks {
        assert!(!t.contains('"'));
    }
}

#[test]
fn tokenize_escaped_quote_is_literal() {
    let toks = parse_command_line("a \\\"b");
    assert_eq!(toks, vec!["a", "\"b"]);
}

#[test]
fn tokenize_escaped_backslash_is_literal() {
    let toks = parse_command_line("a\\\\b");
    assert_eq!(toks, vec!["a\\b"]);
}

#[test]
fn tokenize_backslash_before_ordinary_char_is_kept() {
    let toks = parse_command_line("a\\nb");
    assert_eq!(toks, vec!["a\\nb"]);
}

#[test]
fn tokenize_trailing_backslash_is_kept() {
    let toks = parse_command_line("abc\\");
    assert_eq!(toks, vec!["abc\\"]);
}

#[test]
fn tokenize_unterminated_quote_is_lenient() {
    let toks = parse_command_line("\"abc def");
    assert_eq!(toks, vec!["abc def"]);
}

#[test]
fn tokenize_adjacent_quotes_join_one_token() {
    let toks = parse_command_line("ab\"cd ef\"gh");
    assert_eq!(toks, vec!["abcd efgh"]);
}

#[test]
fn roundtrip_plain_tokens_through_join() {
    let original = vec!["alpha", "beta-2", "gamma_x"];
    let joined = original.join(" ");
    let toks = parse_command_line(&joined);
    assert_eq!(toks, original);
}
