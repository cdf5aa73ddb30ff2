use textutils::errors::UtilError;
use textutils::wc::accumulate;
use textutils::wc::count_content;
use textutils::wc::count_line;
use textutils::wc::count_words;
use textutils::wc::format_result;
use textutils::wc::parse_arguments;
use textutils::wc::parse_option;
use textutils::wc::process_stdin;
use textutils::wc::CountResult;
use textutils::wc::WcOptions;

#[test]
fn whole_buffer_counts_words_lines_chars() {
    let r = count_content("a b\nc");
    assert_eq!(r.words, 3);
    assert_eq!(r.lines, 2);
    assert_eq!(r.chars, 5);
    assert_eq!(r.bytes, 5);
    assert_eq!(r.max_line_length, 3);
}

#[test]
fn whole_buffer_trailing_terminator_adds_a_line() {
    let r = count_content("a\n");
    assert_eq!(r.lines, 2);
    assert_eq!(r.chars, 2);
}

#[test]
fn whole_buffer_empty_input_is_all_zero() {
    let r = count_content("");
    assert_eq!(r, CountResult::default());
}

#[test]
fn whole_buffer_counts_unicode_chars_and_bytes_apart() {
    let r = count_content("héllo");
    assert_eq!(r.chars, 5);
    assert_eq!(r.bytes, 6);
}

#[test]
fn word_count_ignores_repeated_whitespace() {
    assert_eq!(count_words("  a   b\t\tc  "), 3);
    assert_eq!(count_words(""), 0);
    assert_eq!(count_words(" \t "), 0);
}

#[test]
fn streaming_mode_charges_a_terminator_to_every_line() {
    let mut r = CountResult::default();
    count_line(&mut r, "a b");
    count_line(&mut r, "c");
    assert_eq!(r.lines, 2);
    assert_eq!(r.words, 3);
    assert_eq!(r.chars, 6);
    assert_eq!(r.bytes, 6);
    assert_eq!(r.max_line_length, 3);
}

#[test]
fn accumulate_adds_fields_and_takes_max_of_line_length() {
    let mut total = CountResult { lines: 1, words: 2, chars: 3, bytes: 4, max_line_length: 9 };
    let part = CountResult { lines: 10, words: 20, chars: 30, bytes: 40, max_line_length: 5 };
    accumulate(&mut total, &part);
    assert_eq!(total, CountResult { lines: 11, words: 22, chars: 33, bytes: 44, max_line_length: 9 });
}

#[test]
fn words_only_row_shows_one_field() {
    let o = WcOptions { show_words: true, ..WcOptions::default() };
    let row = process_stdin("Hello World", &o);
    assert_eq!(row, "      2");
}

#[test]
fn chars_flag_wins_over_bytes_flag() {
    let o = WcOptions { show_chars: true, show_bytes: true, ..WcOptions::default() };
    let row = process_stdin("héllo", &o);
    assert_eq!(row, "      5");
}

#[test]
fn row_carries_the_source_label() {
    let r = CountResult { lines: 10, words: 50, chars: 200, bytes: 200, max_line_length: 80 };
    let o = WcOptions {
        show_lines: true,
        show_words: true,
        show_bytes: true,
        ..WcOptions::default()
    };
    let row = format_result(&r, &o, Some("file.txt"));
    assert_eq!(row, "     10      50     200 file.txt");
}

#[test]
fn default_flags_are_lines_words_bytes() {
    let (o, files) = parse_arguments(&vec![String::from("f.txt")]).unwrap();
    assert!(o.show_lines && o.show_words && o.show_bytes);
    assert!(!o.show_chars && !o.show_max_line_length);
    assert_eq!(files, vec!["f.txt"]);
}

#[test]
fn explicit_flag_suppresses_defaults() {
    let (o, _) = parse_arguments(&vec![String::from("-L")]).unwrap();
    assert!(o.show_max_line_length);
    assert!(!o.show_lines && !o.show_words && !o.show_bytes);
}

#[test]
fn combined_counting_flags_expand() {
    let (o, files) = parse_arguments(&vec![String::from("-lwc"), String::from("a"), String::from("b")])
        .unwrap();
    assert!(o.show_lines && o.show_words && o.show_bytes);
    assert_eq!(files, vec!["a", "b"]);
}

#[test]
fn unknown_option_is_an_error() {
    let r = parse_arguments(&vec![String::from("-z")]);
    assert_eq!(r.unwrap_err(), UtilError::InvalidOption(String::from("-z")));
}

#[test]
fn unknown_char_inside_combination_is_an_error() {
    let mut o = WcOptions::default();
    let r = parse_option("-lz", &mut o);
    assert_eq!(r.unwrap_err(), UtilError::InvalidOption(String::from("-z")));
    assert!(o.show_lines);
}

#[test]
fn files0_from_operand_is_recorded() {
    let (o, files) = parse_arguments(&vec![String::from("--files0-from=list.txt")]).unwrap();
    assert_eq!(o.files0_from.as_deref(), Some("list.txt"));
    assert!(files.is_empty());
}

#[test]
fn max_line_length_row() {
    let o = WcOptions { show_max_line_length: true, ..WcOptions::default() };
    let row = process_stdin("ab\nlongest\ncd", &o);
    assert_eq!(row, "      7");
}
