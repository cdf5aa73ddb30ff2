use textutils::cat;
use textutils::errors::UtilError;
use textutils::wc;

#[test]
fn cat_pipe_numbers_echoed_text() {
    let out = cat::process_piped_command("echo \"Bonjour le monde\" | cat -n").unwrap();
    assert_eq!(out, "     1\tBonjour le monde");
}

#[test]
fn cat_pipe_decodes_escapes_before_transforming() {
    let out = cat::process_piped_command("echo a\\nb | cat -E").unwrap();
    assert_eq!(out, "a$\nb$");
}

#[test]
fn cat_pipe_joins_echo_words_with_single_spaces() {
    let out = cat::process_piped_command("echo one   two | cat").unwrap();
    assert_eq!(out, "one two");
}

#[test]
fn cat_pipe_without_pipe_is_a_syntax_error() {
    let r = cat::process_piped_command("echo hello");
    assert_eq!(r.unwrap_err(), UtilError::SyntaxError);
}

#[test]
fn cat_pipe_with_two_pipes_is_a_syntax_error() {
    let r = cat::process_piped_command("echo a | cat | cat");
    assert_eq!(r.unwrap_err(), UtilError::SyntaxError);
}

#[test]
fn cat_pipe_left_side_must_be_echo() {
    let r = cat::process_piped_command("print a | cat");
    assert_eq!(r.unwrap_err(), UtilError::SyntaxError);
}

#[test]
fn cat_pipe_right_side_must_be_cat() {
    let r = cat::process_piped_command("echo a | dog -n");
    assert_eq!(r.unwrap_err(), UtilError::SyntaxError);
}

#[test]
fn wc_pipe_counts_echoed_words() {
    let out = wc::process_piped_command("echo Hello World | wc -w").unwrap();
    assert_eq!(out, "      2");
}

#[test]
fn wc_pipe_default_row_is_lines_words_bytes() {
    let out = wc::process_piped_command("echo hi | wc").unwrap();
    assert_eq!(out, "      1       1       2");
}

#[test]
fn wc_pipe_counts_decoded_newlines() {
    let out = wc::process_piped_command("echo a\\nb | wc -l").unwrap();
    assert_eq!(out, "      2");
}

#[test]
fn wc_pipe_rejects_unknown_option() {
    let r = wc::process_piped_command("echo a | wc -z");
    assert_eq!(r.unwrap_err(), UtilError::InvalidOption(String::from("-z")));
}

#[test]
fn wc_pipe_malformed_shape_is_a_syntax_error() {
    let r = wc::process_piped_command("echo a | ls");
    assert_eq!(r.unwrap_err(), UtilError::SyntaxError);
}
