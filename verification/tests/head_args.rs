use textutils::errors::UtilError;
use textutils::head::head_lines;
use textutils::head::parse_head_args;
use textutils::head::parse_usize;
use textutils::head::HeadArgs;

fn strings(items: &[&str]) -> Vec<String> {
    items.iter().map(|s| String::from(*s)).collect()
}

#[test]
fn no_arguments_is_a_missing_operand() {
    let r = parse_head_args(&strings(&[]));
    assert_eq!(r.unwrap_err(), UtilError::MissingArgument);
}

#[test]
fn bare_filename_defaults_to_ten_lines() {
    let h = parse_head_args(&strings(&["file.txt"])).unwrap();
    assert_eq!(
        h,
        HeadArgs { num_lines: 10, verbose: false, filename: String::from("file.txt") }
    );
}

#[test]
fn n_flag_sets_the_line_count() {
    let h = parse_head_args(&strings(&["-n", "5", "f.txt"])).unwrap();
    assert_eq!(h, HeadArgs { num_lines: 5, verbose: false, filename: String::from("f.txt") });
}

#[test]
fn n_flag_without_value_is_missing_argument() {
    assert_eq!(parse_head_args(&strings(&["-n"])).unwrap_err(), UtilError::MissingArgument);
    assert_eq!(parse_head_args(&strings(&["-n", "5"])).unwrap_err(), UtilError::MissingArgument);
}

#[test]
fn n_flag_with_bad_value_is_invalid_number() {
    let r = parse_head_args(&strings(&["-n", "abc", "f.txt"]));
    assert_eq!(r.unwrap_err(), UtilError::InvalidNumber);
}

#[test]
fn v_flag_is_verbose() {
    let h = parse_head_args(&strings(&["-v", "f.txt"])).unwrap();
    assert_eq!(h, HeadArgs { num_lines: 10, verbose: true, filename: String::from("f.txt") });
}

#[test]
fn v_flag_without_file_is_missing_argument() {
    assert_eq!(parse_head_args(&strings(&["-v"])).unwrap_err(), UtilError::MissingArgument);
}

#[test]
fn other_flags_are_invalid_options() {
    let r = parse_head_args(&strings(&["-x", "f.txt"]));
    assert_eq!(r.unwrap_err(), UtilError::InvalidOption(String::from("-x")));
}

#[test]
fn numeric_parse_accepts_plain_and_signed_forms() {
    assert_eq!(parse_usize("0").unwrap(), 0);
    assert_eq!(parse_usize("42").unwrap(), 42);
    assert_eq!(parse_usize("+7").unwrap(), 7);
}

#[test]
fn numeric_parse_rejects_garbage_and_overflow() {
    assert_eq!(parse_usize("").unwrap_err(), UtilError::InvalidNumber);
    assert_eq!(parse_usize("+").unwrap_err(), UtilError::InvalidNumber);
    assert_eq!(parse_usize("4x").unwrap_err(), UtilError::InvalidNumber);
    assert_eq!(parse_usize("-3").unwrap_err(), UtilError::InvalidNumber);
    assert_eq!(
        parse_usize("99999999999999999999999999999").unwrap_err(),
        UtilError::InvalidNumber
    );
}

#[test]
fn head_keeps_only_the_first_lines() {
    assert_eq!(head_lines("a\nb\nc\nd", 2), "a\nb");
    assert_eq!(head_lines("a\nb", 10), "a\nb");
    assert_eq!(head_lines("", 3), "");
    assert_eq!(head_lines("a\nb\nc", 0), "");
}
