use textutils::cat::parse_arguments;
use textutils::cat::parse_option;
use textutils::cat::CatOptions;

#[test]
fn combined_flags_equal_separate_flags() {
    let mut combined = CatOptions::default();
    parse_option("-vET", &mut combined);

    let mut separate = CatOptions::default();
    parse_option("-v", &mut separate);
    parse_option("-E", &mut separate);
    parse_option("-T", &mut separate);

    assert_eq!(combined, separate);
    assert!(combined.show_nonprinting && combined.show_ends && combined.show_tabs);
}

#[test]
fn show_all_implies_three_flags() {
    let mut o = CatOptions::default();
    parse_option("-A", &mut o);
    assert!(o.show_all && o.show_nonprinting && o.show_ends && o.show_tabs);
    let mut long = CatOptions::default();
    parse_option("--show-all", &mut long);
    assert_eq!(o, long);
}

#[test]
fn e_flag_implies_nonprinting_and_ends() {
    let mut o = CatOptions::default();
    parse_option("-e", &mut o);
    assert!(o.show_nonprinting && o.show_ends);
    assert!(!o.show_tabs && !o.show_all);
}

#[test]
fn long_forms_match_short_forms() {
    let mut short = CatOptions::default();
    parse_option("-b", &mut short);
    parse_option("-s", &mut short);
    let mut long = CatOptions::default();
    parse_option("--number-nonblank", &mut long);
    parse_option("--squeeze-blank", &mut long);
    assert_eq!(short, long);
}

#[test]
fn unknown_option_is_silently_ignored() {
    let mut o = CatOptions::default();
    parse_option("-z", &mut o);
    parse_option("--bogus", &mut o);
    assert_eq!(o, CatOptions::default());
}

#[test]
fn unknown_char_inside_combination_is_ignored() {
    let mut o = CatOptions::default();
    parse_option("-vZT", &mut o);
    assert!(o.show_nonprinting && o.show_tabs);
    assert!(!o.number && !o.show_ends);
}

#[test]
fn arguments_split_into_flags_and_file() {
    let args = vec![String::from("-n"), String::from("file.txt")];
    let (o, file) = parse_arguments(&args);
    assert!(o.number);
    assert_eq!(file.as_deref(), Some("file.txt"));
}

#[test]
fn first_non_option_argument_wins() {
    let args = vec![String::from("a.txt"), String::from("b.txt"), String::from("-n")];
    let (o, file) = parse_arguments(&args);
    assert!(o.number);
    assert_eq!(file.as_deref(), Some("a.txt"));
}
