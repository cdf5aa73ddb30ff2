use textutils::cat::apply_options;
use textutils::cat::number_lines;
use textutils::cat::number_nonblank_lines;
use textutils::cat::show_ends;
use textutils::cat::show_nonprinting_chars;
use textutils::cat::show_tabs;
use textutils::cat::squeeze_blank_lines;
use textutils::cat::CatOptions;

#[test]
fn numbering_two_lines() {
    let o = CatOptions { number: true, ..CatOptions::default() };
    let out = apply_options("Ligne1\nLigne2", &o);
    assert_eq!(out, "     1\tLigne1\n     2\tLigne2");
}

#[test]
fn squeeze_collapses_blank_runs() {
    let o = CatOptions { squeeze_blank: true, ..CatOptions::default() };
    let out = apply_options("a\n\n\n\nb", &o);
    assert_eq!(out, "a\n\nb");
}

#[test]
fn squeeze_counts_whitespace_only_lines_as_blank() {
    assert_eq!(squeeze_blank_lines("a\n \n\t\nb"), "a\n \nb");
}

#[test]
fn tabs_render_once_when_both_flags_are_set() {
    let o = CatOptions { show_tabs: true, show_nonprinting: true, ..CatOptions::default() };
    let out = apply_options("a\tb", &o);
    assert_eq!(out, "a^Ib");
    assert!(!out.contains('\t'));
}

#[test]
fn show_tabs_alone_marks_tabs() {
    assert_eq!(show_tabs("a\tb\tc"), "a^Ib^Ic");
}

#[test]
fn show_ends_marks_every_line() {
    assert_eq!(show_ends("a\nb"), "a$\nb$");
}

#[test]
fn nonprinting_renders_control_characters() {
    let out = show_nonprinting_chars("\u{1}x\u{7f}", false, false);
    assert_eq!(out, "^Ax^?");
}

#[test]
fn nonprinting_keeps_tabs_unless_asked() {
    assert_eq!(show_nonprinting_chars("a\tb", false, false), "a\tb");
    assert_eq!(show_nonprinting_chars("a\tb", true, false), "a^Ib");
}

#[test]
fn nonprinting_appends_dollar_when_asked() {
    assert_eq!(show_nonprinting_chars("a\nb", false, true), "a$\nb$");
}

#[test]
fn number_nonblank_skips_blank_lines() {
    let out = number_nonblank_lines("a\n\nb");
    assert_eq!(out, "     1\ta\n\n     2\tb");
}

#[test]
fn number_nonblank_wins_over_number() {
    let o = CatOptions { number: true, number_nonblank: true, ..CatOptions::default() };
    let out = apply_options("x\n\ny", &o);
    assert_eq!(out, "     1\tx\n\n     2\ty");
}

#[test]
fn number_lines_numbers_blank_lines_too() {
    assert_eq!(number_lines("a\n\nb"), "     1\ta\n     2\t\n     3\tb");
}

#[test]
fn stages_compose_in_fixed_order() {
    let o = CatOptions {
        squeeze_blank: true,
        show_ends: true,
        number: true,
        ..CatOptions::default()
    };
    let out = apply_options("a\n\n\nb", &o);
    assert_eq!(out, "     1\ta$\n     2\t$\n     3\tb$");
}

#[test]
fn empty_input_stays_empty() {
    let o = CatOptions { show_ends: true, show_tabs: true, ..CatOptions::default() };
    assert_eq!(apply_options("", &o), "");
}
