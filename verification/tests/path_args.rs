use textutils::ls;
use textutils::rm;

fn strings(items: &[&str]) -> Vec<String> {
    items.iter().map(|s| String::from(*s)).collect()
}

#[test]
fn ls_without_arguments_has_no_target() {
    let (recursive, target) = ls::parse_arguments(&strings(&[]));
    assert!(!recursive);
    assert_eq!(target, None);
}

#[test]
fn ls_takes_the_last_argument_as_target() {
    let (recursive, target) = ls::parse_arguments(&strings(&["a", "b"]));
    assert!(!recursive);
    assert_eq!(target.as_deref(), Some("b"));
}

#[test]
fn rm_detects_the_recursive_flag() {
    let (recursive, target) = rm::parse_arguments(&strings(&["-r", "dir"]));
    assert!(recursive);
    assert_eq!(target.as_deref(), Some("dir"));
}

#[test]
fn rm_flag_position_does_not_matter() {
    let (recursive, target) = rm::parse_arguments(&strings(&["x", "-r"]));
    assert!(recursive);
    assert_eq!(target.as_deref(), Some("x"));
}

#[test]
fn rm_without_flag_is_not_recursive() {
    let (recursive, target) = rm::parse_arguments(&strings(&["file.txt"]));
    assert!(!recursive);
    assert_eq!(target.as_deref(), Some("file.txt"));
}

#[test]
fn rm_with_only_the_flag_has_no_target() {
    let (recursive, target) = rm::parse_arguments(&strings(&["-r"]));
    assert!(recursive);
    assert_eq!(target, None);
}
