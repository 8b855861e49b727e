use ci_tool::gitutils::{current_branch, revision_range, trimmed_output};
use ci_tool::{get_vec, sum, sum_generic};

#[test]
fn detached_head_has_no_branch() {
    assert_eq!(current_branch("HEAD\n"), None);
    assert_eq!(current_branch("  main \n"), Some("main".to_string()));
}

#[test]
fn output_is_trimmed() {
    assert_eq!(trimmed_output("  d0aec01\n"), "d0aec01");
    assert_eq!(trimmed_output(" \t\n"), "");
}

#[test]
fn range_from_ancestor_to_dev() {
    assert_eq!(revision_range("abc", "feature"), "abc..feature");
}

#[test]
fn small_helpers() {
    assert_eq!(sum(2, 3), 5);
    assert_eq!(sum_generic(2u64, 40u64), 42);
    assert!(get_vec().is_empty());
}
