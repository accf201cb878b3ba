use jupytext::compare::{compare, is_blank_line, multilines, same_content, unified_diff};

#[test]
fn compare_test_compare_identical_strings() {
    let result = compare("hello\nworld", "hello\nworld", "a", "b", true).unwrap();
    assert!(result.is_empty());
}

#[test]
fn compare_test_compare_different_strings() {
    let result = compare("hello\nworld", "hello\nearth", "a", "b", true).unwrap();
    assert!(!result.is_empty());
    assert!(result.contains("-earth"));
    assert!(result.contains("+world"));
}

#[test]
fn compare_test_compare_raises_on_diff() {
    let result = compare("hello", "world", "a", "b", false);
    assert!(result.is_err());
}

#[test]
fn unit_tests_test_compare_identical_strings() {
    let result = compare("hello\nworld", "hello\nworld", "a", "b", true).unwrap();
    assert!(result.is_empty());
}

#[test]
fn unit_tests_test_compare_different_strings() {
    let result = compare("hello\nworld", "hello\nearth", "a", "b", true).unwrap();
    assert!(!result.is_empty());
}

#[test]
fn unit_tests_test_compare_raises_on_diff() {
    let result = compare("hello", "world", "a", "b", false);
    assert!(result.is_err());
}

#[test]
fn test_same_content_identical() {
    assert!(same_content("a\nb", "a\nb", false));
}

#[test]
fn test_same_content_trailing_blank() {
    assert!(same_content("a\nb\n", "a\nb", true));
    assert!(!same_content("a\nb\n", "a\nb", false));
}

#[test]
fn test_multilines_trailing_newline() {
    let lines = multilines("a\nb\n");
    assert_eq!(lines, vec!["a", "b", ""]);
}

#[test]
fn test_multilines_no_trailing() {
    let lines = multilines("a\nb");
    assert_eq!(lines, vec!["a", "b"]);
}

#[test]
fn compare_diff_text_exactly() {
    let result = compare("hello\nworld", "hello\nearth", "a", "b", true).unwrap();
    assert_eq!(result, "--- b\n+++ a\n hello\n-earth\n+world");
    let err = compare("x", "y", "", "", false).unwrap_err();
    assert_eq!(err.message, "\n-y\n+x");
}

#[test]
fn unified_diff_with_unequal_lengths() {
    let expected = vec!["a".to_string()];
    let actual = vec!["a".to_string(), "b".to_string()];
    assert_eq!(unified_diff(&expected, &actual, "", ""), " a\n+b");
}

#[test]
fn same_content_with_extra_blank_line_on_either_side() {
    assert!(same_content("a", "a\n  ", true));
    assert!(!same_content("a\nx", "a", true));
    assert!(is_blank_line(" \t"));
    assert!(!is_blank_line(" x"));
}

#[test]
fn compare_reports_every_difference() {
    assert_eq!(compare("same\n", "same\n", "a", "b", true).unwrap(), "");
    assert_eq!(compare("", "x", "", "", true).unwrap(), "-x");
    assert_eq!(compare("x\n", "x", "", "", true).unwrap(), " x\n ");
    let d = compare("x\n", "x", "", "", true).unwrap();
    assert!(!d.is_empty());
    let e = compare("x\n", "x", "", "", false).unwrap_err();
    assert_eq!(e.message, format!("\n{}", d));
}
