use jupytext::combine::{black_invariant, same_content};

#[test]
fn test_black_invariant() {
    assert_eq!(black_invariant("a = 1"), "a=1");
    assert_eq!(black_invariant("print( 'hello' )"), "printhello");
}

#[test]
fn test_same_content_exact() {
    assert!(same_content("a = 1", "a = 1", false));
    assert!(!same_content("a = 1", "b = 2", false));
}

#[test]
fn test_same_content_black_invariant() {
    assert!(same_content("a = 1", "a=1", false));
    assert!(same_content("print('hello')", "print(\"hello\")", false));
}

#[test]
fn test_same_content_endswith() {
    assert!(same_content("line1\nline2", "line2", true));
    assert!(!same_content("line1\nline2", "line3", true));
}

#[test]
fn same_content_endswith_empty_test_needs_equality() {
    assert!(!same_content("x", " ", true));
    assert!(same_content(" ", "\n", true));
    assert_eq!(black_invariant("f(a,\n  b)\\"), "fab");
}

use jupytext::combine::map_outputs_to_inputs;
use jupytext::notebook::CellType;

fn code(s: &str) -> (CellType, String) {
    (CellType::Code, s.to_string())
}

fn markdown(s: &str) -> (CellType, String) {
    (CellType::Markdown, s.to_string())
}

#[test]
fn test_map_outputs_exact_match() {
    let inputs = vec![code("a = 1"), markdown("# Title"), code("b = 2")];
    let outputs = vec![code("a = 1"), markdown("# Title"), code("b = 2")];
    let mapping = map_outputs_to_inputs(&inputs, &outputs);
    assert_eq!(mapping, vec![Some(0), Some(1), Some(2)]);
}

#[test]
fn test_map_outputs_reordered() {
    let inputs = vec![code("a = 1"), code("b = 2")];
    let outputs = vec![code("b = 2"), code("a = 1")];
    let mapping = map_outputs_to_inputs(&inputs, &outputs);
    assert_eq!(mapping, vec![Some(1), Some(0)]);
}

#[test]
fn test_map_outputs_extra_input() {
    let inputs = vec![code("a = 1"), code("new cell"), code("b = 2")];
    let outputs = vec![code("a = 1"), code("b = 2")];
    let mapping = map_outputs_to_inputs(&inputs, &outputs);
    assert_eq!(mapping[0], Some(0));
    assert_eq!(mapping[1], None);
    assert_eq!(mapping[2], Some(1));
}

#[test]
fn map_outputs_by_suffix_and_by_index() {
    // Rule 3: the output ends with the input's content.
    let inputs = vec![code("x = 1")];
    let outputs = vec![code("import os\nx = 1")];
    assert_eq!(map_outputs_to_inputs(&inputs, &outputs), vec![Some(0)]);
    // Rule 4: the next output, same type, for a non-blank input.
    let inputs = vec![code("a = 1"), code("edited"), markdown("  ")];
    let outputs = vec![code("a = 1"), code("original"), markdown("text")];
    assert_eq!(map_outputs_to_inputs(&inputs, &outputs), vec![Some(0), Some(1), None]);
    // Cells of another type never match.
    let inputs = vec![markdown("a = 1")];
    let outputs = vec![code("a = 1")];
    assert_eq!(map_outputs_to_inputs(&inputs, &outputs), vec![None]);
}
