use jupytext::pep8::pep8_lines_between_cells;

fn to_strings(lines: &[&str]) -> Vec<String> {
    lines.iter().map(|s| s.to_string()).collect()
}

#[test]
fn pep8_test_pep8_basic() {
    let prev = vec!["x = 1".to_string()];
    let next = vec!["y = 2".to_string()];
    assert_eq!(pep8_lines_between_cells(&prev, &next, ".py"), 1);
}

#[test]
fn pep8_test_pep8_function_after_code() {
    let prev = vec!["x = 1".to_string()];
    let next = vec!["def foo():".to_string(), "    pass".to_string()];
    assert_eq!(pep8_lines_between_cells(&prev, &next, ".py"), 2);
}

#[test]
fn pep8_test_pep8_non_python() {
    let prev = vec!["x = 1".to_string()];
    let next = vec!["y = 2".to_string()];
    assert_eq!(pep8_lines_between_cells(&prev, &next, ".jl"), 1);
}

#[test]
fn unit_tests_test_pep8_basic() {
    let prev = to_strings(&["x = 1"]);
    let next = to_strings(&["y = 2"]);
    assert_eq!(pep8_lines_between_cells(&prev, &next, ".py"), 1);
}

#[test]
fn unit_tests_test_pep8_function_after_code() {
    let prev = to_strings(&["a = a_long_instruction(", "    over_two_lines=True)"]);
    let next = to_strings(&["def f(x):", "    return x"]);
    assert_eq!(pep8_lines_between_cells(&prev, &next, ".py"), 2);
}

#[test]
fn test_pep8_function_before_code() {
    let prev = to_strings(&["def f(x):", "    return x"]);
    let next = to_strings(&["# A markdown cell", "", "# An instruction", "a = 5", ""]);
    assert_eq!(pep8_lines_between_cells(&prev, &next, ".py"), 2);
}

#[test]
fn test_pep8_function_before_markdown_only() {
    let prev = to_strings(&["def f(x):", "    return x"]);
    let next = to_strings(&["# A markdown cell", "", "# Only markdown here", "# And here", ""]);
    assert_eq!(pep8_lines_between_cells(&prev, &next, ".py"), 1);
}

#[test]
fn test_pep8_code_before_decorated_function() {
    let prev = to_strings(&["from jupytext.cell_to_text import RMarkdownCellExporter"]);
    let next = to_strings(&[
        "@pytest.mark.parametrize(",
        "    \"lines\",",
        "    [",
        "        \"# text\",",
        "    ],",
        ")",
        "def test_paragraph_is_fully_commented(lines):",
        "    pass",
    ]);
    assert_eq!(pep8_lines_between_cells(&prev, &next, ".py"), 2);
}

#[test]
fn unit_tests_test_pep8_non_python() {
    let prev = to_strings(&["x = 1"]);
    let next = to_strings(&["y = 2"]);
    assert_eq!(pep8_lines_between_cells(&prev, &next, ".jl"), 1);
}

#[test]
fn test_pep8_empty_next() {
    let prev = to_strings(&["x = 1"]);
    let next: Vec<String> = Vec::new();
    assert_eq!(pep8_lines_between_cells(&prev, &next, ".py"), 1);
}

#[test]
fn test_pep8_empty_prev() {
    let prev: Vec<String> = Vec::new();
    let next = to_strings(&["x = 1"]);
    assert_eq!(pep8_lines_between_cells(&prev, &next, ".py"), 0);
}

#[test]
fn test_pep8_class_ending() {
    let prev = to_strings(&[
        "class A:",
        "    __init__():",
        "    '''A docstring",
        "with two lines or more'''",
        "        self.a = 0",
        "",
    ]);
    let next = to_strings(&["# Some comment", "a = 5"]);
    assert_eq!(pep8_lines_between_cells(&prev, &next, ".py"), 2);
}
