use jupytext::compare::compare_notebooks;
use jupytext::notebook::{Cell, CellType, Notebook};
use jupytext::notebook_io::new_cell_of;

fn code(s: &str) -> Cell {
    new_cell_of(CellType::Code, s.to_string(), Vec::new())
}

fn markdown(s: &str) -> Cell {
    new_cell_of(CellType::Markdown, s.to_string(), Vec::new())
}

fn make_nb(cells: Vec<Cell>) -> Notebook {
    Notebook { nbformat: 4, nbformat_minor: 5, metadata: Vec::new(), cells }
}

#[test]
fn compare_test_compare_notebooks_identical() {
    let nb1 = make_nb(vec![code("a = 1"), markdown("# Hi")]);
    let nb2 = make_nb(vec![code("a = 1"), markdown("# Hi")]);
    let result = compare_notebooks(&nb1, &nb2, None, true, true);
    assert!(result.is_ok());
}

#[test]
fn test_compare_notebooks_different_source() {
    let nb1 = make_nb(vec![code("a = 1")]);
    let nb2 = make_nb(vec![code("b = 2")]);
    let result = compare_notebooks(&nb1, &nb2, None, true, true);
    assert!(result.is_err());
    assert!(result.unwrap_err().message.contains("Cell content differ"));
}

#[test]
fn compare_test_compare_notebooks_different_cell_count() {
    let nb1 = make_nb(vec![code("a = 1"), code("b = 2")]);
    let nb2 = make_nb(vec![code("a = 1")]);
    let result = compare_notebooks(&nb1, &nb2, None, true, true);
    assert!(result.is_err());
    assert!(result.unwrap_err().message.contains("Additional"));
}

#[test]
fn compare_test_compare_notebooks_different_cell_type() {
    let nb1 = make_nb(vec![code("text")]);
    let nb2 = make_nb(vec![markdown("text")]);
    let result = compare_notebooks(&nb1, &nb2, None, true, true);
    assert!(result.is_err());
}

#[test]
fn test_compare_notebooks_collect_all() {
    let nb1 = make_nb(vec![code("a = 1"), code("changed")]);
    let nb2 = make_nb(vec![code("a = 1"), code("original")]);
    let result = compare_notebooks(&nb1, &nb2, None, true, false);
    assert!(result.is_err());
    assert!(result.unwrap_err().message.contains("Cells"));
}

#[test]
fn unit_tests_test_compare_notebooks_identical() {
    let nb1 = make_nb(vec![code("1 + 1"), markdown("# Title")]);
    let nb2 = make_nb(vec![code("1 + 1"), markdown("# Title")]);
    let result = compare_notebooks(&nb1, &nb2, None, true, true);
    assert!(result.is_ok());
}

#[test]
fn unit_tests_test_compare_notebooks_different_cell_type() {
    let nb1 = make_nb(vec![code("text")]);
    let nb2 = make_nb(vec![markdown("text")]);
    let result = compare_notebooks(&nb1, &nb2, None, true, true);
    assert!(result.is_err());
}

#[test]
fn test_compare_notebooks_different_cell_content() {
    let nb1 = make_nb(vec![code("1 + 1")]);
    let nb2 = make_nb(vec![code("2 + 2")]);
    let result = compare_notebooks(&nb1, &nb2, None, true, true);
    assert!(result.is_err());
}

#[test]
fn unit_tests_test_compare_notebooks_different_cell_count() {
    let nb1 = make_nb(vec![code("1")]);
    let nb2 = make_nb(vec![code("1"), code("2")]);
    let result = compare_notebooks(&nb1, &nb2, None, true, true);
    assert!(result.is_err());
    let result = compare_notebooks(&nb2, &nb1, None, true, true);
    assert!(result.is_err());
}

#[test]
fn test_compare_notebooks_collect_all_differences() {
    let nb1 = make_nb(vec![code("a"), code("changed")]);
    let nb2 = make_nb(vec![code("a"), code("original")]);
    let result = compare_notebooks(&nb1, &nb2, None, true, false);
    assert!(result.is_err());
    let err = result.unwrap_err();
    assert!(err.message.contains("Cells"), "Error: {}", err.message);
}

#[test]
fn test_compare_notebooks_blank_line_removed() {
    let nb1 = make_nb(vec![code("1+1\n    ")]);
    let nb2 = make_nb(vec![code("1+1")]);
    let result = compare_notebooks(&nb2, &nb1, None, true, true);
    assert!(result.is_ok());
}

#[test]
fn test_compare_notebooks_strict_blank_line() {
    let nb1 = make_nb(vec![code("1+1\n")]);
    let nb2 = make_nb(vec![code("1+1")]);
    let result = compare_notebooks(&nb2, &nb1, None, false, true);
    assert!(result.is_err());
}

#[test]
fn test_compare_notebooks_multiple_cells_differ() {
    let nb1 = make_nb(vec![code(""), code("2")]);
    let nb2 = make_nb(vec![code("1+1"), code("2\n2")]);
    let result = compare_notebooks(&nb2, &nb1, None, true, false);
    assert!(result.is_err());
    let err = result.unwrap_err();
    assert!(err.message.contains("Cells"), "Error: {}", err.message);
}

#[test]
fn test_compare_notebooks_metadata_differ() {
    let nb1 = make_nb(vec![code("1"), code("2")]);
    let mut nb2 = make_nb(vec![code("1"), code("2")]);
    nb2.metadata = vec![(
        "kernelspec".to_string(),
        "{\"display_name\":\"Python\",\"language\":\"python\",\"name\":\"python\"}".to_string(),
    )];
    let result = compare_notebooks(&nb2, &nb1, None, true, false);
    assert!(result.is_err());
    let err = result.unwrap_err();
    assert!(err.message.contains("Notebook metadata differ"), "Error: {}", err.message);
}

#[test]
fn test_compare_notebooks_cell_metadata_differ() {
    let cell1 = new_cell_of(
        CellType::Code,
        "2".to_string(),
        vec![("additional".to_string(), "\"metadata1\"".to_string())],
    );
    let cell2 = new_cell_of(
        CellType::Code,
        "2".to_string(),
        vec![("additional".to_string(), "\"metadata2\"".to_string())],
    );
    let nb1 = make_nb(vec![code("1"), cell1]);
    let nb2 = make_nb(vec![code("1"), cell2]);
    let result = compare_notebooks(&nb2, &nb1, None, true, false);
    assert!(result.is_err());
    let err = result.unwrap_err();
    assert!(
        err.message.contains("Cell metadata") && err.message.contains("additional"),
        "Error: {}",
        err.message
    );
}

#[test]
fn test_notebook_with_cells_compare_equal() {
    let nb1 = make_nb(vec![markdown("First cell"), code("1 + 1"), markdown("Second cell")]);
    let nb2 = make_nb(vec![markdown("First cell"), code("1 + 1"), markdown("Second cell")]);
    assert!(compare_notebooks(&nb1, &nb2, None, true, true).is_ok());
}

#[test]
fn test_notebook_with_cells_compare_different() {
    let nb1 = make_nb(vec![markdown("First cell"), code("1 + 1"), markdown("Second cell")]);
    let nb2 = make_nb(vec![markdown("First cell"), code("1 + 1"), markdown("Modified cell")]);
    assert!(compare_notebooks(&nb1, &nb2, None, true, true).is_err());
}

#[test]
fn test_filter_and_compare_interaction() {
    let mut nb = make_nb(vec![code("1 + 1")]);
    nb.metadata = vec![("jupytext".to_string(), "{\"notebook_metadata_filter\":\"-all\"}".to_string())];
    let nb2 = make_nb(vec![code("1 + 1")]);
    assert!(compare_notebooks(&nb, &nb2, None, true, true).is_ok());
}

#[test]
fn compare_notebooks_message_lists_cells_and_counts() {
    let nb1 = make_nb(vec![code("a"), code("x"), code("y")]);
    let nb2 = make_nb(vec![code("a"), code("b"), code("c")]);
    let err = compare_notebooks(&nb1, &nb2, None, true, false).unwrap_err();
    assert_eq!(err.message, "Cells 2,3 differ (2/3)");
}

#[test]
fn compare_notebooks_skips_sphinx_matplotlib_cell() {
    let mut fmt = jupytext::format_map::FormatMap::new();
    fmt.insert("extension".to_string(), ".py".to_string());
    fmt.insert("format_name".to_string(), "sphinx".to_string());
    let actual = make_nb(vec![code("%matplotlib inline"), code("x = 1")]);
    let expected = make_nb(vec![code("x = 1")]);
    assert!(compare_notebooks(&actual, &expected, Some(&fmt), true, true).is_ok());
    assert!(compare_notebooks(&actual, &expected, None, true, true).is_err());
}
