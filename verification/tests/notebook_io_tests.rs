use jupytext::cli::{destination, target_format, Destination};
use jupytext::compare::{compare_cells, CompareOptions};
use jupytext::format_map::FormatMap;
use jupytext::notebook::{Cell, CellType, Notebook};
use jupytext::notebook_io::{combine_inputs_with_outputs, new_cell_of, reads, JupytextError};
use jupytext::notebook_writer::{metadata_and_cell_to_header, writes};

fn fmt(pairs: &[(&str, &str)]) -> FormatMap {
    let mut m = FormatMap::new();
    for (k, v) in pairs {
        m.insert(k.to_string(), v.to_string());
    }
    m
}

fn sphinx() -> FormatMap {
    fmt(&[("extension", ".py"), ("format_name", "sphinx")])
}

fn code(s: &str) -> Cell {
    new_cell_of(CellType::Code, s.to_string(), Vec::new())
}

fn markdown(s: &str) -> Cell {
    new_cell_of(CellType::Markdown, s.to_string(), Vec::new())
}

fn make_nb(cells: Vec<Cell>) -> Notebook {
    Notebook { nbformat: 4, nbformat_minor: 5, metadata: Vec::new(), cells }
}

fn options(raise: bool) -> CompareOptions {
    CompareOptions {
        raise_on_first_difference: raise,
        compare_outputs: false,
        compare_ids: false,
        cell_metadata_filter: None,
        allow_missing_code_cell_metadata: false,
        allow_missing_markdown_cell_metadata: false,
        allow_filtered_cell_metadata: false,
        allow_removed_final_blank_line: false,
    }
}

#[test]
fn test_combine_basic() {
    let source = make_nb(vec![code("a = 1"), markdown("# Hello")]);
    let mut output_cell = code("a = 1");
    output_cell.execution_count = Some("1".to_string());
    output_cell.outputs = Some(vec!["\"1\"".to_string()]);
    let outputs = make_nb(vec![output_cell, markdown("# Hello")]);

    let combined = combine_inputs_with_outputs(&source, &outputs, &FormatMap::new());

    assert_eq!(combined.cells.len(), 2);
    assert_eq!(combined.cells[0].source, "a = 1");
    assert_eq!(combined.cells[0].execution_count, Some("1".to_string()));
    assert!(combined.cells[0].outputs.is_some());
    assert_eq!(combined.nbformat, 4);
}

#[test]
fn test_combine_new_cell_no_output() {
    let source = make_nb(vec![code("a = 1"), code("new cell")]);
    let mut output_cell = code("a = 1");
    output_cell.execution_count = Some("1".to_string());
    let outputs = make_nb(vec![output_cell]);

    let combined = combine_inputs_with_outputs(&source, &outputs, &FormatMap::new());
    assert_eq!(combined.cells.len(), 2);
    assert_eq!(combined.cells[0].source, "a = 1");
    assert!(combined.cells[0].execution_count.is_some());
    assert_eq!(combined.cells[1].source, "new cell");
}

#[test]
fn combine_keeps_source_and_type_of_each_cell() {
    let source = make_nb(vec![markdown("Title"), code("x = 2")]);
    let outputs = make_nb(vec![code("x = 1"), markdown("Other")]);
    let combined = combine_inputs_with_outputs(&source, &outputs, &FormatMap::new());
    assert_eq!(combined.cells.len(), 2);
    assert_eq!(combined.cells[0].cell_type, CellType::Markdown);
    assert_eq!(combined.cells[0].source, "Title");
    assert_eq!(combined.cells[1].cell_type, CellType::Code);
    assert_eq!(combined.cells[1].source, "x = 2");
}

#[test]
fn test_metadata_and_cell_to_header_empty_metadata() {
    let metadata: Vec<(String, String)> = Vec::new();
    let f = fmt(&[("extension", ".md")]);
    let (header, lines_to_next) = metadata_and_cell_to_header(&metadata, &f, "", "");
    assert!(header.is_empty());
    assert_eq!(lines_to_next, Some(0));
}

#[test]
fn header_of_kernelspec_metadata() {
    let metadata = vec![(
        "kernelspec".to_string(),
        "{\"display_name\":\"Python 3\",\"language\":\"python\",\"name\":\"python3\"}".to_string(),
    )];
    let f = sphinx();
    let (header, lines_to_next) = metadata_and_cell_to_header(&metadata, &f, "#", "");
    assert_eq!(lines_to_next, None);
    assert_eq!(header.first().map(|s| s.as_str()), Some("# ---"));
    assert_eq!(header.last().map(|s| s.as_str()), Some("# ---"));
    assert!(header.iter().any(|l| l == "# jupyter:"));
    assert!(header.iter().any(|l| l.contains("display_name: Python 3")));
}

#[test]
fn header_hides_metadata_in_a_comment() {
    let metadata = vec![("kernelspec".to_string(), "{\"name\":\"python3\"}".to_string())];
    let f = fmt(&[("extension", ".md"), ("hide_notebook_metadata", "true")]);
    let (header, _) = metadata_and_cell_to_header(&metadata, &f, "", "");
    assert_eq!(header[0], "<!--");
    assert_eq!(header[1], "");
    assert_eq!(header[2], "---");
    assert_eq!(header[header.len() - 1], "-->");
}

#[test]
fn header_leaves_out_filtered_metadata() {
    let metadata = vec![("author".to_string(), "\"me\"".to_string())];
    let f = fmt(&[("extension", ".py"), ("format_name", "sphinx"), ("notebook_metadata_filter", "-all")]);
    let (header, lines_to_next) = metadata_and_cell_to_header(&metadata, &f, "#", "");
    assert!(header.is_empty());
    assert_eq!(lines_to_next, Some(0));
}

#[test]
fn writes_sphinx_text_cell() {
    let nb = make_nb(vec![markdown("Hello")]);
    let text = writes(&nb, &sphinx()).unwrap();
    assert_eq!(text, format!("{}\n# Hello\n", "#".repeat(79)));
}

#[test]
fn writes_sphinx_code_cells_with_separator() {
    let nb = make_nb(vec![code("a = 1"), code("b = 2")]);
    let text = writes(&nb, &sphinx()).unwrap();
    assert_eq!(text, "a = 1\n\n\"\"\nb = 2\n");
}

#[test]
fn writes_sphinx_leaves_out_first_matplotlib_cell() {
    let nb = make_nb(vec![code("%matplotlib inline"), code("x = 1")]);
    let text = writes(&nb, &sphinx()).unwrap();
    assert_eq!(text, "x = 1\n");
}

#[test]
fn writes_sphinx_lines_to_next_cell() {
    let c = new_cell_of(
        CellType::Code,
        "a = 1".to_string(),
        vec![("lines_to_next_cell".to_string(), "3".to_string())],
    );
    let nb = make_nb(vec![c, markdown("End")]);
    let text = writes(&nb, &sphinx()).unwrap();
    assert_eq!(text, format!("a = 1\n\n\n\n{}\n# End\n", "#".repeat(79)));
}

#[test]
fn writes_sphinx_triple_quote_marker() {
    let c = new_cell_of(
        CellType::Markdown,
        "Some text".to_string(),
        vec![("cell_marker".to_string(), "\"\\\"\\\"\\\"\"".to_string())],
    );
    let nb = make_nb(vec![c]);
    let text = writes(&nb, &sphinx()).unwrap();
    assert_eq!(text, "\"\"\"\nSome text\n\"\"\"\n");
}

#[test]
fn writes_empty_notebook_in_any_format() {
    let nb = make_nb(Vec::new());
    let text = writes(&nb, &fmt(&[("extension", ".py"), ("format_name", "percent")])).unwrap();
    assert_eq!(text, "");
}

#[test]
fn writes_refuses_cells_of_other_formats() {
    let nb = make_nb(vec![code("x = 1")]);
    match writes(&nb, &fmt(&[("extension", ".py"), ("format_name", "percent")])) {
        Err(JupytextError::Other(m)) => {
            assert_eq!(m, "The cells of the 'percent' format cannot be written by this library.")
        },
        _ => panic!("expected an error"),
    }
}

#[test]
fn writes_refuses_external_formats() {
    let nb = make_nb(vec![code("x = 1")]);
    match writes(&nb, &fmt(&[("extension", ".md"), ("format_name", "pandoc")])) {
        Err(JupytextError::Other(m)) => assert!(m.contains("external converter")),
        _ => panic!("expected an error"),
    }
}

#[test]
fn writes_refuses_unknown_formats() {
    let nb = make_nb(vec![code("x = 1")]);
    match writes(&nb, &fmt(&[("extension", ".xyz")])) {
        Err(JupytextError::Format(_)) => {},
        _ => panic!("expected a format error"),
    }
}

#[test]
fn writes_sphinx_header_from_metadata() {
    let mut nb = make_nb(vec![code("x = 1")]);
    nb.metadata = vec![(
        "kernelspec".to_string(),
        "{\"display_name\":\"Python 3\",\"language\":\"python\",\"name\":\"python3\"}".to_string(),
    )];
    let text = writes(&nb, &sphinx()).unwrap();
    assert!(text.starts_with("# ---\n# jupyter:\n"));
    assert!(text.ends_with("# ---\n\nx = 1\n"));
}

#[test]
fn writes_then_reads_sphinx_keeps_cells() {
    let nb = make_nb(vec![markdown("A title"), code("x = 1"), code("y = 2"), markdown("The end")]);
    let text = writes(&nb, &sphinx()).unwrap();
    let back = reads(&text, &sphinx()).unwrap();
    let got: Vec<(CellType, String)> = back
        .cells
        .iter()
        .filter(|c| c.source != "%matplotlib inline")
        .map(|c| (c.cell_type, c.source.clone()))
        .collect();
    let want: Vec<(CellType, String)> = nb.cells.iter().map(|c| (c.cell_type, c.source.clone())).collect();
    assert_eq!(got, want);
}

#[test]
fn reads_sphinx_script() {
    let text = format!("{}\n# Hello\n\nx = 1\n", "#".repeat(79));
    let nb = reads(&text, &sphinx()).unwrap();
    let got: Vec<(CellType, String)> = nb.cells.iter().map(|c| (c.cell_type, c.source.clone())).collect();
    assert_eq!(
        got,
        vec![
            (CellType::Code, "%matplotlib inline".to_string()),
            (CellType::Markdown, "Hello".to_string()),
            (CellType::Code, "x = 1".to_string()),
        ]
    );
}

#[test]
fn reads_refuses_cells_of_other_formats() {
    match reads("# %%\nx = 1\n", &fmt(&[("extension", ".py"), ("format_name", "percent")])) {
        Err(JupytextError::Other(m)) => {
            assert_eq!(m, "The cells of the 'percent' format cannot be read by this library.")
        },
        _ => panic!("expected an error"),
    }
}

#[test]
fn compare_cells_identical() {
    let cells = vec![code("a = 1"), markdown("Hi")];
    let r = compare_cells(&cells, &cells.clone(), &options(true));
    match r {
        Ok((modified, keys)) => {
            assert!(modified.is_empty());
            assert!(keys.is_empty());
        },
        Err(_) => panic!("no difference expected"),
    }
}

#[test]
fn compare_cells_type_difference_raises() {
    let actual = vec![markdown("a = 1")];
    let expected = vec![code("a = 1")];
    match compare_cells(&actual, &expected, &options(true)) {
        Err(d) => assert_eq!(
            d.message,
            "When comparing cell #1: expecting a code cell, but got a markdown cell.\nExpected content:\na = 1\nActual content:\na = 1"
        ),
        Ok(_) => panic!("a difference was expected"),
    }
}

#[test]
fn compare_cells_collects_missing_cells() {
    let actual = vec![code("a = 1")];
    let expected = vec![code("a = 1"), code("b"), code("c")];
    match compare_cells(&actual, &expected, &options(false)) {
        Ok((modified, _)) => assert_eq!(modified, vec![2, 3]),
        Err(_) => panic!("differences are collected"),
    }
}

#[test]
fn compare_cells_missing_cell_raises() {
    let actual: Vec<Cell> = Vec::new();
    let expected = vec![code("x")];
    match compare_cells(&actual, &expected, &options(true)) {
        Err(d) => assert_eq!(d.message, "No cell corresponding to code cell #1:\nx"),
        Ok(_) => panic!("a difference was expected"),
    }
}

#[test]
fn target_format_of_to_and_output() {
    let t = target_format(Some("py:sphinx"), None).unwrap();
    assert_eq!(t.get("extension"), Some(".py".to_string()));
    assert_eq!(t.get("format_name"), Some("sphinx".to_string()));
    let o = target_format(None, Some("out.md")).unwrap();
    assert_eq!(o.get("extension"), Some(".md".to_string()));
    assert!(target_format(None, Some("-")).is_none());
    assert!(target_format(None, None).is_none());
}

#[test]
fn destination_of_a_conversion() {
    let from = fmt(&[("extension", ".ipynb")]);
    let to = sphinx();
    match destination(None, Some("dir/nb.ipynb"), &from, &to, '/') {
        Ok(Destination::File(f)) => assert_eq!(f, "dir/nb.py"),
        _ => panic!("a file was expected"),
    }
    match destination(Some("-"), Some("dir/nb.ipynb"), &from, &to, '/') {
        Ok(Destination::Stdout) => {},
        _ => panic!("standard output was expected"),
    }
    match destination(Some("x.py"), None, &from, &to, '/') {
        Ok(Destination::File(f)) => assert_eq!(f, "x.py"),
        _ => panic!("a file was expected"),
    }
    match destination(None, None, &from, &to, '/') {
        Ok(Destination::Stdout) => {},
        _ => panic!("standard output was expected"),
    }
}
