use jupytext::cell_metadata::CellActivity;
use jupytext::cell_reader::{
    skip_blank_lines, CellReader, CellKind, CellOptions, DoublePercentScriptCellReader, FormatOptions,
    LightScriptCellReader, MarkdownCellReader, RScriptCellReader, SphinxGalleryScriptCellReader,
};
use jupytext::notebook::CellType;

fn s(lines: &[&str]) -> Vec<String> {
    lines.iter().map(|l| l.to_string()).collect()
}

fn fmt(ext: &str) -> FormatOptions {
    FormatOptions {
        extension: Some(ext.to_string()),
        ..Default::default()
    }
}

fn options(cell_type: Option<&str>, active: Option<&str>) -> CellOptions {
    CellOptions {
        endofcell: None,
        has_cell_type: cell_type.is_some(),
        cell_type: cell_type.map(|t| t.to_string()),
        activity: CellActivity { frozen: false, tags: vec![], active: active.map(|a| a.to_string()) },
    }
}

#[test]
fn light_reader_defaults() {
    let reader = LightScriptCellReader::new(&fmt(".py"), None);
    assert_eq!(reader.ext, ".py");
    assert_eq!(reader.default_language, "python");
    assert_eq!(reader.comment, "#");
    assert_eq!(reader.comment_magics, Some(true));
    assert!(reader.end_code.is_none());
    assert!(reader.ignore_end_marker);
    let reader = LightScriptCellReader::new(&FormatOptions::default(), None);
    assert_eq!(reader.ext, ".py");
    let reader = LightScriptCellReader::new(&fmt(".R"), None);
    assert_eq!(reader.default_language, "R");
    let reader = LightScriptCellReader::new(&fmt(".jl"), Some("python"));
    assert_eq!(reader.default_language, "python");
}

#[test]
fn light_reader_custom_markers() {
    let f = FormatOptions {
        extension: Some(".py".to_string()),
        format_name: Some("light".to_string()),
        cell_markers: Some("{{{,}}}".to_string()),
        ..Default::default()
    };
    let reader = LightScriptCellReader::new(&f, None);
    assert_eq!(reader.cell_marker_start.as_deref(), Some("{{{"));
    assert_eq!(reader.cell_marker_end.as_deref(), Some("}}}"));
    assert!(reader.end_code.is_some());
    let f = FormatOptions { cell_markers: Some("+,-".to_string()), ..f };
    let reader = LightScriptCellReader::new(&f, None);
    assert!(reader.cell_marker_start.is_none());
    assert!(reader.end_code.is_none());
}

#[test]
fn light_comment_block_is_markdown() {
    let mut reader = LightScriptCellReader::new(&fmt(".py"), None);
    let lines = s(&["# A comment", "# another", "", "x = 1"]);
    assert_eq!(reader.find_cell_end(&lines), (2, 3, false));
    assert_eq!(reader.cell_type, Some(CellKind::Markdown));
}

#[test]
fn light_code_cell_ends_at_blank_line() {
    let mut reader = LightScriptCellReader::new(&fmt(".py"), None);
    let lines = s(&["x = 1", "", "y = 2"]);
    assert_eq!(reader.find_cell_end(&lines), (1, 2, false));
    assert_eq!(reader.cell_type, Some(CellKind::Code));
}

#[test]
fn light_indented_code_continues_the_cell() {
    let mut reader = LightScriptCellReader::new(&fmt(".py"), None);
    let lines = s(&["def f():", "    x = 1", "", "    return x", "", "y = 2"]);
    assert_eq!(reader.find_cell_end(&lines), (4, 5, false));
}

#[test]
fn light_blank_lines_inside_strings_do_not_end_the_cell() {
    let mut reader = LightScriptCellReader::new(&fmt(".py"), None);
    let lines = s(&["a = '''", "", "text'''", "", "b = 1"]);
    assert_eq!(reader.find_cell_end(&lines), (3, 4, false));
}

#[test]
fn light_explicit_cell_ends_at_end_marker() {
    let mut reader = LightScriptCellReader::new(&fmt(".py"), None);
    reader.options = Some(options(None, None));
    reader.ignore_end_marker = false;
    let lines = s(&["# +", "x = 1", "", "y = 2", "# -", "", "z = 3"]);
    assert_eq!(reader.find_cell_end(&lines), (4, 5, true));
    assert_eq!(reader.cell_type, Some(CellKind::Code));
}

#[test]
fn light_explicit_cell_ends_at_next_start_marker() {
    let mut reader = LightScriptCellReader::new(&fmt(".py"), None);
    reader.options = Some(options(Some("markdown"), None));
    reader.ignore_end_marker = false;
    let lines = s(&["# + [markdown]", "# text", "", "", "# +", "x = 1"]);
    assert_eq!(reader.find_cell_end(&lines), (2, 4, false));
    assert_eq!(reader.cell_type, Some(CellKind::Markdown));
}

#[test]
fn percent_reader_basic_bounds() {
    let mut reader = DoublePercentScriptCellReader::new(&fmt(".py"), None);
    let lines = s(&["# %%", "x = 1", "", "# %%", "y = 2"]);
    assert_eq!(reader.find_cell_end(&lines), (2, 3, false));
    assert_eq!(reader.cell_type, Some(CellKind::Code));
    assert_eq!(reader.cell_start(&lines), 1);
}

#[test]
fn percent_reader_markers_and_kinds() {
    let mut reader = DoublePercentScriptCellReader::new(&fmt(".py"), None);
    reader.options = Some(options(Some("markdown"), None));
    let lines = s(&["# %% [markdown]", "# text", "", "", "# %% Title", "y = 2"]);
    assert_eq!(reader.find_cell_end(&lines), (2, 4, false));
    assert_eq!(reader.cell_type, Some(CellKind::Markdown));

    let mut reader = DoublePercentScriptCellReader::new(&fmt(".py"), None);
    reader.options = Some(options(None, Some("py")));
    let lines = s(&["# %%", "x = 1", "# In[2]:", "y = 2"]);
    assert_eq!(reader.find_cell_end(&lines), (2, 2, false));
    assert_eq!(reader.cell_type, Some(CellKind::Raw));

    let mut reader = DoublePercentScriptCellReader::new(&fmt(".py"), None);
    let lines = s(&["x = 1", "y = 2"]);
    assert_eq!(reader.find_cell_end(&lines), (2, 2, false));
    assert_eq!(reader.cell_start(&lines), 0);
}

#[test]
fn percent_marker_inside_string_is_ignored() {
    let mut reader = DoublePercentScriptCellReader::new(&fmt(".py"), None);
    let lines = s(&["# %%", "a = \"\"\"", "# %%", "\"\"\"", "# %%", "b = 1"]);
    assert_eq!(reader.find_cell_end(&lines), (4, 4, false));
}

#[test]
fn markdown_region_and_code_ends() {
    let mut reader = MarkdownCellReader::new(&fmt(".md"), None);
    assert_eq!(reader.default_language, "python");
    reader.open_region("md");
    assert_eq!(reader.cell_type, Some(CellKind::Markdown));
    let lines = s(&["<!-- #md -->", "text", "<!-- #endmd -->", "after"]);
    assert_eq!(reader.find_region_close(&lines), (2, 3, true));

    let mut reader = MarkdownCellReader::new(&fmt(".md"), None);
    reader.open_region("raw");
    assert_eq!(reader.cell_type, Some(CellKind::Raw));
    assert_eq!(reader.find_region_close(&s(&["<!-- #raw -->", "x"])), (2, 2, false));

    let mut reader = MarkdownCellReader::new(&fmt(".md"), None);
    let lines = s(&["```python", "x = 1", "```", ""]);
    assert_eq!(reader.find_code_end(&lines), (2, 3, true));
    assert_eq!(reader.cell_type, Some(CellKind::Code));

    let mut reader = MarkdownCellReader::new(&fmt(".md"), None);
    reader.set_code_fence("`");
    let lines = s(&["````python", "```", "````", ""]);
    assert_eq!(reader.find_code_end(&lines), (2, 3, true));
}

#[test]
fn next_cell_skips_separating_blank_lines() {
    let lines = s(&["x", "", "y", "", "", "z"]);
    assert_eq!(skip_blank_lines(&lines, 1, false), 2);
    assert_eq!(skip_blank_lines(&lines, 3, false), 3);
    assert_eq!(skip_blank_lines(&lines, 3, true), 5);
    assert_eq!(skip_blank_lines(&lines, 5, true), 5);
    assert_eq!(skip_blank_lines(&lines, 6, true), 6);
}

#[test]
fn rscript_reader_bounds() {
    let mut reader = RScriptCellReader::new(&fmt(".R"), None);
    assert_eq!(reader.default_language, "R");
    assert_eq!(reader.comment_magics, Some(true));
    let lines = s(&["#' # Title", "#' some text", "", "x <- 1"]);
    assert_eq!(reader.find_cell_end(&lines), (2, 3, false));
    assert_eq!(reader.cell_type, Some(CellKind::Markdown));

    let mut reader = RScriptCellReader::new(&fmt(".R"), None);
    let lines = s(&["x <- 1", "y <- 2", "", "#' text"]);
    assert_eq!(reader.find_cell_end(&lines), (2, 3, false));
    assert_eq!(reader.cell_type, Some(CellKind::Code));

    let mut reader = RScriptCellReader::new(&fmt(".R"), None);
    assert_eq!(reader.find_cell_end(&s(&["x <- 1", "#' text"])), (1, 1, false));

    let mut reader = RScriptCellReader::new(&fmt(".R"), None);
    reader.options = Some(options(None, None));
    let lines = s(&["#+ echo=FALSE", "x <- 1", "", "", "#+", "y"]);
    assert_eq!(reader.find_cell_end(&lines), (2, 3, false));
}

#[test]
fn sphinx_markers() {
    let reader = SphinxGalleryScriptCellReader::new(&FormatOptions::default(), None);
    assert_eq!(reader.ext, ".py");
    assert_eq!(reader.default_language, "python");
    assert_eq!(reader.start_of_new_markdown_cell("\"\""), Some("\"\"".to_string()));
    assert_eq!(reader.start_of_new_markdown_cell("'''text"), Some("'''".to_string()));
    assert_eq!(reader.start_of_new_markdown_cell("\"\"\""), Some("\"\"\"".to_string()));
    let hashes = "#".repeat(20);
    assert_eq!(reader.start_of_new_markdown_cell(&hashes), Some(hashes.clone()));
    assert_eq!(reader.start_of_new_markdown_cell(&"#".repeat(19)), None);
    assert_eq!(reader.start_of_new_markdown_cell("x = 1"), None);
}

#[test]
fn sphinx_reads_a_triple_quoted_markdown_cell() {
    let mut reader = SphinxGalleryScriptCellReader::new(&FormatOptions::default(), None);
    let lines = s(&["\"\"\"", "# Title", "text", "\"\"\"", "", "x = 1"]);
    let r = reader.read(&lines);
    assert_eq!(r.cell_type, CellType::Markdown);
    assert_eq!(r.source, "# Title\ntext");
    assert_eq!(r.cell_marker.as_deref(), Some("\"\"\""));
    assert_eq!(r.lines_to_next_cell, None);
    assert_eq!(r.next_position, 5);
}

#[test]
fn sphinx_reads_an_inline_triple_quoted_cell() {
    let mut reader = SphinxGalleryScriptCellReader::new(&FormatOptions::default(), None);
    let lines = s(&["'''Title", "more'''", "x = 1"]);
    let r = reader.read(&lines);
    assert_eq!(r.cell_type, CellType::Markdown);
    assert_eq!(r.source, "Title\nmore");
    assert_eq!(r.next_position, 2);
    assert_eq!(r.lines_to_next_cell, Some(0));
}

#[test]
fn sphinx_reads_a_code_cell_up_to_a_comment_block() {
    let mut reader = SphinxGalleryScriptCellReader::new(&FormatOptions::default(), None);
    let hashes = "#".repeat(20);
    let lines = s(&["x = 1", "", &hashes, "# text"]);
    let r = reader.read(&lines);
    assert_eq!(r.cell_type, CellType::Code);
    assert_eq!(r.source, "x = 1");
    assert_eq!(r.cell_marker, None);
    assert_eq!(r.next_position, 2);
}

#[test]
fn sphinx_reads_a_comment_block() {
    let mut reader = SphinxGalleryScriptCellReader::new(&FormatOptions::default(), None);
    let default_marker = "#".repeat(79);
    let lines = s(&[&default_marker, "# Some text", "", "x = 1"]);
    let r = reader.read(&lines);
    assert_eq!(r.cell_type, CellType::Markdown);
    assert_eq!(r.source, "Some text");
    assert_eq!(r.cell_marker, None);
    assert_eq!(r.next_position, 3);
    let mut reader = SphinxGalleryScriptCellReader::new(&FormatOptions::default(), None);
    let marker = "#".repeat(30);
    let lines = s(&[&marker, "# Some text"]);
    let r = reader.read(&lines);
    assert_eq!(r.cell_marker, Some(marker.clone()));
    assert_eq!(r.source, "Some text");
    assert_eq!(r.next_position, 2);
}

#[test]
fn sphinx_reads_an_empty_string_cell() {
    let mut reader = SphinxGalleryScriptCellReader::new(&FormatOptions::default(), None);
    let lines = s(&["\"\"", "", "x = 1"]);
    let r = reader.read(&lines);
    assert_eq!(r.cell_type, CellType::Markdown);
    assert_eq!(r.source, "");
    assert_eq!(r.next_position, 2);
}
