use jupytext::cell_content::{script_extract_content, script_uncomment_code_and_magics, ScriptCellState};
use jupytext::cell_metadata::CellActivity;
use jupytext::cell_reader::CellKind;

fn lines(v: &[&str]) -> Vec<String> {
    v.iter().map(|s| s.to_string()).collect()
}

fn state(ext: &str, default_language: &str, cell_type: CellKind, active: Option<&str>) -> ScriptCellState {
    ScriptCellState {
        ext: ext.to_string(),
        default_language: default_language.to_string(),
        language: None,
        comment_magics: None,
        explicit_soc: false,
        cell_type: Some(cell_type),
        has_metadata: active.is_some(),
        has_active_entry: active.is_some(),
        activity: CellActivity { frozen: false, tags: vec![], active: active.map(|s| s.to_string()) },
        cell_marker: None,
        comment_questions: None,
    }
}

#[test]
fn docstring_cell_gets_its_quotes_as_marker() {
    let mut s = state(".py", "python", CellKind::Code, Some(""));
    let out = script_extract_content(lines(&["\"\"\"", "Some text", "\"\"\""]), &mut s, "#", "", None);
    assert_eq!(out, lines(&["Some text"]));
    assert_eq!(s.cell_marker, Some("\"\"\"".to_string()));
    assert!(s.has_metadata);
}

#[test]
fn raw_docstring_cell_marker() {
    let mut s = state(".py", "python", CellKind::Code, Some(""));
    let out = script_extract_content(lines(&["r\"\"\"Text", "\"\"\""]), &mut s, "#", "", None);
    assert_eq!(out, lines(&["Text"]));
    assert_eq!(s.cell_marker, Some("r\"\"\"".to_string()));
}

#[test]
fn docstring_with_pair_marker() {
    let mut s = state(".py", "python", CellKind::Code, Some(""));
    let out = script_extract_content(lines(&["r'''Text'''"]), &mut s, "#", "", None);
    assert_eq!(out, lines(&["Text"]));
    assert_eq!(s.cell_marker, Some("r''','''".to_string()));
}

#[test]
fn inactive_r_cell_is_uncommented() {
    let mut s = state(".R", "R", CellKind::Code, Some("py"));
    let out = script_extract_content(lines(&["# x <- 1"]), &mut s, "#", "", None);
    assert_eq!(out, lines(&["x <- 1"]));
    assert_eq!(s.cell_marker, None);
}

#[test]
fn cell_in_other_language_is_uncommented() {
    let mut s = state(".py", "python", CellKind::Code, None);
    s.language = Some("bash".to_string());
    let out = script_extract_content(lines(&["# ls -l"]), &mut s, "#", "", None);
    assert_eq!(out, lines(&["ls -l"]));
}

#[test]
fn magics_are_uncommented() {
    let mut s = state(".py", "python", CellKind::Code, None);
    let out = script_extract_content(lines(&["# %matplotlib inline", "x = 1"]), &mut s, "#", "", None);
    assert_eq!(out, lines(&["%matplotlib inline", "x = 1"]));
    assert_eq!(s.comment_questions, None);
}

#[test]
fn help_magic_asks_for_comment_questions() {
    let mut s = state(".py", "python", CellKind::Code, None);
    let mut src = lines(&["x?"]);
    script_uncomment_code_and_magics(&mut src, &mut s, "#", "", None);
    assert_eq!(s.comment_questions, Some(false));
    assert!(s.has_metadata);
}

#[test]
fn go_commands_are_restored() {
    let mut s = state(".go", "go", CellKind::Code, None);
    s.comment_magics = Some(false);
    let mut src = lines(&["//gonb:%%", "x := 1"]);
    script_uncomment_code_and_magics(&mut src, &mut s, "//", "", None);
    assert_eq!(src, lines(&["%%", "x := 1"]));
}

#[test]
fn markdown_lines_are_uncommented() {
    let mut s = state(".py", "python", CellKind::Markdown, None);
    s.comment_magics = Some(false);
    let mut src = lines(&["# Title", "#", "# Text"]);
    script_uncomment_code_and_magics(&mut src, &mut s, "#", "", None);
    assert_eq!(src, lines(&["Title", "", "Text"]));
}
