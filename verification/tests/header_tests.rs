use jupytext::header::{encoding_and_executable, header_to_metadata_and_cell, ScriptHeaderEntries};
use jupytext::notebook::CellType;

fn lines_of(text: &str) -> Vec<String> {
    text.lines().map(|s| s.to_string()).collect()
}

fn yaml_value(text: &str) -> serde_json::Value {
    serde_yaml::from_str::<serde_json::Value>(text).unwrap()
}

#[test]
fn test_header_to_metadata_and_cell_blank_line() {
    let text = "---\n\
                 title: Sample header\n\
                 ---\n\
                 \n\
                 Header is followed by a blank line";
    let lines = lines_of(text);
    let result = header_to_metadata_and_cell(&lines, "", "", ".md", true);

    assert!(result.executable.is_none());
    assert!(result.encoding.is_none());
    assert!(result.jupyter_yaml.is_none());
    assert!(result.root_level_yaml.is_none());
    assert!(result.header_cell.is_some());
    let cell = result.header_cell.unwrap();
    assert_eq!(cell.cell_type, CellType::Raw);
    assert!(cell.source.contains("title: Sample header"));
    assert!(lines[result.next_line].starts_with("Header is"));
}

#[test]
fn test_header_to_metadata_and_cell_no_blank_line() {
    let text = "---\n\
                 title: Sample header\n\
                 ---\n\
                 Header is not followed by a blank line";
    let lines = lines_of(text);
    let result = header_to_metadata_and_cell(&lines, "", "", ".md", true);

    assert!(result.executable.is_none());
    assert!(result.encoding.is_none());
    assert!(result.jupyter_yaml.is_none());
    assert!(result.root_level_yaml.is_none());
    assert!(result.header_cell.is_some());
    let cell = result.header_cell.unwrap();
    assert_eq!(cell.cell_type, CellType::Raw);
    assert!(cell.source.contains("title: Sample header"));
    // No blank line follows the header, so the cell records zero lines to the next cell.
    assert!(cell.lines_to_next_cell.is_some());
    assert!(lines[result.next_line].starts_with("Header is"));
}

#[test]
fn test_header_to_metadata_and_cell_with_jupyter_metadata() {
    let text = "---\ntitle: Sample header\njupyter:\n  mainlanguage: python\n---";
    let lines = lines_of(text);
    let result = header_to_metadata_and_cell(&lines, "", "", ".md", true);

    let yaml = result.jupyter_yaml.unwrap();
    let jupyter = yaml_value(&yaml);
    let metadata = jupyter.get("jupyter").unwrap();
    assert!(metadata.get("mainlanguage").is_some());
    let mainlang = metadata.get("mainlanguage").unwrap();
    assert_eq!(mainlang, &serde_json::Value::String("python".to_string()));
}

#[test]
fn test_header_in_html_comment() {
    let text = "<!--\n\n---\njupyter:\n  title: Sample header\n---\n\n-->";
    let lines = lines_of(text);
    let result = header_to_metadata_and_cell(&lines, "", "", ".md", true);

    let yaml = result.jupyter_yaml.unwrap();
    let jupyter = yaml_value(&yaml);
    let metadata = jupyter.get("jupyter").unwrap();
    assert!(metadata.get("title").is_some());
    assert_eq!(
        metadata.get("title"),
        Some(&serde_json::Value::String("Sample header".to_string()))
    );
    assert!(result.header_cell.is_none());
}

#[test]
fn test_no_header_detected_on_non_header_lines() {
    let text = "This is not a header\n\
                 And this isn't either";
    let lines = lines_of(text);
    let result = header_to_metadata_and_cell(&lines, "", "", ".md", true);

    assert!(result.executable.is_none());
    assert!(result.encoding.is_none());
    assert!(result.jupyter_yaml.is_none());
    assert!(result.header_cell.is_none());
    assert_eq!(result.next_line, 0);
}

#[test]
fn header_exact_values_markdown() {
    let lines = lines_of("---\ntitle: T\njupyter:\n  kernelspec:\n    name: python3\n---\n\nText");
    let result = header_to_metadata_and_cell(&lines, "", "", ".md", false);
    assert_eq!(result.jupyter_yaml.as_deref(), Some("jupyter:\n  kernelspec:\n    name: python3"));
    assert_eq!(result.root_level_yaml.as_deref(), Some("title: T"));
    assert!(result.has_jupyter_md);
    assert!(result.header_cell.is_none());
    assert_eq!(result.next_line, 7);
}

#[test]
fn header_of_a_script_with_shebang_and_encoding() {
    let lines = lines_of(
        "#!/usr/bin/env python\n# -*- coding: utf-8 -*-\n# ---\n# jupyter:\n#   jupytext:\n#     text_representation:\n#       extension: .py\n# ---\nx = 1",
    );
    let result = header_to_metadata_and_cell(&lines, "#", "", ".py", false);
    assert_eq!(result.executable.as_deref(), Some("/usr/bin/env python"));
    assert_eq!(result.encoding.as_deref(), Some("# -*- coding: utf-8 -*-"));
    assert_eq!(
        result.jupyter_yaml.as_deref(),
        Some("jupyter:\n  jupytext:\n    text_representation:\n      extension: .py")
    );
    assert!(result.root_level_yaml.is_none());
    assert_eq!(result.next_line, 8);
}

#[test]
fn header_absent_after_shebang() {
    let lines = lines_of("#!/bin/python\nx = 1\n");
    let result = header_to_metadata_and_cell(&lines, "#", "", ".py", true);
    assert_eq!(result.executable.as_deref(), Some("/bin/python"));
    assert!(!result.has_jupyter_md);
    assert_eq!(result.next_line, 1);
}

#[test]
fn header_cell_with_expected_spacing() {
    let lines = lines_of("---\ntitle: T\n---\n\nText");
    let result = header_to_metadata_and_cell(&lines, "", "", ".md", true);
    let cell = result.header_cell.unwrap();
    assert_eq!(cell.source, "---\ntitle: T\n---");
    assert_eq!(cell.lines_to_next_cell, None);
    assert_eq!(result.next_line, 4);
}

#[test]
fn header_cell_without_blank_line_records_zero() {
    let lines = lines_of("---\ntitle: T\n---\nText");
    let result = header_to_metadata_and_cell(&lines, "", "", ".md", true);
    let cell = result.header_cell.unwrap();
    assert_eq!(cell.lines_to_next_cell, Some(0));
    assert_eq!(result.next_line, 3);
}

fn entries(executable: Option<&str>, encoding: Option<&str>) -> ScriptHeaderEntries {
    ScriptHeaderEntries {
        has_jupytext: true,
        executable: executable.map(|s| Some(s.to_string())),
        encoding: encoding.map(|s| Some(s.to_string())),
    }
}

#[test]
fn script_header_has_shebang_and_encoding() {
    let mut e = entries(Some("/usr/bin/env python"), Some("# -*- coding: utf-8 -*-"));
    let lines = encoding_and_executable(&mut e, ".py");
    assert_eq!(lines, vec!["#!/usr/bin/env python".to_string(), "# -*- coding: utf-8 -*-".to_string()]);
    assert!(e.executable.is_none());
    assert!(e.encoding.is_none());
}

#[test]
fn script_header_is_empty_outside_scripts() {
    let mut e = entries(Some("/usr/bin/env python"), None);
    assert!(encoding_and_executable(&mut e, ".md").is_empty());
    assert!(e.executable.is_some());
    let mut e = ScriptHeaderEntries { has_jupytext: false, executable: None, encoding: None };
    assert!(encoding_and_executable(&mut e, ".py").is_empty());
}

#[test]
fn script_header_drops_non_string_entries() {
    let mut e = ScriptHeaderEntries { has_jupytext: true, executable: Some(None), encoding: None };
    assert!(encoding_and_executable(&mut e, ".R").is_empty());
    assert!(e.executable.is_none());
}
