use jupytext::cell_export::{
    BareScriptCellExporter, BaseCellData, ExporterCell, LightScriptCellExporter,
    SphinxGalleryCellExporter,
};
use jupytext::cell_metadata::CellActivity;
use jupytext::format_map::FormatMap;
use jupytext::notebook::CellType;

fn fmt(pairs: &[(&str, &str)]) -> FormatMap {
    let mut m = FormatMap::new();
    for (k, v) in pairs {
        m.insert(k.to_string(), v.to_string());
    }
    m
}

fn cell(cell_type: CellType, source: &str, keys: &[&str]) -> ExporterCell {
    ExporterCell {
        cell_type,
        source: source.to_string(),
        metadata_keys: keys.iter().map(|k| k.to_string()).collect(),
        empty_tags: false,
        activity: CellActivity { frozen: false, tags: vec![], active: None },
        language: None,
        cell_marker: None,
        lines_to_next_cell: None,
        lines_to_end_of_cell_marker: None,
    }
}

fn lines(v: &[&str]) -> Vec<String> {
    v.iter().map(|s| s.to_string()).collect()
}

#[test]
fn base_data_reads_cell_magic() {
    let c = cell(CellType::Code, "%%bash\nls -l", &[]);
    let d = BaseCellData::new(&c, "python", &fmt(&[("extension", ".py")]), true, Some(true));
    assert_eq!(d.source, lines(&["ls -l"]));
    assert_eq!(d.language, "bash");
    assert!(d.metadata_keys.contains(&"magic_args".to_string()));
    assert!(d.metadata_keys.contains(&"language".to_string()));
    assert_eq!(d.comment, "#");
    assert!(d.comment_magics);
}

#[test]
fn base_data_keeps_magic_without_parsing() {
    let c = cell(CellType::Code, "%%bash\nls -l", &[]);
    let d = BaseCellData::new(&c, "python", &fmt(&[("extension", ".py")]), false, None);
    assert_eq!(d.source, lines(&["%%bash", "ls -l"]));
    assert_eq!(d.language, "python");
    assert!(d.metadata_keys.is_empty());
    assert!(!d.comment_magics);
}

#[test]
fn base_data_rmd_does_not_record_language() {
    let c = cell(CellType::Code, "%%R\nx <- 1", &[]);
    let d = BaseCellData::new(&c, "python", &fmt(&[("extension", ".Rmd")]), true, None);
    assert_eq!(d.language, "R");
    assert!(d.metadata_keys.contains(&"magic_args".to_string()));
    assert!(!d.metadata_keys.contains(&"language".to_string()));
}

#[test]
fn base_data_filters_ignored_metadata() {
    let c = cell(CellType::Code, "1 + 1", &["collapsed", "tags", "lines_to_next_cell"]);
    let d = BaseCellData::new(&c, "python", &fmt(&[("extension", ".py")]), true, None);
    assert_eq!(d.metadata_keys, lines(&["tags"]));
}

#[test]
fn base_data_comment_of_extension() {
    let c = cell(CellType::Markdown, "text", &[]);
    let d = BaseCellData::new(&c, "c++", &fmt(&[("extension", ".cpp")]), true, None);
    assert_eq!(d.comment, "//");
    let d = BaseCellData::new(&c, "python", &fmt(&[("extension", ".unknown")]), true, None);
    assert_eq!(d.comment, "#");
    assert_eq!(d.comment_suffix, "");
}

#[test]
fn raw_cell_is_marked_active() {
    let c = cell(CellType::Raw, "raw text", &[]);
    let d = BaseCellData::new(&c, "python", &fmt(&[("extension", ".py")]), true, None);
    assert!(d.metadata_keys.contains(&"active".to_string()));
    assert_eq!(d.activity.active, Some(String::new()));
    assert!(d.is_code());
}

#[test]
fn is_code_by_cell_type() {
    let py = fmt(&[("extension", ".py")]);
    assert!(BaseCellData::new(&cell(CellType::Code, "x", &[]), "python", &py, true, None).is_code());
    assert!(!BaseCellData::new(&cell(CellType::Markdown, "x", &[]), "python", &py, true, None).is_code());
}

#[test]
fn triple_quotes_from_cell_marker() {
    let mut c = cell(CellType::Markdown, "text", &[]);
    c.cell_marker = Some("\"\"\"".to_string());
    let py = fmt(&[("extension", ".py")]);
    assert!(BaseCellData::new(&c, "python", &py, true, None).use_triple_quotes());
    c.cell_marker = Some("r'''doc,end'''".to_string());
    assert!(!BaseCellData::new(&c, "python", &py, true, None).use_triple_quotes());
    c.cell_marker = Some("'''doc,end'''".to_string());
    assert!(BaseCellData::new(&c, "python", &py, true, None).use_triple_quotes());
    c.cell_marker = Some("# +".to_string());
    assert!(!BaseCellData::new(&c, "python", &py, true, None).use_triple_quotes());
}

#[test]
fn markdown_is_commented() {
    let c = cell(CellType::Markdown, "A title\n\nSome text", &[]);
    let d = BaseCellData::new(&c, "python", &fmt(&[("extension", ".py")]), true, None);
    assert_eq!(d.markdown_to_text(&d.source), lines(&["# A title", "#", "# Some text"]));
}

#[test]
fn markdown_magics_are_commented_in_light_format() {
    let c = cell(CellType::Markdown, "%matplotlib inline", &[]);
    let d = BaseCellData::new(&c, "python", &fmt(&[("extension", ".py"), ("comment_magics", "true")]), true, None);
    assert_eq!(d.markdown_to_text(&d.source), lines(&["# # %matplotlib inline"]));
    let d = BaseCellData::new(
        &c,
        "python",
        &fmt(&[("extension", ".py"), ("comment_magics", "true"), ("format_name", "percent")]),
        true,
        None,
    );
    assert_eq!(d.markdown_to_text(&d.source), lines(&["# %matplotlib inline"]));
}

#[test]
fn markdown_between_triple_quotes() {
    let c = cell(CellType::Markdown, "Some\ntext", &[]);
    let d = BaseCellData::new(
        &c,
        "python",
        &fmt(&[("extension", ".py"), ("cell_markers", "\"\"\"")]),
        true,
        None,
    );
    assert_eq!(d.markdown_to_text(&d.source), lines(&["\"\"\"\nSome", "text\n\"\"\""]));
}

#[test]
fn markdown_between_pair_of_markers_with_raw_prefix() {
    let c = cell(CellType::Markdown, "a \\ b", &[]);
    let d = BaseCellData::new(
        &c,
        "python",
        &fmt(&[("extension", ".py"), ("format_name", "percent"), ("cell_markers", "'''md,'''")]),
        true,
        None,
    );
    assert_eq!(d.markdown_to_text(&d.source), lines(&["r'''mda \\ b'''"]));
}

#[test]
fn light_exporter_custom_markers() {
    let c = cell(CellType::Code, "x = 1", &[]);
    let e = LightScriptCellExporter::new(&c, "python", &fmt(&[("extension", ".py"), ("cell_markers", "region,endregion")]));
    assert_eq!(e.cell_marker_start, Some("region".to_string()));
    assert_eq!(e.cell_marker_end, Some("endregion".to_string()));
    assert!(e.use_cell_markers);
    let e = LightScriptCellExporter::new(&c, "python", &fmt(&[("extension", ".py"), ("cell_markers", "+,-")]));
    assert_eq!(e.cell_marker_start, None);
    let b = BareScriptCellExporter::new(&c, "python", &fmt(&[("extension", ".py")]));
    assert!(!b.inner.use_cell_markers);
}

#[test]
fn light_exporter_keeps_endofcell() {
    let c = cell(CellType::Code, "x = 1", &["endofcell"]);
    let e = LightScriptCellExporter::new(&c, "python", &fmt(&[("extension", ".py")]));
    assert!(e.data.metadata_keys.contains(&"endofcell".to_string()));
}

#[test]
fn light_markdown_with_metadata_becomes_code() {
    let c = cell(CellType::Markdown, "Some text", &["key"]);
    let mut e = LightScriptCellExporter::new(&c, "python", &fmt(&[("extension", ".py")]));
    assert!(e.is_code_light());
    assert_eq!(e.data.cell_type, CellType::Code);
    assert_eq!(e.data.source, lines(&["# Some text"]));
    assert!(e.data.metadata_keys.contains(&"cell_type".to_string()));
}

#[test]
fn light_plain_markdown_is_not_code() {
    let c = cell(CellType::Markdown, "Some text", &[]);
    let mut e = LightScriptCellExporter::new(&c, "python", &fmt(&[("extension", ".py")]));
    assert!(!e.is_code_light());
    assert_eq!(e.data.cell_type, CellType::Markdown);
}

#[test]
fn explicit_start_marker_cases() {
    let py = fmt(&[("extension", ".py")]);
    let e = LightScriptCellExporter::new(&cell(CellType::Code, "x = 1\n\ny = 2", &[]), "python", &py);
    assert!(e.explicit_start_marker(&e.data.source));
    let e = LightScriptCellExporter::new(&cell(CellType::Code, "x = 1\ny = 2", &[]), "python", &py);
    assert!(!e.explicit_start_marker(&e.data.source));
    let e = LightScriptCellExporter::new(&cell(CellType::Code, "# a comment", &[]), "python", &py);
    assert!(e.explicit_start_marker(&e.data.source));
    let e = LightScriptCellExporter::new(&cell(CellType::Code, "x = 1", &["tags"]), "python", &py);
    assert!(e.explicit_start_marker(&e.data.source));
    let b = BareScriptCellExporter::new(&cell(CellType::Code, "x = 1\n\ny = 2", &[]), "python", &py);
    assert!(!b.inner.explicit_start_marker(&b.inner.data.source));
}

#[test]
fn explicit_start_marker_with_custom_marker_in_source() {
    let f = fmt(&[("extension", ".py"), ("cell_markers", "region,endregion")]);
    let e = LightScriptCellExporter::new(&cell(CellType::Code, "# region\nx = 1\n\ny = 2", &[]), "python", &f);
    assert!(!e.explicit_start_marker(&e.data.source));
}

#[test]
fn remove_eoc_marker_before_start_marker() {
    let mut c = cell(CellType::Code, "x = 1", &[]);
    c.lines_to_end_of_cell_marker = Some(2);
    let mut e = LightScriptCellExporter::new(&c, "python", &fmt(&[("extension", ".py")]));
    let text = e.remove_eoc_marker(lines(&["# +", "x = 1", "# -"]), &lines(&["# +", "y = 2"]));
    assert_eq!(text, lines(&["# +", "x = 1"]));
    assert_eq!(e.data.lines_to_next_cell, Some(2));
}

#[test]
fn remove_eoc_marker_keeps_marker_with_blank_lines() {
    let mut c = cell(CellType::Code, "x = 1", &[]);
    c.lines_to_end_of_cell_marker = Some(1);
    let mut e = LightScriptCellExporter::new(&c, "python", &fmt(&[("extension", ".py")]));
    let text = e.remove_eoc_marker(lines(&["# +", "x = 1", "# -"]), &lines(&["y = 2"]));
    assert_eq!(text, lines(&["# +", "x = 1", "", "# -"]));
}

#[test]
fn remove_eoc_marker_pep8_blank_lines() {
    let c = cell(CellType::Code, "def f():\n    return 1", &[]);
    let mut e = LightScriptCellExporter::new(&c, "python", &fmt(&[("extension", ".py")]));
    let text = e.remove_eoc_marker(lines(&["# +", "def f():", "    return 1", "# -"]), &lines(&["y = 2"]));
    assert_eq!(text, lines(&["# +", "def f():", "    return 1", "", "", "# -"]));
}

#[test]
fn remove_eoc_marker_leaves_markdown() {
    let c = cell(CellType::Markdown, "text", &[]);
    let mut e = LightScriptCellExporter::new(&c, "python", &fmt(&[("extension", ".py")]));
    let text = e.remove_eoc_marker(lines(&["# text", "# -"]), &[]);
    assert_eq!(text, lines(&["# text", "# -"]));
}

#[test]
fn test_sphinx_gallery_code_cell() {
    let c = cell(CellType::Code, "x = 1", &[]);
    let mut exporter = SphinxGalleryCellExporter::new(&c, "python", &fmt(&[("extension", ".py")]));
    let text = exporter.cell_to_text();
    assert_eq!(text, vec!["x = 1"]);
}

#[test]
fn test_sphinx_gallery_markdown_cell() {
    let c = cell(CellType::Markdown, "Hello world", &[]);
    let mut exporter = SphinxGalleryCellExporter::new(&c, "python", &fmt(&[("extension", ".py")]));
    let text = exporter.cell_to_text();
    assert_eq!(text[0], "#".repeat(79));
    assert_eq!(text[1], "# Hello world");
}

#[test]
fn sphinx_markdown_between_triple_quotes() {
    let mut c = cell(CellType::Markdown, "Title\n=====", &["cell_marker"]);
    c.cell_marker = Some("\"\"\"".to_string());
    let mut exporter = SphinxGalleryCellExporter::new(&c, "python", &fmt(&[("extension", ".py")]));
    assert!(exporter.data.metadata_keys.contains(&"cell_marker".to_string()));
    let text = exporter.cell_to_text();
    assert_eq!(text, lines(&["\"\"\"", "Title", "=====", "\"\"\""]));
    assert!(!exporter.data.metadata_keys.contains(&"cell_marker".to_string()));
    let again = exporter.cell_to_text();
    assert_eq!(again[0], "#".repeat(79));
}

#[test]
fn sphinx_empty_markdown_cell() {
    let mut c = cell(CellType::Markdown, "", &["cell_marker"]);
    c.cell_marker = Some("''".to_string());
    let mut exporter = SphinxGalleryCellExporter::new(&c, "python", &fmt(&[("extension", ".py")]));
    assert_eq!(exporter.cell_to_text(), lines(&["''"]));
    let c = cell(CellType::Markdown, "", &[]);
    let mut exporter = SphinxGalleryCellExporter::new(&c, "python", &fmt(&[("extension", ".py")]));
    assert_eq!(exporter.cell_to_text(), lines(&["\"\""]));
}

#[test]
fn sphinx_custom_hash_marker() {
    let marker = "#".repeat(30);
    let mut c = cell(CellType::Markdown, "Text", &["cell_marker"]);
    c.cell_marker = Some(marker.clone());
    let mut exporter = SphinxGalleryCellExporter::new(&c, "python", &fmt(&[("extension", ".py")]));
    assert_eq!(exporter.cell_to_text(), vec![marker, "# Text".to_string()]);
    let mut c = cell(CellType::Markdown, "Text", &["cell_marker"]);
    c.cell_marker = Some("# short".to_string());
    let mut exporter = SphinxGalleryCellExporter::new(&c, "python", &fmt(&[("extension", ".py")]));
    assert_eq!(exporter.cell_to_text()[0], "#".repeat(79));
}
