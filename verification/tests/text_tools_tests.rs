use jupytext::cell_reader::{
    blank_line, count_lines_to_next_cell, create_cell_reader, last_two_lines_blank,
    next_code_is_indented, paragraph_is_fully_commented, uncomment, CellKind, FormatOptions,
};
use jupytext::cell_to_text::{cell_source, endofcell_marker, source_needs_protection, three_backticks_or_more};
use jupytext::cli::{diff_strings, format_spec_to_dict, input_format_from_path};
use jupytext::formats::{NotebookLanguage, ReaderType};
use jupytext::languages::{default_language_from_metadata_and_ext, set_main_and_cell_language, LanguageCell};
use jupytext::header::{insert_or_test_version_number, uncomment_line};
use jupytext::jupytext::{fmt_dict_to_string, VERSION};
use jupytext::format_map::FormatMap;
use jupytext::myst::{is_block_break, is_closing_fence, parse_fence_open, strip_blank_lines};
use jupytext::notebook::CellType;

fn s(lines: &[&str]) -> Vec<String> {
    lines.iter().map(|l| l.to_string()).collect()
}

#[test]
fn test_blank_line_regex() {
    assert!(blank_line(""));
    assert!(blank_line("   "));
    assert!(blank_line("\t"));
    assert!(!blank_line("x"));
}

#[test]
fn test_count_lines_to_next_cell_basic() {
    assert_eq!(count_lines_to_next_cell(5, 6, 10, false), 1);
    assert_eq!(count_lines_to_next_cell(5, 7, 10, false), 2);
    assert_eq!(count_lines_to_next_cell(5, 7, 10, true), 1);
    assert_eq!(count_lines_to_next_cell(10, 10, 10, false), 1);
}

#[test]
fn test_last_two_lines_blank() {
    assert!(!last_two_lines_blank(&s(&["", ""])));
    assert!(last_two_lines_blank(&s(&["code", "", ""])));
    assert!(!last_two_lines_blank(&s(&["", "", ""])));
}

#[test]
fn cell_reader_test_create_cell_reader_markdown() {
    let fmt = FormatOptions { extension: Some(".md".to_string()), ..Default::default() };
    let reader = create_cell_reader(&fmt, None);
    assert_eq!(reader, ReaderType::Markdown);
}

#[test]
fn cell_reader_test_create_cell_reader_percent() {
    let fmt = FormatOptions {
        extension: Some(".py".to_string()),
        format_name: Some("percent".to_string()),
        ..Default::default()
    };
    let reader = create_cell_reader(&fmt, None);
    assert_eq!(reader, ReaderType::DoublePercent);
}

#[test]
fn readers_by_extension_and_name() {
    let fmt = FormatOptions { extension: Some(".R".to_string()), ..Default::default() };
    assert_eq!(create_cell_reader(&fmt, Some("R")), ReaderType::RScript);
    let fmt = FormatOptions { extension: Some(".Rmd".to_string()), ..Default::default() };
    assert_eq!(create_cell_reader(&fmt, None), ReaderType::RMarkdown);
    let fmt = FormatOptions { extension: Some(".jl".to_string()), ..Default::default() };
    assert_eq!(create_cell_reader(&fmt, None), ReaderType::LightScript);
    let fmt = FormatOptions {
        extension: Some(".py".to_string()),
        format_name: Some("sphinx-gallery".to_string()),
        ..Default::default()
    };
    assert_eq!(create_cell_reader(&fmt, None), ReaderType::SphinxGallery);
    assert_eq!(fmt.ext(), ".py");
    assert_eq!(FormatOptions::default().ext(), "");
    assert_eq!(CellKind::Raw.to_cell_type(), CellType::Raw);
}

#[test]
fn reader_line_helpers() {
    assert!(next_code_is_indented(&s(&["", "   x = 1"])));
    assert!(!next_code_is_indented(&s(&["", "x = 1", "  y"])));
    assert!(!next_code_is_indented(&s(&["", " "])));
    assert!(paragraph_is_fully_commented(&s(&["# a", "# b"]), "#", "python"));
    assert!(paragraph_is_fully_commented(&s(&["# a", ""]), "#", "python"));
    assert!(!paragraph_is_fully_commented(&s(&["# %time"]), "#", "python"));
    assert!(!paragraph_is_fully_commented(&s(&["x = 1"]), "#", "python"));
    assert_eq!(uncomment(&s(&["# a", "#b", "c"]), "#", ""), vec!["a", "b", "c"]);
    assert_eq!(count_lines_to_next_cell(3, 5, 5, false), 3);
}

#[test]
fn test_three_backticks_basic() {
    let lines = vec!["some code".to_string()];
    assert_eq!(three_backticks_or_more(&lines), "```");
}

#[test]
fn test_three_backticks_with_fence() {
    let lines = vec!["```python".to_string(), "print('hello')".to_string()];
    assert_eq!(three_backticks_or_more(&lines), "````");
}

#[test]
fn test_three_backticks_nested() {
    let lines = vec!["````".to_string()];
    assert_eq!(three_backticks_or_more(&lines), "`````");
}

#[test]
fn backticks_grow_with_each_fence_line() {
    let lines = s(&["````", "``````x", "```"]);
    assert_eq!(three_backticks_or_more(&lines), "```````");
    assert!(source_needs_protection(&s(&["text", "```"]), &CellType::Markdown));
    assert!(source_needs_protection(&s(&["<!-- #region -->"]), &CellType::Markdown));
    assert!(!source_needs_protection(&s(&["```"]), &CellType::Code));
    assert!(!source_needs_protection(&s(&["plain"]), &CellType::Markdown));
}

#[test]
fn test_diff_strings_identical() {
    let diff = diff_strings("a\nb\nc\n", "a\nb\nc\n", "file1", "file2");
    assert!(diff.is_empty());
}

#[test]
fn test_diff_strings_different() {
    let diff = diff_strings("a\nb\nc", "a\nB\nc", "file1", "file2");
    assert!(!diff.is_empty());
    assert!(diff.contains("-b"));
    assert!(diff.contains("+B"));
}

#[test]
fn diff_strings_text() {
    assert_eq!(diff_strings("a\nb", "a\nB", "x", "y"), "--- x\n+++ y\n a\n-b\n+B");
    assert_eq!(diff_strings("a\n", "a", "x", "y"), "");
    let f = input_format_from_path("dir/nb.py").unwrap();
    assert_eq!(f.get("extension"), Some(".py".to_string()));
    assert!(input_format_from_path("README").is_none());
    let f = format_spec_to_dict("py:percent");
    assert_eq!(f.get("format_name"), Some("percent".to_string()));
}

#[test]
fn test_block_break() {
    assert!(is_block_break("+++"));
    assert!(is_block_break("+++ {\"key\": \"value\"}"));
    assert!(!is_block_break("# heading"));
}

#[test]
fn test_parse_fence_open_code() {
    let result = parse_fence_open("```{code-cell} python3");
    assert!(result.is_some());
    let (fence, directive, lexer) = result.unwrap();
    assert_eq!(fence, "```");
    assert_eq!(directive, "{code-cell}");
    assert_eq!(lexer, Some("python3".to_string()));
}

#[test]
fn test_parse_fence_open_raw() {
    let result = parse_fence_open("```{raw-cell}");
    assert!(result.is_some());
    let (fence, directive, lexer) = result.unwrap();
    assert_eq!(fence, "```");
    assert_eq!(directive, "{raw-cell}");
    assert_eq!(lexer, None);
}

#[test]
fn test_parse_fence_open_not_directive() {
    let result = parse_fence_open("```python");
    assert!(result.is_none());
}

#[test]
fn myst_fences_and_blank_lines() {
    let (fence, _, _) = parse_fence_open("  ````{code-cell}  ipython3 ").unwrap();
    assert_eq!(fence, "````");
    assert!(parse_fence_open("``{code-cell}").is_none());
    assert!(is_closing_fence(" ```` ", "````"));
    assert!(!is_closing_fence("```", "````"));
    assert_eq!(strip_blank_lines("\n\n text \n\n"), " text");
    assert!(!is_block_break("++++"));
}

#[test]
fn round_trip_tests_test_cell_type_from_str() {
    assert_eq!(CellType::from_str("code"), Some(CellType::Code));
    assert_eq!(CellType::from_str("markdown"), Some(CellType::Markdown));
    assert_eq!(CellType::from_str("md"), Some(CellType::Markdown));
    assert_eq!(CellType::from_str("raw"), Some(CellType::Raw));
    assert_eq!(CellType::from_str("unknown"), None);
}

#[test]
fn round_trip_tests_test_cell_type_display() {
    assert_eq!(CellType::Code.to_string(), "code");
    assert_eq!(CellType::Markdown.to_string(), "markdown");
    assert_eq!(CellType::Raw.to_string(), "raw");
}

#[test]
fn unit_tests_test_cell_type_from_str() {
    assert_eq!(CellType::from_str("code"), Some(CellType::Code));
    assert_eq!(CellType::from_str("markdown"), Some(CellType::Markdown));
    assert_eq!(CellType::from_str("md"), Some(CellType::Markdown));
    assert_eq!(CellType::from_str("raw"), Some(CellType::Raw));
    assert_eq!(CellType::from_str("unknown"), None);
}

#[test]
fn unit_tests_test_cell_type_display() {
    assert_eq!(CellType::Code.to_string(), "code");
    assert_eq!(CellType::Markdown.to_string(), "markdown");
    assert_eq!(CellType::Raw.to_string(), "raw");
}

#[test]
fn test_version_constant() {
    assert!(!VERSION.is_empty());
}

#[test]
fn header_and_format_strings() {
    assert!(insert_or_test_version_number());
    assert_eq!(uncomment_line("# text", "#", ""), "text");
    assert_eq!(uncomment_line("/* text */ ", "/*", "*/"), "text ");
    assert_eq!(uncomment_line("(* text *)", "(*", "*)"), "text ");
    let mut m = FormatMap::new();
    m.insert("extension".to_string(), "..py".to_string());
    m.insert("format_name".to_string(), "percent".to_string());
    assert_eq!(fmt_dict_to_string(&m), "py:percent");
    assert_eq!(fmt_dict_to_string(&FormatMap::new()), "ipynb");
}

#[test]
fn test_endofcell_marker_basic() {
    let source = vec!["x = 1".to_string(), "".to_string(), "y = 2".to_string()];
    assert_eq!(endofcell_marker(&source, "#"), "-");
}

#[test]
fn test_endofcell_marker_conflict() {
    let source = vec!["# -".to_string()];
    assert_eq!(endofcell_marker(&source, "#"), "--");
}

#[test]
fn endofcell_marker_grows_past_every_taken_marker() {
    let source = vec!["# -".to_string(), "#   --  ".to_string(), "// ---".to_string()];
    assert_eq!(endofcell_marker(&source, "#"), "---");
    assert_eq!(endofcell_marker(&source, "//"), "-");
}

#[test]
fn test_cell_source_empty() {
    assert_eq!(cell_source(""), vec![""]);
}

#[test]
fn test_cell_source_single_line() {
    assert_eq!(cell_source("x = 1"), vec!["x = 1"]);
}

#[test]
fn test_cell_source_trailing_newline() {
    assert_eq!(cell_source("x = 1\n"), vec!["x = 1", ""]);
}

#[test]
fn test_cell_source_multi_line() {
    assert_eq!(cell_source("x = 1\ny = 2"), vec!["x = 1", "y = 2"]);
}

fn notebook_language(kernel: Option<&str>, main: Option<&str>) -> NotebookLanguage {
    NotebookLanguage {
        file_extension: None,
        kernel_language: kernel.map(|s| s.to_string()),
        main_language: main.map(|s| s.to_string()),
    }
}

#[test]
fn default_language_prefers_main_language() {
    let l = notebook_language(Some("R"), Some("python"));
    assert_eq!(default_language_from_metadata_and_ext(&l, ".R", false), Some("python".to_string()));
}

#[test]
fn default_language_from_kernel() {
    assert_eq!(
        default_language_from_metadata_and_ext(&notebook_language(Some("C#"), None), ".cs", false),
        Some("csharp".to_string())
    );
    assert_eq!(
        default_language_from_metadata_and_ext(&notebook_language(Some("C++17"), None), ".cpp", false),
        Some("c++".to_string())
    );
    assert_eq!(
        default_language_from_metadata_and_ext(&notebook_language(Some("R"), None), ".py", true),
        Some("R".to_string())
    );
    assert_eq!(
        default_language_from_metadata_and_ext(&notebook_language(Some("Python"), None), ".py", false),
        Some("python".to_string())
    );
}

#[test]
fn default_language_from_extension() {
    let none = notebook_language(None, None);
    assert_eq!(default_language_from_metadata_and_ext(&none, ".jl", false), Some("julia".to_string()));
    assert_eq!(default_language_from_metadata_and_ext(&none, ".xyz", false), None);
}

fn language_cell(source: &str, language: Option<&str>, magic_args: Option<&str>) -> LanguageCell {
    let mut keys = Vec::new();
    if language.is_some() {
        keys.push("language".to_string());
    }
    if magic_args.is_some() {
        keys.push("magic_args".to_string());
    }
    LanguageCell {
        source: source.to_string(),
        metadata_keys: keys,
        language: language.map(|s| s.to_string()),
        magic_args: magic_args.map(|s| s.to_string()),
    }
}

#[test]
fn cell_languages_become_magics() {
    let mut nb = notebook_language(Some("python"), None);
    let mut cells = vec![
        language_cell("ls", Some("bash"), Some("--out x")),
        language_cell("x = 1", Some("python"), None),
        language_cell("plain", None, None),
        language_cell("text", Some("klingon"), None),
    ];
    set_main_and_cell_language(&mut nb, &mut cells, ".py", &[]);
    assert_eq!(nb.main_language, None);
    assert_eq!(cells[0].source, "%%bash --out x\nls");
    assert!(cells[0].metadata_keys.is_empty());
    assert_eq!(cells[0].language, None);
    assert_eq!(cells[1].source, "x = 1");
    assert_eq!(cells[1].language, None);
    assert!(cells[1].metadata_keys.is_empty());
    assert_eq!(cells[2].source, "plain");
    assert_eq!(cells[3].language, Some("klingon".to_string()));
}

#[test]
fn most_common_cell_language_is_main() {
    let mut nb = notebook_language(None, None);
    let mut cells = vec![
        language_cell("ls", Some("bash"), None),
        language_cell("pwd", Some("bash"), None),
        language_cell("x = 1", Some("python"), None),
    ];
    set_main_and_cell_language(&mut nb, &mut cells, ".xyz", &[]);
    assert_eq!(nb.main_language, Some("bash".to_string()));
    assert_eq!(cells[0].source, "ls");
    assert_eq!(cells[0].language, None);
    assert_eq!(cells[2].source, "%%python\nx = 1");
}

#[test]
fn python_wins_a_tie() {
    let mut nb = notebook_language(None, None);
    let mut cells = vec![
        language_cell("ls", Some("bash"), None),
        language_cell("x = 1", Some("python"), None),
    ];
    set_main_and_cell_language(&mut nb, &mut cells, ".xyz", &[]);
    assert_eq!(nb.main_language, Some("python".to_string()));
    assert_eq!(cells[0].source, "%%bash\nls");
}

#[test]
fn csharp_cells_use_hash_bang() {
    let mut nb = notebook_language(Some("C#"), None);
    let mut cells = vec![language_cell("x", Some("fsharp"), None)];
    set_main_and_cell_language(&mut nb, &mut cells, ".cs", &["fsharp".to_string()]);
    assert_eq!(cells[0].source, "#!fsharp\nx");
}

#[test]
fn strip_blank_lines_drops_whitespace_lines() {
    assert_eq!(strip_blank_lines("  \nabc"), "abc");
    assert_eq!(strip_blank_lines("\n \t\n  x\ny\n \n"), "  x\ny");
    assert_eq!(strip_blank_lines("   "), "");
}
