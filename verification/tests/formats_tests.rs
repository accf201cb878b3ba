use jupytext::format_check::validate_one_format;
use jupytext::format_map::FormatMap;
use jupytext::formats::{
    auto_ext_from_metadata, check_auto_ext, identical_format_path, NotebookLanguage,
    formats_with_no_cell_metadata, formats_with_support_for_cell_metadata,
    get_format_implementation, jupytext_formats, long_form_multiple_formats_as_strings,
    long_form_one_format_as_strings, normalise_ext, notebook_extensions, parse_format,
    parse_format_lowered, short_form_multiple_formats_str, short_form_one_format_str,
    valid_format_name, ExporterType, ReaderType,
};

fn map_of(pairs: &[(&str, &str)]) -> FormatMap {
    let mut m = FormatMap::new();
    for (k, v) in pairs {
        m.insert(k.to_string(), v.to_string());
    }
    m
}

#[test]
fn test_notebook_extensions_starts_with_ipynb() {
    assert_eq!(notebook_extensions()[0], ".ipynb");
}

#[test]
fn test_notebook_extensions_no_duplicates() {
    let exts = notebook_extensions();
    for (i, a) in exts.iter().enumerate() {
        for b in exts.iter().skip(i + 1) {
            assert_ne!(a, b, "Duplicate extension: {}", a);
        }
    }
}

#[test]
fn formats_test_get_format_implementation_default() {
    let fmt = get_format_implementation(".py", None).unwrap();
    assert_eq!(fmt.format_name, "light");
    assert_eq!(fmt.extension, ".py");
}

#[test]
fn formats_test_get_format_implementation_percent() {
    let fmt = get_format_implementation(".py", Some("percent")).unwrap();
    assert_eq!(fmt.format_name, "percent");
}

#[test]
fn test_get_format_implementation_unknown_ext() {
    let result = get_format_implementation(".xyz", None);
    assert!(result.is_err());
}

#[test]
fn unit_tests_test_get_format_implementation_default() {
    let result = get_format_implementation(".py", None);
    assert!(result.is_ok());
    assert_eq!(result.unwrap().format_name, "light");
}

#[test]
fn unit_tests_test_get_format_implementation_percent() {
    let result = get_format_implementation(".py", Some("percent"));
    assert!(result.is_ok());
    assert_eq!(result.unwrap().format_name, "percent");
}

#[test]
fn test_get_format_implementation_wrong_format() {
    let result = get_format_implementation(".py", Some("wrong_format"));
    assert!(result.is_err());
}

#[test]
fn test_formats_with_no_cell_metadata() {
    let names = formats_with_no_cell_metadata();
    assert!(names.contains(&"sphinx"));
    assert!(names.contains(&"nomarker"));
    assert!(!names.contains(&"percent"));
}

#[test]
fn get_format_implementation_error_messages() {
    let e = get_format_implementation("xyz", None).unwrap_err();
    assert_eq!(e.0, "No format associated to extension '.xyz'");
    let e = get_format_implementation(".Rmd", Some("percent")).unwrap_err();
    assert_eq!(
        e.0,
        "Format 'percent' is not associated to extension '.Rmd'. Please choose one of: rmarkdown."
    );
}

#[test]
fn get_format_implementation_compound_extension() {
    let fmt = get_format_implementation(".lgt.py", Some("hydrogen")).unwrap();
    assert_eq!(fmt.extension, ".py");
    assert_eq!(fmt.reader_type, ReaderType::Hydrogen);
    assert_eq!(fmt.exporter_type, ExporterType::Hydrogen);
    assert_eq!(normalise_ext("py"), ".py");
    assert_eq!(normalise_ext("a.b.jl"), ".jl");
}

#[test]
fn registry_shape() {
    let fmts = jupytext_formats();
    assert_eq!(fmts[0].format_name, "markdown");
    assert_eq!(fmts[fmts.len() - 1].format_name, "myst");
    assert!(valid_format_name("spin"));
    assert!(!valid_format_name("bare"));
    let support = formats_with_support_for_cell_metadata();
    assert!(support.contains(&"py:percent".to_string()));
    assert!(support.contains(&"md:markdown".to_string()));
    assert!(!support.contains(&"py:sphinx".to_string()));
    assert!(!support.contains(&"md:myst".to_string()));
}

#[test]
fn long_form_of_format_strings() {
    let m = long_form_one_format_as_strings("py:percent");
    assert_eq!(m.get("extension"), Some(".py".to_string()));
    assert_eq!(m.get("format_name"), Some("percent".to_string()));
    assert_eq!(m.get("prefix"), None);

    let m = long_form_one_format_as_strings("notebooks/sfx.py:bare");
    assert_eq!(m.get("prefix"), Some("notebooks".to_string()));
    assert_eq!(m.get("suffix"), Some("sfx".to_string()));
    assert_eq!(m.get("extension"), Some(".py".to_string()));
    assert_eq!(m.get("format_name"), Some("nomarker".to_string()));

    let m = long_form_one_format_as_strings("Notebook");
    assert_eq!(m.get("extension"), Some(".ipynb".to_string()));
    assert_eq!(m.get("format_name"), None);

    let m = long_form_one_format_as_strings("percent");
    assert_eq!(m.get("format_name"), None);
    assert_eq!(m.get("extension"), Some(".percent".to_string()));
}

#[test]
fn long_form_of_invalid_format_keeps_extension() {
    let m = long_form_one_format_as_strings("xyz");
    assert_eq!(m.get("extension"), Some(".xyz".to_string()));
    assert_eq!(m.keys().len(), 1);
    let m = long_form_one_format_as_strings(".abc");
    assert_eq!(m.get("extension"), Some(".abc".to_string()));
    assert!(parse_format("py:unknown_name").is_none());
    assert!(parse_format("").unwrap().keys().is_empty());
    let m = parse_format_lowered("MARKDOWN", "markdown").unwrap();
    assert_eq!(m.get("extension"), Some(".md".to_string()));
}

#[test]
fn long_form_of_multiple_formats() {
    let fmts = long_form_multiple_formats_as_strings("ipynb, py:percent,,auto,bogus:x");
    assert_eq!(fmts.len(), 2);
    assert_eq!(fmts[0].get("extension"), Some(".ipynb".to_string()));
    assert_eq!(fmts[1].get("format_name"), Some("percent".to_string()));
}

#[test]
fn short_forms() {
    let m = map_of(&[("extension", ".py"), ("format_name", "percent")]);
    assert_eq!(short_form_one_format_str(&m), "py:percent");
    let m = map_of(&[("extension", ".md"), ("format_name", "markdown")]);
    assert_eq!(short_form_one_format_str(&m), "md");
    let m = map_of(&[("extension", ".md"), ("format_name", "myst")]);
    assert_eq!(short_form_one_format_str(&m), "md:myst");
    let m = map_of(&[("extension", ".py"), ("suffix", ".nb"), ("prefix", "dir")]);
    assert_eq!(short_form_one_format_str(&m), "dir/.nb.py");
    let m = map_of(&[("extension", "true")]);
    assert_eq!(short_form_one_format_str(&m), "");
    let fmts = vec![
        map_of(&[("extension", ".ipynb")]),
        map_of(&[("extension", ".py"), ("format_name", "percent")]),
    ];
    assert_eq!(short_form_multiple_formats_str(&fmts), "ipynb,py:percent");
}

#[test]
fn short_form_of_long_form_round_trip() {
    for s in ["py:percent", "ipynb", "md", "dir/nb.py:light", "md:myst", "Rmd"] {
        let m = long_form_one_format_as_strings(s);
        assert_eq!(short_form_one_format_str(&m), s);
    }
}

fn lang(ext: Option<&str>, kernel: Option<&str>, main: Option<&str>) -> NotebookLanguage {
    NotebookLanguage {
        file_extension: ext.map(|s| s.to_string()),
        kernel_language: kernel.map(|s| s.to_string()),
        main_language: main.map(|s| s.to_string()),
    }
}

#[test]
fn auto_ext_from_language_information() {
    assert_eq!(auto_ext_from_metadata(&lang(Some(".py"), None, None)).as_deref(), Some(".py"));
    assert_eq!(auto_ext_from_metadata(&lang(Some(".py"), Some("sage"), None)).as_deref(), Some(".sage"));
    assert_eq!(auto_ext_from_metadata(&lang(Some(".r"), None, None)).as_deref(), Some(".R"));
    assert_eq!(auto_ext_from_metadata(&lang(None, Some("python"), None)).as_deref(), Some(".py"));
    assert_eq!(auto_ext_from_metadata(&lang(None, Some("R"), Some("python"))).as_deref(), Some(".R"));
    assert_eq!(auto_ext_from_metadata(&lang(None, None, Some("julia"))).as_deref(), Some(".jl"));
    assert_eq!(auto_ext_from_metadata(&lang(None, Some("C++17"), None)).as_deref(), Some(".cpp"));
    assert_eq!(auto_ext_from_metadata(&lang(None, Some("fsharp"), None)).as_deref(), Some(".fsx"));
    assert_eq!(auto_ext_from_metadata(&lang(None, None, None)), None);
    assert_eq!(auto_ext_from_metadata(&lang(None, Some("unknown-language"), None)), None);
}

#[test]
fn check_auto_ext_replaces_or_fails() {
    let fmt = long_form_one_format_as_strings("auto:percent");
    let ok = check_auto_ext(&fmt, &lang(Some(".jl"), None, None), "--to").unwrap();
    assert_eq!(ok.get("extension").as_deref(), Some(".jl"));
    assert_eq!(ok.get("format_name").as_deref(), Some("percent"));
    let err = check_auto_ext(&fmt, &lang(None, None, None), "--to").unwrap_err();
    assert_eq!(
        err.0,
        "The notebook does not have a 'language_info' metadata. Please replace 'auto' with the actual language extension in the --to option (currently auto:percent)."
    );
    let py = long_form_one_format_as_strings("py:light");
    let same = check_auto_ext(&py, &lang(None, None, None), "--to").unwrap();
    assert_eq!(same.get("extension").as_deref(), Some(".py"));
}

#[test]
fn identical_format_paths() {
    let a = long_form_one_format_as_strings("dir/sfx.py:percent");
    let b = long_form_one_format_as_strings("dir/sfx.py:light");
    let c = long_form_one_format_as_strings("sfx.py:percent");
    let d = long_form_one_format_as_strings("dir/sfx.md");
    assert!(identical_format_path(&a, &b));
    assert!(!identical_format_path(&a, &c));
    assert!(!identical_format_path(&a, &d));
}

#[test]
fn test_decompress_compress_roundtrip_ipynb() {
    let long = long_form_multiple_formats_as_strings("ipynb");
    let short = short_form_multiple_formats_str(&long);
    assert_eq!(short, "ipynb");
}

#[test]
fn test_decompress_compress_roundtrip_ipynb_md() {
    let long = long_form_multiple_formats_as_strings("ipynb,md");
    let short = short_form_multiple_formats_str(&long);
    assert_eq!(short, "ipynb,md");
}

#[test]
fn test_decompress_compress_roundtrip_ipynb_py_light() {
    let long = long_form_multiple_formats_as_strings("ipynb,py:light");
    let short = short_form_multiple_formats_str(&long);
    assert_eq!(short, "ipynb,py:light");
}

#[test]
fn test_decompress_compress_roundtrip_suffix() {
    let long = long_form_multiple_formats_as_strings(".pct.py:percent");
    let short = short_form_multiple_formats_str(&long);
    assert_eq!(short, ".pct.py:percent");
}

#[test]
fn test_format_roundtrip_long_short() {
    // long_form -> short_form is stable for common formats
    let format_strings = vec!["ipynb", "py:light", "py:percent", "md", ".pct.py:percent"];
    for fs in format_strings {
        let long = parse_format(fs).unwrap();
        let short = short_form_one_format_str(&long);
        assert_eq!(short, fs, "Roundtrip failed for {}", fs);
    }
}

#[test]
fn test_long_form_one_format_simple() {
    let fmt = parse_format("py:percent").unwrap();
    assert_eq!(fmt.get("extension").as_deref(), Some(".py"));
    assert_eq!(fmt.get("format_name").as_deref(), Some("percent"));
}

#[test]
fn formats_test_long_form_one_format_with_prefix() {
    let fmt = parse_format("notebooks/py:percent").unwrap();
    assert_eq!(fmt.get("prefix").as_deref(), Some("notebooks"));
    assert_eq!(fmt.get("extension").as_deref(), Some(".py"));
}

#[test]
fn test_long_form_one_format_common_name() {
    let fmt = parse_format("notebook").unwrap();
    assert_eq!(fmt.get("extension").as_deref(), Some(".ipynb"));
}

#[test]
fn test_short_form_round_trip() {
    let fmt = parse_format("py:percent").unwrap();
    let short = short_form_one_format_str(&fmt);
    assert_eq!(short, "py:percent");
}

#[test]
fn test_short_form_multiple() {
    let fmts = long_form_multiple_formats_as_strings("ipynb,py:percent");
    let short = short_form_multiple_formats_str(&fmts);
    assert_eq!(short, "ipynb,py:percent");
}

#[test]
fn test_long_form_one_format_ipynb() {
    let fmt = parse_format("ipynb").unwrap();
    assert_eq!(fmt.get("extension").unwrap(), ".ipynb");
}

#[test]
fn test_long_form_one_format_py_percent() {
    let fmt = parse_format("py:percent").unwrap();
    assert_eq!(fmt.get("extension").unwrap(), ".py");
    assert_eq!(fmt.get("format_name").unwrap(), "percent");
}

#[test]
fn test_long_form_one_format_with_suffix() {
    let fmt = parse_format(".pct.py:percent").unwrap();
    assert_eq!(fmt.get("extension").unwrap(), ".py");
    assert_eq!(fmt.get("suffix").unwrap(), ".pct");
    assert_eq!(fmt.get("format_name").unwrap(), "percent");
}

#[test]
fn test_long_form_one_format_empty() {
    let fmt = parse_format("").unwrap();
    assert!(fmt.keys().is_empty());
}

#[test]
fn test_long_form_multiple_formats_ipynb() {
    let result = long_form_multiple_formats_as_strings("ipynb");
    assert_eq!(result.len(), 1);
    assert_eq!(result[0].get("extension").unwrap(), ".ipynb");
}

#[test]
fn test_long_form_multiple_formats_ipynb_md() {
    let result = long_form_multiple_formats_as_strings("ipynb,md");
    assert_eq!(result.len(), 2);
    assert_eq!(result[0].get("extension").unwrap(), ".ipynb");
    assert_eq!(result[1].get("extension").unwrap(), ".md");
}

#[test]
fn test_long_form_multiple_formats_ipynb_py_light() {
    let result = long_form_multiple_formats_as_strings("ipynb,py:light");
    assert_eq!(result.len(), 2);
    assert_eq!(result[1].get("extension").unwrap(), ".py");
    assert_eq!(result[1].get("format_name").unwrap(), "light");
}

#[test]
fn test_long_form_multiple_formats_with_suffix() {
    let result = long_form_multiple_formats_as_strings(".pct.py:percent");
    assert_eq!(result.len(), 1);
    assert_eq!(result[0].get("extension").unwrap(), ".py");
    assert_eq!(result[0].get("suffix").unwrap(), ".pct");
    assert_eq!(result[0].get("format_name").unwrap(), "percent");
}

#[test]
fn test_short_form_one_format_ipynb() {
    let fmt = map_of(&[("extension", ".ipynb")]);
    assert_eq!(short_form_one_format_str(&fmt), "ipynb");
}

#[test]
fn test_short_form_one_format_py_light() {
    let fmt = map_of(&[("extension", ".py"), ("format_name", "light")]);
    assert_eq!(short_form_one_format_str(&fmt), "py:light");
}

#[test]
fn test_short_form_one_format_with_suffix() {
    let fmt = map_of(&[("extension", ".py"), ("suffix", ".pct"), ("format_name", "percent")]);
    assert_eq!(short_form_one_format_str(&fmt), ".pct.py:percent");
}

#[test]
fn test_short_form_multiple_formats_ipynb() {
    let fmts = vec![map_of(&[("extension", ".ipynb")])];
    assert_eq!(short_form_multiple_formats_str(&fmts), "ipynb");
}

#[test]
fn test_short_form_multiple_formats_ipynb_md() {
    let fmts = vec![map_of(&[("extension", ".ipynb")]), map_of(&[("extension", ".md")])];
    assert_eq!(short_form_multiple_formats_str(&fmts), "ipynb,md");
}

#[test]
fn test_short_form_multiple_formats_ipynb_py_light() {
    let fmts = vec![
        map_of(&[("extension", ".ipynb")]),
        map_of(&[("extension", ".py"), ("format_name", "light")]),
    ];
    assert_eq!(short_form_multiple_formats_str(&fmts), "ipynb,py:light");
}

#[test]
fn unit_tests_test_long_form_one_format_with_prefix() {
    let fmt = parse_format("python//py:percent").unwrap();
    assert_eq!(fmt.get("prefix").unwrap(), "python/");
    assert_eq!(fmt.get("extension").unwrap(), ".py");
    assert_eq!(fmt.get("format_name").unwrap(), "percent");
}

#[test]
fn test_long_form_one_format_with_prefix_root() {
    let fmt = parse_format("notebooks///ipynb").unwrap();
    assert_eq!(fmt.get("prefix").unwrap(), "notebooks//");
    assert_eq!(fmt.get("extension").unwrap(), ".ipynb");
}

#[test]
fn test_long_form_multiple_formats_prefix_root() {
    let formats = long_form_multiple_formats_as_strings("notebooks///ipynb,scripts///py:percent");
    assert_eq!(formats.len(), 2);
    assert_eq!(formats[0].get("prefix").unwrap(), "notebooks//");
    assert_eq!(formats[1].get("prefix").unwrap(), "scripts//");
}

#[test]
fn test_validate_one_format_valid() {
    let fmt = map_of(&[("extension", ".py"), ("format_name", "percent")]);
    assert!(validate_one_format(&fmt).is_ok());
}

#[test]
fn test_validate_one_format_bad_name() {
    let fmt = map_of(&[("extension", ".py"), ("format_name", "nonexistent")]);
    assert!(validate_one_format(&fmt).is_err());
}

#[test]
fn test_validate_one_format_missing_extension() {
    let fmt = FormatMap::new();
    assert!(validate_one_format(&fmt).is_err());
}

#[test]
fn test_validate_one_format_invalid_format_name() {
    let fmt = map_of(&[("extension", ".py"), ("format_name", "invalid")]);
    let result = validate_one_format(&fmt);
    assert!(result.is_err());
}

#[test]
fn test_validate_one_format_no_extension() {
    let fmt = FormatMap::new();
    let result = validate_one_format(&fmt);
    assert!(result.is_err());
}

#[test]
fn validate_one_format_messages() {
    let err = validate_one_format(&FormatMap::new()).unwrap_err();
    assert_eq!(err.0, "Missing format extension");
    let err = validate_one_format(&map_of(&[("extension", ".txt")])).unwrap_err();
    assert!(err.0.starts_with("Extension '.txt' is not a notebook extension. Please use one of '.ipynb', '.md'"));
    let err = validate_one_format(&map_of(&[("extension", ".py"), ("zeta", "1"), ("alpha", "2")])).unwrap_err();
    assert!(err.0.starts_with("Unknown format option 'alpha' - should be one of 'comment_magics', "));
    assert!(err.0.ends_with("'custom_cell_magics'"));
    let err = validate_one_format(&map_of(&[("extension", ".py"), ("split_at_heading", "yes")])).unwrap_err();
    assert_eq!(err.0, "Format option 'split_at_heading' should be a bool, not '\"yes\"'");
    let err = validate_one_format(&map_of(&[("extension", ".py"), ("split_at_heading", "a\"b\\c\n\u{1}")])).unwrap_err();
    assert_eq!(err.0, "Format option 'split_at_heading' should be a bool, not '\"a\\\"b\\\\c\\n\\u0001\"'");
    let err = validate_one_format(&map_of(&[("extension", ".py"), ("format_name", "bad")])).unwrap_err();
    assert!(err.0.starts_with("bad is not a valid format name. Please choose one of markdown, rmarkdown, light"));
    assert!(validate_one_format(&map_of(&[("extension", ".auto"), ("comment_magics", "true")])).is_ok());
    assert!(validate_one_format(&map_of(&[("extension", ".md"), ("cell_markers", "{{{,}}}")])).is_ok());
}

fn same_map(a: &FormatMap, b: &FormatMap) -> bool {
    let mut ka = a.keys();
    let mut kb = b.keys();
    ka.sort();
    kb.sort();
    ka == kb && ka.iter().all(|k| a.get(k) == b.get(k))
}

#[test]
fn short_form_reads_back_as_long_form() {
    for pairs in [
        vec![("extension", ".py"), ("format_name", "percent")],
        vec![("extension", ".py"), ("format_name", "percent"), ("suffix", ".pct"), ("prefix", "scripts")],
        vec![("extension", ".ipynb")],
        vec![("extension", ".md"), ("format_name", "myst")],
        vec![("extension", ".R"), ("suffix", "_spin"), ("format_name", "spin")],
        vec![("extension", ".auto"), ("format_name", "light")],
    ] {
        let f = map_of(&pairs);
        let back = parse_format(&short_form_one_format_str(&f)).unwrap();
        assert!(same_map(&back, &f), "{:?}", pairs);
    }
}

#[test]
fn short_form_drops_markdown_name() {
    let f = map_of(&[("extension", ".md"), ("format_name", "markdown")]);
    assert_eq!(short_form_one_format_str(&f), "md");
    let back = parse_format("md").unwrap();
    assert!(same_map(&back, &map_of(&[("extension", ".md")])));
}

#[test]
fn short_form_of_markdown_extension_is_a_common_name() {
    let f = map_of(&[("extension", ".markdown")]);
    assert_eq!(short_form_one_format_str(&f), "markdown");
    let back = parse_format("markdown").unwrap();
    assert_eq!(back.get("extension"), Some(".md".to_string()));
}

#[test]
fn format_map_keys_keep_insertion_order() {
    let mut m = FormatMap::new();
    m.insert("zeta".to_string(), "1".to_string());
    m.insert("alpha".to_string(), "2".to_string());
    m.insert("zeta".to_string(), "3".to_string());
    assert_eq!(m.keys(), vec!["zeta".to_string(), "alpha".to_string()]);
    assert_eq!(m.get("zeta"), Some("3".to_string()));
    let other = map_of(&[("beta", "x"), ("alpha", "y"), ("gamma", "z")]);
    m.extend_missing(&other);
    assert_eq!(
        m.keys(),
        vec!["zeta".to_string(), "alpha".to_string(), "beta".to_string(), "gamma".to_string()]
    );
    assert_eq!(m.get("alpha"), Some("2".to_string()));
}
