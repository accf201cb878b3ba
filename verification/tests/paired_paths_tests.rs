use jupytext::format_map::FormatMap;
use jupytext::formats::long_form_one_format_as_strings;
use jupytext::paired_paths::{
    base_path, base_path_on, compose_prefix, decompose_prefix, find_base_path_and_format,
    full_path, full_path_on, paired_paths, split_extension, InconsistentPath,
};

fn fmt(ext: &str) -> FormatMap {
    let mut m = FormatMap::new();
    m.insert("extension".to_string(), ext.to_string());
    m
}

fn fmt_with_suffix(ext: &str, suffix: &str) -> FormatMap {
    let mut m = fmt(ext);
    m.insert("suffix".to_string(), suffix.to_string());
    m
}

fn fmt_with_prefix(ext: &str, prefix: &str) -> FormatMap {
    let mut m = fmt(ext);
    m.insert("prefix".to_string(), prefix.to_string());
    m
}

fn fmt_with_name(ext: &str, name: &str) -> FormatMap {
    let mut m = fmt(ext);
    m.insert("format_name".to_string(), name.to_string());
    m
}

#[test]
fn paired_paths_test_base_path_simple() {
    let f = fmt(".py");
    let result = base_path("notebook.py", &f, &[]).unwrap();
    assert_eq!(result, "notebook");
}

#[test]
fn paired_paths_test_base_path_ipynb() {
    let f = fmt(".ipynb");
    let result = base_path("test/notebook.ipynb", &f, &[]).unwrap();
    assert_eq!(result, "test/notebook");
}

#[test]
fn paired_paths_test_base_path_with_suffix() {
    let f = fmt_with_suffix(".py", ".nb");
    let result = base_path("notebook.nb.py", &f, &[]).unwrap();
    assert_eq!(result, "notebook");
}

#[test]
fn paired_paths_test_base_path_inconsistent_suffix() {
    let f = fmt_with_suffix(".py", ".nb");
    let result = base_path("notebook.py", &f, &[]);
    assert!(result.is_err());
}

#[test]
fn paired_paths_test_base_path_wrong_extension() {
    let f = fmt(".py");
    let result = base_path("notebook.ipynb", &f, &[]);
    assert!(result.is_err());
}

#[test]
fn paired_paths_test_full_path_simple() {
    let f = fmt(".py");
    let result = full_path("notebook", &f).unwrap();
    assert_eq!(result, "notebook.py");
}

#[test]
fn paired_paths_test_full_path_with_suffix() {
    let f = fmt_with_suffix(".py", ".nb");
    let result = full_path("notebook", &f).unwrap();
    assert_eq!(result, "notebook.nb.py");
}

#[test]
fn paired_paths_test_full_path_with_dir() {
    let f = fmt(".ipynb");
    let result = full_path("path/to/notebook", &f).unwrap();
    assert_eq!(result, "path/to/notebook.ipynb");
}

#[test]
fn test_full_path_with_prefix_dir() {
    let f = fmt_with_prefix(".py", "scripts/");
    let result = full_path("path/notebook", &f).unwrap();
    assert_eq!(result, "path/scripts/notebook.py");
}

#[test]
fn paired_paths_test_paired_paths_no_formats() {
    let f = fmt(".py");
    let result = paired_paths("notebook.py", &f, &[]).unwrap();
    assert_eq!(result.len(), 1);
    assert_eq!(result[0].0, "notebook.py");
}

#[test]
fn paired_paths_test_paired_paths_ipynb_and_py() {
    let ipynb = fmt(".ipynb");
    let py = fmt(".py");
    let formats = vec![ipynb.clone(), py.clone()];

    let result = paired_paths("notebook.ipynb", &ipynb, &formats).unwrap();
    assert_eq!(result.len(), 2);
    assert_eq!(result[0].0, "notebook.ipynb");
    assert_eq!(result[1].0, "notebook.py");
}

#[test]
fn test_split_extension() {
    assert_eq!(split_extension("notebook.ipynb"), ("notebook".to_string(), ".ipynb".to_string()));
    assert_eq!(split_extension("path/to/file.py"), ("path/to/file".to_string(), ".py".to_string()));
    assert_eq!(split_extension("noext"), ("noext".to_string(), String::new()));
}

#[test]
fn test_decompose_prefix() {
    assert_eq!(
        decompose_prefix("notebooks//scripts/test_"),
        ("notebooks".to_string(), "scripts".to_string(), "test_".to_string())
    );
    assert_eq!(decompose_prefix("scripts/"), (String::new(), "scripts".to_string(), String::new()));
    assert_eq!(decompose_prefix("test_"), (String::new(), String::new(), "test_".to_string()));
    assert_eq!(decompose_prefix(""), (String::new(), String::new(), String::new()));
}

#[test]
fn prefixes_in_full_paths() {
    let f = fmt_with_prefix(".py", "notebooks//scripts/test_");
    assert_eq!(full_path("a//b/nb", &f).unwrap(), "anotebooks/b/scripts/test_nb.py");
    let f = fmt_with_prefix(".py", "test_");
    assert_eq!(full_path("dir/nb", &f).unwrap(), "dir/test_nb.py");
    assert_eq!(compose_prefix("notebooks", "scripts", "test_"), "notebooks//scripts/test_");
    assert_eq!(compose_prefix("", "", ""), "");
}

#[test]
fn paired_paths_test_roundtrip_base_full() {
    let formats = vec![fmt(".ipynb"), fmt(".py")];
    let bp = base_path("notebook.ipynb", &fmt(".ipynb"), &formats).unwrap();
    assert_eq!(bp, "notebook");
    let fp = full_path(&bp, &fmt(".py")).unwrap();
    assert_eq!(fp, "notebook.py");
}

#[test]
fn test_simple_pair() {
    let ipynb = fmt(".ipynb");
    let py = fmt(".py");
    let formats = vec![ipynb.clone(), py.clone()];

    let paths = paired_paths("notebook.ipynb", &ipynb, &formats).unwrap();
    assert_eq!(paths.len(), 2);
    assert_eq!(paths[0].0, "notebook.ipynb");
    assert_eq!(paths[1].0, "notebook.py");

    let paths = paired_paths("notebook.py", &py, &formats).unwrap();
    assert_eq!(paths.len(), 2);
    assert_eq!(paths[0].0, "notebook.ipynb");
    assert_eq!(paths[1].0, "notebook.py");
}

#[test]
fn unit_tests_test_base_path_simple() {
    let f = fmt(".py");
    let result = base_path("notebook.py", &f, &[]).unwrap();
    assert_eq!(result, "notebook");
}

#[test]
fn unit_tests_test_base_path_ipynb() {
    let f = fmt(".ipynb");
    let result = base_path("test/notebook.ipynb", &f, &[]).unwrap();
    assert_eq!(result, "test/notebook");
}

#[test]
fn test_base_path_with_prefix() {
    let f = long_form_one_format_as_strings("dir/prefix_/ipynb");
    let result = base_path("dir/prefix_NAME.ipynb", &f, &[]).unwrap();
    assert_eq!(result, "NAME");
}

#[test]
fn test_base_path_inconsistent_prefix() {
    let f = long_form_one_format_as_strings("dir/prefix_/ipynb");
    let result = base_path("dir/incorrect_prefix_NAME.ipynb", &f, &[]);
    assert!(result.is_err());
}

#[test]
fn test_base_path_dotdot() {
    let f = long_form_one_format_as_strings("../scripts//py");
    let result = base_path("scripts/test.py", &f, &[]).unwrap();
    assert_eq!(result, "scripts/test");
}

#[test]
fn test_full_path_dotdot() {
    let f = long_form_one_format_as_strings("../scripts//py");
    let result = full_path("scripts/test", &f).unwrap();
    assert_eq!(result, "scripts/test.py");
}

#[test]
fn unit_tests_test_full_path_simple() {
    let f = fmt(".py");
    let result = full_path("notebook", &f).unwrap();
    assert_eq!(result, "notebook.py");
}

#[test]
fn unit_tests_test_full_path_with_suffix() {
    let f = fmt_with_suffix(".py", ".nb");
    let result = full_path("notebook", &f).unwrap();
    assert_eq!(result, "notebook.nb.py");
}

#[test]
fn unit_tests_test_full_path_with_dir() {
    let f = fmt(".ipynb");
    let result = full_path("path/to/notebook", &f).unwrap();
    assert_eq!(result, "path/to/notebook.ipynb");
}

#[test]
fn test_base_path_in_tree_from_root() {
    let f = long_form_one_format_as_strings("scripts///py");
    assert_eq!(base_path("scripts/subfolder/test.py", &f, &[]).unwrap(), "//subfolder/test");
}

#[test]
fn test_full_path_in_tree_from_root() {
    let f = long_form_one_format_as_strings("notebooks///ipynb");
    assert_eq!(full_path("//subfolder/test", &f).unwrap(), "notebooks/subfolder/test.ipynb");
}

#[test]
fn test_full_path_in_tree_from_root_no_subfolder() {
    let f = long_form_one_format_as_strings("notebooks///ipynb");
    assert_eq!(full_path("//test", &f).unwrap(), "notebooks/test.ipynb");
}

#[test]
fn unit_tests_test_paired_paths_no_formats() {
    let f = fmt(".py");
    let result = paired_paths("notebook.py", &f, &[]).unwrap();
    assert_eq!(result.len(), 1);
    assert_eq!(result[0].0, "notebook.py");
}

#[test]
fn unit_tests_test_paired_paths_ipynb_and_py() {
    let ipynb = fmt(".ipynb");
    let py = fmt(".py");
    let formats = vec![ipynb.clone(), py.clone()];

    let result = paired_paths("notebook.ipynb", &ipynb, &formats).unwrap();
    assert_eq!(result.len(), 2);
    assert_eq!(result[0].0, "notebook.ipynb");
    assert_eq!(result[1].0, "notebook.py");
}

#[test]
fn test_many_and_suffix() {
    let ipynb = fmt(".ipynb");
    let pct = fmt_with_suffix(".py", ".pct");
    let lgt = fmt_with_suffix(".py", "_lgt");
    let formats = vec![ipynb.clone(), pct.clone(), lgt.clone()];

    let paths = paired_paths("notebook.ipynb", &ipynb, &formats).unwrap();
    assert_eq!(paths[0].0, "notebook.ipynb");
    assert_eq!(paths[1].0, "notebook.pct.py");
    assert_eq!(paths[2].0, "notebook_lgt.py");

    let paths = paired_paths("notebook.pct.py", &pct, &formats).unwrap();
    assert_eq!(paths[0].0, "notebook.ipynb");
    assert_eq!(paths[1].0, "notebook.pct.py");
    assert_eq!(paths[2].0, "notebook_lgt.py");
}

#[test]
fn test_many_and_suffix_wrong_suffix() {
    let ipynb = fmt(".ipynb");
    let pct = fmt_with_suffix(".py", ".pct");
    let lgt = fmt_with_suffix(".py", "_lgt");
    let py = fmt(".py");
    let formats = vec![ipynb.clone(), pct.clone(), lgt.clone()];

    let result = paired_paths("wrong_suffix.py", &py, &formats);
    assert!(result.is_err());
}

#[test]
fn test_duplicated_paths() {
    let ipynb = fmt(".ipynb");
    let py_pct = fmt_with_name(".py", "percent");
    let py_light = fmt_with_name(".py", "light");
    let formats = vec![ipynb.clone(), py_pct, py_light];

    let result = paired_paths("notebook.ipynb", &ipynb, &formats);
    assert!(result.is_err());
}

#[test]
fn test_prefix_on_root() {
    let ipynb = fmt(".ipynb");
    let mut py_pct = fmt_with_name(".py", "percent");
    py_pct.insert("prefix".to_string(), "python/".to_string());
    let formats = vec![ipynb.clone(), py_pct.clone()];

    let paths = paired_paths("Untitled.ipynb", &ipynb, &formats).unwrap();
    assert_eq!(paths[0].0, "Untitled.ipynb");
    assert_eq!(paths[1].0, "python/Untitled.py");
}

#[test]
fn unit_tests_test_roundtrip_base_full() {
    let formats = vec![fmt(".ipynb"), fmt(".py")];
    let bp = base_path("notebook.ipynb", &fmt(".ipynb"), &formats).unwrap();
    assert_eq!(bp, "notebook");
    let fp = full_path(&bp, &fmt(".py")).unwrap();
    assert_eq!(fp, "notebook.py");
}

#[test]
fn unit_tests_test_base_path_wrong_extension() {
    let f = fmt(".py");
    let result = base_path("notebook.ipynb", &f, &[]);
    assert!(result.is_err());
}

#[test]
fn unit_tests_test_base_path_with_suffix() {
    let f = fmt_with_suffix(".py", ".nb");
    let result = base_path("notebook.nb.py", &f, &[]).unwrap();
    assert_eq!(result, "notebook");
}

#[test]
fn unit_tests_test_base_path_inconsistent_suffix() {
    let f = fmt_with_suffix(".py", ".nb");
    let result = base_path("notebook.py", &f, &[]);
    assert!(result.is_err());
}

#[test]
fn test_paired_path_with_prefix_scripts() {
    let ipynb = fmt(".ipynb");
    let mut py_pct = fmt_with_name(".py", "percent");
    py_pct.insert("prefix".to_string(), "scripts/".to_string());
    let formats = vec![ipynb.clone(), py_pct.clone()];

    let paths = paired_paths("scripts/test.py", &py_pct, &formats).unwrap();
    assert_eq!(paths.len(), 2);
    assert_eq!(paths[0].0, "test.ipynb");
    assert_eq!(paths[1].0, "scripts/test.py");
}

#[test]
fn path_errors_and_messages() {
    let e = base_path("notebook.txt", &FormatMap::new(), &[]).unwrap_err();
    assert!(matches!(e, InconsistentPath::NonNotebookExtension(_, _)));
    assert!(e.message().starts_with("'notebook.txt' is not a notebook."));
    let e = base_path("notebook.ipynb", &fmt(".py"), &[]).unwrap_err();
    assert_eq!(
        e.message(),
        "Notebook path 'notebook.ipynb' was expected to have extension '.py'"
    );
    let e = full_path("nb", &long_form_one_format_as_strings("notebooks///ipynb")).unwrap_err();
    assert!(matches!(e, InconsistentPath::IncompatiblePrefixRoot(_, _)));
    let e = find_base_path_and_format("nb.txt", &[fmt(".py")]).unwrap_err();
    assert!(matches!(e, InconsistentPath::NoMatchingFormat(_, _)));
}

#[test]
fn base_path_with_project_configuration() {
    let f = fmt_with_prefix(".py", "scripts/");
    let base = base_path_on("project/scripts/nb.py", &f, &[], Some("project"), '/').unwrap();
    assert_eq!(base, "project/nb");
    assert_eq!(full_path_on("project/nb", &f, '/').unwrap(), "project/scripts/nb.py");
}

#[test]
fn find_base_path_picks_the_first_matching_format() {
    let ipynb = fmt(".ipynb");
    let pct = fmt_with_suffix(".py", ".pct");
    let formats = vec![ipynb, pct];
    let (base, f) = find_base_path_and_format("nb.pct.py", &formats).unwrap();
    assert_eq!(base, "nb");
    assert_eq!(f.get("suffix"), Some(".pct".to_string()));
}

#[test]
fn split_extension_of_unusual_paths() {
    assert_eq!(split_extension(".bashrc"), (".bashrc".to_string(), String::new()));
    assert_eq!(split_extension("dir.d/file"), ("dir.d/file".to_string(), String::new()));
    assert_eq!(split_extension("a/b.c/"), ("a/b.".to_string(), ".c".to_string()));
}

#[test]
fn full_path_puts_back_what_base_path_takes_off_a_prefix() {
    for (path, prefix) in [
        ("nb/scripts/test.py", "scripts/"),
        ("a/b/c/x_y.py", "b/c/x_"),
        ("scripts/test.py", "scripts/"),
        ("pre_nb.py", "pre_"),
        ("scripts/subfolder/test.py", "scripts//"),
        ("a/notebooks/b/scripts/test_x.py", "notebooks//scripts/test_"),
        ("notebooks/x.py", "notebooks//"),
        ("a/notebooks/x.py", "notebooks//"),
        ("a/scripts/x.py", "../scripts/"),
        ("a/b/scripts/x.py", "../../b/scripts/"),
    ] {
        let f = fmt_with_prefix(".py", prefix);
        let b = base_path(path, &f, &[]).unwrap();
        assert_eq!(full_path(&b, &f).unwrap(), path);
    }
    let f = fmt_with_prefix(".py", "scripts/");
    assert_eq!(base_path("nb/scripts/test.py", &f, &[]).unwrap(), "nb/test");
}

#[test]
fn base_path_with_a_prefix_root() {
    let f = fmt_with_prefix(".py", "scripts//");
    assert_eq!(base_path("scripts/subfolder/test.py", &f, &[]).unwrap(), "//subfolder/test");
    assert_eq!(full_path("//subfolder/test", &f).unwrap(), "scripts/subfolder/test.py");
    let g = fmt_with_prefix(".py", "notebooks//scripts/test_");
    assert_eq!(base_path("a/notebooks/b/scripts/test_x.py", &g, &[]).unwrap(), "a///b/x");
}
