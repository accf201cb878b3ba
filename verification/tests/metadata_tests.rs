use jupytext::cell_metadata::{
    is_active, CellActivity,
    is_identifier, is_json_metadata, is_jupyter_language, is_valid_metadata_key,
    parse_rmd_options, split_respecting_quotes, ParsingContext,
};
use jupytext::metadata_filter::{
    filter_metadata, metadata_filter_as_dict, metadata_filter_as_string, sort_keys,
    update_metadata_filters, FilterSpec, NotebookFilters, DEFAULT_NOTEBOOK_METADATA,
};

#[test]
fn test_parse_rmd_options_simple() {
    let opts = parse_rmd_options("echo=TRUE, eval=FALSE");
    assert_eq!(opts.len(), 2);
    assert_eq!(opts[0], ("echo".to_string(), "TRUE".to_string()));
    assert_eq!(opts[1], ("eval".to_string(), "FALSE".to_string()));
}

#[test]
fn test_parse_rmd_options_with_name() {
    let opts = parse_rmd_options("my_chunk, echo=TRUE");
    assert_eq!(opts.len(), 2);
    assert_eq!(opts[0].0, "");
    assert_eq!(opts[0].1, "my_chunk");
    assert_eq!(opts[1].0, "echo");
    assert_eq!(opts[1].1, "TRUE");
}

#[test]
fn test_parse_rmd_options_empty() {
    let opts = parse_rmd_options("");
    assert!(opts.is_empty());
}

#[test]
fn test_is_json_metadata() {
    assert!(is_json_metadata("{\"key\": \"value\"}"));
    assert!(!is_json_metadata("key=value"));
    assert!(!is_json_metadata(""));
}

#[test]
fn parse_rmd_options_keeps_commas_in_brackets() {
    let opts = parse_rmd_options("fig.cap=c(1, 2), echo=FALSE");
    assert_eq!(opts.len(), 2);
    assert_eq!(opts[0], ("fig.cap".to_string(), "c(1, 2)".to_string()));
    assert_eq!(opts[1], ("echo".to_string(), "FALSE".to_string()));
}

#[test]
fn parse_rmd_options_keeps_equal_signs_in_values() {
    let opts = parse_rmd_options("a=b=c");
    assert_eq!(opts, vec![("a".to_string(), "b=c".to_string())]);
}

#[test]
fn json_metadata_brace_after_equal() {
    assert!(is_json_metadata("{a=1"));
    assert!(!is_json_metadata("a={1}"));
}

#[test]
fn identifiers_and_metadata_keys() {
    assert!(is_identifier("a_name.with.dots"));
    assert!(!is_identifier("1abc"));
    assert!(is_valid_metadata_key("key-with@and/slash"));
    assert!(!is_valid_metadata_key("no spaces"));
}

#[test]
fn jupyter_languages_in_any_case() {
    assert!(is_jupyter_language("python"));
    assert!(is_jupyter_language("Python"));
    assert!(!is_jupyter_language("not a language"));
}

#[test]
fn split_respecting_quotes_and_brackets() {
    let parts = split_respecting_quotes("a, 'b, c', [d, e], f");
    assert_eq!(parts, vec!["a", "'b, c'", "[d, e]", "f"]);
    let parts = split_respecting_quotes("x,  ");
    assert_eq!(parts, vec!["x"]);
}

#[test]
fn parsing_context_counts_brackets_outside_quotes() {
    let mut ctx = ParsingContext::new();
    assert!(ctx.in_global_expression());
    ctx.count_special_chars('(', ' ');
    assert!(!ctx.in_global_expression());
    ctx.count_special_chars('"', '(');
    ctx.count_special_chars('\'', '"');
    assert!(!ctx.in_single_quote);
    ctx.count_special_chars('"', '\'');
    ctx.count_special_chars(')', '"');
    assert!(ctx.in_global_expression());
}

#[test]
fn test_parse_empty_filter() {
    let f = metadata_filter_as_dict("");
    assert!(matches!(f.additional, FilterSpec::Keys(ref k) if k.is_empty()));
    assert!(matches!(f.excluded, FilterSpec::Keys(ref k) if k.is_empty()));
}

#[test]
fn test_parse_all_filter() {
    let f = metadata_filter_as_dict("all");
    assert!(f.additional.is_all());
}

#[test]
fn test_parse_minus_all_filter() {
    let f = metadata_filter_as_dict("-all");
    assert!(f.excluded.is_all());
}

#[test]
fn test_parse_mixed_filter() {
    let f = metadata_filter_as_dict("one,two,-three,-four");
    match &f.additional {
        FilterSpec::Keys(keys) => {
            assert!(keys.contains(&"one".to_string()));
            assert!(keys.contains(&"two".to_string()));
        }
        _ => panic!("Expected Keys variant"),
    }
    match &f.excluded {
        FilterSpec::Keys(keys) => {
            assert!(keys.contains(&"three".to_string()));
            assert!(keys.contains(&"four".to_string()));
        }
        _ => panic!("Expected Keys variant"),
    }
}

#[test]
fn test_filter_as_string_roundtrip() {
    let f = metadata_filter_as_dict("kernelspec,-all");
    let s = metadata_filter_as_string(&f);
    assert!(s.contains("kernelspec"));
    assert!(s.contains("-all"));
}

#[test]
fn test_filter_spec_contains() {
    let all = FilterSpec::All;
    assert!(all.contains("anything"));

    let keys = FilterSpec::Keys(vec!["one".to_string(), "two".to_string()]);
    assert!(keys.contains("one"));
    assert!(!keys.contains("three"));
}

fn activity(frozen: bool, tags: &[&str], active: Option<&str>) -> CellActivity {
    CellActivity {
        frozen,
        tags: tags.iter().map(|t| t.to_string()).collect(),
        active: active.map(|a| a.to_string()),
    }
}

#[test]
fn cell_metadata_test_is_active_default() {
    let meta = activity(false, &[], None);
    assert!(is_active(".py", &meta, true));
    assert!(is_active(".ipynb", &meta, true));
}

#[test]
fn cell_metadata_test_is_active_specific() {
    let meta = activity(false, &[], Some("py"));
    assert!(is_active(".py", &meta, true));
    assert!(!is_active(".Rmd", &meta, true));
}

#[test]
fn unit_tests_test_is_active_default() {
    let meta = activity(false, &[], None);
    assert!(is_active(".py", &meta, true));
    assert!(is_active(".ipynb", &meta, true));
}

#[test]
fn unit_tests_test_is_active_specific() {
    let meta = activity(false, &[], Some("py"));
    assert!(is_active(".py", &meta, true));
    assert!(!is_active(".Rmd", &meta, true));
}

#[test]
fn test_is_active_with_tags() {
    let meta = activity(false, &["active-py"], None);
    assert!(is_active(".py", &meta, true));
    assert!(!is_active(".Rmd", &meta, true));
}

#[test]
fn test_is_active_frozen() {
    let meta = activity(true, &[], None);
    assert!(is_active(".ipynb", &meta, true));
    assert!(!is_active(".py", &meta, true));
}

#[test]
fn is_active_lists_and_defaults() {
    assert!(is_active(".R", &activity(false, &[], Some("ipynb,R")), false));
    assert!(is_active(".Rmd", &activity(false, &[], Some("py.Rmd")), false));
    assert!(!is_active(".md", &activity(false, &[], Some("py.Rmd")), true));
    assert!(!is_active(".py", &activity(false, &[], None), false));
    // the first active tag decides, before the active entry
    assert!(is_active(".md", &activity(false, &["x", "active-ipynb-md"], Some("py")), false));
    assert!(!is_active(".py", &activity(false, &["active-ipynb-md", "active-py"], None), true));
}

fn kept(keys: &[&str], user: &str) -> Vec<String> {
    let keys: Vec<String> = keys.iter().map(|k| k.to_string()).collect();
    filter_metadata(&keys, false, user, DEFAULT_NOTEBOOK_METADATA)
}

#[test]
fn test_filter_metadata_default_notebook() {
    // keys in the order of the metadata map
    let filtered = kept(&["custom_key", "jupytext", "kernelspec"], "");
    // With default notebook metadata filter and no user filter,
    // all keys are preserved (the default filter does not exclude unknown keys)
    assert!(filtered.contains(&"kernelspec".to_string()));
    assert!(filtered.contains(&"jupytext".to_string()));
    assert!(filtered.contains(&"custom_key".to_string()));
}

#[test]
fn test_filter_metadata_default_notebook_with_minus_all() {
    // With -all user filter, only default notebook metadata keys are kept
    let filtered = kept(&["custom_key", "jupytext", "kernelspec"], "-all");
    assert!(filtered.is_empty());
}

#[test]
fn test_filter_metadata_include_all() {
    let filtered = kept(&["custom_key", "kernelspec"], "all");
    assert!(filtered.contains(&"kernelspec".to_string()));
    assert!(filtered.contains(&"custom_key".to_string()));
}

#[test]
fn test_filter_metadata_exclude_all() {
    let filtered = kept(&["custom_key", "kernelspec"], "-all");
    assert!(filtered.is_empty());
}

#[test]
fn test_filter_metadata_additional_keys() {
    let filtered = kept(&["custom_key", "jupytext", "kernelspec"], "custom_key");
    assert!(filtered.contains(&"kernelspec".to_string()));
    assert!(filtered.contains(&"jupytext".to_string()));
    assert!(filtered.contains(&"custom_key".to_string()));
}

#[test]
fn filter_metadata_exclusions_and_empty_tags() {
    let keys: Vec<String> = ["ExecuteTime", "collapsed", "tags", "title", "bad key"]
        .iter()
        .map(|k| k.to_string())
        .collect();
    let ignore = "-autoscroll,-collapsed,-scrolled,-trusted,-execution,-ExecuteTime";
    assert_eq!(filter_metadata(&keys, true, "", ignore), vec!["title".to_string()]);
    assert_eq!(filter_metadata(&keys, false, "", ignore), vec!["tags".to_string(), "title".to_string()]);
    assert_eq!(
        filter_metadata(&keys, false, "collapsed", ignore),
        vec!["collapsed".to_string(), "tags".to_string(), "title".to_string()]
    );
    assert_eq!(filter_metadata(&keys, false, "-title", ignore), vec!["tags".to_string()]);
    assert_eq!(filter_metadata(&keys, true, "all,-tags", ignore), vec![
        "ExecuteTime".to_string(),
        "collapsed".to_string(),
        "title".to_string()
    ]);
    assert_eq!(filter_metadata(&keys, true, "title,-all", ignore), vec!["title".to_string()]);
    // a default filter that excludes everything keeps its own keys and the user's
    assert_eq!(filter_metadata(&keys, false, "tags", "title,-all"), vec!["tags".to_string(), "title".to_string()]);
    assert_eq!(filter_metadata(&keys, false, "tags,-title", "title,-all"), vec!["tags".to_string()]);
}

fn filter_keys(f: &FilterSpec) -> Option<Vec<String>> {
    match f {
        FilterSpec::All => None,
        FilterSpec::Keys(k) => Some(k.clone()),
    }
}

#[test]
fn metadata_filter_string_reads_back() {
    let f = metadata_filter_as_dict("one,two,-three,-four");
    let g = metadata_filter_as_dict(&metadata_filter_as_string(&f));
    assert_eq!(filter_keys(&g.additional), filter_keys(&f.additional));
    assert_eq!(filter_keys(&g.excluded), filter_keys(&f.excluded));
    let f = metadata_filter_as_dict("all,-all");
    let g = metadata_filter_as_dict(&metadata_filter_as_string(&f));
    assert!(g.additional.is_all());
    assert!(g.excluded.is_all());
}

#[test]
fn metadata_filter_string_leaves_out_jupytext_cell_keys() {
    let f = metadata_filter_as_dict("cell_marker,one,-two");
    assert_eq!(metadata_filter_as_string(&f), "one,-two");
    let g = metadata_filter_as_dict(&metadata_filter_as_string(&f));
    assert_eq!(filter_keys(&g.additional), Some(vec!["one".to_string()]));
    assert_eq!(filter_keys(&g.excluded), Some(vec!["two".to_string()]));
}

#[test]
fn keys_are_sorted() {
    let keys: Vec<String> = ["tags", "b", "a", "lines_to_next_cell"].iter().map(|s| s.to_string()).collect();
    assert_eq!(sort_keys(&keys), vec!["a", "b", "lines_to_next_cell", "tags"]);
}

fn filters(is_object: bool, cell: Option<&str>) -> NotebookFilters {
    NotebookFilters {
        jupytext_is_object: is_object,
        notebook_metadata_filter: None,
        has_cell_metadata_filter: cell.is_some(),
        cell_metadata_filter: cell.map(|s| s.to_string()),
    }
}

#[test]
fn script_filters_keep_cell_keys() {
    let keys: Vec<String> = ["tags", "lines_to_next_cell", "name"].iter().map(|s| s.to_string()).collect();
    let mut f = filters(true, None);
    update_metadata_filters(&mut f, false, &keys);
    assert_eq!(f.notebook_metadata_filter, Some("-all".to_string()));
    assert_eq!(f.cell_metadata_filter, Some("name,tags,-all".to_string()));
    assert!(f.has_cell_metadata_filter);
}

#[test]
fn script_filters_keep_existing_cell_filter() {
    let mut f = filters(true, Some("tags"));
    update_metadata_filters(&mut f, false, &["name".to_string()]);
    assert_eq!(f.notebook_metadata_filter, Some("-all".to_string()));
    assert_eq!(f.cell_metadata_filter, Some("tags".to_string()));
}

#[test]
fn jupyter_header_keeps_filters() {
    let mut f = filters(true, None);
    update_metadata_filters(&mut f, true, &["name".to_string()]);
    assert_eq!(f.notebook_metadata_filter, None);
    assert_eq!(f.cell_metadata_filter, None);
    let mut f = filters(false, None);
    update_metadata_filters(&mut f, false, &["name".to_string()]);
    assert_eq!(f.notebook_metadata_filter, None);
}

#[test]
fn script_filters_without_cell_keys() {
    let mut f = filters(true, None);
    update_metadata_filters(&mut f, false, &[]);
    assert_eq!(f.cell_metadata_filter, Some("-all".to_string()));
}
