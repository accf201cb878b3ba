use jupytext::config::{notebook_formats, FormatOptionValue, JupytextConfig, OptionMap};

fn text(s: &str) -> Option<FormatOptionValue> {
    Some(FormatOptionValue::Text(s.to_string()))
}

fn same(a: Option<FormatOptionValue>, b: Option<FormatOptionValue>) -> bool {
    match (a, b) {
        (Some(FormatOptionValue::Text(x)), Some(FormatOptionValue::Text(y))) => x == y,
        (Some(FormatOptionValue::Flag(x)), Some(FormatOptionValue::Flag(y))) => x == y,
        (None, None) => true,
        _ => false,
    }
}

#[test]
fn test_default_config() {
    let config = JupytextConfig::default();
    assert!(config.formats.is_none());
    assert!(config.comment_magics.is_none());
    assert!(config.cell_markers.is_none());
}

#[test]
fn test_effective_formats() {
    let mut config = JupytextConfig::default();
    assert!(config.effective_formats().is_none());

    config.formats = Some("ipynb,py".to_string());
    assert_eq!(config.effective_formats(), Some("ipynb,py"));

    // formats takes precedence over deprecated field
    config.default_jupytext_formats = Some("ipynb,md".to_string());
    assert_eq!(config.effective_formats(), Some("ipynb,py"));

    // deprecated field used as fallback
    config.formats = None;
    assert_eq!(config.effective_formats(), Some("ipynb,md"));
}

#[test]
fn test_set_default_format_options() {
    let mut config = JupytextConfig::default();
    config.comment_magics = Some(true);
    config.cell_markers = Some("{{{,}}}".to_string());
    config.notebook_metadata_filter = Some("-all".to_string());

    let mut opts = OptionMap::new();
    config.set_default_format_options(&mut opts, false);

    assert!(same(opts.get("comment_magics"), Some(FormatOptionValue::Flag(true))));
    assert!(same(opts.get("cell_markers"), text("{{{,}}}")));
    assert!(same(opts.get("notebook_metadata_filter"), text("-all")));
}

#[test]
fn test_set_default_format_options_read_mode() {
    let mut config = JupytextConfig::default();
    config.cell_markers = Some("region,endregion".to_string());
    config.sphinx_convert_rst2md = Some(true);

    let mut opts = OptionMap::new();
    config.set_default_format_options(&mut opts, true);

    // cell_markers should NOT be set in read mode
    assert!(!opts.contains_key("cell_markers"));
    // rst2md should be set in read mode
    assert!(same(opts.get("rst2md"), Some(FormatOptionValue::Flag(true))));
}

#[test]
fn config_defaults_keep_options_already_set() {
    let mut config = JupytextConfig::default();
    config.notebook_metadata_filter = Some("-all".to_string());
    config.default_notebook_metadata_filter = Some("kernelspec".to_string());
    config.cell_metadata_filter = Some("".to_string());
    config.split_at_heading = Some(false);
    config.root_level_metadata_as_raw_cell = Some(false);
    config.sphinx_convert_rst2md = Some(true);
    let mut opts = OptionMap::new();
    opts.set_default("comment_magics", FormatOptionValue::Flag(false));
    config.comment_magics = Some(true);
    config.set_default_format_options(&mut opts, false);
    assert!(same(opts.get("comment_magics"), Some(FormatOptionValue::Flag(false))));
    // the former name of an option comes first
    assert!(same(opts.get("notebook_metadata_filter"), text("kernelspec")));
    // empty texts and flags that are not set to their trigger value are not options
    assert!(!opts.contains_key("cell_metadata_filter"));
    assert!(!opts.contains_key("split_at_heading"));
    assert!(same(opts.get("root_level_metadata_as_raw_cell"), Some(FormatOptionValue::Flag(false))));
    // the conversion of reStructuredText is for reading only
    assert!(!opts.contains_key("rst2md"));
}

#[test]
fn config_effective_fallbacks() {
    let mut config = JupytextConfig::default();
    config.default_cell_markers = Some("{{{,}}}".to_string());
    assert_eq!(config.effective_cell_markers(), Some("{{{,}}}"));
    config.cell_markers = Some("region,endregion".to_string());
    assert_eq!(config.effective_cell_markers(), Some("region,endregion"));
    config.default_notebook_metadata_filter = Some("-all".to_string());
    assert_eq!(config.effective_notebook_metadata_filter(), Some("-all"));
    config.cell_metadata_filter = Some("tags".to_string());
    config.default_cell_metadata_filter = Some("-all".to_string());
    assert_eq!(config.effective_cell_metadata_filter(), Some("tags"));
}

#[test]
fn notebook_formats_sources_in_order() {
    let mut config = JupytextConfig::default();
    config.formats = Some("ipynb,py:percent".to_string());
    assert_eq!(
        notebook_formats(Some("ipynb,md"), Some(&config), "nb.ipynb").as_deref(),
        Some("ipynb,md")
    );
    assert_eq!(notebook_formats(None, Some(&config), "nb.ipynb").as_deref(), Some("ipynb,py:percent"));
    config.formats = Some("".to_string());
    assert_eq!(notebook_formats(None, Some(&config), "dir/nb.ipynb").as_deref(), Some(".ipynb"));
    assert_eq!(notebook_formats(None, None, "notebook.py").as_deref(), Some(".py"));
    assert_eq!(notebook_formats(None, None, "Makefile"), None);
    assert_eq!(notebook_formats(None, None, ".hidden"), None);
}
