use jupytext::format_version::{check_file_version, format_name_for_ext, read_format_from_metadata, FormatMetadata, TextRepresentation};

fn representation(ext: &str, name: &str, version: &str) -> TextRepresentation {
    TextRepresentation {
        extension: Some(ext.to_string()),
        format_name: Some(name.to_string()),
        format_version: Some(version.to_string()),
        jupytext_version: Some("1.16.0".to_string()),
    }
}

fn with_representation(tr: TextRepresentation) -> FormatMetadata {
    FormatMetadata { has_metadata: true, text_representation: Some(tr), formats: None }
}

#[test]
fn format_name_from_text_representation() {
    let meta = with_representation(representation(".py", "percent", "1.3"));
    assert_eq!(format_name_for_ext(&meta, ".py", None, true), Some("percent".to_string()));
    assert_eq!(format_name_for_ext(&meta, "notebook.py", None, true), Some("percent".to_string()));
}

#[test]
fn format_name_from_paired_formats() {
    let meta = FormatMetadata {
        has_metadata: true,
        text_representation: None,
        formats: Some("ipynb,py:hydrogen".to_string()),
    };
    assert_eq!(format_name_for_ext(&meta, ".py", None, true), Some("hydrogen".to_string()));
}

#[test]
fn format_name_from_default_formats() {
    let meta = FormatMetadata::default();
    assert_eq!(format_name_for_ext(&meta, ".py", Some("py:percent"), true), Some("percent".to_string()));
}

#[test]
fn format_name_default_is_first_registered() {
    let meta = FormatMetadata::default();
    assert_eq!(format_name_for_ext(&meta, ".py", None, true), Some("light".to_string()));
    assert_eq!(format_name_for_ext(&meta, ".py", None, false), None);
    assert_eq!(format_name_for_ext(&meta, ".md", None, true), None);
    assert_eq!(format_name_for_ext(&meta, ".R", None, true), Some("light".to_string()));
}

#[test]
fn check_version_current_is_accepted() {
    let meta = with_representation(representation(".py", "percent", "1.3"));
    assert!(check_file_version(&meta, "notebook.py", "notebook.ipynb").is_ok());
}

#[test]
fn check_version_readable_range_is_accepted() {
    let meta = with_representation(representation(".py", "light", "1.2"));
    assert!(check_file_version(&meta, "notebook.py", "notebook.ipynb").is_ok());
}

#[test]
fn check_version_without_version_is_accepted() {
    assert!(check_file_version(&FormatMetadata::default(), "notebook.py", "notebook.ipynb").is_ok());
}

#[test]
fn check_version_too_recent_is_refused() {
    let meta = with_representation(representation(".py", "light", "1.9"));
    let err = check_file_version(&meta, "notebook.py", "notebook.ipynb").unwrap_err();
    assert_eq!(
        err.0,
        "The file notebook.py was generated with jupytext version 1.16.0 but this build can only \
         read the light format in versions 1.1 to 1.5. The file format version is 1.9. Please \
         upgrade, or remove either notebook.py or notebook.ipynb."
    );
}

#[test]
fn check_version_from_standard_input_uses_representation() {
    let meta = with_representation(representation(".md", "markdown", "0.9"));
    let err = check_file_version(&meta, "-", "out.ipynb").unwrap_err();
    assert!(err.0.starts_with("The file - was generated"));
    assert!(err.0.contains("the markdown format in versions 1.0 to 1.3"));
}

#[test]
fn check_version_unknown_extension_is_refused() {
    let meta = with_representation(representation(".xyz", "light", "1.5"));
    assert!(check_file_version(&meta, "notebook.xyz", "notebook.ipynb").is_err());
}

#[test]
fn read_format_from_metadata_has_no_default() {
    let meta = FormatMetadata {
        has_metadata: true,
        text_representation: Some(TextRepresentation {
            extension: Some(".py".to_string()),
            format_name: Some("percent".to_string()),
            format_version: None,
            jupytext_version: None,
        }),
        formats: None,
    };
    assert_eq!(read_format_from_metadata(&meta, ".py"), Some("percent".to_string()));
    assert_eq!(read_format_from_metadata(&meta, ".R"), None);
    let paired = FormatMetadata {
        has_metadata: true,
        text_representation: None,
        formats: Some("ipynb,py:light".to_string()),
    };
    assert_eq!(read_format_from_metadata(&paired, ".py"), Some("light".to_string()));
    assert_eq!(read_format_from_metadata(&FormatMetadata::default(), ".py"), None);
}
