use jupytext::format_version::{FormatMetadata, TextRepresentation};
use jupytext::guess::{divine_format, divine_format_checked, format_metadata_of, guess_format, guess_format_of, read_metadata};

#[test]
fn test_guess_format_percent() {
    let text = "# %%\nx = 1\n# %%\ny = 2\n";
    let (name, _opts) = guess_format(text, ".py");
    assert_eq!(name, "percent");
}

#[test]
fn test_guess_format_markdown_default() {
    let text = "# Title\n\nSome text\n";
    let (name, _opts) = guess_format(text, ".md");
    assert_eq!(name, "markdown");
}

#[test]
fn test_guess_format_pandoc() {
    let text = "::: {.cell}\n```python\nx = 1\n```\n:::\n";
    let (name, _opts) = guess_format(text, ".md");
    assert_eq!(name, "pandoc");
}

#[test]
fn test_guess_format_sphinx() {
    let text = "# #####################\n# Title\n# #####################\n# more\n";
    let (name, _opts) = guess_format(text, ".py");
    assert_eq!(name, "sphinx");
}

#[test]
fn test_guess_format_spin() {
    let text = "#' Some text\nx <- 1\n";
    let (name, _opts) = guess_format(text, ".R");
    assert_eq!(name, "spin");
}

#[test]
fn test_guess_format_simple_percent() {
    let nb = "# %%\nprint(\"hello world!\")\n";
    let (fmt, _) = guess_format(nb, ".py");
    assert_eq!(fmt, "percent");
}

#[test]
fn test_guess_format_simple_percent_with_magic() {
    let nb = "# %%\n# %time\nprint(\"hello world!\")\n";
    let (fmt, _) = guess_format(nb, ".py");
    assert_eq!(fmt, "percent");
}

#[test]
fn test_guess_format_hydrogen_with_magic() {
    let nb = "# %%\n%time\nprint(\"hello world!\")\n";
    let (fmt, _) = guess_format(nb, ".py");
    assert_eq!(fmt, "hydrogen");
}

#[test]
fn test_guess_format_hydrogen_cat() {
    let text = "# %%\ncat hello.txt\n";
    let (fmt, _) = guess_format(text, ".py");
    assert_eq!(fmt, "hydrogen");
}

#[test]
fn test_guess_format_light() {
    let text = "def f(x):\n    return x + 1\n";
    let (fmt, _) = guess_format(text, ".py");
    assert_eq!(fmt, "light");
}

#[test]
fn test_script_with_magics_not_percent() {
    let script = "# %%time\n1 + 2";
    let (fmt, _) = guess_format(script, ".py");
    assert_eq!(fmt, "light");
}

#[test]
fn test_script_with_spyder_cell_is_percent() {
    let script = "#%%\n1 + 2";
    let (fmt, _) = guess_format(script, ".py");
    assert_eq!(fmt, "percent");
}

#[test]
fn test_script_with_percent_cell_and_magic_is_hydrogen() {
    let script = "#%%\n%matplotlib inline\n";
    let (fmt, _) = guess_format(script, ".py");
    assert_eq!(fmt, "hydrogen");
}

#[test]
fn test_spyder_cell_with_name_is_percent() {
    let script = "#%% cell name\n1 + 2";
    let (fmt, _) = guess_format(script, ".py");
    assert_eq!(fmt, "percent");
}

#[test]
fn guess_format_folding_markers_and_declared_formats() {
    let (fmt, opts) = guess_format("# {{{\nx = 1\n# }}}\n", ".py");
    assert_eq!(fmt, "light");
    assert_eq!(opts.get("cell_markers"), Some("{{{,}}}".to_string()));
    let (fmt, opts) = guess_format("# region\nx = 1\n# endregion\n", ".py");
    assert_eq!(fmt, "light");
    assert_eq!(opts.get("cell_markers"), Some("region,endregion".to_string()));
    let declared = "# ---\n# jupyter:\n#   jupytext:\n#     text_representation:\n#       extension: .py\n#       format_name: nomarker\n# ---\nanything\n";
    let (fmt, opts) = guess_format(declared, ".py");
    assert_eq!(fmt, "nomarker");
    assert!(opts.keys().is_empty());
    let (fmt, _) = guess_format("import marimo\napp = marimo.App()\n", ".py");
    assert_eq!(fmt, "marimo");
    let (fmt, _) = guess_format("x", ".xyz");
    assert_eq!(fmt, "light");
    let (fmt, _) = guess_format("x = '''\n# %%\n'''\n", ".py");
    assert_eq!(fmt, "light");
    let (fmt, _) = guess_format("// %%\nint x;\n", ".cpp");
    assert_eq!(fmt, "percent");
}

#[test]
fn guess_format_of_trusts_the_declared_format() {
    let text = "# %%\n1 + 1\n";
    let declared = FormatMetadata {
        has_metadata: true,
        text_representation: Some(TextRepresentation {
            extension: Some(".py".to_string()),
            format_name: Some("light".to_string()),
            format_version: None,
            jupytext_version: None,
        }),
        formats: None,
    };
    assert_eq!(guess_format_of(text, ".py", &declared).0, "light");
    assert_eq!(guess_format_of(text, ".py", &FormatMetadata::default()).0, "percent");
    let other_ext = FormatMetadata {
        has_metadata: true,
        text_representation: Some(TextRepresentation {
            extension: Some(".R".to_string()),
            format_name: Some("spin".to_string()),
            format_version: None,
            jupytext_version: None,
        }),
        formats: None,
    };
    assert_eq!(guess_format_of(text, ".py", &other_ext).0, "light");
}

#[test]
fn guess_format_reads_the_declared_format_from_the_header() {
    let text = "# ---\n# jupyter:\n#   jupytext:\n#     text_representation:\n#       extension: .py\n#       format_name: percent\n# ---\n\nx = 1\n";
    assert_eq!(guess_format(text, ".py").0, "percent");
    let meta = format_metadata_of(&read_metadata(text, ".py"));
    assert!(meta.has_metadata);
    let tr = meta.text_representation.unwrap();
    assert_eq!(tr.extension, Some(".py".to_string()));
    assert_eq!(tr.format_name, Some("percent".to_string()));
    assert_eq!(meta.formats, None);
}

#[test]
fn read_metadata_of_a_spin_script() {
    let text = "#' ---\n#' jupyter:\n#'   jupytext:\n#'     formats: ipynb,R:spin\n#' ---\n\n1 + 1\n";
    let meta = format_metadata_of(&read_metadata(text, ".R"));
    assert_eq!(meta.formats, Some("ipynb,R:spin".to_string()));
}

#[test]
fn formats_test_divine_format_ipynb() {
    let text = r#"{"nbformat": 4, "nbformat_minor": 5, "metadata": {}, "cells": []}"#;
    assert_eq!(divine_format(text), "ipynb");
}

#[test]
fn formats_test_divine_format_markdown() {
    let text = "Some text\n```\ncode\n```\n";
    assert_eq!(divine_format(text), "md");
}

#[test]
fn unit_tests_test_divine_format_ipynb() {
    assert_eq!(divine_format("{\"cells\":[]}"), "ipynb");
}

#[test]
fn test_divine_format_python_light() {
    let text = "def f(x):\n    x + 1";
    assert_eq!(divine_format(text), "py:light");
}

#[test]
fn test_divine_format_python_percent() {
    let text = "# %%\ndef f(x):\n    x + 1\n\n# %%\ndef g(x):\n    x + 2\n";
    assert_eq!(divine_format(text), "py:percent");
}

#[test]
fn unit_tests_test_divine_format_markdown() {
    let text = "This is a markdown file\n\
                 with one code block\n\
                 \n\
                 ```\n\
                 1 + 1\n\
                 ```\n";
    assert_eq!(divine_format(text), "md");
}

#[test]
fn divine_format_reads_the_declared_extension() {
    let text = "# ---\n# jupyter:\n#   jupytext:\n#     text_representation:\n#       extension: .py\n#       format_name: percent\n# ---\n\nx = 1\n";
    assert_eq!(divine_format(text), "py:percent");
    let md = "---\njupyter:\n  jupytext:\n    text_representation:\n      extension: .md\n      format_name: markdown\n---\n\nSome text\n";
    assert_eq!(divine_format(md), "md:markdown");
}

#[test]
fn divine_format_checked_refuses_an_empty_extension() {
    let text = "# ---\n# jupyter:\n#   jupytext:\n#     text_representation:\n#       extension: ''\n# ---\nx = 1\n";
    assert_eq!(divine_format_checked(text), None);
    assert_eq!(divine_format_checked("x = 1\n"), Some("py:light".to_string()));
}
