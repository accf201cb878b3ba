use jupytext::magics::{
    comment_magic, escape_code_start, is_magic, need_explicit_marker, uncomment_magic,
    unescape_code_start,
};
use jupytext::languages::in_jupyter_languages_any_case;

fn lines(v: &[&str]) -> Vec<String> {
    v.iter().map(|s| s.to_string()).collect()
}

#[test]
fn test_escape_percent_magic() {
    let cases = vec!["%matplotlib inline", "%%HTML", "%autoreload", "%store"];
    for line in cases {
        let mut source = vec![line.to_string()];
        comment_magic(&mut source, "python", true, false);
        assert_eq!(source, vec![format!("# {}", line)], "Failed on: {}", line);

        uncomment_magic(&mut source, "python", true, false);
        assert_eq!(source, vec![line.to_string()], "Roundtrip failed for: {}", line);
    }
}

#[test]
fn test_escape_already_commented_magic() {
    let cases = vec!["#%matplotlib inline", "##%matplotlib inline"];
    for line in cases {
        let mut source = vec![line.to_string()];
        comment_magic(&mut source, "python", true, false);
        assert_eq!(source, vec![format!("# {}", line)]);

        uncomment_magic(&mut source, "python", true, false);
        assert_eq!(source, vec![line.to_string()]);
    }
}

#[test]
fn test_escape_non_magic() {
    let line = "@pytest.fixture";
    let mut source = vec![line.to_string()];
    comment_magic(&mut source, "python", true, false);
    assert_eq!(source, vec![line.to_string()]);
}

#[test]
fn test_force_noescape() {
    let line = "%matplotlib inline #noescape";
    let mut source = vec![line.to_string()];
    comment_magic(&mut source, "python", true, false);
    assert_eq!(source, vec![line.to_string()]);
}

#[test]
fn test_force_noescape_with_global_flag() {
    let line = "%matplotlib inline #noescape";
    let mut source = vec![line.to_string()];
    comment_magic(&mut source, "python", true, false);
    assert_eq!(source, vec![line.to_string()]);
}

#[test]
fn test_force_escape_with_global_flag_false() {
    let line = "%matplotlib inline #escape";
    let mut source = vec![line.to_string()];
    comment_magic(&mut source, "python", false, false);
    assert_eq!(source, vec![format!("# {}", line)]);
}

#[test]
fn test_is_magic_percent() {
    assert!(is_magic("%matplotlib inline", "python", true, false));
    assert!(is_magic("%%HTML", "python", true, false));
    assert!(is_magic("%autoreload", "python", true, false));
}

#[test]
fn test_comment_bash_commands_in_python() {
    let magic_cmds = vec![
        "ls", "!ls", "ls -al", "!whoami", "# ls", "# mv a b", "! mkdir tmp", "!./script",
        "! ./script", "cat", "cat ", "cat hello.txt",
    ];
    for cmd in magic_cmds {
        let mut source = vec![cmd.to_string()];
        comment_magic(&mut source, "python", true, false);
        assert_eq!(source, vec![format!("# {}", cmd)], "Comment failed for: {}", cmd);

        let mut source2 = vec![format!("# {}", cmd)];
        uncomment_magic(&mut source2, "python", true, false);
        assert_eq!(source2, vec![cmd.to_string()], "Uncomment failed for: {}", cmd);
    }
}

#[test]
fn test_do_not_comment_python_assignment() {
    let not_magic = vec!["x = 42", "result = foo()", "my_cat = 5"];
    for cmd in not_magic {
        let mut source = vec![cmd.to_string()];
        comment_magic(&mut source, "python", true, false);
        assert_eq!(source, vec![cmd.to_string()], "Should not comment: {}", cmd);

        uncomment_magic(&mut source, "python", true, false);
        assert_eq!(source, vec![cmd.to_string()], "Should not change: {}", cmd);
    }
}

#[test]
fn test_non_python_lines_not_commented() {
    let not_magic = vec!["x = 42", "def foo():", "import os", "class MyClass:", "for i in range(10):"];
    for cmd in not_magic {
        let mut source = vec![cmd.to_string()];
        comment_magic(&mut source, "python", true, false);
        assert_eq!(source, vec![cmd.to_string()], "Should not comment: {}", cmd);
    }
}

#[test]
fn test_do_not_comment_bash_commands_in_r() {
    let magic_cmds = vec!["ls", "!ls", "ls -al", "!whoami", "# ls", "# mv a b"];
    for cmd in magic_cmds {
        let mut source = vec![cmd.to_string()];
        comment_magic(&mut source, "R", true, false);
        assert_eq!(source, vec![cmd.to_string()], "R should not comment: {}", cmd);

        uncomment_magic(&mut source, "R", true, false);
        assert_eq!(source, vec![cmd.to_string()], "R should not change: {}", cmd);
    }
}

#[test]
fn test_markdown_image_is_not_magic() {
    assert!(is_magic("# !cmd", "python", true, false));
    assert!(!is_magic("# ![Image name](image.png", "python", true, false));
}

#[test]
fn test_question_is_not_magic() {
    assert!(is_magic("float?", "python", true, true));
    assert!(is_magic("# float?", "python", true, true));
    assert!(!is_magic("# question: float?", "python", true, true));
}

#[test]
fn test_indented_magic() {
    assert!(is_magic("    !rm file", "python", true, false));
    assert!(is_magic("    # !rm file", "python", true, false));
    assert!(is_magic("    %cd", "python", true, false));

    let mut source = vec!["    !rm file".to_string()];
    comment_magic(&mut source, "python", true, false);
    assert_eq!(source, vec!["    # !rm file"]);
    uncomment_magic(&mut source, "python", true, false);
    assert_eq!(source, vec!["    !rm file"]);

    let mut source = vec!["    %cd".to_string()];
    comment_magic(&mut source, "python", true, false);
    assert_eq!(source, vec!["    # %cd"]);
    uncomment_magic(&mut source, "python", true, false);
    assert_eq!(source, vec!["    %cd"]);
}

#[test]
fn test_magic_assign() {
    assert!(is_magic("result = %sql SELECT * FROM quickdemo WHERE value > 25", "python", true, false));
    assert!(is_magic("name = %time 2+2", "python", true, false));
    assert!(is_magic("flake8_version = !flake8 --version", "python", true, false));
}

#[test]
fn test_magic_comment_uncomment_roundtrip() {
    let lines_to_test = vec!["%matplotlib inline", "%%HTML", "%autoreload", "!ls", "ls -al"];
    for line in lines_to_test {
        let mut source = vec![line.to_string()];
        comment_magic(&mut source, "python", true, false);
        assert_ne!(source[0], line, "Should have been commented: {}", line);
        uncomment_magic(&mut source, "python", true, false);
        assert_eq!(source[0], line, "Roundtrip failed for: {}", line);
    }
}

#[test]
fn magics_are_not_escaped_in_matlab() {
    let mut source = vec!["%matplotlib inline".to_string()];
    comment_magic(&mut source, "matlab", true, false);
    assert_eq!(source, vec!["%matplotlib inline"]);
}

#[test]
fn magics_in_julia_use_its_comment() {
    let mut source = vec!["%time x".to_string()];
    comment_magic(&mut source, "julia", true, false);
    assert_eq!(source, vec!["# %time x"]);
}

#[test]
fn help_line_needs_explicit_marker() {
    assert!(need_explicit_marker(&lines(&["x?"]), "python", true));
    assert!(!need_explicit_marker(&lines(&["x = 1"]), "python", true));
    assert!(!need_explicit_marker(&lines(&["x?"]), "python", false));
    assert!(!need_explicit_marker(&lines(&["x?"]), "R", true));
}

#[test]
fn code_start_escape_round_trip() {
    let mut source = lines(&["# +", "x = 1"]);
    escape_code_start(&mut source, ".py", "python");
    assert_eq!(source, lines(&["# # +", "x = 1"]));
    unescape_code_start(&mut source, ".py", "python");
    assert_eq!(source, lines(&["# +", "x = 1"]));
}

#[test]
fn markdown_code_fence_is_escaped() {
    let mut source = lines(&["```python", "x = 1", "```"]);
    escape_code_start(&mut source, ".md", "");
    assert_eq!(source, lines(&["# ```python", "x = 1", "# ```"]));
}

#[test]
fn jupyter_language_in_any_case() {
    assert!(in_jupyter_languages_any_case("python"));
    assert!(in_jupyter_languages_any_case("PYTHON"));
    assert!(!in_jupyter_languages_any_case("not-a-language"));
}

#[test]
fn unescape_code_start_undoes_escape_code_start() {
    for ext in [".md", ".Rmd", ".py"] {
        let original = lines(&["```python", "x = 1", "```", "# ```", "```{r}", "text"]);
        let mut source = original.clone();
        escape_code_start(&mut source, ext, "python");
        unescape_code_start(&mut source, ext, "python");
        assert_eq!(source, original, "extension {}", ext);
    }
    let mut source = lines(&["```python", "x = 1"]);
    escape_code_start(&mut source, ".md", "python");
    assert_eq!(source, lines(&["# ```python", "x = 1"]));
}
