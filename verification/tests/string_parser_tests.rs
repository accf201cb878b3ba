use jupytext::pep8::pep8_lines_between_cells;
use jupytext::string_parser::StringParser;

fn quoted_lines(text: &str) -> Vec<usize> {
    let lines: Vec<&str> = text.lines().collect();
    let mut quoted = Vec::new();
    let mut sp = StringParser::new("python");
    for (i, line) in lines.iter().enumerate() {
        if sp.is_quoted() {
            quoted.push(i);
        }
        sp.read_line(line);
    }
    quoted
}

#[test]
fn test_simple_string() {
    let mut parser = StringParser::new("python");
    parser.read_line("x = 'hello'");
    assert!(!parser.is_quoted());
}

#[test]
fn string_parser_test_triple_quote_multiline() {
    let mut parser = StringParser::new("python");
    parser.read_line("x = \"\"\"hello");
    assert!(parser.is_quoted());
    parser.read_line("world\"\"\"");
    assert!(!parser.is_quoted());
}

#[test]
fn test_comment_line() {
    let mut parser = StringParser::new("python");
    parser.read_line("# x = 'hello");
    assert!(!parser.is_quoted());
}

#[test]
fn string_parser_test_r_parser() {
    let mut parser = StringParser::new("R");
    parser.read_line("x <- 'hello'");
    assert!(!parser.is_quoted());
}

#[test]
fn test_long_string() {
    let text = "'''This is a multiline\n\
                 comment with \"quotes\", 'single quotes'\n\
                 # and comments\n\
                 and line breaks\n\
                 \n\
                 \n\
                 and it ends here'''\n\
                 \n\
                 \n\
                 1 + 1";
    assert_eq!(quoted_lines(text), vec![1, 2, 3, 4, 5, 6]);
}

#[test]
fn test_single_chars() {
    let text = "'This is a single line comment'''\n\
                 'and another one'\n\
                 # and comments\n\
                 \"and line breaks\"\n\
                 \n\
                 \n\
                 \"and it ends here'''\"\n\
                 \n\
                 \n\
                 1 + 1";
    let lines: Vec<&str> = text.lines().collect();
    let mut sp = StringParser::new("python");
    for line in &lines {
        assert!(!sp.is_quoted());
        sp.read_line(line);
    }
}

#[test]
fn test_long_string_with_four_quotes() {
    let text = "''''This is a multiline\n\
                 comment that starts with four quotes\n\
                 '''\n\
                 \n\
                 1 + 1";
    assert_eq!(quoted_lines(text), vec![1, 2]);
}

#[test]
fn test_long_string_ends_with_four_quotes() {
    let text = "'''This is a multiline\n\
                 comment that ends with four quotes\n\
                 ''''\n\
                 \n\
                 1 + 1";
    assert_eq!(quoted_lines(text), vec![1, 2]);
}

#[test]
fn test_comment_line_not_quoted() {
    let mut sp = StringParser::new("python");
    sp.read_line("# x = 'hello");
    assert!(!sp.is_quoted());
}

#[test]
fn test_simple_string_not_quoted() {
    let mut sp = StringParser::new("python");
    sp.read_line("x = 'hello'");
    assert!(!sp.is_quoted());
}

#[test]
fn unit_tests_test_triple_quote_multiline() {
    let mut sp = StringParser::new("python");
    sp.read_line("x = \"\"\"hello");
    assert!(sp.is_quoted());
    sp.read_line("world\"\"\"");
    assert!(!sp.is_quoted());
}

#[test]
fn unit_tests_test_r_parser() {
    let mut sp = StringParser::new("R");
    sp.read_line("x <- 'hello'");
    assert!(!sp.is_quoted());
}

#[test]
fn test_none_language() {
    let sp = StringParser::new_opt(None);
    assert!(!sp.is_quoted());
}

#[test]
fn test_string_parser_and_pep8_interaction() {
    let prev = vec!["x = 1".to_string()];
    let next = vec!["def f(x):".to_string(), "    return x".to_string()];
    assert_eq!(pep8_lines_between_cells(&prev, &next, ".py"), 2);
}

#[test]
fn string_parser_ignores_quotes_after_comment_in_r() {
    let mut sp = StringParser::new("R");
    sp.read_line("# it's a comment");
    assert!(!sp.is_quoted());
}

#[test]
fn string_parser_double_quoted_triple_string_spans_lines() {
    let mut sp = StringParser::new("python");
    sp.read_line("s = '''start");
    assert!(sp.is_quoted());
    sp.read_line("middle");
    assert!(sp.is_quoted());
    sp.read_line("end'''");
    assert!(!sp.is_quoted());
}
