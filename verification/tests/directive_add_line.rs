use txtpp::directive::{Directive, DirectiveType};

#[test]
fn directive_add_line_test_addln_empty() {
    let expected = Directive::new(
        "    ",
        "",
        DirectiveType::Empty,
        vec!["ababa".to_string(), "hellow".to_string()],
    );
    let mut directive = Directive::detect_from("    TXTPP# ababa").unwrap();
    assert!(directive.add_line("    hellow").is_ok());
    assert_eq!(expected, directive);
}

#[test]
fn directive_add_line_test_addln_empty_add_empty() {
    let expected = Directive::new(
        "    ",
        "",
        DirectiveType::Empty,
        vec!["ababa".to_string(), "".to_string()],
    );
    let mut directive = Directive::detect_from("    TXTPP# ababa").unwrap();
    assert!(directive.add_line("    ").is_ok());
    assert_eq!(expected, directive);
}

#[test]
fn directive_add_line_test_addln_empty_format_prefix_ok() {
    let expected = Directive::new(
        " \t \t ",
        "prefix",
        DirectiveType::Empty,
        vec!["ababa\\".to_string(), " hellow".to_string()],
    );
    let mut directive = Directive::detect_from(" \t \t prefixTXTPP# ababa\\").unwrap();
    assert!(directive.add_line(" \t \t prefix hellow").is_ok());
    assert_eq!(expected, directive);
}

#[test]
fn directive_add_line_test_addln_empty_format_prefix_notok() {
    let expected = Directive::new(
        " \t \t ",
        "prefix",
        DirectiveType::Empty,
        vec!["ababa\\".to_string()],
    );
    let mut directive = Directive::detect_from(" \t \t prefixTXTPP# ababa\\").unwrap();
    assert!(directive.add_line(" \t \t prefi hellow").is_err());
    assert_eq!(expected, directive);
}

#[test]
fn directive_add_line_test_addln_empty_format_spaces_ok() {
    let expected = Directive::new(
        " \t \t ",
        "prefix",
        DirectiveType::Empty,
        vec!["ababa\\".to_string(), "hellow".to_string()],
    );
    let mut directive = Directive::detect_from(" \t \t prefixTXTPP# ababa\\").unwrap();
    assert!(directive.add_line(" \t \t       hellow").is_ok());
    assert_eq!(expected, directive);
}

#[test]
fn directive_add_line_test_addln_empty_format_spaces_notok() {
    let expected = Directive::new(
        " \t \t ",
        "prefix",
        DirectiveType::Empty,
        vec!["ababa\\".to_string()],
    );
    let mut directive = Directive::detect_from(" \t \t prefixTXTPP# ababa\\").unwrap();
    assert!(directive.add_line(" \t        hellow").is_err());
    assert_eq!(expected, directive);
}

#[test]
fn test_addln_run() {
    let expected = Directive::new(
        "    ",
        "",
        DirectiveType::Run,
        vec!["ababa\\".to_string(), "hellow".to_string()],
    );
    let mut directive = Directive::detect_from("    TXTPP#run ababa\\").unwrap();
    assert!(directive.add_line("    hellow").is_ok());
    assert_eq!(expected, directive);
}

#[test]
fn test_addln_run_trailing_whitespaces() {
    let expected = Directive::new(
        "    ",
        "",
        DirectiveType::Run,
        vec!["ababa\\".to_string(), "hellowa".to_string()],
    );
    let mut directive = Directive::detect_from("    TXTPP#run ababa\\").unwrap();
    assert!(directive.add_line("    hellowa  \t \t \t").is_ok());
    assert_eq!(expected, directive);
}

#[test]
fn test_addln_run_prefix_trailing_whitespace_notok() {
    let expected = Directive::new(
        "    ",
        "// ",
        DirectiveType::Run,
        vec!["ababa\\".to_string()],
    );
    let mut directive = Directive::detect_from("    // TXTPP#run ababa\\").unwrap();
    assert!(directive.add_line("    //hellowa  \t \t \t").is_err());
    assert_eq!(expected, directive);
}

#[test]
fn test_addln_run_prefix_trailing_whitespace_ok() {
    let expected = Directive::new(
        "    ",
        "// ",
        DirectiveType::Run,
        vec!["ababa\\".to_string(), "".to_string()],
    );
    let mut directive = Directive::detect_from("    // TXTPP#run ababa\\").unwrap();
    assert!(directive.add_line("    //").is_ok());
    assert_eq!(expected, directive);
}

#[test]
fn test_addln_include_single_line_only() {
    let expected = Directive::new(
        "    ",
        "",
        DirectiveType::Include,
        vec!["ababa\\".to_string()],
    );
    let mut directive = Directive::detect_from("    TXTPP#include ababa\\").unwrap();
    assert!(directive.add_line("    hellow").is_err());
    assert_eq!(expected, directive);
}

#[test]
fn test_addln_tag_single_line_only() {
    let expected = Directive::new("    ", "", DirectiveType::Tag, vec!["ababa\\".to_string()]);
    let mut directive = Directive::detect_from("    TXTPP#tag ababa\\").unwrap();
    assert!(directive.add_line("    hellow").is_err());
    assert_eq!(expected, directive);
}
