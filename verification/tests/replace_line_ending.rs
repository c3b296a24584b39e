use txtpp::line_ending::ReplaceLineEnding;

#[test]
fn string_test_empty() {
    assert_eq!("", "".replace_line_ending("\n", false));
    assert_eq!("", "\r".replace_line_ending("\n", false));
    assert_eq!("\n", "\r\n".replace_line_ending("\n", false));
}

#[test]
fn test_empty_force_lf() {
    assert_eq!("\n", "".replace_line_ending("\n", true));
}

#[test]
fn test_empty_force_crlf() {
    assert_eq!("\r\n", "".replace_line_ending("\r\n", true));
}

#[test]
fn string_test_one() {
    assert_eq!("a", "a".replace_line_ending("\n", false));
}

#[test]
fn test_one_force_lf() {
    assert_eq!("a\n", "a".replace_line_ending("\n", true));
    assert_eq!("a\n", "a\n".replace_line_ending("\n", true));
    assert_eq!("a\n", "a\r\n".replace_line_ending("\n", true));
}

#[test]
fn test_multiple_empty_lines_crlf() {
    assert_eq!("a\r\n\r\n", "a\n\n".replace_line_ending("\r\n", false));
    assert_eq!("a\r\n\r\na\r\n", "a\n\na".replace_line_ending("\r\n", true));
    assert_eq!("a\r\n\r\r\n", "a\r\n\r\r\n".replace_line_ending("\r\n", false));
}
