use txtpp::directive::{Directive, DirectiveType};
use txtpp::line_ending::{get_line_ending_from_buf, ReplaceLineEnding};
use txtpp::text::{
    find, join, join_from, leading_whitespace_len, lines, split_whitespace, starts_with, str_eq,
    to_chars, trim, trim_end, trim_start,
};

fn strings(v: &[&str]) -> Vec<String> {
    v.iter().map(|s| s.to_string()).collect()
}

#[test]
fn chars_of_a_string() {
    assert_eq!(vec!['a', 'ß', '語'], to_chars("aß語"));
    assert!(to_chars("").is_empty());
}

#[test]
fn whitespace_is_what_the_standard_library_says() {
    assert_eq!(4, leading_whitespace_len(" \t\u{a0}\u{3000}x "));
    assert_eq!(0, leading_whitespace_len("x "));
    assert_eq!(2, leading_whitespace_len("  "));
    assert_eq!("x \t", trim_start(" \n x \t"));
    assert_eq!(" \n x", trim_end(" \n x \t\r\n"));
    assert_eq!("x y", trim("\u{2003}x y\u{2003}"));
    assert_eq!("", trim(" \t "));
    assert_eq!("_", trim("_"));
}

#[test]
fn find_gives_the_first_occurrence_in_characters() {
    assert_eq!(Some(0), find("abcabc", "abc"));
    assert_eq!(Some(1), find("aabcabc", "abc"));
    assert_eq!(Some(2), find("ßßab", "ab"));
    assert_eq!(Some(0), find("abc", ""));
    assert_eq!(Some(0), find("", ""));
    assert_eq!(None, find("ab", "abc"));
    assert_eq!(None, find("abab", "ba "));
    assert_eq!(Some(3), find("abcabd", "abd"));
}

#[test]
fn starts_with_and_equality() {
    assert!(starts_with("abc", "ab"));
    assert!(starts_with("abc", ""));
    assert!(starts_with("abc", "abc"));
    assert!(!starts_with("abc", "abcd"));
    assert!(!starts_with("abc", "b"));
    assert!(str_eq("", ""));
    assert!(str_eq("aß", "aß"));
    assert!(!str_eq("ab", "abc"));
    assert!(!str_eq("abc", "abd"));
}

#[test]
fn lines_of_a_text() {
    assert_eq!(strings(&[]), lines(""));
    assert_eq!(strings(&["a"]), lines("a"));
    assert_eq!(strings(&["a"]), lines("a\n"));
    assert_eq!(strings(&["a", ""]), lines("a\n\n"));
    assert_eq!(strings(&["", "a"]), lines("\na"));
    assert_eq!(strings(&["a", "b", "c"]), lines("a\r\nb\nc"));
    assert_eq!(strings(&["a\r", "\rb"]), lines("a\r\r\n\rb\r\n"));
    assert_eq!(strings(&[""]), lines("\r"));
    assert_eq!(strings(&["a"]), lines("a\r"));
}

#[test]
fn joined_parts() {
    assert_eq!("", join(&strings(&[]), ", "));
    assert_eq!("a", join(&strings(&["a"]), ", "));
    assert_eq!("a, , b", join(&strings(&["a", "", "b"]), ", "));
    assert_eq!("b-c", join_from(&strings(&["a", "b", "c"]), 1, "-"));
    assert_eq!("", join_from(&strings(&["a"]), 1, "-"));
    assert_eq!("abc", join(&strings(&["a", "b", "c"]), ""));
}

#[test]
fn words_of_a_text() {
    assert_eq!(strings(&[]), split_whitespace(""));
    assert_eq!(strings(&[]), split_whitespace(" \t\n"));
    assert_eq!(strings(&["sh", "-c"]), split_whitespace("sh -c"));
    assert_eq!(strings(&["pwsh", "-Command", "x"]), split_whitespace("  pwsh \t-Command\u{a0}x "));
}

#[test]
fn replaced_line_endings() {
    assert_eq!("a\r\nb", "a\nb".replace_line_ending("\r\n", false));
    assert_eq!("a\nb\n", "a\r\nb\r\n".replace_line_ending("\n", false));
    assert_eq!("a|b|", "a\nb".replace_line_ending("|", true));
}

#[test]
fn line_ending_of_a_buffer() {
    assert_eq!("\r\n", get_line_ending_from_buf(b"ab\r\ncd\n", 4, "\n"));
    assert_eq!("\n", get_line_ending_from_buf(b"ab\ncd\r\n", 3, "\r\n"));
    assert_eq!("\r\n", get_line_ending_from_buf(b"abc", 3, "\r\n"));
    assert_eq!("|", get_line_ending_from_buf(b"\n", 0, "|"));
}

#[test]
fn formatted_directive_output() {
    assert_eq!("", Directive::format_output("  ", "", "\n"));
    assert_eq!("  a", Directive::format_output("  ", "a", "\n"));
    assert_eq!("  a\n", Directive::format_output("  ", "a\n", "\n"));
    assert_eq!("\ta\r\n\t\r\n\tb\r\n", Directive::format_output("\t", "a\n\r\nb\n", "\r\n"));
    assert_eq!("a\nb", Directive::format_output("", "a\r\nb", "\n"));
    assert_eq!(" \n", Directive::format_output(" ", "\n", "\n"));
}

#[test]
fn directive_names() {
    for (name, kind) in [
        ("", DirectiveType::Empty),
        ("include", DirectiveType::Include),
        ("run", DirectiveType::Run),
        ("tag", DirectiveType::Tag),
        ("temp", DirectiveType::Temp),
        ("write", DirectiveType::Write),
    ] {
        assert_eq!(Some(kind), DirectiveType::from_name(name));
        assert_eq!(name, kind.name());
        assert_eq!(
            !matches!(kind, DirectiveType::Include | DirectiveType::Tag),
            kind.supports_multi_line()
        );
    }
    assert_eq!(None, DirectiveType::from_name("Run"));
    assert_eq!(None, DirectiveType::from_name("run "));
    assert_eq!(None, DirectiveType::from_name("after"));
}

#[test]
fn continuation_by_spaces_counts_the_bytes_of_the_prefix() {
    // the prefix has one character and two bytes
    let mut d = Directive::detect_from("§TXTPP#run a").unwrap();
    assert!(d.add_line(" b").is_err());
    assert!(d.add_line("  b").is_ok());
    assert!(d.add_line("§ c").is_ok());
    assert_eq!(strings(&["a", "b", " c"]), d.args);
}

#[test]
fn sentinel_is_found_at_its_first_occurrence() {
    let d = Directive::detect_from("a TXTPP#run TXTPP#tag x").unwrap();
    assert_eq!("a ", d.prefix);
    assert_eq!(DirectiveType::Run, d.directive_type);
    assert_eq!(strings(&["TXTPP#tag x"]), d.args);
    assert_eq!(None, Directive::detect_from("txtpp#run x"));
    assert_eq!(None, Directive::detect_from("TXTPP#run\tx"));
}

#[test]
fn directive_as_it_is_shown() {
    let mut d = Directive::detect_from("  // TXTPP#run echo \\").unwrap();
    assert_eq!("  // TXTPP#run echo \\", d.to_string());
    d.add_line("  // hello").unwrap();
    assert_eq!("  // TXTPP#run echo \\ ...", d.to_string());
    let d = Directive::detect_from("TXTPP#").unwrap();
    assert_eq!("TXTPP# ", d.to_string());
    let d = Directive::new("", "#", DirectiveType::Tag, vec![]);
    assert_eq!("#TXTPP#tag  ...", d.to_string());
}

#[test]
fn whitespace_is_the_white_space_property_for_every_character() {
    for c in '\0'..=char::MAX {
        let listed = matches!(
            c,
            '\t'..='\r'
                | ' '
                | '\u{85}'
                | '\u{a0}'
                | '\u{1680}'
                | '\u{2000}'..='\u{200a}'
                | '\u{2028}'
                | '\u{2029}'
                | '\u{202f}'
                | '\u{205f}'
                | '\u{3000}'
        );
        assert_eq!(listed, c.is_whitespace(), "{c:?}");
        if listed || (c as u32) < 0x3100 {
            let mut text = String::new();
            text.push(c);
            assert_eq!(usize::from(listed), leading_whitespace_len(&text), "{c:?}");
        }
    }
}
