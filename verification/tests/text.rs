use tricoder::text::{char_is_whitespace, chars_of, contains_wildcard, names_in, split_lines, trim};

fn std_lines(s: &str) -> Vec<String> {
    s.split('\n').map(|piece| piece.to_string()).collect()
}

#[test]
fn whitespace_agrees_with_std_on_every_char() {
    let mut code: u32 = 0;
    while code <= 0x10FFFF {
        if let Some(c) = char::from_u32(code) {
            assert_eq!(char_is_whitespace(c), c.is_whitespace(), "U+{:04X}", code);
        }
        code += 1;
    }
}

#[test]
fn whitespace_table() {
    for c in [
        '\t', '\n', '\u{0B}', '\u{0C}', '\r', ' ', '\u{85}', '\u{A0}', '\u{1680}', '\u{2000}',
        '\u{2005}', '\u{200A}', '\u{2028}', '\u{2029}', '\u{202F}', '\u{205F}', '\u{3000}',
    ] {
        assert!(char_is_whitespace(c));
    }
    for c in ['a', '*', '.', '0', '\u{08}', '\u{0E}', '\u{200B}', '\u{180E}', '\u{FEFF}'] {
        assert!(!char_is_whitespace(c));
    }
}

#[test]
fn chars_of_keeps_every_char() {
    assert_eq!(chars_of(""), Vec::<char>::new());
    assert_eq!(chars_of("a.b"), vec!['a', '.', 'b']);
    assert_eq!(chars_of("é\n*"), vec!['é', '\n', '*']);
}

#[test]
fn trim_removes_surrounding_whitespace() {
    assert_eq!(trim("  a.example.com \t"), "a.example.com");
    assert_eq!(trim("a.example.com"), "a.example.com");
    assert_eq!(trim("\r\nb.example.com\r"), "b.example.com");
    assert_eq!(trim("\u{3000}c.example.com\u{A0}"), "c.example.com");
}

#[test]
fn trim_keeps_inner_whitespace() {
    assert_eq!(trim(" a b  c "), "a b  c");
}

#[test]
fn trim_of_blank_text_is_empty() {
    assert_eq!(trim(""), "");
    assert_eq!(trim(" "), "");
    assert_eq!(trim(" \t\r\n "), "");
}

#[test]
fn trim_agrees_with_std() {
    for s in [
        "", " ", "a", " a", "a ", "  a  b  ", "\t\ta\n", "\u{2003}x\u{2003}", "é ", " *.é.com ",
        "\u{200B}a\u{200B}", "a\u{85}",
    ] {
        assert_eq!(trim(s), s.trim(), "{:?}", s);
    }
}

#[test]
fn split_lines_cuts_at_every_separator() {
    assert_eq!(split_lines("a\nb\nc"), vec!["a", "b", "c"]);
    assert_eq!(split_lines("a.example.com"), vec!["a.example.com"]);
}

#[test]
fn split_lines_keeps_empty_pieces() {
    assert_eq!(split_lines(""), vec![""]);
    assert_eq!(split_lines("\n"), vec!["", ""]);
    assert_eq!(split_lines("a\n"), vec!["a", ""]);
    assert_eq!(split_lines("\na"), vec!["", "a"]);
    assert_eq!(split_lines("a\n\nb"), vec!["a", "", "b"]);
}

#[test]
fn split_lines_leaves_carriage_returns() {
    assert_eq!(split_lines("a\r\nb"), vec!["a\r", "b"]);
}

#[test]
fn split_lines_agrees_with_std() {
    for s in ["", "\n", "\n\n", "a", "a\nb", "a\n\nb\n", " a \n b ", "é\n*\né", "\r\n"] {
        assert_eq!(split_lines(s), std_lines(s), "{:?}", s);
    }
}

#[test]
fn contains_wildcard_finds_the_star() {
    assert!(contains_wildcard("*.example.com"));
    assert!(contains_wildcard("a.*.example.com"));
    assert!(contains_wildcard("example.com*"));
    assert!(contains_wildcard("*"));
}

#[test]
fn contains_wildcard_rejects_plain_names() {
    assert!(!contains_wildcard("a.example.com"));
    assert!(!contains_wildcard(""));
    assert!(!contains_wildcard("?.example.com"));
}

#[test]
fn names_in_trims_each_line() {
    assert_eq!(
        names_in(" a.example.com \n\tb.example.com\r\n*.example.com"),
        vec!["a.example.com", "b.example.com", "*.example.com"]
    );
}

#[test]
fn names_in_keeps_duplicates_and_blank_lines() {
    assert_eq!(names_in("a\n a \n\n"), vec!["a", "a", "", ""]);
    assert_eq!(names_in(""), vec![""]);
}
