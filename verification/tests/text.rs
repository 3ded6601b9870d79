use lhef::text::{
    append_chars, find_char, is_whitespace, line_content, nth_field, skip_to_white_space,
    skip_white_space, split_whitespace, string_of, text_eq, to_chars, trim,
};
use lhef::{pop_line, Lines};

fn chars(s: &str) -> Vec<char> {
    s.chars().collect()
}

#[test]
fn white_space_is_that_of_the_standard_library() {
    for code in 0..=0x10ffffu32 {
        if let Some(c) = char::from_u32(code) {
            assert_eq!(is_whitespace(c), c.is_whitespace(), "{:x}", code);
        }
    }
}

#[test]
fn characters_and_strings() {
    assert_eq!(to_chars("aé\u{2003}z"), vec!['a', 'é', '\u{2003}', 'z']);
    assert_eq!(to_chars(""), Vec::<char>::new());
    assert_eq!(string_of(&['a', 'é', 'z']), "aéz");
    assert_eq!(string_of(&[]), "");
    let mut s = String::from("ab");
    append_chars(&mut s, &['c', 'd']);
    assert_eq!(s, "abcd");
}

#[test]
fn comparing_with_a_word() {
    assert!(text_eq(&chars("<init>"), "<init>"));
    assert!(!text_eq(&chars("<init>"), "<init"));
    assert!(!text_eq(&chars("<init"), "<init>"));
    assert!(!text_eq(&chars("<inix>"), "<init>"));
    assert!(text_eq(&[], ""));
}

#[test]
fn trimming_is_that_of_the_standard_library() {
    for text in ["", " ", "a", " a", "a ", "  a b \t\r\n", "\u{a0}x\u{3000}", "\n\n", "a\u{85}", "\u{2028}ab c\u{205f}"] {
        assert_eq!(string_of(trim(&chars(text))), text.trim(), "{:?}", text);
    }
}

#[test]
fn fields_are_those_of_the_standard_library() {
    for text in ["", " ", "a", " a", "a ", "  a b \t\r\n", "1 2  3\t4\n", "\u{a0}x\u{3000}y", "one\u{2003}two  three\n"] {
        let fields = split_whitespace(&chars(text));
        let expected: Vec<&str> = text.split_whitespace().collect();
        assert_eq!(fields, expected, "{:?}", text);
        for k in 0..expected.len() + 2 {
            assert_eq!(nth_field(&fields, k), expected.get(k).copied());
        }
    }
}

#[test]
fn scanning() {
    let line = chars("  ab  c");
    assert_eq!(skip_white_space(&line, 0), 2);
    assert_eq!(skip_white_space(&line, 2), 2);
    assert_eq!(skip_to_white_space(&line, 2), 4);
    assert_eq!(skip_white_space(&line, 4), 6);
    assert_eq!(skip_to_white_space(&line, 6), 7);
    assert_eq!(skip_white_space(&line, 7), 7);
    assert_eq!(find_char(&line, 'b', 0), 3);
    assert_eq!(find_char(&line, 'b', 4), 7);
    assert_eq!(find_char(&line, 'a', 2), 2);
}

#[test]
fn a_line_without_its_terminator() {
    for (line, content) in [("", ""), ("\n", ""), ("\r\n", ""), ("a\n", "a"), ("a\r\n", "a"), ("a", "a"), ("a\r", "a\r"), ("a\r\r\n", "a\r"), ("\r", "\r")] {
        assert_eq!(string_of(line_content(&chars(line))), content, "{:?}", line);
        if !line.is_empty() {
            assert_eq!(line.lines().last().unwrap_or(""), content, "{:?}", line);
        }
    }
}

fn popped(text: &str) -> String {
    let mut s = text.to_string();
    pop_line(&mut s);
    s
}

#[test]
fn popping_the_last_line() {
    assert_eq!(popped(""), "");
    assert_eq!(popped("\n"), "");
    assert_eq!(popped("a"), "");
    assert_eq!(popped("a\n"), "");
    assert_eq!(popped("a\nb"), "a\n");
    assert_eq!(popped("a\nb\n"), "a\n");
    assert_eq!(popped("a\n\n"), "a\n");
    assert_eq!(popped("a\nbc\r\n"), "a\n");
    assert_eq!(popped("one\ntwo\nthree"), "one\ntwo\n");
}

#[test]
fn reading_line_by_line() {
    let mut lines = Lines::new("one\n\ntwo\r\nlast");
    assert_eq!(lines.position(), 0);
    assert!(!lines.at_end());
    assert_eq!(lines.read_line(), chars("one\n"));
    assert_eq!(lines.position(), 4);
    assert_eq!(lines.read_line(), chars("\n"));
    assert_eq!(lines.read_line(), chars("two\r\n"));
    assert!(!lines.at_end());
    assert_eq!(lines.read_line(), chars("last"));
    assert!(lines.at_end());
    assert_eq!(lines.read_line(), chars(""));
    assert_eq!(lines.read_line(), chars(""));
    assert_eq!(lines.position(), 14);
    let mut empty = Lines::new("");
    assert!(empty.at_end());
    assert_eq!(empty.read_line(), chars(""));
}
