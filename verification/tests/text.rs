use branch_diffs::chars::{
    ascii_blank_char, ascii_digit, chars_of, same_text, starts_with, text_between,
    trim_ascii_bounds, trim_between, white_space_char,
};
use branch_diffs::lines::split_lines;

fn std_lines(text: &str) -> Vec<String> {
    text.lines().map(|l| l.to_owned()).collect()
}

#[test]
fn split_lines_agrees_with_std() {
    let samples = [
        "",
        "\n",
        "\r\n",
        "a",
        "a\n",
        "a\r\n",
        "a\r",
        "a\n\nb",
        "foo\nbar\n\r\nbaz\r",
        "one\r\ntwo\r\n\r\nthree",
        "\r\r\n",
        "x\n\r",
        "tr\u{e9}s bien\n\u{2028}\n",
    ];
    for s in samples {
        assert_eq!(split_lines(s), std_lines(s), "text {:?}", s);
    }
}

#[test]
fn split_lines_drops_terminators_only() {
    assert_eq!(split_lines("a\r\nb\n"), vec!["a".to_owned(), "b".to_owned()]);
    assert_eq!(split_lines("a\rb"), vec!["a\rb".to_owned()]);
}

#[test]
fn white_space_agrees_with_std_on_every_char() {
    let mut c = 0u32;
    while c <= 0x10FFFF {
        if let Some(ch) = char::from_u32(c) {
            assert_eq!(white_space_char(ch), ch.is_whitespace(), "U+{:04X}", c);
        }
        c += 1;
    }
}

#[test]
fn digits_and_blanks_agree_with_std_on_every_char() {
    let mut c = 0u32;
    while c <= 0x10FFFF {
        if let Some(ch) = char::from_u32(c) {
            assert_eq!(ascii_digit(ch), ch.is_ascii_digit(), "U+{:04X}", c);
            assert_eq!(ascii_blank_char(ch), ch.is_ascii_whitespace(), "U+{:04X}", c);
        }
        c += 1;
    }
}

#[test]
fn trim_ascii_bounds_cuts_ascii_white_space_only() {
    let chars = chars_of(" \t\r\n\u{c}\u{a0}x y\u{b}\n ");
    let (a, b) = trim_ascii_bounds(&chars);
    assert_eq!(text_between(&chars, a, b), "\u{a0}x y\u{b}");
    let blank = chars_of(" \n ");
    let (a, b) = trim_ascii_bounds(&blank);
    assert_eq!(a, b);
}

#[test]
fn same_text_and_starts_with_compare_characters() {
    assert!(same_text("", ""));
    assert!(same_text("abc", "abc"));
    assert!(!same_text("abc", "abd"));
    assert!(!same_text("abc", "ab"));
    assert!(starts_with(&chars_of("abc"), &chars_of("")));
    assert!(starts_with(&chars_of("abc"), &chars_of("ab")));
    assert!(starts_with(&chars_of("abc"), &chars_of("abc")));
    assert!(!starts_with(&chars_of("abc"), &chars_of("abcd")));
    assert!(!starts_with(&chars_of("abc"), &chars_of("b")));
}

#[test]
fn trim_between_agrees_with_std_trim() {
    let samples = ["", " ", "  a  ", "a", "\t a b \u{a0}\n", "\u{3000}x\u{2009}", " \u{200b} "];
    for s in samples {
        let chars = chars_of(s);
        let (a, b) = trim_between(&chars, 0, chars.len());
        assert_eq!(text_between(&chars, a, b), s.trim(), "text {:?}", s);
    }
}

#[test]
fn text_between_copies_the_range() {
    let chars = chars_of("h\u{e9}llo");
    assert_eq!(text_between(&chars, 1, 4), "\u{e9}ll");
    assert_eq!(text_between(&chars, 2, 2), "");
}
