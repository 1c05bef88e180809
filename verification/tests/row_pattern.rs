use branch_diffs::row::{label_char, parse_row, word_char, ReviewInfo, Row};
use regex::Regex;

/// The row as a regular expression reads it.
fn by_pattern(pattern: &Regex, line: &str) -> Option<Row> {
    let caps = pattern.captures(line)?;
    Some(Row {
        ticket: caps["diff"].to_owned(),
        info: ReviewInfo {
            exists: caps.name("exists").is_some(),
            status: caps["status"].trim().to_owned(),
            summary: caps["summary"].trim().to_owned(),
        },
    })
}

/// A small deterministic source of numbers.
struct Numbers(u64);

impl Numbers {
    fn next(&mut self, bound: usize) -> usize {
        self.0 = self.0.wrapping_mul(6364136223846793005).wrapping_add(1442695040888963407);
        ((self.0 >> 33) as usize) % bound
    }
}

fn random_line(numbers: &mut Numbers, alphabet: &[char], longest: usize) -> String {
    let len = numbers.next(longest + 1);
    (0..len).map(|_| alphabet[numbers.next(alphabet.len())]).collect()
}

#[test]
fn rows_agree_with_the_pattern_on_chosen_lines() {
    let pattern =
        Regex::new(r"^(?P<exists>\* )?(?P<status>[\w ]+) (?P<diff>D[0-9]+): (?P<summary>.*)$").unwrap();
    let lines = [
        "* Needs Review D42: Fix bug",
        "Closed D7: Old work",
        "  Accepted     D100: Add: feature D5: x  ",
        "* * Closed D7: x",
        "*  Closed D7: x",
        "* Closed  D7: x",
        "Closed D7 D8: x",
        "Closed D7: D8: x",
        "Closed D D8: x",
        "D1 D2: x",
        " D2: x",
        "  D2: x",
        "D D2: ",
        "Closed D7:x",
        "Closed D7 : x",
        "Closed d7: x",
        "Closed D07: x",
        "Needs_Review D1: _",
        "\u{e9}t\u{e9} D1: \u{e9}",
        "a\u{a0}b D1: x",
        "a\tb D1: x",
        "Closed D1: a\nb",
        "Closed D1: a\r",
        "Closed\nD1: a",
        "",
        " ",
        "*",
        "* ",
    ];
    for line in lines {
        assert_eq!(parse_row(line), by_pattern(&pattern, line), "line {:?}", line);
    }
}

fn random_text(numbers: &mut Numbers, pieces: &[&str], most: usize) -> String {
    let count = numbers.next(most + 1);
    (0..count).map(|_| pieces[numbers.next(pieces.len())]).collect()
}

#[test]
fn rows_agree_with_the_pattern_on_random_lines() {
    let pattern =
        Regex::new(r"^(?P<exists>\* )?(?P<status>[\w ]+) (?P<diff>D[0-9]+): (?P<summary>.*)$").unwrap();
    let alphabet = [
        '*', ' ', ' ', ' ', 'D', 'D', 'N', 'a', '1', '2', ':', ':', '_', '-', '\u{e9}', '\n',
        '\u{662}', '\u{a0}',
    ];
    let mut numbers = Numbers(7);
    for _ in 0..200_000 {
        let line = random_line(&mut numbers, &alphabet, 12);
        assert_eq!(parse_row(&line), by_pattern(&pattern, &line), "line {:?}", line);
    }
}

#[test]
fn rows_agree_with_the_pattern_on_random_rows() {
    let pattern =
        Regex::new(r"^(?P<exists>\* )?(?P<status>[\w ]+) (?P<diff>D[0-9]+): (?P<summary>.*)$").unwrap();
    let pieces = [
        "* ", " D", " D1", "D23", ": ", ": ", " ", " ", "Needs", "Review", "x", "7", ":", "_", "-",
        "\u{e9}", "\n", "\u{662}", "\t",
    ];
    let mut numbers = Numbers(3);
    let mut rows = 0;
    for _ in 0..200_000 {
        let line = random_text(&mut numbers, &pieces, 8);
        let row = parse_row(&line);
        assert_eq!(row, by_pattern(&pattern, &line), "line {:?}", line);
        if row.is_some() {
            rows += 1;
        }
    }
    assert!(rows > 1000, "only {} rows among the lines", rows);
}

#[test]
fn rows_agree_with_the_unicode_digit_pattern_on_ascii_lines() {
    let pattern =
        Regex::new(r"^(?P<exists>\* )?(?P<status>[\w ]+) (?P<diff>D\d+): (?P<summary>.*)$").unwrap();
    let alphabet = ['*', ' ', ' ', 'D', 'D', 'x', 'Y', '0', '9', ':', ':', '_', '.', '\t'];
    let mut numbers = Numbers(11);
    for _ in 0..100_000 {
        let line = random_line(&mut numbers, &alphabet, 10);
        assert_eq!(parse_row(&line), by_pattern(&pattern, &line), "line {:?}", line);
    }
}

#[test]
fn word_characters_agree_with_the_pattern_on_every_char() {
    let word = Regex::new(r"^\w$").unwrap();
    let label = Regex::new(r"^[\w ]$").unwrap();
    let mut buffer = [0u8; 4];
    let mut code = 0u32;
    while code <= 0x10FFFF {
        if let Some(c) = char::from_u32(code) {
            let text: &str = c.encode_utf8(&mut buffer);
            assert_eq!(word_char(c), word.is_match(text), "U+{:04X}", code);
            assert_eq!(label_char(c), label.is_match(text), "U+{:04X}", code);
        }
        code += 1;
    }
}
