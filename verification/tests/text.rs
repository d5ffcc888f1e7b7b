//! Operations on text, held against those of the standard library.
use git_workbench::text::{
    char_is_ascii_control, char_is_hex_digit, char_is_whitespace, contains, contains_char, decimal,
    ends_with, file_stem, join, lines, parse_decimal, replace_char, same, signed_decimal, split,
    split_once, starts_with, strip_prefix, trim, trim_end, trim_end_char, IntError,
};

const SAMPLES: [&str; 12] = [
    "",
    " ",
    "a",
    " a b ",
    "\t\u{85}x\u{a0}\u{2028}",
    "a/b//c/",
    "a\nb\r\n\nc",
    "a\n",
    "\r\n",
    "x\r",
    "grüße\u{3000}",
    "..a..",
];

#[test]
fn character_classes_are_those_of_the_standard_library() {
    for n in 0..=0x10ffffu32 {
        if let Some(c) = char::from_u32(n) {
            assert_eq!(char_is_whitespace(c), c.is_whitespace(), "{n:x}");
            assert_eq!(char_is_ascii_control(c), c.is_ascii_control(), "{n:x}");
            assert_eq!(char_is_hex_digit(c), c.is_ascii_hexdigit(), "{n:x}");
        }
    }
}

#[test]
fn trimming_and_splitting_are_those_of_the_standard_library() {
    for s in SAMPLES {
        assert_eq!(trim(s), s.trim());
        assert_eq!(trim_end(s), s.trim_end());
        assert_eq!(trim_end_char(s, '/'), s.trim_end_matches('/'));
        assert_eq!(split(s, '/'), s.split('/').collect::<Vec<_>>());
        assert_eq!(lines(s), s.lines().collect::<Vec<_>>());
        assert_eq!(replace_char(s, 'a', 'b'), s.replace('a', "b"));
        assert_eq!(
            split_once(s, ' '),
            s.split_once(' ').map(|(a, b)| (a.to_string(), b.to_string()))
        );
        for p in SAMPLES {
            assert_eq!(starts_with(s, p), s.starts_with(p));
            assert_eq!(ends_with(s, p), s.ends_with(p));
            assert_eq!(contains(s, p), s.contains(p));
            assert_eq!(same(s, p), s == p);
            assert_eq!(strip_prefix(s, p), s.strip_prefix(p).map(|r| r.to_string()));
        }
        assert_eq!(contains_char(s, 'a'), s.contains('a'));
    }
}

#[test]
fn joining_puts_separators_between() {
    let list = |items: &[&str]| items.iter().map(|s| s.to_string()).collect::<Vec<_>>();
    assert_eq!(join(&list(&[]), ", "), "");
    assert_eq!(join(&list(&["a"]), ", "), "a");
    assert_eq!(join(&list(&["a", "", "c"]), ", "), "a, , c");
}

#[test]
fn file_stems_are_those_of_the_standard_library() {
    for name in ["5.pre", "12.post", "journal.jsonl", "journal.jsonl.tmp", ".5", "5", "a.", ".."] {
        let expected = std::path::Path::new(name).file_stem().map(|s| s.to_str().unwrap());
        assert_eq!(file_stem(name), expected.unwrap_or(name));
    }
}

#[test]
fn numbers_are_written_and_read_as_by_the_standard_library() {
    for n in [0u64, 7, 10, 99, 100, 12345678901234567890, u64::MAX] {
        assert_eq!(decimal(n), n.to_string());
        assert_eq!(parse_decimal(&decimal(n), u64::MAX), Ok(n));
    }
    for n in [0i64, -1, 1, i64::MIN, i64::MAX] {
        assert_eq!(signed_decimal(n), n.to_string());
    }
    for s in ["", "+", "-", "+5", "-5", "5a", "0x1", "00012", "18446744073709551616", " 1", "1+"] {
        let expected = s.parse::<u64>().map_err(|e| e.to_string());
        let found = parse_decimal(s, u64::MAX).map_err(|e| {
            match e {
                IntError::Empty => "cannot parse integer from empty string",
                IntError::InvalidDigit => "invalid digit found in string",
                IntError::TooLarge => "number too large to fit in target type",
            }
            .to_string()
        });
        assert_eq!(found, expected, "{s}");
    }
    assert_eq!(parse_decimal("4294967296", u32::MAX as u64), Err(IntError::TooLarge));
    assert_eq!(parse_decimal("4294967295", u32::MAX as u64), Ok(4294967295));
}
