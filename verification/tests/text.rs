use coda_memory::number::{parse_number, push_decimal, push_hex, push_signed};
use coda_memory::text::{
    begins, chars_of, find_from, rest_after, split_lines, stripped_kb, trimmed, white,
};

fn string(s: &[char]) -> String {
    s.iter().collect()
}

#[test]
fn white_space_is_unicode_white_space() {
    for c in '\0'..=char::MAX {
        assert_eq!(white(c), c.is_whitespace(), "{:?}", c);
    }
}

#[test]
fn lines_as_std_splits_them() {
    for text in [
        "", "\n", "a", "a\n", "a\nb", "a\n\nb\n", "a\r\nb\r", "\r\n\r\n", "a\rb\n", "\r\r\n", "é\nü",
    ] {
        let chars = chars_of(text);
        let lines: Vec<String> = split_lines(&chars).into_iter().map(string).collect();
        let expected: Vec<String> = text.lines().map(|l| l.to_string()).collect();
        assert_eq!(lines, expected, "{:?}", text);
    }
}

#[test]
fn lines_of_two_texts_together() {
    let lines = |text: &str| -> Vec<String> {
        split_lines(&chars_of(text)).into_iter().map(string).collect()
    };
    for x in ["", "\n", "a\n", "a\r\n\nb\n"] {
        for y in ["", "c", "\nc\n", "\r\nc\r"] {
            let mut both = lines(x);
            both.extend(lines(y));
            assert_eq!(lines(&format!("{}{}", x, y)), both);
        }
    }
}

#[test]
fn trimming_as_std_trims() {
    for text in ["", " ", "a", " a b\t", "\u{a0}\u{3000}x\u{2028}", "kB", " 12 kB", "12 kBkB", "B kB kB"] {
        let chars = chars_of(text);
        assert_eq!(string(trimmed(&chars)), text.trim());
        assert_eq!(string(stripped_kb(&chars)), text.trim_end_matches("kB"));
    }
}

#[test]
fn finding_and_prefixes() {
    let chars = chars_of("a-b-c");
    assert_eq!(find_from(&chars, '-', 0), 1);
    assert_eq!(find_from(&chars, '-', 2), 3);
    assert_eq!(find_from(&chars, 'x', 0), 5);
    assert_eq!(find_from(&chars, 'a', 5), 5);
    assert!(begins(&chars, &chars_of("a-")));
    assert!(begins(&chars, &[]));
    assert!(!begins(&chars, &chars_of("a-b-c-")));
    assert_eq!(rest_after(&chars, "a-b").map(string), Some("-c".to_string()));
    assert_eq!(rest_after(&chars, "b").map(string), None);
}

#[test]
fn numbers_as_std_parses_them() {
    for text in [
        "", "+", "-", "0", "007", "+5", "++5", "-5", "12a", " 1", "1 ", "18446744073709551615",
        "18446744073709551616", "99999999999999999999999", "٣", "1_000", "+18446744073709551615",
    ] {
        let chars = chars_of(text);
        assert_eq!(parse_number(&chars, 10), text.parse::<usize>().ok(), "{:?}", text);
    }
    for text in [
        "", "+", "ff", "FF", "fF0", "g", "0x1", "+a", "ffffffffffffffff", "10000000000000000", "-1",
        "7f00aa000000",
    ] {
        let chars = chars_of(text);
        assert_eq!(parse_number(&chars, 16), usize::from_str_radix(text, 16).ok(), "{:?}", text);
    }
}

#[test]
fn numbers_as_std_formats_them() {
    for n in [0u64, 7, 9, 10, 42, 100, 1023, 300_000, u64::MAX] {
        let mut out = "n=".to_string();
        push_decimal(&mut out, n);
        assert_eq!(out, format!("n={}", n));
        let mut out = String::new();
        push_hex(&mut out, n, 16);
        assert_eq!(out, format!("{:016x}", n));
    }
    for i in [0i64, 1, -1, -10, 4096, i64::MIN, i64::MAX] {
        let mut out = String::new();
        push_signed(&mut out, i);
        assert_eq!(out, format!("{}", i));
    }
}
