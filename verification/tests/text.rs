use deb_assets::error::ParseOctalError;
use deb_assets::octal::parse_octal;
use deb_assets::text::{
    contains, decimal_text, ends_with, hex_text, join_texts, same_text, split, split_lines,
    starts_with, strip_suffix, trim,
};
use std::num::IntErrorKind;

#[test]
fn white_space_is_trimmed_as_by_std() {
    for c in '\0'..=char::MAX {
        let s = format!("{c}x{c}");
        assert_eq!(trim(&s), s.trim(), "{:x}", c as u32);
    }
    for s in ["", " ", "a", " a b ", "\t\r\n", "\u{a0}a\u{2003}\u{3000}", "a \u{200b}"] {
        assert_eq!(trim(s), s.trim());
    }
}

#[test]
fn texts_are_searched_as_by_std() {
    let list = ["", "a", "ab", "aab", "ba", "abab", "ä", "bä", "github.com", "git@github.com:x/y"];
    for s in list {
        for t in list {
            assert_eq!(contains(s, t), s.contains(t), "{s} {t}");
            assert_eq!(starts_with(s, t), s.starts_with(t), "{s} {t}");
            assert_eq!(ends_with(s, t), s.ends_with(t), "{s} {t}");
            assert_eq!(strip_suffix(s, t), s.strip_suffix(t).unwrap_or(s), "{s} {t}");
            assert_eq!(same_text(s, t), s == t, "{s} {t}");
        }
    }
}

#[test]
fn texts_are_cut_as_by_std() {
    let mut all = vec![String::new()];
    let mut last = all.clone();
    for _ in 0..6 {
        let mut next = Vec::new();
        for p in &last {
            for c in ['\n', '\r', ',', 'a'] {
                next.push(format!("{p}{c}"));
            }
        }
        all.extend(next.iter().cloned());
        last = next;
    }
    for s in all {
        assert_eq!(split_lines(&s), s.lines().collect::<Vec<_>>(), "{s:?}");
        assert_eq!(split(&s, ','), s.split(',').collect::<Vec<_>>(), "{s:?}");
    }
}

#[test]
fn texts_are_joined() {
    let list = |l: &[&str]| l.iter().map(|s| s.to_string()).collect::<Vec<_>>();
    assert_eq!(join_texts(&list(&[]), ", "), "");
    assert_eq!(join_texts(&list(&["a"]), ", "), "a");
    assert_eq!(join_texts(&list(&["a", "", "b"]), ", "), "a, , b");
}

#[test]
fn numbers_are_written() {
    for n in [0, 1, 9, 10, 11, 99, 100, 1024, 65535, u64::MAX - 1, u64::MAX] {
        assert_eq!(decimal_text(n), n.to_string());
    }
    let all: Vec<u8> = (0..=255).collect();
    let expected: String = all.iter().map(|b| format!("{b:02x}")).collect();
    assert_eq!(hex_text(&all), expected);
    assert_eq!(hex_text(&[0x00, 0x0f, 0xa0, 0xff]), "000fa0ff");
}

#[test]
fn octal_numbers_are_read_as_by_std() {
    for s in [
        "", "+", "-", "0", "644", "0644", "+755", "-1", "8", "78", "0o644", " 644", "37777777777",
        "40000000000", "99999999999999", "777777777777", "00000000000000000644", "++1", "6\u{0664}",
        "4000000000x", "37777777778",
    ] {
        let expected = u32::from_str_radix(s, 8).map_err(|e| match e.kind() {
            IntErrorKind::Empty => ParseOctalError::Empty,
            IntErrorKind::InvalidDigit => ParseOctalError::InvalidDigit,
            IntErrorKind::PosOverflow => ParseOctalError::PosOverflow,
            _ => unreachable!(),
        });
        assert_eq!(parse_octal(s), expected, "{s}");
    }
    assert_eq!(parse_octal("644"), Ok(0o644));
}

#[test]
fn octal_numbers_are_read_back() {
    for n in [0, 7, 8, 0o644, 0o755, 0o7777, u32::MAX - 1, u32::MAX] {
        assert_eq!(parse_octal(&format!("{n:o}")), Ok(n));
    }
}
