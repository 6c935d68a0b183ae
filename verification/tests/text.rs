use poc_com::text::{
    contains_text, copy_of, decimal_text, eq_ignore_ascii_case, is_blank, is_white_space, join_words, lines, parse_number,
    parse_within, same_text, starts_with, string_of, strip_prefix, together3, trim, two_digit_text,
};

const SAMPLES: [&str; 14] = [
    "", " ", "a", " a ", "a b", "\u{3000}x\u{2003}", "\t\r\n", "é", "\u{85}mid\u{a0}", "A\nB", "A\r\nB\r\n", "\r\n", "x\r", "\n\n",
];

#[test]
fn white_space_is_what_the_standard_library_says() {
    for n in 0..=0x10FFFFu32 {
        if let Some(c) = char::from_u32(n) {
            assert_eq!(is_white_space(c), c.is_whitespace(), "{n:x}");
        }
    }
}

#[test]
fn trimming_and_lines_are_what_the_standard_library_says() {
    for s in SAMPLES {
        assert_eq!(trim(s), s.trim());
        assert_eq!(is_blank(s), s.trim().is_empty());
        let expected: Vec<String> = s.lines().map(|l| l.to_string()).collect();
        assert_eq!(lines(s), expected);
    }
    assert_eq!(lines("a\r\r\nb\r"), vec!["a\r".to_string(), "b\r".to_string()]);
}

#[test]
fn searching_is_what_the_standard_library_says() {
    for a in SAMPLES {
        for b in SAMPLES {
            assert_eq!(contains_text(a, b), a.contains(b));
            assert_eq!(starts_with(a, b), a.starts_with(b));
            assert_eq!(same_text(a, b), a == b);
            assert_eq!(strip_prefix(a, b), a.strip_prefix(b).unwrap_or(a));
            assert_eq!(eq_ignore_ascii_case(a, b), a.eq_ignore_ascii_case(b));
        }
    }
    assert!(eq_ignore_ascii_case("Io80é", "iO80é"));
    assert!(!eq_ignore_ascii_case("É", "é"));
}

#[test]
fn numbers_are_read_as_the_standard_library_reads_them() {
    for s in ["0", "7", "+7", "-7", "", "+", "4800", "4294967295", "4294967296", " 1", "1 ", "00012", "1e3", "٣"] {
        assert_eq!(parse_number(s), s.parse::<u32>().ok(), "{s}");
    }
    for s in ["18446744073709551615", "18446744073709551616", "99999999999999999999999999999999999999999999"] {
        assert_eq!(parse_within(s, u64::MAX), s.parse::<u64>().ok(), "{s}");
    }
    for n in [0u128, 9, 10, 99, 100, 4800, u64::MAX as u128, u128::MAX] {
        assert_eq!(decimal_text(n), n.to_string());
        assert_eq!(two_digit_text(n), format!("{n:02}"));
    }
}

#[test]
fn texts_are_put_together() {
    assert_eq!(together3("a", "é", ""), "aé");
    assert_eq!(copy_of("xyz"), "xyz");
    assert_eq!(string_of(&['h', 'i']), "hi");
    let words: Vec<String> = vec!["a".to_string(), "".to_string(), "b".to_string()];
    assert_eq!(join_words(&words), words.join(" "));
}
