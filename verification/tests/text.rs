use usched::number::{
    decimal_text, padded_text, parse_signed, parse_unsigned, signed_text, two_digit_text,
};
use usched::text::{
    contains_char, contains_string, contains_text, join, lowercase, replace, same, split_lines,
    split_on, split_whitespace, strip_prefix, strip_suffix, trim, trim_end_matches,
};

#[test]
fn white_space_is_trimmed_and_split_as_in_std() {
    for s in ["", " ", "a", "  a b\t", "\u{a0}x\u{3000}y\u{85}", "a\u{200b}b"] {
        assert_eq!(trim(s), s.trim());
        let expected: Vec<&str> = s.split_whitespace().collect();
        assert_eq!(split_whitespace(s), expected);
    }
}

#[test]
fn pieces_and_lines_are_those_of_std() {
    for s in ["", "-", "a-b", "a--b-", "\n", "a\nb", "a\r\nb\r", "a\n\n"] {
        let expected: Vec<&str> = s.split('-').collect();
        assert_eq!(split_on(s, '-'), expected);
        let expected: Vec<&str> = s.lines().collect();
        assert_eq!(split_lines(s), expected);
    }
}

#[test]
fn searching_is_that_of_std() {
    for (s, p) in [("abc", "b"), ("abc", ""), ("", "a"), ("aab", "ab"), ("é-è", "-è")] {
        assert_eq!(contains_text(s, p), s.contains(p));
        assert_eq!(strip_prefix(s, p), s.strip_prefix(p));
        assert_eq!(strip_suffix(s, p), s.strip_suffix(p));
    }
    assert!(contains_char("abc", 'c'));
    assert!(!contains_char("abc", 'd'));
    assert_eq!(trim_end_matches("a.t.t", ".t"), "a");
    assert_eq!(replace("a'b'", '\'', "xy"), "axybxy");
    let list = vec!["a".to_string(), "b".to_string()];
    assert!(contains_string(&list, "b") && !contains_string(&list, "c"));
    assert_eq!(join(&list, ", "), "a, b");
    assert_eq!(join(&vec![], ", "), "");
    assert!(same("x", "x") && !same("x", "xy"));
}

#[test]
fn lower_case_is_that_of_std() {
    for s in ["ABC xyz", "ÄÖ", "İ", ""] {
        assert_eq!(lowercase(s), s.to_lowercase());
    }
}

#[test]
fn numbers_are_read_as_in_std() {
    for s in [
        "", "+", "-", "0", "+7", "-7", "007", "4294967295", "4294967296", "1 ", "a",
        "9223372036854775807", "-9223372036854775808", "9223372036854775808",
        "18446744073709551615", "18446744073709551616",
    ] {
        assert_eq!(
            parse_unsigned(s, u32::MAX as u64),
            s.parse::<u32>().ok().map(|n| n as u64)
        );
        assert_eq!(parse_unsigned(s, u64::MAX), s.parse::<u64>().ok());
        assert_eq!(parse_signed(s), s.parse::<i64>().ok());
    }
}

#[test]
fn numbers_are_written_as_in_std() {
    for n in [0, 5, 10, 42, u64::MAX] {
        assert_eq!(decimal_text(n), format!("{}", n));
        assert_eq!(padded_text(n, 4), format!("{:04}", n));
    }
    for n in [i64::MIN, -10, -5, 0, 7, 10, i64::MAX] {
        assert_eq!(signed_text(n), format!("{}", n));
        assert_eq!(two_digit_text(n), format!("{:02}", n));
    }
}
