use recipes::text::{
    is_quantity, join_lines, parse_u32, split_lines, split_tokens, to_lower, trim, u32_to_string,
};

#[test]
fn parse_u32_plain() {
    assert_eq!(parse_u32("42"), Some(42));
    assert_eq!(parse_u32("0"), Some(0));
    assert_eq!(parse_u32("0042"), Some(42));
}

#[test]
fn parse_u32_bounds() {
    assert_eq!(parse_u32("4294967295"), Some(u32::MAX));
    assert_eq!(parse_u32("4294967296"), None);
    assert_eq!(parse_u32("99999999999999999999"), None);
}

#[test]
fn parse_u32_rejects_non_digits() {
    assert_eq!(parse_u32(""), None);
    assert_eq!(parse_u32("12a"), None);
    assert_eq!(parse_u32("-1"), None);
    assert_eq!(parse_u32("+1"), None);
    assert_eq!(parse_u32("1 2"), None);
}

#[test]
fn u32_to_string_digits() {
    assert_eq!(u32_to_string(0), "0");
    assert_eq!(u32_to_string(7), "7");
    assert_eq!(u32_to_string(12345), "12345");
    assert_eq!(u32_to_string(u32::MAX), "4294967295");
}

#[test]
fn print_then_parse_is_identity() {
    for n in [0u32, 1, 9, 10, 99, 100, 65535, u32::MAX] {
        assert_eq!(parse_u32(&u32_to_string(n)), Some(n));
    }
}

#[test]
fn trim_removes_surrounding_whitespace() {
    assert_eq!(trim("  hello  "), "hello");
    assert_eq!(trim("\thi\r\n"), "hi");
    assert_eq!(trim("inner space kept"), "inner space kept");
    assert_eq!(trim("   "), "");
    assert_eq!(trim(""), "");
}

#[test]
fn to_lower_ascii() {
    assert_eq!(to_lower("AbC"), "abc");
    assert_eq!(to_lower("CUPS"), "cups");
    assert_eq!(to_lower("already"), "already");
    assert_eq!(to_lower("Mix 2 Things!"), "mix 2 things!");
}

#[test]
fn quantity_literals_accepted() {
    assert!(is_quantity("2.0"));
    assert!(is_quantity("2"));
    assert!(is_quantity("-0.5"));
    assert!(is_quantity("+3."));
    assert!(is_quantity(".5"));
}

#[test]
fn quantity_literals_rejected() {
    assert!(!is_quantity(""));
    assert!(!is_quantity("."));
    assert!(!is_quantity("-"));
    assert!(!is_quantity("2.0.1"));
    assert!(!is_quantity("2a"));
    assert!(!is_quantity("1 2"));
}

#[test]
fn join_lines_terminates_each_line() {
    assert_eq!(join_lines(&vec!["a".to_string(), "b".to_string()]), "a\nb\n");
    assert_eq!(join_lines(&Vec::new()), "");
    assert_eq!(join_lines(&vec!["".to_string()]), "\n");
}

#[test]
fn split_lines_at_each_newline() {
    assert_eq!(split_lines("a\nb\n"), vec!["a", "b"]);
    assert_eq!(split_lines("a\nb"), vec!["a", "b"]);
    assert_eq!(split_lines(""), Vec::<String>::new());
    assert_eq!(split_lines("\n"), vec![""]);
}

#[test]
fn lines_round_trip_through_one_text() {
    let lines = vec!["Pancakes".to_string(), "Fluffy".to_string(), "0".to_string(), "0".to_string()];
    assert_eq!(split_lines(&join_lines(&lines)), lines);
}

#[test]
fn split_tokens_whitespace_runs() {
    assert_eq!(split_tokens("a b  c"), vec!["a", "b", "c"]);
    assert_eq!(split_tokens("  lead and trail \t"), vec!["lead", "and", "trail"]);
    assert_eq!(split_tokens(""), Vec::<String>::new());
    assert_eq!(split_tokens(" \t\r\n"), Vec::<String>::new());
}
