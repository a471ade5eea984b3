use feroxbuster::text::{
    ends_with_slash, find_first, parse_decimal, same_text, split_on, starts_with_double_slash,
    strip_leading_slashes, trim,
};

#[test]
fn ends_with_slash_looks_at_the_last_character() {
    assert!(ends_with_slash("/"));
    assert!(ends_with_slash("http://localhost/"));
    assert!(!ends_with_slash("http://localhost"));
    assert!(!ends_with_slash(""));
    assert!(!ends_with_slash("/a"));
}

#[test]
fn starts_with_double_slash_needs_two() {
    assert!(starts_with_double_slash("//"));
    assert!(starts_with_double_slash("//upload/img"));
    assert!(starts_with_double_slash("///x"));
    assert!(!starts_with_double_slash("/x/"));
    assert!(!starts_with_double_slash("/"));
    assert!(!starts_with_double_slash(""));
    assert!(!starts_with_double_slash("x//"));
}

#[test]
fn strip_leading_slashes_removes_the_whole_run() {
    assert_eq!(strip_leading_slashes("//upload/img"), "upload/img");
    assert_eq!(strip_leading_slashes("////a//b/"), "a//b/");
    assert_eq!(strip_leading_slashes("/a"), "a");
    assert_eq!(strip_leading_slashes("a/"), "a/");
    assert_eq!(strip_leading_slashes("///"), "");
    assert_eq!(strip_leading_slashes(""), "");
    assert_eq!(strip_leading_slashes("//é/"), "é/");
}

#[test]
fn split_on_agrees_with_the_standard_library() {
    for text in ["", "/", "a", "a/b", "/a/b/", "//", "a//b", "é/ü", "a/b/c/d/"] {
        let expected: Vec<String> = text.split('/').map(String::from).collect();
        assert_eq!(split_on(text, '/'), expected);
    }
    assert_eq!(split_on("a/b", '/'), vec!["a", "b"]);
    assert_eq!(split_on("", '/'), vec![""]);
    assert_eq!(split_on("a:b:c", ':'), vec!["a", "b", "c"]);
}

#[test]
fn trim_agrees_with_the_standard_library() {
    for text in ["", " ", "a", "  a b  ", "\t\na\r\n", "\u{a0}x\u{3000}", " é ", "a  "] {
        assert_eq!(trim(text), text.trim());
    }
    assert_eq!(trim("  name \t"), "name");
    assert_eq!(trim("   "), "");
}

#[test]
fn find_first_gives_the_position_in_characters() {
    assert_eq!(find_first("name: value", ':'), 4);
    assert_eq!(find_first(":x", ':'), 0);
    assert_eq!(find_first("none", ':'), 4);
    assert_eq!(find_first("", ':'), 0);
    assert_eq!(find_first("éé:x", ':'), 2);
    assert_eq!(find_first("a:b:c", ':'), 1);
}

#[test]
fn parse_decimal_reads_numbers() {
    assert_eq!(parse_decimal("0", u64::MAX), Some(0));
    assert_eq!(parse_decimal("7", u64::MAX), Some(7));
    assert_eq!(parse_decimal("40", u64::MAX), Some(40));
    assert_eq!(parse_decimal("+40", u64::MAX), Some(40));
    assert_eq!(parse_decimal("007", u64::MAX), Some(7));
    assert_eq!(parse_decimal("18446744073709551615", u64::MAX), Some(u64::MAX));
    assert_eq!(parse_decimal("255", 255), Some(255));
}

#[test]
fn parse_decimal_refuses_what_is_no_number() {
    assert_eq!(parse_decimal("", u64::MAX), None);
    assert_eq!(parse_decimal("+", u64::MAX), None);
    assert_eq!(parse_decimal("-1", u64::MAX), None);
    assert_eq!(parse_decimal(" 1", u64::MAX), None);
    assert_eq!(parse_decimal("1 ", u64::MAX), None);
    assert_eq!(parse_decimal("1_000", u64::MAX), None);
    assert_eq!(parse_decimal("ten", u64::MAX), None);
    assert_eq!(parse_decimal("++1", u64::MAX), None);
    assert_eq!(parse_decimal("1.5", u64::MAX), None);
    assert_eq!(parse_decimal("٣", u64::MAX), None);
    assert_eq!(parse_decimal("18446744073709551616", u64::MAX), None);
    assert_eq!(parse_decimal("99999999999999999999999", u64::MAX), None);
    assert_eq!(parse_decimal("256", 255), None);
    assert_eq!(parse_decimal("9", 5), None);
}

#[test]
fn parse_decimal_agrees_with_the_standard_library() {
    for text in ["0", "12", "+3", "", "+", "-0", "4294967296", "18446744073709551615", "x1", "1x"] {
        assert_eq!(parse_decimal(text, u64::MAX), text.parse::<u64>().ok());
        assert_eq!(
            parse_decimal(text, u32::MAX as u64),
            text.parse::<u32>().ok().map(u64::from)
        );
    }
}

#[test]
fn same_text_compares_characters() {
    assert!(same_text("", ""));
    assert!(same_text("abc", "abc"));
    assert!(!same_text("abc", "abd"));
    assert!(!same_text("abc", "ab"));
    assert!(!same_text("é", "e"));
}
