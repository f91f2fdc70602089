use hyperx::text::{
    find_char, fmt_decimal, parse_decimal, split_str, str_eq, str_eq_ignore_ascii_case, trim_str,
};

#[test]
fn trims_whitespace_or_quotes() {
    assert_eq!(trim_str(" \t a b \r\n", false), "a b");
    assert_eq!(trim_str("\"\"x\"", true), "x");
    assert_eq!(trim_str("   ", false), "");
    assert_eq!(trim_str("\u{a0}\u{b}x\u{c}\u{3000}", false), "x");
    assert_eq!(trim_str("\" x \"", true), " x ");
}

#[test]
fn splits_on_separator() {
    assert_eq!(split_str("a,b,,c", ','), vec!["a", "b", "", "c"]);
    assert_eq!(split_str("", ','), vec![""]);
    assert_eq!(split_str(",", ','), vec!["", ""]);
    assert_eq!(split_str("x; y", ';'), vec!["x", " y"]);
}

#[test]
fn reads_decimals_within_bound() {
    assert_eq!(parse_decimal("0", 10), Some(0));
    assert_eq!(parse_decimal("0010", 10), Some(10));
    assert_eq!(parse_decimal("11", 10), None);
    assert_eq!(parse_decimal("", 10), None);
    assert_eq!(parse_decimal("1a", 100), None);
    assert_eq!(parse_decimal("+1", 100), Some(1));
    assert_eq!(parse_decimal("+", 100), None);
    assert_eq!(parse_decimal("++1", 100), None);
    assert_eq!(parse_decimal("-1", 100), None);
    assert_eq!(parse_decimal("18446744073709551615", u64::MAX), Some(u64::MAX));
    assert_eq!(parse_decimal("18446744073709551616", u64::MAX), None);
}

#[test]
fn writes_decimals() {
    assert_eq!(fmt_decimal(0), "0");
    assert_eq!(fmt_decimal(31536000), "31536000");
    assert_eq!(fmt_decimal(u64::MAX), "18446744073709551615");
}

#[test]
fn compares_strings() {
    assert!(str_eq_ignore_ascii_case("KeEp-AlIvE", "keep-alive"));
    assert!(!str_eq_ignore_ascii_case("keep-alive ", "keep-alive"));
    assert!(!str_eq_ignore_ascii_case("é", "É"));
    assert!(str_eq("abc", "abc"));
    assert!(!str_eq("abc", "abC"));
    assert_eq!(find_char("a=b=c", '='), Some(1));
    assert_eq!(find_char("abc", '='), None);
}
