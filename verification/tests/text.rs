use tsm::text::{fmt_u64, lines_of, parse_u32, parse_u64, split_char, split_once_char, str_eq,
    trim_ws};

#[test]
fn numbers_format_in_decimal() {
    assert_eq!(fmt_u64(0), "0");
    assert_eq!(fmt_u64(7), "7");
    assert_eq!(fmt_u64(105), "105");
    assert_eq!(fmt_u64(u64::MAX), "18446744073709551615");
}

#[test]
fn numbers_parse_exactly() {
    assert_eq!(parse_u64("0"), Some(0));
    assert_eq!(parse_u64("105"), Some(105));
    assert_eq!(parse_u64("+5"), Some(5));
    assert_eq!(parse_u64(""), None);
    assert_eq!(parse_u64("+"), None);
    assert_eq!(parse_u64("12x"), None);
    assert_eq!(parse_u64(" 12"), None);
    assert_eq!(parse_u64("18446744073709551615"), Some(u64::MAX));
    assert_eq!(parse_u64("18446744073709551616"), None);
}

#[test]
fn narrow_numbers_respect_their_range() {
    assert_eq!(parse_u32("4294967295"), Some(u32::MAX));
    assert_eq!(parse_u32("4294967296"), None);
}

#[test]
fn formatting_then_parsing_gives_the_number_back() {
    for n in [0u64, 1, 9, 10, 99, 100, 12345, u64::MAX] {
        assert_eq!(parse_u64(&fmt_u64(n)), Some(n));
    }
}

#[test]
fn splitting_keeps_empty_fields() {
    assert_eq!(split_char("a:b:c", ':'), vec!["a", "b", "c"]);
    assert_eq!(split_char("::", ':'), vec!["", "", ""]);
    assert_eq!(split_char("plain", ':'), vec!["plain"]);
    assert_eq!(split_char("", ':'), vec![""]);
}

#[test]
fn splitting_once_divides_at_the_first_separator() {
    assert_eq!(
        split_once_char("a:b:c", ':'),
        Some((String::from("a"), String::from("b:c")))
    );
    assert_eq!(split_once_char("abc", ':'), None);
    assert_eq!(
        split_once_char(":rest", ':'),
        Some((String::from(""), String::from("rest")))
    );
}

#[test]
fn lines_drop_the_trailing_newline_only() {
    assert_eq!(lines_of("a\nb\n"), vec!["a", "b"]);
    assert_eq!(lines_of("a\nb"), vec!["a", "b"]);
    assert_eq!(lines_of("a\n\nb\n"), vec!["a", "", "b"]);
    assert_eq!(lines_of(""), Vec::<String>::new());
    assert_eq!(lines_of("win\r\nnix\n"), vec!["win", "nix"]);
}

#[test]
fn trimming_strips_both_ends() {
    assert_eq!(trim_ws("  padded \n"), "padded");
    assert_eq!(trim_ws("bare"), "bare");
    assert_eq!(trim_ws(" \t "), "");
    assert_eq!(trim_ws("in ner"), "in ner");
}

#[test]
fn trimming_knows_unicode_whitespace() {
    assert_eq!(trim_ws("\u{a0}x\u{a0}"), "x");
    assert_eq!(trim_ws("\u{2028}\u{3000}y\u{85}"), "y");
}

#[test]
fn string_equality_is_by_characters() {
    assert!(str_eq("same", "same"));
    assert!(!str_eq("same", "Same"));
    assert!(!str_eq("", "x"));
}
