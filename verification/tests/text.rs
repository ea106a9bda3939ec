use lipics_filter::text::{
    chars_of, contains_string, decimal_string, parse_index, push_decimal, split_at_char,
    starts_with, str_eq,
};

#[test]
fn chars_of_gives_each_character() {
    assert_eq!(chars_of("añb"), vec!['a', 'ñ', 'b']);
    assert_eq!(chars_of(""), Vec::<char>::new());
}

#[test]
fn str_eq_compares_characters() {
    assert!(str_eq("intro", "intro"));
    assert!(!str_eq("intro", "intr"));
    assert!(!str_eq("intro", "intrO"));
    assert!(str_eq("", ""));
}

#[test]
fn starts_with_checks_the_beginning() {
    assert!(starts_with("custom:remark", "custom:"));
    assert!(starts_with("custom:", "custom:"));
    assert!(!starts_with("custom", "custom:"));
    assert!(!starts_with("a custom:", "custom:"));
    assert!(starts_with("anything", ""));
}

#[test]
fn contains_string_finds_exact_items_only() {
    let items = vec!["ref".to_string(), "intro".to_string()];
    assert!(contains_string(&items, "intro"));
    assert!(contains_string(&items, "ref"));
    assert!(!contains_string(&items, "reintro"));
    assert!(!contains_string(&[], "intro"));
}

#[test]
fn decimal_string_writes_numerals() {
    assert_eq!(decimal_string(0), "0");
    assert_eq!(decimal_string(7), "7");
    assert_eq!(decimal_string(10), "10");
    assert_eq!(decimal_string(65536), "65536");
    assert_eq!(decimal_string(usize::MAX), usize::MAX.to_string());
}

#[test]
fn push_decimal_appends() {
    let mut s = "kl-".to_string();
    push_decimal(&mut s, 120);
    assert_eq!(s, "kl-120");
}

#[test]
fn different_numbers_have_different_numerals() {
    let a = decimal_string(12);
    let b = decimal_string(21);
    let c = decimal_string(120);
    assert_ne!(a, b);
    assert_ne!(a, c);
    assert_ne!(b, c);
}

#[test]
fn split_at_char_cuts_at_every_separator() {
    assert_eq!(split_at_char("lipics.mode", '.'), vec!["lipics", "mode"]);
    assert_eq!(split_at_char("lipics", '.'), vec!["lipics"]);
    assert_eq!(split_at_char("", '.'), vec![""]);
    assert_eq!(split_at_char("a.", '.'), vec!["a", ""]);
    assert_eq!(split_at_char(".a", '.'), vec!["", "a"]);
    assert_eq!(split_at_char("a..b", '.'), vec!["a", "", "b"]);
    assert_eq!(split_at_char("é.ü", '.'), vec!["é", "ü"]);
}

#[test]
fn parse_index_reads_decimal_numbers() {
    assert_eq!(parse_index("0"), Some(0));
    assert_eq!(parse_index("42"), Some(42));
    assert_eq!(parse_index("007"), Some(7));
    assert_eq!(parse_index("+5"), Some(5));
    assert_eq!(parse_index(&usize::MAX.to_string()), Some(usize::MAX));
}

#[test]
fn parse_index_refuses_everything_else() {
    assert_eq!(parse_index(""), None);
    assert_eq!(parse_index("+"), None);
    assert_eq!(parse_index("-1"), None);
    assert_eq!(parse_index("1a"), None);
    assert_eq!(parse_index("a1"), None);
    assert_eq!(parse_index(" 1"), None);
    assert_eq!(parse_index("++1"), None);
    assert_eq!(parse_index("99999999999999999999999999"), None);
    let mut too_large = usize::MAX.to_string();
    too_large.push('0');
    assert_eq!(parse_index(&too_large), None);
}

#[test]
fn parse_index_agrees_with_the_standard_library() {
    for text in ["0", "12", "+12", "-12", "", "+", "1.5", "18446744073709551616", "x"] {
        assert_eq!(parse_index(text), text.parse::<usize>().ok());
    }
}
