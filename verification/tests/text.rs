use expr_lang::text::{parse_isize, parse_usize, split_words, str_eq, tokenize, trim_str};

#[test]
fn trimming_strips_surrounding_whitespace() {
    assert_eq!(trim_str("  a b \t"), "a b".to_string());
    assert_eq!(trim_str(""), String::new());
    assert_eq!(trim_str(" \t \n"), String::new());
    assert_eq!(trim_str("word"), "word".to_string());
}

#[test]
fn splitting_on_spaces() {
    assert_eq!(split_words("a b c"), vec!["a", "b", "c"]);
    assert_eq!(split_words(""), vec![""]);
    assert_eq!(split_words("a  b"), vec!["a", "", "b"]);
    assert_eq!(split_words(" x"), vec!["", "x"]);
}

#[test]
fn tokenizing_a_statement() {
    assert_eq!(tokenize("  2 3 +  "), vec!["2", "3", "+"]);
    assert_eq!(tokenize(""), vec![""]);
}

#[test]
fn string_equality() {
    assert!(str_eq("abc", "abc"));
    assert!(!str_eq("abc", "abd"));
    assert!(!str_eq("abc", "ab"));
    assert!(str_eq("", ""));
}

#[test]
fn unsigned_literals() {
    assert_eq!(parse_usize("0"), Some(0));
    assert_eq!(parse_usize("1234"), Some(1234));
    assert_eq!(parse_usize(""), None);
    assert_eq!(parse_usize("12a"), None);
    assert_eq!(parse_usize("18446744073709551615"), Some(usize::MAX));
    assert_eq!(parse_usize("18446744073709551616"), None);
}

#[test]
fn signed_literals() {
    assert_eq!(parse_isize("42"), Some(42));
    assert_eq!(parse_isize("-42"), Some(-42));
    assert_eq!(parse_isize("+42"), Some(42));
    assert_eq!(parse_isize("-"), None);
    assert_eq!(parse_isize("+"), None);
    assert_eq!(parse_isize(""), None);
    assert_eq!(parse_isize("9223372036854775807"), Some(isize::MAX));
    assert_eq!(parse_isize("9223372036854775808"), None);
    assert_eq!(parse_isize("-9223372036854775808"), Some(isize::MIN));
    assert_eq!(parse_isize("-9223372036854775809"), None);
}
