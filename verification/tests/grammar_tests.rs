use ezxml::chars::{is_name_char, is_name_start_char, is_space};
use ezxml::element::split_element_name;
use ezxml::parser::parse_str;
use ezxml::strings::{str_cmp, str_eq};
use std::cmp::Ordering;

#[test]
fn name_start_chars() {
    assert!(is_name_start_char('a'));
    assert!(is_name_start_char('Z'));
    assert!(is_name_start_char(':'));
    assert!(is_name_start_char('_'));
    assert!(is_name_start_char('\u{C0}'));
    assert!(!is_name_start_char('5'));
    assert!(!is_name_start_char('-'));
    assert!(!is_name_start_char('?'));
    assert!(!is_name_start_char('<'));
    assert!(!is_name_start_char('\u{D7}'));
}

#[test]
fn name_continuation_chars() {
    assert!(is_name_char('a'));
    assert!(is_name_char('5'));
    assert!(is_name_char('-'));
    assert!(is_name_char('.'));
    assert!(is_name_char('\u{B7}'));
    assert!(!is_name_char('='));
    assert!(!is_name_char('>'));
    assert!(!is_name_char(' '));
}

#[test]
fn whitespace_chars() {
    assert!(is_space(' '));
    assert!(is_space('\t'));
    assert!(is_space('\n'));
    assert!(is_space('\r'));
    assert!(!is_space('a'));
}

#[test]
fn split_without_colon_keeps_name_whole() {
    let (ns, local) = split_element_name("plain").unwrap();
    assert_eq!(ns, "");
    assert_eq!(local, "plain");
}

#[test]
fn split_with_one_colon() {
    let (ns, local) = split_element_name("ns:local").unwrap();
    assert_eq!(ns, "ns");
    assert_eq!(local, "local");
}

#[test]
fn split_with_two_colons_fails() {
    let err = split_element_name("a:b:c").unwrap_err();
    assert!(err.is_bug());
}

#[test]
fn leading_colon_gives_empty_prefix() {
    let (ns, local) = split_element_name(":abc").unwrap();
    assert_eq!(ns, "");
    assert_eq!(local, "abc");
}

#[test]
fn declaration_with_encoding_only() {
    let doc = parse_str(r#"<?xml encoding="UTF-8"?><a/>"#).unwrap();
    let declaration = doc.declaration.unwrap();
    assert_eq!(declaration.version, None);
    assert!(declaration.encoding.is_some());
}

#[test]
fn declaration_needs_at_least_one_pair() {
    // The machine accepts only a key or whitespace after the target, so a
    // pairless declaration cannot reach its closing `?>`.
    assert!(parse_str("<?xml ?><a/>").is_err());
}

#[test]
fn lone_question_mark_fails() {
    // A `?` not followed by `>` is refused by the machine.
    assert!(parse_str("<?xml ?x?><a/>").is_err());
}

#[test]
fn string_helpers_compare_exactly() {
    assert!(str_eq("abc", "abc"));
    assert!(!str_eq("abc", "abd"));
    assert!(!str_eq("abc", "ab"));
    assert_eq!(str_cmp("abc", "abc"), Ordering::Equal);
    assert_eq!(str_cmp("ab", "abc"), Ordering::Less);
    assert_eq!(str_cmp("abd", "abc"), Ordering::Greater);
    assert_eq!(str_cmp("b", "a"), Ordering::Greater);
}
