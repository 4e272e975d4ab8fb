use aur_scanner_core::patterns::slice_text;
use aur_scanner_core::table::Table;
use aur_scanner_core::text::{
    decimal_of, has_char, join_texts, lines_of, replace_text, text_contains, trimmed, Class,
};
use aur_scanner_core::VERSION;

#[test]
fn lines_end_at_newlines() {
    assert_eq!(lines_of("a\nb\r\n\nc\rd"), vec!["a", "b", "", "c\rd"]);
    assert_eq!(lines_of("a\n"), vec!["a"]);
    assert_eq!(lines_of("\n"), vec![""]);
    assert!(lines_of("").is_empty());
}

#[test]
fn trimming_takes_what_the_class_says() {
    assert_eq!(trimmed(" \t\u{a0}\u{3000}a b\u{85}\n", Class::Space), "a b");
    assert_eq!(trimmed("\"'a'\"", Class::Quote), "a");
    assert_eq!(trimmed("  ", Class::Space), "");
}

#[test]
fn replacing_from_left_to_right() {
    assert_eq!(replace_text("aaa", "aa", "b"), "ba");
    assert_eq!(replace_text("$a$a", "$a", "x$a"), "x$ax$a");
    assert_eq!(replace_text("abc", "d", ""), "abc");
}

#[test]
fn joining_with_a_separator() {
    let list: Vec<String> = vec!["a".to_string(), String::new(), "b".to_string()];
    assert_eq!(join_texts(&list, ", "), "a, , b");
    assert_eq!(join_texts(&Vec::new(), ", "), "");
}

#[test]
fn numbers_in_decimal() {
    assert_eq!(decimal_of(0), "0");
    assert_eq!(decimal_of(2097153), "2097153");
    assert_eq!(decimal_of(u64::MAX), "18446744073709551615");
}

#[test]
fn searching_in_texts() {
    assert!(has_char("a#b", '#'));
    assert!(!has_char("ab", '#'));
    let hay: Vec<char> = "a..b".chars().collect();
    assert!(text_contains(&hay, &['.', '.']));
    assert!(!text_contains(&hay, &['.', 'a']));
    assert!(text_contains(&hay, &[]));
}

#[test]
fn cutting_between_characters() {
    assert_eq!(slice_text("a\u{e9}b", 1, 3), "\u{e9}");
    assert_eq!(slice_text("abc", 3, 3), "");
}

#[test]
fn tables_hold_one_value_for_each_key() {
    let mut t: Table<String> = Table::new();
    assert_eq!(t.len(), 0);
    t.insert("b".to_string(), "1".to_string());
    t.insert("a".to_string(), "2".to_string());
    t.insert("b".to_string(), "3".to_string());
    assert_eq!(t.len(), 2);
    assert_eq!(t.keys(), vec!["b", "a"]);
    assert_eq!(t.get("b").map(|s| s.as_str()), Some("3"));
    assert!(t.get("c").is_none());
}

#[test]
fn the_version_is_known() {
    assert_eq!(VERSION, "0.1.0");
}
