//! Tests of the verified text utilities.

use paxbot::text::{join_strings, str_le, usize_to_string};

#[test]
fn decimal_rendering_is_exact() {
    assert_eq!(usize_to_string(0), "0");
    assert_eq!(usize_to_string(7), "7");
    assert_eq!(usize_to_string(10), "10");
    assert_eq!(usize_to_string(12345), "12345");
}

#[test]
fn lexicographic_order_on_strings() {
    assert!(str_le("abc", "abd"));
    assert!(!str_le("abd", "abc"));
    assert!(str_le("abc", "abc"));
    assert!(str_le("ab", "abc"));
    assert!(!str_le("abc", "ab"));
    assert!(str_le("", ""));
    assert!(str_le("", "a"));
    assert!(str_le("Axe", "axe"));
}

#[test]
fn joining_with_separators() {
    let v = vec![String::from("a"), String::from("b"), String::from("c")];
    assert_eq!(join_strings(&v, ", "), "a, b, c");
    let one = vec![String::from("solo")];
    assert_eq!(join_strings(&one, "\n"), "solo");
    let none: Vec<String> = Vec::new();
    assert_eq!(join_strings(&none, "\n"), "");
}
