use aster::address::{Address, AddressError, ProjectSelector, SelectorError};
use aster::collections::{set_of, sort_texts, TextMap};
use aster::numbers::{decimal_text, parse_number, parse_u16, parse_u32, signed_text};
use aster::paths::{join_path, normalize_path, strip_path, under_path};
use aster::text::{
    byte_count, join_texts, lower_text, split_lines, split_once, split_text, strip_prefix, text_less, trim_text,
    words_in,
};

fn list(items: &[&str]) -> Vec<String> {
    items.iter().map(|item| item.to_string()).collect()
}

#[test]
fn texts_are_divided_and_joined() {
    assert_eq!(split_text("a,,b", ','), vec!["a", "", "b"]);
    assert_eq!(split_text("", ','), vec![""]);
    assert_eq!(join_texts(&split_text("a,,b", ','), ","), "a,,b");
    assert_eq!(split_once("a=b=c", '='), Some(("a".to_string(), "b=c".to_string())));
    assert_eq!(split_once("abc", '='), None);
    assert_eq!(split_lines("a\r\nb\n\nc\n"), vec!["a", "b", "", "c"]);
    assert_eq!(words_in("  a \t b\n"), vec!["a", "b"]);
    assert_eq!(trim_text(" \u{a0}a b\n"), "a b");
    assert_eq!(strip_prefix("abc", "ab").as_deref(), Some("c"));
    assert_eq!(strip_prefix("abc", "b"), None);
    assert_eq!(lower_text("Aé-Z"), "aé-z");
    assert_eq!(byte_count("aé€😀"), 10);
}

#[test]
fn texts_are_ordered_as_their_bytes_are() {
    let mut words = list(&["b", "a", "ab", "", "é", "z", "😀", "\u{ffff}"]);
    let sorted = sort_texts(&words);
    words.sort();
    assert_eq!(sorted, words);
    assert!(text_less("a", "ab"));
    assert!(!text_less("ab", "a"));
    assert!(!text_less("a", "a"));
}

#[test]
fn sets_hold_each_text_once_in_order() {
    let mut set = set_of(&list(&["b", "a", "b"]));
    assert_eq!(set.to_vec(), vec!["a", "b"]);
    assert!(!set.insert("a".to_string()));
    assert!(set.insert("c".to_string()));
    assert_eq!(set.len(), 3);
    assert!(set.remove("a"));
    assert!(!set.remove("a"));
    assert!(!set.contains("a"));
    assert_eq!(set.item_at(0), "b");
}

#[test]
fn maps_hold_the_last_value_of_each_key() {
    let mut map = TextMap::new();
    map.insert("b".to_string(), 1);
    map.insert("a".to_string(), 2);
    map.insert("b".to_string(), 3);
    assert_eq!(map.len(), 2);
    assert_eq!(map.key_at(0), "a");
    assert_eq!(*map.value_at(1), 3);
    assert_eq!(map.get("b"), Some(&3));
    assert_eq!(map.remove("b"), Some(3));
    assert_eq!(map.remove("b"), None);
    assert!(!map.contains_key("b") && !map.is_empty());
}

#[test]
fn numbers_are_written_and_read() {
    assert_eq!(decimal_text(0), "0");
    assert_eq!(decimal_text(u128::MAX), "340282366920938463463374607431768211455");
    assert_eq!(signed_text(i32::MIN), "-2147483648");
    assert_eq!(signed_text(7), "7");
    assert_eq!(parse_u16("65535"), Some(65535));
    assert_eq!(parse_u16("65536"), None);
    assert_eq!(parse_u16("+7"), Some(7));
    assert_eq!(parse_u16("-7"), None);
    assert_eq!(parse_u16(""), None);
    assert_eq!(parse_u16("+"), None);
    assert_eq!(parse_u16("007"), Some(7));
    assert_eq!(parse_u32("4294967295"), Some(u32::MAX));
    assert_eq!(parse_u32("4294967296"), None);
    assert_eq!(parse_number("1f", true, 0xffff), Some(31));
    assert_eq!(parse_number("1F", true, 30), None);
    assert_eq!(parse_number("1g", true, 0xffff), None);
}

#[test]
fn paths_are_joined_and_resolved() {
    assert_eq!(join_path("/w", "a"), "/w/a");
    assert_eq!(join_path("/w/", "a"), "/w/a");
    assert_eq!(join_path("/w", "/a"), "/a");
    assert_eq!(join_path("", "a"), "a");
    assert_eq!(normalize_path("/w/./a/../b"), "w/b");
    assert_eq!(normalize_path("../../a"), "a");
    assert!(under_path("/w/a/b", "/w/a"));
    assert!(under_path("/w/a", "/w/a"));
    assert!(!under_path("/w/ab", "/w/a"));
    assert_eq!(strip_path("/w/a/b", "/w").as_deref(), Some("a/b"));
    assert_eq!(strip_path("/v/a", "/w"), None);
}

#[test]
fn addresses_are_read_back_from_their_text() {
    for text in ["//services/api", "//services/api:test", "//", "//a:b:c"] {
        let address = Address::parse(text).unwrap();
        assert_eq!(address.to_string(), text);
    }
    assert_eq!(
        Address::parse("services"),
        Err(AddressError::MissingPrefix("services".to_string()))
    );
    assert_eq!(Address::parse("//a:"), Err(AddressError::EmptyTarget("//a:".to_string())));
    assert_eq!(
        Address::parse("//a:").unwrap_err().to_string(),
        "Target name cannot be empty after colon: got '//a:'"
    );
}

#[test]
fn recursive_selectors_keep_to_their_directory() {
    let selector = ProjectSelector::parse("//src/...").unwrap();
    assert!(selector.matches("//src"));
    assert!(selector.matches("//src/a/b"));
    assert!(!selector.matches("//srcs/a"));
    assert!(ProjectSelector::parse("//...").unwrap().matches("//anything"));
    assert!(ProjectSelector::parse("//src").unwrap().matches("//src"));
    assert!(matches!(
        ProjectSelector::parse("src/..."),
        Err(SelectorError::MissingPrefix(_))
    ));
    assert!(matches!(
        ProjectSelector::parse("//src:test"),
        Err(SelectorError::HasTarget(_))
    ));
}
