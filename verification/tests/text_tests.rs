use seela::paths::{
    ask_each, ask_in_order, exists_at, is_absolute, same_path, starts_with_path, PathParts,
};
use seela::text::{
    decimal_string, head_and_rest_of, parse_u64, split_once, split_whitespace, str_eq, trim,
};

#[test]
fn trimming_and_splitting() {
    assert_eq!(trim(" \t a b \n"), "a b");
    assert_eq!(trim("\u{3000}x\u{a0}"), "x");
    assert_eq!(trim("   "), "");
    assert_eq!(split_whitespace("  a  bb\tc "), vec!["a", "bb", "c"]);
    assert_eq!(split_whitespace(""), Vec::<String>::new());
    assert_eq!(split_once("@run a b", ' '), Some(("@run".to_string(), "a b".to_string())));
    assert_eq!(split_once("none", ' '), None);
    assert_eq!(head_and_rest_of("one", ' '), ("one".to_string(), String::new()));
    assert!(str_eq("abc", "abc"));
    assert!(!str_eq("abc", "abd"));
}

#[test]
fn numbers() {
    assert_eq!(parse_u64("42"), Some(42));
    assert_eq!(parse_u64("+7"), Some(7));
    assert_eq!(parse_u64("18446744073709551615"), Some(u64::MAX));
    assert_eq!(parse_u64("18446744073709551616"), None);
    assert_eq!(parse_u64(""), None);
    assert_eq!(parse_u64("+"), None);
    assert_eq!(parse_u64("-1"), None);
    assert_eq!(parse_u64("1 "), None);
    assert_eq!(decimal_string(0), "0");
    assert_eq!(decimal_string(1234567890), "1234567890");
}

#[test]
fn path_components_compare_whole_components() {
    let a = PathParts::of("/a//b/./c/");
    let b = PathParts::of("/a/b/c");
    assert!(same_path(&a.components, &b.components));
    assert_eq!(a.byte_len, 10);
    let ab = PathParts::of("/a/b");
    assert!(starts_with_path(&b.components, &ab.components));
    assert!(!starts_with_path(&PathParts::of("/a/bc").components, &ab.components));
}

#[test]
fn places_are_asked_in_order() {
    let places = vec!["a".to_string(), "b".to_string(), "c".to_string()];
    assert_eq!(ask_in_order(&places, |p: &String| p == "b"), vec![false, true]);
    assert_eq!(ask_in_order(&places, |_: &String| false), vec![false, false, false]);
    assert_eq!(ask_each(&places, |p: &String| p == "b"), vec![false, true, false]);
    assert!(exists_at(&"/".to_string()));
    assert!(!exists_at(&"/no/such/place/here".to_string()));
}

#[test]
fn absolute_paths_start_at_the_root() {
    assert!(is_absolute("/x"));
    assert!(!is_absolute("x/y"));
    assert!(!is_absolute(""));
    assert!(!is_absolute("~/x"));
}
