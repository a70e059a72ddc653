use boresight::text::{same_text, split, split_once, trim};

#[test]
fn trim_removes_unicode_whitespace() {
    assert_eq!(trim("  a b \t\r\n"), "a b");
    assert_eq!(trim("\u{3000}x\u{a0}"), "x");
    assert_eq!(trim("   "), "");
    assert_eq!(trim(""), "");
    assert_eq!(trim("x"), "x");
}

#[test]
fn split_keeps_empty_pieces() {
    assert_eq!(split("a,b,,c", ','), vec!["a", "b", "", "c"]);
    assert_eq!(split("", ','), vec![""]);
    assert_eq!(split("a,", ','), vec!["a", ""]);
    assert_eq!(split("abc", ','), vec!["abc"]);
}

#[test]
fn split_once_first_separator() {
    assert_eq!(split_once("k=v=w", '='), Some(("k".to_string(), "v=w".to_string())));
    assert_eq!(split_once("=x", '='), Some(("".to_string(), "x".to_string())));
    assert_eq!(split_once("none", '='), None);
}

#[test]
fn same_text_compares_characters() {
    assert!(same_text("qx", "qx"));
    assert!(!same_text("qx", "qy"));
    assert!(!same_text("qx", "qxx"));
}
