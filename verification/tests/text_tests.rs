use malscan::text::{
    cuts_at_char, decimal_string, join_strings, str_contains, str_ends_with, str_less,
    str_starts_with, trim_str, truncate,
};

#[test]
fn byte_truncation() {
    assert_eq!(truncate("abc", 10), "abc");
    assert_eq!(truncate("abcdef", 3), "abc");
    assert_eq!(truncate("héllo", 3), "hé");
    assert_eq!(truncate("héllo", 0), "");
    assert!(cuts_at_char("héllo", 3));
    assert!(!cuts_at_char("héllo", 2));
    assert!(cuts_at_char("abc", 99));
    assert_eq!(truncate("a💀b", 5), "a💀");
    assert!(!cuts_at_char("a💀b", 3));
}

#[test]
fn string_order() {
    assert!(str_less("/a", "/b"));
    assert!(str_less("/a", "/a/z"));
    assert!(!str_less("/a", "/a"));
    assert!(str_less("/B", "/a"));
    assert!(!str_less("", ""));
    assert!(str_less("", "x"));
    assert!(str_less("z", "é"));
}

#[test]
fn decimals_and_joins() {
    assert_eq!(decimal_string(0), "0");
    assert_eq!(decimal_string(52428800), "52428800");
    assert_eq!(
        join_strings(&vec!["a".to_string(), "b".to_string(), "c".to_string()], "\n"),
        "a\nb\nc"
    );
    assert_eq!(join_strings(&vec![], ","), "");
}

#[test]
fn trimming_and_searching() {
    assert_eq!(trim_str("  a b \t\n"), "a b");
    assert_eq!(trim_str("\u{a0}x\u{3000}"), "x");
    assert!(str_contains("/w/.malscan/x", "/.malscan/"));
    assert!(!str_contains("/w/malscan/x", "/.malscan/"));
    assert!(str_starts_with("<?php", "<?"));
    assert!(str_ends_with("site.htaccess", ".htaccess"));
}
