use minipkgsite::coordinator::decide_refresh;
use minipkgsite::coordinator::star_pattern;
use minipkgsite::coordinator::strip_key_prefix;
use minipkgsite::coordinator::table_key;
use minipkgsite::text::contains_str;
use minipkgsite::text::str_eq;
use minipkgsite::text::strip_char;
use minipkgsite::text::trim_str;

#[test]
fn unchanged_revision_without_force_skips_the_walk() {
    assert!(!decide_refresh("abc123", "abc123", false));
}

#[test]
fn first_run_walks_even_when_unchanged() {
    assert!(decide_refresh("abc123", "abc123", true));
}

#[test]
fn changed_revision_walks() {
    assert!(decide_refresh("abc123", "def456", false));
}

#[test]
fn table_key_is_namespaced() {
    assert_eq!(table_key("bash"), "aosc-packages-stable:bash");
}

#[test]
fn key_prefix_round_trip() {
    let k = table_key("coreutils");
    assert_eq!(strip_key_prefix(&k), Some(String::from("coreutils")));
    assert_eq!(strip_key_prefix("other-table:bash"), None);
}

#[test]
fn star_pattern_appends_wildcard() {
    assert_eq!(star_pattern("ba"), "ba*");
    assert_eq!(star_pattern(""), "*");
}

#[test]
fn trim_removes_surrounding_whitespace() {
    assert_eq!(trim_str("  a b \t\n"), "a b");
    assert_eq!(trim_str("   "), "");
    assert_eq!(trim_str("x"), "x");
}

#[test]
fn strip_char_removes_every_occurrence() {
    assert_eq!(strip_char("=a=b=", '='), "ab");
    assert_eq!(strip_char("plain", '='), "plain");
}

#[test]
fn substring_search() {
    assert!(contains_str("/tree/.git/objects", ".git"));
    assert!(!contains_str("/tree/extra", "groups"));
    assert!(str_eq("same", "same"));
    assert!(!str_eq("same", "sam"));
}
