use minipkgsite::context::ParseContext;
use minipkgsite::recipe::more_parse;
use minipkgsite::recipe::parse_recipe;
use minipkgsite::recipe::Tier;

#[test]
fn strict_plain_assignments() {
    let mut ctx = ParseContext::new();
    let t = parse_recipe("VER=1.0\nREL=2\n", &mut ctx);
    assert_eq!(t, Tier::Strict);
    assert_eq!(ctx.get("VER"), Some(String::from("1.0")));
    assert_eq!(ctx.get("REL"), Some(String::from("2")));
    assert_eq!(ctx.get("PKGNAME"), None);
}

#[test]
fn strict_quoted_value() {
    let mut ctx = ParseContext::new();
    let t = parse_recipe("PKGDES=\"hello world\"\n", &mut ctx);
    assert_eq!(t, Tier::Strict);
    assert_eq!(ctx.get("PKGDES"), Some(String::from("hello world")));
}

#[test]
fn strict_comments_and_blank_lines() {
    let mut ctx = ParseContext::new();
    let t = parse_recipe("# a recipe\n\n   \nVER=3\n  # indented comment\n", &mut ctx);
    assert_eq!(t, Tier::Strict);
    assert_eq!(ctx.get("VER"), Some(String::from("3")));
}

#[test]
fn strict_later_declaration_overwrites() {
    let mut ctx = ParseContext::new();
    let t = parse_recipe("VER=1\nVER=2\n", &mut ctx);
    assert_eq!(t, Tier::Strict);
    assert_eq!(ctx.get("VER"), Some(String::from("2")));
}

#[test]
fn strict_continuation_keeps_backslash_token() {
    let mut ctx = ParseContext::new();
    let t = parse_recipe("PKGDEP=alpha \\\nbeta\n", &mut ctx);
    assert_eq!(t, Tier::Strict);
    assert_eq!(ctx.get("PKGDEP"), Some(String::from("alpha \\ beta")));
}

#[test]
fn strict_merges_into_seeded_context() {
    let mut ctx = ParseContext::new();
    ctx.insert(String::from("VER"), String::from("0.9"));
    ctx.insert(String::from("KEEP"), String::from("yes"));
    let t = parse_recipe("VER=1.0\n", &mut ctx);
    assert_eq!(t, Tier::Strict);
    assert_eq!(ctx.get("VER"), Some(String::from("1.0")));
    assert_eq!(ctx.get("KEEP"), Some(String::from("yes")));
}

#[test]
fn garbage_line_falls_back() {
    let mut ctx = ParseContext::new();
    let t = parse_recipe("this is garbage\nPKGNAME=foo\n", &mut ctx);
    assert_eq!(t, Tier::Fallback);
    assert_eq!(ctx.get("PKGNAME"), Some(String::from("=foo")));
}

#[test]
fn malformed_quoting_falls_back() {
    let mut ctx = ParseContext::new();
    let t = parse_recipe("PKGNAME=\"foo\n", &mut ctx);
    assert_eq!(t, Tier::Fallback);
    assert_eq!(ctx.get("PKGNAME"), Some(String::from("=foo")));
}

#[test]
fn fallback_strips_quote_characters() {
    let mut ctx = ParseContext::new();
    more_parse("PKGDES=\"a b\"\n", &mut ctx);
    assert_eq!(ctx.get("PKGDES"), Some(String::from("=a b")));
}

#[test]
fn fallback_later_line_overwrites() {
    let mut ctx = ParseContext::new();
    more_parse("PKGNAME=one\nPKGNAME=two\n", &mut ctx);
    assert_eq!(ctx.get("PKGNAME"), Some(String::from("=two")));
}

#[test]
fn fallback_is_prefix_based() {
    let mut ctx = ParseContext::new();
    more_parse("VERSION=9\n", &mut ctx);
    assert_eq!(ctx.get("VER"), Some(String::from("SION=9")));
}

#[test]
fn fallback_ignores_unknown_fields() {
    let mut ctx = ParseContext::new();
    more_parse("PKGSEC=utils\nPKGDEP=a\n", &mut ctx);
    assert_eq!(ctx.get("PKGSEC"), None);
    assert_eq!(ctx.get("PKGDEP"), None);
}
