use minipkgsite::stmt::is_comp_symbol;
use minipkgsite::stmt::PkgStmt;

#[test]
fn plain_name_token() {
    let p = PkgStmt::from("bash");
    assert_eq!(p.name, "bash");
    assert_eq!(p.comp, "");
    assert_eq!(p.version, "");
}

#[test]
fn comparator_and_version_token() {
    let p = PkgStmt::from("bash>=5.0");
    assert_eq!(p.name, "bash");
    assert_eq!(p.comp, ">=");
    assert_eq!(p.version, "5.0");
}

#[test]
fn leading_equals_stripped() {
    let p = PkgStmt::from("=1.2.3");
    assert_eq!(p.name, "1.2.3");
    assert_eq!(p.comp, "");
    assert_eq!(p.version, "");
}

#[test]
fn comparator_after_version_phase_still_collected() {
    let p = PkgStmt::from("a>1=2");
    assert_eq!(p.name, "a");
    assert_eq!(p.comp, ">=");
    assert_eq!(p.version, "12");
}

#[test]
fn empty_token_total() {
    let p = PkgStmt::from("");
    assert_eq!(p.name, "");
    assert_eq!(p.comp, "");
    assert_eq!(p.version, "");
}

#[test]
fn lone_equals_token() {
    let p = PkgStmt::from("=");
    assert_eq!(p.name, "");
    assert_eq!(p.comp, "");
    assert_eq!(p.version, "");
}

#[test]
fn comparator_symbols() {
    assert!(is_comp_symbol(&'<'));
    assert!(is_comp_symbol(&'>'));
    assert!(is_comp_symbol(&'='));
    assert!(!is_comp_symbol(&'a'));
    assert!(!is_comp_symbol(&'!'));
}
