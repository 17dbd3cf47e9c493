use minipkgsite::stmt::PkgStmt;
use minipkgsite::walker::collect_packages;
use minipkgsite::walker::Package;
use minipkgsite::walker::SubUnit;
use minipkgsite::walker::UnitEntry;
use minipkgsite::walker::WalkError;

fn simple_unit(name: &str, spec_text: Option<&str>, defines_text: Option<&str>) -> UnitEntry {
    UnitEntry {
        full_path: format!("/tree/extra/{name}"),
        rel_path: format!("extra/{name}"),
        name: String::from(name),
        spec_text: spec_text.map(String::from),
        defines_text: defines_text.map(String::from),
        subunits: Vec::new(),
    }
}

#[test]
fn version_assembled_from_ver_rel_epoch() {
    let e = simple_unit(
        "foo",
        Some("VER=1.2\nREL=3\n"),
        Some("PKGNAME=foo\nPKGDES=a tool\nPKGEPOCH=2\n"),
    );
    let pkgs = collect_packages(&vec![e]).unwrap();
    assert_eq!(pkgs.len(), 1);
    assert_eq!(pkgs[0].name, "foo");
    assert_eq!(pkgs[0].version, "2:1.2-3");
    assert_eq!(pkgs[0].desc, "a tool");
    assert_eq!(pkgs[0].path, "extra/foo");
}

#[test]
fn version_empty_without_spec_and_epoch() {
    let e = simple_unit("foo", None, Some("PKGNAME=foo\nPKGDES=d\n"));
    let pkgs = collect_packages(&vec![e]).unwrap();
    assert_eq!(pkgs.len(), 1);
    assert_eq!(pkgs[0].version, "");
}

#[test]
fn meta_package_emits_one_record_per_sub_unit() {
    let mut e = simple_unit("metapkg", Some("VER=1.0\n"), None);
    e.subunits = vec![
        SubUnit { defines_text: Some(String::from("PKGNAME=alpha\nPKGDES=first\n")) },
        SubUnit { defines_text: None },
        SubUnit {
            defines_text: Some(String::from("PKGNAME=beta\nPKGDES=second\nPKGEPOCH=1\n")),
        },
    ];
    let pkgs = collect_packages(&vec![e]).unwrap();
    assert_eq!(pkgs.len(), 2);
    assert_eq!(pkgs[0].name, "alpha");
    assert_eq!(pkgs[0].version, "1.0");
    assert_eq!(pkgs[1].name, "beta");
    assert_eq!(pkgs[1].version, "1:1.0");
    assert_eq!(pkgs[0].path, "extra/metapkg");
    assert_eq!(pkgs[1].path, "extra/metapkg");
}

#[test]
fn sub_unit_declarations_do_not_leak_into_siblings() {
    let mut e = simple_unit("metapkg", Some("VER=2.0\n"), None);
    e.subunits = vec![
        SubUnit {
            defines_text: Some(String::from("PKGNAME=first\nPKGDES=d\nPKGEPOCH=9\n")),
        },
        SubUnit { defines_text: Some(String::from("PKGNAME=second\nPKGDES=d\n")) },
    ];
    let pkgs = collect_packages(&vec![e]).unwrap();
    assert_eq!(pkgs[0].version, "9:2.0");
    assert_eq!(pkgs[1].version, "2.0");
}

#[test]
fn fallback_recovers_name_from_unparsable_recipe() {
    let e = simple_unit("foo", None, Some("not an assignment!\nPKGNAME=foo\nPKGDES=d\n"));
    let pkgs = collect_packages(&vec![e]).unwrap();
    assert_eq!(pkgs.len(), 1);
    assert_eq!(pkgs[0].name, "foo");
    assert_eq!(pkgs[0].desc, "d");
}

#[test]
fn walk_is_idempotent_over_unchanged_tree() {
    let make = || {
        let mut e = simple_unit("metapkg", Some("VER=1.0\nREL=7\n"), None);
        e.subunits = vec![
            SubUnit {
                defines_text: Some(String::from(
                    "PKGNAME=alpha\nPKGDES=first\nPKGDEP=x y \\\nz\n",
                )),
            },
            SubUnit { defines_text: Some(String::from("PKGNAME=beta\nPKGDES=second\n")) },
        ];
        let plain = simple_unit("bash", Some("VER=5.2\n"), Some("PKGNAME=bash\nPKGDES=shell\n"));
        vec![e, plain]
    };
    let first = collect_packages(&make()).unwrap();
    let second = collect_packages(&make()).unwrap();
    assert_eq!(first, second);
    assert_eq!(first.len(), 3);
}

#[test]
fn version_control_and_groups_segments_never_visited() {
    let mut a = simple_unit("x", None, Some("PKGNAME=x\nPKGDES=d\n"));
    a.full_path = String::from("/tree/.git/objects");
    let mut b = simple_unit("y", None, Some("PKGNAME=y\nPKGDES=d\n"));
    b.full_path = String::from("/tree/groups/sets");
    let pkgs = collect_packages(&vec![a, b]).unwrap();
    assert!(pkgs.is_empty());
}

#[test]
fn missing_name_fails_the_walk() {
    let e = simple_unit("unit-a", None, Some("PKGDES=only a description\n"));
    let err = collect_packages(&vec![e]).unwrap_err();
    assert_eq!(err, WalkError::MissingName(String::from("unit-a")));
    assert_eq!(err.message(), "Failed to get pkg name: unit-a");
}

#[test]
fn missing_description_fails_the_walk() {
    let e = simple_unit("unit-b", None, Some("PKGNAME=b\n"));
    let err = collect_packages(&vec![e]).unwrap_err();
    assert_eq!(err, WalkError::MissingDesc);
    assert_eq!(err.message(), "Failed to get pkg desc");
}

#[test]
fn one_bad_unit_discards_the_whole_cycle() {
    let good = simple_unit("good", None, Some("PKGNAME=good\nPKGDES=fine\n"));
    let bad = simple_unit("bad", None, Some("PKGDES=nameless\n"));
    let r: Result<Vec<Package>, WalkError> = collect_packages(&vec![good, bad]);
    assert!(r.is_err());
}

#[test]
fn list_fields_normalized_token_by_token() {
    let e = simple_unit(
        "foo",
        None,
        Some(
            "PKGNAME=foo\nPKGDES=d\nPKGDEP=a=1 \\\nb\nBUILDDEP=cmake\nPKGBREAK=x<=2 y\nPKGRECOM=r=3\nPKGPROV=p=1\nPKGSEC=utils\n",
        ),
    );
    let pkgs = collect_packages(&vec![e]).unwrap();
    let p = &pkgs[0];
    assert_eq!(p.deps, vec![String::from("a1"), String::from("b")]);
    assert_eq!(p.build_deps, vec![String::from("cmake")]);
    assert_eq!(
        p.pkgbreak,
        vec![
            PkgStmt {
                name: String::from("x"),
                comp: String::from("<="),
                version: String::from("2"),
            },
            PkgStmt {
                name: String::from("y"),
                comp: String::from(""),
                version: String::from(""),
            },
        ]
    );
    assert_eq!(p.pkgrecom, vec![String::from("r3")]);
    assert_eq!(p.provides, vec![String::from("p=1")]);
    assert_eq!(p.section, "utils");
}

#[test]
fn section_defaults_to_empty() {
    let e = simple_unit("foo", None, Some("PKGNAME=foo\nPKGDES=d\n"));
    let pkgs = collect_packages(&vec![e]).unwrap();
    assert_eq!(pkgs[0].section, "");
    assert!(pkgs[0].deps.is_empty());
    assert!(pkgs[0].pkgbreak.is_empty());
}

#[test]
fn name_has_equals_stripped_and_is_trimmed() {
    let e = simple_unit("foo", None, Some("PKGNAME=\"  space=name  \"\nPKGDES=d\n"));
    let pkgs = collect_packages(&vec![e]).unwrap();
    assert_eq!(pkgs[0].name, "spacename");
}
