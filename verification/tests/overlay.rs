use aur_scanner_core::aur::AurPackageInfo;
use aur_scanner_core::error::ScanError;
use aur_scanner_core::overlay::{info_from_pkgbuild, merge_batch, OverlaySource};
use aur_scanner_core::parser::ParsedPkgbuild;

#[test]
fn info_from_pkgbuild_carries_deps() {
    let pkg = ParsedPkgbuild {
        pkgname: vec!["foo".into()],
        pkgver: "1.2".into(),
        pkgrel: "1".into(),
        depends: vec!["bar".into()],
        makedepends: vec!["cmake".into()],
        ..Default::default()
    };
    let infos = info_from_pkgbuild(&pkg);
    assert_eq!(infos.len(), 1);
    assert_eq!(infos[0].version, "1.2-1");
    assert_eq!(infos[0].depends, vec!["bar"]);
}

fn names(list: &[&str]) -> Vec<String> {
    list.iter().map(|s| s.to_string()).collect()
}

#[test]
fn overlay_prefers_local_then_falls_back() {
    let local = info_from_pkgbuild(&ParsedPkgbuild {
        pkgname: vec!["foo".into()],
        pkgver: "1".into(),
        pkgrel: "1".into(),
        depends: vec!["bar".into()],
        ..Default::default()
    });
    let src = OverlaySource::new(local);
    let lookup = src.lookup(&names(&["foo", "bar"]));
    assert_eq!(lookup.missing, vec!["bar"]);
    let got = merge_batch(lookup, Ok(vec![])).unwrap();
    // foo from overlay; bar absent (remote returns nothing) => repo leaf.
    assert_eq!(got.len(), 1);
    assert_eq!(got[0].name, "foo");
}

fn package(name: &str, version: &str) -> AurPackageInfo {
    AurPackageInfo {
        name: name.to_string(),
        version: version.to_string(),
        ..Default::default()
    }
}

#[test]
fn remote_answers_come_behind_local_ones() {
    let src = OverlaySource::new(vec![package("a", "1"), package("b", "1"), package("a", "2")]);
    assert_eq!(src.local_names(), vec!["a", "b"]);
    let lookup = src.lookup(&names(&["x", "b", "a", "b"]));
    assert_eq!(lookup.missing, vec!["x"]);
    let got = merge_batch(lookup, Ok(vec![package("x", "9")])).unwrap();
    let seen: Vec<(&str, &str)> = got
        .iter()
        .map(|i| (i.name.as_str(), i.version.as_str()))
        .collect();
    // Of two local packages with one name the last one counts.
    assert_eq!(seen, vec![("b", "1"), ("a", "2"), ("b", "1"), ("x", "9")]);
}

#[test]
fn remote_errors_count_only_where_something_is_missing() {
    let src = OverlaySource::new(vec![package("a", "1")]);
    let failed = || Err(ScanError::Network("down".to_string()));
    assert_eq!(merge_batch(src.lookup(&names(&["a"])), failed()).unwrap().len(), 1);
    assert!(matches!(
        merge_batch(src.lookup(&names(&["a", "b"])), failed()),
        Err(ScanError::Network(m)) if m == "down"
    ));
}

#[test]
fn versions_of_local_packages() {
    let mut pkg = ParsedPkgbuild {
        pkgname: vec!["a".into(), "b".into()],
        pkgver: "1".into(),
        pkgrel: "2".into(),
        epoch: Some("3".into()),
        checkdepends: vec!["t".into()],
        optdepends: vec!["o: for o".into()],
        provides: vec!["p".into()],
        ..Default::default()
    };
    let infos = info_from_pkgbuild(&pkg);
    assert_eq!(infos.len(), 2);
    assert_eq!(infos[1].name, "b");
    assert_eq!(infos[1].package_base, "a");
    assert_eq!(infos[1].version, "3:1-2");
    assert_eq!(infos[1].maintainer.as_deref(), Some("(local)"));
    assert_eq!(infos[1].check_depends, vec!["t"]);
    assert_eq!(infos[1].opt_depends, vec!["o: for o"]);
    assert_eq!(infos[1].provides, vec!["p"]);
    assert!(infos[1].description.is_none());
    pkg.pkgver = String::new();
    assert_eq!(info_from_pkgbuild(&pkg)[0].version, "");
}
