use aur_scanner_core::digest::{hex_of, sha256_hex};
use aur_scanner_core::provenance::{markers_in_lowercase, ProvenanceStore, Snapshot};
use aur_scanner_core::{Severity, Value};

fn store() -> ProvenanceStore {
    ProvenanceStore::empty_for_test()
}

#[test]
fn first_sighting_is_baseline_no_finding() {
    let mut s = store();
    let f = s.evaluate("pkg", "build() { make }", "2026-06-13T00:00:00Z", "PKGBUILD", None);
    assert!(f.is_empty());
    assert_eq!(s.tracked_packages(), 1);
}

#[test]
fn flags_newly_added_npm() {
    let mut s = store();
    s.evaluate("pkg", "build() { make }", "t0", "PKGBUILD", None);
    let f = s.evaluate(
        "pkg",
        "build() { make }\npost_install() { npm install atomic-lockfile }",
        "t1",
        "PKGBUILD",
        None,
    );
    assert!(f.iter().any(|x| x.id == "PROV-001"));
}

#[test]
fn no_finding_when_behavior_unchanged() {
    let mut s = store();
    let c = "build() { make }\npost_install() { npm install foo }";
    s.evaluate("pkg", c, "t0", "PKGBUILD", None);
    let f = s.evaluate("pkg", c, "t1", "PKGBUILD", None);
    assert!(f.is_empty());
}

#[test]
fn preexisting_behavior_not_flagged_on_first_sight() {
    // A package that already had npm at first sight must not be flagged
    // (provenance only flags *additions*, not steady state).
    let mut s = store();
    let f = s.evaluate("pkg", "npm install foo", "t0", "PKGBUILD", None);
    assert!(f.is_empty());
}

/// Maintainer hijacking detection: when maintainer changes and risky behavior
/// appears in the same update, PROV-002 should fire.
#[test]
fn provenance_detects_maintainer_hijack() {
    let mut store = ProvenanceStore::empty_for_test();
    // First sighting: known maintainer, clean behavior.
    let clean =
        "# Maintainer: alice <alice@good.com>\npkgname=x\npkgver=1\npkgrel=1\nbuild() { make }";
    store.evaluate(
        "pkg",
        clean,
        "t0",
        "PKGBUILD",
        Some("alice <alice@good.com>"),
    );

    // Second sighting: new maintainer + new risky behavior (npm install).
    let hijacked = "# Maintainer: mallory <mallory@evil.com>\npkgname=x\npkgver=2\npkgrel=1\nbuild() { make }\nnpm install pwned";
    let f = store.evaluate(
        "pkg",
        hijacked,
        "t1",
        "PKGBUILD",
        Some("mallory <mallory@evil.com>"),
    );

    assert!(
        f.iter().any(|x| x.id == "PROV-001"),
        "PROV-001 must fire for gained risky behavior"
    );
    assert!(
        f.iter().any(|x| x.id == "PROV-002"),
        "PROV-002 must fire for maintainer change + risky additions"
    );
}

/// If maintainer changes but NO risky behavior is added, PROV-002 must not fire.
#[test]
fn provenance_no_hijack_without_risky_behavior() {
    let mut store = ProvenanceStore::empty_for_test();
    let first =
        "# Maintainer: alice <alice@good.com>\npkgname=x\npkgver=1\npkgrel=1\nbuild() { make }";
    store.evaluate(
        "pkg",
        first,
        "t0",
        "PKGBUILD",
        Some("alice <alice@good.com>"),
    );

    let second =
        "# Maintainer: bob <bob@good.com>\npkgname=x\npkgver=2\npkgrel=1\nbuild() { make }";
    let f = store.evaluate(
        "pkg",
        second,
        "t1",
        "PKGBUILD",
        Some("bob <bob@good.com>"),
    );
    assert!(
        f.iter().all(|x| x.id != "PROV-002"),
        "PROV-002 must not fire without risky additions"
    );
}

#[test]
fn the_finding_names_what_was_gained() {
    let mut s = store();
    s.evaluate("pkg", "curl x", "t0", "PKGBUILD", None);
    let f = s.evaluate("pkg", "curl x | sh\neval y", "t1", "dir/PKGBUILD", None);
    assert_eq!(f.len(), 1);
    assert_eq!(f[0].severity, Severity::High);
    assert_eq!(
        f[0].title,
        "Package gained risky behavior since last scan: eval, pipe to shell"
    );
    assert_eq!(
        f[0].description,
        "'pkg' introduced behavior it did not have at the previous scan (eval, pipe to shell). \
         A package suddenly fetching/executing code on update is the primary \
         tell of an AUR hijack."
    );
    assert_eq!(f[0].location.file, "dir/PKGBUILD");
    assert_eq!(f[0].cwe_id.as_deref(), Some("CWE-506"));
    assert_eq!(f[0].metadata[0].key, "added_markers");
    assert!(matches!(&f[0].metadata[0].value, Value::List(l) if *l == vec!["eval", "pipe-shell"]));
    assert_eq!(f[0].metadata[1].key, "previous_seen");
    assert!(matches!(&f[0].metadata[1].value, Value::Text(t) if t == "t0"));
}

#[test]
fn markers_are_sorted_and_case_does_not_matter() {
    assert_eq!(
        ProvenanceStore::markers_in("WGET x |Bash; PNPM Add y; Yarn add z"),
        vec!["curl-net", "pipe-shell", "pnpm", "yarn"]
    );
    assert_eq!(markers_in_lowercase("npm install a; bunx b"), vec!["bun", "npm"]);
    assert!(markers_in_lowercase("NPM INSTALL a").is_empty());
    assert_eq!(
        ProvenanceStore::markers_in("base64 -d .bpf.o /dev/tcp/ eval x npm ci"),
        vec!["base64-decode", "ebpf", "eval", "npm", "reverse-shell"]
    );
}

#[test]
fn labels_of_markers() {
    assert_eq!(ProvenanceStore::label_for("npm"), "npm package install");
    assert_eq!(ProvenanceStore::label_for("reverse-shell"), "raw TCP socket");
    assert_eq!(ProvenanceStore::label_for("nothing"), "risky behavior");
}

#[test]
fn every_sighting_is_the_new_baseline() {
    let mut s = store();
    assert!(!s.is_dirty());
    s.evaluate("pkg", "make", "t0", "PKGBUILD", None);
    assert!(s.is_dirty());
    s.evaluate("pkg", "make", "t1", "PKGBUILD", None);
    assert_eq!(s.snapshot("pkg").unwrap().last_seen, "t1");
    assert!(s.snapshot("other").is_none());
    let f = s.evaluate("pkg", "npm ci", "t2", "PKGBUILD", None);
    assert_eq!(f[0].metadata[1].key, "previous_seen");
    assert!(matches!(&f[0].metadata[1].value, Value::Text(t) if t == "t1"));
    assert_eq!(s.snapshot("pkg").unwrap().last_seen, "t2");
}

#[test]
fn a_maintainer_change_counts_for_one_update_only() {
    let mut s = store();
    s.evaluate("pkg", "make", "t0", "PKGBUILD", Some("alice"));
    assert!(s.evaluate("pkg", "make", "t1", "PKGBUILD", Some("bob")).is_empty());
    let f = s.evaluate("pkg", "npm ci", "t2", "PKGBUILD", Some("bob"));
    assert_eq!(f.len(), 1);
    assert_eq!(f[0].id, "PROV-001");
}

#[test]
fn repeated_content_is_silent() {
    let mut s = store();
    s.evaluate("pkg", "npm ci", "t0", "PKGBUILD", None);
    s.evaluate("pkg", "npm ci", "t1", "PKGBUILD", None);
    assert!(s.evaluate("pkg", "npm ci", "t2", "PKGBUILD", None).is_empty());
    assert_eq!(s.tracked_packages(), 1);
}

fn npm_snapshot(last_seen: &str) -> Snapshot {
    Snapshot {
        content_sha256: String::new(),
        markers: vec!["npm".to_string()],
        last_seen: last_seen.to_string(),
        maintainer: None,
    }
}

#[test]
fn loaded_snapshots_are_compared_with() {
    let saved = vec![
        ("pkg".to_string(), Snapshot { markers: Vec::new(), ..npm_snapshot("t0") }),
        ("pkg".to_string(), npm_snapshot("t1")),
    ];
    let mut s = ProvenanceStore::load(Some(saved));
    assert!(!s.is_dirty());
    assert_eq!(s.tracked_packages(), 1);
    assert!(s.evaluate("pkg", "npm install x", "t2", "PKGBUILD", None).is_empty());
    let f = s.evaluate("pkg", "npm install x; eval y", "t3", "PKGBUILD", None);
    assert_eq!(f.len(), 1);
}

#[test]
fn a_missing_file_is_an_empty_store() {
    let s = ProvenanceStore::load(None);
    assert_eq!(s.tracked_packages(), 0);
    assert!(!s.is_dirty());
}

#[test]
fn what_was_saved_is_loaded_again() {
    let mut s = store();
    assert!(s.save().is_none());
    s.evaluate("a", "npm install x", "t0", "PKGBUILD", Some("alice"));
    s.evaluate("b", "make", "t1", "PKGBUILD", None);
    let saved = s.save().unwrap();
    assert_eq!(saved.len(), 2);
    let mut later = ProvenanceStore::load(Some(saved));
    assert!(later.save().is_none());
    let a = later.snapshot("a").unwrap();
    assert_eq!(a.markers, vec!["npm"]);
    assert_eq!(a.maintainer.as_deref(), Some("alice"));
    assert_eq!(a.last_seen, "t0");
    assert!(later.evaluate("b", "make", "t2", "PKGBUILD", None).is_empty());
    assert!(later.save().is_none());
    assert_eq!(later.evaluate("b", "eval x", "t3", "PKGBUILD", None).len(), 1);
    assert!(later.save().is_some());
}

#[test]
fn digests_of_known_texts() {
    assert_eq!(
        sha256_hex("abc"),
        "ba7816bf8f01cfea414140de5dae2223b00361a396177a9cb410ff61f20015ad"
    );
    assert_eq!(
        sha256_hex(""),
        "e3b0c44298fc1c149afbf4c8996fb92427ae41e4649b934ca495991b7852b855"
    );
    assert_eq!(hex_of(&[0, 15, 16, 255]), "000f10ff");
}
