use aur_scanner_core::error::{IoError, IoKind, ScanError};
use aur_scanner_core::findings::{collect_findings, triage, Report};
use aur_scanner_core::install::{
    expand_pkg_vars, install_candidate, install_notices, resolve_install_path, InstallChoice,
    InstallNotice,
};
use aur_scanner_core::metadata::{maintainer_from_groups, variable_from_groups};
use aur_scanner_core::parser::{InstallHook, ParsedInstallScript, ParsedPkgbuild};
use aur_scanner_core::rules::{Rule, RuleEngine};
use aur_scanner_core::scanner::{check_directory, check_scan_size, AnalyzerKind};
use aur_scanner_core::table::Table;
use aur_scanner_core::threat_intel::IocDatabase;
use aur_scanner_core::{
    extract_maintainer_id, track_variable_assignments, var_assign, Category, Finding, Location,
    ScanConfig, Scanner, Severity, Value,
};
use std::sync::Arc;

fn no_rules() -> RuleEngine {
    RuleEngine { rules: Vec::new() }
}

fn no_indicators() -> IocDatabase {
    IocDatabase { campaigns: Table::new() }
}

fn io_error(message: &str) -> ScanError {
    ScanError::Io(IoError { kind: IoKind::Other, message: message.to_string() })
}

#[test]
fn test_scanner_creation() {
    let scanner = Scanner::with_defaults(no_rules(), no_indicators());
    assert!(scanner.is_ok());
    let scanner = scanner.unwrap();
    assert_eq!(scanner.config.timeout_seconds, 30);
    assert_eq!(scanner.config.min_severity, Severity::Info);
    assert_eq!(
        scanner.analyzers,
        vec![
            AnalyzerKind::Pattern,
            AnalyzerKind::Ioc,
            AnalyzerKind::Deep,
            AnalyzerKind::RemoteExec,
            AnalyzerKind::Source,
            AnalyzerKind::Checksum,
            AnalyzerKind::Privilege,
        ]
    );
}

#[test]
fn test_install_path_rejects_traversal() {
    // A hostile install= value must not let resolution read outside the dir.
    let pkg = ParsedPkgbuild {
        pkgname: vec!["x".into()],
        install: Some("../../../../etc/passwd".into()),
        ..Default::default()
    };
    // Nothing is looked up for the declared value, and /tmp/some-pkg-dir cannot be listed.
    assert!(install_candidate(&pkg).is_none());
    let resolved = resolve_install_path(&pkg, false, None);
    assert!(resolved.is_none(), "traversal value must be rejected");
}

#[test]
fn test_expand_pkg_vars() {
    assert_eq!(
        expand_pkg_vars("${pkgname}.install", "alvr"),
        "alvr.install"
    );
    assert_eq!(expand_pkg_vars("$pkgname.install", "alvr"), "alvr.install");
    assert_eq!(
        expand_pkg_vars("\"$pkgbase.install\"", "alvr"),
        "alvr.install"
    );
    assert_eq!(expand_pkg_vars("custom.install", "alvr"), "custom.install");
}

#[test]
fn test_extract_maintainer_id_strips_trailing_comment() {
    let content = "# Maintainer: John Doe <john@example.com>  # adopted 2024";
    assert_eq!(
        extract_maintainer_id(content).as_deref(),
        Some("John Doe <john@example.com>")
    );
}

#[test]
fn test_extract_maintainer_id_no_header_returns_none() {
    assert_eq!(extract_maintainer_id("pkgname=foo\npkgver=1"), None);
}

#[test]
fn test_extract_maintainer_id_empty_after_comment_strip() {
    // Entire value is a comment — should return None.
    let content = "# Maintainer: # was orphaned";
    assert_eq!(extract_maintainer_id(content), None);
}

#[test]
fn the_first_maintainer_header_decides() {
    let content = "pkgname=x\n#maintainer:   A B  \n# Maintainer: C";
    assert_eq!(extract_maintainer_id(content).as_deref(), Some("A B"));
    let orphaned = "# Maintainer: # none\n# Maintainer: C";
    assert_eq!(extract_maintainer_id(orphaned), None);
}

#[test]
fn maintainers_from_groups() {
    let groups = |s: &str| Some(vec![Some("#".to_string()), Some(s.to_string())]);
    assert_eq!(
        maintainer_from_groups(&groups("  a b # c # d")).as_deref(),
        Some("a b")
    );
    assert_eq!(maintainer_from_groups(&groups(" # c")), None);
    assert_eq!(maintainer_from_groups(&None), None);
}

#[test]
fn variables_of_any_quoting_are_tracked() {
    let content = "CMD=bun\nA='x y'\nB=\"z\"\n # C=no\nD=$(no)\nE=\"$(no)\"\nF=\"`no`\"\nG=a`no`\nH=(no)\nI=\"$CMD\"\nJ=a\"$(no)\"\nK=<(no)\nCMD=npm; x";
    let vars = track_variable_assignments(content);
    assert_eq!(vars.keys(), vec!["CMD", "A", "B"]);
    assert_eq!(vars.get("CMD").map(|s| s.as_str()), Some("npm"));
    assert_eq!(vars.get("A").map(|s| s.as_str()), Some("x y"));
    assert_eq!(vars.get("B").map(|s| s.as_str()), Some("z"));
    assert!(vars.get("cmd").is_none());
}

#[test]
fn long_values_are_not_tracked() {
    let at_most = format!("A='{}'", "x".repeat(50));
    assert_eq!(track_variable_assignments(&at_most).len(), 1);
    let too_long = format!("A='{}'", "x".repeat(51));
    assert_eq!(track_variable_assignments(&too_long).len(), 0);
}

#[test]
fn the_groups_of_an_assignment() {
    let some = |s: &str| Some(s.to_string());
    assert_eq!(
        var_assign(&vec!["  A=\"b\" c".to_string(), "echo A".to_string()]),
        vec![Some(vec![some("  A=\"b\""), some("A"), None, some("b"), None]), None]
    );
    let groups = Some(vec![some("A=b"), some("A"), None, None, some("b")]);
    assert_eq!(
        variable_from_groups("A=b", &groups),
        Some(("A".to_string(), "b".to_string()))
    );
    for text in ["A=b$c", "A=b`c`", "A=b(c", "A=b\"$(id)\"", "A=b'c'", "A=b<(id)", "A=b>(id)"] {
        assert_eq!(variable_from_groups(text, &groups), None, "{text}");
    }
    let quoted = Some(vec![some("A='b'"), some("A"), some("b"), None, None]);
    for text in ["A='b''c'", "A='b'\"c\"", "A='b'c", "A='b' $(id)"] {
        assert!(variable_from_groups(text, &quoted).is_some(), "{text}");
    }
    for text in ["A='b'\"$(id)\"", "A='b'$c", "A='b'c`id`"] {
        assert_eq!(variable_from_groups(text, &quoted), None, "{text}");
    }
    for text in ["A=b c", "A=b;", "A=b>c", "A=b<c", "A=b)"] {
        assert!(variable_from_groups(text, &groups).is_some(), "{text}");
    }
    assert_eq!(variable_from_groups("A=b", &None), None);
}

fn finding(id: &str, severity: Severity) -> Finding {
    Finding {
        id: id.to_string(),
        severity,
        category: Category::MaliciousCode,
        title: String::new(),
        description: String::new(),
        location: Location {
            file: "PKGBUILD".to_string(),
            line: Some(1),
            column: None,
            snippet: None,
        },
        recommendation: String::new(),
        cwe_id: None,
        metadata: Vec::new(),
    }
}

fn ids(findings: &[Finding]) -> Vec<&str> {
    findings.iter().map(|f| f.id.as_str()).collect()
}

#[test]
fn findings_are_sorted_and_minor_ones_dropped() {
    let all = || {
        vec![
            finding("a", Severity::Low),
            finding("b", Severity::Critical),
            finding("c", Severity::Info),
            finding("d", Severity::High),
            finding("e", Severity::Critical),
            finding("f", Severity::Medium),
            finding("g", Severity::Low),
        ]
    };
    assert_eq!(
        ids(&triage(all(), Severity::Info)),
        vec!["b", "e", "d", "f", "a", "g", "c"]
    );
    assert_eq!(ids(&triage(all(), Severity::Medium)), vec!["b", "e", "d", "f"]);
    assert_eq!(ids(&triage(all(), Severity::Critical)), vec!["b", "e"]);
    assert!(triage(Vec::new(), Severity::Info).is_empty());
}

#[test]
fn failed_analyzers_are_skipped() {
    let reports: Vec<Report> = vec![
        Ok(vec![finding("a", Severity::Low), finding("b", Severity::Low)]),
        Err(io_error("broken")),
        Ok(Vec::new()),
        Ok(vec![finding("c", Severity::Low)]),
    ];
    assert_eq!(ids(&collect_findings(reports)), vec!["a", "b", "c"]);
}

#[test]
fn deobfuscation_is_audited() {
    let scanner = Scanner::with_defaults(no_rules(), no_indicators()).unwrap();
    let pkg = ParsedPkgbuild {
        pkgname: vec!["x".into(), "y".into()],
        pkgver: "1.0".into(),
        pkgrel: "2".into(),
        raw_content: "# Maintainer: A\nCMD=bun\n$CMD add x".into(),
        ..Default::default()
    };
    let script = ParsedInstallScript {
        content: "post_install() {\n  $'\\x63''d' /tmp\n}".into(),
        path: "dir/x.install".into(),
        hooks: vec![InstallHook { name: "post_install".into(), body: "cd /tmp".into() }],
    };
    let context = scanner
        .analysis_context(pkg, Some(script), "dir/PKGBUILD", 16)
        .unwrap();
    assert_eq!(context.maintainer_id.as_deref(), Some("A"));
    assert_eq!(context.install_script.as_ref().unwrap().hooks[0].name, "post_install");
    assert_eq!(
        context.deobfuscated_pkgbuild_content.as_deref(),
        Some("# maintainer: a\ncmd=bun\nbun add x")
    );
    assert_eq!(
        context.deobfuscated_install_content.as_deref(),
        Some("post_install() {\n  cd /tmp\n}")
    );
    let reports: Vec<Report> = vec![
        Ok(vec![finding("a", Severity::Info), finding("b", Severity::High)]),
        Err(io_error("broken")),
    ];
    let result = scanner.scan_result(&context, reports, "2026-06-13T00:00:00Z", 7);
    assert_eq!(result.package_name, "x");
    assert_eq!(result.package_version, "1.0-2");
    assert_eq!(result.scanned_files, vec!["dir/PKGBUILD", "dir/x.install"]);
    assert_eq!(result.timestamp, "2026-06-13T00:00:00Z");
    assert_eq!(result.scan_duration_ms, 7);
    assert_eq!(ids(&result.findings), vec!["b", "DEEP-003", "a"]);
    let audit = &result.findings[1];
    assert_eq!(audit.severity, Severity::Low);
    assert_eq!(audit.category, Category::Obfuscation);
    assert_eq!(
        audit.description,
        "Shell deobfuscation techniques were applied: ansi-c-quote-flatten-normalize-variable-expansion, variable-tracking. \
         The deobfuscated text was re-scanned for hidden commands. \
         Any findings with 'deobfuscated: true' in their metadata \
         were detected only after deobfuscation."
    );
    assert_eq!(audit.metadata.len(), 1);
    assert_eq!(audit.metadata[0].key, "techniques");
    match &audit.metadata[0].value {
        Value::List(names) => assert_eq!(
            names,
            &vec!["ansi-c-quote-flatten-normalize-variable-expansion", "variable-tracking"]
        ),
        _ => panic!("the techniques are a list"),
    }
}

#[test]
fn plain_packages_are_not_audited() {
    let scanner = Scanner::with_defaults(no_rules(), no_indicators()).unwrap();
    let pkg = ParsedPkgbuild {
        raw_content: "build() { make }".into(),
        ..Default::default()
    };
    let context = scanner.analysis_context(pkg, None, "PKGBUILD", 16).unwrap();
    let result = scanner.scan_result(&context, Vec::new(), "", 0);
    assert!(result.findings.is_empty());
    assert_eq!(result.package_name, "");
    assert_eq!(result.package_version, "-");
    assert_eq!(result.scanned_files, vec!["PKGBUILD"]);
}

#[test]
fn circular_variables_give_no_context() {
    let scanner = Scanner::with_defaults(no_rules(), no_indicators()).unwrap();
    let pkg = ParsedPkgbuild {
        raw_content: "A='$B.'\nB='$A'\necho $A".into(),
        ..Default::default()
    };
    assert!(scanner.analysis_context(pkg, None, "PKGBUILD", 4).is_none());
}

#[test]
fn loaded_rules_are_added() {
    let rule = |id: &str| Rule { id: id.to_string(), definition: String::new() };
    let engine = RuleEngine { rules: vec![rule("one")] };
    let config = ScanConfig { min_severity: Severity::High, timeout_seconds: 5 };
    let mut scanner = Scanner::new(config, engine, no_indicators()).unwrap();
    assert!(scanner.load_rules(Ok(vec![rule("two"), rule("three")])).is_ok());
    let failed = scanner.load_rules(Err(io_error("unreadable")));
    assert!(matches!(failed, Err(ScanError::Io(e)) if e.message == "unreadable"));
    let loaded: Vec<&str> = scanner.rule_engine.rules.iter().map(|r| r.id.as_str()).collect();
    assert_eq!(loaded, vec!["one", "two", "three"]);
    assert_eq!(scanner.config.min_severity, Severity::High);
}

#[test]
fn the_database_is_shared() {
    let mut campaigns: Table<String> = Table::new();
    campaigns.insert("atomic".to_string(), "Atomic Arch".to_string());
    let scanner = Scanner::with_defaults(no_rules(), IocDatabase { campaigns }).unwrap();
    let database = scanner.ioc_database();
    assert!(Arc::ptr_eq(&database, &scanner.ioc_database()));
    assert!(Arc::ptr_eq(&database, &scanner.ioc_db));
    assert_eq!(database.campaign("atomic").map(|s| s.as_str()), Some("Atomic Arch"));
}

#[test]
fn large_files_are_refused() {
    assert!(check_scan_size(2 * 1024 * 1024).is_ok());
    match check_scan_size(2 * 1024 * 1024 + 1) {
        Err(ScanError::Io(e)) => {
            assert_eq!(e.kind, IoKind::Other);
            assert_eq!(e.message, "file too large to scan safely: 2097153 bytes")
        }
        _ => panic!("too large"),
    }
}

#[test]
fn directories_without_a_pkgbuild_are_refused() {
    assert!(check_directory("/x", true).is_ok());
    match check_directory("/x", false) {
        Err(ScanError::Io(e)) => {
            assert_eq!(e.kind, IoKind::NotFound);
            assert_eq!(e.message, "PKGBUILD not found in /x")
        }
        _ => panic!("nothing to scan"),
    }
}

fn names(list: &[&str]) -> Vec<Vec<u8>> {
    list.iter().map(|s| s.as_bytes().to_vec()).collect()
}

#[test]
fn declared_scripts_come_first() {
    let pkg = ParsedPkgbuild {
        pkgname: vec!["x".into()],
        install: Some("\"$pkgname.install\"".into()),
        ..Default::default()
    };
    assert_eq!(install_candidate(&pkg).as_deref(), Some("x.install"));
    match resolve_install_path(&pkg, true, None) {
        Some(InstallChoice::Declared(name)) => assert_eq!(name, "x.install"),
        _ => panic!("the declared script exists"),
    }
}

#[test]
fn scripts_are_found_by_their_extension() {
    let pkg = ParsedPkgbuild { pkgname: vec!["m".into()], ..Default::default() };
    let found = |list: &[&str]| match resolve_install_path(&pkg, false, Some(&names(list))) {
        Some(InstallChoice::Found(i)) => Some(i),
        Some(InstallChoice::Declared(_)) => panic!("nothing is declared"),
        None => None,
    };
    assert_eq!(found(&["PKGBUILD", "z.install", ".install"]), Some(1));
    assert_eq!(found(&["z.install", "b.install"]), Some(1));
    assert_eq!(found(&["z.install", "m.install", "b.install"]), Some(1));
    assert_eq!(found(&["PKGBUILD", "install"]), None);
}

#[test]
fn gaps_in_the_resolution_are_told() {
    let declaring = |value: Option<&str>| ParsedPkgbuild {
        pkgname: vec!["m".into()],
        install: value.map(|v| v.into()),
        ..Default::default()
    };
    let two = names(&["a.install", "b.install"]);
    let own = names(&["a.install", "m.install"]);
    let none = declaring(None);
    assert!(install_notices(&none, false, None).is_empty());
    assert!(install_notices(&none, false, Some(&own)).is_empty());
    assert_eq!(install_notices(&none, false, Some(&two)), vec![InstallNotice::Several]);
    let hostile = declaring(Some("../x"));
    assert_eq!(
        install_notices(&hostile, false, Some(&two)),
        vec![InstallNotice::Suspicious, InstallNotice::Several]
    );
    let missing = declaring(Some("x.install"));
    assert_eq!(install_notices(&missing, false, None), vec![InstallNotice::Missing]);
    assert!(install_notices(&missing, true, Some(&two)).is_empty());
}
