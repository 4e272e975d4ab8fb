use aur_scanner_core::analyzer::IocAnalyzer;
use aur_scanner_core::parser::{ParsedInstallScript, ParsedPkgbuild};
use aur_scanner_core::rules::RuleEngine;
use aur_scanner_core::table::Table;
use aur_scanner_core::threat_intel::{IocDatabase, IocHit};
use aur_scanner_core::{AnalysisContext, Category, Scanner, Severity, Value};
use std::sync::Arc;

fn database() -> IocDatabase {
    let mut campaigns: Table<String> = Table::new();
    campaigns.insert("atomic-arch".to_string(), "Atomic Arch".to_string());
    IocDatabase { campaigns }
}

fn hit(campaign: Option<&str>) -> IocHit {
    IocHit {
        kind_label: "npm package".to_string(),
        kind_name: "NpmPackage".to_string(),
        value: "atomic-lockfile".to_string(),
        campaign: campaign.map(|s| s.to_string()),
        line: 5,
    }
}

fn context(script: Option<ParsedInstallScript>) -> AnalysisContext {
    let rules = RuleEngine { rules: Vec::new() };
    let scanner = Scanner::with_defaults(rules, database()).unwrap();
    let pkgbuild = ParsedPkgbuild {
        pkgname: vec!["x".into()],
        pkgver: "1".into(),
        pkgrel: "1".into(),
        raw_content:
            "pkgname=x\npkgver=1\npkgrel=1\npackage() {\n npm install atomic-lockfile\n}\n".into(),
        ..Default::default()
    };
    scanner.analysis_context(pkgbuild, script, "PKGBUILD", 8).unwrap()
}

#[test]
fn flags_npm_payload_in_pkgbuild() {
    let analyzer = IocAnalyzer::new(Arc::new(database()));
    let findings = analyzer.analyze(&context(None), &vec![hit(None)], &vec![]);
    assert!(findings.iter().any(|f| f.id == "IOC-001"));
}

#[test]
fn hits_are_reported_in_full() {
    let analyzer = IocAnalyzer::new(Arc::new(database()));
    let f = analyzer.finding_for(&context(None), "x.install", &hit(Some("atomic-arch")));
    assert_eq!(f.severity, Severity::Critical);
    assert_eq!(f.category, Category::MaliciousCode);
    assert_eq!(f.title, "Known IOC: npm package 'atomic-lockfile'");
    assert_eq!(
        f.description,
        "Content matches a known indicator of compromise: npm package 'atomic-lockfile' (campaign: Atomic Arch)."
    );
    assert_eq!(f.location.file, "x.install");
    assert_eq!(f.location.line, Some(5));
    assert_eq!(f.cwe_id.as_deref(), Some("CWE-506"));
    assert_eq!(
        f.recommendation,
        "Do NOT build. This matches a known-malicious indicator; treat the host as \
         compromised if already built and rotate credentials."
    );
    let entries: Vec<(&str, &Value)> =
        f.metadata.iter().map(|e| (e.key.as_str(), &e.value)).collect();
    assert!(matches!(entries[0], ("ioc_kind", Value::Text(t)) if t == "NpmPackage"));
    assert!(matches!(entries[1], ("ioc_value", Value::Text(t)) if t == "atomic-lockfile"));
    assert!(matches!(entries[2], ("campaign", Value::Text(t)) if t == "atomic-arch"));
    assert!(matches!(entries[3], ("context", Value::Text(t)) if t == "PKGBUILD"));
}

#[test]
fn unknown_campaigns_are_not_named() {
    let analyzer = IocAnalyzer::new(Arc::new(database()));
    for campaign in [None, Some("other")] {
        let f = analyzer.finding_for(&context(None), "PKGBUILD", &hit(campaign));
        assert!(f.description.ends_with("'atomic-lockfile'."));
        match campaign {
            None => assert!(matches!(f.metadata[2].value, Value::Null)),
            Some(id) => assert!(matches!(&f.metadata[2].value, Value::Text(t) if t == id)),
        }
    }
}

#[test]
fn hits_in_the_script_come_behind_those_in_the_pkgbuild() {
    let analyzer = IocAnalyzer::new(Arc::new(database()));
    assert_eq!(analyzer.name(), "ioc");
    let script = ParsedInstallScript { content: "npm".into(), path: "x.install".into(), hooks: vec![] };
    let with = context(Some(script));
    let findings = analyzer.analyze(&with, &vec![hit(None)], &vec![hit(None)]);
    let files: Vec<&str> = findings.iter().map(|f| f.location.file.as_str()).collect();
    assert_eq!(files, vec!["PKGBUILD", "x.install"]);
    // Without a script there is nothing to report of it.
    assert_eq!(analyzer.analyze(&context(None), &vec![], &vec![hit(None)]).len(), 0);
}
