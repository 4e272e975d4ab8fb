//! The scanner: what it is made of, what it hands to its analyzers, and what it makes of their
//! reports. Reading files and running the analyzers is left to its user.

use crate::analyzer::ioc::hit_finding;
use crate::deobfuscate::variables::value_texts;
use crate::deobfuscate::{
    deobfuscate_within, deobfuscated, text_settles_within, text_surely_settles, Deobfuscation,
};
use crate::error::{IoError, IoKind, ScanError, ScanErrorView};
use crate::findings::{
    all_reported, collect_findings, law_triage_adds_nothing, law_triage_keeps_severe, triage,
    triaged, Report,
};
use crate::metadata::{
    extract_maintainer_id, maintainer, track_variable_assignments, variables,
};
use crate::parser::{ParsedInstallScript, ParsedPkgbuild};
use crate::rules::{Rule, RuleEngine};
use crate::text::{decimal, decimal_of, join_texts, joined, lines, opt_text, texts};
use crate::threat_intel::{IocDatabase, IocHit};
use crate::types::{
    finding_views, AnalysisContext, Category, Entry, Finding, FindingView, Location, LocationView,
    ScanConfig, ScanResult, Severity, Value, ValueView,
};
use std::sync::Arc;
use vstd::prelude::*;

verus! {

// ---------------------------------------------------------------------------------------
// Reading
// ---------------------------------------------------------------------------------------

/// Maximum size of a file the scanner will read into memory. Real PKGBUILDs and install scripts
/// are a few KB; anything past this is abnormal and a memory-exhaustion risk from a hostile
/// repository.
pub const MAX_SCAN_FILE_BYTES: u64 = 2097152;

/// Refuses files larger than [`MAX_SCAN_FILE_BYTES`], by their length in bytes.
pub fn check_scan_size(len: u64) -> (r: Result<(), ScanError>)
    ensures
        match r {
            Ok(_) => len <= MAX_SCAN_FILE_BYTES,
            Err(e) => len > MAX_SCAN_FILE_BYTES && e@ == ScanErrorView::Io(
                IoKind::Other,
                "file too large to scan safely: "@ + decimal(len as nat) + " bytes"@,
            ),
        },
{
    if len > MAX_SCAN_FILE_BYTES {
        let mut message: String = "file too large to scan safely: ".to_owned();
        message.append(decimal_of(len).as_str());
        message.append(" bytes");
        Err(ScanError::Io(IoError { kind: IoKind::Other, message }))
    } else {
        Ok(())
    }
}

/// Refuses a directory in which there is no PKGBUILD.
pub fn check_directory(dir: &str, pkgbuild_exists: bool) -> (r: Result<(), ScanError>)
    ensures
        match r {
            Ok(_) => pkgbuild_exists,
            Err(e) => !pkgbuild_exists && e@ == ScanErrorView::Io(
                IoKind::NotFound,
                "PKGBUILD not found in "@ + dir@,
            ),
        },
{
    if pkgbuild_exists {
        Ok(())
    } else {
        let mut message: String = "PKGBUILD not found in ".to_owned();
        message.append(dir);
        Err(ScanError::Io(IoError { kind: IoKind::NotFound, message }))
    }
}

// ---------------------------------------------------------------------------------------
// The scanner
// ---------------------------------------------------------------------------------------

/// The analyzers of a scanner.
#[derive(Clone, Copy, Debug, PartialEq, Eq, Structural)]
pub enum AnalyzerKind {
    Pattern,
    Ioc,
    Deep,
    RemoteExec,
    Source,
    Checksum,
    Privilege,
}

/// The analyzers of a new scanner, in the order in which they run.
pub open spec fn standard_analyzers() -> Seq<AnalyzerKind> {
    seq![
        AnalyzerKind::Pattern,
        AnalyzerKind::Ioc,
        AnalyzerKind::Deep,
        AnalyzerKind::RemoteExec,
        AnalyzerKind::Source,
        AnalyzerKind::Checksum,
        AnalyzerKind::Privilege,
    ]
}

/// Main scanner that orchestrates all security analysis.
pub struct Scanner {
    /// The analyzers, in the order in which they run.
    pub analyzers: Vec<AnalyzerKind>,
    /// The rules of the pattern analyzer.
    pub rule_engine: RuleEngine,
    /// The known indicators of compromise.
    pub ioc_db: Arc<IocDatabase>,
    pub config: ScanConfig,
}

/// The one technique that a deobfuscated text has always gone through.
pub const DEOBFUSCATION: &'static str = "ansi-c-quote-flatten-normalize-variable-expansion";

/// Whether deobfuscation changed anything in a package.
pub open spec fn was_deobfuscated(context: AnalysisContext) -> bool {
    context.deobfuscated_pkgbuild_content is Some || context.deobfuscated_install_content is Some
}

/// The deobfuscation techniques that were applied.
pub open spec fn techniques(context: AnalysisContext) -> Seq<Seq<char>> {
    if context.resolved_variables@.dom().len() == 0 {
        seq![DEOBFUSCATION@]
    } else {
        seq![DEOBFUSCATION@, "variable-tracking"@]
    }
}

/// The finding that makes the use of deobfuscation traceable.
pub open spec fn deobfuscation_audit(context: AnalysisContext) -> FindingView {
    FindingView {
        id: "DEEP-003"@,
        severity: Severity::Low,
        category: Category::Obfuscation,
        title: "Deobfuscation applied during scan"@,
        description: "Shell deobfuscation techniques were applied: "@ + joined(
            techniques(context),
            ", "@,
        )
            + ". The deobfuscated text was re-scanned for hidden commands. Any findings with 'deobfuscated: true' in their metadata were detected only after deobfuscation."@,
        location: LocationView {
            file: context.file_path@,
            line: None,
            column: None,
            snippet: None,
        },
        recommendation:
            "Review deobfuscated findings carefully; they indicate deliberate evasion."@,
        cwe_id: None,
        metadata: seq![("techniques"@, ValueView::List(techniques(context)))],
    }
}

/// All findings of a scan, before triage: those of the analyzers, then the audit of the
/// deobfuscation, where there was any.
pub open spec fn raw_findings(context: AnalysisContext, reports: Seq<Report>) -> Seq<FindingView> {
    if was_deobfuscated(context) {
        all_reported(reports).push(deobfuscation_audit(context))
    } else {
        all_reported(reports)
    }
}

/// The audit of the deobfuscation in a package, where there was any.
pub fn deobfuscation_finding(context: &AnalysisContext) -> (r: Option<Finding>)
    ensures
        match r {
            Some(f) => was_deobfuscated(*context) && f@ == deobfuscation_audit(*context),
            None => !was_deobfuscated(*context),
        },
{
    if context.deobfuscated_pkgbuild_content.is_none()
        && context.deobfuscated_install_content.is_none() {
        return None;
    }
    let mut names: Vec<String> = Vec::new();
    names.push(DEOBFUSCATION.to_owned());
    if context.resolved_variables.len() > 0 {
        names.push("variable-tracking".to_owned());
    }
    proof {
        assert(texts(names@) =~= techniques(*context));
    }
    let mut description: String = "Shell deobfuscation techniques were applied: ".to_owned();
    description.append(join_texts(&names, ", ").as_str());
    description.append(
        ". The deobfuscated text was re-scanned for hidden commands. Any findings with 'deobfuscated: true' in their metadata were detected only after deobfuscation.",
    );
    let mut metadata: Vec<Entry> = Vec::new();
    metadata.push(Entry { key: "techniques".to_owned(), value: Value::List(names) });
    let f = Finding {
        id: "DEEP-003".to_owned(),
        severity: Severity::Low,
        category: Category::Obfuscation,
        title: "Deobfuscation applied during scan".to_owned(),
        description,
        location: Location {
            file: context.file_path.clone(),
            line: None,
            column: None,
            snippet: None,
        },
        recommendation:
            "Review deobfuscated findings carefully; they indicate deliberate evasion.".to_owned(),
        cwe_id: None,
        metadata,
    };
    proof {
        assert(f@.metadata =~= deobfuscation_audit(*context).metadata);
    }
    Some(f)
}

/// The text that an optional install script reads as without its obfuscation.
pub open spec fn deobfuscated_script(script: Option<ParsedInstallScript>) -> Option<Seq<char>> {
    match script {
        Some(s) => deobfuscated(s.content@),
        None => None,
    }
}

/// Whether deobfuscating a package comes to an end in the rounds allowed.
pub open spec fn package_settles_within(
    pkgbuild: ParsedPkgbuild,
    script: Option<ParsedInstallScript>,
    rounds: nat,
) -> bool {
    &&& text_settles_within(pkgbuild.raw_content@, rounds)
    &&& script matches Some(s) ==> text_settles_within(s.content@, rounds)
}

/// Whether it is plain of the texts of a package that deobfuscating them comes to an end in the
/// rounds allowed.
pub open spec fn package_surely_settles(
    pkgbuild: ParsedPkgbuild,
    script: Option<ParsedInstallScript>,
    rounds: nat,
) -> bool {
    &&& text_surely_settles(pkgbuild.raw_content@, rounds)
    &&& script matches Some(s) ==> text_surely_settles(s.content@, rounds)
}

impl Scanner {
    /// Create a new scanner with the given configuration, rules and indicators.
    pub fn new(config: ScanConfig, rule_engine: RuleEngine, ioc_db: IocDatabase) -> (r: Result<
        Self,
        ScanError,
    >)
        ensures
            r matches Ok(s) && s.config == config && s.rule_engine == rule_engine && *s.ioc_db
                == ioc_db && s.analyzers@ == standard_analyzers(),
    {
        let mut analyzers: Vec<AnalyzerKind> = Vec::new();
        analyzers.push(AnalyzerKind::Pattern);
        analyzers.push(AnalyzerKind::Ioc);
        analyzers.push(AnalyzerKind::Deep);
        analyzers.push(AnalyzerKind::RemoteExec);
        analyzers.push(AnalyzerKind::Source);
        analyzers.push(AnalyzerKind::Checksum);
        analyzers.push(AnalyzerKind::Privilege);
        proof {
            assert(analyzers@ =~= standard_analyzers());
        }
        Ok(Scanner { analyzers, rule_engine, ioc_db: Arc::new(ioc_db), config })
    }

    /// The IOC database backing this scanner.
    pub fn ioc_database(&self) -> (r: Arc<IocDatabase>)
        ensures
            r == self.ioc_db,
    {
        self.ioc_db.clone()
    }

    /// Create a scanner with default configuration.
    pub fn with_defaults(rule_engine: RuleEngine, ioc_db: IocDatabase) -> (r: Result<
        Self,
        ScanError,
    >)
        ensures
            r matches Ok(s) && s.config.min_severity == Severity::Info && s.config.timeout_seconds
                == 30 && s.rule_engine == rule_engine && *s.ioc_db == ioc_db && s.analyzers@
                == standard_analyzers(),
    {
        Self::new(ScanConfig::default(), rule_engine, ioc_db)
    }

    /// Load rules from a directory: `loaded` is what was read from it. The rules are added to
    /// those that are there; where they could not be read, nothing changes.
    pub fn load_rules(&mut self, loaded: Result<Vec<Rule>, ScanError>) -> (r: Result<(), ScanError>)
        ensures
            match loaded {
                Ok(rules) => r is Ok && final(self).rule_engine.rules@
                    == old(self).rule_engine.rules@ + rules@,
                Err(e) => r == Err::<(), ScanError>(e) && final(self).rule_engine
                    == old(self).rule_engine,
            },
            final(self).analyzers == old(self).analyzers,
            final(self).ioc_db == old(self).ioc_db,
            final(self).config == old(self).config,
    {
        match loaded {
            Ok(rules) => {
                let mut more: Vec<Rule> = rules;
                self.rule_engine.rules.append(&mut more);
                Ok(())
            },
            Err(e) => Err(e),
        }
    }

    /// What the analyzers get to see of a package, unless deobfuscating it takes more than
    /// `rounds` rounds of expanding references.
    pub fn analysis_context(
        &self,
        pkgbuild: ParsedPkgbuild,
        install_script: Option<ParsedInstallScript>,
        file_path: &str,
        rounds: usize,
    ) -> (r: Option<AnalysisContext>)
        ensures
            r is Some <==> package_settles_within(pkgbuild, install_script, rounds as nat),
            package_surely_settles(pkgbuild, install_script, rounds as nat) ==> r is Some,
            r matches Some(c) ==> {
                &&& c.pkgbuild == pkgbuild
                &&& c.install_script == install_script
                &&& c.config == self.config
                &&& c.file_path@ == file_path@
                &&& opt_text(c.deobfuscated_pkgbuild_content) == deobfuscated(
                    pkgbuild.raw_content@,
                )
                &&& opt_text(c.deobfuscated_install_content) == deobfuscated_script(install_script)
                &&& value_texts(c.resolved_variables@) == variables(lines(pkgbuild.raw_content@))
                &&& opt_text(c.maintainer_id) == maintainer(lines(pkgbuild.raw_content@))
            },
    {
        let deobfuscated_pkgbuild_content: Option<String> = match deobfuscate_within(
            pkgbuild.raw_content.as_str(),
            rounds,
        ) {
            Deobfuscation::Unsettled => {
                return None;
            },
            Deobfuscation::Changed(t) => Some(t),
            Deobfuscation::Unchanged => None,
        };
        let deobfuscated_install_content: Option<String> = match &install_script {
            Some(script) => match deobfuscate_within(script.content.as_str(), rounds) {
                Deobfuscation::Unsettled => {
                    return None;
                },
                Deobfuscation::Changed(t) => Some(t),
                Deobfuscation::Unchanged => None,
            },
            None => None,
        };
        let resolved_variables = track_variable_assignments(pkgbuild.raw_content.as_str());
        let maintainer_id = extract_maintainer_id(pkgbuild.raw_content.as_str());
        Some(
            AnalysisContext {
                pkgbuild,
                install_script,
                config: self.config,
                file_path: file_path.to_owned(),
                deobfuscated_pkgbuild_content,
                deobfuscated_install_content,
                resolved_variables,
                maintainer_id,
            },
        )
    }

    /// The findings of a scan: those of the analyzers, whose reports come in the order of the
    /// analyzers, and the audit of the deobfuscation, without what is below the minimum
    /// severity, the most severe first.
    pub fn scan_findings(&self, context: &AnalysisContext, reports: Vec<Report>) -> (r: Vec<Finding>)
        ensures
            finding_views(r@) == triaged(raw_findings(*context, reports@), self.config.min_severity),
    {
        let mut findings = collect_findings(reports);
        match deobfuscation_finding(context) {
            Some(f) => {
                proof {
                    assert(finding_views(findings@.push(f)) =~= finding_views(findings@).push(f@));
                }
                findings.push(f);
            },
            None => {},
        }
        triage(findings, self.config.min_severity)
    }

    /// The outcome of a scan, from what the analyzers reported, and when and for how long it ran.
    pub fn scan_result(
        &self,
        context: &AnalysisContext,
        reports: Vec<Report>,
        timestamp: &str,
        scan_duration_ms: u64,
    ) -> (r: ScanResult)
        ensures
            r.package_name@ == context.pkgbuild.first_name(),
            r.package_version@ == context.pkgbuild.pkgver@ + "-"@ + context.pkgbuild.pkgrel@,
            finding_views(r.findings@) == triaged(
                raw_findings(*context, reports@),
                self.config.min_severity,
            ),
            texts(r.scanned_files@) == (match context.install_script {
                Some(script) => seq![context.file_path@, script.path@],
                None => seq![context.file_path@],
            }),
            r.timestamp@ == timestamp@,
            r.scan_duration_ms == scan_duration_ms,
    {
        let mut package_version: String = context.pkgbuild.pkgver.clone();
        package_version.append("-");
        package_version.append(context.pkgbuild.pkgrel.as_str());
        let mut scanned_files: Vec<String> = Vec::new();
        scanned_files.push(context.file_path.clone());
        match &context.install_script {
            Some(script) => {
                scanned_files.push(script.path.clone());
            },
            None => {},
        }
        proof {
            assert(texts(scanned_files@) =~= (match context.install_script {
                Some(script) => seq![context.file_path@, script.path@],
                None => seq![context.file_path@],
            }));
        }
        ScanResult {
            package_name: context.pkgbuild.first_pkgname(),
            package_version,
            findings: self.scan_findings(context, reports),
            scanned_files,
            timestamp: timestamp.to_owned(),
            scan_duration_ms,
        }
    }
}

// ---------------------------------------------------------------------------------------
// Laws
// ---------------------------------------------------------------------------------------

/// The use of deobfuscation is traceable: wherever it changed anything, and findings of low
/// severity are wanted, the scan reports it.
pub proof fn law_deobfuscation_is_audited(
    context: AnalysisContext,
    reports: Seq<Report>,
    min: Severity,
)
    requires
        was_deobfuscated(context),
        Severity::Low.rank() <= min.rank(),
    ensures
        triaged(raw_findings(context, reports), min).contains(deobfuscation_audit(context)),
{
    let raw = raw_findings(context, reports);
    assert(raw.last() == deobfuscation_audit(context));
    assert(raw[raw.len() - 1] == deobfuscation_audit(context));
    law_triage_keeps_severe(raw, min, deobfuscation_audit(context));
}

/// A scan makes up nothing: where deobfuscation changed nothing, every finding is one that an
/// analyzer reported.
pub proof fn law_findings_come_from_analyzers(
    context: AnalysisContext,
    reports: Seq<Report>,
    min: Severity,
    f: FindingView,
)
    requires
        !was_deobfuscated(context),
        triaged(raw_findings(context, reports), min).contains(f),
    ensures
        all_reported(reports).contains(f),
{
    law_triage_adds_nothing(all_reported(reports), min, f);
}

/// Every finding of an analyzer that is severe enough is among the findings of the scan.
pub proof fn law_no_severe_finding_is_lost(
    context: AnalysisContext,
    reports: Seq<Report>,
    min: Severity,
    f: FindingView,
)
    requires
        all_reported(reports).contains(f),
        f.severity.rank() <= min.rank(),
    ensures
        triaged(raw_findings(context, reports), min).contains(f),
{
    let all = all_reported(reports);
    let raw = raw_findings(context, reports);
    let i = choose|i: int| 0 <= i < all.len() && all[i] == f;
    assert(raw[i] == f);
    law_triage_keeps_severe(raw, min, f);
}

/// A known indicator is reported however few findings are wanted.
pub proof fn law_indicators_are_always_reported(
    context: AnalysisContext,
    reports: Seq<Report>,
    min: Severity,
    campaigns: Map<Seq<char>, Seq<char>>,
    file: Seq<char>,
    hit: IocHit,
)
    requires
        all_reported(reports).contains(hit_finding(campaigns, context.file_path@, file, hit)),
    ensures
        triaged(raw_findings(context, reports), min).contains(
            hit_finding(campaigns, context.file_path@, file, hit),
        ),
{
    law_no_severe_finding_is_lost(
        context,
        reports,
        min,
        hit_finding(campaigns, context.file_path@, file, hit),
    );
}

} // verus!
