//! Findings, and what they are made from.

use crate::deobfuscate::variables::Variables;
use crate::parser::{ParsedInstallScript, ParsedPkgbuild};
use crate::text::{opt_text, texts};
use vstd::prelude::*;

verus! {

/// How severe a finding is, the most severe first.
#[derive(Clone, Copy, Debug, PartialEq, Eq, PartialOrd, Ord, Structural)]
pub enum Severity {
    Critical,
    High,
    Medium,
    Low,
    Info,
}

impl Severity {
    /// The place of a severity in the order, from 0 for the most severe.
    pub open spec fn rank(self) -> int {
        match self {
            Severity::Critical => 0,
            Severity::High => 1,
            Severity::Medium => 2,
            Severity::Low => 3,
            Severity::Info => 4,
        }
    }

    /// The place of a severity in the order, from 0 for the most severe.
    pub fn rank_of(self) -> (r: usize)
        ensures
            r == self.rank(),
            r < 5,
    {
        match self {
            Severity::Critical => 0,
            Severity::High => 1,
            Severity::Medium => 2,
            Severity::Low => 3,
            Severity::Info => 4,
        }
    }
}

/// What a finding is about.
#[derive(Clone, Copy, Debug, PartialEq, Eq, Structural)]
pub enum Category {
    MaliciousCode,
    Obfuscation,
    SuspiciousMetadata,
}

/// Where a finding was made.
#[derive(Debug)]
pub struct Location {
    pub file: String,
    pub line: Option<usize>,
    pub column: Option<usize>,
    pub snippet: Option<String>,
}

/// A value in the metadata of a finding.
#[derive(Debug)]
pub enum Value {
    Null,
    Text(String),
    List(Vec<String>),
}

/// One entry of the metadata of a finding.
#[derive(Debug)]
pub struct Entry {
    pub key: String,
    pub value: Value,
}

/// A finding of a scan.
#[derive(Debug)]
pub struct Finding {
    pub id: String,
    pub severity: Severity,
    pub category: Category,
    pub title: String,
    pub description: String,
    pub location: Location,
    pub recommendation: String,
    pub cwe_id: Option<String>,
    pub metadata: Vec<Entry>,
}

/// What a location says.
pub struct LocationView {
    pub file: Seq<char>,
    pub line: Option<usize>,
    pub column: Option<usize>,
    pub snippet: Option<Seq<char>>,
}

/// What a metadata value says.
pub enum ValueView {
    Null,
    Text(Seq<char>),
    List(Seq<Seq<char>>),
}

/// What a finding says.
pub struct FindingView {
    pub id: Seq<char>,
    pub severity: Severity,
    pub category: Category,
    pub title: Seq<char>,
    pub description: Seq<char>,
    pub location: LocationView,
    pub recommendation: Seq<char>,
    pub cwe_id: Option<Seq<char>>,
    pub metadata: Seq<(Seq<char>, ValueView)>,
}

impl View for Location {
    type V = LocationView;

    open spec fn view(&self) -> LocationView {
        LocationView {
            file: self.file@,
            line: self.line,
            column: self.column,
            snippet: opt_text(self.snippet),
        }
    }
}

impl View for Value {
    type V = ValueView;

    open spec fn view(&self) -> ValueView {
        match self {
            Value::Null => ValueView::Null,
            Value::Text(t) => ValueView::Text(t@),
            Value::List(l) => ValueView::List(texts(l@)),
        }
    }
}

impl View for Finding {
    type V = FindingView;

    open spec fn view(&self) -> FindingView {
        FindingView {
            id: self.id@,
            severity: self.severity,
            category: self.category,
            title: self.title@,
            description: self.description@,
            location: self.location@,
            recommendation: self.recommendation@,
            cwe_id: opt_text(self.cwe_id),
            metadata: self.metadata@.map_values(|e: Entry| (e.key@, e.value@)),
        }
    }
}

/// What findings say.
pub open spec fn finding_views(findings: Seq<Finding>) -> Seq<FindingView> {
    findings.map_values(|f: Finding| f@)
}

/// How a scan is to be done.
#[derive(Clone, Copy, Debug)]
pub struct ScanConfig {
    /// Findings less severe than this are left out.
    pub min_severity: Severity,
    /// How long a scan may take.
    pub timeout_seconds: u64,
}

impl Default for ScanConfig {
    /// Every finding, in half a minute.
    fn default() -> (r: Self)
        ensures
            r.min_severity == Severity::Info,
            r.timeout_seconds == 30,
    {
        ScanConfig { min_severity: Severity::Info, timeout_seconds: 30 }
    }
}

/// What the analyzers work on.
pub struct AnalysisContext {
    pub pkgbuild: ParsedPkgbuild,
    pub install_script: Option<ParsedInstallScript>,
    pub config: ScanConfig,
    pub file_path: String,
    /// The PKGBUILD as it reads without its obfuscation, where it has any.
    pub deobfuscated_pkgbuild_content: Option<String>,
    /// The install script as it reads without its obfuscation, where it has any.
    pub deobfuscated_install_content: Option<String>,
    /// The variables that the PKGBUILD assigns.
    pub resolved_variables: Variables,
    /// Who maintains the package, by the header of the PKGBUILD.
    pub maintainer_id: Option<String>,
}

/// The outcome of a scan.
pub struct ScanResult {
    pub package_name: String,
    pub package_version: String,
    pub findings: Vec<Finding>,
    pub scanned_files: Vec<String>,
    /// When the scan was made, as the caller writes times.
    pub timestamp: String,
    pub scan_duration_ms: u64,
}

} // verus!
