//! IOC analyzer: matches scanned content against the local IOC database.
//!
//! Complements the heuristic pattern engine. Where the pattern engine reasons about *behavior*
//! ("an install hook runs npm"), this analyzer matches known *indicators* ("the package
//! atomic-lockfile", "the file scales.bpf.c"), catching hijacks that otherwise look clean.

use crate::threat_intel::{IocDatabase, IocHit};
use crate::types::{
    finding_views, AnalysisContext, Category, Entry, Finding, FindingView, Location, LocationView,
    Severity, Value, ValueView,
};
use std::sync::Arc;
use vstd::prelude::*;

verus! {

/// Analyzer that matches content against the IOC database.
pub struct IocAnalyzer {
    pub db: Arc<IocDatabase>,
}

/// What is to be done about a known indicator.
pub const RECOMMENDATION: &'static str =
    "Do NOT build. This matches a known-malicious indicator; treat the host as compromised if already built and rotate credentials.";

/// The campaign of a hit, in brackets, where the database knows it.
pub open spec fn campaign_suffix(campaigns: Map<Seq<char>, Seq<char>>, hit: IocHit) -> Seq<char> {
    match hit.campaign {
        Some(id) => if campaigns.contains_key(id@) {
            " (campaign: "@ + campaigns[id@] + ")"@
        } else {
            seq![]
        },
        None => seq![],
    }
}

/// The finding that reports a hit in `file`.
pub open spec fn hit_finding(
    campaigns: Map<Seq<char>, Seq<char>>,
    scanned: Seq<char>,
    file: Seq<char>,
    hit: IocHit,
) -> FindingView {
    let named = hit.kind_label@ + " '"@ + hit.value@ + "'"@;
    FindingView {
        id: "IOC-001"@,
        severity: Severity::Critical,
        category: Category::MaliciousCode,
        title: "Known IOC: "@ + named,
        description: "Content matches a known indicator of compromise: "@ + named
            + campaign_suffix(campaigns, hit) + "."@,
        location: LocationView { file, line: Some(hit.line), column: None, snippet: None },
        recommendation: RECOMMENDATION@,
        cwe_id: Some("CWE-506"@),
        metadata: seq![
            ("ioc_kind"@, ValueView::Text(hit.kind_name@)),
            ("ioc_value"@, ValueView::Text(hit.value@)),
            (
                "campaign"@,
                match hit.campaign {
                    Some(id) => ValueView::Text(id@),
                    None => ValueView::Null,
                },
            ),
            ("context"@, ValueView::Text(scanned)),
        ],
    }
}

/// The findings that report hits in `file`.
pub open spec fn hit_findings(
    campaigns: Map<Seq<char>, Seq<char>>,
    scanned: Seq<char>,
    file: Seq<char>,
    hits: Seq<IocHit>,
) -> Seq<FindingView> {
    hits.map_values(|h: IocHit| hit_finding(campaigns, scanned, file, h))
}

impl IocAnalyzer {
    /// Create an analyzer backed by the given IOC database.
    pub fn new(db: Arc<IocDatabase>) -> (r: Self)
        ensures
            r.db == db,
    {
        IocAnalyzer { db }
    }

    /// The name of the campaign of a hit, in brackets, where the database knows it.
    fn suffix_for(&self, hit: &IocHit) -> (r: String)
        ensures
            r@ == campaign_suffix(self.db@, *hit),
    {
        let mut out = String::new();
        match &hit.campaign {
            Some(id) => {
                match self.db.campaign(id.as_str()) {
                    Some(name) => {
                        out.append(" (campaign: ");
                        out.append(name.as_str());
                        out.append(")");
                    },
                    None => {},
                }
            },
            None => {},
        }
        out
    }

    /// The finding that reports a hit in `file`.
    pub fn finding_for(&self, context: &AnalysisContext, file: &str, hit: &IocHit) -> (r: Finding)
        ensures
            r@ == hit_finding(self.db@, context.file_path@, file@, *hit),
    {
        let mut named: String = hit.kind_label.clone();
        named.append(" '");
        named.append(hit.value.as_str());
        named.append("'");
        let mut title: String = "Known IOC: ".to_owned();
        title.append(named.as_str());
        let mut description: String =
            "Content matches a known indicator of compromise: ".to_owned();
        description.append(named.as_str());
        description.append(self.suffix_for(hit).as_str());
        description.append(".");
        let campaign: Value = match &hit.campaign {
            Some(id) => Value::Text(id.clone()),
            None => Value::Null,
        };
        let mut metadata: Vec<Entry> = Vec::new();
        metadata.push(
            Entry { key: "ioc_kind".to_owned(), value: Value::Text(hit.kind_name.clone()) },
        );
        metadata.push(Entry { key: "ioc_value".to_owned(), value: Value::Text(hit.value.clone()) });
        metadata.push(Entry { key: "campaign".to_owned(), value: campaign });
        metadata.push(
            Entry { key: "context".to_owned(), value: Value::Text(context.file_path.clone()) },
        );
        let r = Finding {
            id: "IOC-001".to_owned(),
            severity: Severity::Critical,
            category: Category::MaliciousCode,
            title,
            description,
            location: Location {
                file: file.to_owned(),
                line: Some(hit.line),
                column: None,
                snippet: None,
            },
            recommendation: RECOMMENDATION.to_owned(),
            cwe_id: Some("CWE-506".to_owned()),
            metadata,
        };
        proof {
            let want = hit_finding(self.db@, context.file_path@, file@, *hit);
            assert(r@.metadata =~= want.metadata);
            assert(r@.description =~= want.description);
        }
        r
    }

    /// Appends the findings that report hits in `file`.
    fn report(
        &self,
        context: &AnalysisContext,
        file: &str,
        hits: &Vec<IocHit>,
        findings: &mut Vec<Finding>,
    )
        ensures
            finding_views(final(findings)@) == finding_views(old(findings)@) + hit_findings(
                self.db@,
                context.file_path@,
                file@,
                hits@,
            ),
    {
        let n: usize = hits.len();
        let ghost before = finding_views(findings@);
        let ghost all = hit_findings(self.db@, context.file_path@, file@, hits@);
        proof {
            assert(before + all.take(0) =~= before);
        }
        for i in 0..n
            invariant
                n == hits@.len(),
                all == hit_findings(self.db@, context.file_path@, file@, hits@),
                finding_views(findings@) == before + all.take(i as int),
        {
            let f = self.finding_for(context, file, &hits[i]);
            proof {
                assert(finding_views(findings@.push(f)) =~= finding_views(findings@).push(f@));
                assert(all.take(i + 1) =~= all.take(i as int).push(f@));
                assert(before + all.take(i + 1) =~= (before + all.take(i as int)).push(f@));
            }
            findings.push(f);
        }
        proof {
            assert(all.take(n as int) =~= all);
        }
    }

    /// The findings for the known indicators in a package: those in its PKGBUILD, then those in
    /// its install script.
    pub fn analyze(
        &self,
        context: &AnalysisContext,
        pkgbuild_hits: &Vec<IocHit>,
        install_hits: &Vec<IocHit>,
    ) -> (r: Vec<Finding>)
        ensures
            finding_views(r@) == hit_findings(
                self.db@,
                context.file_path@,
                context.file_path@,
                pkgbuild_hits@,
            ) + (match context.install_script {
                Some(script) => hit_findings(
                    self.db@,
                    context.file_path@,
                    script.path@,
                    install_hits@,
                ),
                None => seq![],
            }),
            r@.len() == pkgbuild_hits@.len() + (if context.install_script is Some {
                install_hits@.len()
            } else {
                0
            }),
            forall|i: int|
                0 <= i < pkgbuild_hits@.len() ==> {
                    &&& (#[trigger] r@[i]).location.line == Some(pkgbuild_hits@[i].line)
                    &&& r@[i].location.file@ == context.file_path@
                    &&& r@[i].severity == Severity::Critical
                    &&& r@[i].id@ == "IOC-001"@
                },
            context.install_script matches Some(script) ==> forall|i: int|
                pkgbuild_hits@.len() <= i < r@.len() ==> {
                    &&& (#[trigger] r@[i]).location.line == Some(
                        install_hits@[i - pkgbuild_hits@.len()].line,
                    )
                    &&& r@[i].location.file@ == script.path@
                    &&& r@[i].severity == Severity::Critical
                    &&& r@[i].id@ == "IOC-001"@
                },
    {
        let mut findings: Vec<Finding> = Vec::new();
        proof {
            assert(finding_views(findings@) =~= seq![]);
        }
        self.report(context, context.file_path.as_str(), pkgbuild_hits, &mut findings);
        match &context.install_script {
            Some(script) => {
                self.report(context, script.path.as_str(), install_hits, &mut findings);
            },
            None => {},
        }
        proof {
            let n = pkgbuild_hits@.len() as int;
            let views = finding_views(findings@);
            let path = context.file_path@;
            assert forall|i: int| 0 <= i < findings@.len() implies (#[trigger] findings@[i])@
                == views[i] by {}
            assert forall|i: int| 0 <= i < n implies views[i] == hit_finding(
                self.db@,
                path,
                path,
                pkgbuild_hits@[i],
            ) by {}
            match &context.install_script {
                Some(script) => {
                    assert forall|i: int| n <= i < views.len() implies views[i] == hit_finding(
                        self.db@,
                        path,
                        script.path@,
                        install_hits@[i - n],
                    ) by {}
                },
                None => {},
            }
        }
        findings
    }

    /// The name of the analyzer.
    pub fn name(&self) -> (r: &'static str)
        ensures
            r@ == "ioc"@,
    {
        "ioc"
    }
}

} // verus!
