//! Laws on findings: none that was reported is lost on the way to the outcome of a scan.

use crate::analyzer::ioc::{hit_finding, hit_findings};
use crate::findings::{all_reported, law_triage_is_stable, triaged, Report};
use crate::scanner::{
    deobfuscation_audit, raw_findings, standard_analyzers, was_deobfuscated, AnalyzerKind,
};
use crate::threat_intel::IocHit;
use crate::types::{AnalysisContext, Category, Finding, FindingView, Severity, ValueView};
use vstd::prelude::*;

verus! {

// ---------------------------------------------------------------------------------------
// Reports
// ---------------------------------------------------------------------------------------

/// The findings of a report are taken over whole and in order, between those of the reports
/// before it and behind it.
pub proof fn law_reports_are_taken_over(
    before: Seq<Report>,
    findings: Vec<Finding>,
    behind: Seq<Report>,
)
    ensures
        all_reported(Seq::empty()) == Seq::<FindingView>::empty(),
        all_reported(before + seq![Ok(findings)] + behind) == all_reported(before)
            + findings@.map_values(|f: Finding| f@) + all_reported(behind),
    decreases before.len(),
{
    let one: Report = Ok(findings);
    let all = before + seq![one] + behind;
    let mine = findings@.map_values(|f: Finding| f@);
    if before.len() == 0 {
        assert(all[0] == one);
        assert(all.drop_first() =~= behind);
        assert(all_reported(before) + mine =~= mine);
    } else {
        let rest = before.drop_first();
        law_reports_are_taken_over(rest, findings, behind);
        assert(all[0] == before[0]);
        assert(all.drop_first() =~= rest + seq![one] + behind);
        assert(all_reported(all) =~= all_reported(before) + mine + all_reported(behind));
    }
}

/// Every finding of every analyzer that did not fail is among the collected ones.
pub proof fn law_every_reported_finding_is_collected(
    reports: Seq<Report>,
    findings: Vec<Finding>,
    i: int,
    j: int,
)
    requires
        0 <= i < reports.len(),
        reports[i] == Ok::<Vec<Finding>, crate::error::ScanError>(findings),
        0 <= j < findings@.len(),
    ensures
        all_reported(reports).contains(findings@[j]@),
{
    let before = reports.take(i);
    let behind = reports.skip(i + 1);
    let one: Report = Ok(findings);
    assert(reports =~= before + seq![one] + behind);
    law_reports_are_taken_over(before, findings, behind);
    let at = all_reported(before).len() + j;
    assert(all_reported(reports)[at] == findings@[j]@);
}

/// How many findings the analyzers that did not fail have together.
pub open spec fn total_reported(reports: Seq<Report>) -> nat
    decreases reports.len(),
{
    if reports.len() == 0 {
        0
    } else {
        total_reported(reports.drop_last()) + (match reports.last() {
            Ok(findings) => findings@.len(),
            Err(_) => 0,
        })
    }
}

/// There are as many collected findings as the analyzers have together.
pub proof fn law_number_of_collected_findings(reports: Seq<Report>)
    ensures
        all_reported(reports).len() == total_reported(reports),
    decreases reports.len(),
{
    if reports.len() > 0 {
        let before = reports.drop_last();
        law_number_of_collected_findings(before);
        assert(reports =~= before + seq![reports.last()] + Seq::<Report>::empty());
        match reports.last() {
            Ok(findings) => {
                law_reports_are_taken_over(before, findings, Seq::empty());
            },
            Err(_) => {
                crate::findings::law_failures_add_nothing(before, reports.last(), Seq::empty());
                assert(before + Seq::<Report>::empty() =~= before);
            },
        }
    }
}

/// Every finding of an analyzer that did not fail is in the outcome of a scan, where its severity
/// is not below the minimum.
pub proof fn law_every_severe_finding_comes_out(
    context: AnalysisContext,
    reports: Seq<Report>,
    min: Severity,
    findings: Vec<Finding>,
    i: int,
    j: int,
)
    requires
        0 <= i < reports.len(),
        reports[i] == Ok::<Vec<Finding>, crate::error::ScanError>(findings),
        0 <= j < findings@.len(),
        findings@[j].severity.rank() <= min.rank(),
    ensures
        triaged(raw_findings(context, reports), min).contains(findings@[j]@),
{
    law_every_reported_finding_is_collected(reports, findings, i, j);
    crate::scanner::law_no_severe_finding_is_lost(context, reports, min, findings@[j]@);
}

/// The outcome of a scan keeps the findings of one severity, those of the analyzers and the audit
/// behind them, in the order in which they came.
pub proof fn law_order_within_a_severity(
    findings: Seq<FindingView>,
    min: Severity,
    severity: Severity,
)
    requires
        severity.rank() <= min.rank(),
    ensures
        triaged(findings, min).filter(|f: FindingView| f.severity == severity) == findings.filter(
            |f: FindingView| f.severity == severity,
        ),
{
    law_triage_is_stable(findings, min, severity);
}

// ---------------------------------------------------------------------------------------
// The audit
// ---------------------------------------------------------------------------------------

/// The findings of a scan before triage: those of the analyzers, and behind them the audit where
/// deobfuscation changed the PKGBUILD or the install script.
pub proof fn law_audit_comes_last(context: AnalysisContext, reports: Seq<Report>)
    ensures
        context.deobfuscated_pkgbuild_content is Some
            || context.deobfuscated_install_content is Some ==> raw_findings(context, reports)
            == all_reported(reports).push(deobfuscation_audit(context)),
        context.deobfuscated_pkgbuild_content is None
            && context.deobfuscated_install_content is None ==> raw_findings(context, reports)
            == all_reported(reports),
        was_deobfuscated(context) <==> context.deobfuscated_pkgbuild_content is Some
            || context.deobfuscated_install_content is Some,
{
}

/// What the audit says.
pub proof fn law_audit_text(context: AnalysisContext)
    ensures
        ({
            let a = deobfuscation_audit(context);
            let first = "ansi-c-quote-flatten-normalize-variable-expansion"@;
            let second = "variable-tracking"@;
            let names = if context.resolved_variables@.dom().len() > 0 {
                seq![first, second]
            } else {
                seq![first]
            };
            let listed = if context.resolved_variables@.dom().len() > 0 {
                first + ", "@ + second
            } else {
                first
            };
            &&& a.id == "DEEP-003"@
            &&& a.severity == Severity::Low
            &&& a.category == Category::Obfuscation
            &&& a.title == "Deobfuscation applied during scan"@
            &&& a.description == "Shell deobfuscation techniques were applied: "@ + listed
                + ". The deobfuscated text was re-scanned for hidden commands. Any findings with 'deobfuscated: true' in their metadata were detected only after deobfuscation."@
            &&& a.location.file == context.file_path@
            &&& a.location.line is None
            &&& a.location.column is None
            &&& a.location.snippet is None
            &&& a.recommendation
                == "Review deobfuscated findings carefully; they indicate deliberate evasion."@
            &&& a.cwe_id is None
            &&& a.metadata == seq![("techniques"@, ValueView::List(names))]
        }),
{
    let first = "ansi-c-quote-flatten-normalize-variable-expansion"@;
    let second = "variable-tracking"@;
    crate::laws::text::law_joining(seq![first], second, ", "@);
    assert(seq![first].push(second) =~= seq![first, second]);
}

/// The analyzers of a scanner and the order in which they run.
pub proof fn law_analyzers_in_order()
    ensures
        standard_analyzers().len() == 7,
        standard_analyzers()[0] == AnalyzerKind::Pattern,
        standard_analyzers()[1] == AnalyzerKind::Ioc,
        standard_analyzers()[2] == AnalyzerKind::Deep,
        standard_analyzers()[3] == AnalyzerKind::RemoteExec,
        standard_analyzers()[4] == AnalyzerKind::Source,
        standard_analyzers()[5] == AnalyzerKind::Checksum,
        standard_analyzers()[6] == AnalyzerKind::Privilege,
{
}

// ---------------------------------------------------------------------------------------
// Indicators
// ---------------------------------------------------------------------------------------

/// There is one finding for each hit, in order, and it tells where the hit is and what was found.
pub proof fn law_every_hit_is_reported(
    campaigns: Map<Seq<char>, Seq<char>>,
    scanned: Seq<char>,
    file: Seq<char>,
    hits: Seq<IocHit>,
)
    ensures
        hit_findings(campaigns, scanned, file, hits).len() == hits.len(),
        forall|i: int|
            0 <= i < hits.len() ==> {
                let f = #[trigger] hit_findings(campaigns, scanned, file, hits)[i];
                &&& f == hit_finding(campaigns, scanned, file, hits[i])
                &&& f.id == "IOC-001"@
                &&& f.severity == Severity::Critical
                &&& f.category == Category::MaliciousCode
                &&& f.location.file == file
                &&& f.location.line == Some(hits[i].line)
                &&& f.title == "Known IOC: "@ + (hits[i].kind_label@ + " '"@ + hits[i].value@
                    + "'"@)
                &&& f.metadata[1] == ("ioc_value"@, ValueView::Text(hits[i].value@))
            },
{
}

/// What the finding about a hit says.
pub proof fn law_hit_text(
    campaigns: Map<Seq<char>, Seq<char>>,
    scanned: Seq<char>,
    file: Seq<char>,
    hit: IocHit,
)
    ensures
        ({
            let f = hit_finding(campaigns, scanned, file, hit);
            let named = hit.kind_label@ + " '"@ + hit.value@ + "'"@;
            let begun = "Content matches a known indicator of compromise: "@ + named;
            &&& f.location.column is None
            &&& f.location.snippet is None
            &&& f.cwe_id == Some("CWE-506"@)
            &&& f.recommendation
                == "Do NOT build. This matches a known-malicious indicator; treat the host as compromised if already built and rotate credentials."@
            &&& f.metadata.len() == 4
            &&& f.metadata[0] == ("ioc_kind"@, ValueView::Text(hit.kind_name@))
            &&& f.metadata[2].0 == "campaign"@
            &&& f.metadata[3] == ("context"@, ValueView::Text(scanned))
            &&& hit.campaign matches Some(id) ==> {
                &&& f.metadata[2].1 == ValueView::Text(id@)
                &&& campaigns.contains_key(id@) ==> f.description == begun + (" (campaign: "@
                    + campaigns[id@] + ")"@) + "."@
                &&& !campaigns.contains_key(id@) ==> f.description == begun + "."@
            }
            &&& hit.campaign is None ==> f.metadata[2].1 == ValueView::Null && f.description
                == begun + "."@
        }),
{
    let f = hit_finding(campaigns, scanned, file, hit);
    let named = hit.kind_label@ + " '"@ + hit.value@ + "'"@;
    let begun = "Content matches a known indicator of compromise: "@ + named;
    assert(begun + Seq::<char>::empty() =~= begun);
}

} // verus!
