//! What becomes of the findings of a scan: those of all analyzers in a row, the ones that are
//! severe enough, the most severe first.

use crate::error::ScanError;
use crate::laws::findings::{
    law_every_reported_finding_is_collected, law_number_of_collected_findings, total_reported,
};
use crate::types::{finding_views, Finding, FindingView, Severity};
use vstd::prelude::*;

verus! {

// ---------------------------------------------------------------------------------------
// Collecting
// ---------------------------------------------------------------------------------------

/// What one analyzer reports.
pub type Report = Result<Vec<Finding>, ScanError>;

/// The findings of a report; a failed analyzer has none.
pub open spec fn reported(report: Report) -> Seq<FindingView> {
    match report {
        Ok(findings) => finding_views(findings@),
        Err(_) => seq![],
    }
}

/// The findings of all reports, in the order of the reports.
pub open spec fn all_reported(reports: Seq<Report>) -> Seq<FindingView>
    decreases reports.len(),
{
    if reports.len() == 0 {
        seq![]
    } else {
        reported(reports[0]) + all_reported(reports.drop_first())
    }
}

/// The findings of all analyzers, in the order of the analyzers; a failed analyzer adds none and
/// stops none.
pub fn collect_findings(reports: Vec<Report>) -> (r: Vec<Finding>)
    ensures
        finding_views(r@) == all_reported(reports@),
        r@.len() == total_reported(reports@),
        forall|i: int, j: int|
            #![trigger reports@[i]->Ok_0@[j]]
            0 <= i < reports@.len() && reports@[i] is Ok && 0 <= j < reports@[i]->Ok_0@.len()
                ==> finding_views(r@).contains(reports@[i]->Ok_0@[j]@),
{
    let mut left: Vec<Report> = reports;
    let mut findings: Vec<Finding> = Vec::new();
    proof {
        assert(reports@.skip(reports@.len() as int) =~= seq![]);
        assert(finding_views(findings@) =~= seq![]);
    }
    // From the last report back: each one goes in front of what is there.
    while left.len() > 0
        invariant
            left@.len() <= reports@.len(),
            left@ == reports@.take(left@.len() as int),
            finding_views(findings@) == all_reported(reports@.skip(left@.len() as int)),
        decreases left@.len(),
    {
        let ghost n = left@.len() as int;
        proof {
            assert(left@.last() == reports@[n - 1]);
            assert(reports@.skip(n - 1)[0] == reports@[n - 1]);
            assert(reports@.skip(n - 1).drop_first() =~= reports@.skip(n));
            assert(left@.drop_last() =~= reports@.take(n - 1));
        }
        match left.pop() {
            Some(Ok(mut front)) => {
                proof {
                    assert(finding_views(front@ + findings@) =~= finding_views(front@)
                        + finding_views(findings@));
                }
                front.append(&mut findings);
                findings = front;
            },
            Some(Err(_)) => {
                proof {
                    assert(seq![] + finding_views(findings@) =~= finding_views(findings@));
                }
            },
            None => {},
        }
    }
    proof {
        assert(reports@.skip(0) =~= reports@);
        law_number_of_collected_findings(reports@);
        assert forall|i: int, j: int|
            #![trigger reports@[i]->Ok_0@[j]]
            0 <= i < reports@.len() && reports@[i] is Ok && 0 <= j
                < reports@[i]->Ok_0@.len() implies finding_views(findings@).contains(
            reports@[i]->Ok_0@[j]@,
        ) by {
            law_every_reported_finding_is_collected(reports@, reports@[i]->Ok_0, i, j);
        }
    }
    findings
}

// ---------------------------------------------------------------------------------------
// Triage
// ---------------------------------------------------------------------------------------

/// The findings of a severity, in order.
pub open spec fn of_severity(findings: Seq<FindingView>, severity: Severity) -> Seq<FindingView> {
    findings.filter(|f: FindingView| f.severity == severity)
}

/// The findings of a severity, in order, where it is at least the minimum.
pub open spec fn kept_of(
    findings: Seq<FindingView>,
    min: Severity,
    severity: Severity,
) -> Seq<FindingView> {
    if severity.rank() <= min.rank() {
        of_severity(findings, severity)
    } else {
        seq![]
    }
}

/// The findings that are severe enough, the most severe first, and those of one severity in the
/// order in which they came.
pub open spec fn triaged(findings: Seq<FindingView>, min: Severity) -> Seq<FindingView> {
    kept_of(findings, min, Severity::Critical) + kept_of(findings, min, Severity::High) + kept_of(
        findings,
        min,
        Severity::Medium,
    ) + kept_of(findings, min, Severity::Low) + kept_of(findings, min, Severity::Info)
}

proof fn lemma_of_severity_in_front(
    f: FindingView,
    rest: Seq<FindingView>,
    severity: Severity,
)
    ensures
        of_severity(seq![f] + rest, severity) == (if f.severity == severity {
            seq![f] + of_severity(rest, severity)
        } else {
            of_severity(rest, severity)
        }),
{
    let p = |g: FindingView| g.severity == severity;
    Seq::filter_distributes_over_add(seq![f], rest, p);
    reveal_with_fuel(Seq::filter, 2);
    assert(seq![f].drop_last() =~= seq![]);
    assert(seq![f].filter(p) =~= (if p(f) {
        seq![f]
    } else {
        seq![]
    }));
    assert(Seq::<FindingView>::empty() + of_severity(rest, severity) =~= of_severity(
        rest,
        severity,
    ));
}

proof fn lemma_kept_of(findings: Seq<FindingView>, min: Severity, severity: Severity, i: int)
    requires
        0 <= i < kept_of(findings, min, severity).len(),
    ensures
        kept_of(findings, min, severity)[i].severity == severity,
        severity.rank() <= min.rank(),
{
    let p = |g: FindingView| g.severity == severity;
    findings.lemma_filter_pred(p, i);
}

/// How many of the kept findings are more severe than `severity`.
spec fn more_severe(findings: Seq<FindingView>, min: Severity, severity: Severity) -> int {
    let critical = kept_of(findings, min, Severity::Critical).len() as int;
    let high = kept_of(findings, min, Severity::High).len();
    let medium = kept_of(findings, min, Severity::Medium).len();
    let low = kept_of(findings, min, Severity::Low).len();
    match severity {
        Severity::Critical => 0,
        Severity::High => critical,
        Severity::Medium => critical + high,
        Severity::Low => critical + high + medium,
        Severity::Info => critical + high + medium + low,
    }
}

/// Where a finding stands in the order tells whether it is more severe than `severity`.
proof fn lemma_place(findings: Seq<FindingView>, min: Severity, severity: Severity, i: int)
    requires
        0 <= i < triaged(findings, min).len(),
    ensures
        triaged(findings, min)[i].severity.rank() < severity.rank() <==> i < more_severe(
            findings,
            min,
            severity,
        ),
        triaged(findings, min)[i].severity.rank() <= min.rank(),
{
    let critical = kept_of(findings, min, Severity::Critical);
    let high = kept_of(findings, min, Severity::High);
    let medium = kept_of(findings, min, Severity::Medium);
    let low = kept_of(findings, min, Severity::Low);
    let info = kept_of(findings, min, Severity::Info);
    let a = critical.len() as int;
    let b = a + high.len();
    let c = b + medium.len();
    let d = c + low.len();
    if i < a {
        lemma_kept_of(findings, min, Severity::Critical, i);
    } else if i < b {
        lemma_kept_of(findings, min, Severity::High, i - a);
    } else if i < c {
        lemma_kept_of(findings, min, Severity::Medium, i - b);
    } else if i < d {
        lemma_kept_of(findings, min, Severity::Low, i - c);
    } else {
        lemma_kept_of(findings, min, Severity::Info, i - d);
    }
}

/// A finding that comes before all others goes in front of those of its severity.
proof fn lemma_triaged_in_front(f: FindingView, rest: Seq<FindingView>, min: Severity)
    ensures
        triaged(seq![f] + rest, min) == (if f.severity.rank() <= min.rank() {
            triaged(rest, min).insert(more_severe(rest, min, f.severity), f)
        } else {
            triaged(rest, min)
        }),
{
    lemma_of_severity_in_front(f, rest, Severity::Critical);
    lemma_of_severity_in_front(f, rest, Severity::High);
    lemma_of_severity_in_front(f, rest, Severity::Medium);
    lemma_of_severity_in_front(f, rest, Severity::Low);
    lemma_of_severity_in_front(f, rest, Severity::Info);
    let a = kept_of(rest, min, Severity::Critical);
    let b = kept_of(rest, min, Severity::High);
    let c = kept_of(rest, min, Severity::Medium);
    let d = kept_of(rest, min, Severity::Low);
    let e = kept_of(rest, min, Severity::Info);
    if f.severity.rank() <= min.rank() {
        lemma_row_insert(a, b, c, d, e, f);
    }
}

/// Putting an element in front of one of five sequences in a row.
proof fn lemma_row_insert<A>(a: Seq<A>, b: Seq<A>, c: Seq<A>, d: Seq<A>, e: Seq<A>, x: A)
    ensures
        (seq![x] + a) + b + c + d + e == (a + b + c + d + e).insert(0, x),
        a + (seq![x] + b) + c + d + e == (a + b + c + d + e).insert(a.len() as int, x),
        a + b + (seq![x] + c) + d + e == (a + b + c + d + e).insert(
            (a.len() + b.len()) as int,
            x,
        ),
        a + b + c + (seq![x] + d) + e == (a + b + c + d + e).insert(
            (a.len() + b.len() + c.len()) as int,
            x,
        ),
        a + b + c + d + (seq![x] + e) == (a + b + c + d + e).insert(
            (a.len() + b.len() + c.len() + d.len()) as int,
            x,
        ),
{
    let row = a + b + c + d + e;
    assert((seq![x] + a) + b + c + d + e =~= row.insert(0, x));
    assert(a + (seq![x] + b) + c + d + e =~= row.insert(a.len() as int, x));
    assert(a + b + (seq![x] + c) + d + e =~= row.insert((a.len() + b.len()) as int, x));
    assert(a + b + c + (seq![x] + d) + e =~= row.insert((a.len() + b.len() + c.len()) as int, x));
    assert(a + b + c + d + (seq![x] + e) =~= row.insert(
        (a.len() + b.len() + c.len() + d.len()) as int,
        x,
    ));
}

/// Keeps the findings that are severe enough, and sorts them: critical first, and those of one
/// severity in the order in which they came.
pub fn triage(findings: Vec<Finding>, min: Severity) -> (r: Vec<Finding>)
    ensures
        finding_views(r@) == triaged(finding_views(findings@), min),
{
    let mut left: Vec<Finding> = findings;
    let mut out: Vec<Finding> = Vec::new();
    let ghost all = finding_views(findings@);
    proof {
        reveal(Seq::filter);
        assert(all.skip(all.len() as int) =~= seq![]);
        assert(finding_views(out@) =~= triaged(seq![], min));
    }
    // From the last finding back: each one goes in front of those of its severity.
    while left.len() > 0
        invariant
            all == finding_views(findings@),
            left@.len() <= findings@.len(),
            left@ == findings@.take(left@.len() as int),
            finding_views(out@) == triaged(all.skip(left@.len() as int), min),
        decreases left@.len(),
    {
        let ghost n = left@.len() as int;
        let ghost rest = all.skip(n);
        proof {
            assert(left@.last() == findings@[n - 1]);
            assert(left@.drop_last() =~= findings@.take(n - 1));
            assert(all.skip(n - 1) =~= seq![all[n - 1]] + rest);
            lemma_triaged_in_front(all[n - 1], rest, min);
        }
        match left.pop() {
            Some(f) => {
                if f.severity.rank_of() <= min.rank_of() {
                    let total: usize = out.len();
                    let mut at: usize = 0;
                    while at < total && out[at].severity.rank_of() < f.severity.rank_of()
                        invariant
                            total == out@.len(),
                            at <= total,
                            finding_views(out@) == triaged(rest, min),
                            at <= more_severe(rest, min, f.severity),
                        decreases total - at,
                    {
                        proof {
                            assert(finding_views(out@)[at as int].severity
                                == out@[at as int].severity);
                            lemma_place(rest, min, f.severity, at as int);
                        }
                        at += 1;
                    }
                    proof {
                        assert(more_severe(rest, min, f.severity) <= triaged(rest, min).len());
                        if at < more_severe(rest, min, f.severity) {
                            assert(finding_views(out@)[at as int].severity
                                == out@[at as int].severity);
                            lemma_place(rest, min, f.severity, at as int);
                        }
                        assert(finding_views(out@.insert(at as int, f)) =~= finding_views(
                            out@,
                        ).insert(at as int, f@));
                    }
                    out.insert(at, f);
                }
            },
            None => {},
        }
    }
    proof {
        assert(all.skip(0) =~= all);
    }
    out
}

// ---------------------------------------------------------------------------------------
// Laws
// ---------------------------------------------------------------------------------------

/// The findings come out sorted by severity, the most severe first.
pub proof fn law_triage_sorts(findings: Seq<FindingView>, min: Severity, i: int, j: int)
    requires
        0 <= i <= j < triaged(findings, min).len(),
    ensures
        triaged(findings, min)[i].severity.rank() <= triaged(findings, min)[j].severity.rank(),
{
    let severity = triaged(findings, min)[i].severity;
    lemma_place(findings, min, severity, i);
    lemma_place(findings, min, severity, j);
}

/// No finding below the minimum comes out.
pub proof fn law_triage_drops_minor(findings: Seq<FindingView>, min: Severity, i: int)
    requires
        0 <= i < triaged(findings, min).len(),
    ensures
        triaged(findings, min)[i].severity.rank() <= min.rank(),
{
    lemma_place(findings, min, Severity::Info, i);
}

/// Nothing severe enough is lost and nothing is added: what comes out is what went in without
/// the findings below the minimum, in another order.
pub proof fn law_triage_keeps_the_rest(findings: Seq<FindingView>, min: Severity)
    ensures
        triaged(findings, min).to_multiset() == findings.filter(
            |f: FindingView| f.severity.rank() <= min.rank(),
        ).to_multiset(),
    decreases findings.len(),
{
    let p = |f: FindingView| f.severity.rank() <= min.rank();
    reveal_with_fuel(Seq::filter, 2);
    if findings.len() == 0 {
        assert(triaged(findings, min) =~= seq![]);
        assert(findings.filter(p) =~= seq![]);
    } else {
        let f = findings[0];
        let rest = findings.drop_first();
        law_triage_keeps_the_rest(rest, min);
        assert(findings =~= seq![f] + rest);
        lemma_triaged_in_front(f, rest, min);
        Seq::filter_distributes_over_add(seq![f], rest, p);
        assert(seq![f].drop_last() =~= seq![]);
        let kept = rest.filter(p);
        if p(f) {
            let at = more_severe(rest, min, f.severity);
            vstd::seq_lib::to_multiset_insert(triaged(rest, min), at, f);
            assert(seq![f].filter(p) =~= seq![f]);
            assert(seq![f] + kept =~= kept.insert(0, f));
            vstd::seq_lib::to_multiset_insert(kept, 0, f);
        } else {
            assert(seq![f].filter(p) =~= seq![]);
            assert(Seq::<FindingView>::empty() + kept =~= kept);
        }
    }
}

/// A finding that is severe enough comes out.
pub proof fn law_triage_keeps_severe(findings: Seq<FindingView>, min: Severity, f: FindingView)
    requires
        findings.contains(f),
        f.severity.rank() <= min.rank(),
    ensures
        triaged(findings, min).contains(f),
{
    let p = |g: FindingView| g.severity == f.severity;
    let out = triaged(findings, min);
    law_triage_is_stable(findings, min, f.severity);
    let i = choose|i: int| 0 <= i < findings.len() && findings[i] == f;
    findings.lemma_filter_contains(p, i);
    out.lemma_filter_contains_rev(p, f);
}

/// Only findings that went in come out.
pub proof fn law_triage_adds_nothing(findings: Seq<FindingView>, min: Severity, f: FindingView)
    requires
        triaged(findings, min).contains(f),
    ensures
        findings.contains(f),
{
    let p = |g: FindingView| g.severity == f.severity;
    let out = triaged(findings, min);
    let i = choose|i: int| 0 <= i < out.len() && out[i] == f;
    law_triage_drops_minor(findings, min, i);
    law_triage_is_stable(findings, min, f.severity);
    out.lemma_filter_contains(p, i);
    findings.lemma_filter_contains_rev(p, f);
}

/// The sort is stable: the findings of one severity stay in the order in which they came.
pub proof fn law_triage_is_stable(findings: Seq<FindingView>, min: Severity, severity: Severity)
    requires
        severity.rank() <= min.rank(),
    ensures
        of_severity(triaged(findings, min), severity) == of_severity(findings, severity),
{
    let critical = kept_of(findings, min, Severity::Critical);
    let high = kept_of(findings, min, Severity::High);
    let medium = kept_of(findings, min, Severity::Medium);
    let low = kept_of(findings, min, Severity::Low);
    let info = kept_of(findings, min, Severity::Info);
    let p = |f: FindingView| f.severity == severity;
    Seq::filter_distributes_over_add(critical + high + medium + low, info, p);
    Seq::filter_distributes_over_add(critical + high + medium, low, p);
    Seq::filter_distributes_over_add(critical + high, medium, p);
    Seq::filter_distributes_over_add(critical, high, p);
    lemma_refilter(findings, min, Severity::Critical, severity);
    lemma_refilter(findings, min, Severity::High, severity);
    lemma_refilter(findings, min, Severity::Medium, severity);
    lemma_refilter(findings, min, Severity::Low, severity);
    lemma_refilter(findings, min, Severity::Info, severity);
    assert(of_severity(triaged(findings, min), severity) =~= of_severity(findings, severity));
}

proof fn lemma_refilter(
    findings: Seq<FindingView>,
    min: Severity,
    kept: Severity,
    severity: Severity,
)
    ensures
        of_severity(kept_of(findings, min, kept), severity) == (if kept == severity {
            kept_of(findings, min, kept)
        } else {
            seq![]
        }),
{
    let s = kept_of(findings, min, kept);
    assert forall|i: int| 0 <= i < s.len() implies s[i].severity == kept by {
        lemma_kept_of(findings, min, kept, i);
    }
    lemma_filter_uniform(s, kept, severity);
}

proof fn lemma_filter_uniform(s: Seq<FindingView>, all: Severity, severity: Severity)
    requires
        forall|i: int| 0 <= i < s.len() ==> (#[trigger] s[i]).severity == all,
    ensures
        of_severity(s, severity) == (if all == severity {
            s
        } else {
            seq![]
        }),
    decreases s.len(),
{
    reveal(Seq::filter);
    if s.len() == 0 {
        assert(s =~= seq![]);
    } else {
        assert forall|i: int| 0 <= i < s.drop_last().len() implies (
        #[trigger] s.drop_last()[i]).severity == all by {
            assert(s.drop_last()[i] == s[i]);
        }
        lemma_filter_uniform(s.drop_last(), all, severity);
        assert(s.last() == s[s.len() - 1]);
        assert(s.drop_last().push(s.last()) =~= s);
    }
}

/// A failed analyzer neither adds findings nor takes any away.
pub proof fn law_failures_add_nothing(
    before: Seq<Report>,
    failure: Report,
    behind: Seq<Report>,
)
    requires
        failure is Err,
    ensures
        all_reported(before + seq![failure] + behind) == all_reported(before + behind),
    decreases before.len(),
{
    let with = before + seq![failure] + behind;
    if before.len() == 0 {
        assert(with.drop_first() =~= before + behind);
        assert(all_reported(with) =~= all_reported(before + behind));
    } else {
        let rest = before.drop_first();
        law_failures_add_nothing(rest, failure, behind);
        assert(with.drop_first() =~= rest + seq![failure] + behind);
        assert((before + behind).drop_first() =~= rest + behind);
    }
}

} // verus!
