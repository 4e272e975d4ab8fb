//! Laws on views: nothing that a value says is left out of its view.

use crate::aur::AurPackageInfo;
use crate::error::{IoError, ScanError, ScanErrorView};
use crate::provenance::Snapshot;
use crate::threat_intel::IocDatabase;
use crate::types::{finding_views, Finding, Severity, Value, ValueView};
use vstd::prelude::*;

verus! {

/// The view of a finding tells each of its parts.
pub proof fn law_findings_tell_everything(f: Finding)
    ensures
        f@.id == f.id@,
        f@.severity == f.severity,
        f@.category == f.category,
        f@.title == f.title@,
        f@.description == f.description@,
        f@.recommendation == f.recommendation@,
        f@.location.file == f.location.file@,
        f@.location.line == f.location.line,
        f@.location.column == f.location.column,
        f.location.snippet matches Some(s) ==> f@.location.snippet == Some(s@),
        f.location.snippet is None ==> f@.location.snippet is None,
        f.cwe_id matches Some(s) ==> f@.cwe_id == Some(s@),
        f.cwe_id is None ==> f@.cwe_id is None,
        f@.metadata.len() == f.metadata@.len(),
        forall|i: int|
            0 <= i < f.metadata@.len() ==> {
                &&& (#[trigger] f@.metadata[i]).0 == f.metadata@[i].key@
                &&& f@.metadata[i].1 == f.metadata@[i].value@
            },
{
}

/// The view of a metadata value tells its text, or each text of its list.
pub proof fn law_values_tell_everything(text: String, list: Vec<String>)
    ensures
        Value::Null@ == ValueView::Null,
        Value::Text(text)@ == ValueView::Text(text@),
        Value::List(list)@ matches ValueView::List(l) && l.len() == list@.len() && forall|i: int|
            0 <= i < list@.len() ==> #[trigger] l[i] == list@[i]@,
{
}

/// The views of findings are those of each one, in order.
pub proof fn law_finding_views(findings: Seq<Finding>)
    ensures
        finding_views(findings).len() == findings.len(),
        forall|i: int|
            0 <= i < findings.len() ==> #[trigger] finding_views(findings)[i] == findings[i]@,
{
}

/// The severities stand in this order, the most severe first.
pub proof fn law_order_of_severities(a: Severity, b: Severity)
    ensures
        Severity::Critical.rank() < Severity::High.rank(),
        Severity::High.rank() < Severity::Medium.rank(),
        Severity::Medium.rank() < Severity::Low.rank(),
        Severity::Low.rank() < Severity::Info.rank(),
        a.rank() == b.rank() ==> a == b,
{
}

/// The view of an error tells its kind and its message.
pub proof fn law_errors_tell_everything(io: IoError, message: String)
    ensures
        ScanError::Io(io)@ == ScanErrorView::Io(io.kind, io.message@),
        ScanError::Network(message)@ == ScanErrorView::Network(message@),
        ScanError::NotFound(message)@ == ScanErrorView::NotFound(message@),
        ScanError::Config(message)@ == ScanErrorView::Config(message@),
{
}

/// The view of a package tells each of its parts.
pub proof fn law_packages_tell_everything(p: AurPackageInfo)
    ensures
        p@.name == p.name@,
        p@.version == p.version@,
        p@.package_base == p.package_base@,
        p@.num_votes == p.num_votes,
        p@.popularity_bits == p.popularity_bits,
        p@.out_of_date == p.out_of_date,
        p@.first_submitted == p.first_submitted,
        p@.last_modified == p.last_modified,
        p.description matches Some(s) ==> p@.description == Some(s@),
        p.description is None ==> p@.description is None,
        p.maintainer matches Some(s) ==> p@.maintainer == Some(s@),
        p.maintainer is None ==> p@.maintainer is None,
        p@.depends == p.depends@.map_values(|s: String| s@),
        p@.make_depends == p.make_depends@.map_values(|s: String| s@),
        p@.check_depends == p.check_depends@.map_values(|s: String| s@),
        p@.opt_depends == p.opt_depends@.map_values(|s: String| s@),
        p@.provides == p.provides@.map_values(|s: String| s@),
{
}

/// The view of a snapshot tells each of its parts.
pub proof fn law_snapshots_tell_everything(s: Snapshot)
    ensures
        s@.content_sha256 == s.content_sha256@,
        s@.markers == s.markers@.map_values(|m: String| m@),
        s@.last_seen == s.last_seen@,
        s.maintainer matches Some(m) ==> s@.maintainer == Some(m@),
        s.maintainer is None ==> s@.maintainer is None,
{
}

/// The view of a database names every campaign.
pub proof fn law_databases_tell_everything(db: IocDatabase, id: Seq<char>)
    ensures
        db@.contains_key(id) <==> db.campaigns@.contains_key(id),
        db@.contains_key(id) ==> db@[id] == db.campaigns@[id]@,
{
}

} // verus!
