//! Laws on provenance: which texts are risky, and what becomes of a package that gains one.

use crate::laws::text::law_containing;
use crate::provenance::{
    added_markers, after_sighting, gained_finding, hijack_finding, label_of, labels_text,
    law_marker_ids_complete, law_marker_ids_sorted, lemma_id_unique, marker_ids, markers, opt_str,
    saved_snapshots, sighting_findings, text_before, Marker, SnapshotView, StoreView,
};
use crate::types::{Category, Severity, ValueView};
use vstd::prelude::*;

verus! {

// ---------------------------------------------------------------------------------------
// Markers
// ---------------------------------------------------------------------------------------

/// Whether `needle` stands somewhere in `text`.
pub open spec fn stands_in(needle: Seq<char>, text: Seq<char>) -> bool {
    exists|a: Seq<char>, b: Seq<char>| text == #[trigger] (a + needle + b)
}

/// The texts that signal each marker, one by one.
pub proof fn law_texts_of_markers(text: Seq<char>)
    ensures
        Marker::Npm.shows_in(text) <==> stands_in("npm install"@, text) || stands_in(
            "npm i "@,
            text,
        ) || stands_in("npm ci"@, text),
        Marker::Pnpm.shows_in(text) <==> stands_in("pnpm install"@, text) || stands_in(
            "pnpm add"@,
            text,
        ),
        Marker::Yarn.shows_in(text) <==> stands_in("yarn add"@, text) || stands_in(
            "yarn install"@,
            text,
        ),
        Marker::Bun.shows_in(text) <==> stands_in("bun install"@, text) || stands_in(
            "bun add"@,
            text,
        ) || stands_in("bunx"@, text),
        Marker::PipeShell.shows_in(text) <==> stands_in("| sh"@, text) || stands_in("|sh"@, text)
            || stands_in("| bash"@, text) || stands_in("|bash"@, text),
        Marker::Eval.shows_in(text) <==> stands_in("eval "@, text),
        Marker::Base64Decode.shows_in(text) <==> stands_in("base64 -d"@, text) || stands_in(
            "base64 --decode"@,
            text,
        ),
        Marker::ReverseShell.shows_in(text) <==> stands_in("/dev/tcp/"@, text),
        Marker::Ebpf.shows_in(text) <==> stands_in(".bpf.c"@, text) || stands_in(".bpf.o"@, text),
        Marker::CurlNet.shows_in(text) <==> stands_in("curl "@, text) || stands_in("wget "@, text),
{
    lemma_needles(Marker::Npm, text);
    lemma_needles(Marker::Pnpm, text);
    lemma_needles(Marker::Yarn, text);
    lemma_needles(Marker::Bun, text);
    lemma_needles(Marker::PipeShell, text);
    lemma_needles(Marker::Eval, text);
    lemma_needles(Marker::Base64Decode, text);
    lemma_needles(Marker::ReverseShell, text);
    lemma_needles(Marker::Ebpf, text);
    lemma_needles(Marker::CurlNet, text);
}

proof fn lemma_needles(m: Marker, text: Seq<char>)
    ensures
        m.needles().len() <= 4,
        m.shows_in(text) <==> {
            ||| m.needles().len() > 0 && stands_in(m.needles()[0], text)
            ||| m.needles().len() > 1 && stands_in(m.needles()[1], text)
            ||| m.needles().len() > 2 && stands_in(m.needles()[2], text)
            ||| m.needles().len() > 3 && stands_in(m.needles()[3], text)
        },
{
    let needles = m.needles();
    assert forall|i: int| 0 <= i < needles.len() implies crate::text::contains_text(
        text,
        #[trigger] needles[i],
    ) == stands_in(needles[i], text) by {
        law_containing(text, needles[i]);
    }
}

/// The ids of the markers and what they are called.
pub proof fn law_ids_and_labels()
    ensures
        Marker::Npm.id() == "npm"@ && Marker::Npm.label() == "npm package install"@,
        Marker::Pnpm.id() == "pnpm"@ && Marker::Pnpm.label() == "pnpm install"@,
        Marker::Yarn.id() == "yarn"@ && Marker::Yarn.label() == "yarn install"@,
        Marker::Bun.id() == "bun"@ && Marker::Bun.label() == "bun install"@,
        Marker::PipeShell.id() == "pipe-shell"@ && Marker::PipeShell.label() == "pipe to shell"@,
        Marker::Eval.id() == "eval"@ && Marker::Eval.label() == "eval"@,
        Marker::Base64Decode.id() == "base64-decode"@ && Marker::Base64Decode.label()
            == "base64 decode"@,
        Marker::ReverseShell.id() == "reverse-shell"@ && Marker::ReverseShell.label()
            == "raw TCP socket"@,
        Marker::Ebpf.id() == "ebpf"@ && Marker::Ebpf.label() == "eBPF object"@,
        Marker::CurlNet.id() == "curl-net"@ && Marker::CurlNet.label() == "curl/wget fetch"@,
{
}

/// A marker is called by its label, and what is no marker is risky behavior.
pub proof fn law_label_of_an_id(m: Marker, id: Seq<char>)
    ensures
        label_of(m.id()) == m.label(),
        (forall|k: Marker| #[trigger] k.id() != id) ==> label_of(id) == "risky behavior"@,
{
    let c = choose|c: Marker| #[trigger] c.id() == m.id();
    lemma_id_unique(m, c);
}

/// Only ids of markers are reported.
pub proof fn law_only_markers_are_reported(text: Seq<char>, i: int)
    requires
        0 <= i < marker_ids(text).len(),
    ensures
        exists|m: Marker| #[trigger] m.id() == marker_ids(text)[i] && m.shows_in(text),
{
    let p = |m: Marker| m.shows_in(text);
    markers().lemma_filter_pred(p, i);
    let m = markers().filter(p)[i];
    assert(m.id() == marker_ids(text)[i]);
}

/// The ids come in the order of texts, each one once.
pub proof fn law_order_of_reported_markers(text: Seq<char>, i: int, j: int)
    requires
        0 <= i < j < marker_ids(text).len(),
    ensures
        text_before(marker_ids(text)[i], marker_ids(text)[j]),
        marker_ids(text)[i] != marker_ids(text)[j],
{
    law_marker_ids_sorted(text);
}

/// What an optional text holds is the text itself, where there is one.
pub proof fn law_optional_texts(t: &str)
    ensures
        opt_str(Some(t)) == Some(t@),
        opt_str(None) is None,
{
}

/// Whether `a` and `b` first differ at `k`, and `a` comes first there.
pub open spec fn differs_first_at(a: Seq<char>, b: Seq<char>, k: int) -> bool {
    &&& 0 <= k <= a.len()
    &&& k < b.len()
    &&& a.take(k) == b.take(k)
    &&& k == a.len() || a[k] < b[k]
}

/// The order of texts is that of a dictionary.
pub proof fn law_text_order(a: Seq<char>, b: Seq<char>)
    ensures
        text_before(a, b) <==> exists|k: int| differs_first_at(a, b, k),
    decreases a.len(),
{
    if a.len() > 0 && b.len() > 0 && a[0] == b[0] {
        let x = a.skip(1);
        let y = b.skip(1);
        law_text_order(x, y);
        if text_before(x, y) {
            let k = choose|k: int| differs_first_at(x, y, k);
            assert(a.take(k + 1) =~= seq![a[0]] + x.take(k));
            assert(b.take(k + 1) =~= seq![b[0]] + y.take(k));
            assert(differs_first_at(a, b, k + 1));
        }
        if exists|k: int| differs_first_at(a, b, k) {
            let k = choose|k: int| differs_first_at(a, b, k);
            if k > 0 {
                assert(x.take(k - 1) =~= a.take(k).skip(1));
                assert(y.take(k - 1) =~= b.take(k).skip(1));
                assert(differs_first_at(x, y, k - 1));
            }
        }
    } else {
        if exists|k: int| differs_first_at(a, b, k) {
            let k = choose|k: int| differs_first_at(a, b, k);
            if k > 0 {
                assert(a.take(k)[0] == b.take(k)[0]);
            }
        }
        if text_before(a, b) {
            assert(a.take(0) =~= b.take(0));
            assert(differs_first_at(a, b, 0));
        }
    }
}

// ---------------------------------------------------------------------------------------
// Updates
// ---------------------------------------------------------------------------------------

/// The added markers are those of the current ones, in order, that are not among the previous.
pub proof fn law_added_markers(current: Seq<Seq<char>>, previous: Seq<Seq<char>>, id: Seq<char>)
    ensures
        added_markers(current, previous) == current.filter(|m: Seq<char>| !previous.contains(m)),
        added_markers(current, previous).contains(id) <==> current.contains(id)
            && !previous.contains(id),
{
    let p = |m: Seq<char>| !previous.contains(m);
    let added = added_markers(current, previous);
    if added.contains(id) {
        current.lemma_filter_contains_rev(p, id);
        let i = choose|i: int| 0 <= i < added.len() && added[i] == id;
        current.lemma_filter_pred(p, i);
    }
    if current.contains(id) && !previous.contains(id) {
        let i = choose|i: int| 0 <= i < current.len() && current[i] == id;
        current.lemma_filter_contains(p, i);
    }
}

/// A package that was seen without a marker and is then seen with it is reported: the finding
/// names the marker, and is joined by another where the maintainer changed with it. This is so
/// whatever the store held before.
pub proof fn law_gained_markers_are_reported(
    store: StoreView,
    package: Seq<char>,
    before: Seq<char>,
    sha: Seq<char>,
    maintainer: Option<Seq<char>>,
    then: Seq<char>,
    after: Seq<char>,
    next_maintainer: Option<Seq<char>>,
    file: Seq<char>,
    m: Marker,
)
    requires
        !m.shows_in(before),
        m.shows_in(after),
    ensures
        ({
            let seen = after_sighting(store, package, marker_ids(before), sha, maintainer, then);
            let found = sighting_findings(seen, package, marker_ids(after), next_maintainer, file);
            let changed = match (maintainer, next_maintainer) {
                (Some(a), Some(b)) => a != b,
                _ => false,
            };
            let added = marker_ids(after).filter(|id: Seq<char>| !marker_ids(before).contains(id));
            let previous = SnapshotView {
                content_sha256: sha,
                markers: marker_ids(before),
                maintainer,
                last_seen: then,
            };
            &&& found.len() == (if changed {
                2int
            } else {
                1int
            })
            &&& found[0] == gained_finding(package, added, previous, file)
            &&& changed ==> found[1] == hijack_finding(
                package,
                added,
                maintainer->0,
                next_maintainer->0,
                file,
            )
            &&& found[0].id == "PROV-001"@
            &&& found[0].severity == Severity::High
            &&& found[0].location.file == file
            &&& found[0].metadata[0].0 == "added_markers"@
            &&& found[0].metadata[0].1 matches ValueView::List(added) && added.contains(m.id())
            &&& found[0].metadata[1] == ("previous_seen"@, ValueView::Text(then))
            &&& changed ==> found[1].id == "PROV-002"@ && found[1].severity == Severity::Critical
        }),
{
    law_marker_ids_complete(before, m);
    law_marker_ids_complete(after, m);
    law_added_markers(marker_ids(after), marker_ids(before), m.id());
    let added = added_markers(marker_ids(after), marker_ids(before));
    assert(added.len() > 0);
}

/// A package that shows no marker it did not show when it was last seen is not reported.
pub proof fn law_nothing_gained_nothing_reported(
    store: StoreView,
    package: Seq<char>,
    before: Seq<char>,
    sha: Seq<char>,
    maintainer: Option<Seq<char>>,
    then: Seq<char>,
    after: Seq<char>,
    next_maintainer: Option<Seq<char>>,
    file: Seq<char>,
)
    requires
        forall|m: Marker| #[trigger] m.shows_in(after) ==> m.shows_in(before),
    ensures
        sighting_findings(
            after_sighting(store, package, marker_ids(before), sha, maintainer, then),
            package,
            marker_ids(after),
            next_maintainer,
            file,
        ).len() == 0,
{
    let added = added_markers(marker_ids(after), marker_ids(before));
    if added.len() > 0 {
        let id = added[0];
        law_added_markers(marker_ids(after), marker_ids(before), id);
        assert(added.contains(id));
        let ids = marker_ids(after);
        let i = choose|i: int| 0 <= i < ids.len() && ids[i] == id;
        law_only_markers_are_reported(after, i);
        let m = choose|m: Marker| #[trigger] m.id() == ids[i] && m.shows_in(after);
        law_marker_ids_complete(before, m);
    }
}

/// The labels of markers stand in a row, in the order of their ids, with commas between.
pub proof fn law_labels_in_a_row(ids: Seq<Seq<char>>, id: Seq<char>)
    ensures
        labels_text(seq![]) == Seq::<char>::empty(),
        labels_text(seq![id]) == label_of(id),
        ids.len() > 0 ==> labels_text(ids.push(id)) == labels_text(ids) + ", "@ + label_of(id),
{
    let f = |id: Seq<char>| label_of(id);
    let labels = ids.map_values(f);
    assert(ids.push(id).map_values(f) =~= labels.push(label_of(id)));
    assert(seq![id].map_values(f) =~= seq![label_of(id)]);
    assert(Seq::<Seq<char>>::empty().map_values(f) =~= seq![]);
    crate::laws::text::law_joining(labels, label_of(id), ", "@);
}

/// What the findings about an update say.
pub proof fn law_update_texts(
    package: Seq<char>,
    added: Seq<Seq<char>>,
    previous: SnapshotView,
    from: Seq<char>,
    to: Seq<char>,
    file: Seq<char>,
)
    ensures
        ({
            let g = gained_finding(package, added, previous, file);
            let h = hijack_finding(package, added, from, to, file);
            &&& g.category == Category::SuspiciousMetadata
            &&& g.title == "Package gained risky behavior since last scan: "@ + labels_text(added)
            &&& g.description == "'"@ + package
                + "' introduced behavior it did not have at the previous scan ("@ + labels_text(
                added,
            )
                + "). A package suddenly fetching/executing code on update is the primary tell of an AUR hijack."@
            &&& g.recommendation
                == "Review the PKGBUILD/install diff before building. If the new behavior is unexplained, do not build and report the package."@
            &&& g.cwe_id == Some("CWE-506"@)
            &&& g.location.line is None && g.location.column is None && g.location.snippet is None
            &&& g.metadata.len() == 2
            &&& g.metadata[0] == ("added_markers"@, ValueView::List(added))
            &&& g.metadata[1] == ("previous_seen"@, ValueView::Text(previous.last_seen))
            &&& h.category == Category::SuspiciousMetadata
            &&& h.title == "Maintainer changed and package gained risky behavior: "@ + labels_text(
                added,
            )
            &&& h.description == "'"@ + package + "' changed its maintainer from '"@ + from
                + "' to '"@ + to + "' and introduced risky behavior in the same update ("@
                + labels_text(added) + ")."@
            &&& h.recommendation
                == "Do not build until the change of maintainer and the new behavior are explained."@
            &&& h.cwe_id == Some("CWE-506"@)
            &&& h.location.file == file
            &&& h.location.line is None && h.location.column is None && h.location.snippet is None
            &&& h.metadata.len() == 3
            &&& h.metadata[0] == ("added_markers"@, ValueView::List(added))
            &&& h.metadata[1] == ("previous_maintainer"@, ValueView::Text(from))
            &&& h.metadata[2] == ("current_maintainer"@, ValueView::Text(to))
        }),
{
}

/// A sighting is remembered as it was, and the store is to be saved where the content is not the
/// one seen last.
pub proof fn law_sighting_is_remembered(
    store: StoreView,
    package: Seq<char>,
    current: Seq<Seq<char>>,
    sha: Seq<char>,
    maintainer: Option<Seq<char>>,
    now: Seq<char>,
)
    ensures
        ({
            let after = after_sighting(store, package, current, sha, maintainer, now);
            let s = after.snapshots[package];
            &&& after.snapshots.dom() == store.snapshots.dom().insert(package)
            &&& s.content_sha256 == sha
            &&& s.markers == current
            &&& s.maintainer == maintainer
            &&& s.last_seen == now
            &&& after.dirty <==> store.dirty || !(store.snapshots.contains_key(package)
                && store.snapshots[package].content_sha256 == sha)
        }),
{
    let after = after_sighting(store, package, current, sha, maintainer, now);
    assert(after.snapshots.dom() =~= store.snapshots.dom().insert(package));
}

/// Of what was saved, the last snapshot of each package counts.
pub proof fn law_last_saved_snapshot_counts(
    entries: Seq<(Seq<char>, SnapshotView)>,
    package: Seq<char>,
    snapshot: SnapshotView,
)
    ensures
        saved_snapshots(Seq::empty()) == Map::<Seq<char>, SnapshotView>::empty(),
        saved_snapshots(entries.push((package, snapshot))) == saved_snapshots(entries).insert(
            package,
            snapshot,
        ),
{
    assert(entries.push((package, snapshot)).drop_last() =~= entries);
}

} // verus!
