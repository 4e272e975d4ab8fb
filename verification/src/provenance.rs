//! Provenance tracking: detect a package *gaining* risky behavior over time.
//!
//! The Atomic Arch hijacks were spotted because a package that never used Node suddenly shelled
//! out to `npm`/`bun`. Heuristic rules see each scan in isolation; provenance compares the
//! current PKGBUILD/install content against the last time this package was seen and flags
//! newly-introduced risk markers.
//!
//! State is a small store keyed by package name. The first sighting of a package establishes a
//! baseline (no finding); subsequent additions are flagged.

use crate::digest::{fingerprint, sha256_hex};
use crate::table::Table;
use crate::text::{
    chars_of, contains_text, copy_texts, join_texts, joined, opt_text, same_text, text_contains,
    texts, unicode_lowercase,
};
use crate::types::{
    finding_views, Category, Entry, Finding, FindingView, Location, LocationView, Severity, Value,
    ValueView,
};
use vstd::prelude::*;

verus! {

// ---------------------------------------------------------------------------------------
// Markers
// ---------------------------------------------------------------------------------------

/// Behaviours whose *introduction* on an update is noteworthy. Deliberately coarse: a legitimate
/// package newly pulling npm is itself worth a heads-up.
#[derive(Clone, Copy, Debug, PartialEq, Eq, Structural)]
pub enum Marker {
    Base64Decode,
    Bun,
    CurlNet,
    Ebpf,
    Eval,
    Npm,
    PipeShell,
    Pnpm,
    ReverseShell,
    Yarn,
}

impl Marker {
    /// The id of a marker.
    pub open spec fn id(self) -> Seq<char> {
        match self {
            Marker::Base64Decode => "base64-decode"@,
            Marker::Bun => "bun"@,
            Marker::CurlNet => "curl-net"@,
            Marker::Ebpf => "ebpf"@,
            Marker::Eval => "eval"@,
            Marker::Npm => "npm"@,
            Marker::PipeShell => "pipe-shell"@,
            Marker::Pnpm => "pnpm"@,
            Marker::ReverseShell => "reverse-shell"@,
            Marker::Yarn => "yarn"@,
        }
    }

    /// What a marker is called in findings.
    pub open spec fn label(self) -> Seq<char> {
        match self {
            Marker::Base64Decode => "base64 decode"@,
            Marker::Bun => "bun install"@,
            Marker::CurlNet => "curl/wget fetch"@,
            Marker::Ebpf => "eBPF object"@,
            Marker::Eval => "eval"@,
            Marker::Npm => "npm package install"@,
            Marker::PipeShell => "pipe to shell"@,
            Marker::Pnpm => "pnpm install"@,
            Marker::ReverseShell => "raw TCP socket"@,
            Marker::Yarn => "yarn install"@,
        }
    }

    /// The lowercase texts that signal a marker.
    pub open spec fn needles(self) -> Seq<Seq<char>> {
        match self {
            Marker::Base64Decode => seq!["base64 -d"@, "base64 --decode"@],
            Marker::Bun => seq!["bun install"@, "bun add"@, "bunx"@],
            Marker::CurlNet => seq!["curl "@, "wget "@],
            Marker::Ebpf => seq![".bpf.c"@, ".bpf.o"@],
            Marker::Eval => seq!["eval "@],
            Marker::Npm => seq!["npm install"@, "npm i "@, "npm ci"@],
            Marker::PipeShell => seq!["| sh"@, "|sh"@, "| bash"@, "|bash"@],
            Marker::Pnpm => seq!["pnpm install"@, "pnpm add"@],
            Marker::ReverseShell => seq!["/dev/tcp/"@],
            Marker::Yarn => seq!["yarn add"@, "yarn install"@],
        }
    }

    /// Whether lowercase text shows the marker.
    pub open spec fn shows_in(self, lowercase: Seq<char>) -> bool {
        exists|i: int|
            0 <= i < self.needles().len() && contains_text(lowercase, #[trigger] self.needles()[i])
    }

    /// The id of a marker.
    pub fn id_text(self) -> (r: &'static str)
        ensures
            r@ == self.id(),
    {
        match self {
            Marker::Base64Decode => "base64-decode",
            Marker::Bun => "bun",
            Marker::CurlNet => "curl-net",
            Marker::Ebpf => "ebpf",
            Marker::Eval => "eval",
            Marker::Npm => "npm",
            Marker::PipeShell => "pipe-shell",
            Marker::Pnpm => "pnpm",
            Marker::ReverseShell => "reverse-shell",
            Marker::Yarn => "yarn",
        }
    }

    /// What a marker is called in findings.
    pub fn label_text(self) -> (r: &'static str)
        ensures
            r@ == self.label(),
    {
        match self {
            Marker::Base64Decode => "base64 decode",
            Marker::Bun => "bun install",
            Marker::CurlNet => "curl/wget fetch",
            Marker::Ebpf => "eBPF object",
            Marker::Eval => "eval",
            Marker::Npm => "npm package install",
            Marker::PipeShell => "pipe to shell",
            Marker::Pnpm => "pnpm install",
            Marker::ReverseShell => "raw TCP socket",
            Marker::Yarn => "yarn install",
        }
    }

    /// The lowercase texts that signal a marker.
    fn needle_texts(self) -> (r: Vec<&'static str>)
        ensures
            r@.map_values(|s: &'static str| s@) == self.needles(),
    {
        let r: Vec<&'static str> = match self {
            Marker::Base64Decode => vec!["base64 -d", "base64 --decode"],
            Marker::Bun => vec!["bun install", "bun add", "bunx"],
            Marker::CurlNet => vec!["curl ", "wget "],
            Marker::Ebpf => vec![".bpf.c", ".bpf.o"],
            Marker::Eval => vec!["eval "],
            Marker::Npm => vec!["npm install", "npm i ", "npm ci"],
            Marker::PipeShell => vec!["| sh", "|sh", "| bash", "|bash"],
            Marker::Pnpm => vec!["pnpm install", "pnpm add"],
            Marker::ReverseShell => vec!["/dev/tcp/"],
            Marker::Yarn => vec!["yarn add", "yarn install"],
        };
        assert(r@.map_values(|s: &'static str| s@) =~= self.needles());
        r
    }

    /// Whether lowercase text shows the marker.
    fn found_in(self, lowercase: &[char]) -> (r: bool)
        ensures
            r == self.shows_in(lowercase@),
    {
        let needles = self.needle_texts();
        let n: usize = needles.len();
        let ghost all = needles@.map_values(|s: &'static str| s@);
        for i in 0..n
            invariant
                n == needles@.len(),
                all == needles@.map_values(|s: &'static str| s@),
                all == self.needles(),
                forall|k: int|
                    0 <= k < i ==> !contains_text(lowercase@, #[trigger] self.needles()[k]),
        {
            let needle = chars_of(needles[i]);
            proof {
                assert(all[i as int] == needle@);
            }
            if text_contains(lowercase, needle.as_slice()) {
                return true;
            }
        }
        false
    }
}

/// All markers, in the order of their ids.
pub open spec fn markers() -> Seq<Marker> {
    seq![
        Marker::Base64Decode,
        Marker::Bun,
        Marker::CurlNet,
        Marker::Ebpf,
        Marker::Eval,
        Marker::Npm,
        Marker::PipeShell,
        Marker::Pnpm,
        Marker::ReverseShell,
        Marker::Yarn,
    ]
}

/// All markers, in the order of their ids.
fn all_markers() -> (r: Vec<Marker>)
    ensures
        r@ == markers(),
{
    let r: Vec<Marker> = vec![
        Marker::Base64Decode,
        Marker::Bun,
        Marker::CurlNet,
        Marker::Ebpf,
        Marker::Eval,
        Marker::Npm,
        Marker::PipeShell,
        Marker::Pnpm,
        Marker::ReverseShell,
        Marker::Yarn,
    ];
    assert(r@ =~= markers());
    r
}

/// The ids of the markers that lowercase text shows, in order.
pub open spec fn marker_ids(lowercase: Seq<char>) -> Seq<Seq<char>> {
    markers().filter(|m: Marker| m.shows_in(lowercase)).map_values(|m: Marker| m.id())
}

/// What the marker with the given id is called in findings.
pub open spec fn label_of(id: Seq<char>) -> Seq<char> {
    if exists|m: Marker| #[trigger] m.id() == id {
        (choose|m: Marker| #[trigger] m.id() == id).label()
    } else {
        "risky behavior"@
    }
}

/// Whether `a` comes before `b` in the order of texts, character by character.
pub open spec fn text_before(a: Seq<char>, b: Seq<char>) -> bool
    decreases a.len(),
{
    if b.len() == 0 {
        false
    } else if a.len() == 0 {
        true
    } else if a[0] != b[0] {
        a[0] < b[0]
    } else {
        text_before(a.skip(1), b.skip(1))
    }
}

/// Whether the texts stand in order, each one once.
pub open spec fn in_text_order(list: Seq<Seq<char>>) -> bool {
    forall|i: int, j: int|
        0 <= i < j < list.len() ==> text_before(#[trigger] list[i], #[trigger] list[j])
}

proof fn lemma_text_before_transitive(a: Seq<char>, b: Seq<char>, c: Seq<char>)
    requires
        text_before(a, b),
        text_before(b, c),
    ensures
        text_before(a, c),
    decreases a.len(),
{
    if a.len() > 0 && a[0] == b[0] && b[0] == c[0] {
        lemma_text_before_transitive(a.skip(1), b.skip(1), c.skip(1));
    }
}

proof fn lemma_text_before_irreflexive(a: Seq<char>)
    ensures
        !text_before(a, a),
    decreases a.len(),
{
    if a.len() > 0 {
        lemma_text_before_irreflexive(a.skip(1));
    }
}

/// The ids of neighbouring markers stand in order.
proof fn lemma_neighbours_in_order(i: int)
    requires
        0 <= i < 9,
    ensures
        text_before(markers()[i].id(), markers()[i + 1].id()),
{
    reveal_strlit("base64-decode");
    reveal_strlit("bun");
    reveal_strlit("curl-net");
    reveal_strlit("ebpf");
    reveal_strlit("eval");
    reveal_strlit("npm");
    reveal_strlit("pipe-shell");
    reveal_strlit("pnpm");
    reveal_strlit("reverse-shell");
    reveal_strlit("yarn");
    reveal_with_fuel(text_before, 3);
    let a = markers()[i].id();
    let b = markers()[i + 1].id();
    assert(a.skip(1).len() == a.len() - 1);
    assert(b.skip(1).len() == b.len() - 1);
}

proof fn lemma_markers_in_order(i: int, j: int)
    requires
        0 <= i < j < 10,
    ensures
        text_before(markers()[i].id(), markers()[j].id()),
    decreases j - i,
{
    lemma_neighbours_in_order(j - 1);
    if i < j - 1 {
        lemma_markers_in_order(i, j - 1);
        lemma_text_before_transitive(
            markers()[i].id(),
            markers()[j - 1].id(),
            markers()[j].id(),
        );
    }
}

/// Markers are told apart by their ids.
pub proof fn lemma_id_unique(a: Marker, b: Marker)
    requires
        a.id() == b.id(),
    ensures
        a == b,
{
    let i = choose|i: int| 0 <= i < 10 && markers()[i] == a;
    let j = choose|j: int| 0 <= j < 10 && markers()[j] == b;
    lemma_marker_listed(a);
    lemma_marker_listed(b);
    if i < j {
        lemma_markers_in_order(i, j);
        lemma_text_before_irreflexive(a.id());
    } else if j < i {
        lemma_markers_in_order(j, i);
        lemma_text_before_irreflexive(a.id());
    }
}

proof fn lemma_marker_listed(m: Marker)
    ensures
        exists|i: int| 0 <= i < 10 && #[trigger] markers()[i] == m,
{
    let all = markers();
    match m {
        Marker::Base64Decode => assert(all[0] == m),
        Marker::Bun => assert(all[1] == m),
        Marker::CurlNet => assert(all[2] == m),
        Marker::Ebpf => assert(all[3] == m),
        Marker::Eval => assert(all[4] == m),
        Marker::Npm => assert(all[5] == m),
        Marker::PipeShell => assert(all[6] == m),
        Marker::Pnpm => assert(all[7] == m),
        Marker::ReverseShell => assert(all[8] == m),
        Marker::Yarn => assert(all[9] == m),
    }
}

proof fn lemma_ids_in_order(p: spec_fn(Marker) -> bool, n: int)
    requires
        0 <= n <= 10,
    ensures
        in_text_order(markers().take(n).filter(p).map_values(|m: Marker| m.id())),
        forall|i: int|
            0 <= i < markers().take(n).filter(p).len() ==> exists|k: int|
                0 <= k < n && #[trigger] markers()[k] == #[trigger] markers().take(n).filter(p)[i],
    decreases n,
{
    reveal(Seq::filter);
    let f = |m: Marker| m.id();
    let kept = markers().take(n).filter(p);
    if n > 0 {
        lemma_ids_in_order(p, n - 1);
        let before = markers().take(n - 1).filter(p);
        assert(markers().take(n).drop_last() =~= markers().take(n - 1));
        let last = markers()[n - 1];
        assert(markers().take(n).last() == last);
        if p(last) {
            assert(kept == before.push(last));
            let ids = kept.map_values(f);
            assert forall|i: int, j: int| 0 <= i < j < ids.len() implies text_before(
                #[trigger] ids[i],
                #[trigger] ids[j],
            ) by {
                assert(ids[i] == before.map_values(f)[i]);
                if j < before.len() {
                    assert(ids[j] == before.map_values(f)[j]);
                } else {
                    let k = choose|k: int| 0 <= k < n - 1 && #[trigger] markers()[k] == before[i];
                    lemma_markers_in_order(k, n - 1);
                }
            }
            assert forall|i: int| 0 <= i < kept.len() implies exists|k: int|
                0 <= k < n && #[trigger] markers()[k] == #[trigger] kept[i] by {
                if i < before.len() {
                    assert(kept[i] == before[i]);
                    let k = choose|k: int| 0 <= k < n - 1 && #[trigger] markers()[k] == before[i];
                    assert(markers()[k] == kept[i]);
                } else {
                    assert(markers()[n - 1] == kept[i]);
                }
            }
        } else {
            assert(kept == before);
            assert forall|i: int| 0 <= i < kept.len() implies exists|k: int|
                0 <= k < n && #[trigger] markers()[k] == #[trigger] kept[i] by {
                let k = choose|k: int| 0 <= k < n - 1 && #[trigger] markers()[k] == before[i];
                assert(markers()[k] == kept[i]);
            }
        }
    }
}

/// The ids of the markers in a text are sorted and unique.
pub proof fn law_marker_ids_sorted(lowercase: Seq<char>)
    ensures
        in_text_order(marker_ids(lowercase)),
        marker_ids(lowercase).no_duplicates(),
{
    let p = |m: Marker| m.shows_in(lowercase);
    let ids = marker_ids(lowercase);
    lemma_ids_in_order(p, 10);
    assert(markers().take(10) =~= markers());
    assert forall|i: int, j: int|
        0 <= i < ids.len() && 0 <= j < ids.len() && i != j implies ids[i] != ids[j] by {
        lemma_text_before_irreflexive(ids[i]);
        if i < j {
            assert(text_before(ids[i], ids[j]));
        } else {
            assert(text_before(ids[j], ids[i]));
        }
    }
}

/// A marker is reported exactly where one of its needles lies in the text.
pub proof fn law_marker_ids_complete(lowercase: Seq<char>, m: Marker)
    ensures
        marker_ids(lowercase).contains(m.id()) <==> m.shows_in(lowercase),
{
    let p = |m: Marker| m.shows_in(lowercase);
    let kept = markers().filter(p);
    let ids = marker_ids(lowercase);
    lemma_marker_listed(m);
    let k = choose|k: int| 0 <= k < 10 && #[trigger] markers()[k] == m;
    if m.shows_in(lowercase) {
        markers().lemma_filter_contains(p, k);
        let i = choose|i: int| 0 <= i < kept.len() && kept[i] == m;
        assert(ids[i] == m.id());
    }
    if ids.contains(m.id()) {
        let i = choose|i: int| 0 <= i < ids.len() && ids[i] == m.id();
        markers().lemma_filter_pred(p, i);
        lemma_id_unique(kept[i], m);
    }
}

// ---------------------------------------------------------------------------------------
// The store
// ---------------------------------------------------------------------------------------

/// One package's last-seen fingerprint.
#[derive(Debug)]
pub struct Snapshot {
    pub content_sha256: String,
    /// Marker ids present at last sighting (sorted, unique).
    pub markers: Vec<String>,
    /// Who maintained the package at last sighting, where that was known.
    pub maintainer: Option<String>,
    pub last_seen: String,
}

/// What a snapshot says.
pub struct SnapshotView {
    pub content_sha256: Seq<char>,
    pub markers: Seq<Seq<char>>,
    pub maintainer: Option<Seq<char>>,
    pub last_seen: Seq<char>,
}

impl View for Snapshot {
    type V = SnapshotView;

    open spec fn view(&self) -> SnapshotView {
        SnapshotView {
            content_sha256: self.content_sha256@,
            markers: texts(self.markers@),
            maintainer: opt_text(self.maintainer),
            last_seen: self.last_seen@,
        }
    }
}

impl Clone for Snapshot {
    fn clone(&self) -> (r: Self)
        ensures
            r@ == self@,
    {
        Snapshot {
            content_sha256: self.content_sha256.clone(),
            markers: copy_texts(&self.markers),
            maintainer: self.maintainer.clone(),
            last_seen: self.last_seen.clone(),
        }
    }
}

/// Provenance store.
pub struct ProvenanceStore {
    snapshots: Table<Snapshot>,
    dirty: bool,
}

/// What a store knows: the last snapshot of each package, and whether content was seen since it
/// was loaded that it did not know.
#[verifier::ext_equal]
pub struct StoreView {
    pub snapshots: Map<Seq<char>, SnapshotView>,
    pub dirty: bool,
}

impl View for ProvenanceStore {
    type V = StoreView;

    closed spec fn view(&self) -> StoreView {
        StoreView {
            snapshots: self.snapshots@.map_values(|s: Snapshot| s@),
            dirty: self.dirty,
        }
    }
}

/// What saved snapshots say.
pub open spec fn saved_views(entries: Seq<(String, Snapshot)>) -> Seq<(Seq<char>, SnapshotView)> {
    entries.map_values(|e: (String, Snapshot)| (e.0@, e.1@))
}

/// The saved snapshots by their packages, the last one of each.
pub open spec fn saved_snapshots(entries: Seq<(Seq<char>, SnapshotView)>) -> Map<
    Seq<char>,
    SnapshotView,
>
    decreases entries.len(),
{
    if entries.len() == 0 {
        Map::empty()
    } else {
        saved_snapshots(entries.drop_last()).insert(entries.last().0, entries.last().1)
    }
}

proof fn lemma_push_to_set(list: Seq<Seq<char>>, name: Seq<char>)
    ensures
        list.push(name).to_set() == list.to_set().insert(name),
{
    let more = list.push(name);
    assert forall|x: Seq<char>| more.to_set().contains(x) == list.to_set().insert(name).contains(
        x,
    ) by {
        if list.contains(x) {
            let i = choose|i: int| 0 <= i < list.len() && list[i] == x;
            assert(more[i] == x);
        }
        if x == name {
            assert(more[list.len() as int] == x);
        }
    }
    assert(more.to_set() =~= list.to_set().insert(name));
}

/// The markers of a text that were not there before.
pub open spec fn added_markers(current: Seq<Seq<char>>, previous: Seq<Seq<char>>) -> Seq<Seq<char>> {
    current.filter(|id: Seq<char>| !previous.contains(id))
}

/// The labels of markers, with commas between.
pub open spec fn labels_text(ids: Seq<Seq<char>>) -> Seq<char> {
    joined(ids.map_values(|id: Seq<char>| label_of(id)), ", "@)
}

/// What is to be done about a package that gained risky behavior.
pub const GAINED_RECOMMENDATION: &'static str =
    "Review the PKGBUILD/install diff before building. If the new behavior is unexplained, do not build and report the package.";

/// What is to be done about a package that gained risky behavior under a new maintainer.
pub const HIJACK_RECOMMENDATION: &'static str =
    "Do not build until the change of maintainer and the new behavior are explained.";

/// The finding that a package gained risky behavior.
pub open spec fn gained_finding(
    package: Seq<char>,
    added: Seq<Seq<char>>,
    previous: SnapshotView,
    file: Seq<char>,
) -> FindingView {
    FindingView {
        id: "PROV-001"@,
        severity: Severity::High,
        category: Category::SuspiciousMetadata,
        title: "Package gained risky behavior since last scan: "@ + labels_text(added),
        description: "'"@ + package
            + "' introduced behavior it did not have at the previous scan ("@ + labels_text(added)
            + "). A package suddenly fetching/executing code on update is the primary tell of an AUR hijack."@,
        location: LocationView { file, line: None, column: None, snippet: None },
        recommendation: GAINED_RECOMMENDATION@,
        cwe_id: Some("CWE-506"@),
        metadata: seq![
            ("added_markers"@, ValueView::List(added)),
            ("previous_seen"@, ValueView::Text(previous.last_seen)),
        ],
    }
}

/// The finding that a package gained risky behavior under a new maintainer.
pub open spec fn hijack_finding(
    package: Seq<char>,
    added: Seq<Seq<char>>,
    from: Seq<char>,
    to: Seq<char>,
    file: Seq<char>,
) -> FindingView {
    FindingView {
        id: "PROV-002"@,
        severity: Severity::Critical,
        category: Category::SuspiciousMetadata,
        title: "Maintainer changed and package gained risky behavior: "@ + labels_text(added),
        description: "'"@ + package + "' changed its maintainer from '"@ + from + "' to '"@ + to
            + "' and introduced risky behavior in the same update ("@ + labels_text(added) + ")."@,
        location: LocationView { file, line: None, column: None, snippet: None },
        recommendation: HIJACK_RECOMMENDATION@,
        cwe_id: Some("CWE-506"@),
        metadata: seq![
            ("added_markers"@, ValueView::List(added)),
            ("previous_maintainer"@, ValueView::Text(from)),
            ("current_maintainer"@, ValueView::Text(to)),
        ],
    }
}

/// Whether the maintainer of a package is known before and after, and not the same.
pub open spec fn maintainer_changed(previous: Option<Seq<char>>, current: Option<Seq<char>>) -> bool {
    match (previous, current) {
        (Some(a), Some(b)) => a != b,
        _ => false,
    }
}

/// The findings about a package that was seen before: one where it gained markers, and another
/// where it did so under a new maintainer.
pub open spec fn update_findings(
    package: Seq<char>,
    current: Seq<Seq<char>>,
    previous: SnapshotView,
    maintainer: Option<Seq<char>>,
    file: Seq<char>,
) -> Seq<FindingView> {
    let added = added_markers(current, previous.markers);
    if added.len() == 0 {
        seq![]
    } else if maintainer_changed(previous.maintainer, maintainer) {
        seq![
            gained_finding(package, added, previous, file),
            hijack_finding(package, added, previous.maintainer->0, maintainer->0, file),
        ]
    } else {
        seq![gained_finding(package, added, previous, file)]
    }
}

/// The findings about a package: none at its first sighting.
pub open spec fn sighting_findings(
    store: StoreView,
    package: Seq<char>,
    current: Seq<Seq<char>>,
    maintainer: Option<Seq<char>>,
    file: Seq<char>,
) -> Seq<FindingView> {
    if store.snapshots.contains_key(package) {
        update_findings(package, current, store.snapshots[package], maintainer, file)
    } else {
        seq![]
    }
}

/// Whether the store has the package with this fingerprint already.
pub open spec fn is_known(store: StoreView, package: Seq<char>, sha: Seq<char>) -> bool {
    store.snapshots.contains_key(package) && store.snapshots[package].content_sha256 == sha
}

/// The store once a package was seen: the sighting is the new baseline. Content that was not the
/// one seen last makes the store one to be saved.
pub open spec fn after_sighting(
    store: StoreView,
    package: Seq<char>,
    current: Seq<Seq<char>>,
    sha: Seq<char>,
    maintainer: Option<Seq<char>>,
    now: Seq<char>,
) -> StoreView {
    StoreView {
        snapshots: store.snapshots.insert(
            package,
            SnapshotView { content_sha256: sha, markers: current, maintainer, last_seen: now },
        ),
        dirty: store.dirty || !is_known(store, package, sha),
    }
}

/// The text that may be there.
pub open spec fn opt_str(s: Option<&str>) -> Option<Seq<char>> {
    match s {
        Some(t) => Some(t@),
        None => None,
    }
}

/// Whether `id` is one of `ids`.
fn has_id(ids: &Vec<String>, id: &str) -> (r: bool)
    ensures
        r == texts(ids@).contains(id@),
{
    let n: usize = ids.len();
    for i in 0..n
        invariant
            n == ids@.len(),
            forall|k: int| 0 <= k < i ==> texts(ids@)[k] != id@,
    {
        if same_text(ids[i].as_str(), id) {
            assert(texts(ids@)[i as int] == id@);
            return true;
        }
    }
    false
}

/// The ids that are not among `previous`.
fn added_ids(current: &Vec<String>, previous: &Vec<String>) -> (r: Vec<String>)
    ensures
        texts(r@) == added_markers(texts(current@), texts(previous@)),
{
    let n: usize = current.len();
    let mut out: Vec<String> = Vec::new();
    let ghost all = texts(current@);
    let ghost p = |id: Seq<char>| !texts(previous@).contains(id);
    proof {
        reveal(Seq::filter);
        assert(texts(out@) =~= all.take(0).filter(p));
    }
    for i in 0..n
        invariant
            n == current@.len(),
            all == texts(current@),
            p == (|id: Seq<char>| !texts(previous@).contains(id)),
            texts(out@) == all.take(i as int).filter(p),
    {
        proof {
            reveal(Seq::filter);
            assert(all.take(i + 1).drop_last() =~= all.take(i as int));
            assert(all.take(i + 1).last() == current@[i as int]@);
        }
        if !has_id(previous, current[i].as_str()) {
            let id: String = current[i].clone();
            proof {
                assert(texts(out@.push(id)) =~= texts(out@).push(id@));
            }
            out.push(id);
        }
    }
    proof {
        assert(all.take(n as int) =~= all);
    }
    out
}

/// The labels of markers, with commas between.
fn labels_of(ids: &Vec<String>) -> (r: String)
    ensures
        r@ == labels_text(texts(ids@)),
{
    let n: usize = ids.len();
    let mut labels: Vec<String> = Vec::new();
    let ghost all = texts(ids@).map_values(|id: Seq<char>| label_of(id));
    proof {
        assert(texts(labels@) =~= all.take(0));
    }
    for i in 0..n
        invariant
            n == ids@.len(),
            all == texts(ids@).map_values(|id: Seq<char>| label_of(id)),
            texts(labels@) == all.take(i as int),
    {
        let label: String = ProvenanceStore::label_for(ids[i].as_str()).to_owned();
        proof {
            assert(texts(labels@.push(label)) =~= texts(labels@).push(label@));
            assert(all.take(i + 1) =~= all.take(i as int).push(label@));
        }
        labels.push(label);
    }
    proof {
        assert(all.take(n as int) =~= all);
    }
    join_texts(&labels, ", ")
}

/// Reports that a package gained risky behavior.
fn report_gained(package: &str, added: &Vec<String>, previous: &Snapshot, file: &str) -> (r: Finding)
    ensures
        r@ == gained_finding(package@, texts(added@), previous@, file@),
{
    let labels = labels_of(added);
    let mut title: String = "Package gained risky behavior since last scan: ".to_owned();
    title.append(labels.as_str());
    let mut description: String = "'".to_owned();
    description.append(package);
    description.append("' introduced behavior it did not have at the previous scan (");
    description.append(labels.as_str());
    description.append(
        "). A package suddenly fetching/executing code on update is the primary tell of an AUR hijack.",
    );
    let mut metadata: Vec<Entry> = Vec::new();
    metadata.push(Entry { key: "added_markers".to_owned(), value: Value::List(copy_texts(added)) });
    metadata.push(
        Entry { key: "previous_seen".to_owned(), value: Value::Text(previous.last_seen.clone()) },
    );
    let r = Finding {
        id: "PROV-001".to_owned(),
        severity: Severity::High,
        category: Category::SuspiciousMetadata,
        title,
        description,
        location: Location { file: file.to_owned(), line: None, column: None, snippet: None },
        recommendation: GAINED_RECOMMENDATION.to_owned(),
        cwe_id: Some("CWE-506".to_owned()),
        metadata,
    };
    proof {
        assert(r@.metadata =~= gained_finding(package@, texts(added@), previous@, file@).metadata);
    }
    r
}

/// Reports that a package gained risky behavior under a new maintainer.
fn report_hijack(package: &str, added: &Vec<String>, from: &str, to: &str, file: &str) -> (r: Finding)
    ensures
        r@ == hijack_finding(package@, texts(added@), from@, to@, file@),
{
    let labels = labels_of(added);
    let mut title: String = "Maintainer changed and package gained risky behavior: ".to_owned();
    title.append(labels.as_str());
    let mut description: String = "'".to_owned();
    description.append(package);
    description.append("' changed its maintainer from '");
    description.append(from);
    description.append("' to '");
    description.append(to);
    description.append("' and introduced risky behavior in the same update (");
    description.append(labels.as_str());
    description.append(").");
    let mut metadata: Vec<Entry> = Vec::new();
    metadata.push(Entry { key: "added_markers".to_owned(), value: Value::List(copy_texts(added)) });
    metadata.push(
        Entry { key: "previous_maintainer".to_owned(), value: Value::Text(from.to_owned()) },
    );
    metadata.push(Entry { key: "current_maintainer".to_owned(), value: Value::Text(to.to_owned()) });
    let r = Finding {
        id: "PROV-002".to_owned(),
        severity: Severity::Critical,
        category: Category::SuspiciousMetadata,
        title,
        description,
        location: Location { file: file.to_owned(), line: None, column: None, snippet: None },
        recommendation: HIJACK_RECOMMENDATION.to_owned(),
        cwe_id: Some("CWE-506".to_owned()),
        metadata,
    };
    proof {
        assert(r@.metadata =~= hijack_finding(package@, texts(added@), from@, to@, file@).metadata);
    }
    r
}

/// The findings about a package that was seen before.
fn report_update(
    package: &str,
    current: &Vec<String>,
    previous: &Snapshot,
    maintainer: Option<&str>,
    file: &str,
) -> (r: Vec<Finding>)
    ensures
        finding_views(r@) == update_findings(
            package@,
            texts(current@),
            previous@,
            opt_str(maintainer),
            file@,
        ),
{
    let added = added_ids(current, &previous.markers);
    let mut findings: Vec<Finding> = Vec::new();
    if added.len() > 0 {
        findings.push(report_gained(package, &added, previous, file));
        match (&previous.maintainer, maintainer) {
            (Some(from), Some(to)) => {
                if !same_text(from.as_str(), to) {
                    findings.push(report_hijack(package, &added, from.as_str(), to, file));
                }
            },
            _ => {},
        }
    }
    proof {
        assert(finding_views(findings@) =~= update_findings(
            package@,
            texts(current@),
            previous@,
            opt_str(maintainer),
            file@,
        ));
    }
    findings
}

/// The ids of the markers that lowercase text shows, sorted and unique.
pub fn markers_in_lowercase(lowercase: &str) -> (r: Vec<String>)
    ensures
        texts(r@) == marker_ids(lowercase@),
        in_text_order(texts(r@)),
{
    let chars = chars_of(lowercase);
    let all = all_markers();
    let mut found: Vec<String> = Vec::new();
    let ghost p = |m: Marker| m.shows_in(lowercase@);
    let ghost f = |m: Marker| m.id();
    proof {
        reveal(Seq::filter);
        assert(texts(found@) =~= markers().take(0).filter(p).map_values(f));
    }
    for i in 0..10usize
        invariant
            all@ == markers(),
            chars@ == lowercase@,
            p == (|m: Marker| m.shows_in(lowercase@)),
            f == (|m: Marker| m.id()),
            texts(found@) == markers().take(i as int).filter(p).map_values(f),
    {
        proof {
            reveal(Seq::filter);
            assert(markers().take(i + 1).drop_last() =~= markers().take(i as int));
            assert(markers().take(i + 1).last() == all@[i as int]);
        }
        let m: Marker = all[i];
        if m.found_in(chars.as_slice()) {
            let id: String = m.id_text().to_owned();
            proof {
                assert(texts(found@.push(id)) =~= texts(found@).push(id@));
                assert(markers().take(i + 1).filter(p).map_values(f) =~= markers().take(
                    i as int,
                ).filter(p).map_values(f).push(id@));
            }
            found.push(id);
        }
    }
    proof {
        assert(markers().take(10) =~= markers());
        law_marker_ids_sorted(lowercase@);
    }
    found
}

impl ProvenanceStore {
    /// A store without packages.
    pub fn empty_for_test() -> (r: Self)
        ensures
            r@ == (StoreView { snapshots: Map::empty(), dirty: false }),
    {
        let r = ProvenanceStore { snapshots: Table::new(), dirty: false };
        proof {
            assert(r@.snapshots =~= Map::empty());
        }
        r
    }

    /// Compute the marker ids present in `content`, in any case.
    pub fn markers_in(content: &str) -> (r: Vec<String>)
        ensures
            texts(r@) == marker_ids(unicode_lowercase(content@)),
            in_text_order(texts(r@)),
    {
        let lc = content.to_lowercase();
        markers_in_lowercase(lc.as_str())
    }

    /// What the marker with the given id is called in findings.
    pub fn label_for(id: &str) -> (r: &'static str)
        ensures
            r@ == label_of(id@),
    {
        let all = all_markers();
        for i in 0..10usize
            invariant
                all@ == markers(),
                forall|k: int| 0 <= k < i ==> (#[trigger] markers()[k]).id() != id@,
        {
            let m: Marker = all[i];
            if same_text(m.id_text(), id) {
                proof {
                    let c = choose|c: Marker| #[trigger] c.id() == id@;
                    lemma_id_unique(m, c);
                }
                return m.label_text();
            }
        }
        proof {
            assert forall|m: Marker| #[trigger] m.id() != id@ by {
                lemma_marker_listed(m);
                let k = choose|k: int| 0 <= k < 10 && #[trigger] markers()[k] == m;
                assert(markers()[k].id() != id@);
            }
        }
        "risky behavior"
    }

    /// Evaluate a package by the marker ids and the fingerprint of its current content.
    pub fn evaluate_markers(
        &mut self,
        package: &str,
        current: Vec<String>,
        sha: String,
        now: &str,
        file: &str,
        maintainer: Option<&str>,
    ) -> (r: Vec<Finding>)
        ensures
            finding_views(r@) == sighting_findings(
                old(self)@,
                package@,
                texts(current@),
                opt_str(maintainer),
                file@,
            ),
            final(self)@ == after_sighting(
                old(self)@,
                package@,
                texts(current@),
                sha@,
                opt_str(maintainer),
                now@,
            ),
    {
        let mut findings: Vec<Finding> = Vec::new();
        let mut known: bool = false;
        match self.snapshots.get(package) {
            Some(previous) => {
                findings = report_update(package, &current, previous, maintainer, file);
                known = same_text(previous.content_sha256.as_str(), sha.as_str());
            },
            None => {
                proof {
                    assert(finding_views(findings@) =~= seq![]);
                }
            },
        }
        let seen_maintainer: Option<String> = match maintainer {
            Some(m) => Some(m.to_owned()),
            None => None,
        };
        let snapshot = Snapshot {
            content_sha256: sha,
            markers: current,
            maintainer: seen_maintainer,
            last_seen: now.to_owned(),
        };
        let ghost view = snapshot@;
        self.snapshots.insert(package.to_owned(), snapshot);
        if !known {
            self.dirty = true;
        }
        proof {
            assert(self@.snapshots =~= old(self)@.snapshots.insert(package@, view));
        }
        findings
    }

    /// Evaluate a package's current content against its last-seen snapshot, returning findings
    /// for newly-introduced risk markers, and record the new baseline. `now` is an RFC3339
    /// timestamp supplied by the caller, `maintainer` who maintains the package now, where that
    /// is known: risk introduced under a new maintainer is a finding of its own.
    pub fn evaluate(
        &mut self,
        package: &str,
        content: &str,
        now: &str,
        file: &str,
        maintainer: Option<&str>,
    ) -> (r: Vec<Finding>)
        ensures
            finding_views(r@) == sighting_findings(
                old(self)@,
                package@,
                marker_ids(unicode_lowercase(content@)),
                opt_str(maintainer),
                file@,
            ),
            final(self)@ == after_sighting(
                old(self)@,
                package@,
                marker_ids(unicode_lowercase(content@)),
                fingerprint(content@),
                opt_str(maintainer),
                now@,
            ),
    {
        let current = Self::markers_in(content);
        let sha = sha256_hex(content);
        self.evaluate_markers(package, current, sha, now, file, maintainer)
    }

    /// The store from what was saved of it, if anything could be read; nothing else is known of
    /// a missing or malformed file.
    pub fn load(saved: Option<Vec<(String, Snapshot)>>) -> (r: Self)
        ensures
            r@.snapshots == (match saved {
                Some(entries) => saved_snapshots(saved_views(entries@)),
                None => Map::empty(),
            }),
            !r@.dirty,
    {
        let mut r = Self::empty_for_test();
        match saved {
            Some(entries) => {
                let n: usize = entries.len();
                let ghost all = saved_views(entries@);
                proof {
                    assert(r@.snapshots =~= saved_snapshots(all.take(0)));
                }
                for i in 0..n
                    invariant
                        n == entries@.len(),
                        all == saved_views(entries@),
                        r@.snapshots == saved_snapshots(all.take(i as int)),
                        !r@.dirty,
                {
                    let snapshot: Snapshot = entries[i].1.clone();
                    let ghost before = r@.snapshots;
                    let ghost view = snapshot@;
                    r.snapshots.insert(entries[i].0.clone(), snapshot);
                    proof {
                        assert(r@.snapshots =~= before.insert(all[i as int].0, view));
                        assert(all.take(i + 1).drop_last() =~= all.take(i as int));
                        assert(all.take(i + 1).last() == all[i as int]);
                    }
                }
                proof {
                    assert(all.take(n as int) =~= all);
                }
            },
            None => {},
        }
        r
    }

    /// What is to be saved of the store: nothing unless new content was seen, and else the last
    /// snapshot of every package.
    pub fn save(&self) -> (r: Option<Vec<(String, Snapshot)>>)
        ensures
            match r {
                Some(entries) => {
                    &&& self@.dirty
                    &&& saved_snapshots(saved_views(entries@)) == self@.snapshots
                    &&& entries@.len() == self@.snapshots.dom().len()
                },
                None => !self@.dirty,
            },
    {
        if !self.dirty {
            return None;
        }
        let keys = self.snapshots.keys();
        let n: usize = keys.len();
        let ghost names = texts(keys@);
        let mut entries: Vec<(String, Snapshot)> = Vec::new();
        proof {
            assert(saved_snapshots(saved_views(entries@)) =~= self@.snapshots.restrict(
                names.take(0).to_set(),
            ));
            assert(self@.snapshots.dom() =~= self.snapshots@.dom());
        }
        for i in 0..n
            invariant
                n == keys@.len(),
                names == texts(keys@),
                names.to_set() == self.snapshots@.dom(),
                names.to_set() == self@.snapshots.dom(),
                entries@.len() == i,
                saved_snapshots(saved_views(entries@)) == self@.snapshots.restrict(
                    names.take(i as int).to_set(),
                ),
        {
            proof {
                assert(names.contains(names[i as int]));
                assert(names.to_set().contains(names[i as int]));
            }
            match self.snapshots.get(keys[i].as_str()) {
                Some(snapshot) => {
                    let entry: (String, Snapshot) = (keys[i].clone(), snapshot.clone());
                    proof {
                        let views = saved_views(entries@.push(entry));
                        assert(views.drop_last() =~= saved_views(entries@));
                        assert(views.last() == (names[i as int], self@.snapshots[names[i as int]]));
                        assert(names.take(i + 1) =~= names.take(i as int).push(names[i as int]));
                        lemma_push_to_set(names.take(i as int), names[i as int]);
                        assert(saved_snapshots(views) =~= self@.snapshots.restrict(
                            names.take(i + 1).to_set(),
                        ));
                    }
                    entries.push(entry);
                },
                None => {},
            }
        }
        proof {
            assert(names.take(n as int) =~= names);
            assert(self@.snapshots.restrict(names.to_set()) =~= self@.snapshots);
            names.unique_seq_to_set();
        }
        Some(entries)
    }

    /// Whether content was seen since the store was loaded that it did not know.
    pub fn is_dirty(&self) -> (r: bool)
        ensures
            r == self@.dirty,
    {
        self.dirty
    }

    /// The last snapshot of a package.
    pub fn snapshot(&self, package: &str) -> (r: Option<&Snapshot>)
        ensures
            match r {
                Some(s) => self@.snapshots.contains_key(package@) && s@
                    == self@.snapshots[package@],
                None => !self@.snapshots.contains_key(package@),
            },
    {
        self.snapshots.get(package)
    }

    /// Number of tracked packages.
    pub fn tracked_packages(&self) -> (r: usize)
        ensures
            self@.snapshots.dom().finite(),
            r == self@.snapshots.dom().len(),
    {
        proof {
            assert(self@.snapshots.dom() =~= self.snapshots@.dom());
        }
        self.snapshots.len()
    }
}

// ---------------------------------------------------------------------------------------
// Laws
// ---------------------------------------------------------------------------------------

/// The first sighting of a package establishes a baseline: it gives no finding, whatever the
/// package does, and the store remembers it.
pub proof fn law_first_sighting_is_baseline(
    store: StoreView,
    package: Seq<char>,
    current: Seq<Seq<char>>,
    sha: Seq<char>,
    maintainer: Option<Seq<char>>,
    now: Seq<char>,
    file: Seq<char>,
)
    requires
        !store.snapshots.contains_key(package),
    ensures
        sighting_findings(store, package, current, maintainer, file) == Seq::<FindingView>::empty(),
        ({
            let after = after_sighting(store, package, current, sha, maintainer, now);
            &&& after.snapshots.contains_key(package)
            &&& after.snapshots[package].markers == current
            &&& after.dirty
        }),
{
}

proof fn lemma_nothing_added(current: Seq<Seq<char>>, previous: Seq<Seq<char>>)
    ensures
        added_markers(current, previous).len() == 0 <==> forall|i: int|
            0 <= i < current.len() ==> previous.contains(#[trigger] current[i]),
{
    let p = |id: Seq<char>| !previous.contains(id);
    let added = added_markers(current, previous);
    if added.len() == 0 {
        assert forall|i: int| 0 <= i < current.len() implies previous.contains(
            #[trigger] current[i],
        ) by {
            if !previous.contains(current[i]) {
                current.lemma_filter_contains(p, i);
            }
        }
    } else {
        current.lemma_filter_pred(p, 0);
        assert(added.contains(added[0]));
        current.lemma_filter_contains_rev(p, added[0]);
        let i = choose|i: int| 0 <= i < current.len() && current[i] == added[0];
        assert(!previous.contains(current[i]));
    }
}

/// Only additions are flagged: an update is reported exactly where it shows a marker that the
/// last sighting did not.
pub proof fn law_only_additions_are_flagged(
    package: Seq<char>,
    current: Seq<Seq<char>>,
    previous: SnapshotView,
    maintainer: Option<Seq<char>>,
    file: Seq<char>,
)
    ensures
        update_findings(package, current, previous, maintainer, file).len() == 0 <==> forall|
            i: int,
        |
            0 <= i < current.len() ==> previous.markers.contains(#[trigger] current[i]),
        update_findings(package, current, previous, maintainer, file).len() > 0
            ==> update_findings(package, current, previous, maintainer, file)[0].id == "PROV-001"@,
{
    lemma_nothing_added(current, previous.markers);
}

/// A change of maintainer is reported exactly where the package gains markers with it.
pub proof fn law_hijack_needs_both(
    package: Seq<char>,
    current: Seq<Seq<char>>,
    previous: SnapshotView,
    maintainer: Option<Seq<char>>,
    file: Seq<char>,
)
    ensures
        (exists|i: int|
            0 <= i < update_findings(package, current, previous, maintainer, file).len() && (
            #[trigger] update_findings(package, current, previous, maintainer, file)[i]).id
                == "PROV-002"@) <==> added_markers(current, previous.markers).len() > 0
            && maintainer_changed(previous.maintainer, maintainer),
{
    let found = update_findings(package, current, previous, maintainer, file);
    reveal_strlit("PROV-001");
    reveal_strlit("PROV-002");
    assert("PROV-001"@[7] != "PROV-002"@[7]);
    if added_markers(current, previous.markers).len() > 0 && maintainer_changed(
        previous.maintainer,
        maintainer,
    ) {
        assert(found[1].id == "PROV-002"@);
    }
}

/// Seeing the same content again is silent, whatever the store held before and whatever the
/// content does: it gives no finding, and adds no package. Only who maintains the package and
/// when it was seen is brought up to date, and the store needs no saving on that account.
pub proof fn law_repeat_is_silent(
    store: StoreView,
    package: Seq<char>,
    current: Seq<Seq<char>>,
    sha: Seq<char>,
    maintainer: Option<Seq<char>>,
    now: Seq<char>,
    again_maintainer: Option<Seq<char>>,
    again: Seq<char>,
    file: Seq<char>,
)
    ensures
        ({
            let once = after_sighting(store, package, current, sha, maintainer, now);
            let twice = after_sighting(once, package, current, sha, again_maintainer, again);
            &&& sighting_findings(once, package, current, again_maintainer, file) == Seq::<
                FindingView,
            >::empty()
            &&& twice.snapshots.dom() == once.snapshots.dom()
            &&& twice.snapshots[package] == (SnapshotView {
                maintainer: again_maintainer,
                last_seen: again,
                ..once.snapshots[package]
            })
            &&& twice.dirty == once.dirty
        }),
{
    let once = after_sighting(store, package, current, sha, maintainer, now);
    let twice = after_sighting(once, package, current, sha, again_maintainer, again);
    lemma_nothing_added(current, current);
    assert(forall|i: int| 0 <= i < current.len() ==> current.contains(#[trigger] current[i]));
    assert(twice.snapshots.dom() =~= once.snapshots.dom());
}

/// Every sighting is the baseline of the next: a finding names the time of the sighting just
/// before it, and a change of maintainer is one since then.
pub proof fn law_last_sighting_is_compared_with(
    store: StoreView,
    package: Seq<char>,
    current: Seq<Seq<char>>,
    sha: Seq<char>,
    maintainer: Option<Seq<char>>,
    now: Seq<char>,
    next: Seq<Seq<char>>,
    next_maintainer: Option<Seq<char>>,
    file: Seq<char>,
)
    ensures
        sighting_findings(
            after_sighting(store, package, current, sha, maintainer, now),
            package,
            next,
            next_maintainer,
            file,
        ) == update_findings(
            package,
            next,
            SnapshotView { content_sha256: sha, markers: current, maintainer, last_seen: now },
            next_maintainer,
            file,
        ),
{
}

/// A sighting leaves what is known of other packages as it is, and adds at most one package.
pub proof fn law_other_packages_untouched(
    store: StoreView,
    package: Seq<char>,
    current: Seq<Seq<char>>,
    sha: Seq<char>,
    maintainer: Option<Seq<char>>,
    now: Seq<char>,
    other: Seq<char>,
)
    requires
        other != package,
    ensures
        ({
            let after = after_sighting(store, package, current, sha, maintainer, now);
            &&& after.snapshots.contains_key(other) == store.snapshots.contains_key(other)
            &&& store.snapshots.contains_key(other) ==> after.snapshots[other]
                == store.snapshots[other]
            &&& after.snapshots.contains_key(package)
        }),
{
}

/// What a store saves, a later one loads: it knows the same snapshots of the same packages, and
/// so reports the same findings about every package.
pub proof fn law_load_gives_back_what_was_saved(
    store: StoreView,
    entries: Seq<(Seq<char>, SnapshotView)>,
    package: Seq<char>,
    current: Seq<Seq<char>>,
    maintainer: Option<Seq<char>>,
    file: Seq<char>,
)
    requires
        saved_snapshots(entries) == store.snapshots,
    ensures
        ({
            let later = StoreView { snapshots: saved_snapshots(entries), dirty: false };
            &&& later.snapshots == store.snapshots
            &&& sighting_findings(later, package, current, maintainer, file) == sighting_findings(
                store,
                package,
                current,
                maintainer,
                file,
            )
        }),
{
}

/// Whether the markers of every snapshot are sorted and unique.
pub open spec fn markers_sorted(store: StoreView) -> bool {
    forall|package: Seq<char>| #[trigger]
        store.snapshots.contains_key(package) ==> in_text_order(store.snapshots[package].markers)
}

/// The markers of every snapshot stay sorted and unique from one sighting to the next.
pub proof fn law_markers_stay_sorted(
    store: StoreView,
    package: Seq<char>,
    lowercase: Seq<char>,
    sha: Seq<char>,
    maintainer: Option<Seq<char>>,
    now: Seq<char>,
)
    requires
        markers_sorted(store),
    ensures
        markers_sorted(
            after_sighting(store, package, marker_ids(lowercase), sha, maintainer, now),
        ),
{
    law_marker_ids_sorted(lowercase);
}

} // verus!
