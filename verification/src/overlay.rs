//! Local package overlay for race-free (TOCTOU-safe) scanning.
//!
//! A scan normally fetches its own copy of each PKGBUILD from the AUR. The helper (paru/yay) then
//! independently re-clones and builds its own copy -- so the bytes scanned are not provably the
//! bytes built (a time-of-check/time-of-use gap). To close it, the caller can scan the exact
//! on-disk directory the build will use and feed the locally-parsed package metadata into
//! dependency resolution via [`OverlaySource`].
//!
//! Names present in the overlay are answered from local PKGBUILDs; everything else falls through
//! to a remote source (the AUR RPC), so the full dependency tree still resolves.

use crate::aur::{package_views, unknown_package, AurPackageInfo, PackageView};
use crate::error::ScanError;
use crate::parser::ParsedPkgbuild;
use crate::table::Table;
use crate::text::{copy_texts, texts};
use vstd::prelude::*;

verus! {

// ---------------------------------------------------------------------------------------
// Local packages
// ---------------------------------------------------------------------------------------

/// The version of the packages of a PKGBUILD, with the epoch where there is one; empty where
/// there is no version.
pub open spec fn full_version(pkg: ParsedPkgbuild) -> Seq<char> {
    if pkg.pkgver@.len() == 0 {
        seq![]
    } else {
        let version = pkg.pkgver@ + "-"@ + pkg.pkgrel@;
        match pkg.epoch {
            Some(epoch) => epoch@ + ":"@ + version,
            None => version,
        }
    }
}

/// What a PKGBUILD says of the package with the given name.
pub open spec fn local_info(pkg: ParsedPkgbuild, name: Seq<char>) -> PackageView {
    PackageView {
        name,
        version: full_version(pkg),
        package_base: pkg.first_name(),
        maintainer: Some("(local)"@),
        depends: texts(pkg.depends@),
        make_depends: texts(pkg.makedepends@),
        check_depends: texts(pkg.checkdepends@),
        opt_depends: texts(pkg.optdepends@),
        provides: texts(pkg.provides@),
        ..unknown_package()
    }
}

/// Writes the version of the packages of a PKGBUILD.
fn version_of(pkg: &ParsedPkgbuild) -> (r: String)
    ensures
        r@ == full_version(*pkg),
{
    if pkg.pkgver.as_str().is_empty() {
        return String::new();
    }
    let mut out = String::new();
    match &pkg.epoch {
        Some(epoch) => {
            out.append(epoch.as_str());
            out.append(":");
        },
        None => {},
    }
    out.append(pkg.pkgver.as_str());
    out.append("-");
    out.append(pkg.pkgrel.as_str());
    proof {
        assert(out@ =~= full_version(*pkg));
    }
    out
}

/// Synthesize AUR-style info from a locally-parsed PKGBUILD. Returns one entry per `pkgname`
/// (split packages share the same dependency metadata).
pub fn info_from_pkgbuild(pkg: &ParsedPkgbuild) -> (r: Vec<AurPackageInfo>)
    ensures
        package_views(r@) == texts(pkg.pkgname@).map_values(
            |name: Seq<char>| local_info(*pkg, name),
        ),
        r@.len() == pkg.pkgname@.len(),
        forall|i: int|
            0 <= i < r@.len() ==> {
                &&& (#[trigger] r@[i]).name@ == pkg.pkgname@[i]@
                &&& texts(r@[i].depends@) == texts(pkg.depends@)
                &&& texts(r@[i].make_depends@) == texts(pkg.makedepends@)
                &&& texts(r@[i].check_depends@) == texts(pkg.checkdepends@)
                &&& texts(r@[i].opt_depends@) == texts(pkg.optdepends@)
                &&& texts(r@[i].provides@) == texts(pkg.provides@)
            },
{
    let version = version_of(pkg);
    let base = pkg.first_pkgname();
    let n: usize = pkg.pkgname.len();
    let mut out: Vec<AurPackageInfo> = Vec::new();
    let ghost all = texts(pkg.pkgname@).map_values(|name: Seq<char>| local_info(*pkg, name));
    proof {
        assert(package_views(out@) =~= all.take(0));
    }
    for i in 0..n
        invariant
            n == pkg.pkgname@.len(),
            version@ == full_version(*pkg),
            base@ == pkg.first_name(),
            all == texts(pkg.pkgname@).map_values(|name: Seq<char>| local_info(*pkg, name)),
            package_views(out@) == all.take(i as int),
            out@.len() == i,
    {
        let info = AurPackageInfo {
            name: pkg.pkgname[i].clone(),
            version: version.clone(),
            package_base: base.clone(),
            // Marker so downstream knows this came from a local dir, not the RPC.
            maintainer: Some("(local)".to_owned()),
            depends: copy_texts(&pkg.depends),
            make_depends: copy_texts(&pkg.makedepends),
            check_depends: copy_texts(&pkg.checkdepends),
            opt_depends: copy_texts(&pkg.optdepends),
            provides: copy_texts(&pkg.provides),
            ..Default::default()
        };
        proof {
            assert(info@ == local_info(*pkg, pkg.pkgname@[i as int]@));
            assert(package_views(out@.push(info)) =~= package_views(out@).push(info@));
            assert(all.take(i + 1) =~= all.take(i as int).push(info@));
        }
        out.push(info);
    }
    proof {
        assert(all.take(n as int) =~= all);
        assert forall|i: int| 0 <= i < out@.len() implies (#[trigger] out@[i])@ == local_info(
            *pkg,
            pkg.pkgname@[i]@,
        ) by {
            assert(package_views(out@)[i] == all[i]);
        }
    }
    out
}

// ---------------------------------------------------------------------------------------
// The overlay
// ---------------------------------------------------------------------------------------

/// The packages by their names, the last one of each name.
pub open spec fn by_name(infos: Seq<PackageView>) -> Map<Seq<char>, PackageView>
    decreases infos.len(),
{
    if infos.len() == 0 {
        Map::empty()
    } else {
        by_name(infos.drop_last()).insert(infos.last().name, infos.last())
    }
}

/// A source of package information that answers from a local overlay first, and leaves the rest
/// to a remote source.
pub struct OverlaySource {
    overlay: Table<AurPackageInfo>,
}

impl View for OverlaySource {
    type V = Map<Seq<char>, PackageView>;

    closed spec fn view(&self) -> Map<Seq<char>, PackageView> {
        self.overlay@.map_values(|i: AurPackageInfo| i@)
    }
}

/// What the overlay answers of a request.
pub struct BatchLookup {
    /// The packages that the overlay has.
    pub found: Vec<AurPackageInfo>,
    /// The names to ask the remote source for.
    pub missing: Vec<String>,
}

/// The packages among `names` that the overlay has, in the order of the names.
pub open spec fn local_answers(
    overlay: Map<Seq<char>, PackageView>,
    names: Seq<Seq<char>>,
) -> Seq<PackageView> {
    names.filter(|n: Seq<char>| overlay.contains_key(n)).map_values(|n: Seq<char>| overlay[n])
}

/// The names that the overlay does not have, in order.
pub open spec fn left_to_remote(
    overlay: Map<Seq<char>, PackageView>,
    names: Seq<Seq<char>>,
) -> Seq<Seq<char>> {
    names.filter(|n: Seq<char>| !overlay.contains_key(n))
}

impl OverlaySource {
    /// Build an overlay from local infos.
    pub fn new(local: Vec<AurPackageInfo>) -> (r: Self)
        ensures
            r@ == by_name(package_views(local@)),
    {
        let mut r = OverlaySource { overlay: Table::new() };
        let n: usize = local.len();
        let ghost all = package_views(local@);
        proof {
            assert(r@ =~= Map::empty());
        }
        for i in 0..n
            invariant
                n == local@.len(),
                all == package_views(local@),
                r@ == by_name(all.take(i as int)),
        {
            let info: AurPackageInfo = local[i].clone();
            let name: String = info.name.clone();
            let ghost before = r@;
            let ghost key = name@;
            let ghost view = info@;
            r.overlay.insert(name, info);
            proof {
                assert(r@ =~= before.insert(key, view));
                assert(all.take(i + 1).drop_last() =~= all.take(i as int));
                assert(all.take(i + 1).last() == view);
            }
        }
        proof {
            assert(all.take(n as int) =~= all);
        }
        r
    }

    /// Names served from the local overlay, each one once.
    pub fn local_names(&self) -> (r: Vec<String>)
        ensures
            texts(r@).no_duplicates(),
            texts(r@).to_set() == self@.dom(),
    {
        proof {
            assert(self@.dom() =~= self.overlay@.dom());
        }
        self.overlay.keys()
    }

    /// What the overlay answers of a request for `names`, and what is left to the remote source.
    pub fn lookup(&self, names: &Vec<String>) -> (r: BatchLookup)
        ensures
            package_views(r.found@) == local_answers(self@, texts(names@)),
            texts(r.missing@) == left_to_remote(self@, texts(names@)),
    {
        let n: usize = names.len();
        let mut found: Vec<AurPackageInfo> = Vec::new();
        let mut missing: Vec<String> = Vec::new();
        let ghost all = texts(names@);
        let ghost has = |n: Seq<char>| self@.contains_key(n);
        let ghost lacks = |n: Seq<char>| !self@.contains_key(n);
        let ghost get = |n: Seq<char>| self@[n];
        proof {
            reveal(Seq::filter);
            assert(package_views(found@) =~= all.take(0).filter(has).map_values(get));
            assert(texts(missing@) =~= all.take(0).filter(lacks));
        }
        for i in 0..n
            invariant
                n == names@.len(),
                all == texts(names@),
                has == (|n: Seq<char>| self@.contains_key(n)),
                lacks == (|n: Seq<char>| !self@.contains_key(n)),
                get == (|n: Seq<char>| self@[n]),
                package_views(found@) == all.take(i as int).filter(has).map_values(get),
                texts(missing@) == all.take(i as int).filter(lacks),
        {
            proof {
                reveal(Seq::filter);
                assert(all.take(i + 1).drop_last() =~= all.take(i as int));
                assert(all.take(i + 1).last() == names@[i as int]@);
            }
            match self.overlay.get(names[i].as_str()) {
                Some(info) => {
                    let copy: AurPackageInfo = info.clone();
                    proof {
                        assert(copy@ == self@[names@[i as int]@]);
                        assert(package_views(found@.push(copy)) =~= package_views(found@).push(
                            copy@,
                        ));
                        assert(all.take(i + 1).filter(has).map_values(get) =~= all.take(
                            i as int,
                        ).filter(has).map_values(get).push(copy@));
                    }
                    found.push(copy);
                },
                None => {
                    let name: String = names[i].clone();
                    proof {
                        assert(texts(missing@.push(name)) =~= texts(missing@).push(name@));
                    }
                    missing.push(name);
                },
            }
        }
        proof {
            assert(all.take(n as int) =~= all);
        }
        BatchLookup { found, missing }
    }
}

/// The answer to a request: what the overlay has, then what the remote source answered about the
/// rest. `remote` is that answer, and is asked for only where something is missing.
pub fn merge_batch(lookup: BatchLookup, remote: Result<Vec<AurPackageInfo>, ScanError>) -> (r: Result<
    Vec<AurPackageInfo>,
    ScanError,
>)
    ensures
        match r {
            Ok(infos) => if lookup.missing@.len() == 0 {
                infos@ == lookup.found@
            } else {
                remote matches Ok(more) && infos@ == lookup.found@ + more@
            },
            Err(e) => lookup.missing@.len() > 0 && remote == Err::<Vec<AurPackageInfo>, ScanError>(
                e,
            ),
        },
{
    let mut out: Vec<AurPackageInfo> = lookup.found;
    if lookup.missing.len() > 0 {
        match remote {
            Ok(mut more) => {
                out.append(&mut more);
            },
            Err(e) => {
                return Err(e);
            },
        }
    }
    Ok(out)
}

// ---------------------------------------------------------------------------------------
// Laws
// ---------------------------------------------------------------------------------------

/// Every requested name is either answered locally or left to the remote source, never both;
/// how many there are of each adds up.
pub proof fn law_every_name_is_answered_or_passed_on(
    overlay: Map<Seq<char>, PackageView>,
    names: Seq<Seq<char>>,
)
    ensures
        local_answers(overlay, names).len() + left_to_remote(overlay, names).len() == names.len(),
        forall|i: int|
            0 <= i < names.len() ==> (left_to_remote(overlay, names).contains(#[trigger] names[i])
                <==> !overlay.contains_key(names[i])),
    decreases names.len(),
{
    reveal(Seq::filter);
    let has = |n: Seq<char>| overlay.contains_key(n);
    let lacks = |n: Seq<char>| !overlay.contains_key(n);
    if names.len() > 0 {
        law_every_name_is_answered_or_passed_on(overlay, names.drop_last());
    }
    assert forall|i: int| 0 <= i < names.len() implies (left_to_remote(overlay, names).contains(
        #[trigger] names[i],
    ) <==> !overlay.contains_key(names[i])) by {
        if !overlay.contains_key(names[i]) {
            names.lemma_filter_contains(lacks, i);
        } else if left_to_remote(overlay, names).contains(names[i]) {
            let left = left_to_remote(overlay, names);
            let j = choose|j: int| 0 <= j < left.len() && left[j] == names[i];
            names.lemma_filter_pred(lacks, j);
        }
    }
}

/// The local answers are the overlay's own packages, under the names they were asked for.
pub proof fn law_local_answers_come_from_overlay(
    infos: Seq<PackageView>,
    names: Seq<Seq<char>>,
    i: int,
)
    requires
        0 <= i < local_answers(by_name(infos), names).len(),
    ensures
        infos.contains(local_answers(by_name(infos), names)[i]),
        names.contains(local_answers(by_name(infos), names)[i].name),
{
    let overlay = by_name(infos);
    let has = |n: Seq<char>| overlay.contains_key(n);
    let asked = names.filter(has);
    names.lemma_filter_pred(has, i);
    assert(asked.contains(asked[i]));
    names.lemma_filter_contains_rev(has, asked[i]);
    lemma_by_name(infos, asked[i]);
}

/// The packages of one PKGBUILD share everything but their names.
pub proof fn law_split_packages_share_metadata(
    pkg: ParsedPkgbuild,
    name: Seq<char>,
    other: Seq<char>,
)
    ensures
        local_info(pkg, name) == (PackageView { name, ..local_info(pkg, other) }),
{
}

proof fn lemma_by_name(infos: Seq<PackageView>, name: Seq<char>)
    requires
        by_name(infos).contains_key(name),
    ensures
        infos.contains(by_name(infos)[name]),
        by_name(infos)[name].name == name,
    decreases infos.len(),
{
    if infos.len() > 0 {
        let last = infos.last();
        if last.name == name {
            assert(infos[infos.len() - 1] == last);
        } else {
            let rest = infos.drop_last();
            lemma_by_name(rest, name);
            let j = choose|j: int| 0 <= j < rest.len() && rest[j] == by_name(rest)[name];
            assert(infos[j] == by_name(infos)[name]);
        }
    }
}

} // verus!
