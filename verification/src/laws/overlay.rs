//! Laws on local packages.

use crate::aur::PackageView;
use crate::overlay::{by_name, full_version, left_to_remote, local_answers, local_info};
use crate::parser::ParsedPkgbuild;
use vstd::prelude::*;

verus! {

/// What a PKGBUILD says of a package is what it says: each list is the one of the same kind, the
/// base is its first name, and what only the AUR knows is not known.
pub proof fn law_local_packages_say_what_the_pkgbuild_says(pkg: ParsedPkgbuild, name: Seq<char>)
    ensures
        ({
            let info = local_info(pkg, name);
            &&& info.name == name
            &&& info.maintainer == Some("(local)"@)
            &&& pkg.pkgname@.len() > 0 ==> info.package_base == pkg.pkgname@[0]@
            &&& pkg.pkgname@.len() == 0 ==> info.package_base.len() == 0
            &&& info.depends == pkg.depends@.map_values(|s: String| s@)
            &&& info.make_depends == pkg.makedepends@.map_values(|s: String| s@)
            &&& info.check_depends == pkg.checkdepends@.map_values(|s: String| s@)
            &&& info.opt_depends == pkg.optdepends@.map_values(|s: String| s@)
            &&& info.provides == pkg.provides@.map_values(|s: String| s@)
            &&& info.description is None
            &&& info.num_votes is None
            &&& info.popularity_bits is None
            &&& info.out_of_date is None
            &&& info.first_submitted is None
            &&& info.last_modified is None
        }),
{
}

/// The version of a local package: with its release, with its epoch in front where there is one,
/// and none where the PKGBUILD has none.
pub proof fn law_local_version(pkg: ParsedPkgbuild, name: Seq<char>)
    ensures
        pkg.pkgver@.len() == 0 ==> local_info(pkg, name).version.len() == 0,
        pkg.pkgver@.len() > 0 && pkg.epoch is None ==> local_info(pkg, name).version
            == pkg.pkgver@ + "-"@ + pkg.pkgrel@,
        pkg.epoch matches Some(epoch) ==> pkg.pkgver@.len() > 0 ==> local_info(pkg, name).version
            == epoch@ + ":"@ + (pkg.pkgver@ + "-"@ + pkg.pkgrel@),
        full_version(pkg) == local_info(pkg, name).version,
{
}

/// Of the local packages, the last one of each name is in the overlay, and no other.
pub proof fn law_last_local_package_counts(infos: Seq<PackageView>, last: PackageView)
    ensures
        by_name(Seq::empty()) == Map::<Seq<char>, PackageView>::empty(),
        by_name(infos.push(last)) == by_name(infos).insert(last.name, last),
{
    assert(infos.push(last).drop_last() =~= infos);
}

/// Each requested name is answered from the overlay, in order, where that has it, and is else
/// left to the remote source, in order.
pub proof fn law_requests_are_answered_name_by_name(
    overlay: Map<Seq<char>, PackageView>,
    names: Seq<Seq<char>>,
    name: Seq<char>,
)
    ensures
        local_answers(overlay, Seq::empty()) == Seq::<PackageView>::empty(),
        left_to_remote(overlay, Seq::empty()) == Seq::<Seq<char>>::empty(),
        overlay.contains_key(name) ==> {
            &&& local_answers(overlay, names.push(name)) == local_answers(overlay, names).push(
                overlay[name],
            )
            &&& left_to_remote(overlay, names.push(name)) == left_to_remote(overlay, names)
        },
        !overlay.contains_key(name) ==> {
            &&& local_answers(overlay, names.push(name)) == local_answers(overlay, names)
            &&& left_to_remote(overlay, names.push(name)) == left_to_remote(overlay, names).push(
                name,
            )
        },
{
    reveal(Seq::filter);
    let more = names.push(name);
    assert(more.drop_last() =~= names);
    assert(more.last() == name);
    assert(local_answers(overlay, Seq::empty()) =~= seq![]);
    assert(left_to_remote(overlay, Seq::empty()) =~= seq![]);
    if overlay.contains_key(name) {
        assert(local_answers(overlay, more) =~= local_answers(overlay, names).push(overlay[name]));
    }
}

} // verus!
