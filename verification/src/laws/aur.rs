//! Laws on what is asked of the AUR and of the programs that fetch from it.

use crate::aur::{
    clone_arguments, clone_variables, first_word, git_url, info_args, line_script,
    official_arguments, package_views, script_names, unknown_package, up_to_space, AurPackageInfo,
    RpcResponse, AUR_GIT_URL, AUR_RPC_URL,
};
use crate::install::is_bare_name;
use crate::laws::text::law_beginning;
use crate::text::{is_space, lines, replaced, starts_with, trim, trim_start, Class};
use vstd::prelude::*;

verus! {

// ---------------------------------------------------------------------------------------
// Packages
// ---------------------------------------------------------------------------------------

/// Of an unknown package nothing is known.
pub proof fn law_nothing_is_known_of_it()
    ensures
        ({
            let p = unknown_package();
            &&& p.name.len() == 0 && p.version.len() == 0 && p.package_base.len() == 0
            &&& p.description is None && p.maintainer is None
            &&& p.num_votes is None && p.popularity_bits is None
            &&& p.out_of_date is None && p.first_submitted is None && p.last_modified is None
            &&& p.depends.len() == 0 && p.make_depends.len() == 0 && p.check_depends.len() == 0
            &&& p.opt_depends.len() == 0 && p.provides.len() == 0
        }),
{
}

/// The views of packages are those of each one, in order.
pub proof fn law_package_views(infos: Seq<AurPackageInfo>)
    ensures
        package_views(infos).len() == infos.len(),
        forall|i: int| 0 <= i < infos.len() ==> #[trigger] package_views(infos)[i] == infos[i]@,
{
}

// ---------------------------------------------------------------------------------------
// The RPC API
// ---------------------------------------------------------------------------------------

/// Where the AUR is.
pub proof fn law_addresses()
    ensures
        AUR_RPC_URL@ == "https://aur.archlinux.org/rpc/v5"@,
        AUR_GIT_URL@ == "https://aur.archlinux.org"@,
{
}

/// A request for packages has one argument for each name, in order.
pub proof fn law_arguments_of_requests(names: Seq<Seq<char>>)
    ensures
        info_args(names).len() == names.len(),
        forall|i: int|
            0 <= i < names.len() ==> #[trigger] info_args(names)[i] == "arg[]="@ + names[i],
{
}

/// A response reports an error by its message, or by its type, for which there is a message where
/// it has none. Any other response reports none.
pub proof fn law_reported_errors(response: RpcResponse)
    ensures
        response.error matches Some(m) ==> response.reported_error() == Some(m@),
        response.error is None && response.response_type@ == "error"@ ==> response.reported_error()
            == Some("Unknown error"@),
        response.error is None && response.response_type@ != "error"@
            ==> response.reported_error() is None,
{
}

// ---------------------------------------------------------------------------------------
// Cloning
// ---------------------------------------------------------------------------------------

/// The repository of a package, and the arguments with which git clones it, one by one.
pub proof fn law_arguments_of_clones(package_base: Seq<char>)
    ensures
        git_url(package_base) == "https://aur.archlinux.org"@ + "/"@ + package_base + ".git"@,
        ({
            let a = clone_arguments(package_base);
            &&& a.len() == 15
            &&& a[0] == "-c"@ && a[1] == "core.hooksPath=/dev/null"@
            &&& a[2] == "-c"@ && a[3] == "protocol.file.allow=never"@
            &&& a[4] == "-c"@ && a[5] == "protocol.ext.allow=never"@
            &&& a[6] == "-c"@ && a[7] == "core.symlinks=false"@
            &&& a[8] == "clone"@
            &&& a[9] == "--depth=1"@
            &&& a[10] == "--no-tags"@
            &&& a[11] == "--no-recurse-submodules"@
            &&& a[12] == "--"@
            &&& a[13] == git_url(package_base)
            &&& a[14] == "."@
        }),
        clone_variables().len() == 1,
        clone_variables()[0] == ("GIT_TERMINAL_PROMPT"@, "0"@),
{
}

// ---------------------------------------------------------------------------------------
// Install scripts
// ---------------------------------------------------------------------------------------

/// A line that begins with `install=` declares what comes behind it, without the space around it
/// and without the quotes around the rest, where that is a bare filename; no other line declares
/// anything.
pub proof fn law_scripts_on_lines(value: Seq<char>, line: Seq<char>)
    ensures
        ({
            let name = trim(trim(value, Class::Space), Class::Quote);
            line_script("install="@ + value) == (if is_bare_name(name) {
                Some(name)
            } else {
                None
            })
        }),
        line_script(line) is Some ==> line == "install="@ + line.skip(8),
{
    reveal_strlit("install=");
    let prefix = "install="@;
    let whole = prefix + value;
    law_beginning(whole, prefix);
    assert(whole.take(8) =~= prefix);
    assert(starts_with(whole, prefix));
    assert(whole.skip(8) =~= value);
    law_beginning(line, prefix);
    if line_script(line) is Some {
        assert(line =~= line.take(8) + line.skip(8));
    }
}

/// The common filenames come first, and behind them what the lines of the PKGBUILD declare, in
/// order.
pub proof fn law_candidates(package_base: Seq<char>, pkgbuild: Seq<char>)
    ensures
        script_names(package_base, None) == seq![
            package_base + ".install"@,
            "install"@,
            replaced(package_base, "-"@, "_"@) + ".install"@,
        ],
        script_names(package_base, Some(pkgbuild)) == script_names(package_base, None)
            + declared_names(lines(pkgbuild)),
{
    lemma_declared_names(lines(pkgbuild));
    let common = seq![
        package_base + ".install"@,
        "install"@,
        replaced(package_base, "-"@, "_"@) + ".install"@,
    ];
    assert(common + Seq::<Seq<char>>::empty() =~= common);
}

/// What the lines declare, in order.
pub open spec fn declared_names(ls: Seq<Seq<char>>) -> Seq<Seq<char>>
    decreases ls.len(),
{
    if ls.len() == 0 {
        seq![]
    } else {
        declared_names(ls.drop_last()) + (match line_script(ls.last()) {
            Some(name) => seq![name],
            None => seq![],
        })
    }
}

proof fn lemma_declared_names(ls: Seq<Seq<char>>)
    ensures
        ls.filter_map(|line: Seq<char>| line_script(line)) == declared_names(ls),
    decreases ls.len(),
{
    let f = |line: Seq<char>| line_script(line);
    if ls.len() > 0 {
        lemma_declared_names(ls.drop_last());
    }
    assert(ls.filter_map(f) =~= declared_names(ls));
}

// ---------------------------------------------------------------------------------------
// Installed packages
// ---------------------------------------------------------------------------------------

/// The arguments with which pacman is asked about a package, one by one.
pub proof fn law_arguments_of_questions(package_name: Seq<char>)
    ensures
        official_arguments(package_name).len() == 3,
        official_arguments(package_name)[0] == "-Si"@,
        official_arguments(package_name)[1] == "--"@,
        official_arguments(package_name)[2] == package_name,
{
}

/// The first word of a line is what stands between the space in front and the next space; a line
/// of space alone has none.
pub proof fn law_first_words(space: Seq<char>, word: Seq<char>, rest: Seq<char>)
    requires
        forall|i: int| 0 <= i < space.len() ==> is_space(#[trigger] space[i]),
        forall|i: int| 0 <= i < word.len() ==> !is_space(#[trigger] word[i]),
        rest.len() > 0 ==> is_space(rest[0]),
    ensures
        word.len() > 0 ==> first_word(space + word + rest) == Some(word),
        first_word(space) is None,
{
    lemma_space_in_front(space, word + rest);
    assert(space + word + rest =~= space + (word + rest));
    lemma_space_in_front(space, seq![]);
    assert(space + Seq::<char>::empty() =~= space);
    lemma_up_to_space(word, rest);
    if word.len() > 0 {
        let line = word + rest;
        assert(line[0] == word[0]);
        assert(trim_start(line, Class::Space) == line);
    }
}

proof fn lemma_space_in_front(space: Seq<char>, line: Seq<char>)
    requires
        forall|i: int| 0 <= i < space.len() ==> is_space(#[trigger] space[i]),
    ensures
        trim_start(space + line, Class::Space) == trim_start(line, Class::Space),
    decreases space.len(),
{
    if space.len() == 0 {
        assert(space + line =~= line);
    } else {
        let more = space.skip(1);
        assert forall|i: int| 0 <= i < more.len() implies is_space(#[trigger] more[i]) by {
            assert(more[i] == space[i + 1]);
        }
        lemma_space_in_front(more, line);
        let all = space + line;
        assert(all[0] == space[0]);
        assert(is_space(space[0]));
        assert(all.skip(1) =~= more + line);
    }
}

proof fn lemma_up_to_space(word: Seq<char>, rest: Seq<char>)
    requires
        forall|i: int| 0 <= i < word.len() ==> !is_space(#[trigger] word[i]),
        rest.len() > 0 ==> is_space(rest[0]),
    ensures
        up_to_space(word + rest) == word,
    decreases word.len(),
{
    let all = word + rest;
    if word.len() == 0 {
        assert(all =~= rest);
        assert(up_to_space(all) =~= word);
    } else {
        let more = word.skip(1);
        assert forall|i: int| 0 <= i < more.len() implies !is_space(#[trigger] more[i]) by {
            assert(more[i] == word[i + 1]);
        }
        lemma_up_to_space(more, rest);
        assert(all[0] == word[0]);
        assert(!is_space(word[0]));
        assert(all.skip(1) =~= more + rest);
        assert(seq![word[0]] + more =~= word);
    }
}

} // verus!
