//! AUR package fetching and information retrieval
//!
//! What is asked of the AUR and of the programs that fetch from it, and what their answers mean.

use crate::error::{IoError, IoKind, ScanError, ScanErrorView};
use crate::install::{bare_name, is_bare_name};
use crate::text::{
    chars_of, copy_texts, is_space, join_texts, joined, lines, lines_of, opt_text, replace_text,
    replaced, same_text, starts_with, text_occurs_at, text_of, texts, trim, trimmed, Class,
};
use vstd::prelude::*;

verus! {

/// AUR RPC API base URL
pub const AUR_RPC_URL: &'static str = "https://aur.archlinux.org/rpc/v5";

/// AUR Git base URL
pub const AUR_GIT_URL: &'static str = "https://aur.archlinux.org";

// ---------------------------------------------------------------------------------------
// Packages
// ---------------------------------------------------------------------------------------

/// Information about an AUR package from the RPC API
#[derive(Debug)]
pub struct AurPackageInfo {
    pub name: String,
    pub version: String,
    pub description: Option<String>,
    pub maintainer: Option<String>,
    pub num_votes: Option<i32>,
    /// The popularity, as the bits of its double-precision representation.
    pub popularity_bits: Option<u64>,
    pub out_of_date: Option<i64>,
    pub first_submitted: Option<i64>,
    pub last_modified: Option<i64>,
    pub package_base: String,
    /// Runtime dependencies (may carry version constraints).
    pub depends: Vec<String>,
    /// Build-time dependencies.
    pub make_depends: Vec<String>,
    /// Test-time dependencies.
    pub check_depends: Vec<String>,
    /// Optional dependencies (may carry ": description").
    pub opt_depends: Vec<String>,
    /// Virtual names this package provides.
    pub provides: Vec<String>,
}

/// What is known of a package.
pub struct PackageView {
    pub name: Seq<char>,
    pub version: Seq<char>,
    pub description: Option<Seq<char>>,
    pub maintainer: Option<Seq<char>>,
    pub num_votes: Option<i32>,
    pub popularity_bits: Option<u64>,
    pub out_of_date: Option<i64>,
    pub first_submitted: Option<i64>,
    pub last_modified: Option<i64>,
    pub package_base: Seq<char>,
    pub depends: Seq<Seq<char>>,
    pub make_depends: Seq<Seq<char>>,
    pub check_depends: Seq<Seq<char>>,
    pub opt_depends: Seq<Seq<char>>,
    pub provides: Seq<Seq<char>>,
}

impl View for AurPackageInfo {
    type V = PackageView;

    open spec fn view(&self) -> PackageView {
        PackageView {
            name: self.name@,
            version: self.version@,
            description: opt_text(self.description),
            maintainer: opt_text(self.maintainer),
            num_votes: self.num_votes,
            popularity_bits: self.popularity_bits,
            out_of_date: self.out_of_date,
            first_submitted: self.first_submitted,
            last_modified: self.last_modified,
            package_base: self.package_base@,
            depends: texts(self.depends@),
            make_depends: texts(self.make_depends@),
            check_depends: texts(self.check_depends@),
            opt_depends: texts(self.opt_depends@),
            provides: texts(self.provides@),
        }
    }
}

/// What is known of packages.
pub open spec fn package_views(infos: Seq<AurPackageInfo>) -> Seq<PackageView> {
    infos.map_values(|i: AurPackageInfo| i@)
}

impl Clone for AurPackageInfo {
    fn clone(&self) -> (r: Self)
        ensures
            r@ == self@,
    {
        AurPackageInfo {
            name: self.name.clone(),
            version: self.version.clone(),
            description: self.description.clone(),
            maintainer: self.maintainer.clone(),
            num_votes: self.num_votes,
            popularity_bits: self.popularity_bits,
            out_of_date: self.out_of_date,
            first_submitted: self.first_submitted,
            last_modified: self.last_modified,
            package_base: self.package_base.clone(),
            depends: copy_texts(&self.depends),
            make_depends: copy_texts(&self.make_depends),
            check_depends: copy_texts(&self.check_depends),
            opt_depends: copy_texts(&self.opt_depends),
            provides: copy_texts(&self.provides),
        }
    }
}

/// A package of which nothing is known.
pub open spec fn unknown_package() -> PackageView {
    PackageView {
        name: seq![],
        version: seq![],
        description: None,
        maintainer: None,
        num_votes: None,
        popularity_bits: None,
        out_of_date: None,
        first_submitted: None,
        last_modified: None,
        package_base: seq![],
        depends: seq![],
        make_depends: seq![],
        check_depends: seq![],
        opt_depends: seq![],
        provides: seq![],
    }
}

impl Default for AurPackageInfo {
    fn default() -> (r: Self)
        ensures
            r@ == unknown_package(),
    {
        let r = AurPackageInfo {
            name: String::new(),
            version: String::new(),
            description: None,
            maintainer: None,
            num_votes: None,
            popularity_bits: None,
            out_of_date: None,
            first_submitted: None,
            last_modified: None,
            package_base: String::new(),
            depends: Vec::new(),
            make_depends: Vec::new(),
            check_depends: Vec::new(),
            opt_depends: Vec::new(),
            provides: Vec::new(),
        };
        proof {
            assert(r@.depends =~= seq![]);
            assert(r@.make_depends =~= seq![]);
            assert(r@.check_depends =~= seq![]);
            assert(r@.opt_depends =~= seq![]);
            assert(r@.provides =~= seq![]);
        }
        r
    }
}

// ---------------------------------------------------------------------------------------
// The RPC API
// ---------------------------------------------------------------------------------------

/// RPC API response wrapper
#[derive(Debug)]
pub struct RpcResponse {
    pub response_type: String,
    pub resultcount: i32,
    pub results: Vec<AurPackageInfo>,
    pub error: Option<String>,
}

impl RpcResponse {
    /// The error that a response reports: by its type, or by a message.
    pub open spec fn reported_error(self) -> Option<Seq<char>> {
        match self.error {
            Some(m) => Some(m@),
            None => if self.response_type@ == "error"@ {
                Some("Unknown error"@)
            } else {
                None
            },
        }
    }
}

/// The URL that gives information about a package.
pub fn package_info_url(package_name: &str) -> (r: String)
    ensures
        r@ == AUR_RPC_URL@ + "/info/"@ + package_name@,
{
    let mut url: String = AUR_RPC_URL.to_owned();
    url.append("/info/");
    url.append(package_name);
    url
}

/// The URL that searches for packages.
pub fn search_url(query: &str) -> (r: String)
    ensures
        r@ == AUR_RPC_URL@ + "/search/"@ + query@,
{
    let mut url: String = AUR_RPC_URL.to_owned();
    url.append("/search/");
    url.append(query);
    url
}

/// The arguments that ask for the packages with the given names.
pub open spec fn info_args(names: Seq<Seq<char>>) -> Seq<Seq<char>> {
    names.map_values(|n: Seq<char>| "arg[]="@ + n)
}

/// The URL that gives information about several packages at once; none for no packages, about
/// which there is nothing to ask.
pub fn multiple_info_url(package_names: &Vec<String>) -> (r: Option<String>)
    ensures
        match r {
            Some(url) => package_names@.len() > 0 && url@ == AUR_RPC_URL@ + "/info?"@ + joined(
                info_args(texts(package_names@)),
                "&"@,
            ),
            None => package_names@.len() == 0,
        },
{
    let n: usize = package_names.len();
    if n == 0 {
        return None;
    }
    let mut args: Vec<String> = Vec::new();
    let ghost all = info_args(texts(package_names@));
    proof {
        assert(texts(args@) =~= all.take(0));
    }
    for i in 0..n
        invariant
            n == package_names@.len(),
            all == info_args(texts(package_names@)),
            texts(args@) == all.take(i as int),
    {
        let mut arg: String = "arg[]=".to_owned();
        arg.append(package_names[i].as_str());
        proof {
            assert(texts(args@.push(arg)) =~= texts(args@).push(arg@));
            assert(all.take(i + 1) =~= all.take(i as int).push(arg@));
        }
        args.push(arg);
    }
    proof {
        assert(all.take(n as int) =~= all);
    }
    let mut url: String = AUR_RPC_URL.to_owned();
    url.append("/info?");
    url.append(join_texts(&args, "&").as_str());
    Some(url)
}

/// The packages of a response, unless it reports an error.
pub fn packages_from_response(response: RpcResponse) -> (r: Result<Vec<AurPackageInfo>, ScanError>)
    ensures
        match r {
            Ok(infos) => response.reported_error() is None && infos == response.results,
            Err(e) => response.reported_error() matches Some(m) && e@ == ScanErrorView::Network(
                "AUR API error: "@ + m,
            ),
        },
{
    let failed = same_text(response.response_type.as_str(), "error");
    let mut message: String = "AUR API error: ".to_owned();
    match response.error {
        Some(m) => {
            message.append(m.as_str());
            Err(ScanError::Network(message))
        },
        None => {
            if failed {
                message.append("Unknown error");
                Err(ScanError::Network(message))
            } else {
                Ok(response.results)
            }
        },
    }
}

/// The package that a response to a request for one is about. A response that counts results
/// has some.
pub fn package_from_response(response: RpcResponse, package_name: &str) -> (r: Result<
    AurPackageInfo,
    ScanError,
>)
    requires
        response.reported_error() is None && response.resultcount != 0 ==> response.results@.len()
            > 0,
    ensures
        match r {
            Ok(info) => response.reported_error() is None && response.resultcount != 0 && info
                == response.results@[0],
            Err(e) => match response.reported_error() {
                Some(m) => e@ == ScanErrorView::Network("AUR API error: "@ + m),
                None => response.resultcount == 0 && e@ == ScanErrorView::NotFound(
                    "Package '"@ + package_name@ + "' not found in AUR"@,
                ),
            },
        },
{
    let count: i32 = response.resultcount;
    match packages_from_response(response) {
        Ok(mut infos) => {
            if count == 0 {
                let mut message: String = "Package '".to_owned();
                message.append(package_name);
                message.append("' not found in AUR");
                Err(ScanError::NotFound(message))
            } else {
                Ok(infos.remove(0))
            }
        },
        Err(e) => Err(e),
    }
}

// ---------------------------------------------------------------------------------------
// Cloning
// ---------------------------------------------------------------------------------------

/// The URL of a package's git repository.
pub open spec fn git_url(package_base: Seq<char>) -> Seq<char> {
    AUR_GIT_URL@ + "/"@ + package_base + ".git"@
}

/// The arguments with which git clones a package's repository into the current directory, with
/// full hardening against repo-side code execution and option/protocol abuse.
pub open spec fn clone_arguments(package_base: Seq<char>) -> Seq<Seq<char>> {
    seq![
        "-c"@,
        "core.hooksPath=/dev/null"@,
        "-c"@,
        "protocol.file.allow=never"@,
        "-c"@,
        "protocol.ext.allow=never"@,
        "-c"@,
        "core.symlinks=false"@,
        "clone"@,
        "--depth=1"@,
        "--no-tags"@,
        "--no-recurse-submodules"@,
        "--"@,
        git_url(package_base),
        "."@,
    ]
}

/// The arguments with which git clones an AUR package's repository into the current directory.
///
/// Hardening:
///  - core.hooksPath=/dev/null : never run hooks from the clone
///  - protocol.{file,ext}.allow=never : block file:// and ext:: vectors
///  - core.symlinks=false : write symlinks as plain files (no escape)
///  - --no-recurse-submodules : never fetch/initialize submodules
///  - `--` before the URL : the URL can never be parsed as an option
pub fn clone_args(package_base: &str) -> (r: Vec<String>)
    ensures
        texts(r@) == clone_arguments(package_base@),
{
    let mut url: String = AUR_GIT_URL.to_owned();
    url.append("/");
    url.append(package_base);
    url.append(".git");
    let mut args: Vec<String> = Vec::new();
    args.push("-c".to_owned());
    args.push("core.hooksPath=/dev/null".to_owned());
    args.push("-c".to_owned());
    args.push("protocol.file.allow=never".to_owned());
    args.push("-c".to_owned());
    args.push("protocol.ext.allow=never".to_owned());
    args.push("-c".to_owned());
    args.push("core.symlinks=false".to_owned());
    args.push("clone".to_owned());
    args.push("--depth=1".to_owned());
    args.push("--no-tags".to_owned());
    args.push("--no-recurse-submodules".to_owned());
    args.push("--".to_owned());
    args.push(url);
    args.push(".".to_owned());
    proof {
        assert(texts(args@) =~= clone_arguments(package_base@));
    }
    args
}

/// The environment in which git is run to clone a package, beside what it inherits.
pub open spec fn clone_variables() -> Seq<(Seq<char>, Seq<char>)> {
    seq![("GIT_TERMINAL_PROMPT"@, "0"@)]
}

/// The environment in which git is run to clone a package, beside what it inherits:
/// `GIT_TERMINAL_PROMPT=0`, so that it never blocks on a credential prompt.
pub fn clone_environment() -> (r: Vec<(String, String)>)
    ensures
        r@.map_values(|v: (String, String)| (v.0@, v.1@)) == clone_variables(),
{
    let mut r: Vec<(String, String)> = Vec::new();
    r.push(("GIT_TERMINAL_PROMPT".to_owned(), "0".to_owned()));
    proof {
        assert(r@.map_values(|v: (String, String)| (v.0@, v.1@)) =~= clone_variables());
    }
    r
}

/// What the exit of git means for a clone.
pub fn clone_outcome(success: bool, stderr: &str) -> (r: Result<(), ScanError>)
    ensures
        match r {
            Ok(_) => success,
            Err(e) => !success && e@ == ScanErrorView::Network(
                "Failed to clone AUR repo: "@ + stderr@,
            ),
        },
{
    if success {
        Ok(())
    } else {
        let mut message: String = "Failed to clone AUR repo: ".to_owned();
        message.append(stderr);
        Err(ScanError::Network(message))
    }
}

/// Refuses a clone in which there is no PKGBUILD.
pub fn check_fetched(pkgbuild_exists: bool) -> (r: Result<(), ScanError>)
    ensures
        match r {
            Ok(_) => pkgbuild_exists,
            Err(e) => !pkgbuild_exists && e@ == ScanErrorView::NotFound(
                "PKGBUILD not found in cloned repository"@,
            ),
        },
{
    if pkgbuild_exists {
        Ok(())
    } else {
        Err(ScanError::NotFound("PKGBUILD not found in cloned repository".to_owned()))
    }
}

// ---------------------------------------------------------------------------------------
// Install scripts
// ---------------------------------------------------------------------------------------

/// The install script that a line of a PKGBUILD declares, where it declares a bare filename.
pub open spec fn line_script(line: Seq<char>) -> Option<Seq<char>> {
    if starts_with(line, "install="@) {
        let name = trim(trim(line.skip(8), Class::Space), Class::Quote);
        if is_bare_name(name) {
            Some(name)
        } else {
            None
        }
    } else {
        None
    }
}

/// The filenames under which a package's install script may be found, the likeliest first:
/// those that are common, then those that its PKGBUILD declares.
pub open spec fn script_names(package_base: Seq<char>, pkgbuild: Option<Seq<char>>) -> Seq<Seq<char>> {
    seq![
        package_base + ".install"@,
        "install"@,
        replaced(package_base, "-"@, "_"@) + ".install"@,
    ] + (match pkgbuild {
        Some(content) => lines(content).filter_map(|line: Seq<char>| line_script(line)),
        None => seq![],
    })
}

/// The install script that a line of a PKGBUILD declares. Only a bare filename is accepted;
/// traversal is rejected so a hostile `install=` value cannot escape the package directory.
fn script_on_line(line: &str) -> (r: Option<String>)
    ensures
        match r {
            Some(name) => line_script(line@) == Some(name@),
            None => line_script(line@) is None,
        },
{
    let chars = chars_of(line);
    let prefix = chars_of("install=");
    proof {
        reveal_strlit("install=");
    }
    if !text_occurs_at(chars.as_slice(), prefix.as_slice(), 0) {
        return None;
    }
    let rest = text_of(vstd::slice::slice_subrange(chars.as_slice(), 8, chars.len()));
    proof {
        assert(rest@ == line@.skip(8));
    }
    let value = trimmed(rest.as_str(), Class::Space);
    let name = trimmed(value.as_str(), Class::Quote);
    if bare_name(name.as_str()) {
        Some(name)
    } else {
        None
    }
}

/// The filenames under which a package's install script may be found, the likeliest first. The
/// install script is the first of them that exists in the package directory.
pub fn install_script_candidates(package_base: &str, pkgbuild: Option<&str>) -> (r: Vec<String>)
    ensures
        texts(r@) == script_names(
            package_base@,
            match pkgbuild {
                Some(content) => Some(content@),
                None => None,
            },
        ),
{
    let mut first: String = package_base.to_owned();
    first.append(".install");
    proof {
        reveal_strlit("-");
    }
    let mut third: String = replace_text(package_base, "-", "_");
    third.append(".install");
    let mut out: Vec<String> = Vec::new();
    out.push(first);
    out.push("install".to_owned());
    out.push(third);
    let ghost common = texts(out@);
    match pkgbuild {
        Some(content) => {
            let all = lines_of(content);
            let n: usize = all.len();
            let ghost ls = lines(content@);
            let ghost f = |line: Seq<char>| line_script(line);
            proof {
                assert(common + ls.take(0).filter_map(f) =~= common);
            }
            for i in 0..n
                invariant
                    n == all@.len(),
                    texts(all@) == ls,
                    f == (|line: Seq<char>| line_script(line)),
                    texts(out@) == common + ls.take(i as int).filter_map(f),
            {
                proof {
                    assert(ls.take(i + 1).drop_last() =~= ls.take(i as int));
                    assert(ls.take(i + 1).last() == all@[i as int]@);
                }
                match script_on_line(all[i].as_str()) {
                    Some(name) => {
                        proof {
                            assert(texts(out@.push(name)) =~= texts(out@).push(name@));
                            assert(common + (ls.take(i as int).filter_map(f) + seq![name@]) =~= (
                            common + ls.take(i as int).filter_map(f)).push(name@));
                        }
                        out.push(name);
                    },
                    None => {},
                }
            }
            proof {
                assert(ls.take(n as int) =~= ls);
            }
        },
        None => {
            proof {
                assert(common + seq![] =~= common);
            }
        },
    }
    proof {
        assert(common =~= seq![
            package_base@ + ".install"@,
            "install"@,
            replaced(package_base@, "-"@, "_"@) + ".install"@,
        ]);
    }
    out
}

/// Find install script in a package directory: the first candidate that exists.
pub fn find_install_script(candidates: &Vec<String>, exists: &Vec<bool>) -> (r: Option<String>)
    requires
        candidates@.len() == exists@.len(),
    ensures
        match r {
            Some(name) => exists|i: int|
                {
                    &&& 0 <= i < exists@.len()
                    &&& #[trigger] exists@[i]
                    &&& name@ == candidates@[i]@
                    &&& forall|k: int| 0 <= k < i ==> !#[trigger] exists@[k]
                },
            None => forall|k: int| 0 <= k < exists@.len() ==> !#[trigger] exists@[k],
        },
{
    let n: usize = exists.len();
    for i in 0..n
        invariant
            n == exists@.len(),
            candidates@.len() == n,
            forall|k: int| 0 <= k < i ==> !#[trigger] exists@[k],
    {
        if exists[i] {
            assert(exists@[i as int]);
            return Some(candidates[i].clone());
        }
    }
    None
}

// ---------------------------------------------------------------------------------------
// Installed packages
// ---------------------------------------------------------------------------------------

/// The arguments with which pacman is asked whether a package is in the official repositories.
pub open spec fn official_arguments(package_name: Seq<char>) -> Seq<Seq<char>> {
    seq!["-Si"@, "--"@, package_name]
}

/// The arguments with which pacman is asked whether a package is in the official repositories.
/// `--` ensures a name that begins with `-` can never be parsed as a flag.
pub fn official_args(package_name: &str) -> (r: Vec<String>)
    ensures
        texts(r@) == official_arguments(package_name@),
{
    let mut args: Vec<String> = Vec::new();
    args.push("-Si".to_owned());
    args.push("--".to_owned());
    args.push(package_name.to_owned());
    proof {
        assert(texts(args@) =~= official_arguments(package_name@));
    }
    args
}

/// `s` up to its first white space.
pub open spec fn up_to_space(s: Seq<char>) -> Seq<char>
    decreases s.len(),
{
    if s.len() == 0 || is_space(s[0]) {
        seq![]
    } else {
        seq![s[0]] + up_to_space(s.skip(1))
    }
}

/// The first word of a line, where it has one.
pub open spec fn first_word(line: Seq<char>) -> Option<Seq<char>> {
    let word = up_to_space(crate::text::trim_start(line, Class::Space));
    if word.len() == 0 {
        None
    } else {
        Some(word)
    }
}

/// The first word of a line, where it has one.
fn word_of(line: &str) -> (r: Option<String>)
    ensures
        match r {
            Some(w) => first_word(line@) == Some(w@),
            None => first_word(line@) is None,
        },
{
    let rest = crate::text::trimmed_start(line, Class::Space);
    let chars = chars_of(rest.as_str());
    let n: usize = chars.len();
    let mut word = String::new();
    let mut i: usize = 0;
    proof {
        assert(rest@.skip(0) == rest@);
    }
    while i < n && !Class::Space.contains(chars[i])
        invariant
            n == chars@.len(),
            chars@ == rest@,
            i <= n,
            word@ + up_to_space(rest@.skip(i as int)) == up_to_space(rest@),
        decreases n - i,
    {
        proof {
            let s = rest@.skip(i as int);
            assert(s.skip(1) == rest@.skip(i + 1));
            assert(word@ + (seq![s[0]] + up_to_space(s.skip(1))) =~= word@.push(s[0])
                + up_to_space(s.skip(1)));
        }
        word.push(chars[i]);
        i = i + 1;
    }
    proof {
        assert(word@ + up_to_space(rest@.skip(i as int)) =~= word@);
    }
    if word.as_str().is_empty() {
        None
    } else {
        Some(word)
    }
}

/// The names of the installed AUR packages, from the answer of `pacman -Qm`: the first word of
/// each line.
pub fn installed_from_listing(success: bool, stdout: &str) -> (r: Result<Vec<String>, ScanError>)
    ensures
        match r {
            Ok(names) => success && texts(names@) == lines(stdout@).filter_map(
                |line: Seq<char>| first_word(line),
            ),
            Err(e) => !success && e@ == ScanErrorView::Io(
                IoKind::Other,
                "Failed to get foreign packages"@,
            ),
        },
{
    if !success {
        let message: String = "Failed to get foreign packages".to_owned();
        return Err(ScanError::Io(IoError { kind: IoKind::Other, message }));
    }
    let all = lines_of(stdout);
    let n: usize = all.len();
    let mut out: Vec<String> = Vec::new();
    let ghost ls = lines(stdout@);
    let ghost f = |line: Seq<char>| first_word(line);
    proof {
        assert(texts(out@) =~= ls.take(0).filter_map(f));
    }
    for i in 0..n
        invariant
            n == all@.len(),
            texts(all@) == ls,
            f == (|line: Seq<char>| first_word(line)),
            texts(out@) == ls.take(i as int).filter_map(f),
    {
        proof {
            assert(ls.take(i + 1).drop_last() =~= ls.take(i as int));
            assert(ls.take(i + 1).last() == all@[i as int]@);
        }
        match word_of(all[i].as_str()) {
            Some(name) => {
                proof {
                    assert(texts(out@.push(name)) =~= texts(out@) + seq![name@]);
                }
                out.push(name);
            },
            None => {},
        }
    }
    proof {
        assert(ls.take(n as int) =~= ls);
    }
    Ok(out)
}

// ---------------------------------------------------------------------------------------
// Laws
// ---------------------------------------------------------------------------------------

/// The name of a package reaches git in the URL alone: it stands right behind `--`, so it can
/// never be parsed as an option, and everything before it is the same for every package.
pub proof fn law_clone_url_is_no_option(package_base: Seq<char>, other: Seq<char>)
    ensures
        clone_arguments(package_base)[12] == "--"@,
        clone_arguments(package_base)[13] == git_url(package_base),
        clone_arguments(package_base).take(13) == clone_arguments(other).take(13),
        clone_arguments(package_base).skip(14) == clone_arguments(other).skip(14),
{
    assert(clone_arguments(package_base).take(13) =~= clone_arguments(other).take(13));
    assert(clone_arguments(package_base).skip(14) =~= clone_arguments(other).skip(14));
}

/// The name of a package reaches pacman behind `--` alone, so it can never be parsed as a flag.
pub proof fn law_official_name_is_no_option(package_name: Seq<char>, other: Seq<char>)
    ensures
        official_arguments(package_name).last() == package_name,
        official_arguments(package_name)[1] == "--"@,
        official_arguments(package_name).drop_last() == official_arguments(other).drop_last(),
{
    assert(official_arguments(package_name).drop_last() =~= official_arguments(
        other,
    ).drop_last());
}

proof fn lemma_line_scripts_bare(ls: Seq<Seq<char>>, i: int)
    requires
        0 <= i < ls.filter_map(|line: Seq<char>| line_script(line)).len(),
    ensures
        is_bare_name(ls.filter_map(|line: Seq<char>| line_script(line))[i]),
    decreases ls.len(),
{
    let f = |line: Seq<char>| line_script(line);
    if ls.len() > 0 {
        let before = ls.drop_last().filter_map(f);
        if i < before.len() {
            lemma_line_scripts_bare(ls.drop_last(), i);
        }
    }
}

/// What a PKGBUILD declares never leads outside the package directory: each filename behind the
/// three common ones is bare.
pub proof fn law_declared_names_are_bare(package_base: Seq<char>, pkgbuild: Seq<char>, i: int)
    requires
        3 <= i < script_names(package_base, Some(pkgbuild)).len(),
    ensures
        is_bare_name(script_names(package_base, Some(pkgbuild))[i]),
{
    lemma_line_scripts_bare(lines(pkgbuild), i - 3);
}

} // verus!
