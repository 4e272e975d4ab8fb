//! Which file of a package is its install script.
//!
//! The install hook is a primary malware delivery vector, so it has to be found however the
//! PKGBUILD refers to it; and a hostile PKGBUILD must not make the scanner read a file outside
//! the package directory.

use crate::parser::ParsedPkgbuild;
use crate::text::{
    chars_of, contains_text, has_char, replace_text, replaced, starts_with, text_contains, trim,
    trimmed, Class,
};
use vstd::prelude::*;
use vstd::utf8::*;

verus! {

/// Whether `s` is a bare filename: not empty, and without path separators or traversal.
pub open spec fn is_bare_name(s: Seq<char>) -> bool {
    s.len() > 0 && !s.contains('/') && !contains_text(s, ".."@)
}

/// Whether `s` is a bare filename.
pub fn bare_name(s: &str) -> (r: bool)
    ensures
        r == is_bare_name(s@),
{
    let chars = chars_of(s);
    let dots = chars_of("..");
    !s.is_empty() && !has_char(s, '/') && !text_contains(chars.as_slice(), dots.as_slice())
}

// ---------------------------------------------------------------------------------------
// Expansion
// ---------------------------------------------------------------------------------------

/// `value` with the package name in place of its variables, and without quotes at its ends.
pub open spec fn expanded_value(value: Seq<char>, pkgname: Seq<char>) -> Seq<char> {
    let a = replaced(value, "${pkgname}"@, pkgname);
    let b = replaced(a, "$pkgname"@, pkgname);
    let c = replaced(b, "${pkgbase}"@, pkgname);
    let d = replaced(c, "$pkgbase"@, pkgname);
    trim(d, Class::Quote)
}

/// Expand the small set of PKGBUILD variables that legitimately appear in an `install=` value:
/// `$pkgname`/`${pkgname}` and `$pkgbase`/`${pkgbase}`.
pub fn expand_pkg_vars(value: &str, pkgname: &str) -> (r: String)
    ensures
        r@ == expanded_value(value@, pkgname@),
{
    proof {
        reveal_strlit("${pkgname}");
        reveal_strlit("$pkgname");
        reveal_strlit("${pkgbase}");
        reveal_strlit("$pkgbase");
    }
    let a = replace_text(value, "${pkgname}", pkgname);
    let b = replace_text(a.as_str(), "$pkgname", pkgname);
    let c = replace_text(b.as_str(), "${pkgbase}", pkgname);
    let d = replace_text(c.as_str(), "$pkgbase", pkgname);
    trimmed(d.as_str(), Class::Quote)
}

// ---------------------------------------------------------------------------------------
// Resolution
// ---------------------------------------------------------------------------------------

/// The file that a PKGBUILD declares as its install script, where it declares one inside the
/// package directory.
pub open spec fn declared_script(pkgbuild: ParsedPkgbuild) -> Option<Seq<char>> {
    match pkgbuild.install {
        Some(value) => {
            let name = expanded_value(value@, pkgbuild.first_name());
            if is_bare_name(name) {
                Some(name)
            } else {
                None
            }
        },
        None => None,
    }
}

/// Whether a filename has the extension `install`.
pub open spec fn has_install_extension(name: Seq<u8>) -> bool {
    let ext = encode_utf8(".install"@);
    name.len() > ext.len() && name.skip(name.len() - ext.len()) == ext
}

/// The filename of the install script that is named like the package.
pub open spec fn script_named(pkgname: Seq<char>) -> Seq<u8> {
    encode_utf8(pkgname) + encode_utf8(".install"@)
}

/// Whether `a` comes before `b`, or is the same, in the order of bytes.
pub open spec fn bytes_le(a: Seq<u8>, b: Seq<u8>) -> bool
    decreases a.len(),
{
    if a.len() == 0 {
        true
    } else if b.len() == 0 {
        false
    } else if a[0] != b[0] {
        a[0] < b[0]
    } else {
        bytes_le(a.skip(1), b.skip(1))
    }
}

/// The script that is chosen for a package.
#[derive(Debug)]
pub enum InstallChoice {
    /// The file that the PKGBUILD declares.
    Declared(String),
    /// The file at this place in the listing of the package directory.
    Found(usize),
}

/// Whether `i` is the install script that a search of the directory comes to: the one named
/// like the package, if there is more than one and that is among them; else the first in the
/// order of filenames.
pub open spec fn is_found_script(names: Seq<Vec<u8>>, pkgname: Seq<char>, i: int) -> bool {
    &&& 0 <= i < names.len()
    &&& has_install_extension(names[i]@)
    &&& names[i]@ == script_named(pkgname) || {
        &&& forall|k: int|
            0 <= k < names.len() ==> (#[trigger] names[k])@ != script_named(pkgname)
                || !has_install_extension(names[k]@)
        &&& forall|k: int|
            0 <= k < names.len() && has_install_extension((#[trigger] names[k])@) ==> bytes_le(
                names[i]@,
                names[k]@,
            )
    }
}

/// The resolution of a package's install script: the declared file, where it exists; else the
/// file that a search of the directory comes to, where it can be listed and holds one.
pub open spec fn is_install_choice(
    pkgbuild: ParsedPkgbuild,
    declared_exists: bool,
    names: Option<Seq<Vec<u8>>>,
    choice: Option<InstallChoice>,
) -> bool {
    match choice {
        Some(InstallChoice::Declared(name)) => declared_exists && declared_script(pkgbuild) == Some(
            name@,
        ),
        Some(InstallChoice::Found(i)) => {
            &&& !(declared_exists && declared_script(pkgbuild) is Some)
            &&& names is Some
            &&& is_found_script(names->0, pkgbuild.first_name(), i as int)
        },
        None => {
            &&& !(declared_exists && declared_script(pkgbuild) is Some)
            &&& names matches Some(list) ==> forall|k: int|
                0 <= k < list.len() ==> !has_install_extension((#[trigger] list[k])@)
        },
    }
}

proof fn lemma_bytes_le_reflexive(a: Seq<u8>)
    ensures
        bytes_le(a, a),
    decreases a.len(),
{
    if a.len() > 0 {
        lemma_bytes_le_reflexive(a.skip(1));
    }
}

proof fn lemma_bytes_le_transitive(a: Seq<u8>, b: Seq<u8>, c: Seq<u8>)
    requires
        bytes_le(a, b),
        bytes_le(b, c),
    ensures
        bytes_le(a, c),
    decreases a.len(),
{
    if a.len() > 0 && b.len() > 0 && c.len() > 0 && a[0] == b[0] && b[0] == c[0] {
        lemma_bytes_le_transitive(a.skip(1), b.skip(1), c.skip(1));
    }
}

proof fn lemma_bytes_le_total(a: Seq<u8>, b: Seq<u8>)
    ensures
        bytes_le(a, b) || bytes_le(b, a),
    decreases a.len(),
{
    if a.len() > 0 && b.len() > 0 && a[0] == b[0] {
        lemma_bytes_le_total(a.skip(1), b.skip(1));
    }
}

/// Whether `a` comes before `b`, or is the same, in the order of bytes.
fn name_le(a: &[u8], b: &[u8]) -> (r: bool)
    ensures
        r == bytes_le(a@, b@),
{
    let mut i: usize = 0;
    proof {
        assert(a@.skip(0) == a@);
        assert(b@.skip(0) == b@);
    }
    while i < a.len() && i < b.len() && a[i] == b[i]
        invariant
            i <= a@.len(),
            i <= b@.len(),
            bytes_le(a@, b@) == bytes_le(a@.skip(i as int), b@.skip(i as int)),
        decreases a@.len() - i,
    {
        proof {
            assert(a@.skip(i as int).skip(1) == a@.skip(i + 1));
            assert(b@.skip(i as int).skip(1) == b@.skip(i + 1));
        }
        i = i + 1;
    }
    if i >= a.len() {
        true
    } else if i >= b.len() {
        false
    } else {
        a[i] < b[i]
    }
}

/// Whether two filenames are the same.
fn same_name(a: &[u8], b: &[u8]) -> (r: bool)
    ensures
        r == (a@ == b@),
{
    if a.len() != b.len() {
        return false;
    }
    let n: usize = a.len();
    for i in 0..n
        invariant
            n == a@.len(),
            n == b@.len(),
            forall|k: int| 0 <= k < i ==> a@[k] == b@[k],
    {
        if a[i] != b[i] {
            return false;
        }
    }
    assert(a@ == b@);
    true
}

/// Whether a filename has the extension `install`.
pub fn is_install_file(name: &[u8]) -> (r: bool)
    ensures
        r == has_install_extension(name@),
{
    let ext = ".install".as_bytes();
    if name.len() <= ext.len() {
        return false;
    }
    let tail = vstd::slice::slice_subrange(name, name.len() - ext.len(), name.len());
    proof {
        assert(tail@ == name@.skip(name@.len() - ext@.len()));
    }
    same_name(tail, ext)
}

/// The filename of the install script that is named like the package.
fn script_name_of(pkgname: &str) -> (r: Vec<u8>)
    ensures
        r@ == script_named(pkgname@),
{
    let mut name: String = pkgname.to_owned();
    name.append(".install");
    proof {
        crate::patterns::lemma_encode_concat(pkgname@, ".install"@);
    }
    name.as_str().as_bytes_vec()
}

/// The install script that a search of the package directory comes to.
fn find_script(names: &Vec<Vec<u8>>, pkgname: &str) -> (r: Option<usize>)
    ensures
        match r {
            Some(i) => is_found_script(names@, pkgname@, i as int),
            None => forall|k: int|
                0 <= k < names@.len() ==> !has_install_extension((#[trigger] names@[k])@),
        },
{
    let preferred = script_name_of(pkgname);
    let n: usize = names.len();
    let mut first: Option<usize> = None;
    for i in 0..n
        invariant
            n == names@.len(),
            preferred@ == script_named(pkgname@),
            forall|k: int|
                0 <= k < i ==> (#[trigger] names@[k])@ != script_named(pkgname@)
                    || !has_install_extension(names@[k]@),
            match first {
                Some(f) => {
                    &&& f < i
                    &&& has_install_extension(names@[f as int]@)
                    &&& forall|k: int|
                        0 <= k < i && has_install_extension((#[trigger] names@[k])@) ==> bytes_le(
                            names@[f as int]@,
                            names@[k]@,
                        )
                },
                None => forall|k: int|
                    0 <= k < i ==> !has_install_extension((#[trigger] names@[k])@),
            },
    {
        if is_install_file(names[i].as_slice()) {
            if same_name(names[i].as_slice(), preferred.as_slice()) {
                return Some(i);
            }
            proof {
                lemma_bytes_le_reflexive(names@[i as int]@);
            }
            match first {
                Some(f) => {
                    if !name_le(names[f].as_slice(), names[i].as_slice()) {
                        proof {
                            let a = names@[i as int]@;
                            let b = names@[f as int]@;
                            lemma_bytes_le_total(a, b);
                            assert forall|k: int|
                                0 <= k < i + 1 && has_install_extension(
                                    (#[trigger] names@[k])@,
                                ) implies bytes_le(a, names@[k]@) by {
                                if k < i {
                                    lemma_bytes_le_transitive(a, b, names@[k]@);
                                }
                            }
                        }
                        first = Some(i);
                    }
                },
                None => {
                    first = Some(i);
                },
            }
        }
    }
    first
}

/// The file that a PKGBUILD declares as its install script.
///
/// An install scriptlet is always a bare filename inside the package directory. Path separators
/// and traversal are rejected so a hostile `install=` value cannot make the scanner read a file
/// outside the cloned package directory.
pub fn install_candidate(pkgbuild: &ParsedPkgbuild) -> (r: Option<String>)
    ensures
        match r {
            Some(name) => declared_script(*pkgbuild) == Some(name@),
            None => declared_script(*pkgbuild) is None,
        },
{
    match &pkgbuild.install {
        Some(value) => {
            let pkgname = pkgbuild.first_pkgname();
            let name = expand_pkg_vars(value.as_str(), pkgname.as_str());
            if bare_name(name.as_str()) {
                Some(name)
            } else {
                None
            }
        },
        None => None,
    }
}

/// Resolve a package's install script.
///
/// PKGBUILDs commonly reference the install file via variables (`install="$pkgname.install"`),
/// and some omit `install=` while still shipping a `*.install` hook. Resolution order:
/// 1. The declared file, with `$pkgname`/`$pkgbase` expanded, where it exists:
///    `declared_exists` says whether the file that `install_candidate` names does.
/// 2. A `*.install` file in the package directory, whose filenames are `names`; there are none
///    where the directory cannot be listed.
pub fn resolve_install_path(
    pkgbuild: &ParsedPkgbuild,
    declared_exists: bool,
    names: Option<&Vec<Vec<u8>>>,
) -> (r: Option<InstallChoice>)
    ensures
        is_install_choice(
            *pkgbuild,
            declared_exists,
            match names {
                Some(list) => Some(list@),
                None => None,
            },
            r,
        ),
{
    match install_candidate(pkgbuild) {
        Some(name) => {
            if declared_exists {
                return Some(InstallChoice::Declared(name));
            }
        },
        None => {},
    }
    match names {
        Some(list) => {
            let pkgname = pkgbuild.first_pkgname();
            match find_script(list, pkgname.as_str()) {
                Some(i) => Some(InstallChoice::Found(i)),
                None => None,
            }
        },
        None => None,
    }
}

// ---------------------------------------------------------------------------------------
// Notices
// ---------------------------------------------------------------------------------------

/// What is to be told about the resolution of an install script, so that a gap is visible rather
/// than silent.
#[derive(Clone, Copy, Debug, PartialEq, Eq, Structural)]
pub enum InstallNotice {
    /// The value of `install=` is ignored: it is no bare filename.
    Suspicious,
    /// The declared file is missing; a `*.install` file is searched for instead.
    Missing,
    /// There are several `*.install` files, and none is named like the package.
    Several,
}

/// Whether there are several install scripts, none of them named like the package.
pub open spec fn several_scripts(names: Seq<Vec<u8>>, pkgname: Seq<char>) -> bool {
    &&& exists|i: int, j: int|
        0 <= i < j < names.len() && has_install_extension((#[trigger] names[i])@)
            && has_install_extension((#[trigger] names[j])@)
    &&& forall|k: int|
        0 <= k < names.len() ==> (#[trigger] names[k])@ != script_named(pkgname)
            || !has_install_extension(names[k]@)
}

/// What is to be told about a declaration.
pub open spec fn declaration_notices(
    pkgbuild: ParsedPkgbuild,
    declared_exists: bool,
) -> Seq<InstallNotice> {
    if pkgbuild.install is None {
        seq![]
    } else if declared_script(pkgbuild) is None {
        seq![InstallNotice::Suspicious]
    } else if !declared_exists {
        seq![InstallNotice::Missing]
    } else {
        seq![]
    }
}

/// What is to be told about the search for a script, where there is one.
pub open spec fn search_notices(
    pkgbuild: ParsedPkgbuild,
    declared_exists: bool,
    names: Option<Seq<Vec<u8>>>,
) -> Seq<InstallNotice> {
    if !(declared_exists && declared_script(pkgbuild) is Some) && names is Some && several_scripts(
        names->0,
        pkgbuild.first_name(),
    ) {
        seq![InstallNotice::Several]
    } else {
        seq![]
    }
}

/// Whether there are several install scripts, none of them named like the package.
fn has_several_scripts(names: &Vec<Vec<u8>>, pkgname: &str) -> (r: bool)
    ensures
        r == several_scripts(names@, pkgname@),
{
    let preferred = script_name_of(pkgname);
    let n: usize = names.len();
    let mut one: bool = false;
    let mut two: bool = false;
    for i in 0..n
        invariant
            n == names@.len(),
            preferred@ == script_named(pkgname@),
            forall|k: int|
                0 <= k < i ==> (#[trigger] names@[k])@ != script_named(pkgname@)
                    || !has_install_extension(names@[k]@),
            one == exists|k: int| 0 <= k < i && has_install_extension((#[trigger] names@[k])@),
            two == exists|k: int, l: int|
                0 <= k < l < i && has_install_extension((#[trigger] names@[k])@)
                    && has_install_extension((#[trigger] names@[l])@),
    {
        if is_install_file(names[i].as_slice()) {
            if same_name(names[i].as_slice(), preferred.as_slice()) {
                assert(names@[i as int]@ == script_named(pkgname@));
                return false;
            }
            assert(has_install_extension(names@[i as int]@));
            if one {
                two = true;
            }
            one = true;
        }
    }
    two
}

/// What is to be told about the resolution of a package's install script, from what it is
/// resolved from.
pub fn install_notices(
    pkgbuild: &ParsedPkgbuild,
    declared_exists: bool,
    names: Option<&Vec<Vec<u8>>>,
) -> (r: Vec<InstallNotice>)
    ensures
        r@ == declaration_notices(*pkgbuild, declared_exists) + search_notices(
            *pkgbuild,
            declared_exists,
            match names {
                Some(list) => Some(list@),
                None => None,
            },
        ),
{
    let mut notices: Vec<InstallNotice> = Vec::new();
    let mut resolved: bool = false;
    match install_candidate(pkgbuild) {
        Some(_) => {
            if declared_exists {
                resolved = true;
            } else {
                notices.push(InstallNotice::Missing);
            }
        },
        None => {
            if pkgbuild.install.is_some() {
                notices.push(InstallNotice::Suspicious);
            }
        },
    }
    proof {
        assert(notices@ =~= declaration_notices(*pkgbuild, declared_exists));
    }
    if !resolved {
        match names {
            Some(list) => {
                let pkgname = pkgbuild.first_pkgname();
                if has_several_scripts(list, pkgname.as_str()) {
                    notices.push(InstallNotice::Several);
                }
            },
            None => {},
        }
    }
    proof {
        let declared = declaration_notices(*pkgbuild, declared_exists);
        assert(declared + Seq::<InstallNotice>::empty() =~= declared);
        assert(declared + seq![InstallNotice::Several] =~= declared.push(InstallNotice::Several));
    }
    notices
}

// ---------------------------------------------------------------------------------------
// Laws
// ---------------------------------------------------------------------------------------

/// A declared script never lies outside the package directory: whatever the PKGBUILD says, a
/// choice that follows its declaration is a bare filename.
pub proof fn law_declared_script_stays_inside(
    pkgbuild: ParsedPkgbuild,
    declared_exists: bool,
    names: Option<Seq<Vec<u8>>>,
    name: String,
)
    requires
        is_install_choice(
            pkgbuild,
            declared_exists,
            names,
            Some(InstallChoice::Declared(name)),
        ),
    ensures
        name@.len() > 0,
        !name@.contains('/'),
        !contains_text(name@, ".."@),
{
}

/// A declaration with traversal counts for nothing: the script is searched for as if there were
/// none.
pub proof fn law_traversal_is_ignored(
    pkgbuild: ParsedPkgbuild,
    value: String,
    declared_exists: bool,
    names: Option<Seq<Vec<u8>>>,
    choice: Option<InstallChoice>,
)
    requires
        pkgbuild.install == Some(value),
        !is_bare_name(expanded_value(value@, pkgbuild.first_name())),
    ensures
        is_install_choice(pkgbuild, declared_exists, names, choice) <==> is_install_choice(
            ParsedPkgbuild { install: None, ..pkgbuild },
            declared_exists,
            names,
            choice,
        ),
{
    let bare = ParsedPkgbuild { install: None, ..pkgbuild };
    assert(declared_script(pkgbuild) is None);
    assert(declared_script(bare) is None);
    assert(bare.first_name() == pkgbuild.first_name());
}

proof fn lemma_replaced_absent(s: Seq<char>, from: Seq<char>, to: Seq<char>)
    requires
        from.len() > 0,
        !s.contains(from[0]),
    ensures
        replaced(s, from, to) == s,
    decreases s.len(),
{
    if s.len() > 0 {
        if starts_with(s, from) {
            assert(s.subrange(0, from.len() as int)[0] == from[0]);
            assert(s[0] == from[0]);
        }
        let rest = s.skip(1);
        assert forall|i: int| 0 <= i < rest.len() implies rest[i] != from[0] by {
            assert(rest[i] == s[i + 1]);
        }
        lemma_replaced_absent(rest, from, to);
        assert(seq![s[0]] + rest =~= s);
    }
}

/// A value without variables, and without quotes at its ends, is expanded to itself.
pub proof fn law_value_without_variables(value: Seq<char>, pkgname: Seq<char>)
    requires
        !value.contains('$'),
        value.len() > 0 ==> !Class::Quote.has(value[0]) && !Class::Quote.has(value.last()),
    ensures
        expanded_value(value, pkgname) == value,
{
    reveal_strlit("${pkgname}");
    reveal_strlit("$pkgname");
    reveal_strlit("${pkgbase}");
    reveal_strlit("$pkgbase");
    lemma_replaced_absent(value, "${pkgname}"@, pkgname);
    lemma_replaced_absent(value, "$pkgname"@, pkgname);
    lemma_replaced_absent(value, "${pkgbase}"@, pkgname);
    lemma_replaced_absent(value, "$pkgbase"@, pkgname);
}

} // verus!
