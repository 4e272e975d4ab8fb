//! Laws on install scripts: which file is chosen, and what is told about the choice.

use crate::install::{
    bytes_le, declaration_notices, declared_script, expanded_value, has_install_extension,
    is_bare_name, is_found_script, is_install_choice, script_named, search_notices,
    several_scripts, InstallChoice, InstallNotice,
};
use crate::laws::text::{law_containing, law_nothing_to_replace, law_replacing};
use crate::parser::ParsedPkgbuild;
use crate::patterns::lemma_encode_concat;
use crate::text::{contains_text, replaced, trim, trim_end, trim_start, Class};
use vstd::prelude::*;
use vstd::utf8::*;

verus! {

// ---------------------------------------------------------------------------------------
// Names
// ---------------------------------------------------------------------------------------

/// The first of the names of a PKGBUILD is its own; one without names has the empty text.
pub proof fn law_first_name(pkgbuild: ParsedPkgbuild)
    ensures
        pkgbuild.pkgname@.len() > 0 ==> pkgbuild.first_name() == pkgbuild.pkgname@[0]@,
        pkgbuild.pkgname@.len() == 0 ==> pkgbuild.first_name().len() == 0,
{
}

/// A bare filename is any text but the empty one, one with a slash, and one with two dots in a
/// row.
pub proof fn law_bare_names(s: Seq<char>)
    ensures
        is_bare_name(s) <==> s.len() > 0 && (forall|i: int|
            0 <= i < s.len() ==> #[trigger] s[i] != '/') && !exists|a: Seq<char>, b: Seq<char>|
            s == #[trigger] (a + ".."@ + b),
{
    law_containing(s, ".."@);
    if is_bare_name(s) {
        assert forall|i: int| 0 <= i < s.len() implies #[trigger] s[i] != '/' by {
            assert(s.contains(s[i]));
        }
    }
}

/// A text without dots has no two of them in a row, so that a name without slashes and dots is
/// bare.
pub proof fn law_plain_names_are_bare(s: Seq<char>)
    requires
        s.len() > 0,
        forall|i: int| 0 <= i < s.len() ==> #[trigger] s[i] != '/' && s[i] != '.',
    ensures
        is_bare_name(s),
{
    reveal_strlit("..");
    law_containing(s, ".."@);
    if contains_text(s, ".."@) {
        let (a, b) = choose|a: Seq<char>, b: Seq<char>| s == #[trigger] (a + ".."@ + b);
        assert((a + ".."@ + b)[a.len() as int] == '.');
        assert(s[a.len() as int] == '.');
    }
}

/// The variables of a value are replaced one after the other, each by the name of the package,
/// and the quotes around the result are taken off.
pub proof fn law_variables_of_install_values(value: Seq<char>, pkgname: Seq<char>)
    ensures
        expanded_value(value, pkgname) == trim(
            replaced(
                replaced(
                    replaced(replaced(value, "${pkgname}"@, pkgname), "$pkgname"@, pkgname),
                    "${pkgbase}"@,
                    pkgname,
                ),
                "$pkgbase"@,
                pkgname,
            ),
            Class::Quote,
        ),
{
}

/// Whether `v` is one of the ways to write the name or the base of a package in a value.
pub open spec fn is_package_variable(v: Seq<char>) -> bool {
    v == "$pkgname"@ || v == "${pkgname}"@ || v == "$pkgbase"@ || v == "${pkgbase}"@
}

/// A value with one of these variables stands for the text with the name of the package in its
/// place.
pub proof fn law_package_variables_are_expanded(
    a: Seq<char>,
    v: Seq<char>,
    b: Seq<char>,
    pkgname: Seq<char>,
)
    requires
        is_package_variable(v),
        !a.contains('$'),
        !b.contains('$'),
        !pkgname.contains('$'),
        (a + pkgname + b).len() > 0,
        !Class::Quote.has((a + pkgname + b)[0]),
        !Class::Quote.has((a + pkgname + b).last()),
    ensures
        expanded_value(a + v + b, pkgname) == a + pkgname + b,
        expanded_value(seq!['"'] + (a + v + b) + seq!['"'], pkgname) == a + pkgname + b,
{
    let whole = a + pkgname + b;
    lemma_variable_expanded(a, v, b, pkgname);
    lemma_trim_quotes(whole);
    let q = seq!['"'];
    lemma_contains_parts(q, a, '$');
    lemma_contains_parts(b, q, '$');
    lemma_variable_expanded(q + a, v, b + q, pkgname);
    assert(q + a + v + (b + q) =~= q + (a + v + b) + q);
    assert(q + a + pkgname + (b + q) =~= q + whole + q);
}

/// The value with the variables replaced, before its quotes are taken off.
spec fn filled_in(value: Seq<char>, pkgname: Seq<char>) -> Seq<char> {
    replaced(
        replaced(
            replaced(replaced(value, "${pkgname}"@, pkgname), "$pkgname"@, pkgname),
            "${pkgbase}"@,
            pkgname,
        ),
        "$pkgbase"@,
        pkgname,
    )
}

proof fn lemma_variable_expanded(a: Seq<char>, v: Seq<char>, b: Seq<char>, pkgname: Seq<char>)
    requires
        is_package_variable(v),
        !a.contains('$'),
        !b.contains('$'),
        !pkgname.contains('$'),
    ensures
        filled_in(a + v + b, pkgname) == a + pkgname + b,
{
    reveal_strlit("${pkgname}");
    reveal_strlit("$pkgname");
    reveal_strlit("${pkgbase}");
    reveal_strlit("$pkgbase");
    let n1 = "${pkgname}"@;
    let n2 = "$pkgname"@;
    let n3 = "${pkgbase}"@;
    let n4 = "$pkgbase"@;
    let whole = a + pkgname + b;
    lemma_contains_parts(a, pkgname, '$');
    lemma_contains_parts(a + pkgname, b, '$');
    lemma_no_dollar(whole, n1, pkgname);
    lemma_no_dollar(whole, n2, pkgname);
    lemma_no_dollar(whole, n3, pkgname);
    lemma_no_dollar(whole, n4, pkgname);
    lemma_this_variable(a, v, b, pkgname);
    if v == n1 {
    } else if v == n2 {
        lemma_other_variable(a, v, b, n1, pkgname, 1);
    } else if v == n3 {
        lemma_other_variable(a, v, b, n1, pkgname, 5);
        lemma_other_variable(a, v, b, n2, pkgname, 1);
    } else {
        lemma_other_variable(a, v, b, n1, pkgname, 1);
        lemma_other_variable(a, v, b, n2, pkgname, 4);
        lemma_other_variable(a, v, b, n3, pkgname, 1);
    }
}

proof fn lemma_contains_parts(a: Seq<char>, b: Seq<char>, c: char)
    requires
        !a.contains(c),
        !b.contains(c),
    ensures
        !(a + b).contains(c),
{
    assert forall|i: int| 0 <= i < (a + b).len() implies (a + b)[i] != c by {
        if i < a.len() {
            assert(a.contains(a[i]));
        } else {
            assert(b.contains(b[i - a.len()]));
        }
    }
}

proof fn lemma_no_dollar(s: Seq<char>, w: Seq<char>, to: Seq<char>)
    requires
        w.len() > 0,
        w[0] == '$',
        !s.contains('$'),
    ensures
        replaced(s, w, to) == s,
{
    assert forall|i: int| 0 <= i && i + w.len() <= s.len() implies (
    #[trigger] s.subrange(i, i + w.len())) != w by {
        assert(s.subrange(i, i + w.len())[0] == s[i]);
        assert(s.contains(s[i]));
    }
    law_nothing_to_replace(s, w, to);
}

proof fn lemma_this_variable(a: Seq<char>, v: Seq<char>, b: Seq<char>, to: Seq<char>)
    requires
        v.len() > 0,
        v[0] == '$',
        !a.contains('$'),
        !b.contains('$'),
    ensures
        replaced(a + v + b, v, to) == a + to + b,
{
    let s = a + v + b;
    assert forall|i: int| 0 <= i < a.len() implies (#[trigger] s.subrange(i, i + v.len()))
        != v by {
        assert(s.subrange(i, i + v.len())[0] == s[i]);
        assert(s[i] == a[i]);
        assert(a.contains(a[i]));
    }
    law_replacing(a, v, b, to);
    lemma_no_dollar(b, v, to);
}

proof fn lemma_other_variable(
    a: Seq<char>,
    v: Seq<char>,
    b: Seq<char>,
    w: Seq<char>,
    to: Seq<char>,
    k: int,
)
    requires
        0 < k < v.len(),
        k < w.len(),
        v[k] != w[k],
        w[0] == '$',
        forall|i: int| 0 < i < v.len() ==> #[trigger] v[i] != '$',
        !a.contains('$'),
        !b.contains('$'),
    ensures
        replaced(a + v + b, w, to) == a + v + b,
{
    let s = a + v + b;
    let n = a.len() as int;
    assert forall|i: int| 0 <= i && i + w.len() <= s.len() implies (
    #[trigger] s.subrange(i, i + w.len())) != w by {
        let part = s.subrange(i, i + w.len());
        assert(part[0] == s[i]);
        assert(part[k] == s[i + k]);
        if i < n {
            assert(s[i] == a[i]);
            assert(a.contains(a[i]));
        } else if i == n {
            assert(s[i + k] == v[k]);
        } else if i < n + v.len() {
            assert(s[i] == v[i - n]);
        } else {
            assert(s[i] == b[i - n - v.len()]);
            assert(b.contains(b[i - n - v.len()]));
        }
    }
    law_nothing_to_replace(s, w, to);
}

proof fn lemma_trim_quotes(s: Seq<char>)
    requires
        s.len() > 0,
        !Class::Quote.has(s[0]),
        !Class::Quote.has(s.last()),
    ensures
        trim(s, Class::Quote) == s,
        trim(seq!['"'] + s + seq!['"'], Class::Quote) == s,
{
    assert(trim_start(s, Class::Quote) == s);
    assert(trim_end(s, Class::Quote) == s);
    let q = seq!['"'] + s + seq!['"'];
    let open = s + seq!['"'];
    assert(q[0] == '"');
    assert(q.skip(1) =~= open);
    assert(open[0] == s[0]);
    assert(trim_start(open, Class::Quote) == open);
    assert(trim_start(q, Class::Quote) == open);
    assert(open.last() == '"');
    assert(open.drop_last() =~= s);
    assert(trim_end(open, Class::Quote) == s);
}

/// A filename has the extension where something comes before it, and only there.
pub proof fn law_install_extension(stem: Seq<u8>, name: Seq<u8>)
    ensures
        stem.len() > 0 ==> has_install_extension(stem + encode_utf8(".install"@)),
        !has_install_extension(encode_utf8(".install"@)),
        has_install_extension(name) ==> exists|s: Seq<u8>|
            s.len() > 0 && name == #[trigger] (s + encode_utf8(".install"@)),
{
    let ext = encode_utf8(".install"@);
    let whole = stem + ext;
    assert(whole.skip(whole.len() - ext.len()) =~= ext);
    if has_install_extension(name) {
        let s = name.take(name.len() - ext.len());
        assert(name =~= s + ext);
    }
}

/// The script that is named like a package is its name with the extension.
pub proof fn law_script_of_a_name(pkgname: Seq<char>)
    ensures
        script_named(pkgname) == encode_utf8(pkgname + ".install"@),
        pkgname.len() > 0 ==> has_install_extension(script_named(pkgname)),
{
    lemma_encode_concat(pkgname, ".install"@);
    if pkgname.len() > 0 {
        assert(encode_utf8(pkgname).len() > 0) by {
            if encode_utf8(pkgname).len() == 0 {
                encode_utf8_decode_utf8(pkgname);
                assert(encode_utf8(pkgname) =~= encode_utf8(Seq::<char>::empty()));
                encode_utf8_decode_utf8(Seq::<char>::empty());
            }
        }
        law_install_extension(encode_utf8(pkgname), seq![]);
    }
}

/// Whether `a` and `b` first differ at `k`, and `a` comes first there.
pub open spec fn bytes_differ_first_at(a: Seq<u8>, b: Seq<u8>, k: int) -> bool {
    &&& 0 <= k <= a.len()
    &&& k < b.len()
    &&& a.take(k) == b.take(k)
    &&& k == a.len() || a[k] < b[k]
}

/// The order of filenames is that of a dictionary of bytes.
pub proof fn law_order_of_filenames(a: Seq<u8>, b: Seq<u8>)
    ensures
        bytes_le(a, b) <==> a == b || exists|k: int| bytes_differ_first_at(a, b, k),
    decreases a.len(),
{
    if a.len() > 0 && b.len() > 0 && a[0] == b[0] {
        let x = a.skip(1);
        let y = b.skip(1);
        law_order_of_filenames(x, y);
        assert(a =~= seq![a[0]] + x);
        assert(b =~= seq![b[0]] + y);
        if bytes_le(x, y) && x != y {
            let k = choose|k: int| bytes_differ_first_at(x, y, k);
            assert(a.take(k + 1) =~= seq![a[0]] + x.take(k));
            assert(b.take(k + 1) =~= seq![b[0]] + y.take(k));
            assert(bytes_differ_first_at(a, b, k + 1));
        }
        if exists|k: int| bytes_differ_first_at(a, b, k) {
            let k = choose|k: int| bytes_differ_first_at(a, b, k);
            if k > 0 {
                assert(x.take(k - 1) =~= a.take(k).skip(1));
                assert(y.take(k - 1) =~= b.take(k).skip(1));
                assert(bytes_differ_first_at(x, y, k - 1));
            }
        }
    } else {
        if exists|k: int| bytes_differ_first_at(a, b, k) {
            let k = choose|k: int| bytes_differ_first_at(a, b, k);
            if k > 0 {
                assert(a.take(k)[0] == b.take(k)[0]);
            }
        }
        if a.len() == 0 && b.len() == 0 {
            assert(a =~= b);
        } else if bytes_le(a, b) {
            assert(a.take(0) =~= b.take(0));
            assert(bytes_differ_first_at(a, b, 0));
        }
    }
}

// ---------------------------------------------------------------------------------------
// The choice
// ---------------------------------------------------------------------------------------

/// A PKGBUILD declares the file that its value expands to, with its first name for the package,
/// where that is a bare filename.
pub proof fn law_declared_scripts(pkgbuild: ParsedPkgbuild)
    ensures
        pkgbuild.install is None ==> declared_script(pkgbuild) is None,
        pkgbuild.install matches Some(value) ==> {
            let name = expanded_value(value@, pkgbuild.first_name());
            &&& is_bare_name(name) ==> declared_script(pkgbuild) == Some(name)
            &&& !is_bare_name(name) ==> declared_script(pkgbuild) is None
        },
{
}

/// A declared file that exists is chosen, and nothing else is.
pub proof fn law_declared_files_are_chosen(
    pkgbuild: ParsedPkgbuild,
    name: Seq<char>,
    names: Option<Seq<Vec<u8>>>,
    choice: Option<InstallChoice>,
)
    requires
        declared_script(pkgbuild) == Some(name),
        is_install_choice(pkgbuild, true, names, choice),
    ensures
        choice matches Some(InstallChoice::Declared(n)) && n@ == name,
{
}

/// Where no declared file exists, the directory decides: a script in it is chosen wherever there
/// is one, the one that is named like the package if it is there, and else the first in the order
/// of filenames.
pub proof fn law_scripts_are_found(
    pkgbuild: ParsedPkgbuild,
    declared_exists: bool,
    names: Seq<Vec<u8>>,
    choice: Option<InstallChoice>,
)
    requires
        !declared_exists || declared_script(pkgbuild) is None,
        is_install_choice(pkgbuild, declared_exists, Some(names), choice),
    ensures
        (exists|k: int| 0 <= k < names.len() && has_install_extension((#[trigger] names[k])@))
            ==> choice is Some,
        choice matches Some(c) ==> c matches InstallChoice::Found(i) && {
            let preferred = encode_utf8(pkgbuild.first_name() + ".install"@);
            &&& i < names.len()
            &&& has_install_extension(names[i as int]@)
            &&& (exists|k: int|
                0 <= k < names.len() && (#[trigger] names[k])@ == preferred
                    && has_install_extension(names[k]@)) ==> names[i as int]@ == preferred
            &&& names[i as int]@ != preferred ==> forall|k: int|
                0 <= k < names.len() && has_install_extension((#[trigger] names[k])@) ==> bytes_le(
                    names[i as int]@,
                    names[k]@,
                )
        },
{
    law_script_of_a_name(pkgbuild.first_name());
    match choice {
        Some(InstallChoice::Found(i)) => {
            assert(is_found_script(names, pkgbuild.first_name(), i as int));
        },
        Some(InstallChoice::Declared(_)) => {},
        None => {
            let listed = Some(names);
            assert(is_install_choice(pkgbuild, declared_exists, listed, None));
            assert(listed is Some);
            assert forall|k: int| 0 <= k < names.len() implies !has_install_extension(
                (#[trigger] names[k])@,
            ) by {
                assert(names == listed->0);
                assert(!has_install_extension((listed->0)[k]@));
            }
        },
    }
}

/// A directory that cannot be listed holds no script.
pub proof fn law_nothing_is_found_unlisted(
    pkgbuild: ParsedPkgbuild,
    declared_exists: bool,
    choice: Option<InstallChoice>,
)
    requires
        !declared_exists || declared_script(pkgbuild) is None,
        is_install_choice(pkgbuild, declared_exists, None, choice),
    ensures
        choice is None,
{
}

// ---------------------------------------------------------------------------------------
// Notices
// ---------------------------------------------------------------------------------------

/// What is told of a declaration: that it is suspicious where it is no bare filename, that it is
/// missing where there is no such file, and nothing else.
pub proof fn law_notices_of_declarations(pkgbuild: ParsedPkgbuild, declared_exists: bool)
    ensures
        pkgbuild.install is Some && declared_script(pkgbuild) is None ==> declaration_notices(
            pkgbuild,
            declared_exists,
        ) == seq![InstallNotice::Suspicious],
        declared_script(pkgbuild) is Some && !declared_exists ==> declaration_notices(
            pkgbuild,
            declared_exists,
        ) == seq![InstallNotice::Missing],
        pkgbuild.install is None || (declared_script(pkgbuild) is Some && declared_exists)
            ==> declaration_notices(pkgbuild, declared_exists).len() == 0,
{
}

/// Two scripts in a directory, none of them named like the package, are told of where the
/// directory decides.
pub proof fn law_several_scripts_are_told_of(
    pkgbuild: ParsedPkgbuild,
    declared_exists: bool,
    names: Seq<Vec<u8>>,
)
    ensures
        ({
            let preferred = encode_utf8(pkgbuild.first_name() + ".install"@);
            let searched = !declared_exists || declared_script(pkgbuild) is None;
            let several = (exists|i: int, j: int|
                0 <= i < j < names.len() && has_install_extension((#[trigger] names[i])@)
                    && has_install_extension((#[trigger] names[j])@)) && (forall|k: int|
                0 <= k < names.len() && has_install_extension(names[k]@) ==> (
                #[trigger] names[k])@ != preferred);
            &&& searched && several ==> search_notices(pkgbuild, declared_exists, Some(names))
                == seq![InstallNotice::Several]
            &&& !(searched && several) ==> search_notices(
                pkgbuild,
                declared_exists,
                Some(names),
            ).len() == 0
        }),
        search_notices(pkgbuild, declared_exists, None).len() == 0,
{
    law_script_of_a_name(pkgbuild.first_name());
    let preferred = encode_utf8(pkgbuild.first_name() + ".install"@);
    let unlike = forall|k: int|
        0 <= k < names.len() && has_install_extension(names[k]@) ==> (#[trigger] names[k])@
            != preferred;
    if several_scripts(names, pkgbuild.first_name()) {
        assert(unlike);
    }
}

} // verus!
