//! Laws on what the text of a PKGBUILD tells: its variables and its maintainer.

use crate::deobfuscate::variables::{ends_there, goes_on, is_comment};
use crate::metadata::{
    before_comment, is_simple, line_variable, literal_value, maintainer, maintainer_of,
    variable_of, variables,
};
use crate::patterns::{regex_captures, MAINTAINER, VARIABLE};
use crate::text::{lemma_find_char, trim, trim_end, trim_start, Class};
use vstd::prelude::*;
use vstd::utf8::*;

verus! {

// ---------------------------------------------------------------------------------------
// Variables
// ---------------------------------------------------------------------------------------

/// A value is simple where it takes at most 50 bytes and holds neither a redirection nor a
/// bracket.
pub proof fn law_simple_values(v: Seq<char>)
    ensures
        is_simple(v) <==> encode_utf8(v).len() <= 50 && (forall|i: int|
            0 <= i < v.len() ==> #[trigger] v[i] != '<' && v[i] != '('),
{
    if is_simple(v) {
        assert forall|i: int| 0 <= i < v.len() implies #[trigger] v[i] != '<' && v[i] != '(' by {
            assert(v.contains(v[i]));
        }
    }
}

/// Where each quoting has its value: single quotes keep everything, double quotes keep what the
/// shell does not expand in a word that ends with them, and a bare word is itself.
pub proof fn law_values_by_quoting(
    text: Seq<char>,
    whole: Option<Seq<char>>,
    name: Option<Seq<char>>,
    value: Seq<char>,
    double: Option<Seq<char>>,
    bare: Option<Seq<char>>,
)
    ensures
        literal_value(text, Some(seq![whole, name, Some(value), double, bare])) == Some(value),
        ({
            let groups = Some(seq![whole, name, None, Some(value), bare]);
            literal_value(text, groups) == (if !value.contains('$') && !value.contains('`')
                && ends_there(text, groups) {
                Some(value)
            } else {
                None
            })
        }),
        ({
            let groups = Some(seq![whole, name, None, None, bare]);
            literal_value(text, groups) == (if ends_there(text, groups) {
                bare
            } else {
                None
            })
        }),
        literal_value(text, None) is None,
{
}

/// A variable is tracked where its assignment has a name and a literal value that is simple, and
/// its word does not go on with something that the shell works out.
pub proof fn law_tracked_variables(
    text: Seq<char>,
    whole: Option<Seq<char>>,
    name: Option<Seq<char>>,
    single: Option<Seq<char>>,
    double: Option<Seq<char>>,
    bare: Option<Seq<char>>,
)
    ensures
        ({
            let groups = Some(seq![whole, name, single, double, bare]);
            match (name, literal_value(text, groups)) {
                (Some(n), Some(v)) => variable_of(text, groups) == (if is_simple(v) && !goes_on(
                    text,
                    groups,
                ) {
                    Some((n, v))
                } else {
                    None
                }),
                _ => variable_of(text, groups) is None,
            }
        }),
        variable_of(text, None) is None,
{
}

/// The variable of a line is that of its text without the space around it; a comment has none.
pub proof fn law_variable_of_a_line(line: Seq<char>)
    ensures
        is_comment(line) ==> line_variable(line) is None,
        !is_comment(line) ==> line_variable(line) == variable_of(
            trim(line, Class::Space),
            regex_captures(VARIABLE@, trim(line, Class::Space)),
        ),
        VARIABLE@
            == r#"(?m)^\s*([A-Za-z_][A-Za-z0-9_]*)=(?:'([^']*)'|"([^"]*)"|([^\s;|&<>`$()'"]*))"#@,
{
}

/// The variables are what the lines assign one after the other, each under its name; a line that
/// assigns nothing changes nothing.
pub proof fn law_variables_line_by_line(lines: Seq<Seq<char>>, line: Seq<char>)
    ensures
        variables(Seq::empty()) == Map::<Seq<char>, Seq<char>>::empty(),
        line_variable(line) is None ==> variables(lines.push(line)) == variables(lines),
        line_variable(line) matches Some((name, value)) ==> variables(lines.push(line))
            == variables(lines).insert(name, value),
{
    assert(lines.push(line).drop_last() =~= lines);
}

// ---------------------------------------------------------------------------------------
// The maintainer
// ---------------------------------------------------------------------------------------

/// A text is cut at its first number sign; one without any stays.
pub proof fn law_comments_are_cut(name: Seq<char>, comment: Seq<char>)
    requires
        !name.contains('#'),
    ensures
        before_comment(name) == name,
        before_comment(name + seq!['#'] + comment) == name,
{
    let s = name + seq!['#'] + comment;
    let n = name.len() as int;
    assert forall|j: int| 0 <= j < n implies name[j] != '#' && s[j] != '#' by {
        assert(name.contains(name[j]));
        assert(s[j] == name[j]);
    }
    lemma_find_char(name, '#', 0, n);
    assert(s[n] == '#');
    lemma_find_char(s, '#', 0, n);
    assert(s.take(n) =~= name);
}

/// The maintainer of a header is what its group holds before a comment, without the space around
/// it, where that leaves anything.
pub proof fn law_maintainer_of_a_header(whole: Option<Seq<char>>, raw: Seq<char>)
    ensures
        ({
            let name = trim(before_comment(trim(raw, Class::Space)), Class::Space);
            maintainer_of(Some(seq![whole, Some(raw)])) == (if name.len() > 0 {
                Some(name)
            } else {
                None
            })
        }),
        maintainer_of(Some(seq![whole, None])) is None,
        maintainer_of(None) is None,
{
}

/// A clean name is taken over as it is.
pub proof fn law_clean_names_stay(whole: Option<Seq<char>>, name: Seq<char>)
    requires
        name.len() > 0,
        !name.contains('#'),
        !Class::Space.has(name[0]),
        !Class::Space.has(name.last()),
    ensures
        maintainer_of(Some(seq![whole, Some(name)])) == Some(name),
{
    lemma_nothing_to_trim(name);
    law_comments_are_cut(name, seq![]);
}

/// A text without space at its ends has nothing to trim.
proof fn lemma_nothing_to_trim(name: Seq<char>)
    requires
        name.len() > 0,
        !Class::Space.has(name[0]),
        !Class::Space.has(name.last()),
    ensures
        trim(name, Class::Space) == name,
{
    assert(trim_start(name, Class::Space) == name);
    assert(trim_end(name, Class::Space) == name);
}

/// The first header among the lines tells the maintainer; without a header there is none.
pub proof fn law_maintainer_line_by_line(line: Seq<char>, rest: Seq<Seq<char>>)
    ensures
        maintainer(Seq::empty()) is None,
        regex_captures(MAINTAINER@, line) is Some ==> maintainer(seq![line] + rest)
            == maintainer_of(regex_captures(MAINTAINER@, line)),
        regex_captures(MAINTAINER@, line) is None ==> maintainer(seq![line] + rest) == maintainer(
            rest,
        ),
        MAINTAINER@ == r"(?i)#\s*Maintainer:\s*(.+?)\s*$"@,
{
    let all = seq![line] + rest;
    assert(all[0] == line);
    assert(all.drop_first() =~= rest);
}

} // verus!
