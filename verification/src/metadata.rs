//! What the text of a PKGBUILD tells beside its declarations: the variables that it assigns, and
//! who maintains it.

use crate::deobfuscate::variables::{
    begins_comment, ends_escaped, ends_there, goes_on, group, group_text, is_comment, trimmed_lines,
    value_texts, word_ends_there, word_goes_on, Variables,
};
use crate::patterns::{captures_each, groups_view, regex_captures, MAINTAINER, VARIABLE};
use crate::table::Table;
use crate::text::{
    chars_of, find_char, has_char, is_space, lemma_find_char, lines, lines_of, opt_text, text_of,
    texts, trim, trim_end, trim_start, trimmed, Class,
};
use vstd::prelude::*;
use vstd::utf8::*;

verus! {

// ---------------------------------------------------------------------------------------
// Variables
// ---------------------------------------------------------------------------------------

/// The longest value, in bytes, that is tracked.
pub const MAX_SIMPLE_BYTES: usize = 50;

/// Whether a value is short and simple.
pub open spec fn is_simple(v: Seq<char>) -> bool {
    encode_utf8(v).len() <= MAX_SIMPLE_BYTES && !v.contains('<') && !v.contains('(')
}

/// The literal value that the groups of an assignment at the start of `text` give, by its
/// quoting: single quotes keep everything, between double quotes there is no expansion, and
/// without quotes the value is the bare word. Other than between single quotes, it is all of the
/// word.
pub open spec fn literal_value(
    text: Seq<char>,
    groups: Option<Seq<Option<Seq<char>>>>,
) -> Option<Seq<char>> {
    match (group(groups, 2), group(groups, 3)) {
        (Some(single), _) => Some(single),
        (None, Some(double)) => if double.contains('$') || double.contains('`') || !ends_there(
            text,
            groups,
        ) {
            None
        } else {
            Some(double)
        },
        (None, None) => if ends_there(text, groups) {
            group(groups, 4)
        } else {
            None
        },
    }
}

/// The name and the value that the groups of an assignment at the start of `text` give, where
/// the value is literal, short and simple.
pub open spec fn variable_of(
    text: Seq<char>,
    groups: Option<Seq<Option<Seq<char>>>>,
) -> Option<(Seq<char>, Seq<char>)> {
    match (group(groups, 1), literal_value(text, groups)) {
        (Some(name), Some(value)) => if is_simple(value) && !goes_on(text, groups) {
            Some((name, value))
        } else {
            None
        },
        _ => None,
    }
}

/// The variable that a line assigns, comments aside.
pub open spec fn line_variable(line: Seq<char>) -> Option<(Seq<char>, Seq<char>)> {
    let t = trim(line, Class::Space);
    if is_comment(line) {
        None
    } else {
        variable_of(t, regex_captures(VARIABLE@, t))
    }
}

/// The variables that the lines assign, the last assignment of each.
pub open spec fn variables(lines: Seq<Seq<char>>) -> Map<Seq<char>, Seq<char>>
    decreases lines.len(),
{
    if lines.len() == 0 {
        Map::empty()
    } else {
        let before = variables(lines.drop_last());
        match line_variable(lines.last()) {
            Some((name, value)) => before.insert(name, value),
            None => before,
        }
    }
}

/// The literal value of an assignment at the start of `text`, from the groups of its match.
fn literal_from_groups(text: &str, groups: &Option<Vec<Option<String>>>) -> (r: Option<String>)
    ensures
        opt_text(r) == literal_value(text@, groups_view(*groups)),
{
    match (group_text(groups, 2), group_text(groups, 3)) {
        (Some(single), _) => Some(single),
        (None, Some(double)) => if has_char(double.as_str(), '$') || has_char(
            double.as_str(),
            '`',
        ) || !word_ends_there(text, groups) {
            None
        } else {
            Some(double)
        },
        (None, None) => if word_ends_there(text, groups) {
            group_text(groups, 4)
        } else {
            None
        },
    }
}

/// The name and the value of an assignment at the start of `text`, from the groups of its match,
/// where the value is literal, short and simple.
pub fn variable_from_groups(
    text: &str,
    groups: &Option<Vec<Option<String>>>,
) -> (r: Option<(String, String)>)
    ensures
        match r {
            Some((n, v)) => variable_of(text@, groups_view(*groups)) == Some((n@, v@)),
            None => variable_of(text@, groups_view(*groups)) is None,
        },
{
    match (group_text(groups, 1), literal_from_groups(text, groups)) {
        (Some(name), Some(value)) => {
            // Only short simple values, to avoid false positives.
            if value.as_str().as_bytes().len() <= MAX_SIMPLE_BYTES && !has_char(
                value.as_str(),
                '<',
            ) && !has_char(value.as_str(), '(') && !word_goes_on(text, groups) {
                Some((name, value))
            } else {
                None
            }
        },
        _ => None,
    }
}

/// The groups of the assignment in each line, where there is one: its name, and its value in the
/// group of its quoting (single, double, none).
pub fn var_assign(lines: &Vec<String>) -> (r: Vec<Option<Vec<Option<String>>>>)
    ensures
        r@.len() == lines@.len(),
        forall|i: int|
            0 <= i < r@.len() ==> groups_view(#[trigger] r@[i]) == regex_captures(
                VARIABLE@,
                lines@[i]@,
            ),
{
    captures_each(VARIABLE, lines)
}

/// Track simple variable assignments to help see through indirection obfuscation where attackers
/// use variables to hide command names (e.g., `CMD=bun`, then `$CMD add`). Only tracks literal
/// string assignments; arithmetic and command substitution are deliberately skipped to avoid
/// executing anything.
pub fn track_variable_assignments(content: &str) -> (r: Variables)
    ensures
        value_texts(r@) == variables(lines(content@)),
{
    let all = trimmed_lines(content);
    let groups = var_assign(&all);
    let mut vars: Variables = Table::new();
    let n: usize = all.len();
    proof {
        assert(value_texts(vars@) =~= Map::empty());
    }
    for i in 0..n
        invariant
            n == all@.len(),
            n == groups@.len(),
            n == lines(content@).len(),
            forall|k: int|
                0 <= k < n ==> (#[trigger] all@[k])@ == trim(lines(content@)[k], Class::Space),
            forall|k: int|
                0 <= k < n ==> groups_view(#[trigger] groups@[k]) == regex_captures(
                    VARIABLE@,
                    all@[k]@,
                ),
            value_texts(vars@) == variables(lines(content@).take(i as int)),
    {
        let ghost ls = lines(content@);
        proof {
            assert(ls.take(i + 1).drop_last() == ls.take(i as int));
            assert(ls.take(i + 1).last() == ls[i as int]);
            assert(all@[i as int]@ == trim(ls[i as int], Class::Space));
        }
        if !begins_comment(all[i].as_str()) {
            match variable_from_groups(all[i].as_str(), &groups[i]) {
                Some((name, value)) => {
                    proof {
                        assert(value_texts(vars@.insert(name@, value)) =~= value_texts(
                            vars@,
                        ).insert(name@, value@));
                    }
                    vars.insert(name, value);
                },
                None => {},
            }
        }
    }
    proof {
        assert(lines(content@).take(n as int) == lines(content@));
    }
    vars
}

// ---------------------------------------------------------------------------------------
// The maintainer
// ---------------------------------------------------------------------------------------

/// The part of `s` before its first number sign.
pub open spec fn before_comment(s: Seq<char>) -> Seq<char> {
    match find_char(s, '#', 0) {
        Some(i) => s.take(i),
        None => s,
    }
}

/// The maintainer that the groups of a header give: without a trailing comment, and none where
/// nothing else is left.
pub open spec fn maintainer_of(groups: Option<Seq<Option<Seq<char>>>>) -> Option<Seq<char>> {
    match group(groups, 1) {
        Some(raw) => {
            let name = trim(before_comment(trim(raw, Class::Space)), Class::Space);
            if name.len() == 0 {
                None
            } else {
                Some(name)
            }
        },
        None => None,
    }
}

/// The maintainer by the first header among the lines.
pub open spec fn maintainer(lines: Seq<Seq<char>>) -> Option<Seq<char>>
    decreases lines.len(),
{
    if lines.len() == 0 {
        None
    } else {
        let groups = regex_captures(MAINTAINER@, lines[0]);
        if groups is Some {
            maintainer_of(groups)
        } else {
            maintainer(lines.drop_first())
        }
    }
}

/// Cuts a text at its first number sign.
fn cut_comment(s: &str) -> (r: String)
    ensures
        r@ == before_comment(s@),
{
    let chars = chars_of(s);
    let n: usize = chars.len();
    let mut i: usize = 0;
    while i < n && chars[i] != '#'
        invariant
            n == chars@.len(),
            chars@ == s@,
            i <= n,
            forall|j: int| 0 <= j < i ==> s@[j] != '#',
        decreases n - i,
    {
        i += 1;
    }
    proof {
        lemma_find_char(s@, '#', 0, i as int);
        assert(i == n ==> s@.take(i as int) =~= s@);
    }
    text_of(vstd::slice::slice_subrange(chars.as_slice(), 0, i))
}

/// The maintainer by a header, from the groups of its match: without a trailing comment, and
/// none where nothing else is left.
pub fn maintainer_from_groups(groups: &Option<Vec<Option<String>>>) -> (r: Option<String>)
    ensures
        opt_text(r) == maintainer_of(groups_view(*groups)),
{
    match group_text(groups, 1) {
        Some(raw) => {
            let name = trimmed(
                cut_comment(trimmed(raw.as_str(), Class::Space).as_str()).as_str(),
                Class::Space,
            );
            if name.as_str().is_empty() {
                None
            } else {
                Some(name)
            }
        },
        None => None,
    }
}

/// Extract the full maintainer identifier from the PKGBUILD header, including both name and email
/// (e.g. `"John Doe <john@example.com>"`). Returns `None` if no maintainer header is found.
pub fn extract_maintainer_id(content: &str) -> (r: Option<String>)
    ensures
        opt_text(r) == maintainer(lines(content@)),
{
    let all = lines_of(content);
    let groups = captures_each(MAINTAINER, &all);
    let n: usize = all.len();
    let ghost ls = lines(content@);
    proof {
        assert(ls.skip(0) =~= ls);
    }
    for i in 0..n
        invariant
            n == all@.len(),
            ls == lines(content@),
            texts(all@) == ls,
            n == groups@.len(),
            forall|k: int|
                0 <= k < n ==> groups_view(#[trigger] groups@[k]) == regex_captures(
                    MAINTAINER@,
                    all@[k]@,
                ),
            maintainer(ls) == maintainer(ls.skip(i as int)),
    {
        proof {
            assert(ls.skip(i as int)[0] == all@[i as int]@);
            assert(ls.skip(i as int).drop_first() =~= ls.skip(i + 1));
        }
        if groups[i].is_some() {
            return maintainer_from_groups(&groups[i]);
        }
    }
    None
}

// ---------------------------------------------------------------------------------------
// Laws
// ---------------------------------------------------------------------------------------

/// Only short literal values are tracked: none is long, none holds a redirection or a command
/// substitution.
pub proof fn law_variables_are_simple(ls: Seq<Seq<char>>, name: Seq<char>)
    requires
        variables(ls).contains_key(name),
    ensures
        is_simple(variables(ls)[name]),
    decreases ls.len(),
{
    if ls.len() > 0 {
        if variables(ls.drop_last()).contains_key(name) {
            law_variables_are_simple(ls.drop_last(), name);
        }
    }
}

/// A comment assigns nothing, and neither does a substitution: with the line or without it, the
/// same variables are tracked.
pub proof fn law_skipped_lines_assign_nothing(before: Seq<Seq<char>>, line: Seq<char>)
    requires
        is_comment(line) || goes_on(
            trim(line, Class::Space),
            regex_captures(VARIABLE@, trim(line, Class::Space)),
        ),
    ensures
        variables(before + seq![line]) == variables(before),
{
    assert((before + seq![line]).drop_last() =~= before);
}

/// The quoting of a value makes no difference to what is tracked, as long as there is nothing in
/// it that the shell would expand.
pub proof fn law_quoting_is_no_matter(text: Seq<char>, name: Seq<char>, value: Seq<char>)
    requires
        !value.contains('$'),
        !value.contains('`'),
        is_simple(value),
        !ends_escaped(text),
    ensures
        ({
            let none = None::<Seq<char>>;
            let single = Some(seq![Some(text), Some(name), Some(value), none, none]);
            let double = Some(seq![Some(text), Some(name), none, Some(value), none]);
            let bare = Some(seq![Some(text), Some(name), none, none, Some(value)]);
            &&& variable_of(text, single) == Some((name, value))
            &&& variable_of(text, double) == Some((name, value))
            &&& variable_of(text, bare) == Some((name, value))
        }),
{
}

proof fn lemma_trim_end(s: Seq<char>)
    ensures
        ({
            let t = trim_end(s, Class::Space);
            &&& t.len() <= s.len()
            &&& forall|i: int| 0 <= i < t.len() ==> t[i] == s[i]
            &&& t.len() > 0 ==> !is_space(t.last())
        }),
    decreases s.len(),
{
    if s.len() > 0 && is_space(s.last()) {
        lemma_trim_end(s.drop_last());
    }
}

proof fn lemma_trim_start(s: Seq<char>)
    ensures
        ({
            let t = trim_start(s, Class::Space);
            &&& t.len() > 0 ==> !is_space(t[0])
            &&& forall|c: char| t.contains(c) ==> s.contains(c)
        }),
    decreases s.len(),
{
    if s.len() > 0 && is_space(s[0]) {
        let rest = s.drop_first();
        lemma_trim_start(rest);
        assert forall|c: char| rest.contains(c) implies s.contains(c) by {
            let i = choose|i: int| 0 <= i < rest.len() && rest[i] == c;
            assert(s[i + 1] == c);
        }
    }
}

/// A maintainer is not empty, holds no comment, and has no space around it.
pub proof fn law_maintainer_is_clean(ls: Seq<Seq<char>>)
    requires
        maintainer(ls) is Some,
    ensures
        maintainer(ls).unwrap().len() > 0,
        !maintainer(ls).unwrap().contains('#'),
        !is_space(maintainer(ls).unwrap()[0]),
        !is_space(maintainer(ls).unwrap().last()),
    decreases ls.len(),
{
    let groups = regex_captures(MAINTAINER@, ls[0]);
    if groups is Some {
        let raw = trim(group(groups, 1).unwrap(), Class::Space);
        let cut = before_comment(raw);
        lemma_before_comment(raw, 0);
        assert(raw.skip(0) =~= raw);
        assert(forall|k: int| 0 <= k <= raw.len() ==> raw.subrange(0, k) =~= #[trigger] raw.take(k));
        assert(!cut.contains('#'));
        let start = trim_start(cut, Class::Space);
        lemma_trim_start(cut);
        lemma_trim_end(start);
        let m = trim_end(start, Class::Space);
        assert(m == maintainer(ls).unwrap());
        assert forall|i: int| 0 <= i < m.len() implies m[i] != '#' by {
            assert(start.contains(start[i]));
        }
    } else {
        law_maintainer_is_clean(ls.drop_first());
    }
}

proof fn lemma_before_comment(s: Seq<char>, i: int)
    requires
        0 <= i <= s.len(),
    ensures
        match find_char(s, '#', i) {
            Some(k) => i <= k < s.len() && !s.subrange(i, k).contains('#'),
            None => !s.skip(i).contains('#'),
        },
    decreases s.len() - i,
{
    if i < s.len() && s[i] != '#' {
        lemma_before_comment(s, i + 1);
        match find_char(s, '#', i + 1) {
            Some(k) => {
                assert forall|j: int| 0 <= j < k - i implies s.subrange(i, k)[j] != '#' by {
                    if j > 0 {
                        let rest = s.subrange(i + 1, k);
                        assert(rest[j - 1] == s.subrange(i, k)[j]);
                        assert(rest.contains(rest[j - 1]));
                    }
                }
            },
            None => {
                assert forall|j: int| 0 <= j < s.len() - i implies s.skip(i)[j] != '#' by {
                    if j > 0 {
                        let rest = s.skip(i + 1);
                        assert(rest[j - 1] == s.skip(i)[j]);
                        assert(rest.contains(rest[j - 1]));
                    }
                }
            },
        }
    }
}

/// The first header decides: what comes behind it is not looked at.
pub proof fn law_first_header_decides(
    before: Seq<Seq<char>>,
    header: Seq<char>,
    behind: Seq<Seq<char>>,
)
    requires
        regex_captures(MAINTAINER@, header) is Some,
        forall|i: int|
            0 <= i < before.len() ==> regex_captures(MAINTAINER@, #[trigger] before[i]) is None,
    ensures
        maintainer(before + seq![header] + behind) == maintainer_of(
            regex_captures(MAINTAINER@, header),
        ),
    decreases before.len(),
{
    let all = before + seq![header] + behind;
    if before.len() == 0 {
        assert(all[0] == header);
    } else {
        let rest = before.drop_first();
        assert forall|i: int| 0 <= i < rest.len() implies regex_captures(
            MAINTAINER@,
            #[trigger] rest[i],
        ) is None by {
            assert(rest[i] == before[i + 1]);
        }
        law_first_header_decides(rest, header, behind);
        assert(all[0] == before[0]);
        assert(all.drop_first() =~= rest + seq![header] + behind);
    }
}

} // verus!
