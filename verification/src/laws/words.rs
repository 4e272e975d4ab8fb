//! Laws on assignments: which words are literal, and which variables a text assigns.

use crate::deobfuscate::variables::{
    assignment_of, assignments, behind_match, ends_escaped, ends_there, goes_on, group, is_comment,
    is_worked_out, line_assignment, unquoted, value_texts, word_ends,
};
use crate::laws::text::law_trim_start;
use crate::patterns::{groups_view, regex_captures, ASSIGNMENT};
use crate::text::{is_space, trim, trim_end, trim_start, unicode_lowercase, Class};
use vstd::prelude::*;
use vstd::utf8::*;

verus! {

// ---------------------------------------------------------------------------------------
// Words
// ---------------------------------------------------------------------------------------

/// Whether a character of an unquoted word is literal.
pub open spec fn is_word_char(c: char) -> bool {
    &&& !is_space(c)
    &&& c != ';' && c != '|' && c != '&' && c != ')' && c != '<' && c != '>'
    &&& c != '$' && c != '`' && c != '(' && c != '\\' && c != '\'' && c != '"'
}

/// An unquoted word ends at the end of the text, at a space, at the end of a command and at a
/// redirection, and nowhere else; what looks like a redirection and opens a bracket is none.
pub proof fn law_where_words_end(c: char, rest: Seq<char>)
    ensures
        word_ends(Seq::empty()),
        word_ends(seq![c] + rest) <==> is_space(c) || c == ';' || c == '|' || c == '&' || c == ')'
            || ((c == '<' || c == '>') && (rest.len() == 0 || rest[0] != '(')),
{
    let s = seq![c] + rest;
    assert(s[0] == c);
    if rest.len() > 0 {
        assert(s[1] == rest[0]);
    }
}

/// The literal characters of a word decide nothing; the end of the word, or what the shell works
/// out, does.
pub proof fn law_literal_characters_decide_nothing(c: char, rest: Seq<char>)
    ensures
        !is_worked_out(Seq::empty(), None),
        is_word_char(c) ==> is_worked_out(seq![c] + rest, None) == is_worked_out(rest, None),
        c == '$' || c == '`' || c == '(' ==> is_worked_out(seq![c] + rest, None),
        word_ends(seq![c] + rest) ==> !is_worked_out(seq![c] + rest, None),
        (c == '<' || c == '>') && rest.len() > 0 && rest[0] == '(' ==> is_worked_out(
            seq![c] + rest,
            None,
        ),
{
    let s = seq![c] + rest;
    assert(s[0] == c);
    assert(s.skip(1) =~= rest);
    if rest.len() > 0 {
        assert(s[1] == rest[0]);
    }
}

/// A backslash makes the character behind it literal, whatever it is.
pub proof fn law_escaped_characters_decide_nothing(c: char, rest: Seq<char>)
    ensures
        is_worked_out(seq!['\\', c] + rest, None) == is_worked_out(rest, None),
        is_worked_out(seq!['\\', c] + rest, Some('"')) == is_worked_out(rest, Some('"')),
{
    let s = seq!['\\', c] + rest;
    assert(s[0] == '\\');
    assert(s.skip(2) =~= rest);
}

/// Between single quotes everything is literal.
pub proof fn law_single_quotes_decide_nothing(inside: Seq<char>, rest: Seq<char>)
    requires
        !inside.contains('\''),
    ensures
        is_worked_out(inside + seq!['\''] + rest, Some('\'')) == is_worked_out(rest, None),
        is_worked_out(seq!['\''] + inside + seq!['\''] + rest, None) == is_worked_out(rest, None),
    decreases inside.len(),
{
    let s = inside + seq!['\''] + rest;
    if inside.len() == 0 {
        assert(s[0] == '\'');
        assert(s.skip(1) =~= rest);
    } else {
        let more = inside.skip(1);
        assert forall|i: int| 0 <= i < more.len() implies more[i] != '\'' by {
            assert(more[i] == inside[i + 1]);
            assert(inside.contains(inside[i + 1]));
        }
        law_single_quotes_decide_nothing(more, rest);
        assert(inside.contains(inside[0]));
        assert(s[0] == inside[0]);
        assert(s.skip(1) =~= more + seq!['\''] + rest);
    }
    assert(is_worked_out(s, Some('\'')) == is_worked_out(rest, None));
    let whole = seq!['\''] + inside + seq!['\''] + rest;
    assert(whole[0] == '\'');
    assert(!word_ends(whole));
    assert(whole.skip(1) =~= s);
    assert(is_worked_out(whole, None) == is_worked_out(whole.skip(1), Some('\'')));
}

/// Between double quotes everything is literal but what begins with a dollar sign or a backquote.
pub proof fn law_double_quotes(inside: Seq<char>, rest: Seq<char>)
    requires
        !inside.contains('"'),
        !inside.contains('\\'),
    ensures
        is_worked_out(inside + seq!['"'] + rest, Some('"')) == (inside.contains('$')
            || inside.contains('`') || is_worked_out(rest, None)),
        is_worked_out(seq!['"'] + inside + seq!['"'] + rest, None) == (inside.contains('$')
            || inside.contains('`') || is_worked_out(rest, None)),
    decreases inside.len(),
{
    let s = inside + seq!['"'] + rest;
    if inside.len() == 0 {
        assert(s[0] == '"');
        assert(s.skip(1) =~= rest);
    } else {
        let more = inside.skip(1);
        let c = inside[0];
        assert(inside.contains(c));
        assert forall|i: int| 0 <= i < more.len() implies more[i] != '"' && more[i] != '\\' by {
            assert(more[i] == inside[i + 1]);
            assert(inside.contains(inside[i + 1]));
        }
        law_double_quotes(more, rest);
        assert(s[0] == c);
        assert(s.skip(1) =~= more + seq!['"'] + rest);
        assert(inside =~= seq![c] + more);
        lemma_contains_in_front(c, more, '$');
        lemma_contains_in_front(c, more, '`');
    }
    assert(is_worked_out(s, Some('"')) == (inside.contains('$') || inside.contains('`')
        || is_worked_out(rest, None)));
    let whole = seq!['"'] + inside + seq!['"'] + rest;
    assert(whole[0] == '"');
    assert(!word_ends(whole));
    assert(whole.skip(1) =~= s);
    assert(is_worked_out(whole, None) == is_worked_out(whole.skip(1), Some('"')));
}

proof fn lemma_contains_in_front(c: char, rest: Seq<char>, x: char)
    ensures
        (seq![c] + rest).contains(x) == (c == x || rest.contains(x)),
{
    let s = seq![c] + rest;
    if rest.contains(x) {
        let i = choose|i: int| 0 <= i < rest.len() && rest[i] == x;
        assert(s[i + 1] == x);
    }
    if c == x {
        assert(s[0] == x);
    }
    if s.contains(x) && c != x {
        let i = choose|i: int| 0 <= i < s.len() && s[i] == x;
        assert(rest[i - 1] == x);
    }
}

/// Inside quotes a text goes on character by character to the closing quote; without one, nothing
/// comes behind the text.
pub proof fn law_inside_quotes(c: char, rest: Seq<char>)
    ensures
        !is_worked_out(Seq::empty(), Some('\'')),
        !is_worked_out(Seq::empty(), Some('"')),
        c != '\'' ==> is_worked_out(seq![c] + rest, Some('\'')) == is_worked_out(rest, Some('\'')),
        is_worked_out(seq!['\''] + rest, Some('\'')) == is_worked_out(rest, None),
        c == '$' || c == '`' ==> is_worked_out(seq![c] + rest, Some('"')),
        c != '"' && c != '\\' && c != '$' && c != '`' ==> is_worked_out(
            seq![c] + rest,
            Some('"'),
        ) == is_worked_out(rest, Some('"')),
        is_worked_out(seq!['"'] + rest, Some('"')) == is_worked_out(rest, None),
        !is_worked_out(seq!['\\'], None),
        !is_worked_out(seq!['\\'], Some('"')),
{
    let s = seq![c] + rest;
    assert(s[0] == c);
    assert(s.skip(1) =~= rest);
    let single = seq!['\''] + rest;
    assert(single[0] == '\'');
    assert(single.skip(1) =~= rest);
    let double = seq!['"'] + rest;
    assert(double[0] == '"');
    assert(double.skip(1) =~= rest);
}

/// A quote opens a quoted part of a word.
pub proof fn law_opening_quotes(rest: Seq<char>)
    ensures
        is_worked_out(seq!['\''] + rest, None) == is_worked_out(rest, Some('\'')),
        is_worked_out(seq!['"'] + rest, None) == is_worked_out(rest, Some('"')),
{
    let single = seq!['\''] + rest;
    assert(single[0] == '\'');
    assert(single.skip(1) =~= rest);
    assert(!word_ends(single));
    let double = seq!['"'] + rest;
    assert(double[0] == '"');
    assert(double.skip(1) =~= rest);
    assert(!word_ends(double));
}

/// A backslash at the end escapes what comes next unless it is escaped itself.
pub proof fn law_escaping_at_the_end(s: Seq<char>, c: char)
    ensures
        !ends_escaped(Seq::empty()),
        c != '\\' ==> !ends_escaped(s.push(c)),
        ends_escaped(s.push('\\')) == !ends_escaped(s),
{
    assert(s.push(c).last() == c);
    assert(s.push('\\').drop_last() =~= s);
}

/// A match at the start of a text goes on where the shell works out something in the rest of its
/// word, and ends its word where the rest begins with the end of a word; an escape at its end
/// reaches one character into the rest.
pub proof fn law_behind_a_match(
    whole: Seq<char>,
    rest: Seq<char>,
    others: Seq<Option<Seq<char>>>,
)
    ensures
        ({
            let groups = Some(seq![Some(whole)] + others);
            let text = whole + rest;
            &&& !ends_escaped(whole) ==> goes_on(text, groups) == is_worked_out(rest, None)
            &&& ends_escaped(whole) && rest.len() > 0 ==> goes_on(text, groups) == is_worked_out(
                rest.skip(1),
                None,
            )
            &&& ends_there(text, groups) == (!ends_escaped(whole) && word_ends(rest))
        }),
        !goes_on(whole, Some(seq![Some(whole)] + others)),
        !goes_on(whole, None),
        !ends_there(whole, None),
{
    let groups = seq![Some(whole)] + others;
    let text = whole + rest;
    assert(groups[0] == Some(whole));
    assert(group(Some(groups), 0) == Some(whole));
    if rest.len() > 0 {
        assert(text.skip(whole.len() as int) =~= rest);
    } else {
        assert(rest =~= seq![]);
    }
    assert(behind_match(text, whole) == rest);
    assert(behind_match(whole, whole) =~= seq![]);
}

// ---------------------------------------------------------------------------------------
// Assignments
// ---------------------------------------------------------------------------------------

/// A group of a match is the one at its place, where there is one.
pub proof fn law_groups(groups: Seq<Option<Seq<char>>>, i: int)
    ensures
        0 <= i < groups.len() ==> group(Some(groups), i) == groups[i],
        !(0 <= i < groups.len()) ==> group(Some(groups), i) is None,
        group(None, i) is None,
{
}

/// The groups of a match are seen as their texts.
pub proof fn law_texts_of_groups(groups: Vec<Option<String>>, i: int)
    requires
        0 <= i < groups@.len(),
    ensures
        groups_view(None) is None,
        groups_view(Some(groups)) matches Some(g) && g.len() == groups@.len() && match groups@[i] {
            Some(s) => g[i] == Some(s@),
            None => g[i] is None,
        },
{
}

/// A value loses the quotes around it, of either kind, and nothing else.
pub proof fn law_quotes_around_values(inside: Seq<char>, value: Seq<char>)
    ensures
        unquoted(seq!['\''] + inside + seq!['\'']) == inside,
        unquoted(seq!['"'] + inside + seq!['"']) == inside,
        value.len() < 2 || value[0] != value.last() || (value[0] != '\'' && value[0] != '"')
            ==> unquoted(value) == value,
{
    let single = seq!['\''] + inside + seq!['\''];
    let double = seq!['"'] + inside + seq!['"'];
    assert(single.subrange(1, single.len() - 1) =~= inside);
    assert(double.subrange(1, double.len() - 1) =~= inside);
    assert(single[0] == '\'' && single.last() == '\'');
    assert(double[0] == '"' && double.last() == '"');
}

/// An assignment is tracked where its value takes at most 200 bytes, holds no redirection,
/// bracket or backquote, and is all literal; then it is the value without its quotes that is.
pub proof fn law_tracked_assignments(
    text: Seq<char>,
    whole: Option<Seq<char>>,
    name: Seq<char>,
    value: Seq<char>,
)
    ensures
        ({
            let groups = Some(seq![whole, Some(name), Some(value)]);
            let v = unquoted(value);
            assignment_of(text, groups) == (if encode_utf8(v).len() <= 200 && !v.contains('<')
                && !v.contains('(') && !v.contains('`') && !goes_on(text, groups) {
                Some((name, v))
            } else {
                None
            })
        }),
        assignment_of(text, None) is None,
        assignment_of(text, Some(seq![whole, None, Some(value)])) is None,
        assignment_of(text, Some(seq![whole, Some(name), None])) is None,
{
}

/// A line is a comment where its first character that is no space is a number sign.
pub proof fn law_comments(line: Seq<char>)
    ensures
        is_comment(line) <==> exists|i: int|
            0 <= i < line.len() && #[trigger] line[i] == '#' && forall|j: int|
                0 <= j < i ==> is_space(#[trigger] line[j]),
{
    let t = trim_start(line, Class::Space);
    let n = line.len() - t.len();
    law_trim_start(line, Class::Space);
    crate::laws::text::law_trim_end(t, Class::Space);
    let u = trim_end(t, Class::Space);
    if is_comment(line) {
        assert(u[0] == t[0]);
        assert(line[n] == '#');
        assert forall|j: int| 0 <= j < n implies is_space(#[trigger] line[j]) by {
            assert(Class::Space.has(line[j]));
        }
    }
    if exists|i: int|
        0 <= i < line.len() && #[trigger] line[i] == '#' && forall|j: int|
            0 <= j < i ==> is_space(#[trigger] line[j]) {
        let i = choose|i: int|
            0 <= i < line.len() && #[trigger] line[i] == '#' && forall|j: int|
                0 <= j < i ==> is_space(#[trigger] line[j]);
        if i < n {
            assert(Class::Space.has(line[i]));
        }
        assert(n <= i);
        if n < i {
            assert(is_space(line[n]));
            assert(t[0] == line[n]);
        }
        assert(t[0] == '#');
        if u.len() == 0 {
            assert(Class::Space.has(t[0]));
        }
        assert(u[0] == t[0]);
    }
}

/// The assignment on a line is that of its text without the space around it; a comment has none.
pub proof fn law_assignment_of_a_line(line: Seq<char>)
    ensures
        is_comment(line) ==> line_assignment(line) is None,
        !is_comment(line) ==> line_assignment(line) == assignment_of(
            trim(line, Class::Space),
            regex_captures(ASSIGNMENT@, trim(line, Class::Space)),
        ),
        ASSIGNMENT@
            == r#"(?m)^[[:space:]]*([A-Za-z_][A-Za-z0-9_]*)=(['][^']*[']|["][^"]*["]|[^\s;|&<>`$()'"]*)"#@,
{
}

/// The variables are what the lines assign one after the other, under the lowercase of their
/// names; a line that assigns nothing changes nothing.
pub proof fn law_assignments_line_by_line(lines: Seq<Seq<char>>, line: Seq<char>)
    ensures
        assignments(Seq::empty()) == Map::<Seq<char>, Seq<char>>::empty(),
        line_assignment(line) is None ==> assignments(lines.push(line)) == assignments(lines),
        line_assignment(line) matches Some((name, value)) ==> assignments(lines.push(line))
            == assignments(lines).insert(unicode_lowercase(name), value),
{
    assert(lines.push(line).drop_last() =~= lines);
}

/// The texts of a table of variables are the values under the same names.
pub proof fn law_texts_of_variables(vars: Map<Seq<char>, String>, name: Seq<char>)
    ensures
        value_texts(vars).contains_key(name) <==> vars.contains_key(name),
        vars.contains_key(name) ==> value_texts(vars)[name] == vars[name]@,
{
}

} // verus!
