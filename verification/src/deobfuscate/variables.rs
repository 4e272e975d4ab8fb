//! Variables: which assignments are tracked, and what their references stand for.

use super::expansion::{
    dollars, has_no_reference, lemma_no_reference_without_dollar,
    lemma_substitution_uses_up_dollars, values_are_final,
};
use crate::patterns::{
    byte_slice, captures_each, group_spans, groups_view, regex_captures, regex_group_spans,
    slice_text, span_fits, span_text, spans_in_order, Span, ASSIGNMENT, REFERENCE,
};
use crate::table::Table;
use crate::text::{
    has_char, is_space, lines, lines_of, same_text, texts, trim, trim_end, trim_start, trimmed, trimmed_end,
    trimmed_start, unicode_lowercase, Class,
};
use vstd::prelude::*;
use vstd::utf8::*;

verus! {

/// The values of tracked variables, by the lowercase of their names.
pub type Variables = Table<String>;

/// The texts that a table of variables holds.
pub open spec fn value_texts(vars: Map<Seq<char>, String>) -> Map<Seq<char>, Seq<char>> {
    vars.map_values(|s: String| s@)
}

// ---------------------------------------------------------------------------------------
// Assignments
// ---------------------------------------------------------------------------------------

/// Whether `v` stands between two of the given quote.
pub open spec fn is_quoted_by(v: Seq<char>, quote: char) -> bool {
    v.len() >= 2 && v[0] == quote && v.last() == quote
}

/// `v` without the quotes around it.
pub open spec fn unquoted(v: Seq<char>) -> Seq<char> {
    if is_quoted_by(v, '\'') || is_quoted_by(v, '"') {
        v.subrange(1, v.len() - 1)
    } else {
        v
    }
}

/// The longest value, in bytes, that is tracked.
pub const MAX_VALUE_BYTES: usize = 200;

/// Whether a value is tracked: short, and neither a redirection nor a substitution.
pub open spec fn is_trackable(v: Seq<char>) -> bool {
    &&& encode_utf8(v).len() <= MAX_VALUE_BYTES
    &&& !v.contains('<')
    &&& !v.contains('(')
    &&& !v.contains('`')
}

/// The group at `i`, where there is one that took part in the match.
pub open spec fn group(groups: Option<Seq<Option<Seq<char>>>>, i: int) -> Option<Seq<char>> {
    match groups {
        Some(g) => if 0 <= i < g.len() {
            g[i]
        } else {
            None
        },
        None => None,
    }
}

/// Whether an unquoted word ends at the head of `s`: at its end, at a space, at the end of a
/// command or at a redirection.
pub open spec fn word_ends(s: Seq<char>) -> bool {
    ||| s.len() == 0
    ||| is_space(s[0]) || s[0] == ';' || s[0] == '|' || s[0] == '&' || s[0] == ')'
    ||| (s[0] == '<' || s[0] == '>') && !(s.len() > 1 && s[1] == '(')
}

/// Whether the rest `s` of a word holds something that the shell works out: a substitution, an
/// arithmetic expression, an array, or the output or input of a process. `quote` is the quote
/// that is open at the head of `s`, where one is; between single quotes everything is literal.
pub open spec fn is_worked_out(s: Seq<char>, quote: Option<char>) -> bool
    decreases s.len(),
{
    if s.len() == 0 {
        false
    } else if quote == Some('\'') {
        is_worked_out(s.skip(1), if s[0] == '\'' {
            None
        } else {
            quote
        })
    } else if s[0] == '\\' {
        s.len() > 1 && is_worked_out(s.skip(2), quote)
    } else if s[0] == '$' || s[0] == '`' {
        true
    } else if quote == Some('"') {
        is_worked_out(s.skip(1), if s[0] == '"' {
            None
        } else {
            quote
        })
    } else if word_ends(s) {
        false
    } else if s[0] == '(' || s[0] == '<' || s[0] == '>' {
        true
    } else {
        is_worked_out(s.skip(1), if s[0] == '\'' || s[0] == '"' {
            Some(s[0])
        } else {
            None
        })
    }
}

/// Whether `s` ends with a backslash that escapes what comes behind it.
pub open spec fn ends_escaped(s: Seq<char>) -> bool
    decreases s.len(),
{
    s.len() > 0 && s.last() == '\\' && !ends_escaped(s.drop_last())
}

/// What stands in `text` behind a match at its start.
pub open spec fn behind_match(text: Seq<char>, whole: Seq<char>) -> Seq<char> {
    if whole.len() < text.len() {
        text.skip(whole.len() as int)
    } else {
        seq![]
    }
}

/// Whether the word that a match at the start of `text` ends in goes on with something that the
/// shell works out, so that its value is not literal.
pub open spec fn goes_on(text: Seq<char>, groups: Option<Seq<Option<Seq<char>>>>) -> bool {
    match group(groups, 0) {
        Some(whole) => {
            let rest = behind_match(text, whole);
            is_worked_out(
                if ends_escaped(whole) && rest.len() > 0 {
                    rest.skip(1)
                } else {
                    rest
                },
                None,
            )
        },
        None => false,
    }
}

/// Whether the word that a match at the start of `text` ends in ends with the match.
pub open spec fn ends_there(text: Seq<char>, groups: Option<Seq<Option<Seq<char>>>>) -> bool {
    match group(groups, 0) {
        Some(whole) => !ends_escaped(whole) && word_ends(behind_match(text, whole)),
        None => false,
    }
}

/// The name and the value that the groups of an assignment at the start of `text` give, where
/// the value is tracked.
pub open spec fn assignment_of(
    text: Seq<char>,
    groups: Option<Seq<Option<Seq<char>>>>,
) -> Option<(Seq<char>, Seq<char>)> {
    match (group(groups, 1), group(groups, 2)) {
        (Some(name), Some(value)) => if is_trackable(unquoted(value)) && !goes_on(text, groups) {
            Some((name, unquoted(value)))
        } else {
            None
        },
        _ => None,
    }
}

/// Whether a line is a comment.
pub open spec fn is_comment(line: Seq<char>) -> bool {
    let t = trim(line, Class::Space);
    t.len() > 0 && t[0] == '#'
}

/// The tracked assignment on a line, comments aside.
pub open spec fn line_assignment(line: Seq<char>) -> Option<(Seq<char>, Seq<char>)> {
    if is_comment(line) {
        None
    } else {
        let t = trim(line, Class::Space);
        assignment_of(t, regex_captures(ASSIGNMENT@, t))
    }
}

/// The variables that the lines assign, the last assignment of each.
pub open spec fn assignments(lines: Seq<Seq<char>>) -> Map<Seq<char>, Seq<char>>
    decreases lines.len(),
{
    if lines.len() == 0 {
        Map::empty()
    } else {
        let before = assignments(lines.drop_last());
        match line_assignment(lines.last()) {
            Some((name, value)) => before.insert(unicode_lowercase(name), value),
            None => before,
        }
    }
}

/// The text of the group at `i`.
pub fn group_text(groups: &Option<Vec<Option<String>>>, i: usize) -> (r: Option<String>)
    ensures
        match r {
            Some(t) => group(groups_view(*groups), i as int) == Some(t@),
            None => group(groups_view(*groups), i as int) is None,
        },
{
    match groups {
        Some(g) => if i < g.len() {
            match &g[i] {
                Some(t) => Some(t.clone()),
                None => None,
            }
        } else {
            None
        },
        None => None,
    }
}

/// Takes the quotes off a value that stands between two of the same kind.
fn without_surrounding_quotes(v: &str) -> (r: String)
    ensures
        r@ == unquoted(v@),
{
    let chars = crate::text::chars_of(v);
    let n: usize = chars.len();
    if n >= 2 && ((chars[0] == '\'' && chars[n - 1] == '\'') || (chars[0] == '"' && chars[n - 1]
        == '"')) {
        crate::text::text_of(vstd::slice::slice_subrange(chars.as_slice(), 1, n - 1))
    } else {
        v.to_owned()
    }
}

/// Whether an unquoted word ends at `i`.
fn ends_at(chars: &[char], i: usize) -> (r: bool)
    requires
        i <= chars@.len(),
    ensures
        r == word_ends(chars@.skip(i as int)),
{
    let ghost s = chars@.skip(i as int);
    let n: usize = chars.len();
    if i >= n {
        return true;
    }
    let c: char = chars[i];
    proof {
        assert(s[0] == c);
        if i + 1 < n {
            assert(s[1] == chars@[i + 1]);
        }
    }
    Class::Space.contains(c) || c == ';' || c == '|' || c == '&' || c == ')' || ((c == '<' || c
        == '>') && !(n - i > 1 && chars[i + 1] == '('))
}

/// Whether the rest of an unquoted word, from `start` on, holds something that the shell works
/// out.
fn works_out(chars: &[char], start: usize) -> (r: bool)
    requires
        start <= chars@.len(),
    ensures
        r == is_worked_out(chars@.skip(start as int), None),
{
    let n: usize = chars.len();
    let mut i: usize = start;
    let mut quote: Option<char> = None;
    while i < n
        invariant
            n == chars@.len(),
            start <= i <= n,
            quote is None || quote == Some('"') || quote == Some('\''),
            is_worked_out(chars@.skip(start as int), None) == is_worked_out(
                chars@.skip(i as int),
                quote,
            ),
        decreases n - i,
    {
        let c: char = chars[i];
        let ghost s = chars@.skip(i as int);
        proof {
            assert(s[0] == c);
            assert(s.skip(1) =~= chars@.skip(i + 1));
            if i + 1 < n {
                assert(s[1] == chars@[i + 1]);
                assert(s.skip(2) =~= chars@.skip(i + 2));
            }
        }
        let single: bool = quote.is_some() && quote.unwrap() == '\'';
        if single {
            if c == '\'' {
                quote = None;
            }
        } else if c == '\\' {
            if i + 1 >= n {
                return false;
            }
            i = i + 1;
        } else if c == '$' || c == '`' {
            return true;
        } else if quote.is_some() {
            if c == '"' {
                quote = None;
            }
        } else if ends_at(chars, i) {
            return false;
        } else if c == '(' || c == '<' || c == '>' {
            return true;
        } else if c == '\'' || c == '"' {
            quote = Some(c);
        }
        i = i + 1;
    }
    false
}

/// Whether a text ends with a backslash that escapes what comes behind it.
fn escapes_next(chars: &[char]) -> (r: bool)
    ensures
        r == ends_escaped(chars@),
{
    let n: usize = chars.len();
    let mut r: bool = false;
    for i in 0..n
        invariant
            n == chars@.len(),
            r == ends_escaped(chars@.take(i as int)),
    {
        proof {
            assert(chars@.take(i + 1).drop_last() =~= chars@.take(i as int));
        }
        r = chars[i] == '\\' && !r;
    }
    proof {
        assert(chars@.take(n as int) =~= chars@);
    }
    r
}

/// Whether the word that a match at the start of `text` ends in goes on with something that the
/// shell works out.
pub fn word_goes_on(text: &str, groups: &Option<Vec<Option<String>>>) -> (r: bool)
    ensures
        r == goes_on(text@, groups_view(*groups)),
{
    match group_text(groups, 0) {
        Some(whole) => {
            let chars = crate::text::chars_of(text);
            let matched = crate::text::chars_of(whole.as_str());
            let end: usize = matched.len();
            if end >= chars.len() {
                return false;
            }
            if escapes_next(matched.as_slice()) {
                proof {
                    assert(text@.skip(end as int).skip(1) =~= text@.skip(end + 1));
                }
                works_out(chars.as_slice(), end + 1)
            } else {
                works_out(chars.as_slice(), end)
            }
        },
        None => false,
    }
}

/// Whether the word that a match at the start of `text` ends in ends with the match.
pub fn word_ends_there(text: &str, groups: &Option<Vec<Option<String>>>) -> (r: bool)
    ensures
        r == ends_there(text@, groups_view(*groups)),
{
    match group_text(groups, 0) {
        Some(whole) => {
            let chars = crate::text::chars_of(text);
            let matched = crate::text::chars_of(whole.as_str());
            let end: usize = matched.len();
            !escapes_next(matched.as_slice()) && (end >= chars.len() || ends_at(
                chars.as_slice(),
                end,
            ))
        },
        None => false,
    }
}

/// The name and the value of an assignment at the start of `text`, from the groups of its
/// match: the value without its quotes, and only where it is short and literal.
pub fn assignment_from_groups(
    text: &str,
    groups: &Option<Vec<Option<String>>>,
) -> (r: Option<(String, String)>)
    ensures
        match r {
            Some((n, v)) => assignment_of(text@, groups_view(*groups)) == Some((n@, v@)),
            None => assignment_of(text@, groups_view(*groups)) is None,
        },
{
    match (group_text(groups, 1), group_text(groups, 2)) {
        (Some(name), Some(raw)) => {
            let value = without_surrounding_quotes(raw.as_str());
            if value.as_str().as_bytes().len() <= MAX_VALUE_BYTES && !has_char(value.as_str(), '<')
                && !has_char(value.as_str(), '(') && !has_char(value.as_str(), '`')
                && !word_goes_on(text, groups) {
                Some((name, value))
            } else {
                None
            }
        },
        _ => None,
    }
}

/// Whether a text begins with a number sign.
pub fn begins_comment(t: &str) -> (r: bool)
    ensures
        r == (t@.len() > 0 && t@[0] == '#'),
{
    let chars = crate::text::chars_of(t);
    chars.len() > 0 && chars[0] == '#'
}

/// The lines of `text`, each without the space around it.
pub fn trimmed_lines(text: &str) -> (r: Vec<String>)
    ensures
        r@.len() == lines(text@).len(),
        forall|i: int|
            0 <= i < r@.len() ==> (#[trigger] r@[i])@ == trim(lines(text@)[i], Class::Space),
{
    let all = lines_of(text);
    let n: usize = all.len();
    let mut out: Vec<String> = Vec::new();
    for i in 0..n
        invariant
            n == all@.len(),
            texts(all@) == lines(text@),
            out@.len() == i,
            forall|k: int|
                0 <= k < i ==> (#[trigger] out@[k])@ == trim(lines(text@)[k], Class::Space),
    {
        assert(lines(text@)[i as int] == all@[i as int]@);
        out.push(trimmed(all[i].as_str(), Class::Space));
    }
    out
}

/// Track simple variable assignments so indirection obfuscation like `CMD=bun; $CMD add` can be
/// resolved. Only literal string values are tracked (no arithmetic, command substitution, or
/// complex expressions).
pub fn track_assignments(text: &str) -> (r: Variables)
    ensures
        value_texts(r@) == assignments(lines(text@)),
{
    let all = trimmed_lines(text);
    let groups = captures_each(ASSIGNMENT, &all);
    let mut vars: Variables = Table::new();
    let n: usize = all.len();
    proof {
        assert(value_texts(vars@) =~= Map::empty());
    }
    for i in 0..n
        invariant
            n == all@.len(),
            n == groups@.len(),
            n == lines(text@).len(),
            forall|k: int|
                0 <= k < n ==> (#[trigger] all@[k])@ == trim(lines(text@)[k], Class::Space),
            forall|k: int|
                0 <= k < n ==> groups_view(#[trigger] groups@[k]) == regex_captures(
                    ASSIGNMENT@,
                    all@[k]@,
                ),
            value_texts(vars@) == assignments(lines(text@).take(i as int)),
    {
        let ghost ls = lines(text@);
        proof {
            assert(ls.take(i + 1).drop_last() == ls.take(i as int));
            assert(ls.take(i + 1).last() == ls[i as int]);
            assert(all@[i as int]@ == trim(ls[i as int], Class::Space));
        }
        if !begins_comment(all[i].as_str()) {
            match assignment_from_groups(all[i].as_str(), &groups[i]) {
                Some((name, value)) => {
                    let key = name.as_str().to_lowercase();
                    proof {
                        assert(value_texts(vars@.insert(key@, value)) =~= value_texts(
                            vars@,
                        ).insert(key@, value@));
                    }
                    vars.insert(key, value);
                },
                None => {},
            }
        }
    }
    proof {
        assert(lines(text@).take(n as int) == lines(text@));
    }
    vars
}

// ---------------------------------------------------------------------------------------
// References
// ---------------------------------------------------------------------------------------

/// The key of a reference, from the part behind its dollar sign: without braces, in lowercase.
pub open spec fn reference_key(raw: Seq<char>) -> Seq<char> {
    unicode_lowercase(trim_end(trim_start(raw, Class::OpenBrace), Class::CloseBrace))
}

/// What a reference in `text` is replaced by: the value of its variable, or, where that is not
/// tracked, the reference itself.
pub open spec fn replacement(
    text: Seq<char>,
    m: (Span, Span),
    vars: Map<Seq<char>, Seq<char>>,
) -> Seq<char> {
    let key = reference_key(span_text(text, m.1));
    if vars.contains_key(key) {
        vars[key]
    } else {
        span_text(text, m.0)
    }
}

/// Where the text behind the first `n` matches begins.
pub open spec fn behind_matches(matches: Seq<(Span, Span)>, n: int) -> int {
    if n == 0 {
        0
    } else {
        matches[n - 1].0.1 as int
    }
}

/// `text` up to the end of its first `n` matches, each match replaced.
pub open spec fn substituted_prefix(
    text: Seq<char>,
    matches: Seq<(Span, Span)>,
    vars: Map<Seq<char>, Seq<char>>,
    n: int,
) -> Seq<char>
    decreases n,
{
    if n <= 0 {
        seq![]
    } else {
        substituted_prefix(text, matches, vars, n - 1) + byte_slice(
            text,
            behind_matches(matches, n - 1),
            matches[n - 1].0.0 as int,
        ) + replacement(text, matches[n - 1], vars)
    }
}

/// `text` with each of the given references replaced.
pub open spec fn substituted(
    text: Seq<char>,
    matches: Seq<(Span, Span)>,
    vars: Map<Seq<char>, Seq<char>>,
) -> Seq<char> {
    let n = matches.len() as int;
    substituted_prefix(text, matches, vars, n) + byte_slice(
        text,
        behind_matches(matches, n),
        encode_utf8(text).len() as int,
    )
}

/// `text` with every reference replaced, once.
pub open spec fn expanded_once(text: Seq<char>, vars: Map<Seq<char>, Seq<char>>) -> Seq<char> {
    substituted(text, regex_group_spans(REFERENCE@, text), vars)
}

/// `text` with every reference replaced, `n` times in a row.
pub open spec fn expanded(text: Seq<char>, vars: Map<Seq<char>, Seq<char>>, n: nat) -> Seq<char>
    decreases n,
{
    if n == 0 {
        text
    } else {
        expanded_once(expanded(text, vars, (n - 1) as nat), vars)
    }
}

/// Whether another round changes nothing after `n` of them.
pub open spec fn settled_at(text: Seq<char>, vars: Map<Seq<char>, Seq<char>>, n: nat) -> bool {
    expanded_once(expanded(text, vars, n), vars) == expanded(text, vars, n)
}

/// Whether the expansion of `text` comes to an end after at most `rounds` rounds. With a
/// variable whose value refers back to itself it may not: `x='$x$x'` grows without end.
pub open spec fn settles_within(
    text: Seq<char>,
    vars: Map<Seq<char>, Seq<char>>,
    rounds: nat,
) -> bool {
    vars.dom() == Set::<Seq<char>>::empty() || exists|n: nat|
        n <= rounds && #[trigger] settled_at(text, vars, n)
}

/// Whether the expansion of `text` comes to an end.
pub open spec fn settles(text: Seq<char>, vars: Map<Seq<char>, Seq<char>>) -> bool {
    exists|rounds: nat| #[trigger] settles_within(text, vars, rounds)
}

/// What `text` is expanded to in the end, nested references included.
pub open spec fn resolved(text: Seq<char>, vars: Map<Seq<char>, Seq<char>>) -> Seq<char> {
    if vars.dom() == Set::<Seq<char>>::empty() {
        text
    } else {
        expanded(text, vars, choose|n: nat| settled_at(text, vars, n))
    }
}

/// Whether the matches lie in `text` one behind the other, each with its group.
pub open spec fn are_reference_spans(text: Seq<char>, matches: Seq<(Span, Span)>) -> bool {
    &&& spans_in_order(text, matches.map_values(|m: (Span, Span)| m.0))
    &&& forall|i: int| 0 <= i < matches.len() ==> span_fits(text, (#[trigger] matches[i]).1)
}

/// From a settled round on, the expansion stays what it is.
pub proof fn lemma_settled_stays(
    text: Seq<char>,
    vars: Map<Seq<char>, Seq<char>>,
    n: nat,
    k: nat,
)
    requires
        settled_at(text, vars, n),
        n <= k,
    ensures
        expanded(text, vars, k) == expanded(text, vars, n),
        settled_at(text, vars, k),
    decreases k,
{
    if n < k {
        lemma_settled_stays(text, vars, n, (k - 1) as nat);
    }
}

/// Whatever round an expansion settles at, that is what it resolves to.
pub proof fn lemma_resolved_at(text: Seq<char>, vars: Map<Seq<char>, Seq<char>>, n: nat)
    requires
        vars.dom() != Set::<Seq<char>>::empty(),
        settled_at(text, vars, n),
    ensures
        resolved(text, vars) == expanded(text, vars, n),
{
    let m = choose|m: nat| settled_at(text, vars, m);
    if m <= n {
        lemma_settled_stays(text, vars, m, n);
    } else {
        lemma_settled_stays(text, vars, n, m);
    }
}

/// What one reference is replaced by.
fn replacement_of(text: &str, m: (Span, Span), vars: &Variables) -> (r: String)
    requires
        span_fits(text@, m.0),
        span_fits(text@, m.1),
    ensures
        r@ == replacement(text@, m, value_texts(vars@)),
{
    let raw = slice_text(text, m.1.0, m.1.1);
    let open = trimmed_start(raw, Class::OpenBrace);
    let bare = trimmed_end(open.as_str(), Class::CloseBrace);
    let key = bare.as_str().to_lowercase();
    match vars.get(key.as_str()) {
        Some(v) => v.clone(),
        None => slice_text(text, m.0.0, m.0.1).to_owned(),
    }
}

/// Replaces each of the given references of `text` by the value of its variable; one whose
/// variable is not tracked stays.
pub fn substitute_references(
    text: &str,
    matches: &Vec<(Span, Span)>,
    vars: &Variables,
) -> (r: String)
    requires
        are_reference_spans(text@, matches@),
    ensures
        r@ == substituted(text@, matches@, value_texts(vars@)),
{
    let n: usize = matches.len();
    let mut out = String::new();
    let mut last: usize = 0;
    let ghost bytes = encode_utf8(text@);
    let ghost wholes = matches@.map_values(|m: (Span, Span)| m.0);
    proof {
        encode_utf8_valid_utf8(text@);
        is_char_boundary_start_end_of_seq(bytes);
    }
    for i in 0..n
        invariant
            n == matches@.len(),
            bytes == encode_utf8(text@),
            wholes == matches@.map_values(|m: (Span, Span)| m.0),
            are_reference_spans(text@, matches@),
            last == behind_matches(matches@, i as int),
            is_char_boundary(bytes, last as int),
            last <= bytes.len(),
            out@ == substituted_prefix(text@, matches@, value_texts(vars@), i as int),
    {
        let m: (Span, Span) = matches[i];
        proof {
            assert(wholes[i as int] == m.0);
            assert(span_fits(text@, wholes[i as int]));
            assert(span_fits(text@, matches@[i as int].1));
            if i > 0 {
                assert(wholes[i - 1] == matches@[i - 1].0);
            }
        }
        out.append(slice_text(text, last, m.0.0));
        out.append(replacement_of(text, m, vars).as_str());
        last = m.0.1;
    }
    out.append(slice_text(text, last, text.as_bytes().len()));
    out
}

/// Replaces every reference of `text`, once. Where the values hold no dollar signs, that uses up
/// dollar signs as long as there is a reference to a tracked variable.
fn expand_once(text: &str, vars: &Variables) -> (r: String)
    ensures
        r@ == expanded_once(text@, value_texts(vars@)),
        values_are_final(value_texts(vars@)) ==> if has_no_reference(text@, value_texts(vars@)) {
            r@ == text@
        } else {
            dollars(r@) < dollars(text@)
        },
        !text@.contains('$') ==> r@ == text@,
{
    let matches = group_spans(REFERENCE, text);
    proof {
        if !text@.contains('$') {
            lemma_no_reference_without_dollar(text@, matches@, value_texts(vars@));
        }
        if values_are_final(value_texts(vars@)) {
            lemma_substitution_uses_up_dollars(text@, matches@, value_texts(vars@));
        }
    }
    substitute_references(text, &matches, vars)
}

/// Whether there are no variables.
fn no_variables(vars: &Variables) -> (r: bool)
    ensures
        r == (value_texts(vars@).dom() == Set::<Seq<char>>::empty()),
{
    let n: usize = vars.len();
    proof {
        assert(value_texts(vars@).dom() =~= vars@.dom());
        if n == 0 {
            vars@.dom().lemma_len0_is_empty();
        }
    }
    n == 0
}

/// Replace `$VAR` and `${VAR}` with tracked variable values, again and again until nothing
/// changes, so that nested references resolve too.  Returns the input unchanged if no
/// replacements were made.  Where the values hold no references of their own, no reference to a
/// tracked variable is left.
pub fn resolve_variables(line: &str, vars: &Variables) -> (r: String)
    requires
        settles(line@, value_texts(vars@)),
    ensures
        r@ == resolved(line@, value_texts(vars@)),
        values_are_final(value_texts(vars@)) ==> has_no_reference(r@, value_texts(vars@)),
{
    if no_variables(vars) {
        return line.to_owned();
    }
    let ghost texts = value_texts(vars@);
    let ghost rounds = choose|rounds: nat| #[trigger] settles_within(line@, texts, rounds);
    let ghost bound = choose|n: nat| n <= rounds && #[trigger] settled_at(line@, texts, n);
    let ghost mut round: nat = 0;
    let mut result: String = line.to_owned();
    let mut changed: bool = true;
    while changed
        invariant
            texts == value_texts(vars@),
            texts.dom() != Set::<Seq<char>>::empty(),
            settled_at(line@, texts, bound),
            round <= bound,
            result@ == expanded(line@, texts, round),
            !changed ==> settled_at(line@, texts, round),
            !changed && values_are_final(texts) ==> has_no_reference(result@, texts),
        decreases bound - round, changed as int,
    {
        let replaced = expand_once(result.as_str(), vars);
        changed = false;
        if !same_text(replaced.as_str(), result.as_str()) {
            proof {
                if round == bound {
                    assert(false);
                }
                round = round + 1;
            }
            changed = true;
            result = replaced;
        }
    }
    proof {
        lemma_resolved_at(line@, texts, round);
    }
    result
}

/// Whether the expansion of `line` comes to an end after at most `rounds` rounds. It does where
/// there is nothing to expand, whatever the variables, and where the values hold no references
/// of their own and there are rounds enough: each one takes a dollar sign of the line.
pub fn references_settle(line: &str, vars: &Variables, rounds: usize) -> (r: bool)
    ensures
        r == settles_within(line@, value_texts(vars@), rounds as nat),
        !line@.contains('$') ==> r,
        values_are_final(value_texts(vars@)) && dollars(line@) <= rounds ==> r,
{
    if no_variables(vars) {
        return true;
    }
    let ghost texts = value_texts(vars@);
    let mut result: String = line.to_owned();
    let mut round: usize = 0;
    loop
        invariant
            texts == value_texts(vars@),
            texts.dom() != Set::<Seq<char>>::empty(),
            round <= rounds,
            result@ == expanded(line@, texts, round as nat),
            forall|n: nat| n < round ==> !#[trigger] settled_at(line@, texts, n),
            values_are_final(texts) ==> round + dollars(result@) <= dollars(line@),
            !line@.contains('$') ==> round == 0 && result@ == line@,
        decreases rounds - round,
    {
        let replaced = expand_once(result.as_str(), vars);
        if same_text(replaced.as_str(), result.as_str()) {
            assert(settled_at(line@, texts, round as nat));
            return true;
        }
        assert(!settled_at(line@, texts, round as nat));
        if round == rounds {
            return false;
        }
        round = round + 1;
        result = replaced;
    }
}

} // verus!
