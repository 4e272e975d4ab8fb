//! Laws of deobfuscation.

use super::ansi_c::ansi_c_resolved;
use super::quotes::{first_touching, flattened, is_quote, without_quotes};
use super::variables::{
    assignments, expanded, expanded_once, goes_on, is_comment, is_trackable, lemma_settled_stays,
    line_assignment, resolved, settled_at, settles, settles_within,
};
use super::{
    deobfuscated, is_kept, line_changes, literal_form, normalized, text_settles,
    text_settles_within,
};
use crate::patterns::{regex_captures, regex_find_spans, ASSIGNMENT, QUOTED};
use crate::text::{ascii_lower, lines, trim, unicode_lowercase, Class};
use vstd::prelude::*;

verus! {

// ---------------------------------------------------------------------------------------
// Quoting
// ---------------------------------------------------------------------------------------

/// Whether `$'` stands in `s` at `i`.
pub open spec fn ansi_c_quote_at(s: Seq<char>, i: int) -> bool {
    0 <= i && i + 1 < s.len() && s[i] == '$' && s[i + 1] == '\''
}

/// Text without `$'` passes the resolution of ANSI-C strings unchanged.
pub proof fn law_bare_text_unchanged(text: Seq<char>)
    requires
        forall|i: int| !ansi_c_quote_at(text, i),
    ensures
        ansi_c_resolved(text) == text,
    decreases text.len(),
{
    if text.len() == 0 {
        assert(text =~= seq![]);
    } else {
        let rest = text.skip(1);
        assert(!ansi_c_quote_at(text, 0));
        assert forall|i: int| !ansi_c_quote_at(rest, i) by {
            if ansi_c_quote_at(rest, i) {
                assert(rest[i] == text[i + 1] && rest[i + 1] == text[i + 2]);
                assert(ansi_c_quote_at(text, i + 1));
            }
        }
        law_bare_text_unchanged(rest);
        assert(seq![text[0]] + rest =~= text);
    }
}

/// Isolated quoted strings and bare text are kept verbatim: where no two quoted strings touch,
/// flattening changes nothing.
pub proof fn law_isolated_quotes_stay(text: Seq<char>)
    requires
        first_touching(regex_find_spans(QUOTED@, text), 0) is None,
    ensures
        flattened(text) == text,
{
}

proof fn lemma_filter_keeps_all(s: Seq<char>, p: spec_fn(char) -> bool)
    requires
        forall|i: int| 0 <= i < s.len() ==> p(#[trigger] s[i]),
    ensures
        s.filter(p) == s,
    decreases s.len(),
{
    reveal(Seq::filter);
    if s.len() > 0 {
        lemma_filter_keeps_all(s.drop_last(), p);
        assert(p(s[s.len() - 1]));
        assert(s.drop_last().push(s.last()) =~= s);
    }
}

/// Stripping leaves no quote behind, and everything else in order.
pub proof fn law_no_quotes_left(s: Seq<char>)
    ensures
        forall|i: int|
            0 <= i < without_quotes(s).len() ==> !is_quote(#[trigger] without_quotes(s)[i]),
        (forall|i: int| 0 <= i < s.len() ==> !is_quote(#[trigger] s[i])) ==> without_quotes(s) == s,
{
    let keep = |c: char| !is_quote(c);
    assert forall|i: int| 0 <= i < without_quotes(s).len() implies !is_quote(
        #[trigger] without_quotes(s)[i],
    ) by {
        s.lemma_filter_pred(keep, i);
    }
    if forall|i: int| 0 <= i < s.len() ==> !is_quote(#[trigger] s[i]) {
        lemma_filter_keeps_all(s, keep);
    }
}

/// What normalization leaves is printable or a tab or newline, and has no capital letters.
pub proof fn law_normalized_is_plain(s: Seq<char>)
    ensures
        forall|i: int|
            0 <= i < normalized(s).len() ==> is_kept(#[trigger] normalized(s)[i]) && !('A'
                <= normalized(s)[i] <= 'Z'),
{
    let keep = |c: char| is_kept(c);
    let kept = s.filter(keep);
    assert forall|i: int| 0 <= i < normalized(s).len() implies is_kept(#[trigger] normalized(s)[i])
        && !('A' <= normalized(s)[i] <= 'Z') by {
        s.lemma_filter_pred(keep, i);
        assert(normalized(s)[i] == ascii_lower(kept[i]));
    }
}

/// Text that is plain already passes normalization unchanged; so a second normalization adds
/// nothing.
pub proof fn law_normalization_of_plain_text(s: Seq<char>)
    requires
        forall|i: int| 0 <= i < s.len() ==> is_kept(#[trigger] s[i]) && !('A' <= s[i] <= 'Z'),
    ensures
        normalized(s) == s,
{
    let keep = |c: char| is_kept(c);
    assert forall|i: int| 0 <= i < s.len() implies keep(#[trigger] s[i]) by {
        assert(is_kept(s[i]));
    }
    lemma_filter_keeps_all(s, keep);
    assert(normalized(s) =~= s) by {
        assert forall|i: int| 0 <= i < s.len() implies ascii_lower(#[trigger] s[i]) == s[i] by {
            assert(is_kept(s[i]) && !('A' <= s[i] <= 'Z'));
        }
    }
}

/// Normalization is idempotent.
pub proof fn law_normalization_is_idempotent(s: Seq<char>)
    ensures
        normalized(normalized(s)) == normalized(s),
{
    law_normalized_is_plain(s);
    law_normalization_of_plain_text(normalized(s));
}

proof fn lemma_filter_from(s: Seq<char>, p: spec_fn(char) -> bool, i: int)
    requires
        0 <= i < s.filter(p).len(),
    ensures
        s.contains(s.filter(p)[i]),
{
    assert(s.filter(p).contains(s.filter(p)[i]));
    s.lemma_filter_contains_rev(p, s.filter(p)[i]);
}

/// The literal form of a line holds no quotes, no capital letters and nothing unprintable but
/// tabs and newlines.
pub proof fn law_literal_form_is_plain(line: Seq<char>)
    ensures
        forall|i: int|
            0 <= i < literal_form(line).len() ==> {
                &&& is_kept(#[trigger] literal_form(line)[i])
                &&& !is_quote(literal_form(line)[i])
                &&& !('A' <= literal_form(line)[i] <= 'Z')
            },
{
    let bare = without_quotes(ansi_c_resolved(line));
    let keep = |c: char| is_kept(c);
    law_normalized_is_plain(bare);
    law_no_quotes_left(ansi_c_resolved(line));
    assert forall|i: int| 0 <= i < literal_form(line).len() implies !is_quote(
        #[trigger] literal_form(line)[i],
    ) by {
        lemma_filter_from(bare, keep, i);
        let j = choose|j: int| 0 <= j < bare.len() && bare[j] == bare.filter(keep)[i];
        assert(!is_quote(bare[j]));
        assert(literal_form(line)[i] == ascii_lower(bare.filter(keep)[i]));
    }
}

/// Whether deobfuscation finds nothing to undo on a line by itself: printable lowercase text
/// without quotes.
pub open spec fn is_plain_line(line: Seq<char>) -> bool {
    forall|i: int|
        0 <= i < line.len() ==> is_kept(#[trigger] line[i]) && !is_quote(line[i]) && !('A'
            <= line[i] <= 'Z')
}

/// A plain line is its own literal form.
pub proof fn law_plain_line_unchanged(line: Seq<char>)
    requires
        is_plain_line(line),
    ensures
        ansi_c_resolved(line) == line,
        literal_form(line) == line,
{
    assert forall|i: int| !ansi_c_quote_at(line, i) by {
        if ansi_c_quote_at(line, i) {
            assert(!is_quote(line[i + 1]));
        }
    }
    law_bare_text_unchanged(line);
    law_no_quotes_left(line);
    law_normalization_of_plain_text(line);
}

/// A text of plain lines that assigns no variables is not changed by deobfuscation.
pub proof fn law_plain_text_unchanged(text: Seq<char>)
    requires
        assignments(lines(text)) == Map::<Seq<char>, Seq<char>>::empty(),
        forall|i: int| 0 <= i < lines(text).len() ==> is_plain_line(#[trigger] lines(text)[i]),
    ensures
        deobfuscated(text) is None,
{
    let vars = assignments(lines(text));
    assert(vars.dom() =~= Set::<Seq<char>>::empty());
    assert forall|i: int| 0 <= i < lines(text).len() implies !line_changes(
        #[trigger] lines(text)[i],
        vars,
    ) by {
        law_plain_line_unchanged(lines(text)[i]);
    }
}

// ---------------------------------------------------------------------------------------
// Variables
// ---------------------------------------------------------------------------------------

/// A comment assigns nothing: with it or without it, the same variables are tracked.
pub proof fn law_comments_assign_nothing(
    before: Seq<Seq<char>>,
    comment: Seq<char>,
    behind: Seq<Seq<char>>,
)
    requires
        is_comment(comment),
    ensures
        assignments(before + seq![comment] + behind) == assignments(before + behind),
    decreases behind.len(),
{
    let with = before + seq![comment] + behind;
    if behind.len() == 0 {
        assert(with.drop_last() =~= before);
        assert(before + behind =~= before);
    } else {
        let rest = behind.drop_last();
        law_comments_assign_nothing(before, comment, rest);
        assert(with.drop_last() =~= before + seq![comment] + rest);
        assert((before + behind).drop_last() =~= before + rest);
        assert(with.last() == behind.last() && (before + behind).last() == behind.last());
    }
}

/// Only literal values are tracked: none is long, none holds a redirection, a command
/// substitution or a backquote.
pub proof fn law_tracked_values_are_literal(ls: Seq<Seq<char>>, name: Seq<char>)
    requires
        assignments(ls).contains_key(name),
    ensures
        is_trackable(assignments(ls)[name]),
    decreases ls.len(),
{
    if ls.len() > 0 {
        let before = assignments(ls.drop_last());
        if before.contains_key(name) {
            law_tracked_values_are_literal(ls.drop_last(), name);
        }
    }
}

/// An assignment whose word goes on with a substitution, an arithmetic expression or an array
/// is not tracked: with the line or without it, the same variables are.
pub proof fn law_substitutions_assign_nothing(before: Seq<Seq<char>>, line: Seq<char>)
    requires
        goes_on(
            trim(line, Class::Space),
            regex_captures(ASSIGNMENT@, trim(line, Class::Space)),
        ),
    ensures
        assignments(before + seq![line]) == assignments(before),
{
    assert((before + seq![line]).drop_last() =~= before);
}

/// The last assignment of a variable is the one that counts.
pub proof fn law_last_assignment_wins(
    before: Seq<Seq<char>>,
    line: Seq<char>,
    behind: Seq<Seq<char>>,
    name: Seq<char>,
    value: Seq<char>,
)
    requires
        line_assignment(line) == Some((name, value)),
        forall|i: int| 0 <= i < behind.len() ==> !assigns(#[trigger] behind[i], name),
    ensures
        assignments(before + seq![line] + behind).contains_key(unicode_lowercase(name)),
        assignments(before + seq![line] + behind)[unicode_lowercase(name)] == value,
    decreases behind.len(),
{
    let all = before + seq![line] + behind;
    if behind.len() == 0 {
        assert(all.drop_last() =~= before);
        assert(all.last() == line);
    } else {
        let rest = behind.drop_last();
        assert forall|i: int| 0 <= i < rest.len() implies !assigns(#[trigger] rest[i], name) by {
            assert(rest[i] == behind[i]);
        }
        law_last_assignment_wins(before, line, rest, name, value);
        assert(all.drop_last() =~= before + seq![line] + rest);
        assert(all.last() == behind[behind.len() - 1]);
    }
}

/// Whether a line assigns the variable with the given name, whatever the case of its letters.
pub open spec fn assigns(line: Seq<char>, name: Seq<char>) -> bool {
    match line_assignment(line) {
        Some((n, _)) => unicode_lowercase(n) == unicode_lowercase(name),
        None => false,
    }
}

/// What references resolve to has nothing left to resolve: expanding it once more changes
/// nothing, and resolving it again gives it back.
pub proof fn law_resolution_is_final(text: Seq<char>, vars: Map<Seq<char>, Seq<char>>)
    requires
        settles(text, vars),
    ensures
        vars.dom() != Set::<Seq<char>>::empty() ==> expanded_once(resolved(text, vars), vars)
            == resolved(text, vars),
        settles(resolved(text, vars), vars),
        resolved(resolved(text, vars), vars) == resolved(text, vars),
{
    let r = resolved(text, vars);
    if vars.dom() != Set::<Seq<char>>::empty() {
        let rounds = choose|rounds: nat| #[trigger] settles_within(text, vars, rounds);
        let n0 = choose|n: nat| n <= rounds && #[trigger] settled_at(text, vars, n);
        assert(settled_at(text, vars, n0));
        let n = choose|n: nat| settled_at(text, vars, n);
        assert(settled_at(text, vars, n));
        assert(expanded(r, vars, 0) == r);
        assert(settled_at(r, vars, 0));
        let m = choose|m: nat| settled_at(r, vars, m);
        lemma_settled_stays(r, vars, 0, m);
        assert(settles_within(r, vars, 0));
    } else {
        assert(settles_within(r, vars, 0));
    }
}

/// A text that settles within some rounds settles within more, and settles at all.
pub proof fn law_more_rounds_settle_too(text: Seq<char>, rounds: nat, more: nat)
    requires
        text_settles_within(text, rounds),
        rounds <= more,
    ensures
        text_settles_within(text, more),
        text_settles(text),
{
    let vars = assignments(lines(text));
    assert forall|i: int| 0 <= i < lines(text).len() implies settles_within(
        literal_form(#[trigger] lines(text)[i]),
        vars,
        more,
    ) && settles(literal_form(lines(text)[i]), vars) by {
        let line = literal_form(lines(text)[i]);
        assert(settles_within(line, vars, rounds));
        if vars.dom() != Set::<Seq<char>>::empty() {
            let n = choose|n: nat| n <= rounds && #[trigger] settled_at(line, vars, n);
            assert(n <= more && settled_at(line, vars, n));
        }
    }
}

/// A text that assigns no variables settles without any round.
pub proof fn law_no_assignments_settle(text: Seq<char>)
    requires
        assignments(lines(text)).dom() == Set::<Seq<char>>::empty(),
    ensures
        text_settles_within(text, 0),
{
}

} // verus!
