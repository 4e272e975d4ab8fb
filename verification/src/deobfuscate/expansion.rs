//! Laws on the expansion of references: what stays, what is used up, and why it comes to an end.

use super::variables::{
    are_reference_spans, behind_matches, reference_key, replacement, substituted,
    substituted_prefix,
};
use crate::patterns::{
    byte_slice, lemma_boundary_behind_ascii, regex_group_spans, span_begins_reference, span_fits,
    span_text, Span, REFERENCE,
};
use vstd::prelude::*;
use vstd::utf8::*;

verus! {

// ---------------------------------------------------------------------------------------
// What stays
// ---------------------------------------------------------------------------------------

/// References to variables that are not tracked stay as they are: where none of the references
/// is to a tracked variable, the text is returned unchanged.
pub proof fn law_untracked_references_stay(
    text: Seq<char>,
    matches: Seq<(Span, Span)>,
    vars: Map<Seq<char>, Seq<char>>,
)
    requires
        are_reference_spans(text, matches),
        forall|i: int|
            0 <= i < matches.len() ==> !vars.contains_key(
                reference_key(span_text(text, (#[trigger] matches[i]).1)),
            ),
    ensures
        substituted(text, matches, vars) == text,
{
    let bytes = encode_utf8(text);
    let n = matches.len() as int;
    encode_utf8_valid_utf8(text);
    is_char_boundary_start_end_of_seq(bytes);
    lemma_untracked_prefix(text, matches, vars, n);
    let end = behind_matches(matches, n);
    decode_utf8_split(bytes, end);
    encode_utf8_decode_utf8(text);
}

proof fn lemma_slices_join(text: Seq<char>, a: int, b: int)
    requires
        0 <= a <= b <= encode_utf8(text).len(),
        is_char_boundary(encode_utf8(text), a),
        is_char_boundary(encode_utf8(text), b),
    ensures
        byte_slice(text, 0, a) + byte_slice(text, a, b) == byte_slice(text, 0, b),
{
    let bytes = encode_utf8(text);
    encode_utf8_valid_utf8(text);
    valid_utf8_split(bytes, b);
    let head = bytes.subrange(0, b);
    if a < b {
        is_char_boundary_iff_not_is_continuation_byte(bytes, a);
        is_char_boundary_iff_not_is_continuation_byte(head, a);
    } else {
        is_char_boundary_start_end_of_seq(head);
    }
    decode_utf8_split(head, a);
    assert(head.subrange(0, a) =~= bytes.subrange(0, a));
    assert(head.subrange(a, head.len() as int) =~= bytes.subrange(a, b));
}

proof fn lemma_untracked_prefix(
    text: Seq<char>,
    matches: Seq<(Span, Span)>,
    vars: Map<Seq<char>, Seq<char>>,
    n: int,
)
    requires
        are_reference_spans(text, matches),
        0 <= n <= matches.len(),
        forall|i: int|
            0 <= i < matches.len() ==> !vars.contains_key(
                reference_key(span_text(text, (#[trigger] matches[i]).1)),
            ),
    ensures
        substituted_prefix(text, matches, vars, n) == byte_slice(
            text,
            0,
            behind_matches(matches, n),
        ),
        0 <= behind_matches(matches, n) <= encode_utf8(text).len(),
        is_char_boundary(encode_utf8(text), behind_matches(matches, n)),
    decreases n,
{
    let bytes = encode_utf8(text);
    encode_utf8_valid_utf8(text);
    if n == 0 {
        assert(bytes.subrange(0, 0) =~= seq![]);
        assert(byte_slice(text, 0, 0) =~= seq![]);
    } else {
        lemma_untracked_prefix(text, matches, vars, n - 1);
        let wholes = matches.map_values(|m: (Span, Span)| m.0);
        let m = matches[n - 1];
        assert(wholes[n - 1] == m.0);
        assert(span_fits(text, wholes[n - 1]));
        if n > 1 {
            assert(wholes[n - 2] == matches[n - 2].0);
            assert(wholes[n - 2].1 <= wholes[n - 1].0);
        }
        assert(!vars.contains_key(reference_key(span_text(text, matches[n - 1].1))));
        lemma_slices_join(text, behind_matches(matches, n - 1), m.0.0 as int);
        lemma_slices_join(text, m.0.0 as int, m.0.1 as int);
    }
}

// ---------------------------------------------------------------------------------------
// What is used up
// ---------------------------------------------------------------------------------------

/// How many dollar signs there are in `s`.
pub open spec fn dollars(s: Seq<char>) -> nat {
    s.filter(|c: char| c == '$').len()
}

/// Whether no value holds a dollar sign, so that none refers to a variable.
pub open spec fn values_are_final(vars: Map<Seq<char>, Seq<char>>) -> bool {
    forall|name: Seq<char>| #[trigger] vars.contains_key(name) ==> !vars[name].contains('$')
}

/// Whether the match at `i` refers to a tracked variable.
pub open spec fn is_tracked(
    text: Seq<char>,
    matches: Seq<(Span, Span)>,
    vars: Map<Seq<char>, Seq<char>>,
    i: int,
) -> bool {
    vars.contains_key(reference_key(span_text(text, matches[i].1)))
}

/// Whether no reference in `text` is to a tracked variable.
pub open spec fn has_no_reference(text: Seq<char>, vars: Map<Seq<char>, Seq<char>>) -> bool {
    let matches = regex_group_spans(REFERENCE@, text);
    forall|i: int| 0 <= i < matches.len() ==> !#[trigger] is_tracked(text, matches, vars, i)
}

proof fn lemma_dollars_concat(a: Seq<char>, b: Seq<char>)
    ensures
        dollars(a + b) == dollars(a) + dollars(b),
{
    Seq::filter_distributes_over_add(a, b, |c: char| c == '$');
}

proof fn lemma_no_dollars(s: Seq<char>)
    requires
        !s.contains('$'),
    ensures
        dollars(s) == 0,
{
    let p = |c: char| c == '$';
    if s.filter(p).len() > 0 {
        s.lemma_filter_pred(p, 0);
        assert(s.filter(p).contains(s.filter(p)[0]));
        s.lemma_filter_contains_rev(p, s.filter(p)[0]);
    }
}

proof fn lemma_some_dollars(s: Seq<char>, i: int)
    requires
        0 <= i < s.len(),
        s[i] == '$',
    ensures
        dollars(s) > 0,
{
    s.lemma_filter_contains(|c: char| c == '$', i);
}

/// A span that begins with a dollar sign covers at least one.
proof fn lemma_span_holds_dollar(text: Seq<char>, span: Span)
    requires
        span_fits(text, span),
        span_begins_reference(text, span),
    ensures
        dollars(span_text(text, span)) > 0,
{
    let bytes = encode_utf8(text);
    let a = span.0 as int;
    let b = span.1 as int;
    encode_utf8_valid_utf8(text);
    lemma_boundary_behind_ascii(bytes, a);
    lemma_slices_join(text, a, a + 1);
    lemma_slices_join(text, a + 1, b);
    lemma_slices_join(text, a, b);
    let sign = seq!['$'];
    is_ascii_chars_encode_utf8(sign);
    assert(sign[0] as u8 == encode_utf8(sign)[0]);
    assert(encode_utf8(sign) =~= bytes.subrange(a, a + 1));
    encode_utf8_decode_utf8(sign);
    assert(byte_slice(text, a, a + 1) == sign);
    let head = byte_slice(text, 0, a);
    let rest = byte_slice(text, a + 1, b);
    assert(head + span_text(text, span) == head + sign + rest);
    assert(span_text(text, span) =~= sign + rest) by {
        let l = head.len() as int;
        assert((head + span_text(text, span)).skip(l) =~= span_text(text, span));
        assert((head + sign + rest).skip(l) =~= sign + rest);
    }
    lemma_some_dollars(span_text(text, span), 0);
}

/// The replaced text up to a match has no more dollar signs than the text, and fewer where a
/// tracked reference was replaced.
proof fn lemma_prefix_uses_up_dollars(
    text: Seq<char>,
    matches: Seq<(Span, Span)>,
    vars: Map<Seq<char>, Seq<char>>,
    n: int,
)
    requires
        are_reference_spans(text, matches),
        forall|i: int|
            0 <= i < matches.len() ==> span_begins_reference(text, (#[trigger] matches[i]).0),
        values_are_final(vars),
        0 <= n <= matches.len(),
    ensures
        dollars(substituted_prefix(text, matches, vars, n)) <= dollars(
            byte_slice(text, 0, behind_matches(matches, n)),
        ),
        (exists|i: int| 0 <= i < n && #[trigger] is_tracked(text, matches, vars, i)) ==> dollars(
            substituted_prefix(text, matches, vars, n),
        ) < dollars(byte_slice(text, 0, behind_matches(matches, n))),
        0 <= behind_matches(matches, n) <= encode_utf8(text).len(),
        is_char_boundary(encode_utf8(text), behind_matches(matches, n)),
    decreases n,
{
    let bytes = encode_utf8(text);
    encode_utf8_valid_utf8(text);
    is_char_boundary_start_end_of_seq(bytes);
    if n == 0 {
        lemma_no_dollars(seq![]);
    } else {
        lemma_prefix_uses_up_dollars(text, matches, vars, n - 1);
        let wholes = matches.map_values(|m: (Span, Span)| m.0);
        let m = matches[n - 1];
        assert(wholes[n - 1] == m.0);
        assert(span_fits(text, wholes[n - 1]));
        assert(span_begins_reference(text, matches[n - 1].0));
        if n > 1 {
            assert(wholes[n - 2] == matches[n - 2].0);
            assert(wholes[n - 2].1 <= wholes[n - 1].0);
        }
        let last = behind_matches(matches, n - 1);
        let before = substituted_prefix(text, matches, vars, n - 1);
        let gap = byte_slice(text, last, m.0.0 as int);
        let new = replacement(text, m, vars);
        lemma_slices_join(text, last, m.0.0 as int);
        lemma_slices_join(text, m.0.0 as int, m.0.1 as int);
        lemma_dollars_concat(before + gap, new);
        lemma_dollars_concat(before, gap);
        lemma_dollars_concat(byte_slice(text, 0, last), gap);
        lemma_dollars_concat(byte_slice(text, 0, m.0.0 as int), span_text(text, m.0));
        lemma_span_holds_dollar(text, m.0);
        if is_tracked(text, matches, vars, n - 1) {
            lemma_no_dollars(new);
        }
        if exists|i: int| 0 <= i < n && #[trigger] is_tracked(text, matches, vars, i) {
            let i = choose|i: int| 0 <= i < n && #[trigger] is_tracked(text, matches, vars, i);
            if i < n - 1 {
                assert(is_tracked(text, matches, vars, i));
            }
        }
    }
}

/// Replacing references by values without dollar signs uses dollar signs up, unless no reference
/// is to a tracked variable; then nothing changes.
pub proof fn lemma_substitution_uses_up_dollars(
    text: Seq<char>,
    matches: Seq<(Span, Span)>,
    vars: Map<Seq<char>, Seq<char>>,
)
    requires
        are_reference_spans(text, matches),
        forall|i: int|
            0 <= i < matches.len() ==> span_begins_reference(text, (#[trigger] matches[i]).0),
        values_are_final(vars),
    ensures
        (forall|i: int| 0 <= i < matches.len() ==> !#[trigger] is_tracked(text, matches, vars, i))
            ==> substituted(text, matches, vars) == text,
        (exists|i: int| 0 <= i < matches.len() && #[trigger] is_tracked(text, matches, vars, i))
            ==> dollars(substituted(text, matches, vars)) < dollars(text),
{
    if forall|i: int| 0 <= i < matches.len() ==> !#[trigger] is_tracked(text, matches, vars, i) {
        assert forall|i: int| 0 <= i < matches.len() implies !vars.contains_key(
            reference_key(span_text(text, (#[trigger] matches[i]).1)),
        ) by {
            assert(!is_tracked(text, matches, vars, i));
        }
        law_untracked_references_stay(text, matches, vars);
    }
    if exists|i: int| 0 <= i < matches.len() && #[trigger] is_tracked(text, matches, vars, i) {
        let bytes = encode_utf8(text);
        let n = matches.len() as int;
        encode_utf8_valid_utf8(text);
        is_char_boundary_start_end_of_seq(bytes);
        lemma_prefix_uses_up_dollars(text, matches, vars, n);
        let end = behind_matches(matches, n);
        let rest = byte_slice(text, end, bytes.len() as int);
        lemma_slices_join(text, end, bytes.len() as int);
        assert(bytes.subrange(0, bytes.len() as int) =~= bytes);
        encode_utf8_decode_utf8(text);
        lemma_dollars_concat(byte_slice(text, 0, end), rest);
        lemma_dollars_concat(substituted_prefix(text, matches, vars, n), rest);
    }
}

/// Where there is no dollar sign there is no reference, and nothing is replaced.
pub proof fn lemma_no_reference_without_dollar(
    text: Seq<char>,
    matches: Seq<(Span, Span)>,
    vars: Map<Seq<char>, Seq<char>>,
)
    requires
        are_reference_spans(text, matches),
        forall|i: int|
            0 <= i < matches.len() ==> span_begins_reference(text, (#[trigger] matches[i]).0),
        !text.contains('$'),
    ensures
        matches.len() == 0,
        substituted(text, matches, vars) == text,
{
    if matches.len() > 0 {
        let bytes = encode_utf8(text);
        let span = matches[0].0;
        let wholes = matches.map_values(|m: (Span, Span)| m.0);
        assert(wholes[0] == span);
        assert(span_fits(text, wholes[0]));
        encode_utf8_valid_utf8(text);
        is_char_boundary_start_end_of_seq(bytes);
        let a = span.0 as int;
        let b = span.1 as int;
        lemma_span_holds_dollar(text, span);
        lemma_slices_join(text, a, b);
        lemma_slices_join(text, b, bytes.len() as int);
        assert(bytes.subrange(0, bytes.len() as int) =~= bytes);
        encode_utf8_decode_utf8(text);
        lemma_dollars_concat(byte_slice(text, 0, a), span_text(text, span));
        lemma_dollars_concat(byte_slice(text, 0, b), byte_slice(text, b, bytes.len() as int));
        lemma_no_dollars(text);
    }
    law_untracked_references_stay(text, matches, vars);
}

/// Whether it is plain from a line and the variables that expanding the line comes to an end in
/// the rounds allowed: there is nothing to expand, or no value refers to another variable and
/// there are as many rounds as the line has dollar signs.
pub open spec fn surely_settles(
    line: Seq<char>,
    vars: Map<Seq<char>, Seq<char>>,
    rounds: nat,
) -> bool {
    !line.contains('$') || (values_are_final(vars) && dollars(line) <= rounds)
}

} // verus!
