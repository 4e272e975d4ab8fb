//! Laws on references: each one is replaced by what it refers to, and nothing else changes.

use crate::deobfuscate::expansion::{dollars, has_no_reference, is_tracked, values_are_final};
use crate::deobfuscate::variables::{
    behind_matches, expanded, expanded_once, reference_key, replacement, resolved, settled_at,
    settles, settles_within, substituted, substituted_prefix,
};
use crate::patterns::{
    byte_slice, lemma_encode_concat, regex_group_spans, span_text, Span, REFERENCE,
};
use crate::text::{trim_end, trim_start, unicode_lowercase, Class};
use vstd::prelude::*;
use vstd::utf8::*;

verus! {

/// The pieces and the parts between them in turn, up to part `n`.
pub open spec fn woven(pieces: Seq<Seq<char>>, parts: Seq<Seq<char>>, n: int) -> Seq<char>
    decreases n,
{
    if n <= 0 {
        seq![]
    } else {
        woven(pieces, parts, n - 1) + pieces[n - 1] + parts[n - 1]
    }
}

/// How many bytes a text takes.
pub open spec fn size(s: Seq<char>) -> nat {
    encode_utf8(s).len()
}

/// Whether the matches are those of `text`, which is woven of pieces and references, with a last
/// piece behind them.
pub open spec fn are_matches_of(
    text: Seq<char>,
    pieces: Seq<Seq<char>>,
    references: Seq<Seq<char>>,
    matches: Seq<(Span, Span)>,
) -> bool {
    let n = references.len() as int;
    &&& pieces.len() == n + 1
    &&& matches.len() == n
    &&& text == woven(pieces, references, n) + pieces[n]
    &&& forall|i: int|
        0 <= i < n ==> (#[trigger] matches[i]).0.0 == size(
            woven(pieces, references, i) + pieces[i],
        ) && matches[i].0.1 == size(woven(pieces, references, i + 1))
}

/// The piece of a text between two others is found by how many bytes there are before it.
proof fn lemma_piece(a: Seq<char>, b: Seq<char>, c: Seq<char>)
    ensures
        byte_slice(a + b + c, size(a) as int, size(a + b) as int) == b,
{
    lemma_encode_concat(a + b, c);
    lemma_encode_concat(a, b);
    assert(encode_utf8(a + b + c).subrange(size(a) as int, size(a + b) as int) =~= encode_utf8(b));
    encode_utf8_decode_utf8(b);
}

/// What comes behind `woven(pieces, parts, n)` in the whole.
spec fn woven_rest(pieces: Seq<Seq<char>>, parts: Seq<Seq<char>>, n: int) -> Seq<char>
    decreases parts.len() - n,
{
    if n >= parts.len() {
        pieces[parts.len() as int]
    } else {
        pieces[n] + parts[n] + woven_rest(pieces, parts, n + 1)
    }
}

proof fn lemma_woven_rest(pieces: Seq<Seq<char>>, parts: Seq<Seq<char>>, n: int)
    requires
        0 <= n <= parts.len(),
    ensures
        woven(pieces, parts, n) + woven_rest(pieces, parts, n) == woven(
            pieces,
            parts,
            parts.len() as int,
        ) + pieces[parts.len() as int],
    decreases parts.len() - n,
{
    if n < parts.len() {
        lemma_woven_rest(pieces, parts, n + 1);
        assert(woven(pieces, parts, n) + woven_rest(pieces, parts, n) =~= woven(
            pieces,
            parts,
            n + 1,
        ) + woven_rest(pieces, parts, n + 1));
    }
}

proof fn lemma_woven_prefix(
    text: Seq<char>,
    pieces: Seq<Seq<char>>,
    references: Seq<Seq<char>>,
    matches: Seq<(Span, Span)>,
    vars: Map<Seq<char>, Seq<char>>,
    values: Seq<Seq<char>>,
    n: int,
)
    requires
        are_matches_of(text, pieces, references, matches),
        values.len() == references.len(),
        0 <= n <= references.len(),
        forall|i: int|
            0 <= i < references.len() ==> (#[trigger] values[i]) == replacement(
                text,
                matches[i],
                vars,
            ),
    ensures
        substituted_prefix(text, matches, vars, n) == woven(pieces, values, n),
        behind_matches(matches, n) == size(woven(pieces, references, n)),
    decreases n,
{
    if n == 0 {
        assert(encode_utf8(Seq::<char>::empty()) =~= seq![]);
    } else {
        lemma_woven_prefix(text, pieces, references, matches, vars, values, n - 1);
        let before = woven(pieces, references, n - 1);
        let m = matches[n - 1];
        assert(values[n - 1] == replacement(text, matches[n - 1], vars));
        assert(m.0.0 == size(woven(pieces, references, n - 1) + pieces[n - 1]));
        assert(m.0.1 == size(woven(pieces, references, n - 1 + 1)));
        lemma_woven_rest(pieces, references, n - 1);
        let rest = references[n - 1] + woven_rest(pieces, references, n);
        assert(woven_rest(pieces, references, n - 1) =~= pieces[n - 1] + rest);
        assert(text =~= before + pieces[n - 1] + rest);
        lemma_piece(before, pieces[n - 1], rest);
    }
}

/// In a text that is woven of pieces and references, the references are replaced, each by the
/// value of the variable that it names or else by itself, and the pieces stay.
pub proof fn law_references_are_replaced(
    text: Seq<char>,
    pieces: Seq<Seq<char>>,
    references: Seq<Seq<char>>,
    names: Seq<Seq<char>>,
    matches: Seq<(Span, Span)>,
    vars: Map<Seq<char>, Seq<char>>,
)
    requires
        are_matches_of(text, pieces, references, matches),
        names.len() == references.len(),
        forall|i: int|
            0 <= i < names.len() ==> span_text(text, (#[trigger] matches[i]).1) == names[i],
    ensures
        substituted(text, matches, vars) == woven(
            pieces,
            Seq::new(
                names.len(),
                |i: int|
                    if vars.contains_key(reference_key(names[i])) {
                        vars[reference_key(names[i])]
                    } else {
                        references[i]
                    },
            ),
            names.len() as int,
        ) + pieces[names.len() as int],
{
    let n = names.len() as int;
    let values = Seq::new(
        names.len(),
        |i: int|
            if vars.contains_key(reference_key(names[i])) {
                vars[reference_key(names[i])]
            } else {
                references[i]
            },
    );
    assert forall|i: int| 0 <= i < n implies (#[trigger] values[i]) == replacement(
        text,
        matches[i],
        vars,
    ) by {
        assert(span_text(text, matches[i].1) == names[i]);
        let before = woven(pieces, references, i) + pieces[i];
        lemma_woven_rest(pieces, references, i);
        let rest = woven_rest(pieces, references, i + 1);
        assert(text =~= before + references[i] + rest);
        lemma_piece(before, references[i], rest);
        assert(before + references[i] =~= woven(pieces, references, i + 1));
    }
    lemma_woven_prefix(text, pieces, references, matches, vars, values, n);
    let whole = woven(pieces, references, n);
    assert(text =~= whole + pieces[n] + Seq::<char>::empty());
    lemma_piece(whole, pieces[n], seq![]);
    assert(whole + pieces[n] =~= text);
}

/// A reference names a variable with or without braces, and the case of its letters is no matter.
pub proof fn law_names_in_references(name: Seq<char>)
    requires
        name.len() > 0,
        name[0] != '{',
        name.last() != '}',
    ensures
        reference_key(name) == unicode_lowercase(name),
        reference_key(seq!['{'] + name + seq!['}']) == unicode_lowercase(name),
{
    let braced = seq!['{'] + name + seq!['}'];
    assert(trim_start(name, Class::OpenBrace) == name);
    assert(trim_end(name, Class::CloseBrace) == name);
    let open = name + seq!['}'];
    assert(braced[0] == '{');
    assert(braced.skip(1) =~= open);
    assert(open[0] == name[0]);
    assert(trim_start(open, Class::OpenBrace) == open);
    assert(trim_start(braced, Class::OpenBrace) == open);
    assert(open.last() == '}');
    assert(open.drop_last() =~= name);
    assert(trim_end(open, Class::CloseBrace) == name);
}

/// Expanding is replacing the references that there are, again and again.
pub proof fn law_expanding_is_replacing_again(
    text: Seq<char>,
    vars: Map<Seq<char>, Seq<char>>,
    n: nat,
)
    ensures
        expanded(text, vars, 0) == text,
        expanded(text, vars, n + 1) == substituted(
            expanded(text, vars, n),
            regex_group_spans(REFERENCE@, expanded(text, vars, n)),
            vars,
        ),
        expanded_once(text, vars) == substituted(text, regex_group_spans(REFERENCE@, text), vars),
        settled_at(text, vars, n) <==> expanded(text, vars, n + 1) == expanded(text, vars, n),
{
}

/// What a text resolves to is what is left when replacing its references changes nothing any
/// more: the result of some number of rounds, and of every greater number.
pub proof fn law_resolving_goes_on_to_the_end(
    text: Seq<char>,
    vars: Map<Seq<char>, Seq<char>>,
    n: nat,
)
    requires
        expanded(text, vars, n + 1) == expanded(text, vars, n),
        vars.dom() != Set::<Seq<char>>::empty(),
    ensures
        resolved(text, vars) == expanded(text, vars, n),
        settles(text, vars),
{
    assert(settled_at(text, vars, n));
    crate::deobfuscate::variables::lemma_resolved_at(text, vars, n);
    assert(settles_within(text, vars, n));
}

/// Without variables, everything stays.
pub proof fn law_nothing_to_resolve(text: Seq<char>)
    ensures
        resolved(text, Map::empty()) == text,
        settles(text, Map::empty()),
{
    assert(settles_within(text, Map::empty(), 0));
}

/// A text has no reference to a tracked variable where no match of the pattern of references
/// names one.
pub proof fn law_no_reference(text: Seq<char>, vars: Map<Seq<char>, Seq<char>>)
    ensures
        has_no_reference(text, vars) <==> forall|i: int|
            0 <= i < regex_group_spans(REFERENCE@, text).len() ==> !vars.contains_key(
                reference_key(span_text(text, (#[trigger] regex_group_spans(REFERENCE@, text)[i]).1)),
            ),
{
    let matches = regex_group_spans(REFERENCE@, text);
    if has_no_reference(text, vars) {
        assert forall|i: int| 0 <= i < matches.len() implies !vars.contains_key(
            reference_key(span_text(text, (#[trigger] matches[i]).1)),
        ) by {
            assert(!is_tracked(text, matches, vars, i));
        }
    }
}

/// Values are final where no name has a value with a dollar sign.
pub proof fn law_final_values(vars: Map<Seq<char>, Seq<char>>)
    ensures
        values_are_final(vars) <==> forall|name: Seq<char>, i: int|
            vars.contains_key(name) && 0 <= i < vars[name].len() ==> #[trigger] vars[name][i]
                != '$',
{
    if values_are_final(vars) {
        assert forall|name: Seq<char>, i: int|
            vars.contains_key(name) && 0 <= i < vars[name].len() implies #[trigger] vars[name][i]
            != '$' by {
            assert(!vars[name].contains('$'));
        }
    }
}

/// Dollar signs are counted one by one.
pub proof fn law_counting_dollar_signs(s: Seq<char>, c: char)
    ensures
        dollars(Seq::empty()) == 0,
        c as int == 36 ==> dollars(s.push(c)) == dollars(s) + 1,
        c as int != 36 ==> dollars(s.push(c)) == dollars(s),
{
    reveal(Seq::filter);
    assert(s.push(c).drop_last() =~= s);
    assert(s.push(c).last() == c);
}

/// The pattern of references.
pub proof fn law_pattern_of_references()
    ensures
        REFERENCE@ == r"\$([A-Za-z_][A-Za-z0-9_]*|\{[A-Za-z_][A-Za-z0-9_]*\})"@,
{
}

} // verus!
