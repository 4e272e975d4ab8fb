//! Laws on deobfuscation: what each step makes of a text, and what the whole does.

use crate::deobfuscate::ansi_c::{
    ansi_c_resolved, digit_value, digits_value, escape, lemma_digit_run_is, lemma_escape_fits,
    lemma_quoted_body_fits, quoted_body,
};
use crate::deobfuscate::quotes::{
    first_run_merged, first_touching, flattened, is_quote, quoted_contents, run_end, touches_next,
    without_quotes,
};
use crate::deobfuscate::variables::{assignments, resolved};
use crate::deobfuscate::{
    deobfuscated, line_changes, literal_form, normalized, plain_form, plain_text,
};
use crate::laws::text::{fits_on_a_line, law_joining, law_lines_undo_joining};
use crate::patterns::{
    byte_slice, lemma_encode_concat, regex_find_spans, Span, QUOTED,
};
use crate::text::{joined, lines};
use vstd::prelude::*;
use vstd::utf8::*;

verus! {

// ---------------------------------------------------------------------------------------
// Characters
// ---------------------------------------------------------------------------------------

/// Normalization goes character by character: printable ASCII, tabs and newlines are kept, capital
/// letters become small ones, and everything else is dropped.
pub proof fn law_normalization_by_character(s: Seq<char>, c: char)
    ensures
        normalized(Seq::empty()) == Seq::<char>::empty(),
        32 <= c as int <= 126 && !(65 <= c as int <= 90) || c as int == 9 || c as int == 10
            ==> normalized(s.push(c)) == normalized(s).push(c),
        65 <= c as int <= 90 ==> normalized(s.push(c)) == normalized(s).push(
            (c as int + 32) as char,
        ),
        !(32 <= c as int <= 126) && c as int != 9 && c as int != 10 ==> normalized(s.push(c))
            == normalized(s),
{
    reveal(Seq::filter);
    let keep = |c: char| crate::deobfuscate::is_kept(c);
    let lower = |c: char| crate::text::ascii_lower(c);
    assert(s.push(c).drop_last() =~= s);
    assert(s.push(c).last() == c);
    assert(normalized(Seq::empty()) =~= seq![]);
    if 32 <= c as int <= 126 || c as int == 9 || c as int == 10 {
        assert(s.push(c).filter(keep) == s.filter(keep).push(c));
        assert(normalized(s.push(c)) =~= normalized(s).push(crate::text::ascii_lower(c)));
    }
}

/// Stripping goes character by character: quotes are dropped, everything else is kept.
pub proof fn law_stripping_by_character(s: Seq<char>, c: char)
    ensures
        without_quotes(Seq::empty()) == Seq::<char>::empty(),
        c as int == 34 || c as int == 39 ==> without_quotes(s.push(c)) == without_quotes(s),
        c as int != 34 && c as int != 39 ==> without_quotes(s.push(c)) == without_quotes(s).push(
            c,
        ),
        is_quote(c) <==> c as int == 34 || c as int == 39,
{
    reveal(Seq::filter);
    assert(s.push(c).drop_last() =~= s);
    assert(s.push(c).last() == c);
    assert(without_quotes(Seq::empty()) =~= seq![]);
}

// ---------------------------------------------------------------------------------------
// ANSI-C strings
// ---------------------------------------------------------------------------------------

/// The escapes of one letter, and what each stands for. A character that makes no escape stands
/// for itself.
pub proof fn law_simple_escapes(c: char, rest: Seq<char>)
    ensures
        c == 'n' ==> escape(seq![c] + rest) == ('\n', 1nat),
        c == 't' ==> escape(seq![c] + rest) == ('\t', 1nat),
        c == 'r' ==> escape(seq![c] + rest) == ('\r', 1nat),
        c == 'a' ==> escape(seq![c] + rest) == ('\x07', 1nat),
        c == 'b' ==> escape(seq![c] + rest) == ('\x08', 1nat),
        c == 'e' || c == 'E' ==> escape(seq![c] + rest) == ('\x1b', 1nat),
        c == 'f' ==> escape(seq![c] + rest) == ('\x0c', 1nat),
        c == 'v' ==> escape(seq![c] + rest) == ('\x0b', 1nat),
        c != 'n' && c != 't' && c != 'r' && c != 'a' && c != 'b' && c != 'e' && c != 'E' && c
            != 'f' && c != 'v' && c != 'x' && c != 'X' && c != 'c' && !('0' <= c <= '7')
            ==> escape(seq![c] + rest) == (c, 1nat),
        escape(Seq::empty()) == ('\\', 0nat),
{
    assert((seq![c] + rest)[0] == c);
}

/// A control escape takes the letter behind it: its place in the alphabet is the code point.
pub proof fn law_control_escapes(c: char, rest: Seq<char>)
    ensures
        escape(seq!['c']) == ('c', 0nat),
        escape(seq!['c', c] + rest).1 == 2,
        97 <= c as int <= 122 ==> escape(seq!['c', c] + rest).0 as int == c as int - 96,
        65 <= c as int <= 90 ==> escape(seq!['c', c] + rest).0 as int == c as int - 64,
        c as int == 63 ==> escape(seq!['c', c] + rest).0 as int == 127,
        !(97 <= c as int <= 122) && !(65 <= c as int <= 90) && c as int != 63 ==> escape(
            seq!['c', c] + rest,
        ).0 == c,
{
    let s = seq!['c', c] + rest;
    assert(s[0] == 'c' && s[1] == c);
}

/// What a digit is worth, by its code point; -1 for what is no digit.
pub open spec fn digit_worth(c: char) -> int {
    let n = c as int;
    if 48 <= n <= 57 {
        n - 48
    } else if 65 <= n <= 70 {
        n - 55
    } else if 97 <= n <= 102 {
        n - 87
    } else {
        -1
    }
}

/// Whether `c` is a digit of the base, 16 or 8.
pub open spec fn is_digit_of(base: int, c: char) -> bool {
    0 <= digit_worth(c) < base
}

/// The number that digits are read as.
pub open spec fn read_number(base: int, s: Seq<char>) -> int
    decreases s.len(),
{
    if s.len() == 0 {
        0
    } else {
        read_number(base, s.drop_last()) * base + digit_worth(s.last())
    }
}

proof fn lemma_digits(base: int, s: Seq<char>)
    requires
        base == 16 || base == 8,
        forall|i: int| 0 <= i < s.len() ==> is_digit_of(base, #[trigger] s[i]),
    ensures
        digits_value(base, s) == read_number(base, s),
    decreases s.len(),
{
    if s.len() > 0 {
        let before = s.drop_last();
        assert forall|i: int| 0 <= i < before.len() implies is_digit_of(
            base,
            #[trigger] before[i],
        ) by {
            assert(before[i] == s[i]);
        }
        lemma_digits(base, before);
        assert(is_digit_of(base, s[s.len() - 1]));
        assert(digit_value(base, s.last()) == Some(digit_worth(s.last())));
    }
}

/// A hexadecimal escape is one or two digits behind an `x`, as many as there are, and stands for
/// the character of their number. Without a digit it is no escape.
pub proof fn law_hex_escapes(x: char, digits: Seq<char>, rest: Seq<char>)
    requires
        x == 'x' || x == 'X',
        digits.len() <= 2,
        forall|i: int| 0 <= i < digits.len() ==> is_digit_of(16, #[trigger] digits[i]),
        digits.len() < 2 ==> rest.len() == 0 || !is_digit_of(16, rest[0]),
    ensures
        digits.len() == 0 ==> escape(seq![x] + digits + rest) == ('x', 0nat),
        digits.len() > 0 ==> escape(seq![x] + digits + rest) == (
            read_number(16, digits) as char,
            1 + digits.len(),
        ),
{
    let s = seq![x] + digits + rest;
    let tail = s.skip(1);
    let n = digits.len();
    assert(s[0] == x);
    assert(tail =~= digits + rest);
    assert forall|i: int| 0 <= i < n implies digit_value(16, #[trigger] tail[i]) is Some by {
        assert(tail[i] == digits[i]);
    }
    if n < 2 && rest.len() > 0 {
        assert(tail[n as int] == rest[0]);
    }
    lemma_digit_run_is(16, tail, 2, n);
    assert(s.subrange(1, 1 + n as int) =~= digits);
    lemma_digits(16, digits);
}

/// An octal escape is up to three digits, or four where the first is a zero, as many as there
/// are, and stands for the character of their number, of which the lower eight bits count.
pub proof fn law_octal_escapes(digits: Seq<char>, rest: Seq<char>)
    requires
        0 < digits.len() <= (if digits[0] == '0' {
            4int
        } else {
            3int
        }),
        forall|i: int| 0 <= i < digits.len() ==> is_digit_of(8, #[trigger] digits[i]),
        digits.len() < (if digits[0] == '0' {
            4int
        } else {
            3int
        }) ==> rest.len() == 0 || !is_digit_of(8, rest[0]),
    ensures
        escape(digits + rest) == ((read_number(8, digits) % 256) as char, digits.len()),
{
    let s = digits + rest;
    let n = digits.len();
    assert(s[0] == digits[0]);
    assert(is_digit_of(8, digits[0]));
    assert forall|i: int| 0 <= i < n implies digit_value(8, #[trigger] s[i]) is Some by {
        assert(s[i] == digits[i]);
        assert(is_digit_of(8, digits[i]));
    }
    if rest.len() > 0 {
        assert(s[n as int] == rest[0]);
    }
    lemma_digit_run_is(
        8,
        s,
        if digits[0] == '0' {
            4
        } else {
            3
        },
        n,
    );
    assert(s.take(n as int) =~= digits);
    lemma_digits(8, digits);
}

/// The inside of an ANSI-C string goes on character by character to the closing quote or the end
/// of the text; an escape counts for the character that it stands for.
pub proof fn law_inside_an_ansi_c_string(c: char, rest: Seq<char>)
    ensures
        quoted_body(Seq::empty()) == (Seq::<char>::empty(), 0nat),
        quoted_body(seq!['\''] + rest) == (Seq::<char>::empty(), 1nat),
        quoted_body(seq!['\\']) == (seq!['\\'], 1nat),
        c != '\\' && c != '\'' ==> quoted_body(seq![c] + rest) == (
            seq![c] + quoted_body(rest).0,
            1 + quoted_body(rest).1,
        ),
        rest.len() > 0 ==> quoted_body(seq!['\\'] + rest) == (
            seq![escape(rest).0] + quoted_body(rest.skip(escape(rest).1 as int)).0,
            1 + escape(rest).1 + quoted_body(rest.skip(escape(rest).1 as int)).1,
        ),
{
    assert((seq!['\''] + rest)[0] == '\'');
    let s = seq![c] + rest;
    assert(s[0] == c);
    assert(s.skip(1) =~= rest);
    let e = seq!['\\'] + rest;
    assert(e[0] == '\\');
    assert(e.skip(1) =~= rest);
    lemma_escape_fits(rest);
    assert(e.skip(1 + escape(rest).1 as int) =~= rest.skip(escape(rest).1 as int));
    let lone = seq!['\\'];
    assert(lone.skip(1) =~= seq![]);
    assert(seq!['\\'] + Seq::<char>::empty() =~= seq!['\\']);
    reveal_with_fuel(quoted_body, 2);
}

/// Whether `$'` stands in `s` at `i`.
pub open spec fn dollar_quote_at(s: Seq<char>, i: int) -> bool {
    s[i] == '$' && s[i + 1] == '\''
}

/// ANSI-C strings are resolved where they stand: what comes before the first one stays, its
/// content comes in single quotes, or not at all where it is empty, and the rest is dealt with in
/// the same way.
pub proof fn law_ansi_c_strings_are_resolved(
    text: Seq<char>,
    before: Seq<char>,
    inside: Seq<char>,
)
    requires
        text == before + seq!['$', '\''] + inside,
        inside.len() > 0,
        forall|i: int| 0 <= i < before.len() ==> !#[trigger] dollar_quote_at(text, i),
    ensures
        ({
            let (content, used) = quoted_body(inside);
            let rest = ansi_c_resolved(inside.skip(used as int));
            ansi_c_resolved(text) == before + (if content.len() == 0 {
                seq![]
            } else {
                seq!['\''] + content + seq!['\'']
            }) + rest
        }),
    decreases before.len(),
{
    let (content, used) = quoted_body(inside);
    let rest = ansi_c_resolved(inside.skip(used as int));
    let quoted: Seq<char> = if content.len() == 0 {
        seq![]
    } else {
        seq!['\''] + content + seq!['\'']
    };
    lemma_quoted_body_fits(inside);
    if before.len() == 0 {
        assert(text[0] == '$' && text[1] == '\'');
        assert(text.skip(2) =~= inside);
        assert(text.skip(2 + used as int) =~= inside.skip(used as int));
        assert(before + quoted =~= quoted);
    } else {
        let more = before.skip(1);
        let tail = text.skip(1);
        assert(!dollar_quote_at(text, 0));
        assert(text[0] == before[0]);
        assert(tail =~= more + seq!['$', '\''] + inside);
        assert forall|i: int| 0 <= i < more.len() implies !#[trigger] dollar_quote_at(
            tail,
            i,
        ) by {
            assert(!dollar_quote_at(text, i + 1));
            assert(tail[i] == text[i + 1]);
            assert(tail[i + 1] == text[i + 2]);
        }
        law_ansi_c_strings_are_resolved(tail, more, inside);
        assert(seq![before[0]] + (more + quoted + rest) =~= before + quoted + rest);
    }
}

/// A text without an ANSI-C string has nothing to resolve.
pub proof fn law_nothing_of_ansi_c(text: Seq<char>)
    requires
        forall|i: int| 0 <= i && i + 2 < text.len() ==> !#[trigger] dollar_quote_at(text, i),
    ensures
        ansi_c_resolved(text) == text,
    decreases text.len(),
{
    if text.len() == 0 {
        assert(text =~= seq![]);
    } else {
        let tail = text.skip(1);
        if text.len() > 2 {
            assert(!dollar_quote_at(text, 0));
        }
        assert forall|i: int| 0 <= i && i + 2 < tail.len() implies !#[trigger] dollar_quote_at(
            tail,
            i,
        ) by {
            assert(!dollar_quote_at(text, i + 1));
            assert(tail[i] == text[i + 1]);
            assert(tail[i + 1] == text[i + 2]);
        }
        law_nothing_of_ansi_c(tail);
        assert(seq![text[0]] + tail =~= text);
    }
}

// ---------------------------------------------------------------------------------------
// The whole
// ---------------------------------------------------------------------------------------

/// The literal form of a line is what is left of it once its ANSI-C strings are resolved, its
/// quotes dropped and its characters normalized.
pub proof fn law_literal_form(line: Seq<char>)
    ensures
        literal_form(line) == normalized(
            ansi_c_resolved(line).filter(|c: char| c != '"' && c != '\''),
        ),
{
    let p = |c: char| !is_quote(c);
    let q = |c: char| c != '"' && c != '\'';
    assert(p =~= q);
}

/// The lines of a text, each one as it reads once its quoting is undone and its references are
/// resolved by what the text assigns.
pub open spec fn resolved_lines(text: Seq<char>) -> Seq<Seq<char>> {
    Seq::new(
        lines(text).len(),
        |i: int| resolved(literal_form(lines(text)[i]), assignments(lines(text))),
    )
}

/// Deobfuscation resolves every line, wherever it stands and however it begins: the result is the
/// resolved lines, one below the other, without the empty ones in front; and there is none
/// exactly where no line changes in any step.
pub proof fn law_every_line_is_resolved(text: Seq<char>, k: int)
    requires
        0 <= k <= lines(text).len(),
        forall|i: int| 0 <= i < k ==> (#[trigger] resolved_lines(text)[i]).len() == 0,
        k < lines(text).len() ==> resolved_lines(text)[k].len() > 0,
    ensures
        deobfuscated(text) is None <==> forall|i: int|
            0 <= i < lines(text).len() ==> ansi_c_resolved(#[trigger] lines(text)[i]) == lines(
                text,
            )[i] && resolved_lines(text)[i] == lines(text)[i],
        deobfuscated(text) matches Some(t) ==> t == joined(
            resolved_lines(text).skip(k),
            seq!['\n'],
        ),
{
    let ls = lines(text);
    let vars = assignments(ls);
    let forms = resolved_lines(text);
    assert forall|i: int| 0 <= i < ls.len() implies #[trigger] forms[i] == plain_form(
        ls[i],
        vars,
    ) by {}
    assert forall|i: int| 0 <= i < ls.len() implies line_changes(#[trigger] ls[i], vars) == !(
    ansi_c_resolved(ls[i]) == ls[i] && forms[i] == ls[i]) by {}
    lemma_plain_text(ls, vars, forms, k, ls.len() as int);
    assert(ls.take(ls.len() as int) =~= ls);
    assert(forms.subrange(k, ls.len() as int) =~= forms.skip(k));
}

proof fn lemma_plain_text(
    ls: Seq<Seq<char>>,
    vars: Map<Seq<char>, Seq<char>>,
    forms: Seq<Seq<char>>,
    k: int,
    n: int,
)
    requires
        forms.len() == ls.len(),
        0 <= k <= n <= ls.len() || 0 <= n <= k <= ls.len(),
        forall|i: int| 0 <= i < ls.len() ==> #[trigger] forms[i] == plain_form(ls[i], vars),
        forall|i: int| 0 <= i < k ==> (#[trigger] forms[i]).len() == 0,
        k < ls.len() ==> forms[k].len() > 0,
    ensures
        n <= k ==> plain_text(ls.take(n), vars).len() == 0,
        k <= n ==> plain_text(ls.take(n), vars) == joined(forms.subrange(k, n), seq!['\n']),
        k < n ==> plain_text(ls.take(n), vars).len() > 0,
    decreases n,
{
    let nl = seq!['\n'];
    if n == 0 {
        if k == 0 {
            assert(forms.subrange(0, 0) =~= seq![]);
            assert(joined(forms.subrange(0, 0), nl) =~= plain_text(ls.take(0), vars));
        }
    } else {
        lemma_plain_text(ls, vars, forms, k, n - 1);
        assert(ls.take(n).drop_last() =~= ls.take(n - 1));
        assert(ls.take(n).last() == ls[n - 1]);
        assert(forms[n - 1] == plain_form(ls[n - 1], vars));
        let before = plain_text(ls.take(n - 1), vars);
        if n <= k {
            assert(forms[n - 1].len() == 0);
            if n == k {
                assert(forms.subrange(k, k) =~= seq![]);
                assert(plain_text(ls.take(n), vars) =~= seq![]);
                assert(joined(forms.subrange(k, n), nl) =~= plain_text(ls.take(n), vars));
            }
        } else {
            let some = forms.subrange(k, n - 1);
            assert(forms.subrange(k, n) =~= some.push(forms[n - 1]));
            law_joining(some, forms[n - 1], nl);
            if n - 1 == k {
                assert(some =~= seq![]);
                assert(some.push(forms[n - 1]) =~= seq![forms[n - 1]]);
                assert(plain_text(ls.take(n), vars) =~= forms[n - 1]);
            } else {
                assert(plain_text(ls.take(n), vars) =~= before + nl + forms[n - 1]);
            }
        }
    }
}

/// The first form from `i` on that has text.
spec fn first_with_text(forms: Seq<Seq<char>>, i: int) -> int
    decreases forms.len() - i,
{
    if i >= forms.len() || forms[i].len() > 0 {
        i
    } else {
        first_with_text(forms, i + 1)
    }
}

proof fn lemma_first_with_text(forms: Seq<Seq<char>>, i: int)
    requires
        0 <= i <= forms.len(),
        forall|j: int| 0 <= j < i ==> (#[trigger] forms[j]).len() == 0,
    ensures
        ({
            let k = first_with_text(forms, i);
            &&& i <= k <= forms.len()
            &&& forall|j: int| 0 <= j < k ==> (#[trigger] forms[j]).len() == 0
            &&& k < forms.len() ==> forms[k].len() > 0
        }),
    decreases forms.len() - i,
{
    if i < forms.len() && forms[i].len() == 0 {
        lemma_first_with_text(forms, i + 1);
    }
}

/// Where each resolved line fits on a line, the lines of the deobfuscated text are resolved lines;
/// and where each of them has text, they are all of them, in order.
pub proof fn law_lines_of_the_deobfuscated_text(text: Seq<char>)
    requires
        forall|i: int|
            0 <= i < lines(text).len() ==> fits_on_a_line(#[trigger] resolved_lines(text)[i]),
    ensures
        deobfuscated(text) matches Some(t) ==> {
            &&& forall|j: int|
                0 <= j < lines(t).len() ==> resolved_lines(text).contains(#[trigger] lines(t)[j])
            &&& (forall|i: int|
                0 <= i < lines(text).len() ==> (#[trigger] resolved_lines(text)[i]).len() > 0)
                ==> lines(t) == resolved_lines(text)
        },
{
    let forms = resolved_lines(text);
    let k = first_with_text(forms, 0);
    lemma_first_with_text(forms, 0);
    law_every_line_is_resolved(text, k);
    let list = forms.skip(k);
    assert forall|i: int| 0 <= i < list.len() implies fits_on_a_line(#[trigger] list[i]) by {
        assert(list[i] == forms[i + k]);
    }
    law_lines_undo_joining(list);
    if deobfuscated(text) is Some {
        let t = deobfuscated(text).unwrap();
        assert forall|j: int| 0 <= j < lines(t).len() implies forms.contains(
            #[trigger] lines(t)[j],
        ) by {
            assert(lines(t)[j] == list[j]);
            assert(list[j] == forms[j + k]);
        }
        if forall|i: int| 0 <= i < forms.len() ==> (#[trigger] forms[i]).len() > 0 {
            if k > 0 {
                assert(forms[0].len() > 0);
            }
            assert(list =~= forms);
            if forms.len() > 0 {
                assert(forms[forms.len() - 1].len() > 0);
            }
        }
    }
}

// ---------------------------------------------------------------------------------------
// Touching quoted strings
// ---------------------------------------------------------------------------------------

proof fn lemma_slice(a: Seq<char>, b: Seq<char>, c: Seq<char>)
    ensures
        byte_slice(a + b + c, encode_utf8(a).len() as int, encode_utf8(a + b).len() as int) == b,
        encode_utf8(a + b).len() == encode_utf8(a).len() + encode_utf8(b).len(),
{
    lemma_encode_concat(a + b, c);
    lemma_encode_concat(a, b);
    assert(encode_utf8(a + b + c).subrange(
        encode_utf8(a).len() as int,
        encode_utf8(a + b).len() as int,
    ) =~= encode_utf8(b));
    encode_utf8_decode_utf8(b);
}

/// Two quoted strings that touch are merged: their quotes go, their contents join, and what is
/// around them stays.
pub proof fn law_touching_strings_are_merged(
    before: Seq<char>,
    p: char,
    x: Seq<char>,
    q: char,
    y: Seq<char>,
    behind: Seq<char>,
    spans: Seq<Span>,
)
    requires
        is_quote(p),
        is_quote(q),
        spans.len() == 2,
        spans[0].0 == encode_utf8(before).len(),
        spans[0].1 == encode_utf8(before + (seq![p] + x + seq![p])).len(),
        spans[1].0 == spans[0].1,
        spans[1].1 == encode_utf8(
            before + (seq![p] + x + seq![p]) + (seq![q] + y + seq![q]),
        ).len(),
    ensures
        first_run_merged(
            before + (seq![p] + x + seq![p]) + (seq![q] + y + seq![q]) + behind,
            spans,
        ) == Some(before + (x + y) + behind),
{
    let a = seq![p] + x + seq![p];
    let b = seq![q] + y + seq![q];
    let text = before + a + b + behind;
    lemma_one_byte(p);
    lemma_one_byte(q);
    // The parts of the text that are cut out.
    assert(text =~= Seq::<char>::empty() + before + (a + b + behind));
    lemma_slice(Seq::empty(), before, a + b + behind);
    assert(encode_utf8(Seq::<char>::empty()) =~= seq![]);
    assert(Seq::<char>::empty() + before =~= before);
    assert(text =~= (before + seq![p]) + x + (seq![p] + b + behind));
    lemma_slice(before + seq![p], x, seq![p] + b + behind);
    lemma_encode_concat(before, seq![p]);
    lemma_encode_concat(before + seq![p] + x, seq![p]);
    assert(before + a =~= before + seq![p] + x + seq![p]);
    let c = before + a;
    assert(text =~= (c + seq![q]) + y + (seq![q] + behind));
    lemma_slice(c + seq![q], y, seq![q] + behind);
    lemma_encode_concat(c, seq![q]);
    lemma_encode_concat(c + seq![q] + y, seq![q]);
    assert(c + b =~= c + seq![q] + y + seq![q]);
    assert(text =~= (c + b) + behind + Seq::<char>::empty());
    lemma_slice(c + b, behind, seq![]);
    assert((c + b) + behind =~= text);
    // The run is both spans.
    assert(touches_next(spans, 0));
    assert(first_touching(spans, 0) == Some(0int));
    assert(!touches_next(spans, 1));
    assert(run_end(spans, 1) == 2);
    assert(run_end(spans, 0) == 2);
    reveal_with_fuel(quoted_contents, 3);
    assert(quoted_contents(text, spans, 0, 2) =~= x + y);
}

proof fn lemma_one_byte(c: char)
    requires
        is_quote(c),
    ensures
        encode_utf8(seq![c]).len() == 1,
{
    assert(is_ascii_chars(seq![c]));
    is_ascii_chars_encode_utf8(seq![c]);
}

/// The run that is merged is the first one, and all of it: what is before its first string and
/// behind its last one stays, and the contents of its strings stand in between, in a row.
pub proof fn law_first_run_is_merged(text: Seq<char>, spans: Seq<Span>, first: int, end: int)
    requires
        0 <= first,
        first + 2 <= end <= spans.len(),
        forall|i: int| 0 <= i < first ==> (#[trigger] spans[i]).1 != spans[i + 1].0,
        forall|i: int| first <= i < end - 1 ==> (#[trigger] spans[i]).1 == spans[i + 1].0,
        end < spans.len() ==> spans[end - 1].1 != spans[end].0,
    ensures
        first_run_merged(text, spans) == Some(
            byte_slice(text, 0, spans[first].0 as int) + quoted_contents(text, spans, first, end)
                + byte_slice(text, spans[end - 1].1 as int, encode_utf8(text).len() as int),
        ),
{
    assert(spans[first].1 == spans[first + 1].0);
    lemma_first_touching(spans, 0, first);
    lemma_run_end(spans, first, end);
}

/// The contents of a row of strings are what stands between the quotes of each, in a row.
pub proof fn law_contents_in_a_row(text: Seq<char>, spans: Seq<Span>, from: int, to: int)
    requires
        from <= to,
    ensures
        quoted_contents(text, spans, from, from) == Seq::<char>::empty(),
        quoted_contents(text, spans, from, to + 1) == quoted_contents(text, spans, from, to)
            + byte_slice(text, spans[to].0 + 1, spans[to].1 - 1),
{
}

/// Where no string touches the next one, there is nothing to merge.
pub proof fn law_nothing_to_merge(text: Seq<char>, spans: Seq<Span>)
    requires
        forall|i: int| 0 <= i < spans.len() - 1 ==> (#[trigger] spans[i]).1 != spans[i + 1].0,
    ensures
        first_run_merged(text, spans) is None,
{
    lemma_none_touching(spans, 0);
}

proof fn lemma_first_touching(spans: Seq<Span>, i: int, first: int)
    requires
        0 <= i <= first,
        first + 1 < spans.len(),
        spans[first].1 == spans[first + 1].0,
        forall|j: int| 0 <= j < first ==> (#[trigger] spans[j]).1 != spans[j + 1].0,
    ensures
        first_touching(spans, i) == Some(first),
    decreases first - i,
{
    if i < first {
        assert(spans[i].1 != spans[i + 1].0);
        lemma_first_touching(spans, i + 1, first);
    }
}

proof fn lemma_none_touching(spans: Seq<Span>, i: int)
    requires
        0 <= i,
        forall|j: int| 0 <= j < spans.len() - 1 ==> (#[trigger] spans[j]).1 != spans[j + 1].0,
    ensures
        first_touching(spans, i) is None,
    decreases spans.len() - i,
{
    if i < spans.len() {
        if i < spans.len() - 1 {
            assert(spans[i].1 != spans[i + 1].0);
        }
        lemma_none_touching(spans, i + 1);
    }
}

proof fn lemma_run_end(spans: Seq<Span>, i: int, end: int)
    requires
        0 <= i < end <= spans.len(),
        forall|j: int| i <= j < end - 1 ==> (#[trigger] spans[j]).1 == spans[j + 1].0,
        end < spans.len() ==> spans[end - 1].1 != spans[end].0,
    ensures
        run_end(spans, i) == end,
    decreases end - i,
{
    if i < end - 1 {
        assert(spans[i].1 == spans[i + 1].0);
        lemma_run_end(spans, i + 1, end);
    }
}

/// Merging is done run by run until no two quoted strings touch any more.
pub proof fn law_flattening_goes_on(text: Seq<char>, merged: Seq<char>)
    requires
        encode_utf8(merged).len() < encode_utf8(text).len(),
    ensures
        first_run_merged(text, regex_find_spans(QUOTED@, text)) == Some(merged) ==> flattened(text)
            == flattened(merged),
        first_run_merged(text, regex_find_spans(QUOTED@, text)) is None ==> flattened(text) == text,
        QUOTED@ == r#"(?:"(?:[^"\\]|\\.)*"|'(?:[^'\\]|\\.)*')"#@,
{
}

} // verus!
