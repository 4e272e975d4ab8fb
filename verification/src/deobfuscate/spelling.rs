//! Laws on what deobfuscation sees through: text that hides behind quotes or is spelled out in
//! escapes reads as itself.

use super::ansi_c::{
    ansi_c_resolved, as_chars, digit_value, digits_value, escape, lemma_digit_run_is, octal_limit,
    opens_ansi_c, quoted_body, requoted,
};
use super::laws::{ansi_c_quote_at, law_bare_text_unchanged};
use super::quotes::{is_quote, without_quotes};
use super::{literal_form, normalized};
use crate::digest::hex_digit;
use vstd::prelude::*;

verus! {

/// The octal digit of a number below 8.
pub open spec fn octal_digit(n: int) -> char {
    ('0' as int + n) as char
}

/// The escape `\xNN` for a byte.
pub open spec fn hex_escape(b: u8) -> Seq<char> {
    seq!['\\', 'x', hex_digit(b as int / 16), hex_digit(b as int % 16)]
}

/// The escape `\NNN` for a byte.
pub open spec fn octal_escape(b: u8) -> Seq<char> {
    seq![
        '\\',
        octal_digit(b as int / 64),
        octal_digit(b as int / 8 % 8),
        octal_digit(b as int % 8),
    ]
}

/// The bytes, each one as a hexadecimal or as an octal escape.
pub open spec fn spelled(s: Seq<u8>, hex: bool) -> Seq<char>
    decreases s.len(),
{
    if s.len() == 0 {
        seq![]
    } else {
        (if hex {
            hex_escape(s[0])
        } else {
            octal_escape(s[0])
        }) + spelled(s.drop_first(), hex)
    }
}

/// The ANSI-C string that holds the bytes as escapes.
pub open spec fn ansi_c_string(s: Seq<u8>, hex: bool) -> Seq<char> {
    seq!['$', '\''] + spelled(s, hex) + seq!['\'']
}

proof fn lemma_hex_escape(b: u8, behind: Seq<char>)
    ensures
        escape((hex_escape(b) + behind).skip(1)).0 == b as char,
        escape((hex_escape(b) + behind).skip(1)).1 == 3,
{
    let tail = (hex_escape(b) + behind).skip(1);
    let high = hex_digit(b as int / 16);
    let low = hex_digit(b as int % 16);
    let digits = tail.skip(1);
    assert(tail[0] == 'x');
    assert(digits[0] == high && digits[1] == low);
    assert(digit_value(16, high) == Some(b as int / 16));
    assert(digit_value(16, low) == Some(b as int % 16));
    lemma_digit_run_is(16, digits, 2, 2);
    let two = tail.subrange(1, 3);
    assert(two =~= seq![high, low]);
    assert(two.drop_last() =~= seq![high]);
    assert(two.drop_last().drop_last() =~= seq![]);
    reveal_with_fuel(digits_value, 3);
    assert(digits_value(16, two) == b as int / 16 * 16 + b as int % 16);
    assert(digits_value(16, two) == b);
}

proof fn lemma_octal_escape(b: u8, behind: Seq<char>)
    requires
        behind.len() > 0,
        digit_value(8, behind[0]) is None,
    ensures
        escape((octal_escape(b) + behind).skip(1)).0 == b as char,
        escape((octal_escape(b) + behind).skip(1)).1 == 3,
{
    let tail = (octal_escape(b) + behind).skip(1);
    let x = octal_digit(b as int / 64);
    let y = octal_digit(b as int / 8 % 8);
    let z = octal_digit(b as int % 8);
    assert(tail[0] == x && tail[1] == y && tail[2] == z && tail[3] == behind[0]);
    assert(digit_value(8, x) == Some(b as int / 64));
    assert(digit_value(8, y) == Some(b as int / 8 % 8));
    assert(digit_value(8, z) == Some(b as int % 8));
    lemma_digit_run_is(8, tail, octal_limit(x), 3);
    let three = tail.take(3);
    assert(three =~= seq![x, y, z]);
    assert(three.drop_last() =~= seq![x, y]);
    assert(three.drop_last().drop_last() =~= seq![x]);
    assert(three.drop_last().drop_last().drop_last() =~= seq![]);
    reveal_with_fuel(digits_value, 4);
    assert(digits_value(8, three) == (b as int / 64 * 8 + b as int / 8 % 8) * 8 + b as int % 8);
    assert(digits_value(8, three) == b);
}

proof fn lemma_spelled_body(s: Seq<u8>, hex: bool, behind: Seq<char>)
    ensures
        quoted_body(spelled(s, hex) + seq!['\''] + behind).0 == as_chars(s),
        quoted_body(spelled(s, hex) + seq!['\''] + behind).1 == spelled(s, hex).len() + 1,
    decreases s.len(),
{
    let all = spelled(s, hex) + seq!['\''] + behind;
    if s.len() == 0 {
        assert(all[0] == '\'');
        assert(as_chars(s) =~= seq![]);
    } else {
        let first = if hex {
            hex_escape(s[0])
        } else {
            octal_escape(s[0])
        };
        let rest = s.drop_first();
        let more = spelled(rest, hex) + seq!['\''] + behind;
        assert(all =~= first + more);
        assert(all[0] == '\\');
        if hex {
            lemma_hex_escape(s[0], more);
        } else {
            if rest.len() > 0 {
                assert(more[0] == '\\');
            } else {
                assert(more[0] == '\'');
            }
            lemma_octal_escape(s[0], more);
        }
        lemma_spelled_body(rest, hex, behind);
        assert(all.skip(4) =~= more);
        assert(seq![s[0] as char] + as_chars(rest) =~= as_chars(s));
    }
}

/// Spelling bytes out hides nothing: an ANSI-C string of hexadecimal or of octal escapes
/// resolves to the bytes themselves, in single quotes, whatever comes behind it.
pub proof fn law_spelled_bytes_resolve(s: Seq<u8>, hex: bool, behind: Seq<char>)
    requires
        s.len() > 0,
    ensures
        ansi_c_resolved(ansi_c_string(s, hex) + behind) == seq!['\''] + as_chars(s) + seq!['\'']
            + ansi_c_resolved(behind),
{
    let all = ansi_c_string(s, hex) + behind;
    let inside = spelled(s, hex) + seq!['\''] + behind;
    assert(all =~= seq!['$', '\''] + inside);
    assert(opens_ansi_c(all)) by {
        assert(all[0] == '$' && all[1] == '\'');
    }
    assert(all.skip(2) =~= inside);
    lemma_spelled_body(s, hex, behind);
    let used = spelled(s, hex).len() + 1;
    assert(all.skip(2 + used as int) =~= behind);
    assert(as_chars(s).len() > 0);
    assert(requoted(as_chars(s)) == seq!['\''] + as_chars(s) + seq!['\'']);
}

/// Quoting is seen through: of a line without ANSI-C strings, everything but the quotes is left,
/// however the quotes are set.
pub proof fn law_quoting_is_seen_through(line: Seq<char>)
    requires
        forall|i: int| !ansi_c_quote_at(line, i),
    ensures
        literal_form(line) == normalized(without_quotes(line)),
{
    law_bare_text_unchanged(line);
}

/// Spelling is seen through: of a line that is an ANSI-C string of escapes, the characters that
/// are spelled out are left, without quotes and in lowercase.
pub proof fn law_spelling_is_seen_through(s: Seq<u8>, hex: bool)
    requires
        s.len() > 0,
    ensures
        literal_form(ansi_c_string(s, hex)) == normalized(without_quotes(as_chars(s))),
{
    let keep = |c: char| !is_quote(c);
    let line = ansi_c_string(s, hex);
    assert(line + Seq::<char>::empty() =~= line);
    law_spelled_bytes_resolve(s, hex, seq![]);
    let quote = seq!['\''];
    let text = as_chars(s);
    let resolved = quote + text + quote + Seq::<char>::empty();
    assert(resolved =~= (quote + text) + quote);
    Seq::filter_distributes_over_add(quote + text, quote, keep);
    Seq::filter_distributes_over_add(quote, text, keep);
    reveal_with_fuel(Seq::filter, 2);
    assert(quote.drop_last() =~= seq![]);
    assert(quote.filter(keep) =~= seq![]);
    assert(without_quotes(resolved) =~= without_quotes(text));
}

} // verus!
