//! Laws on texts.

use crate::digest::{fingerprint, hex_text, sha256_digest};
use crate::text::{
    ascii_lower, contains_text, decimal, joined, lemma_find_char, lines, occurs_at, opt_text,
    replaced, starts_with, texts, trim, trim_end, trim_start, Class,
};
use vstd::prelude::*;
use vstd::utf8::*;

verus! {

// ---------------------------------------------------------------------------------------
// Characters
// ---------------------------------------------------------------------------------------

/// Capital letters of ASCII have their small letters 32 places behind them; every other character
/// is its own.
pub proof fn law_lowercase_of_ascii(c: char)
    ensures
        65 <= c as int <= 90 ==> ascii_lower(c) as int == c as int + 32,
        !(65 <= c as int <= 90) ==> ascii_lower(c) == c,
{
}

/// The characters of each class, by their code points.
pub proof fn law_classes_by_code_point(c: char)
    ensures
        Class::Quote.has(c) <==> c as int == 34 || c as int == 39,
        Class::OpenBrace.has(c) <==> c as int == 123,
        Class::CloseBrace.has(c) <==> c as int == 125,
        Class::Space.has(c) <==> {
            ||| 9 <= c as int <= 13
            ||| c as int == 32
            ||| c as int == 0x85
            ||| c as int == 0xa0
            ||| c as int == 0x1680
            ||| 0x2000 <= c as int <= 0x200a
            ||| c as int == 0x2028
            ||| c as int == 0x2029
            ||| c as int == 0x202f
            ||| c as int == 0x205f
            ||| c as int == 0x3000
        },
{
}

// ---------------------------------------------------------------------------------------
// Lines
// ---------------------------------------------------------------------------------------

/// A text begins with its first line: what comes before the first newline, without a carriage
/// return at its end. The other lines are those of what comes behind the newline.
pub proof fn law_lines_split_at_newlines(a: Seq<char>, b: Seq<char>)
    requires
        !a.contains('\n'),
    ensures
        lines(a + seq!['\n'] + b) == seq![
            if a.len() > 0 && a.last() == '\r' {
                a.drop_last()
            } else {
                a
            },
        ] + lines(b),
{
    let s = a + seq!['\n'] + b;
    assert forall|j: int| 0 <= j < a.len() implies s[j] != '\n' by {
        assert(s[j] == a[j]);
        assert(a.contains(a[j]));
    }
    lemma_find_char(s, '\n', 0, a.len() as int);
    assert(s[a.len() as int] == '\n');
    assert(s.take(a.len() as int) =~= a);
    assert(s.skip(a.len() as int + 1) =~= b);
}

/// A text without a newline is one line, and the empty text has none.
pub proof fn law_one_line(a: Seq<char>)
    requires
        !a.contains('\n'),
    ensures
        a.len() > 0 ==> lines(a) == seq![a],
        a.len() == 0 ==> lines(a) == Seq::<Seq<char>>::empty(),
{
    assert forall|j: int| 0 <= j < a.len() implies a[j] != '\n' by {
        assert(a.contains(a[j]));
    }
    lemma_find_char(a, '\n', 0, a.len() as int);
}

/// Whether a text fits on a line: it holds no newline, and does not end with a carriage return.
pub open spec fn fits_on_a_line(s: Seq<char>) -> bool {
    !s.contains('\n') && (s.len() > 0 ==> s.last() != '\r')
}

/// Texts that are joined by newlines are the lines of what they make up; only an empty text at
/// the end makes no line.
pub proof fn law_lines_undo_joining(list: Seq<Seq<char>>)
    requires
        forall|i: int| 0 <= i < list.len() ==> fits_on_a_line(#[trigger] list[i]),
    ensures
        list.len() > 0 && list.last().len() > 0 ==> lines(joined(list, seq!['\n'])) == list,
        list.len() > 0 && list.last().len() == 0 ==> lines(joined(list, seq!['\n']))
            == list.drop_last(),
        list.len() == 0 ==> lines(joined(list, seq!['\n'])) == list,
    decreases list.len(),
{
    let nl = seq!['\n'];
    if list.len() == 0 {
        assert(list =~= seq![]);
    } else if list.len() == 1 {
        assert(fits_on_a_line(list[0]));
        law_one_line(list[0]);
        assert(list =~= seq![list[0]]);
        assert(list.drop_last() =~= seq![]);
    } else {
        let rest = list.drop_first();
        assert forall|i: int| 0 <= i < rest.len() implies fits_on_a_line(#[trigger] rest[i]) by {
            assert(rest[i] == list[i + 1]);
        }
        law_lines_undo_joining(rest);
        assert(fits_on_a_line(list[0]));
        law_join_in_front(list[0], rest, nl);
        assert(seq![list[0]] + rest =~= list);
        assert(seq![list[0]] + rest.drop_last() =~= list.drop_last());
        assert(rest.last() == list.last());
        law_lines_split_at_newlines(list[0], joined(rest, nl));
        assert(joined(list, nl) == list[0] + nl + joined(rest, nl));
    }
}

// ---------------------------------------------------------------------------------------
// Composing
// ---------------------------------------------------------------------------------------

/// Joining puts the separator between each text and the next, and nowhere else.
pub proof fn law_joining(list: Seq<Seq<char>>, last: Seq<char>, sep: Seq<char>)
    ensures
        joined(seq![], sep) == Seq::<char>::empty(),
        joined(seq![last], sep) == last,
        list.len() > 0 ==> joined(list.push(last), sep) == joined(list, sep) + sep + last,
{
    assert(list.push(last).drop_last() =~= list);
    assert(list.push(last).last() == last);
}

/// Joining with a text in front.
pub proof fn law_join_in_front(first: Seq<char>, rest: Seq<Seq<char>>, sep: Seq<char>)
    requires
        rest.len() > 0,
    ensures
        joined(seq![first] + rest, sep) == first + sep + joined(rest, sep),
    decreases rest.len(),
{
    let all = seq![first] + rest;
    assert(all.drop_last() =~= seq![first] + rest.drop_last());
    assert(all.last() == rest.last());
    if rest.len() == 1 {
        assert(all.drop_last() =~= seq![first]);
        assert(joined(seq![first], sep) == first);
        assert(joined(rest, sep) == rest[0]);
    } else {
        law_join_in_front(first, rest.drop_last(), sep);
        assert(joined(all, sep) =~= first + sep + joined(rest, sep));
    }
}

/// A text holds another where it is made up of something, the other, and something more.
pub proof fn law_containing(hay: Seq<char>, needle: Seq<char>)
    ensures
        contains_text(hay, needle) <==> exists|a: Seq<char>, b: Seq<char>|
            hay == #[trigger] (a + needle + b),
{
    if contains_text(hay, needle) {
        let i = choose|i: int| occurs_at(hay, needle, i);
        let a = hay.take(i);
        let b = hay.skip(i + needle.len());
        assert(hay =~= a + needle + b);
    }
    if exists|a: Seq<char>, b: Seq<char>| hay == #[trigger] (a + needle + b) {
        let (a, b) = choose|a: Seq<char>, b: Seq<char>| hay == #[trigger] (a + needle + b);
        let i = a.len() as int;
        assert(hay.subrange(i, i + needle.len()) =~= needle);
        assert(occurs_at(hay, needle, i));
    }
}

/// A text begins with another where the other comes first and something behind it.
pub proof fn law_beginning(hay: Seq<char>, needle: Seq<char>)
    ensures
        starts_with(hay, needle) <==> needle.len() <= hay.len() && hay.take(needle.len() as int)
            == needle,
{
    if needle.len() <= hay.len() {
        assert(hay.subrange(0, needle.len() as int) =~= hay.take(needle.len() as int));
    }
}

/// Replacing goes from left to right: what comes before the first occurrence stays, the
/// occurrence is replaced, and the rest is dealt with in the same way.
pub proof fn law_replacing(a: Seq<char>, from: Seq<char>, b: Seq<char>, to: Seq<char>)
    requires
        from.len() > 0,
        forall|i: int|
            0 <= i < a.len() ==> (#[trigger] (a + from + b).subrange(i, i + from.len())) != from,
    ensures
        replaced(a + from + b, from, to) == a + to + replaced(b, from, to),
    decreases a.len(),
{
    let s = a + from + b;
    if a.len() == 0 {
        assert(s.subrange(0, from.len() as int) =~= from);
        assert(s.skip(from.len() as int) =~= b);
        assert(a + to + replaced(b, from, to) =~= to + replaced(b, from, to));
    } else {
        let rest = a.skip(1);
        assert(s.subrange(0int, 0int + from.len()) != from);
        assert(s.skip(1) =~= rest + from + b);
        assert forall|i: int| 0 <= i < rest.len() implies (#[trigger] (rest + from + b).subrange(
            i,
            i + from.len(),
        )) != from by {
            assert((rest + from + b).subrange(i, i + from.len()) =~= s.subrange(
                i + 1,
                i + 1 + from.len(),
            ));
        }
        law_replacing(rest, from, b, to);
        assert(s[0] == a[0]);
        assert(seq![a[0]] + (rest + to + replaced(b, from, to)) =~= a + to + replaced(
            b,
            from,
            to,
        ));
    }
}

/// Where there is nothing to replace, nothing is.
pub proof fn law_nothing_to_replace(s: Seq<char>, from: Seq<char>, to: Seq<char>)
    requires
        from.len() > 0,
        forall|i: int|
            0 <= i && i + from.len() <= s.len() ==> (#[trigger] s.subrange(i, i + from.len()))
                != from,
    ensures
        replaced(s, from, to) == s,
    decreases s.len(),
{
    if s.len() > 0 {
        let rest = s.skip(1);
        if from.len() <= s.len() {
            assert(s.subrange(0int, 0int + from.len()) != from);
        }
        assert forall|i: int| 0 <= i && i + from.len() <= rest.len() implies (
        #[trigger] rest.subrange(i, i + from.len())) != from by {
            assert(rest.subrange(i, i + from.len()) =~= s.subrange(i + 1, i + 1 + from.len()));
        }
        law_nothing_to_replace(rest, from, to);
        assert(seq![s[0]] + rest =~= s);
    }
}

// ---------------------------------------------------------------------------------------
// Trimming
// ---------------------------------------------------------------------------------------

/// Trimming the start takes off the characters of the class that the text begins with, and no
/// others.
pub proof fn law_trim_start(s: Seq<char>, class: Class)
    ensures
        ({
            let t = trim_start(s, class);
            let n = s.len() - t.len();
            &&& 0 <= n
            &&& t == s.skip(n)
            &&& forall|i: int| 0 <= i < n ==> class.has(#[trigger] s[i])
            &&& t.len() > 0 ==> !class.has(t[0])
        }),
    decreases s.len(),
{
    if s.len() > 0 && class.has(s[0]) {
        let rest = s.skip(1);
        law_trim_start(rest, class);
        let t = trim_start(rest, class);
        let n = s.len() - t.len();
        assert(t =~= s.skip(n));
        assert forall|i: int| 0 <= i < n implies class.has(#[trigger] s[i]) by {
            if i > 0 {
                assert(rest[i - 1] == s[i]);
            }
        }
    } else {
        assert(s.skip(0) =~= s);
    }
}

/// Trimming the end takes off the characters of the class that the text ends with, and no others.
pub proof fn law_trim_end(s: Seq<char>, class: Class)
    ensures
        ({
            let t = trim_end(s, class);
            &&& t.len() <= s.len()
            &&& t == s.take(t.len() as int)
            &&& forall|i: int| t.len() <= i < s.len() ==> class.has(#[trigger] s[i])
            &&& t.len() > 0 ==> !class.has(t.last())
        }),
    decreases s.len(),
{
    if s.len() > 0 && class.has(s.last()) {
        let rest = s.drop_last();
        law_trim_end(rest, class);
        let t = trim_end(rest, class);
        assert(t =~= s.take(t.len() as int));
        assert forall|i: int| t.len() <= i < s.len() implies class.has(#[trigger] s[i]) by {
            if i < rest.len() {
                assert(rest[i] == s[i]);
            }
        }
    } else {
        assert(s.take(s.len() as int) =~= s);
    }
}

/// Whether `t` lies in `s` at `i`, with only characters of the class around it.
pub open spec fn lies_between(s: Seq<char>, t: Seq<char>, class: Class, i: int) -> bool {
    &&& 0 <= i
    &&& i + t.len() <= s.len()
    &&& s.subrange(i, i + t.len()) == t
    &&& forall|j: int| 0 <= j < i || i + t.len() <= j < s.len() ==> class.has(#[trigger] s[j])
}

/// Trimming takes the characters of the class off both ends: what is left lies in the text, has
/// only characters of the class around it, and none at its ends.
pub proof fn law_trim(s: Seq<char>, class: Class)
    ensures
        exists|i: int| lies_between(s, trim(s, class), class, i),
        trim(s, class).len() > 0 ==> !class.has(trim(s, class)[0]) && !class.has(
            trim(s, class).last(),
        ),
{
    let u = trim_start(s, class);
    let t = trim_end(u, class);
    law_trim_start(s, class);
    law_trim_end(u, class);
    let i = s.len() - u.len();
    assert(s.subrange(i, i + t.len()) =~= t);
    assert forall|j: int| 0 <= j < i || i + t.len() <= j < s.len() implies class.has(
        #[trigger] s[j],
    ) by {
        if j >= i {
            assert(u[j - i] == s[j]);
        }
    }
    assert(trim(s, class) == t);
    assert(lies_between(s, trim(s, class), class, i));
    if t.len() > 0 {
        assert(t[0] == u[0]);
    }
}

// ---------------------------------------------------------------------------------------
// Numbers
// ---------------------------------------------------------------------------------------

/// The number that decimal digits are read as.
pub open spec fn read_decimal(s: Seq<char>) -> int
    decreases s.len(),
{
    if s.len() == 0 {
        0
    } else {
        read_decimal(s.drop_last()) * 10 + (s.last() as int - 48)
    }
}

/// A number in decimal is read as itself, is made of digits, and has no zero in front.
pub proof fn law_decimal_reads_back(n: nat)
    ensures
        read_decimal(decimal(n)) == n,
        decimal(n).len() > 0,
        forall|i: int| 0 <= i < decimal(n).len() ==> 48 <= #[trigger] decimal(n)[i] as int <= 57,
        n > 0 ==> decimal(n)[0] as int != 48,
    decreases n,
{
    let d = decimal(n);
    assert(d.last() as int == 48 + n % 10);
    if n < 10 {
        assert(d.drop_last() =~= seq![]);
        assert(read_decimal(d.drop_last()) == 0);
    } else {
        law_decimal_reads_back(n / 10);
        assert(d.drop_last() =~= decimal(n / 10));
        assert forall|i: int| 0 <= i < d.len() implies 48 <= #[trigger] d[i] as int <= 57 by {
            if i < d.len() - 1 {
                assert(d[i] == decimal(n / 10)[i]);
            }
        }
    }
}

/// The code point of the lowercase hexadecimal digit of a number below 16.
pub open spec fn hex_code(n: int) -> int {
    if n < 10 {
        48 + n
    } else {
        87 + n
    }
}

/// Bytes are written with two hexadecimal digits each, in order, the upper half first.
pub proof fn law_hex_text(bytes: Seq<u8>)
    ensures
        hex_text(bytes).len() == 2 * bytes.len(),
        forall|i: int|
            0 <= i < bytes.len() ==> hex_text(bytes)[2 * i] as int == hex_code(
                #[trigger] bytes[i] as int / 16,
            ) && hex_text(bytes)[2 * i + 1] as int == hex_code(bytes[i] as int % 16),
    decreases bytes.len(),
{
    if bytes.len() > 0 {
        let before = bytes.drop_last();
        law_hex_text(before);
        assert forall|i: int| 0 <= i < bytes.len() implies hex_text(bytes)[2 * i] as int
            == hex_code(#[trigger] bytes[i] as int / 16) && hex_text(bytes)[2 * i + 1] as int
            == hex_code(bytes[i] as int % 16) by {
            if i < before.len() {
                assert(before[i] == bytes[i]);
                assert(hex_text(bytes)[2 * i] == hex_text(before)[2 * i]);
                assert(hex_text(bytes)[2 * i + 1] == hex_text(before)[2 * i + 1]);
            }
        }
    }
}

/// A fingerprint is the SHA-256 digest of the encoded text in hexadecimal: texts with one digest
/// have one fingerprint, and texts with one fingerprint have one digest.
pub proof fn law_fingerprints_tell_digests_apart(a: Seq<char>, b: Seq<char>)
    requires
        sha256_digest(encode_utf8(a)).len() == sha256_digest(encode_utf8(b)).len(),
    ensures
        fingerprint(a) == fingerprint(b) <==> sha256_digest(encode_utf8(a)) == sha256_digest(
            encode_utf8(b),
        ),
        fingerprint(a) == hex_text(sha256_digest(encode_utf8(a))),
        fingerprint(a).len() == 2 * sha256_digest(encode_utf8(a)).len(),
{
    let x = sha256_digest(encode_utf8(a));
    let y = sha256_digest(encode_utf8(b));
    law_hex_text(x);
    law_hex_text(y);
    if fingerprint(a) == fingerprint(b) {
        assert forall|i: int| 0 <= i < x.len() implies x[i] == y[i] by {
            assert(hex_text(x)[2 * i] == hex_text(y)[2 * i]);
            assert(hex_code(x[i] as int / 16) == hex_code(y[i] as int / 16));
            assert(hex_code(x[i] as int % 16) == hex_code(y[i] as int % 16));
        }
        assert(x =~= y);
    }
}

/// The texts of strings are their contents, one by one.
pub proof fn law_texts(v: Seq<String>, s: String)
    ensures
        texts(v).len() == v.len(),
        forall|i: int| 0 <= i < v.len() ==> #[trigger] texts(v)[i] == v[i]@,
        opt_text(Some(s)) == Some(s@),
        opt_text(None) is None,
{
}

} // verus!
