//! The regular expressions of the scanner, and what the `regex` crate finds with them.
//!
//! The crate's search is trusted: each wrapper names the result of one of its methods, as a
//! function of the pattern and the text, and adds the few facts that follow from the method's
//! documentation and the pattern. What the scanner makes of a result is verified where it is
//! used.

use vstd::prelude::*;
use vstd::utf8::*;

verus! {

/// A variable assignment at the start of a line: its name, and its value with any quotes.
pub const ASSIGNMENT: &'static str =
    r#"(?m)^[[:space:]]*([A-Za-z_][A-Za-z0-9_]*)=(['][^']*[']|["][^"]*["]|[^\s;|&<>`$()'"]*)"#;

/// A variable assignment at the start of a line: its name, and its value in the group of its
/// quoting (single, double, none).
pub const VARIABLE: &'static str =
    r#"(?m)^\s*([A-Za-z_][A-Za-z0-9_]*)=(?:'([^']*)'|"([^"]*)"|([^\s;|&<>`$()'"]*))"#;

/// A variable reference, `$NAME` or `${NAME}`: the part behind the dollar sign.
pub const REFERENCE: &'static str = r"\$([A-Za-z_][A-Za-z0-9_]*|\{[A-Za-z_][A-Za-z0-9_]*\})";

/// A single- or double-quoted string, with backslash escapes.
pub const QUOTED: &'static str = r#"(?:"(?:[^"\\]|\\.)*"|'(?:[^'\\]|\\.)*')"#;

/// A maintainer header in a comment: the maintainer.
pub const MAINTAINER: &'static str = r"(?i)#\s*Maintainer:\s*(.+?)\s*$";

/// The patterns of the scanner, each of which is a valid regular expression.
pub open spec fn is_scanner_pattern(p: Seq<char>) -> bool {
    p == ASSIGNMENT@ || p == VARIABLE@ || p == REFERENCE@ || p == QUOTED@ || p == MAINTAINER@
}

/// A stretch of a text, by the byte offsets of its start and its end.
pub type Span = (usize, usize);

/// Whether `span` can be cut out of `text`.
pub open spec fn span_fits(text: Seq<char>, span: Span) -> bool {
    let bytes = encode_utf8(text);
    &&& span.0 <= span.1 <= bytes.len()
    &&& is_char_boundary(bytes, span.0 as int)
    &&& is_char_boundary(bytes, span.1 as int)
}

/// Whether the spans lie in `text` one behind the other, without overlap.
pub open spec fn spans_in_order(text: Seq<char>, spans: Seq<Span>) -> bool {
    &&& forall|i: int| 0 <= i < spans.len() ==> span_fits(text, #[trigger] spans[i])
    &&& forall|i: int, j: int|
        0 <= i < j < spans.len() ==> (#[trigger] spans[i]).1 <= (#[trigger] spans[j]).0
}

/// Whether `span` covers a quoted string of `text`: it begins and ends with a quote.
pub open spec fn span_is_quoted(text: Seq<char>, span: Span) -> bool {
    let bytes = encode_utf8(text);
    &&& span.0 + 2 <= span.1
    &&& bytes[span.0 as int] == '"' as u8 || bytes[span.0 as int] == '\'' as u8
    &&& bytes[span.1 - 1] == bytes[span.0 as int]
}

/// Whether `span` begins with a dollar sign of `text`.
pub open spec fn span_begins_reference(text: Seq<char>, span: Span) -> bool {
    span.0 < span.1 && encode_utf8(text)[span.0 as int] == '$' as u8
}

/// The text of each capture group; none for a group that took no part.
pub open spec fn groups_view(groups: Option<Vec<Option<String>>>) -> Option<
    Seq<Option<Seq<char>>>,
> {
    match groups {
        Some(g) => Some(
            g@.map_values(
                |s: Option<String>|
                    match s {
                        Some(t) => Some(t@),
                        None => None::<Seq<char>>,
                    },
            ),
        ),
        None => None,
    }
}

/// The capture groups of the first match of `pattern` in `text`, the whole match first.
pub uninterp spec fn regex_captures(pattern: Seq<char>, text: Seq<char>) -> Option<
    Seq<Option<Seq<char>>>,
>;

/// The spans of the successive matches of `pattern` in `text`.
pub uninterp spec fn regex_find_spans(pattern: Seq<char>, text: Seq<char>) -> Seq<Span>;

/// The spans of the successive matches of `pattern` in `text`, each with the span of its
/// first capture group.
pub uninterp spec fn regex_group_spans(pattern: Seq<char>, text: Seq<char>) -> Seq<(Span, Span)>;

/// Calls `regex::Regex::captures` on each of the texts, with the pattern compiled once
/// (`regex::Regex::new` accepts every pattern of the scanner): the text of every group of the
/// first match in it, if there is one. The result for a text depends on the pattern and the text
/// alone; which match is the first, and what its groups hold, is left to the name.
#[verifier::external_body]
pub(crate) fn captures_each(pattern: &str, texts: &Vec<String>) -> (r: Vec<
    Option<Vec<Option<String>>>,
>)
    requires
        is_scanner_pattern(pattern@),
    ensures
        r@.len() == texts@.len(),
        forall|i: int|
            0 <= i < texts@.len() ==> groups_view(#[trigger] r@[i]) == regex_captures(
                pattern@,
                texts@[i]@,
            ),
{
    let re = regex::Regex::new(pattern).unwrap();
    let groups_of = |groups: regex::Captures| {
        groups.iter().map(|m| m.map(|m| m.as_str().to_string())).collect()
    };
    texts.iter().map(|text| re.captures(text).map(groups_of)).collect()
}

/// Calls `regex::Regex::find_iter` with the compiled pattern: where the successive matches lie.
/// They do not overlap, and they begin and end between characters. A match of `QUOTED` begins
/// and ends with the same quote. Which matches there are is left to the name.
#[verifier::external_body]
pub(crate) fn find_spans(pattern: &str, text: &str) -> (r: Vec<Span>)
    requires
        is_scanner_pattern(pattern@),
    ensures
        r@ == regex_find_spans(pattern@, text@),
        spans_in_order(text@, r@),
        pattern@ == QUOTED@ ==> forall|i: int|
            0 <= i < r@.len() ==> span_is_quoted(text@, #[trigger] r@[i]),
{
    let re = regex::Regex::new(pattern).unwrap();
    re.find_iter(text).map(|m| (m.start(), m.end())).collect()
}

/// Calls `regex::Regex::captures_iter` with the compiled form of the one pattern whose first
/// group takes part in every match: where the successive matches and their first groups lie. The
/// matches do not overlap, and matches and groups begin and end between characters. A match
/// begins with a dollar sign. Which matches there are is left to the name.
#[verifier::external_body]
pub(crate) fn group_spans(pattern: &str, text: &str) -> (r: Vec<(Span, Span)>)
    requires
        pattern@ == REFERENCE@,
    ensures
        r@ == regex_group_spans(pattern@, text@),
        spans_in_order(text@, r@.map_values(|m: (Span, Span)| m.0)),
        forall|i: int| 0 <= i < r@.len() ==> span_fits(text@, (#[trigger] r@[i]).1),
        forall|i: int| 0 <= i < r@.len() ==> span_begins_reference(text@, (#[trigger] r@[i]).0),
{
    let re = regex::Regex::new(pattern).unwrap();
    re.captures_iter(text).map(
        |groups| {
            let whole = groups.get(0).unwrap();
            let inner = groups.get(1).unwrap();
            ((whole.start(), whole.end()), (inner.start(), inner.end()))
        },
    ).collect()
}

// ---------------------------------------------------------------------------------------
// Cutting texts at byte offsets
// ---------------------------------------------------------------------------------------

/// The characters of `text` between two byte offsets.
pub open spec fn byte_slice(text: Seq<char>, from: int, to: int) -> Seq<char> {
    decode_utf8(encode_utf8(text).subrange(from, to))
}

/// The characters of `text` that `span` covers.
pub open spec fn span_text(text: Seq<char>, span: Span) -> Seq<char> {
    byte_slice(text, span.0 as int, span.1 as int)
}

/// Behind an ASCII character there is a character boundary.
pub proof fn lemma_boundary_behind_ascii(bytes: Seq<u8>, i: int)
    requires
        valid_utf8(bytes),
        0 <= i < bytes.len(),
        is_char_boundary(bytes, i),
        bytes[i] < 0x80,
    ensures
        is_char_boundary(bytes, i + 1),
    decreases bytes.len(),
{
    if i == 0 {
        reveal_with_fuel(is_char_boundary, 2);
    } else {
        let n = length_of_first_scalar(bytes);
        is_char_boundary_iff_not_is_continuation_byte(bytes, i);
        let rest = pop_first_scalar(bytes);
        assert(is_char_boundary(rest, i - n));
        if i < n {
            assert(is_continuation_byte(bytes[i]));
        }
        assert(rest[i - n] == bytes[i]);
        lemma_boundary_behind_ascii(rest, i - n);
    }
}

/// The encoding of two texts in a row is their encodings in a row.
pub proof fn lemma_encode_concat(a: Seq<char>, b: Seq<char>)
    ensures
        encode_utf8(a + b) == encode_utf8(a) + encode_utf8(b),
    decreases a.len(),
{
    if a.len() == 0 {
        assert(a + b == b);
    } else {
        assert((a + b).drop_first() == a.drop_first() + b);
        lemma_encode_concat(a.drop_first(), b);
    }
}

/// Cuts `text[from..to]`.
pub fn slice_text(text: &str, from: usize, to: usize) -> (r: &str)
    requires
        span_fits(text@, (from, to)),
    ensures
        r@ == byte_slice(text@, from as int, to as int),
        encode_utf8(r@) == encode_utf8(text@).subrange(from as int, to as int),
{
    let ghost bytes = encode_utf8(text@);
    proof {
        encode_utf8_valid_utf8(text@);
    }
    let head = text.split_at(to).0;
    proof {
        assert(encode_utf8(head@) == bytes.subrange(0, to as int));
        encode_utf8_valid_utf8(head@);
        if from < to {
            is_char_boundary_iff_not_is_continuation_byte(bytes, from as int);
            is_char_boundary_iff_not_is_continuation_byte(encode_utf8(head@), from as int);
        } else {
            is_char_boundary_start_end_of_seq(encode_utf8(head@));
        }
    }
    let r = head.split_at(from).1;
    proof {
        assert(encode_utf8(r@) == bytes.subrange(from as int, to as int));
        encode_utf8_decode_utf8(r@);
    }
    r
}

} // verus!
