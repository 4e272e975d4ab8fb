//! Quotes: merging adjacent quoted strings, and stripping what is left.

use crate::patterns::{
    byte_slice, find_spans, lemma_boundary_behind_ascii, lemma_encode_concat, regex_find_spans,
    slice_text, span_fits, span_is_quoted, spans_in_order, Span, QUOTED,
};
use vstd::prelude::*;
use vstd::utf8::*;

verus! {

// ---------------------------------------------------------------------------------------
// Adjacent quoted strings
// ---------------------------------------------------------------------------------------

/// Whether the span at `i` and the next one touch.
pub open spec fn touches_next(spans: Seq<Span>, i: int) -> bool {
    0 <= i && i + 1 < spans.len() && spans[i].1 == spans[i + 1].0
}

/// The index of the first span, from `i` on, that touches the next one.
pub open spec fn first_touching(spans: Seq<Span>, i: int) -> Option<int>
    decreases spans.len() - i,
{
    if i >= spans.len() {
        None
    } else if touches_next(spans, i) {
        Some(i)
    } else {
        first_touching(spans, i + 1)
    }
}

/// The index behind the run of touching spans that the span at `i` belongs to.
pub open spec fn run_end(spans: Seq<Span>, i: int) -> int
    decreases spans.len() - i,
{
    if touches_next(spans, i) {
        run_end(spans, i + 1)
    } else {
        i + 1
    }
}

/// The contents of the quoted strings `spans[from..to]`, in a row.
pub open spec fn quoted_contents(text: Seq<char>, spans: Seq<Span>, from: int, to: int) -> Seq<char>
    decreases to - from,
{
    if to <= from {
        seq![]
    } else {
        quoted_contents(text, spans, from, to - 1) + byte_slice(
            text,
            spans[to - 1].0 + 1,
            spans[to - 1].1 - 1,
        )
    }
}

/// `text` with the first run of two or more touching quoted strings replaced by their
/// contents, where there is such a run.
pub open spec fn first_run_merged(text: Seq<char>, spans: Seq<Span>) -> Option<Seq<char>> {
    match first_touching(spans, 0) {
        Some(k) => {
            let end = run_end(spans, k);
            Some(
                byte_slice(text, 0, spans[k].0 as int) + quoted_contents(text, spans, k, end)
                    + byte_slice(text, spans[end - 1].1 as int, encode_utf8(text).len() as int),
            )
        },
        None => None,
    }
}

/// `text` with run after run of touching quoted strings merged, as long as there is one. A merge
/// drops quotes, so the text gets shorter with each.
pub open spec fn flattened(text: Seq<char>) -> Seq<char>
    decreases encode_utf8(text).len(),
{
    match first_run_merged(text, regex_find_spans(QUOTED@, text)) {
        Some(m) => if encode_utf8(m).len() < encode_utf8(text).len() {
            flattened(m)
        } else {
            text
        },
        None => text,
    }
}

/// Flattening never lengthens a text, and one that it leaves as long as it was it leaves as it
/// was.
pub proof fn law_flattening_never_lengthens(text: Seq<char>)
    ensures
        encode_utf8(flattened(text)).len() <= encode_utf8(text).len(),
        encode_utf8(flattened(text)).len() == encode_utf8(text).len() ==> flattened(text) == text,
    decreases encode_utf8(text).len(),
{
    match first_run_merged(text, regex_find_spans(QUOTED@, text)) {
        Some(m) => {
            if encode_utf8(m).len() < encode_utf8(text).len() {
                law_flattening_never_lengthens(m);
            }
        },
        None => {},
    }
}

/// Whether every span covers a quoted string of `text`, one behind the other.
pub open spec fn are_quoted_spans(text: Seq<char>, spans: Seq<Span>) -> bool {
    &&& spans_in_order(text, spans)
    &&& forall|i: int| 0 <= i < spans.len() ==> span_is_quoted(text, #[trigger] spans[i])
}

proof fn lemma_run_end_bounds(spans: Seq<Span>, i: int)
    requires
        0 <= i < spans.len(),
    ensures
        i < run_end(spans, i) <= spans.len(),
    decreases spans.len() - i,
{
    if touches_next(spans, i) {
        lemma_run_end_bounds(spans, i + 1);
    }
}

proof fn lemma_inside_quotes_fits(text: Seq<char>, span: Span)
    requires
        span_fits(text, span),
        span_is_quoted(text, span),
    ensures
        span_fits(text, ((span.0 + 1) as usize, (span.1 - 1) as usize)),
{
    let bytes = encode_utf8(text);
    encode_utf8_valid_utf8(text);
    lemma_boundary_behind_ascii(bytes, span.0 as int);
    is_char_boundary_iff_not_is_continuation_byte(bytes, span.1 - 1);
}

/// The bytes that are no quotes.
spec fn bare_bytes(s: Seq<u8>) -> Seq<u8> {
    s.filter(|b: u8| b != '"' as u8 && b != '\'' as u8)
}

proof fn lemma_bare_concat(a: Seq<u8>, b: Seq<u8>)
    ensures
        bare_bytes(a + b) == bare_bytes(a) + bare_bytes(b),
{
    Seq::filter_distributes_over_add(a, b, |b: u8| b != '"' as u8 && b != '\'' as u8);
}

/// A quoted string and its contents are the same without quotes.
proof fn lemma_quotes_drop_out(bytes: Seq<u8>, from: int, to: int)
    requires
        0 <= from,
        from + 2 <= to <= bytes.len(),
        bytes[from] == '"' as u8 || bytes[from] == '\'' as u8,
        bytes[to - 1] == bytes[from],
    ensures
        bare_bytes(bytes.subrange(from, to)) == bare_bytes(bytes.subrange(from + 1, to - 1)),
{
    let open = bytes.subrange(from, from + 1);
    let inner = bytes.subrange(from + 1, to - 1);
    let close = bytes.subrange(to - 1, to);
    lemma_lone_quote(bytes[from]);
    assert(open =~= seq![bytes[from]]);
    assert(close =~= seq![bytes[from]]);
    assert(bytes.subrange(from, to) =~= open + inner + close);
    lemma_bare_concat(open + inner, close);
    lemma_bare_concat(open, inner);
    assert(bare_bytes(open) + bare_bytes(inner) + bare_bytes(close) =~= bare_bytes(inner));
}

proof fn lemma_lone_quote(b: u8)
    requires
        b == '"' as u8 || b == '\'' as u8,
    ensures
        bare_bytes(seq![b]) == Seq::<u8>::empty(),
{
    reveal_with_fuel(Seq::filter, 2);
    assert(seq![b].drop_last() =~= seq![]);
    assert(seq![b].last() == b);
}

proof fn lemma_bare_all(s: Seq<u8>)
    requires
        forall|i: int| 0 <= i < s.len() ==> #[trigger] s[i] != '"' as u8 && s[i] != '\'' as u8,
    ensures
        bare_bytes(s) == s,
    decreases s.len(),
{
    reveal(Seq::filter);
    if s.len() > 0 {
        lemma_bare_all(s.drop_last());
        assert(s.last() == s[s.len() - 1]);
        assert(s.drop_last().push(s.last()) =~= s);
    }
}

/// Quotes are dropped from the bytes of a text as they are from its characters: no byte of
/// another character looks like one.
proof fn lemma_bare_text(text: Seq<char>)
    ensures
        bare_bytes(encode_utf8(text)) == encode_utf8(without_quotes(text)),
    decreases text.len(),
{
    reveal_with_fuel(Seq::filter, 2);
    let keep = |c: char| !is_quote(c);
    if text.len() == 0 {
        assert(without_quotes(text) =~= seq![]);
        assert(encode_utf8(text) =~= seq![]);
        assert(bare_bytes(encode_utf8(text)) =~= seq![]);
    } else {
        let c = text[0];
        let one = seq![c];
        let rest = text.drop_first();
        lemma_bare_text(rest);
        assert(text =~= one + rest);
        lemma_encode_concat(one, rest);
        lemma_bare_concat(encode_utf8(one), encode_utf8(rest));
        Seq::filter_distributes_over_add(one, rest, keep);
        assert(one.drop_last() =~= seq![]);
        assert(one.last() == c);
        lemma_encode_concat(without_quotes(one), without_quotes(rest));
        lemma_bare_char(c);
        if is_quote(c) {
            assert(without_quotes(one) =~= seq![]);
            assert(encode_utf8(without_quotes(one)) =~= seq![]);
        } else {
            assert(without_quotes(one) =~= one);
        }
    }
}

proof fn lemma_bare_char(c: char)
    ensures
        bare_bytes(encode_utf8(seq![c])) == (if is_quote(c) {
            Seq::<u8>::empty()
        } else {
            encode_utf8(seq![c])
        }),
{
    let one = seq![c];
    let bytes = encode_utf8(one);
    if c <= '\u{7f}' {
        assert(is_ascii_chars(one));
        is_ascii_chars_encode_utf8(one);
        assert(one[0] as u8 == bytes[0]);
        assert(bytes =~= seq![c as u8]);
        if is_quote(c) {
            lemma_lone_quote(c as u8);
        } else {
            lemma_bare_all(bytes);
        }
    } else {
        lemma_no_ascii_byte(c);
        lemma_bare_all(bytes);
    }
}

proof fn lemma_no_ascii_byte(c: char)
    requires
        c > '\u{7f}',
    ensures
        forall|i: int|
            0 <= i < encode_utf8(seq![c]).len() ==> #[trigger] encode_utf8(seq![c])[i] >= 0x80,
{
    let one = seq![c];
    let bytes = encode_utf8(one);
    encode_utf8_first_scalar(one);
    assert(one.drop_first() =~= seq![]);
    assert(encode_utf8(one.drop_first()) =~= seq![]);
    let b = bytes[0];
    assert(b & 0x7f <= 0x7f) by (bit_vector);
}

/// Texts whose bytes are the same without quotes are the same without quotes.
proof fn lemma_same_without_quotes(a: Seq<char>, b: Seq<char>)
    requires
        bare_bytes(encode_utf8(a)) == bare_bytes(encode_utf8(b)),
    ensures
        without_quotes(a) == without_quotes(b),
{
    lemma_bare_text(a);
    lemma_bare_text(b);
    encode_utf8_decode_utf8(without_quotes(a));
    encode_utf8_decode_utf8(without_quotes(b));
}

/// Replaces the first run of two or more touching quoted strings by their contents. `spans`
/// are where the quoted strings of `text` lie.
pub fn merge_first_run(text: &str, spans: &Vec<Span>) -> (r: Option<String>)
    requires
        are_quoted_spans(text@, spans@),
    ensures
        match r {
            Some(m) => {
                &&& first_run_merged(text@, spans@) == Some(m@)
                &&& encode_utf8(m@).len() < encode_utf8(text@).len()
                &&& without_quotes(m@) == without_quotes(text@)
            },
            None => first_run_merged(text@, spans@) is None,
        },
{
    let n: usize = spans.len();
    let mut k: usize = 0;
    while k < n && !(k + 1 < n && spans[k].1 == spans[k + 1].0)
        invariant
            n == spans@.len(),
            k <= n,
            first_touching(spans@, 0) == first_touching(spans@, k as int),
        decreases n - k,
    {
        k = k + 1;
    }
    if k >= n {
        return None;
    }
    let ghost bytes = encode_utf8(text@);
    let ghost end = run_end(spans@, k as int);
    proof {
        encode_utf8_valid_utf8(text@);
        lemma_run_end_bounds(spans@, k as int);
        is_char_boundary_start_end_of_seq(bytes);
        assert(span_fits(text@, spans@[k as int]));
    }
    let mut out = String::new();
    out.append(slice_text(text, 0, spans[k].0));
    let ghost head = out@;
    let mut j: usize = k;
    let mut more: bool = true;
    while more
        invariant
            n == spans@.len(),
            are_quoted_spans(text@, spans@),
            k <= j <= n,
            more ==> j < n,
            more ==> run_end(spans@, j as int) == end,
            more && j > k ==> spans@[j as int].0 == spans@[j - 1].1,
            !more ==> j == end && j > k,
            out@ == head + quoted_contents(text@, spans@, k as int, j as int),
            j > k ==> encode_utf8(out@).len() + 2 * (j - k) == spans@[j - 1].1,
            j == k ==> encode_utf8(out@).len() == spans@[k as int].0,
            bytes == encode_utf8(text@),
            j == k ==> bare_bytes(encode_utf8(out@)) == bare_bytes(
                bytes.subrange(0, spans@[k as int].0 as int),
            ),
            j > k ==> bare_bytes(encode_utf8(out@)) == bare_bytes(
                bytes.subrange(0, spans@[j - 1].1 as int),
            ),
        decreases n - j,
    {
        let ghost from = spans@[j as int].0 as int;
        let ghost to = spans@[j as int].1 as int;
        proof {
            assert(span_fits(text@, spans@[j as int]));
            assert(span_is_quoted(text@, spans@[j as int]));
            lemma_inside_quotes_fits(text@, spans@[j as int]);
        }
        let inner = slice_text(text, spans[j].0 + 1, spans[j].1 - 1);
        proof {
            lemma_encode_concat(out@, inner@);
            lemma_bare_concat(encode_utf8(out@), encode_utf8(inner@));
            lemma_quotes_drop_out(bytes, from, to);
            lemma_bare_concat(bytes.subrange(0, from), bytes.subrange(from, to));
            assert(bytes.subrange(0, from) + bytes.subrange(from, to) =~= bytes.subrange(0, to));
        }
        out.append(inner);
        more = j + 1 < n && spans[j].1 == spans[j + 1].0;
        j = j + 1;
    }
    proof {
        assert(span_fits(text@, spans@[j - 1]));
    }
    let tail = slice_text(text, spans[j - 1].1, text.as_bytes().len());
    proof {
        let at = spans@[j - 1].1 as int;
        let rest = bytes.subrange(at, bytes.len() as int);
        lemma_encode_concat(out@, tail@);
        lemma_bare_concat(encode_utf8(out@), rest);
        lemma_bare_concat(bytes.subrange(0, at), rest);
        assert(bytes.subrange(0, at) + rest =~= bytes);
        lemma_same_without_quotes(out@ + tail@, text@);
    }
    out.append(tail);
    Some(out)
}

/// Merge adjacent quoted strings into their concatenated content.  `"b"'u''n'` becomes `bun`,
/// `'a'"d"'d'` becomes `add`.  Single isolated quoted strings and bare text are kept verbatim.
/// Nothing but quotes is lost.
pub fn flatten_adjacent_quotes(input: &str) -> (r: String)
    ensures
        r@ == flattened(input@),
        first_touching(regex_find_spans(QUOTED@, r@), 0) is None,
        without_quotes(r@) == without_quotes(input@),
        encode_utf8(r@).len() <= encode_utf8(input@).len(),
        encode_utf8(r@).len() == encode_utf8(input@).len() ==> r@ == input@,
{
    proof {
        law_flattening_never_lengthens(input@);
    }
    let mut result: String = input.to_owned();
    loop
        invariant
            flattened(result@) == flattened(input@),
            without_quotes(result@) == without_quotes(input@),
        ensures
            result@ == flattened(input@),
            first_touching(regex_find_spans(QUOTED@, result@), 0) is None,
        decreases encode_utf8(result@).len(),
    {
        let spans = find_spans(QUOTED, result.as_str());
        match merge_first_run(result.as_str(), &spans) {
            Some(merged) => {
                result = merged;
            },
            None => {
                break;
            },
        }
    }
    result
}

// ---------------------------------------------------------------------------------------
// Stripping
// ---------------------------------------------------------------------------------------

/// Whether `c` is a single or a double quote.
pub open spec fn is_quote(c: char) -> bool {
    c == '"' || c == '\''
}

/// The characters that are no quotes.
pub open spec fn without_quotes(s: Seq<char>) -> Seq<char> {
    s.filter(|c: char| !is_quote(c))
}

/// Strip all single and double quotes from text.  This runs after ANSI-C resolution and
/// adjacent-quote flattening so that bare characters between quoted segments coalesce
/// (e.g. `"a"d"d"` becomes `add`, `'c'"d"` becomes `cd`).  The original text is still scanned
/// verbatim by the rule engine, so stripping quotes in the deobfuscated copy cannot hide
/// information.
pub fn strip_quotes(input: &str) -> (r: String)
    ensures
        r@ == input@.filter(|c: char| !is_quote(c)),
{
    let mut out = String::new();
    let ghost keep = |c: char| !is_quote(c);
    proof {
        reveal(Seq::filter);
        assert(out@ =~= input@.take(0).filter(keep));
    }
    for c in it: input.chars()
        invariant
            it.seq() == input@,
            keep == (|c: char| !is_quote(c)),
            out@ == input@.take(it.index()).filter(keep),
    {
        proof {
            let i = it.index();
            reveal(Seq::filter);
            assert(input@.take(i + 1).drop_last() =~= input@.take(i));
            assert(input@.take(i + 1).last() == c);
        }
        if c != '"' && c != '\'' {
            out.push(c);
        }
    }
    proof {
        assert(input@.take(input@.len() as int) =~= input@);
    }
    out
}

} // verus!
