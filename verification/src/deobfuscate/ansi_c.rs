//! ANSI-C `$'...'` quoting.

use crate::text::chars_of;
use vstd::prelude::*;

verus! {

/// The value of an ASCII hexadecimal digit.
pub open spec fn hex_value(c: char) -> Option<int> {
    if '0' <= c <= '9' {
        Some(c as int - '0' as int)
    } else if 'A' <= c <= 'F' {
        Some(c as int - 'A' as int + 10)
    } else if 'a' <= c <= 'f' {
        Some(c as int - 'a' as int + 10)
    } else {
        None
    }
}

/// The value of an ASCII octal digit.
pub open spec fn octal_value(c: char) -> Option<int> {
    if '0' <= c <= '7' {
        Some(c as int - '0' as int)
    } else {
        None
    }
}

/// The value of `c` as a digit of the given base: 16, or else 8.
pub open spec fn digit_value(base: int, c: char) -> Option<int> {
    if base == 16 {
        hex_value(c)
    } else {
        octal_value(c)
    }
}

/// How many digits of the given base `s` begins with, counting at most `limit`.
pub open spec fn digit_run(base: int, s: Seq<char>, limit: nat) -> nat
    decreases limit,
{
    if limit == 0 || s.len() == 0 || digit_value(base, s[0]) is None {
        0
    } else {
        1 + digit_run(base, s.skip(1), (limit - 1) as nat)
    }
}

/// The number that the digits `s` write down in the given base.
pub open spec fn digits_value(base: int, s: Seq<char>) -> int
    decreases s.len(),
{
    if s.len() == 0 {
        0
    } else {
        digits_value(base, s.drop_last()) * base + digit_value(base, s.last()).unwrap()
    }
}

/// The character that a control escape `\cX` stands for.
pub open spec fn control_char(c: char) -> char {
    if 'a' <= c <= 'z' {
        (c as int - 'a' as int + 1) as char
    } else if 'A' <= c <= 'Z' {
        (c as int - 'A' as int + 1) as char
    } else if c == '?' {
        '\x7f'
    } else {
        c
    }
}

/// How many digits an octal escape may have: three, and one more behind a leading zero.
pub open spec fn octal_limit(first: char) -> nat {
    if first == '0' {
        4
    } else {
        3
    }
}

/// One ANSI-C escape: the character that the text behind a backslash stands for, and how many
/// characters of it belong to the escape.
pub open spec fn escape(tail: Seq<char>) -> (char, nat) {
    let c = tail[0];
    if tail.len() == 0 {
        ('\\', 0)
    } else if c == 'x' || c == 'X' {
        let n = digit_run(16, tail.skip(1), 2);
        if n == 0 {
            ('x', 0)
        } else {
            (digits_value(16, tail.subrange(1, 1 + n as int)) as char, 1 + n)
        }
    } else if octal_value(tail[0]) is Some {
        let n = digit_run(8, tail, octal_limit(tail[0]));
        ((digits_value(8, tail.take(n as int)) % 256) as char, n)
    } else if c == 'n' {
        ('\n', 1)
    } else if c == 't' {
        ('\t', 1)
    } else if c == 'r' {
        ('\r', 1)
    } else if c == 'a' {
        ('\x07', 1)
    } else if c == 'b' {
        ('\x08', 1)
    } else if c == 'e' || c == 'E' {
        ('\x1b', 1)
    } else if c == 'f' {
        ('\x0c', 1)
    } else if c == 'v' {
        ('\x0b', 1)
    } else if c == 'c' {
        if tail.len() >= 2 {
            (control_char(tail[1]), 2)
        } else {
            ('c', 0)
        }
    } else {
        (c, 1)
    }
}

proof fn lemma_digit_run_bounds(base: int, s: Seq<char>, limit: nat)
    ensures
        digit_run(base, s, limit) <= limit,
        digit_run(base, s, limit) <= s.len(),
        forall|i: int|
            0 <= i < digit_run(base, s, limit) ==> digit_value(base, #[trigger] s[i]) is Some,
    decreases limit,
{
    if limit == 0 || s.len() == 0 || digit_value(base, s[0]) is None {
    } else {
        lemma_digit_run_bounds(base, s.skip(1), (limit - 1) as nat);
        assert forall|i: int| 0 <= i < digit_run(base, s, limit) implies digit_value(
            base,
            #[trigger] s[i],
        ) is Some by {
            if i > 0 {
                assert(s[i] == s.skip(1)[i - 1]);
            }
        }
    }
}

/// The run ends where the limit is reached, the text ends, or a character is no digit.
pub proof fn lemma_digit_run_is(base: int, s: Seq<char>, limit: nat, n: nat)
    requires
        n <= limit,
        n <= s.len(),
        forall|i: int| 0 <= i < n ==> digit_value(base, #[trigger] s[i]) is Some,
        n == limit || n == s.len() || digit_value(base, s[n as int]) is None,
    ensures
        digit_run(base, s, limit) == n,
    decreases limit,
{
    if n > 0 {
        let rest = s.skip(1);
        assert forall|i: int| 0 <= i < n - 1 implies digit_value(
            base,
            #[trigger] rest[i],
        ) is Some by {
            assert(rest[i] == s[i + 1]);
        }
        lemma_digit_run_is(base, rest, (limit - 1) as nat, (n - 1) as nat);
    }
}

/// An escape never reaches past the text it is read from.
pub proof fn lemma_escape_fits(tail: Seq<char>)
    ensures
        escape(tail).1 <= tail.len(),
{
    if tail.len() > 0 {
        lemma_digit_run_bounds(16, tail.skip(1), 2);
        lemma_digit_run_bounds(8, tail, octal_limit(tail[0]));
    }
}

/// Reads the digits that `tail` begins with from `start` on, at most `limit` of them: their
/// number, and the value they write down.
fn read_digits(base: u16, tail: &[char], start: usize, limit: usize) -> (r: (usize, u16))
    requires
        base == 16 || base == 8,
        start <= tail@.len(),
        base == 16 ==> limit <= 2,
        base == 8 ==> limit <= 4,
    ensures
        r.0 == digit_run(base as int, tail@.skip(start as int), limit as nat),
        r.0 <= tail@.len() - start,
        r.1 == digits_value(base as int, tail@.subrange(start as int, start + r.0)),
        r.0 == 0 ==> r.1 == 0,
        base == 16 ==> r.1 < 256,
{
    let ghost s = tail@.skip(start as int);
    let mut n: usize = 0;
    let mut val: u16 = 0;
    while n < limit && n < tail.len() - start && digit_of(base, tail[start + n]).is_some()
        invariant
            base == 16 || base == 8,
            base == 16 ==> limit <= 2,
            base == 8 ==> limit <= 4,
            n <= limit,
            start + n <= tail@.len(),
            s == tail@.skip(start as int),
            forall|i: int| 0 <= i < n ==> digit_value(base as int, #[trigger] s[i]) is Some,
            val == digits_value(base as int, tail@.subrange(start as int, start + n)),
            n == 0 ==> val == 0,
            n == 1 ==> val < base,
            n == 2 ==> val < base * base,
            n == 3 ==> val < 512,
            n == 4 ==> val < 4096,
        decreases limit - n,
    {
        let d: u16 = match digit_of(base, tail[start + n]) {
            Some(d) => d,
            None => 0,
        };
        proof {
            let t = tail@.subrange(start as int, start + n + 1);
            assert(t.drop_last() == tail@.subrange(start as int, start + n));
            assert(s[n as int] == tail@[start + n]);
            assert(val * base + d == (if base == 16 { val * 16 + d } else { val * 8 + d }));
        }
        val = val * base + d;
        n = n + 1;
    }
    proof {
        if start + n < tail@.len() {
            assert(s[n as int] == tail@[start + n]);
        }
        lemma_digit_run_is(base as int, s, limit as nat, n as nat);
    }
    (n, val)
}

/// The value of one digit.
fn digit_of(base: u16, c: char) -> (r: Option<u16>)
    requires
        base == 16 || base == 8,
    ensures
        match digit_value(base as int, c) {
            Some(v) => r == Some(v as u16) && 0 <= v < base,
            None => r is None,
        },
{
    if c >= '0' && c <= '7' {
        Some((c as u32 - '0' as u32) as u16)
    } else if base == 16 && c >= '8' && c <= '9' {
        Some((c as u32 - '0' as u32) as u16)
    } else if base == 16 && c >= 'A' && c <= 'F' {
        Some((c as u32 - 'A' as u32 + 10) as u16)
    } else if base == 16 && c >= 'a' && c <= 'f' {
        Some((c as u32 - 'a' as u32 + 10) as u16)
    } else {
        None
    }
}

/// Reads one ANSI-C escape from the text behind its backslash: the character that it stands for,
/// and how many characters belong to it.
pub fn read_escape(tail: &[char]) -> (r: (char, usize))
    ensures
        r.0 == escape(tail@).0,
        r.1 == escape(tail@).1,
        r.1 <= tail@.len(),
{
    proof {
        lemma_escape_fits(tail@);
    }
    if tail.len() == 0 {
        return ('\\', 0);
    }
    let c: char = tail[0];
    match c {
        'x' | 'X' => {
            let (n, val) = read_digits(16, tail, 1, 2);
            if n == 0 {
                ('x', 0)
            } else {
                (val as u8 as char, 1 + n)
            }
        },
        '0'..='7' => {
            let limit: usize = if c == '0' {
                4
            } else {
                3
            };
            let (n, val) = read_digits(8, tail, 0, limit);
            proof {
                assert(tail@.skip(0) == tail@);
                assert(tail@.subrange(0, n as int) == tail@.take(n as int));
            }
            ((val % 256) as u8 as char, n)
        },
        'n' => ('\n', 1),
        't' => ('\t', 1),
        'r' => ('\r', 1),
        'a' => ('\x07', 1),
        'b' => ('\x08', 1),
        'e' | 'E' => ('\x1b', 1),
        'f' => ('\x0c', 1),
        'v' => ('\x0b', 1),
        'c' => {
            if tail.len() >= 2 {
                let ctrl: char = tail[1];
                let val: char = match ctrl {
                    'a'..='z' => (ctrl as u32 - 'a' as u32 + 1) as u8 as char,
                    'A'..='Z' => (ctrl as u32 - 'A' as u32 + 1) as u8 as char,
                    '?' => '\x7f',
                    _ => ctrl,
                };
                (val, 2)
            } else {
                ('c', 0)
            }
        },
        _ => (c, 1),
    }
}

/// The bytes as characters, each of the value of its byte.
pub open spec fn as_chars(s: Seq<u8>) -> Seq<char> {
    s.map_values(|b: u8| b as char)
}

/// Resolve one ANSI-C escape sequence (the characters *after* the backslash).
/// Returns the decoded character and how many bytes were consumed.
pub fn ansi_c_escape(tail: &[u8]) -> (r: (char, usize))
    ensures
        r.0 == escape(as_chars(tail@)).0,
        r.1 == escape(as_chars(tail@)).1,
        r.1 <= tail@.len(),
{
    let n: usize = tail.len();
    let mut chars: Vec<char> = Vec::new();
    for i in 0..n
        invariant
            n == tail@.len(),
            chars@ == as_chars(tail@).take(i as int),
    {
        chars.push(tail[i] as char);
        assert(as_chars(tail@).take(i + 1) =~= as_chars(tail@).take(i as int).push(
            tail@[i as int] as char,
        ));
    }
    assert(as_chars(tail@).take(n as int) =~= as_chars(tail@));
    read_escape(chars.as_slice())
}

// ---------------------------------------------------------------------------------------
// Strings
// ---------------------------------------------------------------------------------------

/// The inside of an ANSI-C string, from behind its opening quote: the resolved characters,
/// and how many characters they take with the closing quote, where there is one.
pub open spec fn quoted_body(s: Seq<char>) -> (Seq<char>, nat)
    decreases s.len(),
{
    if s.len() == 0 {
        (seq![], 0)
    } else if s[0] == '\\' && s.len() > 1 {
        let (c, used) = escape(s.skip(1));
        proof {
            lemma_escape_fits(s.skip(1));
        }
        let rest = quoted_body(s.skip(1 + used as int));
        (seq![c] + rest.0, 1 + used + rest.1)
    } else if s[0] == '\'' {
        (seq![], 1)
    } else {
        let rest = quoted_body(s.skip(1));
        (seq![s[0]] + rest.0, 1 + rest.1)
    }
}

/// Resolved content in single quotes; nothing where there is no content.
pub open spec fn requoted(content: Seq<char>) -> Seq<char> {
    if content.len() == 0 {
        seq![]
    } else {
        seq!['\''] + content + seq!['\'']
    }
}

/// Whether an ANSI-C string opens at the head of `s`: `$'`, and at least one character more.
pub open spec fn opens_ansi_c(s: Seq<char>) -> bool {
    s.len() > 2 && s[0] == '$' && s[1] == '\''
}

/// The text `s` with every ANSI-C string resolved; the characters outside one stay as they are.
pub open spec fn ansi_c_resolved(s: Seq<char>) -> Seq<char>
    decreases s.len(),
{
    if s.len() == 0 {
        seq![]
    } else if opens_ansi_c(s) {
        let (content, used) = quoted_body(s.skip(2));
        proof {
            lemma_quoted_body_fits(s.skip(2));
        }
        requoted(content) + ansi_c_resolved(s.skip(2 + used as int))
    } else {
        seq![s[0]] + ansi_c_resolved(s.skip(1))
    }
}

/// The inside of an ANSI-C string never reaches past the text it is read from.
pub proof fn lemma_quoted_body_fits(s: Seq<char>)
    ensures
        quoted_body(s).1 <= s.len(),
    decreases s.len(),
{
    if s.len() == 0 {
    } else if s[0] == '\\' && s.len() > 1 {
        lemma_escape_fits(s.skip(1));
        lemma_quoted_body_fits(s.skip(1 + escape(s.skip(1)).1 as int));
    } else if s[0] == '\'' {
    } else {
        lemma_quoted_body_fits(s.skip(1));
    }
}

/// Reads the inside of an ANSI-C string that begins at `start`: the resolved characters, and
/// the index behind the closing quote or the end of the text.
fn read_quoted_body(chars: &[char], start: usize) -> (r: (String, usize))
    requires
        start <= chars@.len(),
    ensures
        r.0@ == quoted_body(chars@.skip(start as int)).0,
        r.1 == start + quoted_body(chars@.skip(start as int)).1,
        start <= r.1 <= chars@.len(),
{
    let ghost whole = quoted_body(chars@.skip(start as int));
    let mut resolved = String::new();
    let mut j: usize = start;
    while j < chars.len()
        invariant
            start <= j <= chars@.len(),
            whole == quoted_body(chars@.skip(start as int)),
            resolved@ + quoted_body(chars@.skip(j as int)).0 == whole.0,
            j + quoted_body(chars@.skip(j as int)).1 == start + whole.1,
        decreases chars@.len() - j,
    {
        let ghost s = chars@.skip(j as int);
        proof {
            assert(s[0] == chars@[j as int]);
        }
        if chars[j] == '\\' && j + 1 < chars.len() {
            let tail = vstd::slice::slice_subrange(chars, j + 1, chars.len());
            let (c, used) = read_escape(tail);
            proof {
                assert(tail@ == s.skip(1));
                assert(s.skip(1 + used as int) == chars@.skip(j + 1 + used));
            }
            resolved.push(c);
            j = j + 1 + used;
        } else if chars[j] == '\'' {
            return (resolved, j + 1);
        } else {
            proof {
                assert(s.skip(1) == chars@.skip(j + 1));
            }
            resolved.push(chars[j]);
            j = j + 1;
        }
    }
    (resolved, j)
}

/// Resolve ANSI-C `$'...'` quoting: hex (`\xNN`), octal (`\NNN`/`\0NNN`), and standard
/// escapes (`\n`, `\t`, `\\`, `\'`, etc.).  The resolved content is wrapped in single quotes
/// so the adjacent-quote flattening pass can merge it with neighbouring quoted strings
/// (e.g. `$'\x63'"d"` becomes `'c'"d"`, then `cd`).
pub fn resolve_ansi_c(input: &str) -> (r: String)
    ensures
        r@ == ansi_c_resolved(input@),
{
    let mut out = String::new();
    let chars = chars_of(input);
    let ghost whole = ansi_c_resolved(chars@);
    let mut i: usize = 0;
    proof {
        assert(chars@.skip(0) == chars@);
    }
    while i < chars.len()
        invariant
            i <= chars@.len(),
            whole == ansi_c_resolved(chars@),
            out@ + ansi_c_resolved(chars@.skip(i as int)) == whole,
        decreases chars@.len() - i,
    {
        let ghost s = chars@.skip(i as int);
        proof {
            assert(s[0] == chars@[i as int]);
        }
        if chars[i] == '$' && chars.len() - i > 2 && chars[i + 1] == '\'' {
            let (resolved, end) = read_quoted_body(chars.as_slice(), i + 2);
            proof {
                assert(s[1] == chars@[i + 1]);
                assert(s.skip(2) == chars@.skip(i + 2));
                lemma_quoted_body_fits(s.skip(2));
                assert(s.skip(end - i) == chars@.skip(end as int));
            }
            let ghost before = out@;
            if !resolved.as_str().is_empty() {
                out.push('\'');
                out.append(resolved.as_str());
                out.push('\'');
            }
            proof {
                assert(out@ == before + requoted(resolved@));
            }
            i = end;
        } else {
            proof {
                if s.len() > 2 {
                    assert(s[1] == chars@[i + 1]);
                }
                assert(s.skip(1) == chars@.skip(i + 1));
            }
            out.push(chars[i]);
            i = i + 1;
        }
    }
    out
}

} // verus!
