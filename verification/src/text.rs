//! Text as sequences of characters.
//!
//! Every function here works on the characters of a string and states its result over
//! `Seq<char>`, so that the rest of the library can speak of texts without their encoding.

use vstd::prelude::*;
use vstd::utf8::*;

verus! {

/// `String::push` appends one character.
pub assume_specification[ String::push ](s: &mut String, c: char)
    ensures
        final(s)@ == old(s)@.push(c),
;

/// The characters of `s`, in order.
pub fn chars_of(s: &str) -> (r: Vec<char>)
    ensures
        r@ == s@,
{
    let mut out: Vec<char> = Vec::new();
    for c in it: s.chars()
        invariant
            it.seq() == s@,
            out@ == s@.take(it.index()),
    {
        out.push(c);
    }
    out
}

/// The string made of `chars`.
pub fn text_of(chars: &[char]) -> (r: String)
    ensures
        r@ == chars@,
{
    let mut out = String::new();
    let n: usize = chars.len();
    for i in 0..n
        invariant
            n == chars@.len(),
            out@ == chars@.take(i as int),
    {
        out.push(chars[i]);
        assert(chars@.take(i + 1) == chars@.take(i as int).push(chars@[i as int]));
    }
    assert(chars@.take(n as int) == chars@);
    out
}

/// The lowercase letter of an ASCII capital, any other character itself.
pub open spec fn ascii_lower(c: char) -> char {
    if 'A' <= c <= 'Z' {
        (c as u32 + 32) as char
    } else {
        c
    }
}

/// What `str::to_lowercase` makes of a text: its Unicode lowercase.
pub uninterp spec fn unicode_lowercase(s: Seq<char>) -> Seq<char>;

/// `str::to_lowercase` depends on the text alone, and lowers an ASCII text letter by letter.
/// What it makes of other characters is left to its name.
pub assume_specification[ str::to_lowercase ](s: &str) -> (r: String)
    ensures
        r@ == unicode_lowercase(s@),
        is_ascii_chars(s@) ==> r@ == s@.map_values(|c: char| ascii_lower(c)),
;

// ---------------------------------------------------------------------------------------
// Searching
// ---------------------------------------------------------------------------------------

/// The index of the first `c` in `s`, from `i` on.
pub open spec fn find_char(s: Seq<char>, c: char, i: int) -> Option<int>
    decreases s.len() - i,
{
    if i >= s.len() {
        None
    } else if s[i] == c {
        Some(i)
    } else {
        find_char(s, c, i + 1)
    }
}

/// Where `find_char` stops.
pub proof fn lemma_find_char(s: Seq<char>, c: char, i: int, k: int)
    requires
        0 <= i <= k <= s.len(),
        forall|j: int| i <= j < k ==> s[j] != c,
    ensures
        find_char(s, c, i) == find_char(s, c, k),
        k < s.len() && s[k] == c ==> find_char(s, c, i) == Some(k),
        k == s.len() ==> find_char(s, c, i) is None,
    decreases k - i,
{
    if i < k {
        lemma_find_char(s, c, i + 1, k);
    }
}

/// Whether `needle` lies in `hay` at `i`.
pub open spec fn occurs_at(hay: Seq<char>, needle: Seq<char>, i: int) -> bool {
    0 <= i && i + needle.len() <= hay.len() && hay.subrange(i, i + needle.len()) == needle
}

/// Whether `needle` lies in `hay` anywhere.
pub open spec fn contains_text(hay: Seq<char>, needle: Seq<char>) -> bool {
    exists|i: int| occurs_at(hay, needle, i)
}

/// Whether `hay` begins with `needle`.
pub open spec fn starts_with(hay: Seq<char>, needle: Seq<char>) -> bool {
    occurs_at(hay, needle, 0)
}

/// Whether `needle` lies in `hay` at `i`.
pub fn text_occurs_at(hay: &[char], needle: &[char], i: usize) -> (r: bool)
    ensures
        r == occurs_at(hay@, needle@, i as int),
{
    if i > hay.len() || hay.len() - i < needle.len() {
        return false;
    }
    let n: usize = needle.len();
    let total: usize = hay.len();
    let ghost window = hay@.subrange(i as int, i + n);
    for j in 0..n
        invariant
            n == needle@.len(),
            i + n <= total == hay@.len(),
            window == hay@.subrange(i as int, i + n),
            forall|k: int| 0 <= k < j ==> window[k] == needle@[k],
    {
        if hay[i + j] != needle[j] {
            assert(window[j as int] != needle@[j as int]);
            return false;
        }
    }
    assert(window == needle@);
    true
}

/// Whether `needle` lies in `hay` anywhere.
pub fn text_contains(hay: &[char], needle: &[char]) -> (r: bool)
    ensures
        r == contains_text(hay@, needle@),
{
    let n: usize = hay.len();
    let mut i: usize = 0;
    while i < n
        invariant
            i <= n == hay@.len(),
            forall|k: int| 0 <= k < i ==> !occurs_at(hay@, needle@, k),
        decreases n - i,
    {
        if text_occurs_at(hay, needle, i) {
            return true;
        }
        i = i + 1;
    }
    let last = text_occurs_at(hay, needle, n);
    proof {
        if !last {
            assert forall|k: int| !occurs_at(hay@, needle@, k) by {}
        }
    }
    last
}

/// Whether `c` is one of the characters of `s`.
pub fn has_char(s: &str, c: char) -> (r: bool)
    ensures
        r == s@.contains(c),
{
    for d in it: s.chars()
        invariant
            it.seq() == s@,
            forall|k: int| 0 <= k < it.index() ==> s@[k] != c,
    {
        if d == c {
            assert(s@[it.index()] == c);
            return true;
        }
    }
    false
}

/// Whether two texts are the same.
pub fn same_text(a: &str, b: &str) -> (r: bool)
    ensures
        r == (a@ == b@),
{
    a.to_owned() == b.to_owned()
}

// ---------------------------------------------------------------------------------------
// Lines
// ---------------------------------------------------------------------------------------

/// A line without the carriage return before its newline.
pub open spec fn without_cr(s: Seq<char>) -> Seq<char> {
    if s.len() > 0 && s.last() == '\r' {
        s.drop_last()
    } else {
        s
    }
}

/// The lines of `s`: split at every newline, with a carriage return before it dropped too. The
/// newline of the last line is optional.
pub open spec fn lines(s: Seq<char>) -> Seq<Seq<char>>
    decreases s.len(),
{
    if s.len() == 0 {
        seq![]
    } else {
        match find_char(s, '\n', 0) {
            Some(i) => if 0 <= i < s.len() {
                seq![without_cr(s.take(i))] + lines(s.skip(i + 1))
            } else {
                seq![s]
            },
            None => seq![s],
        }
    }
}

/// The texts of strings.
pub open spec fn texts(v: Seq<String>) -> Seq<Seq<char>> {
    v.map_values(|s: String| s@)
}

/// A copy of the texts.
pub fn copy_texts(list: &Vec<String>) -> (r: Vec<String>)
    ensures
        texts(r@) == texts(list@),
{
    let r = list.clone();
    proof {
        assert(texts(r@) =~= texts(list@));
    }
    r
}

/// The lines of `s`.
pub fn lines_of(s: &str) -> (r: Vec<String>)
    ensures
        texts(r@) == lines(s@),
{
    let chars = chars_of(s);
    let n: usize = chars.len();
    let mut out: Vec<String> = Vec::new();
    let mut start: usize = 0;
    let mut i: usize = 0;
    proof {
        assert(s@.skip(0) == s@);
    }
    while i < n
        invariant
            n == chars@.len(),
            chars@ == s@,
            start <= i <= n,
            forall|j: int| start <= j < i ==> s@[j] != '\n',
            texts(out@) + lines(s@.skip(start as int)) == lines(s@),
        decreases n - i,
    {
        if chars[i] == '\n' {
            let end: usize = if i > start && chars[i - 1] == '\r' {
                i - 1
            } else {
                i
            };
            let line = text_of(vstd::slice::slice_subrange(chars.as_slice(), start, end));
            proof {
                let rest = s@.skip(start as int);
                assert forall|j: int| 0 <= j < i - start implies rest[j] != '\n' by {
                    assert(rest[j] == s@[start + j]);
                }
                lemma_find_char(rest, '\n', 0, i - start);
                assert(rest[i - start] == s@[i as int]);
                assert(without_cr(rest.take(i - start)) == line@);
                assert(rest.skip(i - start + 1) == s@.skip(i + 1));
                assert(texts(out@.push(line)) == texts(out@).push(line@));
                assert(texts(out@.push(line)) + lines(s@.skip(i + 1)) == texts(out@) + (seq![line@]
                    + lines(s@.skip(i + 1))));
            }
            out.push(line);
            start = i + 1;
        }
        i = i + 1;
    }
    if start < n {
        let line = text_of(vstd::slice::slice_subrange(chars.as_slice(), start, n));
        proof {
            let rest = s@.skip(start as int);
            assert forall|j: int| 0 <= j < n - start implies rest[j] != '\n' by {
                assert(rest[j] == s@[start + j]);
            }
            lemma_find_char(rest, '\n', 0, n - start);
            assert(line@ == rest);
            assert(texts(out@.push(line)) == texts(out@).push(line@));
            assert(texts(out@).push(line@) == texts(out@) + seq![line@]);
        }
        out.push(line);
    } else {
        proof {
            assert(texts(out@) + lines(s@.skip(start as int)) == texts(out@));
        }
    }
    out
}

// ---------------------------------------------------------------------------------------
// Trimming
// ---------------------------------------------------------------------------------------

/// The characters that a trim takes off.
#[derive(Clone, Copy)]
pub enum Class {
    /// Unicode white space.
    Space,
    /// Single and double quotes.
    Quote,
    /// `{`.
    OpenBrace,
    /// `}`.
    CloseBrace,
}

/// Whether `c` has the Unicode property `White_Space`.
pub open spec fn is_space(c: char) -> bool {
    ||| '\t' <= c <= '\r'
    ||| c == ' '
    ||| c == '\u{85}'
    ||| c == '\u{a0}'
    ||| c == '\u{1680}'
    ||| '\u{2000}' <= c <= '\u{200a}'
    ||| c == '\u{2028}'
    ||| c == '\u{2029}'
    ||| c == '\u{202f}'
    ||| c == '\u{205f}'
    ||| c == '\u{3000}'
}

impl Class {
    /// Whether `c` is of this class.
    pub open spec fn has(self, c: char) -> bool {
        match self {
            Class::Space => is_space(c),
            Class::Quote => c == '"' || c == '\'',
            Class::OpenBrace => c == '{',
            Class::CloseBrace => c == '}',
        }
    }

    /// Whether `c` is of this class.
    pub fn contains(self, c: char) -> (r: bool)
        ensures
            r == self.has(c),
    {
        match self {
            Class::Space => ('\t' <= c && c <= '\r') || c == ' ' || c == '\u{85}' || c == '\u{a0}'
                || c == '\u{1680}' || ('\u{2000}' <= c && c <= '\u{200a}') || c == '\u{2028}' || c
                == '\u{2029}' || c == '\u{202f}' || c == '\u{205f}' || c == '\u{3000}',
            Class::Quote => c == '"' || c == '\'',
            Class::OpenBrace => c == '{',
            Class::CloseBrace => c == '}',
        }
    }
}

/// `s` without the characters of the class that it begins with.
pub open spec fn trim_start(s: Seq<char>, class: Class) -> Seq<char>
    decreases s.len(),
{
    if s.len() > 0 && class.has(s[0]) {
        trim_start(s.skip(1), class)
    } else {
        s
    }
}

/// `s` without the characters of the class that it ends with.
pub open spec fn trim_end(s: Seq<char>, class: Class) -> Seq<char>
    decreases s.len(),
{
    if s.len() > 0 && class.has(s.last()) {
        trim_end(s.drop_last(), class)
    } else {
        s
    }
}

/// `s` without the characters of the class at either end.
pub open spec fn trim(s: Seq<char>, class: Class) -> Seq<char> {
    trim_end(trim_start(s, class), class)
}

/// Takes the characters of the class off the start of `s`.
pub fn trimmed_start(s: &str, class: Class) -> (r: String)
    ensures
        r@ == trim_start(s@, class),
{
    let chars = chars_of(s);
    let n: usize = chars.len();
    let mut i: usize = 0;
    proof {
        assert(s@.skip(0) == s@);
    }
    while i < n && class.contains(chars[i])
        invariant
            n == chars@.len(),
            chars@ == s@,
            i <= n,
            trim_start(s@.skip(i as int), class) == trim_start(s@, class),
        decreases n - i,
    {
        proof {
            assert(s@.skip(i as int).skip(1) == s@.skip(i + 1));
        }
        i = i + 1;
    }
    let r = text_of(vstd::slice::slice_subrange(chars.as_slice(), i, n));
    proof {
        assert(r@ == s@.skip(i as int));
    }
    r
}

/// Takes the characters of the class off the end of `s`.
pub fn trimmed_end(s: &str, class: Class) -> (r: String)
    ensures
        r@ == trim_end(s@, class),
{
    let chars = chars_of(s);
    let mut n: usize = chars.len();
    proof {
        assert(s@.take(n as int) == s@);
    }
    while n > 0 && class.contains(chars[n - 1])
        invariant
            chars@ == s@,
            n <= chars@.len(),
            trim_end(s@.take(n as int), class) == trim_end(s@, class),
        decreases n,
    {
        proof {
            assert(s@.take(n as int).drop_last() == s@.take(n - 1));
        }
        n = n - 1;
    }
    let r = text_of(vstd::slice::slice_subrange(chars.as_slice(), 0, n));
    proof {
        assert(r@ == s@.take(n as int));
    }
    r
}

/// Takes the characters of the class off both ends of `s`.
pub fn trimmed(s: &str, class: Class) -> (r: String)
    ensures
        r@ == trim(s@, class),
{
    trimmed_end(trimmed_start(s, class).as_str(), class)
}

// ---------------------------------------------------------------------------------------
// Composing
// ---------------------------------------------------------------------------------------

/// `s` with every `from` replaced by `to`, left to right.
pub open spec fn replaced(s: Seq<char>, from: Seq<char>, to: Seq<char>) -> Seq<char>
    decreases s.len(),
{
    if s.len() == 0 || from.len() == 0 {
        s
    } else if starts_with(s, from) {
        to + replaced(s.skip(from.len() as int), from, to)
    } else {
        seq![s[0]] + replaced(s.skip(1), from, to)
    }
}

/// Replaces every `from` in `s` by `to`, left to right.
pub fn replace_text(s: &str, from: &str, to: &str) -> (r: String)
    requires
        from@.len() > 0,
    ensures
        r@ == replaced(s@, from@, to@),
{
    let chars = chars_of(s);
    let needle = chars_of(from);
    let n: usize = chars.len();
    let mut out = String::new();
    let mut i: usize = 0;
    proof {
        assert(s@.skip(0) == s@);
    }
    while i < n
        invariant
            n == chars@.len(),
            chars@ == s@,
            needle@ == from@,
            from@.len() > 0,
            i <= n,
            out@ + replaced(s@.skip(i as int), from@, to@) == replaced(s@, from@, to@),
        decreases n - i,
    {
        let ghost rest = s@.skip(i as int);
        proof {
            if i + from@.len() <= n {
                assert(rest.subrange(0, from@.len() as int) == s@.subrange(
                    i as int,
                    i + from@.len(),
                ));
            }
        }
        if text_occurs_at(chars.as_slice(), needle.as_slice(), i) {
            proof {
                assert(starts_with(rest, from@));
                assert(rest.skip(from@.len() as int) == s@.skip(i + from@.len()));
                assert(out@ + (to@ + replaced(rest.skip(from@.len() as int), from@, to@)) == (out@
                    + to@) + replaced(rest.skip(from@.len() as int), from@, to@));
            }
            out.append(to);
            i = i + needle.len();
        } else {
            proof {
                assert(!starts_with(rest, from@));
                assert(rest.skip(1) == s@.skip(i + 1));
                assert(out@ + (seq![rest[0]] + replaced(rest.skip(1), from@, to@)) == out@.push(
                    rest[0],
                ) + replaced(rest.skip(1), from@, to@));
            }
            out.push(chars[i]);
            i = i + 1;
        }
    }
    proof {
        assert(out@ + replaced(s@.skip(i as int), from@, to@) == out@);
    }
    out
}

/// The texts in a row, with `sep` between each two.
pub open spec fn joined(list: Seq<Seq<char>>, sep: Seq<char>) -> Seq<char>
    decreases list.len(),
{
    if list.len() == 0 {
        seq![]
    } else if list.len() == 1 {
        list[0]
    } else {
        joined(list.drop_last(), sep) + sep + list.last()
    }
}

/// Joins the texts, with `sep` between each two.
pub fn join_texts(list: &Vec<String>, sep: &str) -> (r: String)
    ensures
        r@ == joined(texts(list@), sep@),
{
    let n: usize = list.len();
    let ghost all = texts(list@);
    let mut out = String::new();
    for i in 0..n
        invariant
            n == list@.len(),
            all == texts(list@),
            out@ == joined(all.take(i as int), sep@),
    {
        proof {
            assert(all.take(i + 1).drop_last() == all.take(i as int));
            assert(all.take(i + 1).last() == list@[i as int]@);
        }
        if i > 0 {
            out.append(sep);
        }
        out.append(list[i].as_str());
        proof {
            if i == 0 {
                assert(out@ == list@[0]@);
            }
        }
    }
    proof {
        assert(all.take(n as int) == all);
    }
    out
}

/// The decimal digits of `n`.
pub open spec fn decimal(n: nat) -> Seq<char>
    decreases n,
{
    let digit = (('0' as u32) + n % 10) as char;
    if n < 10 {
        seq![digit]
    } else {
        decimal(n / 10).push(digit)
    }
}

/// Writes `n` in decimal.
pub fn decimal_of(n: u64) -> (r: String)
    ensures
        r@ == decimal(n as nat),
    decreases n,
{
    let digit: char = (48u8 + (n % 10) as u8) as char;
    let mut out: String = if n < 10 {
        String::new()
    } else {
        decimal_of(n / 10)
    };
    out.push(digit);
    out
}

/// The text that a string may hold.
pub open spec fn opt_text(s: Option<String>) -> Option<Seq<char>> {
    match s {
        Some(t) => Some(t@),
        None => None,
    }
}

} // verus!
