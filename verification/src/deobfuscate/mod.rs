//! Shell string deobfuscation.
//!
//! Resolve ANSI-C `$'...'` quoting (hex, octal, and standard escapes) and adjacent
//! quoted-token concatenation, so the rule engine can see through character-level
//! obfuscation that hides commands from line-based regexes.
//!
//! This is purely static string resolution: no shell execution, no process spawning, no
//! evaluation of the package content.

pub mod ansi_c;
pub mod expansion;
pub mod laws;
pub mod quotes;
pub mod spelling;
pub mod variables;

pub use ansi_c::{ansi_c_escape, resolve_ansi_c};
pub use quotes::{flatten_adjacent_quotes, strip_quotes};
pub use variables::{resolve_variables, track_assignments};

use crate::laws::deobfuscation::{law_lines_of_the_deobfuscated_text, resolved_lines};
use crate::laws::text::fits_on_a_line;
use crate::text::{ascii_lower, lines, lines_of, same_text, texts};
use ansi_c::ansi_c_resolved;
use expansion::{has_no_reference, surely_settles, values_are_final};
use quotes::without_quotes;
use variables::{
    assignments, references_settle, resolved, settles, settles_within, value_texts,
};
use vstd::prelude::*;
use vstd::utf8::*;

verus! {

/// Whether normalization keeps `c`: printable ASCII, tab and newline.
pub open spec fn is_kept(c: char) -> bool {
    c == '\n' || c == '\t' || ' ' <= c <= '~'
}

/// The kept characters in lowercase.
pub open spec fn normalized(s: Seq<char>) -> Seq<char> {
    s.filter(|c: char| is_kept(c)).map_values(|c: char| ascii_lower(c))
}

/// Strip null bytes and non-printable characters, then lowercase.  Whitespace and structural
/// punctuation are preserved so paths like `/usr/lib/systemd/systemd-foo` do not collapse
/// into command-shaped blobs that would match rule engine patterns.
pub fn normalize_case_and_bytes(input: &str) -> (r: String)
    ensures
        r@ == normalized(input@),
{
    let mut kept = String::new();
    let ghost keep = |c: char| is_kept(c);
    for c in it: input.chars()
        invariant
            it.seq() == input@,
            keep == (|c: char| is_kept(c)),
            kept@ == input@.take(it.index()).filter(keep),
            is_ascii_chars(kept@),
    {
        proof {
            let t = input@.take(it.index() + 1);
            assert(t.drop_last() == input@.take(it.index()));
            assert(t.last() == c);
            reveal(Seq::filter);
        }
        if c == '\n' || c == '\t' || (' ' <= c && c <= '~') {
            kept.push(c);
        }
    }
    proof {
        assert(input@.take(input@.len() as int) == input@);
    }
    kept.as_str().to_lowercase()
}

// ---------------------------------------------------------------------------------------
// The pipeline
// ---------------------------------------------------------------------------------------

/// A line with its quoting undone and its characters normalized. Merging adjacent quoted strings
/// leaves no trace in it: that drops nothing but quotes.
pub open spec fn literal_form(line: Seq<char>) -> Seq<char> {
    normalized(without_quotes(ansi_c_resolved(line)))
}

/// A line as it reads once its quoting and its references are resolved.
pub open spec fn plain_form(line: Seq<char>, vars: Map<Seq<char>, Seq<char>>) -> Seq<char> {
    resolved(literal_form(line), vars)
}

/// Whether deobfuscation changes a line.
pub open spec fn line_changes(line: Seq<char>, vars: Map<Seq<char>, Seq<char>>) -> bool {
    ansi_c_resolved(line) != line || plain_form(line, vars) != line
}

/// The plain forms of the lines, a newline before each one that has text before it.
pub open spec fn plain_text(
    lines: Seq<Seq<char>>,
    vars: Map<Seq<char>, Seq<char>>,
) -> Seq<char>
    decreases lines.len(),
{
    if lines.len() == 0 {
        seq![]
    } else {
        let before = plain_text(lines.drop_last(), vars);
        let gap = if before.len() == 0 {
            seq![]
        } else {
            seq!['\n']
        };
        before + gap + plain_form(lines.last(), vars)
    }
}

/// The deobfuscated text, where deobfuscation changes any line.
pub open spec fn deobfuscated(text: Seq<char>) -> Option<Seq<char>> {
    let vars = assignments(lines(text));
    if exists|i: int| 0 <= i < lines(text).len() && line_changes(#[trigger] lines(text)[i], vars) {
        Some(plain_text(lines(text), vars))
    } else {
        None
    }
}

/// Whether the references on every line of `text` come to an end.
pub open spec fn text_settles(text: Seq<char>) -> bool {
    forall|i: int|
        0 <= i < lines(text).len() ==> settles(
            literal_form(#[trigger] lines(text)[i]),
            assignments(lines(text)),
        )
}

/// Whether the references on every line of `text` come to an end after at most `rounds` rounds.
pub open spec fn text_settles_within(text: Seq<char>, rounds: nat) -> bool {
    forall|i: int|
        0 <= i < lines(text).len() ==> settles_within(
            literal_form(#[trigger] lines(text)[i]),
            assignments(lines(text)),
            rounds,
        )
}

/// Whether it is plain of every line of `text` that its references come to an end after at most
/// `rounds` rounds.
pub open spec fn text_surely_settles(text: Seq<char>, rounds: nat) -> bool {
    forall|i: int|
        0 <= i < lines(text).len() ==> surely_settles(
            literal_form(#[trigger] lines(text)[i]),
            assignments(lines(text)),
            rounds,
        )
}

/// Undoes the quoting of a line that is resolved already as far as ANSI-C strings go.
fn literal_line(stage1: &str) -> (r: String)
    ensures
        r@ == normalized(without_quotes(stage1@)),
{
    let stage2 = flatten_adjacent_quotes(stage1);
    // Strip remaining quotes so bare characters between quoted segments coalesce: "a"d"d"
    // becomes add, 'c'"d" becomes cd after ANSI-C wrapping. The original text is still scanned
    // verbatim, so legitimate quoting is not lost.
    let stage3 = strip_quotes(stage2.as_str());
    // Lowercase and strip null / non-printable bytes so case-swapped commands (BuN aDd) and
    // null-padded tokens (b\0u\0n) resolve. Whitespace and structural characters are preserved
    // to avoid mashing paths into command-shaped false positives.
    normalize_case_and_bytes(stage3.as_str())
}

/// Deobfuscate shell text by resolving ANSI-C `$'...'` strings and flattening adjacent quoted
/// tokens into single words. Returns `None` if nothing changed.
///
/// Variables that refer to each other in a circle can make the expansion of references go on
/// without end; `deobfuscate_within` takes any text. Where no value refers to another variable,
/// no line of the result refers to a tracked one.
pub fn deobfuscate_shell_text(text: &str) -> (r: Option<String>)
    requires
        text_settles(text@),
    ensures
        match r {
            Some(t) => deobfuscated(text@) == Some(t@),
            None => deobfuscated(text@) is None,
        },
        r matches Some(t) ==> (forall|i: int|
            0 <= i < lines(text@).len() ==> fits_on_a_line(#[trigger] resolved_lines(text@)[i]))
            && values_are_final(assignments(lines(text@))) ==> forall|j: int|
            0 <= j < lines(t@).len() ==> has_no_reference(
                #[trigger] lines(t@)[j],
                assignments(lines(text@)),
            ),
        r matches Some(t) ==> (forall|i: int|
            0 <= i < lines(text@).len() ==> fits_on_a_line(#[trigger] resolved_lines(text@)[i])
                && resolved_lines(text@)[i].len() > 0) ==> lines(t@) == resolved_lines(text@),
{
    let mut changed: bool = false;
    let vars = track_assignments(text);
    let all = lines_of(text);
    let n: usize = all.len();
    let ghost ls = lines(text@);
    let ghost values = value_texts(vars@);
    let mut result = String::new();
    for i in 0..n
        invariant
            n == all@.len(),
            texts(all@) == ls,
            ls == lines(text@),
            values == value_texts(vars@),
            values == assignments(ls),
            text_settles(text@),
            result@ == plain_text(ls.take(i as int), values),
            changed == exists|k: int| 0 <= k < i && line_changes(#[trigger] ls[k], values),
            values_are_final(values) ==> forall|k: int|
                0 <= k < i ==> has_no_reference(#[trigger] resolved_lines(text@)[k], values),
    {
        let line: &str = all[i].as_str();
        proof {
            assert(line@ == ls[i as int]);
            assert(ls.take(i + 1).drop_last() == ls.take(i as int));
            assert(ls.take(i + 1).last() == ls[i as int]);
        }
        let ghost was_changed = changed;
        if !result.as_str().is_empty() {
            result.push('\n');
        }
        let stage1 = resolve_ansi_c(line);
        if !same_text(stage1.as_str(), line) {
            changed = true;
        }
        let stage4 = literal_line(stage1.as_str());
        let stage5 = resolve_variables(stage4.as_str(), &vars);
        if !same_text(stage5.as_str(), line) {
            changed = true;
            result.append(stage5.as_str());
        } else {
            result.append(line);
        }
        proof {
            if was_changed {
                let k = choose|k: int| 0 <= k < i && line_changes(#[trigger] ls[k], values);
                assert(line_changes(ls[k], values));
            }
            if line_changes(ls[i as int], values) {
                assert(changed);
            }
        }
    }
    proof {
        assert(ls.take(n as int) == ls);
        let forms = resolved_lines(text@);
        if forall|k: int| 0 <= k < ls.len() ==> fits_on_a_line(#[trigger] forms[k]) {
            law_lines_of_the_deobfuscated_text(text@);
            if changed && values_are_final(values) {
                assert forall|j: int| 0 <= j < lines(result@).len() implies has_no_reference(
                    #[trigger] lines(result@)[j],
                    values,
                ) by {
                    let k = forms.index_of(lines(result@)[j]);
                    assert(forms.contains(lines(result@)[j]));
                    assert(has_no_reference(forms[k], values));
                }
            }
        }
    }
    if changed {
        Some(result)
    } else {
        None
    }
}

/// What deobfuscation makes of a text.
pub enum Deobfuscation {
    /// Nothing changes.
    Unchanged,
    /// The text that it reads as.
    Changed(String),
    /// The references of some line do not come to an end in the rounds allowed.
    Unsettled,
}

/// Deobfuscate shell text, unless the references on some line take more than `rounds` rounds to
/// expand. A line without dollar signs takes none; where no value refers to another variable, as
/// many rounds as a line has dollar signs are enough.
pub fn deobfuscate_within(text: &str, rounds: usize) -> (r: Deobfuscation)
    ensures
        match r {
            Deobfuscation::Unsettled => !text_settles_within(text@, rounds as nat),
            Deobfuscation::Changed(t) => text_settles_within(text@, rounds as nat) && deobfuscated(
                text@,
            ) == Some(t@),
            Deobfuscation::Unchanged => text_settles_within(text@, rounds as nat) && deobfuscated(
                text@,
            ) is None,
        },
        text_surely_settles(text@, rounds as nat) ==> !(r is Unsettled),
        r matches Deobfuscation::Changed(t) ==> (forall|i: int|
            0 <= i < lines(text@).len() ==> fits_on_a_line(#[trigger] resolved_lines(text@)[i]))
            && values_are_final(assignments(lines(text@))) ==> forall|j: int|
            0 <= j < lines(t@).len() ==> has_no_reference(
                #[trigger] lines(t@)[j],
                assignments(lines(text@)),
            ),
        r matches Deobfuscation::Changed(t) ==> (forall|i: int|
            0 <= i < lines(text@).len() ==> fits_on_a_line(#[trigger] resolved_lines(text@)[i])
                && resolved_lines(text@)[i].len() > 0) ==> lines(t@) == resolved_lines(text@),
{
    let vars = track_assignments(text);
    let all = lines_of(text);
    let n: usize = all.len();
    let ghost ls = lines(text@);
    for i in 0..n
        invariant
            n == all@.len(),
            texts(all@) == ls,
            ls == lines(text@),
            value_texts(vars@) == assignments(ls),
            forall|k: int|
                0 <= k < i ==> settles_within(
                    literal_form(#[trigger] ls[k]),
                    assignments(ls),
                    rounds as nat,
                ),
    {
        let line: &str = all[i].as_str();
        assert(line@ == ls[i as int]);
        let stage4 = literal_line(resolve_ansi_c(line).as_str());
        if !references_settle(stage4.as_str(), &vars, rounds) {
            return Deobfuscation::Unsettled;
        }
    }
    match deobfuscate_shell_text(text) {
        Some(t) => Deobfuscation::Changed(t),
        None => Deobfuscation::Unchanged,
    }
}

} // verus!
