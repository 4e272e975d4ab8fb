//! Laws on what the scanner reads and hands on.

use crate::deobfuscate::ansi_c::as_chars;
use crate::deobfuscate::expansion::{dollars, values_are_final};
use crate::deobfuscate::variables::{
    assignments, expanded, settled_at, settles, settles_within,
};
use crate::deobfuscate::{
    deobfuscated, literal_form, text_settles, text_settles_within, text_surely_settles,
};
use crate::parser::{ParsedInstallScript, ParsedPkgbuild};
use crate::provenance::{saved_views, Snapshot};
use crate::scanner::{
    deobfuscated_script, package_settles_within, package_surely_settles, MAX_SCAN_FILE_BYTES,
};
use crate::text::lines;
use vstd::prelude::*;

verus! {

/// Files of up to two mebibytes are read.
pub proof fn law_largest_file()
    ensures
        MAX_SCAN_FILE_BYTES == 2 * 1024 * 1024,
{
}

/// An install script reads as its content does; without a script there is nothing to read.
pub proof fn law_scripts_are_read(script: ParsedInstallScript)
    ensures
        deobfuscated_script(Some(script)) == deobfuscated(script.content@),
        deobfuscated_script(None) is None,
{
}

/// A package settles where its PKGBUILD does and its install script, where it has one.
pub proof fn law_packages_settle(
    pkgbuild: ParsedPkgbuild,
    script: ParsedInstallScript,
    rounds: nat,
)
    ensures
        package_settles_within(pkgbuild, None, rounds) <==> text_settles_within(
            pkgbuild.raw_content@,
            rounds,
        ),
        package_settles_within(pkgbuild, Some(script), rounds) <==> text_settles_within(
            pkgbuild.raw_content@,
            rounds,
        ) && text_settles_within(script.content@, rounds),
        package_surely_settles(pkgbuild, None, rounds) <==> text_surely_settles(
            pkgbuild.raw_content@,
            rounds,
        ),
        package_surely_settles(pkgbuild, Some(script), rounds) <==> text_surely_settles(
            pkgbuild.raw_content@,
            rounds,
        ) && text_surely_settles(script.content@, rounds),
{
}

/// Whether replacing the references of line `i` changes nothing any more after `n` rounds.
pub open spec fn is_done_after(text: Seq<char>, i: int, n: nat) -> bool {
    let line = literal_form(lines(text)[i]);
    let vars = assignments(lines(text));
    expanded(line, vars, n + 1) == expanded(line, vars, n)
}

/// Whether that is so after at most `rounds` rounds.
pub open spec fn is_done_within(text: Seq<char>, i: int, rounds: nat) -> bool {
    exists|n: nat| n <= rounds && #[trigger] is_done_after(text, i, n)
}

proof fn lemma_done(text: Seq<char>, i: int, n: nat)
    ensures
        is_done_after(text, i, n) == settled_at(
            literal_form(lines(text)[i]),
            assignments(lines(text)),
            n,
        ),
{
}

proof fn lemma_done_within(text: Seq<char>, i: int, rounds: nat)
    requires
        assignments(lines(text)).dom() != Set::<Seq<char>>::empty(),
    ensures
        is_done_within(text, i, rounds) == settles_within(
            literal_form(lines(text)[i]),
            assignments(lines(text)),
            rounds,
        ),
{
    let line = literal_form(lines(text)[i]);
    let vars = assignments(lines(text));
    if is_done_within(text, i, rounds) {
        let n = choose|n: nat| n <= rounds && #[trigger] is_done_after(text, i, n);
        lemma_done(text, i, n);
        assert(settled_at(line, vars, n));
    }
    if settles_within(line, vars, rounds) {
        let n = choose|n: nat| n <= rounds && #[trigger] settled_at(line, vars, n);
        lemma_done(text, i, n);
        assert(is_done_after(text, i, n));
    }
}

/// A text settles in some rounds where no variable is assigned, or every line is done after that
/// many rounds at most.
pub proof fn law_texts_settle_within(text: Seq<char>, rounds: nat)
    ensures
        text_settles_within(text, rounds) <==> assignments(lines(text)).dom() == Set::<
            Seq<char>,
        >::empty() || forall|i: int|
            0 <= i < lines(text).len() ==> #[trigger] is_done_within(text, i, rounds),
{
    let ls = lines(text);
    let vars = assignments(ls);
    if vars.dom() != Set::<Seq<char>>::empty() {
        assert forall|i: int| 0 <= i < ls.len() implies is_done_within(text, i, rounds)
            == settles_within(literal_form(#[trigger] ls[i]), vars, rounds) by {
            lemma_done_within(text, i, rounds);
        }
        if text_settles_within(text, rounds) {
            assert forall|i: int| 0 <= i < ls.len() implies #[trigger] is_done_within(
                text,
                i,
                rounds,
            ) by {
                assert(settles_within(literal_form(ls[i]), vars, rounds));
            }
        }
        if forall|i: int| 0 <= i < ls.len() ==> #[trigger] is_done_within(text, i, rounds) {
            assert forall|i: int| 0 <= i < ls.len() implies settles_within(
                literal_form(#[trigger] ls[i]),
                vars,
                rounds,
            ) by {
                assert(is_done_within(text, i, rounds));
            }
        }
    }
}

/// Whether that is so at some time.
pub open spec fn is_done_in_the_end(text: Seq<char>, i: int) -> bool {
    exists|rounds: nat| #[trigger] is_done_within(text, i, rounds)
}

/// A text settles where no variable is assigned, or every line is done at some time.
pub proof fn law_texts_settle(text: Seq<char>)
    ensures
        text_settles(text) <==> assignments(lines(text)).dom() == Set::<Seq<char>>::empty()
            || forall|i: int|
            0 <= i < lines(text).len() ==> #[trigger] is_done_in_the_end(text, i),
{
    let ls = lines(text);
    let vars = assignments(ls);
    if vars.dom() == Set::<Seq<char>>::empty() {
        assert forall|i: int| 0 <= i < ls.len() implies settles(
            literal_form(#[trigger] ls[i]),
            vars,
        ) by {
            assert(settles_within(literal_form(ls[i]), vars, 0));
        }
    } else {
        if text_settles(text) {
            assert forall|i: int| 0 <= i < ls.len() implies #[trigger] is_done_in_the_end(
                text,
                i,
            ) by {
                let line = literal_form(ls[i]);
                assert(settles(line, vars));
                let rounds = choose|rounds: nat| #[trigger] settles_within(line, vars, rounds);
                lemma_done_within(text, i, rounds);
                assert(is_done_within(text, i, rounds));
            }
        }
        if forall|i: int| 0 <= i < ls.len() ==> #[trigger] is_done_in_the_end(text, i) {
            assert forall|i: int| 0 <= i < ls.len() implies settles(
                literal_form(#[trigger] ls[i]),
                vars,
            ) by {
                assert(is_done_in_the_end(text, i));
                let rounds = choose|rounds: nat| #[trigger] is_done_within(text, i, rounds);
                lemma_done_within(text, i, rounds);
                assert(settles_within(literal_form(ls[i]), vars, rounds));
            }
        }
    }
}

/// It is plain of a text that it settles where every line has no dollar sign, or no value has one
/// and there are as many rounds as the line has dollar signs.
pub proof fn law_texts_surely_settle(text: Seq<char>, rounds: nat)
    ensures
        text_surely_settles(text, rounds) <==> forall|i: int|
            0 <= i < lines(text).len() ==> !literal_form(#[trigger] lines(text)[i]).contains('$')
                || (values_are_final(assignments(lines(text))) && dollars(
                literal_form(lines(text)[i]),
            ) <= rounds),
{
}

/// Bytes are read as the characters with their code points.
pub proof fn law_bytes_as_characters(s: Seq<u8>)
    ensures
        as_chars(s).len() == s.len(),
        forall|i: int| 0 <= i < s.len() ==> #[trigger] as_chars(s)[i] as int == s[i] as int,
{
}

/// What is saved tells of each package its name and its snapshot, in order.
pub proof fn law_saved_views(entries: Seq<(String, Snapshot)>)
    ensures
        saved_views(entries).len() == entries.len(),
        forall|i: int|
            0 <= i < entries.len() ==> (#[trigger] saved_views(entries)[i]).0 == entries[i].0@
                && saved_views(entries)[i].1 == entries[i].1@,
{
}

} // verus!
