# aur-scanner-core

The core of a security scanner for AUR packages: what it decides about a package, written in
Verus and proved against its contracts.

- `src/deobfuscate/`: shell deobfuscation. ANSI-C strings, adjacent quotes, case and unprintable
  bytes, variable references; `laws.rs`, `spelling.rs` and `expansion.rs` state what holds of the
  whole.
- `src/metadata.rs`: the variables that a PKGBUILD assigns, and its maintainer.
- `src/install.rs`: which file is the install script of a package.
- `src/analyzer/`, `src/threat_intel.rs`: findings for known indicators of compromise.
- `src/findings.rs`, `src/scanner.rs`: the scanner, from the context of the analyzers to the
  sorted findings of a scan.
- `src/provenance.rs`, `src/digest.rs`: findings for packages that gain risky behavior.
- `src/aur.rs`, `src/overlay.rs`: requests to the AUR, what the answers mean, and local packages
  that take precedence over them.
- `src/patterns.rs`, `src/text.rs`, `src/table.rs`: regular expressions, texts and tables.
- `app/`: network, programs and files around the library.

What is taken on trust stands in `src/patterns.rs` (searches of the `regex` crate), `src/digest.rs`
(SHA-256) and `src/text.rs` (two functions of the standard library); each says what is assumed.

A text whose variables refer to each other in a circle never settles. `deobfuscate_shell_text`
asks for one that does; `deobfuscate_within` takes any text, and gives up after a number of
rounds.
