use aur_scanner_core::deobfuscate::quotes::merge_first_run;
use aur_scanner_core::deobfuscate::variables::{
    assignment_from_groups, references_settle, substitute_references,
};
use aur_scanner_core::deobfuscate::{
    ansi_c_escape, deobfuscate_shell_text, deobfuscate_within, flatten_adjacent_quotes,
    normalize_case_and_bytes, resolve_ansi_c, resolve_variables, strip_quotes, track_assignments,
    Deobfuscation,
};
use aur_scanner_core::table::Table;

#[test]
fn resolve_hex_escape() {
    assert_eq!(resolve_ansi_c("$'\\x63'"), "'c'");
}

#[test]
fn resolve_octal_escape() {
    assert_eq!(resolve_ansi_c("$'\\141'"), "'a'");
    assert_eq!(resolve_ansi_c("$'\\143'"), "'c'");
}

#[test]
fn resolve_hex_plus_octal() {
    assert_eq!(resolve_ansi_c("$'\\141\\x6e'"), "'an'");
}

#[test]
fn resolve_standard_escapes() {
    assert_eq!(resolve_ansi_c("$'\\n'"), "'\n'");
    assert_eq!(resolve_ansi_c("$'\\t'"), "'\t'");
    assert_eq!(resolve_ansi_c("$'\\\\'"), "'\\'");
}

#[test]
fn bare_text_unchanged() {
    assert_eq!(resolve_ansi_c("hello"), "hello");
}

#[test]
fn flatten_simple_adjacent() {
    assert_eq!(flatten_adjacent_quotes("\"b\"'u''n'"), "bun");
    assert_eq!(flatten_adjacent_quotes("'a'\"d\"'d'"), "add");
}

#[test]
fn flatten_keeps_spacing() {
    // Space between runs — each run is merged independently.
    let input = "\"b\"'u' 'a'\"d\"'d'";
    assert_eq!(flatten_adjacent_quotes(input), "bu add");
}

#[test]
fn flatten_single_quote_kept() {
    assert_eq!(flatten_adjacent_quotes("\"hello\""), "\"hello\"");
    assert_eq!(flatten_adjacent_quotes("'world'"), "'world'");
}

#[test]
fn strip_bare_characters_between_quotes() {
    // Bare 'd' between "a" and "d" should coalesce via strip_quotes.
    assert_eq!(strip_quotes("\"a\"d\"d\""), "add");
    assert_eq!(strip_quotes("'c'\"d\""), "cd");
}

#[test]
fn deobfuscate_bare_between_quotes() {
    // "a"d"d" → add (deobfuscation full pipeline).
    let input = "\"a\"d\"d\" evil";
    let got = deobfuscate_shell_text(input).unwrap();
    assert_eq!(got, "add evil");
}

#[test]
fn normalize_lowercases_and_strips_null() {
    assert_eq!(normalize_case_and_bytes("BuN aDd"), "bun add");
    assert_eq!(normalize_case_and_bytes("b\u{0}u\u{0}n add"), "bun add");
    assert_eq!(
        normalize_case_and_bytes("Npm Install Evil"),
        "npm install evil"
    );
}

#[test]
fn normalize_preserves_path_structure() {
    // Paths are lowercased but structure (hyphens, slashes) stays intact.
    let input = "/usr/lib/systemd/systemd-foo";
    assert_eq!(normalize_case_and_bytes(input), input);
    assert_eq!(
        normalize_case_and_bytes("/usr/lib/SystemD/systemd-IniTd"),
        "/usr/lib/systemd/systemd-initd"
    );
}

#[test]
fn normalize_strips_nonprintable() {
    assert_eq!(normalize_case_and_bytes("bun\x07\x1b add"), "bun add");
}

#[test]
fn full_pipeline_lowercases_obfuscated_command() {
    // Mixed-case command in install script should be caught after normalization.
    let input = "$'\\x63'D /tmp && \"B\"'u''N' AdD nextfile-js";
    let got = deobfuscate_shell_text(input).unwrap();
    assert!(got.contains("bun add"));
    assert!(got.contains("cd /tmp"));
}

#[test]
fn flatten_double_empty_quote() {
    // "" is an empty double-quoted string. "i" and "" are adjacent → "i".
    // "c" is separated by a space so it stays isolated.
    assert_eq!(flatten_adjacent_quotes("\"i\"\"\" \"c\""), "i \"c\"");
}

#[test]
fn deobfuscate_no_change_returns_none() {
    assert!(deobfuscate_shell_text("make install").is_none());
    assert!(deobfuscate_shell_text("build() { make }").is_none());
}

#[test]
fn deobfuscate_multiline() {
    let input = "post_install() {\n  $'\\x63''d' /tmp\n}";
    let got = deobfuscate_shell_text(input).unwrap();
    assert!(got.contains("cd /tmp"));
}

#[test]
fn track_simple_assignment() {
    let text = "CMD=bun\n$CMD add evil";
    let got = deobfuscate_shell_text(text).unwrap();
    assert!(got.contains("bun add evil"));
}

#[test]
fn track_braced_reference() {
    let text = "PKG=evil\nbun add ${PKG}";
    let got = deobfuscate_shell_text(text).unwrap();
    assert!(got.contains("bun add evil"));
}

#[test]
fn resolve_variable_no_change_for_untracked() {
    // $HOME has no tracked assignment, but normalization lowercases it.
    let text = "ls $HOME";
    let got = deobfuscate_shell_text(text).unwrap();
    assert!(got.contains("ls $home"));
}

#[test]
fn resolve_quoted_assignment() {
    let text = "CMD='bun'\n$CMD add pkg";
    let got = deobfuscate_shell_text(text).unwrap();
    assert!(got.contains("bun add pkg"));
}

#[test]
fn resolve_double_quoted_assignment() {
    let text = "CMD=\"bun\"\n$CMD add pkg";
    let got = deobfuscate_shell_text(text).unwrap();
    assert!(got.contains("bun add pkg"));
}

#[test]
fn ignores_comment_assignments() {
    let text = "# CMD=evil\n$CMD add";
    let got = deobfuscate_shell_text(text).unwrap();
    // The deobfuscated output must not resolve $CMD from the commented
    // assignment.  "evil" may appear in the lowercased comment line but
    // must not appear on the second line (the actual command).
    assert!(
        !got.contains("add evil"),
        "comment assignment must not resolve; got: {got:?}"
    );
}

#[test]
fn escapes_one_by_one() {
    let cases: Vec<(&[u8], char, usize)> = vec![
        (b"", '\\', 0),
        (b"x63", 'c', 3),
        (b"X6g", '\x06', 2),
        (b"x", 'x', 0),
        (b"xzz", 'x', 0),
        (b"xff0", '\u{ff}', 3),
        (b"7", '\x07', 1),
        (b"1412", 'a', 3),
        (b"0141", 'a', 4),
        (b"08", '\0', 1),
        (b"777", '\u{ff}', 3),
        (b"a", '\x07', 1),
        (b"b", '\x08', 1),
        (b"e", '\x1b', 1),
        (b"E", '\x1b', 1),
        (b"f", '\x0c', 1),
        (b"n", '\n', 1),
        (b"r", '\r', 1),
        (b"t", '\t', 1),
        (b"v", '\x0b', 1),
        (b"\\", '\\', 1),
        (b"'", '\'', 1),
        (b"\"", '"', 1),
        (b"?", '?', 1),
        (b"ca", '\x01', 2),
        (b"cZ", '\x1a', 2),
        (b"c?", '\x7f', 2),
        (b"c1", '1', 2),
        (b"c", 'c', 0),
        (b"q", 'q', 1),
    ];
    for (tail, c, n) in cases {
        assert_eq!(ansi_c_escape(tail), (c, n), "{tail:?}");
    }
}

#[test]
fn ansi_c_strings_without_an_end() {
    assert_eq!(resolve_ansi_c("$'abc"), "'abc'");
    assert_eq!(resolve_ansi_c("$'"), "$'");
    assert_eq!(resolve_ansi_c("$''x"), "x");
    assert_eq!(resolve_ansi_c("a $'b' c $'d'"), "a 'b' c 'd'");
}

#[test]
fn four_octal_digits_behind_a_zero() {
    assert_eq!(resolve_ansi_c("$'\\0143d'"), "'cd'");
}

#[test]
fn isolated_quotes_stay() {
    let input = "echo 'a' \"b\" 'c'";
    assert_eq!(flatten_adjacent_quotes(input), input);
}

#[test]
fn runs_are_merged_one_at_a_time() {
    let spans = vec![(0, 3), (3, 6), (7, 10)];
    assert_eq!(
        merge_first_run("'a''b' 'c'", &spans).as_deref(),
        Some("ab 'c'")
    );
    assert_eq!(merge_first_run("'a' 'b'", &vec![(0, 3), (4, 7)]), None);
}

#[test]
fn escaped_quotes_inside_quotes() {
    assert_eq!(flatten_adjacent_quotes(r#""a\"b"'c'"#), r#"a\"bc"#);
}

#[test]
fn normalization_twice_is_normalization_once() {
    let once = normalize_case_and_bytes("A\u{e9}\tB\u{1}C");
    assert_eq!(once, "a\tbc");
    assert_eq!(normalize_case_and_bytes(&once), once);
}

#[test]
fn no_quotes_are_left() {
    assert_eq!(strip_quotes("'\"'\"a'"), "a");
}

fn groups(g: &[Option<&str>]) -> Option<Vec<Option<String>>> {
    Some(g.iter().map(|s| s.map(|s| s.to_string())).collect())
}

#[test]
fn assignments_from_groups() {
    let quoted = groups(&[Some("A='b'"), Some("A"), Some("'b'")]);
    assert_eq!(
        assignment_from_groups("A='b' c", &quoted),
        Some(("A".to_string(), "b".to_string()))
    );
    let bare = groups(&[Some("A=b"), Some("A"), Some("b")]);
    assert_eq!(
        assignment_from_groups("A=b;", &bare),
        Some(("A".to_string(), "b".to_string()))
    );
    // The word goes on with a substitution.
    assert_eq!(assignment_from_groups("A=b$(c)", &bare), None);
    assert_eq!(assignment_from_groups("A=b`c`", &bare), None);
    assert_eq!(assignment_from_groups("A=b", &None), None);
    // Substitutions and redirections inside quotes.
    for v in ["\"$(c)\"", "\"`c`\"", "'<c'"] {
        let g = groups(&[Some("A=x"), Some("A"), Some(v)]);
        assert_eq!(assignment_from_groups("A=x", &g), None, "{v}");
    }
    // Too long.
    let long = "x".repeat(201);
    let g = groups(&[Some("A="), Some("A"), Some(&long)]);
    assert_eq!(assignment_from_groups("A=", &g), None);
    let short = "x".repeat(200);
    let g = groups(&[Some("A="), Some("A"), Some(&short)]);
    assert_eq!(
        assignment_from_groups("A=", &g),
        Some(("A".to_string(), short.clone()))
    );
}

#[test]
fn tracked_names_are_lowercase_and_the_last_value_counts() {
    let vars = track_assignments("  Cmd=a\ncmd='b c'\n#CMD=d\nurl=$(x)\nlist=(y z)");
    assert_eq!(vars.len(), 1);
    assert_eq!(vars.get("cmd").map(|s| s.as_str()), Some("b c"));
    assert!(vars.get("Cmd").is_none());
}

#[test]
fn references_are_resolved_to_the_end() {
    let vars = track_assignments("A='$b x'\nB=c");
    assert_eq!(resolve_variables("${a}-$A-$other", &vars), "c x-c x-$other");
    assert!(references_settle("$a", &vars, 2));
    assert!(!references_settle("$a", &vars, 1));
    assert!(references_settle("plain", &vars, 0));
}

#[test]
fn no_variables_no_change() {
    let vars: Table<String> = Table::new();
    assert_eq!(resolve_variables("$a", &vars), "$a");
}

#[test]
fn references_at_given_places() {
    let mut vars: Table<String> = Table::new();
    vars.insert("a".to_string(), "one".to_string());
    let places = vec![((1, 3), (2, 3)), ((4, 8), (5, 8))];
    assert_eq!(substitute_references("<$a|${B}>", &places, &vars), "<one|${B}>");
    let places = vec![((1, 3), (2, 3)), ((4, 8), (5, 8))];
    assert_eq!(substitute_references("<$a|${A}>", &places, &vars), "<one|one>");
}

#[test]
fn circular_references_are_given_up() {
    let text = "A='$B.'\nB='$A'\necho $A";
    assert!(matches!(deobfuscate_within(text, 8), Deobfuscation::Unsettled));
    assert!(matches!(
        deobfuscate_within("make install", 0),
        Deobfuscation::Unchanged
    ));
    match deobfuscate_within("C=bun\n$C add", 1) {
        Deobfuscation::Changed(t) => assert_eq!(t, "c=bun\nbun add"),
        _ => panic!("one round is enough"),
    }
}

#[test]
fn a_reference_to_itself_settles() {
    match deobfuscate_within("A='$a'\n$A", 1) {
        Deobfuscation::Changed(t) => assert_eq!(t, "a=$a\n$a"),
        _ => panic!("nothing changes in the first round"),
    }
}

#[test]
fn empty_lines_before_any_text_are_dropped() {
    assert_eq!(deobfuscate_shell_text("\n\nA").as_deref(), Some("a"));
    assert_eq!(deobfuscate_shell_text("A\n\nb").as_deref(), Some("a\n\nb"));
}

#[test]
fn spelled_words_read_as_themselves() {
    assert_eq!(resolve_ansi_c("$'\\x62\\x75\\x6e' add"), "'bun' add");
    assert_eq!(resolve_ansi_c("$'\\142\\165\\156'$'\\040'x"), "'bun'' 'x");
    assert_eq!(
        deobfuscate_shell_text("$'\\x62\\x75\\x6e'").as_deref(),
        Some("bun")
    );
    assert_eq!(
        deobfuscate_shell_text("$'\\142\\165\\156'").as_deref(),
        Some("bun")
    );
}

#[test]
fn quotes_make_no_difference() {
    for text in ["b'u'n", "'b''u''n'", "\"bun\"", "bu''n", "'b'\"u\"n"] {
        assert_eq!(deobfuscate_shell_text(text).as_deref(), Some("bun"), "{text}");
    }
}

#[test]
fn flattening_loses_nothing_but_quotes() {
    for text in ["'a''b' c \"d\"'e'", "x\"y\"\"z\"'", "'\"''\"'"] {
        assert_eq!(
            strip_quotes(&flatten_adjacent_quotes(text)),
            strip_quotes(text),
            "{text}"
        );
    }
}

#[test]
fn characters_outside_ascii_stay_whole() {
    assert_eq!(resolve_ansi_c("\u{e9} $'\\x63\u{e9}\\\u{20ac}'"), "\u{e9} 'c\u{e9}\u{20ac}'");
    assert_eq!(strip_quotes("'\u{e9}'\"\u{1f600}\""), "\u{e9}\u{1f600}");
    assert_eq!(flatten_adjacent_quotes("'\u{e9}''x'"), "\u{e9}x");
    assert_eq!(deobfuscate_shell_text("caf\u{e9}").as_deref(), Some("caf"));
}

#[test]
fn flattening_never_lengthens() {
    for text in ["'a''b'", "a", "\"a\" 'b'", "'\u{e9}'\"\""] {
        let flat = flatten_adjacent_quotes(text);
        assert!(flat.len() < text.len() || flat == text, "{text}");
    }
}

#[test]
fn as_many_rounds_as_dollar_signs_are_enough() {
    // A value joins up with a dollar sign before it, and makes another reference.
    let vars = track_assignments("A=B\nB=c");
    assert!(references_settle("$$A $$$A", &vars, 5));
    assert_eq!(resolve_variables("$$A", &vars), "c");
    assert!(matches!(
        deobfuscate_within("A=B\nB=c\n$$A", 2),
        Deobfuscation::Changed(_)
    ));
}

#[test]
fn words_that_the_shell_works_out_are_not_tracked() {
    let text = "X=a\"$(id)\"\nY=<(id)\nW='a'b$(id)\nU=a\"b\"'c'`id`\nT=a\"\\\"$(id)\"";
    assert_eq!(track_assignments(text).len(), 0);
}

#[test]
fn the_first_part_of_a_literal_word_is_tracked() {
    let text = "Z='a''b'\nA=b\"u\"n\nV=w>x\nS='a''$(b)'\nR='a' $(b)\nQ='a'\"\\$b\"\nP=a\\$b";
    let vars = track_assignments(text);
    assert_eq!(vars.keys(), vec!["z", "a", "v", "s", "r", "q", "p"]);
    assert_eq!(vars.get("z").map(|s| s.as_str()), Some("a"));
    assert_eq!(vars.get("a").map(|s| s.as_str()), Some("b"));
    assert_eq!(vars.get("v").map(|s| s.as_str()), Some("w"));
    assert_eq!(vars.get("p").map(|s| s.as_str()), Some("a\\"));
}

#[test]
fn lines_without_dollar_signs_settle_whatever_is_assigned() {
    let vars = track_assignments("A='$B.'\nB='$A'");
    assert!(references_settle("make install", &vars, 0));
    assert!(!references_settle("make $A", &vars, 8));
}
