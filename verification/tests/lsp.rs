use nessemble::lsp::actions::{base_of, number_conversions, Base};
use nessemble::lsp::mnemonic::mnemonic_hover;
use nessemble::lsp::source::{
    directive_hover, extension_allowed, format_hex, include_targets, is_identifier, jsr_target,
    leading_directive, line_start_byte, macro_names, quoted_subject, utf16_len,
};
use nessemble::lsp::{
    base64, doc_comment_above_custom, fn_name_column, hover, identifier_at, levenshtein,
    lint_script, local_definition, local_fn_hover, local_fn_names, local_references,
    nearest_known_name, parse_error_diagnostic, folding_ranges, FoldKind, parse_number, signature_help, CallSite, Position,
    Range, Severity, SourcePos,
};

fn chars(s: &str) -> Vec<char> {
    s.chars().collect()
}

#[test]
fn hover_renders_signature_and_summary() {
    let md = hover("nes_shade").expect("catalogued");
    assert!(md.contains("nes_shade(value)"));
    assert!(md.contains("extending.html#palette-quantization"));
}

#[test]
fn hover_joins_every_entry_sharing_a_name() {
    let md = hover("read_blob").expect("catalogued");
    assert!(md.contains("file.read_blob"));
    assert!(md.contains("read_blob(path)"));
    assert!(md.contains("---"));
}

#[test]
fn hover_is_none_for_an_unknown_name() {
    assert!(hover("not_a_real_function").is_none());
}

#[test]
fn signature_help_reports_the_active_parameter() {
    let text = "fn custom(ints, texts) { format_hex(255, ";
    let pos = Position::new(0, text.chars().count() as u32);
    let help = signature_help(text, pos).expect("inside a call");
    assert_eq!(help.active_parameter, Some(1));
    assert!(help.signatures[0].label.starts_with("format_hex("));
}

#[test]
fn signature_help_offers_both_arities_of_an_optional_argument() {
    let text = "fn custom(ints, texts) { parse_int_list(texts[0], \",\", ";
    let pos = Position::new(0, text.chars().count() as u32);
    let help = signature_help(text, pos).expect("inside a call");
    assert_eq!(help.signatures.len(), 2);
    assert_eq!(help.active_signature, Some(1));
    assert_eq!(help.active_parameter, Some(2));
}

#[test]
fn signature_help_is_none_outside_any_call() {
    let text = "let x = 1;";
    assert!(signature_help(text, Position::new(0, 5)).is_none());
}

#[test]
fn identifier_at_finds_the_word_under_the_cursor() {
    let text = "nes_shade(1)";
    let (name, range) = identifier_at(text, Position::new(0, 3)).expect("on `nes_shade`");
    assert_eq!(name, "nes_shade");
    assert_eq!(range, Range::new(Position::new(0, 0), Position::new(0, 9)));
}

#[test]
fn identifier_at_is_none_between_words() {
    assert!(identifier_at("a  b", Position::new(0, 2)).is_none());
}

#[test]
fn swatch_images_are_valid_base64() {
    assert_eq!(base64(b""), "");
    assert_eq!(base64(b"f"), "Zg==");
    assert_eq!(base64(b"fo"), "Zm8=");
    assert_eq!(base64(b"foo"), "Zm9v");
    assert_eq!(base64(b"foob"), "Zm9vYg==");
    assert_eq!(base64(b"fooba"), "Zm9vYmE=");
    assert_eq!(base64(b"foobar"), "Zm9vYmFy");
}

#[test]
fn numeric_literals_parse_in_every_spelling() {
    assert_eq!(parse_number("$1A"), Some(26));
    assert_eq!(parse_number("%1011"), Some(11));
    assert_eq!(parse_number("017"), Some(15));
    assert_eq!(parse_number("42"), Some(42));
    assert_eq!(parse_number("1Ah"), Some(26));
    assert_eq!(parse_number("1011b"), Some(11));
    assert_eq!(parse_number("17o"), Some(15));
    assert_eq!(parse_number("42d"), Some(42));
    assert_eq!(parse_number("bad"), None);
    assert_eq!(parse_number("h"), None);
}

#[test]
fn local_fn_hover_includes_the_doc_comment() {
    let src = "// Doubles x.\nfn helper(x) { x * 2 }\n";
    let md = local_fn_hover(src, "helper").expect("defined");
    assert!(md.contains("fn helper(x)"));
    assert!(md.contains("Doubles x."));
}

#[test]
fn local_references_are_word_bounded() {
    let src = "fn custom(ints, texts) { customize(1) }\nfn customize(n) { n }\n";
    let refs = local_references(src, "customize");
    assert_eq!(refs.len(), 2);
}

#[test]
fn local_fn_hover_is_exact_markdown() {
    let src = "// one\n//   two\ncode();\nfn f(a, b) { a }\n";
    assert_eq!(local_fn_hover(src, "f").unwrap(), "**fn f(a, b)**");
    let src = "// one\n///   two\nfn f(a, b) { a }\n";
    assert_eq!(local_fn_hover(src, "f").unwrap(), "**fn f(a, b)**\n\none\n/   two");
    assert!(local_fn_hover(src, "g").is_none());
}

#[test]
fn custom_doc_comment_and_definition() {
    let src = "// Emits ints.\nfn custom(ints, texts) { ints }\n";
    assert_eq!(doc_comment_above_custom(src).unwrap(), "Emits ints.");
    let def = local_definition(src, "custom").unwrap();
    assert_eq!(def, Range::new(Position::new(1, 3), Position::new(1, 9)));
    assert!(local_definition("fn customize() {}", "custom").is_none());
    assert_eq!(fn_name_column(&chars("  fn   helper(x)"), &chars("helper")), Some(7));
    assert_eq!(fn_name_column(&chars("fn helpers(x)"), &chars("helper")), None);
}

#[test]
fn local_function_names_are_scanned_line_by_line() {
    let src = "fn helper(x) { x }\nprivate fn inner() {}\nlet fn_x = 1;\nfn (";
    assert_eq!(local_fn_names(src), vec!["helper".to_string(), "inner".to_string()]);
}

#[test]
fn hex_literals_with_a_sign_and_overflow() {
    assert_eq!(parse_number("$-1A"), Some(-26));
    assert_eq!(parse_number("$"), None);
    assert_eq!(parse_number("9223372036854775808"), None);
    assert_eq!(parse_number("0"), Some(0));
    assert_eq!(parse_number("08"), Some(8));
}

#[test]
fn levenshtein_counts_edits() {
    assert_eq!(levenshtein("kitten", "sitting"), 3);
    assert_eq!(levenshtein("", "abc"), 3);
    assert_eq!(levenshtein("same", "same"), 0);
    assert_eq!(levenshtein("decode_png_fil", "decode_png_file"), 1);
}

#[test]
fn near_misses_find_the_catalogued_name() {
    assert_eq!(nearest_known_name("decode_png_fil"), Some("decode_png_file"));
    assert_eq!(nearest_known_name("decode_png_file"), None);
    assert_eq!(nearest_known_name("to_string"), None);
}

fn call(name: &str, line: u16, column: u16) -> CallSite {
    CallSite {
        name: name.to_string(),
        pos: SourcePos { line: Some(line), column: Some(column) },
    }
}

#[test]
fn lint_flags_a_missing_custom_only_when_mapped() {
    let fns = vec![("helper".to_string(), 0usize)];
    assert!(lint_script("fn helper() { 1 }", false, &fns, None, &vec![]).is_empty());
    let found = lint_script("fn helper() { 1 }", true, &fns, None, &vec![]);
    assert_eq!(found.len(), 1);
    assert_eq!(found[0].code.as_deref(), Some("missing-custom"));
    assert_eq!(found[0].severity, Severity::Hint);
}

#[test]
fn lint_flags_the_wrong_arity_at_the_name() {
    let src = "fn custom(ints) { [] }";
    let found = lint_script(src, true, &vec![("custom".to_string(), 1)], None, &vec![]);
    assert_eq!(found.len(), 1);
    assert_eq!(found[0].code.as_deref(), Some("custom-arity"));
    assert!(found[0].message.ends_with("this one declares 1"));
    assert_eq!(found[0].range, Range::new(Position::new(0, 3), Position::new(0, 9)));
}

#[test]
fn lint_flags_a_top_level_statement_and_near_misses_once() {
    let src = "const SCALE = 3;\nfn custom(ints, texts) { decode_png_fil(\"x\"); decode_png_fil(\"y\") }";
    let fns = vec![("custom".to_string(), 2usize)];
    let first = Some(SourcePos { line: Some(1), column: Some(1) });
    let calls = vec![call("decode_png_fil", 2, 26), call("decode_png_fil", 2, 26), call("len", 2, 1)];
    let found = lint_script(src, true, &fns, first, &calls);
    assert_eq!(found.len(), 2);
    assert_eq!(found[0].code.as_deref(), Some("top-level-statement"));
    assert_eq!(found[0].range, Range::new(Position::new(0, 0), Position::new(0, 1)));
    assert_eq!(found[1].code.as_deref(), Some("unknown-host-function"));
    assert!(found[1].message.contains("did you mean `decode_png_file`?"));
    assert_eq!(found[1].range, Range::new(Position::new(1, 25), Position::new(1, 39)));
}

#[test]
fn lint_is_silent_for_local_and_catalogued_calls() {
    let src = "fn helper(x) { x }\nfn custom(ints, texts) { helper(1); nes_shade(2) }";
    let fns = vec![("helper".to_string(), 1usize), ("custom".to_string(), 2usize)];
    let calls = vec![call("helper", 2, 26), call("nes_shade", 2, 37)];
    assert!(lint_script(src, true, &fns, None, &calls).is_empty());
}

#[test]
fn a_parse_error_is_an_error_at_its_position() {
    let d = parse_error_diagnostic("Expecting '}'", SourcePos { line: Some(3), column: Some(5) });
    assert_eq!(d.severity, Severity::Error);
    assert!(d.code.is_none());
    assert_eq!(d.message, "Expecting '}'");
    assert_eq!(d.range, Range::new(Position::new(2, 4), Position::new(2, 5)));
    let d = parse_error_diagnostic("x", SourcePos { line: None, column: None });
    assert_eq!(d.range, Range::new(Position::new(0, 0), Position::new(0, 1)));
}

#[test]
fn symbol_values_are_sized_hex() {
    assert_eq!(format_hex(0x1A), "$1A");
    assert_eq!(format_hex(0x1234), "$1234");
    assert_eq!(format_hex(0x12345), "$12345");
    assert_eq!(format_hex(-1), "$FFFFFFFFFFFFFFFF");
    assert_eq!(format_hex(0), "$00");
}

#[test]
fn directive_hover_shows_the_group_description() {
    assert_eq!(directive_hover(".ORG").unwrap(), "**.ORG** (directive)\n\nset the program counter");
    let md = directive_hover(".dephase").unwrap();
    assert!(md.ends_with("assemble for a different run-time address"));
    assert!(directive_hover(".nothing").is_none());
}

#[test]
fn include_targets_take_the_quoted_path() {
    let src = "  .include \"a.asm\"\n.includes \"b.asm\"\n.inestrn \"t.bin\" ; x\n.include noquote\n";
    assert_eq!(include_targets(src), vec!["a.asm".to_string(), "t.bin".to_string()]);
}

#[test]
fn macro_names_come_from_macrodef_lines() {
    let src = ".macrodef PUSH_ALL\n  .macrodef\n.macro PUSH_ALL\n\t.macrodef  POP x\n";
    assert_eq!(macro_names(src), vec!["PUSH_ALL".to_string(), "POP".to_string()]);
}

#[test]
fn jsr_targets_are_direct_labels_only() {
    assert_eq!(jsr_target("  JSR init_ppu ; set up").as_deref(), Some("init_ppu"));
    assert_eq!(jsr_target("jsr sub.local").as_deref(), Some("sub.local"));
    assert_eq!(jsr_target("jsr ($0300)"), None);
    assert_eq!(jsr_target("jmp init"), None);
    assert_eq!(jsr_target("jsr"), None);
}

#[test]
fn identifiers_and_directive_words() {
    assert!(is_identifier("_loop2"));
    assert!(!is_identifier("2loop"));
    assert!(!is_identifier(""));
    assert!(!is_identifier("a-b"));
    assert_eq!(leading_directive(".IfDef FOO").as_deref(), Some("ifdef"));
    assert_eq!(leading_directive(". x"), None);
    assert_eq!(leading_directive("lda"), None);
}

#[test]
fn small_text_measures() {
    assert_eq!(quoted_subject("unknown symbol `foo` here").as_deref(), Some("foo"));
    assert_eq!(quoted_subject("no quote"), None);
    assert_eq!(utf16_len("a\u{1F600}b"), 4);
    assert_eq!(line_start_byte("ab\nc\u{e9}\nd", 2), 7);
    assert_eq!(line_start_byte("ab\ncd", 5), 5);
    assert_eq!(line_start_byte("ab", 0), 0);
}

#[test]
fn extensions_are_matched_ignoring_case() {
    let pngs: &[&'static str] = &["png"];
    assert!(extension_allowed("tiles/a.PNG", Some(pngs)));
    assert!(!extension_allowed("tiles/a.bin", Some(pngs)));
    assert!(!extension_allowed("png", Some(pngs)));
    assert!(extension_allowed("anything", None));
}

#[test]
fn folding_covers_fn_bodies_and_comment_runs() {
    let src = "// one\n// two\nfn custom(ints, texts) {\n  []\n}\n";
    let folds = folding_ranges(src);
    assert!(folds
        .iter()
        .any(|f| f.kind == FoldKind::Comment && f.start_line == 0));
    assert!(folds
        .iter()
        .any(|f| f.kind == FoldKind::Region && f.start_line == 2));
}

#[test]
fn folds_are_exact() {
    let src = "fn a() { if x {\n 1 } }\n// only\nfn b() {\n}\n// x\n// y";
    let folds = folding_ranges(src);
    let spans: Vec<(u32, u32, FoldKind)> = folds.iter().map(|f| (f.start_line, f.end_line, f.kind)).collect();
    assert_eq!(
        spans,
        vec![
            (0, 1, FoldKind::Region),
            (0, 1, FoldKind::Region),
            (3, 4, FoldKind::Region),
            (5, 6, FoldKind::Comment),
        ]
    );
}

fn titles(text: &str) -> Vec<String> {
    number_conversions(text).into_iter().map(|c| c.title).collect()
}

#[test]
fn code_action_converts_a_number_base() {
    // `$10` on the operand of an lda: hex is the current base, so it is not
    // offered.
    let titles = titles("$10");
    assert!(titles.iter().any(|t| t.contains("decimal (16)")), "{titles:?}");
    assert!(titles.iter().any(|t| t.contains("binary (%10000)")), "{titles:?}");
    assert!(!titles.iter().any(|t| t.contains("hexadecimal")), "{titles:?}");
}

#[test]
fn code_action_is_empty_off_a_number() {
    // The mnemonic of `  lda #$10` is no numeric literal.
    assert!(number_conversions("lda").is_empty());
}

#[test]
fn conversions_carry_exact_titles_and_replacements() {
    let cs = number_conversions("255");
    let pairs: Vec<(String, String)> = cs.into_iter().map(|c| (c.title, c.new_text)).collect();
    assert_eq!(
        pairs,
        vec![
            ("Convert to hexadecimal ($FF)".to_string(), "$FF".to_string()),
            ("Convert to binary (%11111111)".to_string(), "%11111111".to_string()),
        ]
    );
    // Octal is none of the three targets, so every base is offered.
    assert_eq!(titles("017").len(), 3);
    assert_eq!(titles("17o").len(), 3);
    // A suffixed binary literal is offered hex and decimal.
    assert_eq!(
        titles("1010b"),
        vec!["Convert to hexadecimal ($A)".to_string(), "Convert to decimal (10)".to_string()]
    );
    assert_eq!(titles("0").len(), 2);
    assert!(number_conversions("-5").is_empty());
    assert!(number_conversions("").is_empty());
}

#[test]
fn base_of_reads_prefixes_and_suffixes() {
    assert_eq!(base_of("$1F"), Some(Base::Hex));
    assert_eq!(base_of("1Fh"), Some(Base::Hex));
    assert_eq!(base_of("%101"), Some(Base::Bin));
    assert_eq!(base_of("101b"), Some(Base::Bin));
    assert_eq!(base_of("42d"), Some(Base::Dec));
    assert_eq!(base_of("42"), Some(Base::Dec));
    assert_eq!(base_of("0"), Some(Base::Dec));
    assert_eq!(base_of("017"), None);
    assert_eq!(base_of("17o"), None);
}

#[test]
fn hover_shows_opcode_details_for_a_mnemonic() {
    let md = mnemonic_hover("lda").expect("hover on lda");
    assert!(md.contains("**LDA**"));
    assert!(md.contains("immediate"));
    assert!(md.contains("$A9"));
}

#[test]
fn mnemonic_hover_rows_are_exact() {
    let md = mnemonic_hover("LdA").unwrap();
    assert!(md.starts_with("**LDA** (instruction)\n\n| mode | opcode | bytes | cycles |\n| --- | --- | --- | --- |\n"));
    assert!(md.contains("| immediate | $A9 | 2 | 2 |\n"));
    // A page crossing adds a cycle on an indexed read.
    assert!(md.contains("| absolute,y | $B9 | 3 | 4+ |\n"));
    // Undocumented opcodes are marked.
    let lax = mnemonic_hover("lax").unwrap();
    assert!(lax.contains("| zeropage \u{26A0}\u{FE0E} | $A7 | 2 | 3 |\n"));
    assert!(mnemonic_hover("xyz").is_none());
    assert!(mnemonic_hover("").is_none());
}

#[test]
fn hover_shows_a_directive_description() {
    let md = directive_hover(".db").expect("hover on .db");
    assert!(md.contains("(directive)"));
}

#[test]
fn rename_rejects_an_invalid_identifier() {
    assert!(!is_identifier("1bad"));
    assert!(!is_identifier("has space"));
    assert!(is_identifier("begin"));
}
