use nessemble::lsp::color::{color_args, color_hover, nes_entry, swatch_image};
use nessemble::lsp::expr::{eval_argument, Symbol};
use nessemble::lsp::source::directive_hover;
use nessemble::lsp::tokens::{
    definitions, in_comment, located, references, semantic_tokens, token_at, word_at, DefKind, LexKind,
    Lexeme, Located,
};
use nessemble::lsp::folding::folding_ranges;
use nessemble::lsp::symbols::{ident_hover, preceding_doc};
use nessemble::lsp::{FoldKind, Position, Range};

/// A small stand-in for the assembler's lossless lexer, enough for these
/// buffers.
fn lex(src: &str) -> Vec<Lexeme> {
    let cs: Vec<char> = src.chars().collect();
    let mut out = Vec::new();
    let mut i = 0;
    let word = |c: char| c.is_alphanumeric() || c == '_';
    while i < cs.len() {
        let c = cs[i];
        let start = i;
        let kind = if c == '\n' {
            i += 1;
            LexKind::Newline
        } else if c == ' ' || c == '\t' {
            while i < cs.len() && (cs[i] == ' ' || cs[i] == '\t') {
                i += 1;
            }
            LexKind::Whitespace
        } else if c == ';' {
            while i < cs.len() && cs[i] != '\n' {
                i += 1;
            }
            LexKind::Comment
        } else if c == '.' && i + 1 < cs.len() && word(cs[i + 1]) {
            i += 1;
            while i < cs.len() && word(cs[i]) {
                i += 1;
            }
            LexKind::Directive
        } else if ((c == '$' || c == '%') && i + 1 < cs.len() && word(cs[i + 1])) || c.is_ascii_digit() {
            i += 1;
            while i < cs.len() && word(cs[i]) {
                i += 1;
            }
            LexKind::Number
        } else if word(c) {
            while i < cs.len() && word(cs[i]) {
                i += 1;
            }
            LexKind::Ident
        } else if c == '\'' && i + 2 < cs.len() && cs[i + 2] == '\'' {
            i += 3;
            LexKind::Char
        } else {
            i += 1;
            LexKind::Punct
        };
        out.push(Lexeme { kind, text: cs[start..i].iter().collect() });
    }
    out
}

fn tokens(src: &str) -> Vec<Located> {
    located(&lex(src))
}

fn pow(a: i64, b: i64) -> i64 {
    (a as f64).powf(b as f64) as i64
}

fn sym(name: &str, value: i64) -> Symbol {
    Symbol { name: name.to_string(), value, label: false, bank: 0 }
}

fn hover_markdown(src: &str, pos: Position, symbols: &[Symbol]) -> Option<String> {
    color_hover(&tokens(src), pos, symbols, &pow).map(|(md, _)| md)
}

#[test]
fn located_lexemes_carry_utf16_spans() {
    let ts = tokens("  lda #$10 ; é𝄞\nx:\n");
    let views: Vec<(LexKind, String, (u32, u32, u32))> = ts
        .iter()
        .map(|t| (t.kind, t.text.clone(), (t.range.start.line, t.range.start.character, t.range.end.character)))
        .collect();
    assert_eq!(
        views,
        vec![
            (LexKind::Ident, "lda".to_string(), (0, 2, 5)),
            (LexKind::Punct, "#".to_string(), (0, 6, 7)),
            (LexKind::Number, "$10".to_string(), (0, 7, 10)),
            (LexKind::Comment, "; é𝄞".to_string(), (0, 11, 16)),
            (LexKind::Ident, "x".to_string(), (1, 0, 1)),
            (LexKind::Punct, ":".to_string(), (1, 1, 2)),
        ]
    );
}

#[test]
fn token_at_and_in_comment_look_at_spans() {
    let ts = tokens("  lda #$10 ; note\n");
    let t = token_at(&ts, Position::new(0, 8)).unwrap();
    assert_eq!((t.kind, t.text.as_str()), (LexKind::Number, "$10"));
    // Both ends of a token count.
    assert_eq!(token_at(&ts, Position::new(0, 5)).unwrap().text, "lda");
    assert!(token_at(&ts, Position::new(1, 0)).is_none());
    assert!(in_comment(&ts, Position::new(0, 14)));
    assert!(!in_comment(&ts, Position::new(0, 11)));
    assert!(!in_comment(&ts, Position::new(0, 8)));
}

#[test]
fn definitions_find_labels_constants_and_macros() {
    let ts = tokens("start:\nCOUNT = 5\n  lda start\n.MACRODEF push_all\n  x = 1\n");
    let defs: Vec<(String, DefKind, u32)> =
        definitions(&ts).into_iter().map(|d| (d.name, d.kind, d.range.start.line)).collect();
    assert_eq!(
        defs,
        vec![
            ("start".to_string(), DefKind::Label, 0),
            ("COUNT".to_string(), DefKind::Constant, 1),
            ("push_all".to_string(), DefKind::Macro, 3),
            ("x".to_string(), DefKind::Constant, 4),
        ]
    );
}

#[test]
fn hover_on_color_previews_every_argument() {
    let md = hover_markdown("  .color $FF0000, $00FF00, $0000FF\n", Position::new(0, 4), &[])
        .expect("hover on .color");
    assert!(md.starts_with("**.color** — 3 colors"), "{md}");
    assert!(md.contains("![NES colors](data:image/svg+xml;base64,"), "{md}");
    assert!(md.contains("| `$FF0000` | `#FF0000` | `$16` | `#F83800` |"), "{md}");
    assert!(md.contains("| `$00FF00` | `#00FF00` | `$19` | `#00B800` |"), "{md}");
    assert!(md.contains("| `$0000FF` | `#0000FF` | `$01` | `#0000FC` |"), "{md}");
}

#[test]
fn hover_on_one_color_argument_shows_just_that_color() {
    let md = hover_markdown("  .color $FF0000, $00FF00\n", Position::new(0, 20), &[])
        .expect("hover on an argument");
    assert!(md.starts_with("**.color** — argument 2 of 2"), "{md}");
    assert!(md.contains("![#00B800](data:image/svg+xml;base64,"), "{md}");
    assert!(md.contains("`$00FF00` (`#00FF00`) → NES color `$19` (`#00B800`)"), "{md}");
    assert!(!md.contains("| argument |"), "{md}");
}

#[test]
fn color_hover_resolves_expressions_and_symbols() {
    let text = "RED = $FF0000\nSHIFT = 8\n  .color RED, $00FF00 >> SHIFT, $FFFFFF & $00FF00, LOW($1234FF)\n";
    let symbols = [sym("RED", 0xFF0000), sym("SHIFT", 8)];
    let md = hover_markdown(text, Position::new(2, 4), &symbols).expect("hover on .color");
    assert!(md.contains("| `RED` | `#FF0000` | `$16` | `#F83800` |"), "{md}");
    assert!(md.contains("| `$00FF00>>SHIFT` | `#0000FF` |"), "{md}");
    assert!(md.contains("| `$FFFFFF&$00FF00` | `#00FF00` | `$19` |"), "{md}");
    assert!(md.contains("| `LOW($1234FF)` | `#0000FF` | `$01` |"), "{md}");
}

#[test]
fn color_hover_follows_a_trailing_comma_onto_the_next_line() {
    let text = "  .color $FF0000,\n          $00FF00\n";
    let md = hover_markdown(text, Position::new(0, 4), &[]).expect("hover on .color");
    assert!(md.starts_with("**.color** — 2 colors"), "{md}");
    let md = hover_markdown(text, Position::new(1, 12), &[]).expect("hover on the continued argument");
    assert!(md.starts_with("**.color** — argument 2 of 2"), "{md}");
}

#[test]
fn color_hover_ignores_what_follows_the_statement() {
    let text = "  .color $FF0000 ; red\n  .db $01, $02\n";
    let md = hover_markdown(text, Position::new(0, 4), &[]).expect("hover on .color");
    assert!(md.starts_with("**.color** — 1 color"), "{md}");
}

#[test]
fn color_hover_falls_back_when_an_argument_is_unresolved() {
    let text = "  .color $FF0000, NOPE\n";
    let md = hover_markdown(text, Position::new(0, 4), &[]).expect("hover on .color");
    assert!(md.contains("| `NOPE` | ? | ? | ? |"), "{md}");
    assert!(hover_markdown(text, Position::new(0, 19), &[]).is_none());
}

#[test]
fn color_hover_is_only_for_color() {
    assert!(hover_markdown("  .db $FF0000\n", Position::new(0, 4), &[]).is_none());
    let md = directive_hover(".db").expect("hover on .db");
    assert!(md.starts_with("**.db** (directive)"), "{md}");
    // A bare `.color` has nothing to preview, so the directive hover runs.
    assert!(hover_markdown("  .color\n", Position::new(0, 4), &[]).is_none());
    let md = directive_hover(".color").expect("hover on a bare .color");
    assert!(md.starts_with("**.color** (directive)"), "{md}");
}

#[test]
fn the_color_hover_spans_the_directive_or_the_argument() {
    let ts = tokens("  .color $FF0000, $00FF00\n");
    let (_, r) = color_hover(&ts, Position::new(0, 4), &[], &pow).unwrap();
    assert_eq!(r, Range::new(Position::new(0, 2), Position::new(0, 8)));
    let (_, r) = color_hover(&ts, Position::new(0, 20), &[], &pow).unwrap();
    assert_eq!(r, Range::new(Position::new(0, 18), Position::new(0, 25)));
}

#[test]
fn arguments_split_at_top_level_commas_only() {
    let ts = tokens(".color HIGH($1234), (1, 2), 3 ; c\n");
    let args = color_args(&ts, 1, 0, &[], &pow);
    let texts: Vec<&str> = args.iter().map(|a| a.text.as_str()).collect();
    assert_eq!(texts, vec!["HIGH($1234)", "(1,2)", "3"]);
    assert_eq!(args[0].value, Some(0x12));
    assert_eq!(args[1].value, None);
    assert_eq!(args[2].value, Some(3));
}

fn eval(src: &str, symbols: &[Symbol]) -> Option<i64> {
    eval_argument(&tokens(src), symbols, &pow)
}

#[test]
fn expressions_follow_the_assemblers_rules() {
    // One precedence level, right-associative.
    assert_eq!(eval("2*3+4", &[]), Some(14));
    assert_eq!(eval("10-2-3", &[]), Some(11));
    assert_eq!(eval("(10-2)-3", &[]), Some(5));
    // Division and remainder by zero give zero; both truncate toward zero.
    assert_eq!(eval("7/0", &[]), Some(0));
    assert_eq!(eval("7 % 0", &[]), Some(0));
    assert_eq!(eval("0-7/2", &[]), Some(-3));
    assert_eq!(eval("(0-7)/2", &[]), Some(-3));
    assert_eq!(eval("(0-7) % 2", &[]), Some(-1));
    // Two-character operators are adjacent punctuation only.
    assert_eq!(eval("1<<4", &[]), Some(16));
    assert_eq!(eval("1< <4", &[]), None);
    assert_eq!(eval("1<<65", &[]), Some(2));
    assert_eq!(eval("2**10", &[]), Some(1024));
    assert_eq!(eval("3==3", &[]), Some(1));
    assert_eq!(eval("3!=3", &[]), Some(0));
    assert_eq!(eval("2<=1", &[]), Some(0));
    assert_eq!(eval("'A'", &[]), Some(65));
    // Wrapping arithmetic.
    assert_eq!(eval("$7FFFFFFFFFFFFFFF+1", &[]), Some(i64::MIN));
    // Built-ins.
    assert_eq!(eval("HIGH($ABCD)", &[]), Some(0xAB));
    assert_eq!(eval("LOW($ABCD)", &[]), Some(0xCD));
    let banked = [Symbol { name: "code".to_string(), value: 0x8000, label: true, bank: 3 }];
    assert_eq!(eval("BANK(code)", &banked), Some(3));
    assert_eq!(eval("BANK(nothing)", &banked), None);
    assert_eq!(eval("high($ABCD)", &[]), None);
    // Leftover tokens make no value.
    assert_eq!(eval("1 2", &[]), None);
    assert_eq!(eval("", &[]), None);
}

#[test]
fn palette_entries_and_swatches() {
    assert_eq!(nes_entry(0xFF0000), (0x16, 0xF83800));
    // Only the low 24 bits are a color.
    assert_eq!(nes_entry(0x7FF0000FF), nes_entry(0x0000FF));
    let img = swatch_image(&[None], "x");
    // "<svg xmlns='http://www.w3.org/2000/svg' width='18' height='18'><rect x='1' y='1' width='16' height='16' fill='none' stroke='#808080' stroke-width='1'/></svg>"
    assert!(img.starts_with("![x](data:image/svg+xml;base64,PHN2ZyB4bWxucz0n"));
    assert!(img.ends_with(")"));
}

fn folds(text: &str) -> Vec<(u32, u32, FoldKind)> {
    folding_ranges(text, &tokens(text)).into_iter().map(|f| (f.start_line, f.end_line, f.kind)).collect()
}

#[test]
fn folding_ranges_cover_blocks_and_comment_runs() {
    let text = "; a comment\n; still commenting\n.macrodef greet\n  nop\n.endm\n.ifdef FOO\n  nop\n.endif\n";
    let ranges = folds(text);
    assert!(ranges.contains(&(0, 1, FoldKind::Comment)));
    assert!(ranges.contains(&(2, 4, FoldKind::Region)));
    assert!(ranges.iter().any(|r| r.0 == 5 && r.1 == 7));
}

#[test]
fn folding_ranges_fold_subroutines_to_the_blank_line() {
    let text = "reset:\n  sei\n  cld\n  rts\n\nloop:\n  jmp loop\n";
    let ranges = folds(text);
    assert!(ranges.contains(&(0, 3, FoldKind::Region)));
    assert!(ranges.iter().any(|r| r.0 == 5 && r.1 == 6));
}

#[test]
fn folding_ranges_skip_a_bodyless_label() {
    let ranges = folds("empty:\n\n  nop\n");
    assert!(!ranges.iter().any(|r| r.0 == 0));
}

#[test]
fn folds_are_exact_and_in_order() {
    let text = ".if A\n.ifdef B\n.endif\n.macrodef m\n.endif\n.ENDM\n.endm\n; tail one\n; tail two\n";
    assert_eq!(
        folds(text),
        vec![
            (1, 2, FoldKind::Region),
            (0, 4, FoldKind::Region),
            (3, 5, FoldKind::Region),
            (7, 8, FoldKind::Comment),
        ]
    );
    // A single comment line is no run; a one-line block is no fold.
    assert_eq!(folds("; one\n.if X\n.endif\nx = 1\n"), vec![(1, 2, FoldKind::Region)]);
    assert_eq!(folds(".if X .endif\n"), vec![]);
}

fn ident_md(name: &str, text: &str, symbols: &[Symbol]) -> Option<String> {
    ident_hover(name, text, &tokens(text), symbols, None)
}

#[test]
fn hover_shows_a_symbol_value() {
    let text = "count = 5\n  lda #count\n";
    let md = ident_md("count", text, &[sym("count", 5)]).expect("hover on count");
    assert!(md.contains("count"));
    assert!(md.contains("(constant)"));
    assert!(md.contains("$05"));
}

#[test]
fn hover_includes_preceding_comment_doc() {
    let text = "; Errant comment\n\n; Always $42\nSPECIAL_VALUE = $42\n  lda #SPECIAL_VALUE\n";
    let md = ident_md("SPECIAL_VALUE", text, &[sym("SPECIAL_VALUE", 0x42)]).expect("hover");
    assert!(md.contains("(constant)"), "{md}");
    assert!(md.contains("Always $42"), "{md}");
    assert!(!md.contains("Errant comment"), "{md}");
}

#[test]
fn hover_joins_multiline_comment_doc_for_a_label() {
    let text = "; This is a fun subroutine that doubles the value in the accumulator (A) and sets\n; the value of X to SPECIAL_VALUE\ndouble_accumulator:\n  asl a\n  ldx #$42\n  jsr double_accumulator\n";
    let label = Symbol { name: "double_accumulator".to_string(), value: 0x8000, label: true, bank: 0 };
    let md = ident_md("double_accumulator", text, &[label]).expect("hover");
    assert!(md.contains("(label)"), "{md}");
    assert!(md.contains("This is a fun subroutine"), "{md}");
    assert!(md.contains("the value of X to SPECIAL_VALUE"), "{md}");
    assert_eq!(
        md,
        "**double_accumulator** (label) = 32768 (`$8000`)\n\nThis is a fun subroutine that doubles the value in the accumulator (A) and sets\nthe value of X to SPECIAL_VALUE"
    );
}

#[test]
fn hover_without_a_preceding_comment_omits_doc() {
    let text = "count = 5\n  lda #count\n";
    let md = ident_md("count", text, &[sym("count", 5)]).expect("hover on count");
    assert_eq!(md, "**count** (constant) = 5 (`$05`)");
}

#[test]
fn ident_hover_falls_through_mnemonic_symbol_routine_macro() {
    let text = ".macrodef PUSH\n  pha\n.endm\n  lda #0\n";
    assert!(ident_md("lda", text, &[]).unwrap().starts_with("**LDA** (instruction)"));
    assert_eq!(ident_md("PUSH", text, &[]).unwrap(), "**PUSH** (macro)");
    assert!(ident_md("nothing", text, &[]).is_none());
    let md = ident_hover("draw", text, &tokens(text), &[], Some("| in | |")).unwrap();
    assert_eq!(md, "**draw** (routine)\n\n| in | |");
    let md = ident_hover("neg", text, &tokens(text), &[sym("neg", -2)], Some("sig")).unwrap();
    assert_eq!(md, "**neg** (constant) = -2 (`$FFFFFFFFFFFFFFFE`)\n\nsig");
}

#[test]
fn preceding_doc_reads_only_the_adjacent_run() {
    let text = ";one\n  ;   two\nx: nop\n";
    assert_eq!(preceding_doc(text, &tokens(text), "x").unwrap(), "one\n  two");
    assert!(preceding_doc(text, &tokens(text), "y").is_none());
    let text = "x = 1\n";
    assert!(preceding_doc(text, &tokens(text), "x").is_none());
}

#[test]
fn goto_definition_jumps_to_the_label() {
    let text = "start:\n  jmp start\n";
    let ts = tokens(text);
    let name = word_at(&ts, Position::new(1, 7)).expect("an identifier");
    let def = definitions(&ts).into_iter().find(|d| d.name == name).expect("definition found");
    assert_eq!(def.range.start, Position::new(0, 0));
    assert_eq!(def.range.end, Position::new(0, 5));
}

#[test]
fn references_lists_every_occurrence() {
    let text = "start:\n  jmp start\n  jmp start\n";
    let ts = tokens(text);
    let name = word_at(&ts, Position::new(1, 7)).unwrap();
    let all = references(&ts, &name, true);
    assert_eq!(all.len(), 3);
    let uses = references(&ts, &name, false);
    assert_eq!(uses.len(), 2);
    assert!(uses.iter().all(|r| r.start.line != 0));
}

#[test]
fn rename_edits_every_occurrence_in_open_buffers() {
    let text = "start:\n  jmp start\n  jmp start\n";
    let ts = tokens(text);
    let name = word_at(&ts, Position::new(0, 0)).unwrap();
    // The definition and two uses are edited.
    let edits = references(&ts, &name, true);
    assert_eq!(edits.len(), 3);
    assert_eq!(edits[0], Range::new(Position::new(0, 0), Position::new(0, 5)));
}

#[test]
fn word_at_is_only_for_identifiers() {
    let ts = tokens("  lda #$10\n");
    assert_eq!(word_at(&ts, Position::new(0, 3)), Some("lda".to_string()));
    assert!(word_at(&ts, Position::new(0, 8)).is_none());
    assert!(word_at(&ts, Position::new(3, 0)).is_none());
}

#[test]
fn semantic_tokens_are_delta_encoded() {
    let text = "lda #$00 ; @nessemble-param A\n  rts\n; plain\n";
    let ts = tokens(text);
    let types: Vec<u32> = ts.iter().map(|t| if t.kind == LexKind::Number { 7 } else { 1 }).collect();
    let toks = semantic_tokens(&ts, &types, &[1]);
    let rows: Vec<(u32, u32, u32, u32, u32)> = toks
        .iter()
        .map(|t| (t.delta_line, t.delta_start, t.length, t.token_type, t.token_modifiers_bitset))
        .collect();
    assert_eq!(
        rows,
        vec![
            (0, 0, 3, 1, 0),  // lda
            (0, 4, 1, 1, 0),  // #
            (0, 1, 3, 7, 0),  // $00
            (0, 4, 20, 1, 1), // the directive comment on line 1 (1-based)
            (1, 2, 3, 1, 0),  // rts
            (1, 0, 7, 1, 0),  // a plain comment
        ]
    );
}
