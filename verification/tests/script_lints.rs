use nessemble::lsp::{document_symbols, 
    diagnostics, ScriptDiagnostic, Severity, CUSTOM_ARITY, MISSING_CUSTOM, TOP_LEVEL_STATEMENT,
    UNKNOWN_HOST_FUNCTION,
};

fn codes(diags: &[ScriptDiagnostic]) -> Vec<String> {
    diags.iter().filter_map(|d| d.code.clone()).collect()
}

#[test]
fn a_syntax_error_becomes_a_diagnostic() {
    let diags = diagnostics("fn custom(ints, texts) {", false);
    assert_eq!(diags.len(), 1);
    assert_eq!(diags[0].severity, Severity::Error);
    assert!(diags[0].code.is_none());
}

#[test]
fn a_clean_two_arg_custom_has_no_findings() {
    let src = "fn custom(ints, texts) { [] }";
    assert!(diagnostics(src, true).is_empty());
}

#[test]
fn missing_custom_fires_only_when_mapped() {
    let src = "fn helper() { 1 }";
    assert!(diagnostics(src, false).is_empty());
    let diags = diagnostics(src, true);
    assert_eq!(codes(&diags), vec![MISSING_CUSTOM.to_string()]);
}

#[test]
fn custom_arity_fires_on_the_wrong_parameter_count() {
    let src = "fn custom(ints) { [] }";
    let diags = diagnostics(src, true);
    assert!(codes(&diags).contains(&CUSTOM_ARITY.to_string()));
}

#[test]
fn top_level_statement_fires_outside_every_fn() {
    let src = "const SCALE = 3;\nfn custom(ints, texts) { [SCALE] }";
    let diags = diagnostics(src, true);
    assert!(codes(&diags).contains(&TOP_LEVEL_STATEMENT.to_string()));
}

#[test]
fn unknown_host_function_flags_a_near_miss_only() {
    let src = r#"fn custom(ints, texts) { decode_png_fil("x.png") }"#;
    let diags = diagnostics(src, true);
    assert!(codes(&diags).contains(&UNKNOWN_HOST_FUNCTION.to_string()));
    assert!(diags.iter().any(|d| d.message.contains("decode_png_file")));
}

#[test]
fn unrelated_calls_are_not_flagged() {
    let src = "fn helper(x) { x.to_string() }\nfn custom(ints, texts) { helper(1); [] }";
    let diags = diagnostics(src, true);
    assert!(codes(&diags).is_empty());
}

#[test]
fn document_symbols_list_custom_first() {
    let src = "fn helper(x) { x }\nfn custom(ints, texts) { [] }";
    let syms = document_symbols(src);
    assert_eq!(syms.len(), 2);
    assert_eq!(syms[0].name, "custom");
    assert_eq!(syms[1].name, "helper");
}

#[test]
fn document_symbols_carry_signatures_and_name_ranges() {
    let src = "fn helper(x, y) { x }\nfn custom(ints, texts) { [] }";
    let syms = document_symbols(src);
    assert_eq!(syms[0].detail, "fn custom(ints, texts)");
    assert_eq!(syms[0].range.start.line, 1);
    assert_eq!(syms[0].range.start.character, 3);
    assert_eq!(syms[0].range.end.character, 9);
    assert_eq!(syms[1].detail, "fn helper(x, y)");
    assert!(document_symbols("fn custom(").is_empty());
}

#[test]
fn the_outline_lists_custom_first_then_the_rest_by_name() {
    let src = "fn zeta() { 1 }\nfn alpha(a) { a }\nfn custom(ints, texts) { [] }\n";
    let names: Vec<String> = document_symbols(src).into_iter().map(|s| s.name).collect();
    assert_eq!(names, vec!["custom", "alpha", "zeta"]);
    let again: Vec<String> = document_symbols(src).into_iter().map(|s| s.name).collect();
    assert_eq!(names, again);
}

#[test]
fn near_misses_come_out_in_name_and_position_order() {
    let src = "fn custom(ints, texts) { decode_png_fil(\"a\"); [] }\nfn helper() { decode_png_fil(\"b\") }\n";
    let first = diagnostics(src, true);
    let lines: Vec<u32> = first.iter().map(|d| d.range.start.line).collect();
    assert_eq!(lines, vec![0, 1]);
    for _ in 0..5 {
        let again = diagnostics(src, true);
        assert_eq!(again.iter().map(|d| d.range.start.line).collect::<Vec<_>>(), lines);
    }
}
