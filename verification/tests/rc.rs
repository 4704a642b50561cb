use nessemble::rc::config::{ignore_globs, Config, RcConfig, RcOverride};
use nessemble::rc::options::{parse_case, parse_severity, Case, FormatOptions, IndentStyle, RcOptions, RuleSeverity};
use nessemble::rc::{glob_match, matches_path_glob, normalize_ext};

#[test]
fn glob_single_star_stays_within_segment() {
    assert!(glob_match("*.asm", "a.asm"));
    assert!(!glob_match("*.asm", "sub/a.asm"));
    assert!(glob_match("src/*.asm", "src/a.asm"));
    assert!(!glob_match("src/*.asm", "src/sub/a.asm"));
}

#[test]
fn glob_double_star_crosses_segments_and_matches_zero_dirs() {
    assert!(glob_match("src/**/*.asm", "src/a.asm"));
    assert!(glob_match("src/**/*.asm", "src/data/a.asm"));
    assert!(glob_match("src/**/*.asm", "src/data/deep/a.asm"));
    assert!(!glob_match("src/**/*.asm", "other/a.asm"));
}

#[test]
fn slash_free_pattern_matches_any_segment() {
    assert!(matches_path_glob("*.asm", "src/data/a.asm"));
    assert!(matches_path_glob("build", "x/build/y.asm"));
    assert!(!matches_path_glob("build", "x/builder/y.asm"));
}

#[test]
fn question_mark_matches_one_non_separator() {
    assert!(glob_match("a?.asm", "a1.asm"));
    assert!(!glob_match("a?.asm", "a12.asm"));
}

#[test]
fn a_literal_pattern_matches_only_itself() {
    assert!(glob_match("src/main.asm", "src/main.asm"));
    assert!(!glob_match("src/main.asm", "src/main.asmx"));
    assert!(!glob_match("a?c", "a/c"));
    assert!(glob_match("**", "any/depth/at/all"));
    assert!(glob_match("", ""));
    assert!(!glob_match("", "a"));
}

#[test]
fn extensions_are_normalized() {
    assert_eq!(normalize_ext(".PNG"), "png");
    assert_eq!(normalize_ext("asm"), "asm");
}

fn base_options() -> FormatOptions {
    FormatOptions {
        indent_style: IndentStyle::Space,
        indent_width: 2,
        comma_spacing: true,
        final_newline: true,
        indent_directives: false,
        align_continuations: true,
        data_per_line: 8,
        respect_stride_hints: true,
        blank_line_after_return: true,
        max_consecutive_blank_lines: 1,
        mnemonic_case: Case::Preserve,
        hex_digit_case: Case::Preserve,
    }
}

#[test]
fn rc_options_map_onto_format_options() {
    let rc = RcOptions {
        indent_style: Some("tab".to_string()),
        data_per_line: Some(4),
        blank_line_after_return: Some(false),
        ..Default::default()
    };
    let mut base = base_options();
    rc.apply(&mut base).unwrap();
    assert_eq!(base.indent_style, IndentStyle::Tab);
    assert_eq!(base.data_per_line, 4);
    assert!(!base.blank_line_after_return);
}

#[test]
fn align_continuations_defaults_on_and_maps_onto_format_options() {
    let mut base = base_options();
    assert!(base.align_continuations);
    let rc = RcOptions { align_continuations: Some(false), ..Default::default() };
    rc.apply(&mut base).unwrap();
    assert!(!base.align_continuations);
}

#[test]
fn indent_directives_maps_onto_format_options() {
    let mut base = base_options();
    assert!(!base.indent_directives);
    let rc = RcOptions { indent_directives: Some(true), ..Default::default() };
    rc.apply(&mut base).unwrap();
    assert!(base.indent_directives);
}

#[test]
fn invalid_indent_style_is_an_error() {
    let rc = RcOptions { indent_style: Some("wide".to_string()), ..Default::default() };
    let mut base = base_options();
    assert!(rc.apply(&mut base).is_err());
}

#[test]
fn case_keys_map_onto_format_options() {
    let rc = RcOptions {
        mnemonic_case: Some("upper".to_string()),
        hex_digit_case: Some("lower".to_string()),
        ..Default::default()
    };
    let mut base = base_options();
    rc.apply(&mut base).unwrap();
    assert_eq!(base.mnemonic_case, Case::Upper);
    assert_eq!(base.hex_digit_case, Case::Lower);
}

#[test]
fn invalid_case_value_is_an_error() {
    let rc = RcOptions { mnemonic_case: Some("title".to_string()), ..Default::default() };
    let mut base = base_options();
    assert!(rc.apply(&mut base).is_err());
}

#[test]
fn an_empty_options_block_changes_nothing() {
    let mut base = base_options();
    RcOptions::default().apply(&mut base).unwrap();
    assert_eq!(base, base_options());
}

#[test]
fn a_bad_indent_style_changes_nothing_and_names_the_key() {
    let rc = RcOptions {
        indent_style: Some("wide".to_string()),
        data_per_line: Some(3),
        ..Default::default()
    };
    let mut base = base_options();
    assert_eq!(
        rc.apply(&mut base).unwrap_err(),
        "invalid indentStyle `wide` (expected \"space\" or \"tab\")"
    );
    assert_eq!(base, base_options());
}

#[test]
fn a_bad_case_keeps_what_came_before_it() {
    let rc = RcOptions {
        indent_width: Some(4),
        mnemonic_case: Some("lower".to_string()),
        hex_digit_case: Some("title".to_string()),
        ..Default::default()
    };
    let mut base = base_options();
    assert_eq!(
        rc.apply(&mut base).unwrap_err(),
        "invalid hexDigitCase `title` (expected \"preserve\", \"lower\", or \"upper\")"
    );
    assert_eq!(base.indent_width, 4);
    assert_eq!(base.mnemonic_case, Case::Lower);
    assert_eq!(base.hex_digit_case, Case::Preserve);
}

#[test]
fn severities_and_cases_parse_by_keyword() {
    assert_eq!(parse_severity("r", "off"), Ok(RuleSeverity::Off));
    assert_eq!(parse_severity("r", "warn"), Ok(RuleSeverity::Warn));
    assert_eq!(parse_severity("r", "error"), Ok(RuleSeverity::Error));
    assert_eq!(
        parse_severity("require-block-comment", "loud"),
        Err("rule `require-block-comment` has invalid severity `loud` (expected \"off\", \"warn\", or \"error\")".to_string())
    );
    assert_eq!(parse_case("k", "preserve"), Ok(Case::Preserve));
    assert_eq!(
        parse_case("mnemonicCase", "Upper"),
        Err("invalid mnemonicCase `Upper` (expected \"preserve\", \"lower\", or \"upper\")".to_string())
    );
}

#[test]
fn align_continuations_participates_in_overrides() {
    // Base turns it off; a per-glob override turns it back on for matching
    // files.
    let rc = RcConfig {
        extensions: None,
        overrides: vec![RcOverride {
            files: "src/**/*.asm".to_string(),
            options: RcOptions { align_continuations: Some(true), ..Default::default() },
        }],
        options: RcOptions { align_continuations: Some(false), ..Default::default() },
    };
    let config = Config::from_rc(&rc, ".nessemblerc", base_options()).unwrap();
    assert!(!config.options_for("other/x.asm").align_continuations);
    assert!(config.options_for("src/data/x.asm").align_continuations);
}

#[test]
fn overrides_apply_in_order_and_later_ones_win() {
    let rc = RcConfig {
        extensions: Some(vec![".ASM".to_string(), "s".to_string()]),
        overrides: vec![
            RcOverride {
                files: "*.asm".to_string(),
                options: RcOptions { indent_width: Some(8), data_per_line: Some(2), ..Default::default() },
            },
            RcOverride {
                files: "gfx/**".to_string(),
                options: RcOptions { indent_width: Some(3), ..Default::default() },
            },
        ],
        options: RcOptions { indent_width: Some(4), ..Default::default() },
    };
    let config = Config::from_rc(&rc, "proj/.nessemblerc", base_options()).unwrap();
    let main = config.options_for("main.asm");
    assert_eq!((main.indent_width, main.data_per_line), (8, 2));
    let tiles = config.options_for("gfx/tiles.asm");
    assert_eq!((tiles.indent_width, tiles.data_per_line), (3, 2));
    let other = config.options_for("notes.txt");
    assert_eq!((other.indent_width, other.data_per_line), (4, 8));
    assert!(config.has_formatted_ext("src/a.asm"));
    assert!(config.has_formatted_ext("src/B.S"));
    assert!(!config.has_formatted_ext("src/a.inc"));
    assert!(!config.has_formatted_ext("Makefile"));
}

#[test]
fn a_bad_override_is_reported_with_its_glob() {
    let rc = RcConfig {
        extensions: None,
        overrides: vec![RcOverride {
            files: "src/*.asm".to_string(),
            options: RcOptions { mnemonic_case: Some("title".to_string()), ..Default::default() },
        }],
        options: RcOptions::default(),
    };
    let err = Config::from_rc(&rc, "p/.nessemblerc", base_options()).err().unwrap();
    assert_eq!(
        err,
        "in `p/.nessemblerc` overrides for `src/*.asm`: invalid mnemonicCase `title` (expected \"preserve\", \"lower\", or \"upper\")"
    );
    let rc = RcConfig {
        options: RcOptions { indent_style: Some("wide".to_string()), ..Default::default() },
        ..Default::default()
    };
    let err = Config::from_rc(&rc, "x.json", base_options()).err().unwrap();
    assert_eq!(err, "in `x.json`: invalid indentStyle `wide` (expected \"space\" or \"tab\")");
}

#[test]
fn ignore_files_list_trimmed_globs_without_comments() {
    let text = "# generated\n  build/  \n\n*.bak\r\n   # note\nvendor/**\n";
    assert_eq!(ignore_globs(text), vec!["build/", "*.bak", "vendor/**"]);
    let mut config = Config::defaults(".", base_options());
    assert!(!config.is_ignored("build/x.asm"));
    config.use_ignore_file("proj/.nessembleignore", text);
    assert!(config.is_ignored("build/x.asm"));
    assert!(config.is_ignored("src/old.bak"));
    assert!(config.is_ignored("vendor/a/b.asm"));
    assert!(!config.is_ignored("src/main.asm"));
    assert!(config.has_formatted_ext("src/main.asm"));
}
