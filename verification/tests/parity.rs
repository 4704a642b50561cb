use nessemble::parity::{classify, failure_line, first_diff, report};

#[test]
fn first_diff_names_the_byte_and_both_values() {
    assert_eq!(first_diff(&[1, 2, 3], &[1, 0xAB, 3]), "first diff at byte 1: 0x02 != 0xab");
    assert_eq!(first_diff(&[1, 2], &[1, 2]), "identical");
    assert_eq!(first_diff(&[1, 2], &[1, 2, 3]), "differing length");
    assert_eq!(first_diff(&[], &[]), "identical");
}

#[test]
fn cases_are_classified_by_group_and_name() {
    let (flags, scripts, skip) = classify("examples", "undocumented");
    assert_eq!(flags, vec!["-u".to_string()]);
    assert!(!scripts);
    assert_eq!(skip, None);
    assert_eq!(classify("examples", "ease").2, Some("bundled Lua ease script"));
    assert!(classify("errors", "ease-type").1);
    assert_eq!(classify("examples", "custom").2, Some("polyglot scripts not runnable in-sandbox"));
    assert_eq!(classify("errors", "custom"), (vec![], false, None));
}

#[test]
fn a_failure_line_names_the_case_sizes_and_first_difference() {
    assert_eq!(
        failure_line("examples", "adc", &[1, 2], &[1, 3, 4]),
        "examples/adc: got 2 bytes, expected 3 (first diff at byte 1: 0x02 != 0x03)"
    );
}

#[test]
fn the_report_has_a_title_counts_and_one_line_per_failure() {
    let fails = vec!["errors/x: got 0 bytes, expected 1 (differing length)".to_string()];
    assert_eq!(
        report(3, &fails),
        "nessemble-rs parity vs v1.1.1 goldens\n\
         =================================================\n\
         pass:    3/4\n\
         fail:    1/4\n\n\
         FAIL errors/x: got 0 bytes, expected 1 (differing length)\n"
    );
    assert_eq!(
        report(2, &[]),
        "nessemble-rs parity vs v1.1.1 goldens\n\
         =================================================\n\
         pass:    2/2\n\
         fail:    0/2\n\n"
    );
}
