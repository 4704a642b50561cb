use nessemble::script::purity::Impurity;
use nessemble::script::run_outcome;
use nessemble::script::coverage::ScriptCoverage;

fn uncovered(cov: &ScriptCoverage) -> Vec<u32> {
    let files = cov.files();
    let (_, rows) = files.into_iter().next().expect("one script recorded");
    rows.into_iter().filter(|(_, hit)| !hit).map(|(line, _)| line).collect()
}

#[test]
fn a_fresh_collector_is_empty() {
    let cov = ScriptCoverage::new();
    assert!(cov.is_empty());
    assert!(cov.files().is_empty());
}

#[test]
fn rows_merge_coverable_and_hit_lines_in_ascending_order() {
    let mut cov = ScriptCoverage::new();
    // Line 9 ran though the AST never listed it; it still shows.
    cov.record("test.rhai", &[8, 2, 3, 2, 4, 6], &[3, 2, 9, 2]);
    assert!(!cov.is_empty());
    let files = cov.files();
    assert_eq!(files.len(), 1);
    assert_eq!(files[0].0, "test.rhai");
    assert_eq!(
        files[0].1,
        vec![(2, true), (3, true), (4, false), (6, false), (8, false), (9, true)]
    );
}

#[test]
fn hits_accumulate_across_invocations() {
    let mut cov = ScriptCoverage::new();
    // The `then` branch (line 4) runs; the `else` branch (line 6) does not.
    cov.record("test.rhai", &[1, 2, 3, 4, 6, 8], &[2, 3, 4, 8]);
    let after_then = uncovered(&cov);
    assert_eq!(after_then, vec![1, 6]);
    // The `else` branch runs on a second invocation; nothing is forgotten.
    cov.record("test.rhai", &[1, 2, 3, 4, 6, 8], &[2, 3, 6, 8]);
    let after_both = uncovered(&cov);
    assert_eq!(after_both, vec![1]);
    assert!(after_both.len() < after_then.len());
}

#[test]
fn scripts_come_out_in_path_order() {
    let mut cov = ScriptCoverage::new();
    cov.record("b.rhai", &[1], &[]);
    cov.record("a-b/x.rhai", &[1], &[1]);
    cov.record("a/x.rhai", &[2], &[]);
    cov.record("a.rhai", &[3], &[3]);
    let paths: Vec<String> = cov.files().into_iter().map(|(p, _)| p).collect();
    // Segment by segment: `a` sorts before `a-b` and `a.rhai`.
    assert_eq!(paths, vec!["a/x.rhai", "a-b/x.rhai", "a.rhai", "b.rhai"]);
}

#[test]
fn a_run_that_hits_nothing_still_lists_its_script() {
    let mut cov = ScriptCoverage::new();
    cov.record("empty.rhai", &[], &[]);
    let files = cov.files();
    assert_eq!(files, vec![("empty.rhai".to_string(), Vec::new())]);
}

#[test]
fn run_outcomes_list_inputs_once_in_path_order() {
    let out = run_outcome(
        vec![1, 2],
        vec!["b.bin".to_string(), "a-b".to_string(), "a/b".to_string(), "b.bin".to_string()],
        None,
    );
    assert_eq!(out.bytes, vec![1, 2]);
    assert_eq!(out.inputs, vec!["a/b".to_string(), "a-b".to_string(), "b.bin".to_string()]);
    assert!(out.cacheable);
    let impure = run_outcome(vec![], vec![], Some(Impurity::Imports));
    assert!(!impure.cacheable);
    assert!(impure.inputs.is_empty());
}
