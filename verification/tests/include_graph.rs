use nessemble::lsp::includes::IncludeGraph;

fn graph(entries: &[(&str, &[&str])]) -> IncludeGraph {
    IncludeGraph {
        includes: entries
            .iter()
            .map(|(k, vs)| (k.to_string(), vs.iter().map(|v| v.to_string()).collect()))
            .collect(),
    }
}

fn sorted(mut v: Vec<String>) -> Vec<String> {
    v.sort();
    v
}

#[test]
fn roots_are_the_files_nothing_includes() {
    let g = graph(&[
        ("main.asm", &["consts.asm", "code.asm"]),
        ("consts.asm", &[]),
        ("code.asm", &[]),
    ]);
    assert_eq!(g.roots(), vec!["main.asm".to_string()]);
}

#[test]
fn closure_follows_includes_transitively_and_holds_the_root() {
    let g = graph(&[
        ("main.asm", &["a.asm"]),
        ("a.asm", &["b.asm"]),
        ("b.asm", &[]),
        ("other.asm", &[]),
    ]);
    assert_eq!(
        sorted(g.closure("main.asm")),
        vec!["a.asm".to_string(), "b.asm".to_string(), "main.asm".to_string()]
    );
    assert_eq!(g.closure("other.asm"), vec!["other.asm".to_string()]);
}

#[test]
fn closure_terminates_on_a_cycle_and_lists_each_file_once() {
    let g = graph(&[("a.asm", &["b.asm"]), ("b.asm", &["a.asm", "a.asm"])]);
    assert_eq!(sorted(g.closure("a.asm")), vec!["a.asm".to_string(), "b.asm".to_string()]);
    // Both files include each other: nothing is an entry root.
    assert!(g.roots().is_empty());
}

#[test]
fn a_file_outside_the_graph_reaches_only_itself() {
    let g = graph(&[("main.asm", &["x.asm"])]);
    assert_eq!(g.closure("stray.asm"), vec!["stray.asm".to_string()]);
}

#[test]
fn entry_roots_for_names_every_root_that_pulls_the_file_in() {
    let g = graph(&[
        ("r1.asm", &["defs.asm", "shared.asm"]),
        ("r2.asm", &["shared.asm"]),
        ("defs.asm", &[]),
        ("shared.asm", &[]),
    ]);
    assert_eq!(
        g.entry_roots_for("shared.asm"),
        vec!["r1.asm".to_string(), "r2.asm".to_string()]
    );
    assert_eq!(g.entry_roots_for("defs.asm"), vec!["r1.asm".to_string()]);
    assert_eq!(g.entry_roots_for("r2.asm"), vec!["r2.asm".to_string()]);
    assert!(g.entry_roots_for("nowhere.asm").is_empty());
}
