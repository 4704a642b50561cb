use changesets::ChangeType;
use nessemble::changeset::{
    bump_of, overall_bump, parse_workspace_version, plan_add, read_pending, render_changelog_section,
    truncate_slug, update_changelog_text, Bump, ChangeKind, Pending, Semver,
};

fn change(content: &str) -> Vec<(String, ChangeKind)> {
    let c = changesets::Change::from_file_name_and_content("test.md", content)
        .expect("parse change");
    c.versioning
        .iter()
        .map(|(p, t)| {
            let kind = match t {
                ChangeType::Major => ChangeKind::Major,
                ChangeType::Minor => ChangeKind::Minor,
                ChangeType::Patch => ChangeKind::Patch,
                ChangeType::Custom(s) => ChangeKind::Custom(s.clone()),
            };
            (p.clone(), kind)
        })
        .collect()
}

fn pending(bump: Option<Bump>, summary: &str) -> Pending {
    Pending {
        file: format!("{summary}.md"),
        id: summary.to_string(),
        bump,
        summary: summary.to_string(),
    }
}

#[test]
fn bump_of_maps_the_standard_change_types() {
    assert_eq!(
        bump_of(&change("---\nnessemble: major\n---\ns")),
        Ok(Some(Bump::Major))
    );
    assert_eq!(
        bump_of(&change("---\nnessemble: minor\n---\ns")),
        Ok(Some(Bump::Minor))
    );
    assert_eq!(
        bump_of(&change("---\nnessemble: patch\n---\ns")),
        Ok(Some(Bump::Patch))
    );
    assert_eq!(bump_of(&change("---\nnessemble: none\n---\ns")), Ok(None));
}

#[test]
fn bump_of_rejects_unknown_package_and_type() {
    assert!(bump_of(&change("---\nwrongpkg: minor\n---\ns")).is_err());
    assert!(bump_of(&change("---\nnessemble: minr\n---\ns")).is_err());
}

#[test]
fn overall_bump_takes_the_highest_and_ignores_none() {
    let set = [
        pending(Some(Bump::Patch), "a"),
        pending(None, "b"),
        pending(Some(Bump::Minor), "c"),
    ];
    assert_eq!(overall_bump(&set), Some(Bump::Minor));

    let majored = [
        pending(Some(Bump::Minor), "a"),
        pending(Some(Bump::Major), "b"),
    ];
    assert_eq!(overall_bump(&majored), Some(Bump::Major));
}

#[test]
fn overall_bump_is_none_when_empty_or_all_none() {
    assert_eq!(overall_bump(&[]), None);
    assert_eq!(
        overall_bump(&[pending(None, "a"), pending(None, "b")]),
        None
    );
}

#[test]
fn semver_parse_and_bump() {
    let v = Semver::parse("2.8.1").unwrap();
    assert_eq!(
        v,
        Semver {
            major: 2,
            minor: 8,
            patch: 1
        }
    );
    assert_eq!(v.bumped(Bump::Patch).to_string(), "2.8.2");
    assert_eq!(v.bumped(Bump::Minor).to_string(), "2.9.0");
    assert_eq!(v.bumped(Bump::Major).to_string(), "3.0.0");
    assert_eq!(Semver::parse("2.8.1-dev").unwrap().to_string(), "2.8.1");
    assert!(Semver::parse("2.8").is_err());
}

#[test]
fn parses_the_workspace_package_version() {
    let toml = "[workspace]\nmembers = []\n\n[workspace.package]\nversion = \"2.8.1\"\nedition = \"2021\"\n";
    assert_eq!(parse_workspace_version(toml).unwrap().to_string(), "2.8.1");
}

#[test]
fn changelog_section_groups_by_level_and_skips_none() {
    let set = [
        pending(Some(Bump::Minor), "Add a feature"),
        pending(Some(Bump::Patch), "Fix a bug"),
        pending(None, "Docs only"),
    ];
    let section = render_changelog_section(
        &Semver {
            major: 2,
            minor: 9,
            patch: 0,
        },
        "2026-07-16",
        &set,
    );
    assert!(section.contains("## 2.9.0 - 2026-07-16"));
    assert!(section.contains("### Minor changes"));
    assert!(section.contains("- Add a feature"));
    assert!(section.contains("### Patch changes"));
    assert!(section.contains("- Fix a bug"));
    assert!(!section.contains("Major changes"));
    assert!(!section.contains("Docs only"));
}

#[test]
fn update_changelog_prepends_and_keeps_one_header() {
    let existing = "# Changelog\n\n## 2.8.1 - 2026-01-01\n\n### Patch changes\n\n- Old\n";
    let section = "## 2.9.0 - 2026-07-16\n\n### Minor changes\n\n- New\n";
    let out = update_changelog_text(Some(existing), section);
    assert_eq!(out.matches("# Changelog").count(), 1);
    let new_at = out.find("2.9.0").unwrap();
    let old_at = out.find("2.8.1").unwrap();
    assert!(new_at < old_at, "new section must come first");
}

#[test]
fn update_changelog_creates_from_nothing() {
    let section = "## 1.0.0 - 2026-07-16\n\n### Minor changes\n\n- First\n";
    let out = update_changelog_text(None, section);
    assert!(out.starts_with("# Changelog\n"));
    assert!(out.contains("- First"));
}

#[test]
fn a_version_prints_back_to_what_was_parsed() {
    for text in ["0.0.0", "1.2.3", "10.20.30"] {
        assert_eq!(Semver::parse(text).unwrap().to_string(), text);
    }
    assert!(Semver::parse("1.x.3").is_err());
    assert!(parse_workspace_version("[package]\nversion = \"1.0.0\"\n").is_err());
}

#[test]
fn bump_labels_and_slugs() {
    assert_eq!(Bump::Major.label(), "major");
    assert_eq!(Bump::Patch.label(), "patch");
    assert_eq!(truncate_slug("Fix the thing"), truncate_slug("Fix the thing"));
}

#[test]
fn plan_add_reads_the_bump_and_summary() {
    let args: Vec<String> = vec!["minor".to_string(), "Add".to_string(), "a".to_string(), "thing".to_string()];
    let plan = plan_add(&args).unwrap();
    assert_eq!(plan.kind, ChangeKind::Minor);
    assert_eq!(plan.summary, "Add a thing");
    assert!(plan.has_summary);
    let bad: Vec<String> = vec!["huge".to_string(), "x".to_string()];
    assert!(plan_add(&bad).is_err());
}

#[test]
fn a_changeset_file_is_read_into_a_pending_change() {
    let p = read_pending(".changeset/fix_x.md", "fix_x.md", "---\nnessemble: minor\n---\n\nFix the thing.\n")
        .unwrap();
    assert_eq!(p.file, ".changeset/fix_x.md");
    assert_eq!(p.id, "fix_x");
    assert_eq!(p.bump, Some(Bump::Minor));
    assert_eq!(p.summary, "Fix the thing.");
    let none = read_pending("n.md", "n.md", "---\nnessemble: None\n---\nDocs only.\n").unwrap();
    assert_eq!(none.bump, None);
}

#[test]
fn a_bad_changeset_file_is_refused_with_its_name() {
    assert_eq!(read_pending("x.txt", "x.txt", "---\nnessemble: patch\n---\n").unwrap_err(), "x.txt: invalid file name");
    assert_eq!(read_pending("x.md", "x.md", "no front matter\n").unwrap_err(), "x.md: missing front matter");
    assert_eq!(
        read_pending("x.md", "x.md", "---\nother: patch\n---\nS\n").unwrap_err(),
        "x.md: unknown package `other`; use the single key `nessemble`"
    );
    assert_eq!(
        read_pending("x.md", "x.md", "---\nnessemble: huge\n---\nS\n").unwrap_err(),
        "x.md: unknown change type `huge`; use major, minor, patch, or none"
    );
}
