use nessemble::script_api::{in_domain, lookup, script_api, ApiKind, Domain, Origin, ScriptApi};

#[test]
fn every_domain_has_entries_and_they_are_grouped() {
    let mut seen: Vec<Domain> = Vec::new();
    let mut last: Option<Domain> = None;
    for entry in script_api() {
        if last != Some(entry.domain) {
            assert!(
                !seen.contains(&entry.domain),
                "{:?} appears in two runs — the table must be grouped by domain",
                entry.domain
            );
            seen.push(entry.domain);
            last = Some(entry.domain);
        }
    }
    for domain in Domain::all() {
        assert!(!in_domain(domain).is_empty(), "{domain:?} has no entries");
    }
    assert_eq!(seen.len(), Domain::all().len(), "a domain is out of order");
}

#[test]
fn summaries_are_written_to_one_house_style() {
    for entry in script_api() {
        assert!(
            !entry.summary.ends_with('.'),
            "`{}`: summaries take no trailing period",
            entry.name
        );
        let first = entry.summary.chars().next().expect("non-empty summary");
        assert!(
            !first.is_uppercase(),
            "`{}`: summaries start lowercase",
            entry.name
        );
        assert!(!entry.anchor.is_empty(), "`{}`: no docs anchor", entry.name);
        assert!(
            !entry.anchor.starts_with('#'),
            "`{}`: anchors are stored without the leading `#`",
            entry.name
        );
    }
}

#[test]
fn a_methods_signature_carries_a_receiver_and_its_name_does_not() {
    for entry in script_api() {
        match entry.kind {
            ApiKind::Method | ApiKind::Property => assert!(
                entry.signature.contains('.'),
                "`{}`: a method/property signature shows its receiver",
                entry.name
            ),
            ApiKind::Type => assert_eq!(
                entry.signature, entry.name,
                "a type's signature is just its name"
            ),
            ApiKind::Function => {}
        }
        assert!(
            !entry.name.contains('.'),
            "`{}`: `name` is the registration name, without a receiver",
            entry.name
        );
    }
}

#[test]
fn a_name_repeats_only_across_different_kinds() {
    for entry in script_api() {
        let same: Vec<ScriptApi> = lookup(entry.name);
        if same.len() > 1 {
            let kinds: Vec<ApiKind> = same.iter().map(|e| e.kind).collect();
            let mut unique = kinds.clone();
            unique.dedup();
            assert_eq!(
                kinds.len(),
                unique.len(),
                "`{}` is listed twice with the same kind",
                entry.name
            );
        }
    }
}

#[test]
fn feature_gated_entries_name_a_feature_that_exists() {
    for entry in script_api() {
        if let Some(feature) = entry.availability.feature() {
            assert!(
                matches!(feature, "fs" | "rand"),
                "`{}`: unknown nessemble-script feature `{feature}`",
                entry.name
            );
            assert!(entry.availability.note().is_some());
        }
    }
}

#[test]
fn the_script_defined_entry_is_the_entry_point_and_nothing_else() {
    let script_defined: Vec<&str> = script_api()
        .iter()
        .filter(|e| e.origin == Origin::Script)
        .map(|e| e.name)
        .collect();
    assert_eq!(script_defined, ["custom"]);
}

#[test]
fn docs_url_points_at_the_extending_page() {
    let entry = lookup("find_all").into_iter().next().expect("find_all is catalogued");
    assert_eq!(
        entry.docs_url(),
        "https://kevinselwyn.github.io/nessemble-rs/docs/extending.html#xml"
    );
}

#[test]
fn lookup_ignoring_case_finds_the_same_entries() {
    let exact = lookup("nes_shade");
    let folded = nessemble::script_api::lookup_ignore_case("NES_Shade");
    assert_eq!(exact, folded);
    assert_eq!(exact.len(), 1);
    assert!(lookup("NES_Shade").is_empty());
}

#[test]
fn every_domain_has_a_title_and_a_blurb() {
    for domain in Domain::all() {
        assert!(!domain.title().is_empty());
        assert!(!domain.blurb().is_empty());
    }
    assert_eq!(Domain::all()[0], Domain::EntryPoint);
}
