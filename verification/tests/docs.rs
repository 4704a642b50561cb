use nessemble::docs::{
    book_meta, escape_html, first_sentence, is_non_prose, lead_description, md_to_url,
    parse_summary, render_llms_txt, rewrite_chapter_links, rewrite_link_target, strip_index_html,
    strip_md_links, toml_str_value, LlmsEntry, DOCS_BASE_URL,
};

#[test]
fn book_meta_reads_title_and_description() {
    let toml = "[book]\ntitle = \"nessemble\"\ndescription = \"A 6502 assembler\"\nsrc = \"src\"\n\n[output.html]\ntitle = \"ignored\"\n";
    let (title, desc) = book_meta(toml);
    assert_eq!(title, "nessemble");
    assert_eq!(desc.as_deref(), Some("A 6502 assembler"));
}

#[test]
fn parse_summary_keeps_ordered_local_pages() {
    let summary = "# Summary\n\n[Introduction](index.md)\n\n- [Installation](installation.md)\n- [Repo](https://example.com/x.md)\n- [Usage](usage.md)\n";
    assert_eq!(
        parse_summary(summary),
        vec![
            ("Introduction".to_string(), "index.md".to_string()),
            ("Installation".to_string(), "installation.md".to_string()),
            ("Usage".to_string(), "usage.md".to_string()),
        ]
    );
}

#[test]
fn md_to_url_builds_extensionless_dir_urls() {
    assert_eq!(
        md_to_url("installation.md"),
        format!("{DOCS_BASE_URL}installation/")
    );
    assert_eq!(md_to_url("index.md"), DOCS_BASE_URL);
}

#[test]
fn rewrite_link_target_directorifies_flat_links() {
    assert_eq!(rewrite_link_target("usage.md", false), "usage/index.md");
    assert_eq!(rewrite_link_target("index.md", false), "index.md");
    assert_eq!(rewrite_link_target("usage.md", true), "../usage/index.md");
    assert_eq!(rewrite_link_target("index.md", true), "../index.md");
    assert_eq!(
        rewrite_link_target("extending.md#filesystem-access", true),
        "../extending/index.md#filesystem-access"
    );
    assert_eq!(
        rewrite_link_target("https://rhai.rs", true),
        "https://rhai.rs"
    );
    assert_eq!(rewrite_link_target("#section", true), "#section");
}

#[test]
fn rewrite_chapter_links_only_touches_link_targets() {
    let text = "See [Usage](usage.md) and [Rhai](https://rhai.rs).";
    assert_eq!(
        rewrite_chapter_links(text, true),
        "See [Usage](../usage/index.md) and [Rhai](https://rhai.rs)."
    );
}

#[test]
fn strip_index_html_cleans_urls() {
    assert_eq!(
        strip_index_html(r#"<a href="../syntax/index.html">x</a>"#),
        r#"<a href="../syntax/">x</a>"#
    );
    assert_eq!(
        strip_index_html(r#"<a href="usage/index.html#opts">x</a>"#),
        r#"<a href="usage/#opts">x</a>"#
    );
    assert_eq!(
        strip_index_html(r#"<a href="index.html">Home</a>"#),
        r#"<a href="./">Home</a>"#
    );
    assert_eq!(
        strip_index_html(r#"<a href="../index.html">Home</a>"#),
        r#"<a href="../">Home</a>"#
    );
}

#[test]
fn strip_md_links_reduces_to_text() {
    assert_eq!(
        strip_md_links("uses [Rhai](https://rhai.rs), a language"),
        "uses Rhai, a language"
    );
    assert_eq!(
        strip_md_links("a [Language Server][lsp] for 6502"),
        "a Language Server for 6502"
    );
}

#[test]
fn lead_description_takes_first_sentence() {
    let page = "# Upgrading\n\n`nessemble` 2.0 is a ground-up rewrite in Rust. Assembly output\nis compatible.\n\nMore text.\n";
    assert_eq!(
        lead_description(page).as_deref(),
        Some("`nessemble` 2.0 is a ground-up rewrite in Rust.")
    );
}

#[test]
fn lead_description_skips_leading_fence() {
    let page = "# Usage\n\n```text\nnessemble --help\n```\n\n## Options\n\nSets things up.\n";
    assert_eq!(lead_description(page).as_deref(), Some("Sets things up."));
}

#[test]
fn lead_description_strips_trailing_colon_when_no_period() {
    let page = "# Installation\n\nDownload the latest release for your system:\n\n| a | b |\n";
    assert_eq!(
        lead_description(page).as_deref(),
        Some("Download the latest release for your system")
    );
}

#[test]
fn render_llms_txt_formats_entries() {
    let entries = vec![
        LlmsEntry {
            title: "Installation".to_string(),
            href: "https://x/docs/installation.html".to_string(),
            description: Some("Get it.".to_string()),
        },
        LlmsEntry {
            title: "Usage".to_string(),
            href: "https://x/docs/usage.html".to_string(),
            description: None,
        },
    ];
    let out = render_llms_txt("nessemble", Some("An assembler"), &entries);
    assert!(out.starts_with("# nessemble\n"));
    assert!(out.contains("> An assembler\n"));
    assert!(out.contains("## Documentation\n"));
    assert!(out.contains("- [Installation](https://x/docs/installation.html): Get it.\n"));
    assert!(out.contains("- [Usage](https://x/docs/usage.html)\n"));
}

#[test]
fn html_is_escaped_and_toml_values_are_read() {
    assert_eq!(escape_html("a < b & \"c\" > d"), "a &lt; b &amp; \"c\" &gt; d");
    assert_eq!(toml_str_value("title = \"x\"", "title").as_deref(), Some("x"));
    assert_eq!(toml_str_value("titles = \"x\"", "title"), None);
}

#[test]
fn prose_and_sentences() {
    assert!(is_non_prose("| a |"));
    assert!(!is_non_prose("```rust"));
    assert!(is_non_prose("# Heading"));
    assert!(!is_non_prose("Plain words."));
    assert_eq!(first_sentence("One. Two."), "One.");
    assert_eq!(first_sentence("No period here"), "No period here");
}
