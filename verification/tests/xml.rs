use nessemble::script::xml::{parse, XmlNode};
use std::sync::Arc;

fn parse_ok(src: &str) -> XmlNode {
    parse(src).unwrap_or_else(|e| panic!("expected {src:?} to parse, got {}", e.describe()))
}

#[test]
fn parses_a_self_closing_element() {
    let root = parse_ok(r#"<row id="1"/>"#);
    assert_eq!(root.name(), "row");
    assert_eq!(root.attr("id"), Some("1"));
    assert!(root.children().is_empty());
    assert_eq!(root.text(), None);
}

#[test]
fn parses_nested_elements_and_text() {
    let root = parse_ok("<map><row>a,b,c</row><row>d,e,f</row></map>");
    assert_eq!(root.name(), "map");
    let rows = root.find_all("row");
    assert_eq!(rows.len(), 2);
    assert_eq!(rows[0].text(), Some("a,b,c"));
    assert_eq!(rows[1].text(), Some("d,e,f"));
    assert_eq!(root.find("row").unwrap().text(), Some("a,b,c"));
    assert!(root.find("missing").is_none());
}

#[test]
fn attrs_are_readable_by_name_regardless_of_declaration_order() {
    let root = parse_ok(r#"<t z="1" a="2" m="3"/>"#);
    assert_eq!(
        root.attrs(),
        &[
            ("z".to_string(), "1".to_string()),
            ("a".to_string(), "2".to_string()),
            ("m".to_string(), "3".to_string()),
        ]
    );
    assert_eq!(root.attr("a"), Some("2"));
    assert_eq!(root.attr("missing"), None);
}

#[test]
fn decodes_predefined_and_numeric_entities() {
    let root = parse_ok("<t a=\"&amp;&lt;&gt;&quot;&apos;\">&#65;&#x42;</t>");
    assert_eq!(root.attr("a"), Some("&<>\"'"));
    assert_eq!(root.text(), Some("AB"));
}

#[test]
fn an_unknown_entity_is_an_error_naming_its_position() {
    let err = parse("<t>&nope;</t>").unwrap_err();
    assert!(err.message.contains("&nope;"), "{}", err.describe());
    assert_eq!((err.line, err.col), (1, 4));
}

#[test]
fn cdata_is_literal_and_not_entity_decoded() {
    let root = parse_ok("<t><![CDATA[a & b < c]]></t>");
    assert_eq!(root.text(), Some("a & b < c"));
}

#[test]
fn comments_and_processing_instructions_are_skipped() {
    let root = parse_ok("<?xml version=\"1.0\"?>\n<!-- a comment --><t><!-- inner --><a/></t>");
    assert_eq!(root.name(), "t");
    assert_eq!(root.children().len(), 1);
}

#[test]
fn doctype_is_rejected_outright() {
    let err = parse("<!DOCTYPE foo><t/>").unwrap_err();
    assert!(err.message.contains("DOCTYPE"), "{}", err.describe());

    let err = parse("<t><!DOCTYPE foo></t>").unwrap_err();
    assert!(err.message.contains("DOCTYPE"), "{}", err.describe());
}

#[test]
fn mismatched_closing_tags_are_rejected() {
    let err = parse("<a><b></c></a>").unwrap_err();
    assert!(
        err.message.contains("</b>") && err.message.contains("</c>"),
        "{}",
        err.describe()
    );
}

#[test]
fn errors_report_line_and_column() {
    let err = parse("<a>\n  <b\n").unwrap_err();
    assert_eq!(err.line, 3, "{}", err.describe());
}

#[test]
fn xml_a_byte_order_mark_is_stripped() {
    let root = parse_ok("\u{feff}<a/>");
    assert_eq!(root.name(), "a");
}

#[test]
fn whitespace_only_indentation_text_is_still_reported() {
    let root = parse_ok("<a>\n  <b/>\n</a>");
    assert_eq!(root.text(), Some("\n  \n"));
}

#[test]
fn empty_element_has_no_text() {
    let root = parse_ok("<a></a>");
    assert_eq!(root.text(), None);
}

#[test]
fn element_names_may_contain_colons_with_no_namespace_splitting() {
    let root = parse_ok(r#"<ns:tag xmlns:ns="http://example.com"/>"#);
    assert_eq!(root.name(), "ns:tag");
    assert_eq!(root.attr("xmlns:ns"), Some("http://example.com"));
}

#[test]
fn cloning_a_node_is_cheap_and_shares_the_same_data() {
    let root = parse_ok("<a><b/></a>");
    let child = root.find("b").unwrap();
    let child2 = child.clone();
    assert!(Arc::ptr_eq(&child.0, &child2.0));
}

#[test]
fn nothing_after_the_root_is_read() {
    assert_eq!(parse("<a/><b/>").unwrap().name(), "a");
    assert!(parse("").is_err());
    assert!(parse("<a/>\n<!-- end -->\n").is_ok());
}

#[test]
fn a_shared_node_is_the_same_node() {
    let root = parse_ok("<a x=\"1\"/>");
    let again = root.share();
    assert!(Arc::ptr_eq(&root.0, &again.0));
    assert_eq!(again.attr("x"), Some("1"));
}
