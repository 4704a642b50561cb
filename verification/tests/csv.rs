use nessemble::script::csv::{parse, parse_with_delimiter, CsvRow, CsvTable};
use std::sync::Arc;

fn parse_ok(src: &str) -> CsvTable {
    parse(src).unwrap_or_else(|e| panic!("expected {src:?} to parse, got {}", e.describe()))
}

fn row_fields(row: &CsvRow) -> Vec<&str> {
    (0..).map_while(|i| row.field_by_index(i).ok()).collect()
}

#[test]
fn parses_headers_and_rows() {
    let t = parse_ok("a,b,c\n1,2,3\n4,5,6\n");
    assert_eq!(t.headers(), &["a", "b", "c"]);
    assert_eq!(t.rows().len(), 2);
    assert_eq!(row_fields(&t.rows()[0]), ["1", "2", "3"]);
    assert_eq!(row_fields(&t.rows()[1]), ["4", "5", "6"]);
}

#[test]
fn rows_are_indexable_by_column_name_and_position() {
    let t = parse_ok("name,hp\nslime,10\n");
    let row = &t.rows()[0];
    assert_eq!(row.field_by_name("name").unwrap(), "slime");
    assert_eq!(row.field_by_name("hp").unwrap(), "10");
    assert_eq!(row.field_by_index(0).unwrap(), "slime");
    assert_eq!(row.field_by_index(1).unwrap(), "10");
}

#[test]
fn an_unknown_column_name_is_an_error() {
    let t = parse_ok("a\n1\n");
    let err = t.rows()[0].field_by_name("nope").unwrap_err();
    assert!(err.contains("nope"), "{err}");
}

#[test]
fn an_out_of_range_index_is_an_error() {
    let t = parse_ok("a\n1\n");
    let err = t.rows()[0].field_by_index(5).unwrap_err();
    assert!(err.contains('5'), "{err}");
    let err = t.rows()[0].field_by_index(-1).unwrap_err();
    assert!(err.contains("-1"), "{err}");
}

#[test]
fn quoted_fields_may_embed_delimiters_and_newlines() {
    let t = parse_ok("a,b\n\"x,y\",\"line1\nline2\"\n");
    let row = &t.rows()[0];
    assert_eq!(row.field_by_index(0).unwrap(), "x,y");
    assert_eq!(row.field_by_index(1).unwrap(), "line1\nline2");
}

#[test]
fn doubled_quotes_decode_to_one_literal_quote() {
    let t = parse_ok("a\n\"she said \"\"hi\"\"\"\n");
    assert_eq!(t.rows()[0].field_by_index(0).unwrap(), "she said \"hi\"");
}

#[test]
fn an_unterminated_quoted_field_is_an_error() {
    let err = parse("a\n\"unterminated").unwrap_err();
    assert!(err.message.contains("unterminated"), "{}", err.describe());
}

#[test]
fn blank_lines_are_skipped_not_turned_into_rows() {
    let t = parse_ok("a,b\n1,2\n\n\n3,4\n");
    assert_eq!(t.rows().len(), 2);
    assert_eq!(row_fields(&t.rows()[1]), ["3", "4"]);
}

#[test]
fn a_stray_delimiter_line_is_a_row_of_empty_fields_not_blank() {
    let t = parse_ok("a,b\n,\n1,2\n");
    assert_eq!(t.rows().len(), 2);
    assert_eq!(row_fields(&t.rows()[0]), ["", ""]);
}

#[test]
fn crlf_and_lf_line_endings_parse_identically() {
    let crlf = parse_ok("a,b\r\n1,2\r\n");
    let lf = parse_ok("a,b\n1,2\n");
    assert_eq!(row_fields(&crlf.rows()[0]), row_fields(&lf.rows()[0]));
}

#[test]
fn a_trailing_newline_does_not_add_a_phantom_row() {
    let with = parse_ok("a\n1\n");
    let without = parse_ok("a\n1");
    assert_eq!(with.rows().len(), 1);
    assert_eq!(without.rows().len(), 1);
}

#[test]
fn a_short_row_names_the_missing_header() {
    let err = parse("a,b,c\n1,2\n").unwrap_err();
    assert!(err.message.contains('"'), "{}", err.describe());
    assert!(err.message.contains('c'), "{}", err.describe());
    assert_eq!(err.line, 2, "{}", err.describe());
}

#[test]
fn a_long_row_names_the_unheaded_field() {
    let err = parse("a\n1,2\n").unwrap_err();
    assert_eq!(err.line, 2, "{}", err.describe());
    assert!(err.message.contains('2'), "{}", err.describe());
    assert_eq!(err.message, "row has 2 fields, expected 1 (no header for field 2)");
}

#[test]
fn a_tab_delimiter_is_honored() {
    let t = parse_with_delimiter("a\tb\n1\t2\n", '\t').unwrap();
    assert_eq!(t.headers(), &["a", "b"]);
    assert_eq!(row_fields(&t.rows()[0]), ["1", "2"]);
}

#[test]
fn an_empty_document_has_no_headers_or_rows() {
    let t = parse_ok("");
    assert!(t.headers().is_empty());
    assert!(t.rows().is_empty());
}

#[test]
fn csv_a_byte_order_mark_is_stripped() {
    let t = parse_ok("\u{feff}a,b\n1,2\n");
    assert_eq!(t.headers(), &["a", "b"]);
}

#[test]
fn fields_are_not_trimmed() {
    let t = parse_ok("a, b\n1, 2\n");
    assert_eq!(t.headers(), &["a", " b"]);
    assert_eq!(t.rows()[0].field_by_index(1).unwrap(), " 2");
}

#[test]
fn duplicate_headers_resolve_by_name_to_the_first_match() {
    let t = parse_ok("a,a\n1,2\n");
    assert_eq!(t.rows()[0].field_by_name("a").unwrap(), "1");
}

#[test]
fn cloning_a_table_or_row_is_cheap_and_shares_the_same_data() {
    let t = parse_ok("a\n1\n");
    let t2 = t.clone();
    assert!(Arc::ptr_eq(&t.0, &t2.0));
    let row = t.rows()[0].clone();
    let row2 = row.clone();
    assert!(Arc::ptr_eq(&row.0, &row2.0));
}

#[test]
fn iterating_a_table_visits_every_row_in_order() {
    let t = parse_ok("a\n1\n2\n3\n");
    let all: Vec<String> = t
        .into_rows()
        .into_iter()
        .map(|r| r.field_by_index(0).unwrap().to_string())
        .collect();
    assert_eq!(all, ["1", "2", "3"]);
}

#[test]
fn error_positions_and_descriptions() {
    let err = parse("a,b\n1,2\n\"x").unwrap_err();
    assert_eq!(err.line, 3);
    assert!(err.describe().starts_with("3:"), "{}", err.describe());
    assert!(err.describe().ends_with(&err.message));
}

#[test]
fn a_shared_row_reads_the_same_fields() {
    let t = parse_ok("a,b\n1,2\n");
    let row = t.rows()[0].share();
    assert!(Arc::ptr_eq(&row.0, &t.rows()[0].0));
    assert_eq!(row.field_by_name("b").unwrap(), "2");
}

#[test]
fn a_blank_line_before_or_between_rows_reads_the_same() {
    let plain = parse_ok("a,b\n1,2\n3,4\n");
    for src in ["\na,b\n1,2\n3,4\n", "a,b\n\n1,2\n3,4\n", "a,b\n1,2\n\r\n3,4\n"] {
        let t = parse_ok(src);
        assert_eq!(t.headers(), plain.headers());
        assert_eq!(t.rows().len(), plain.rows().len());
        for (x, y) in t.rows().iter().zip(plain.rows()) {
            assert_eq!(row_fields(x), row_fields(y));
        }
    }
    let err = parse("\na\n1,2\n").unwrap_err();
    assert_eq!(err.line, 3);
}
