use nessemble::script::host::{
    script_path, ScriptPath,
    dynamic_to_bytes, format_hex, nes_shade_of, nes_shade_values, parse_int_list_dec,
    parse_int_list_radix, quantize_scalar, quantize_values, to_char, trimmed, ScriptValue,
};
use nessemble::script::purity::{call_impurity, write_mode, Impurity};
use nessemble::script::xml::parse;

#[test]
fn quantize_and_nes_shade_snap_to_palette_indices() {
    let scalars = [0, 100, 200, 255].map(nes_shade_of);
    assert_eq!(scalars, [0, 1, 2, 3]);
    assert_eq!(quantize_scalar(100, &[43, 128, 213]), 1);
    assert_eq!(nes_shade_values(&[0, 50, 130, 220]), vec![0, 1, 2, 3]);
    assert_eq!(quantize_values(&[0, 43, 44], &[43]), vec![0, 1, 1]);
}

#[test]
fn parse_int_list_trims_skips_empties_and_honors_radix() {
    let mut out = parse_int_list_dec(" 1, 2,,3 ,", ",").unwrap();
    out.extend(parse_int_list_radix("ff,1A", ",", 16).unwrap());
    assert_eq!(out, vec![1, 2, 3, 255, 26]);
}

#[test]
fn parse_int_list_errors_name_the_bad_field() {
    let err = parse_int_list_dec("1,x,3", ",").unwrap_err();
    assert!(err.contains("field 1") && err.contains('x'), "{err}");
    let err = parse_int_list_radix("1", ",", 37).unwrap_err();
    assert!(err.contains("37"), "{err}");
}

#[test]
fn to_char_trimmed_and_format_hex_round_out_the_string_gaps() {
    let s = to_char(72).unwrap() + to_char(73).unwrap().as_str();
    assert_eq!(s, "HI");
    assert_eq!(trimmed("  padded  "), "padded");
    let h = format_hex(255, 2).unwrap() + format_hex(-1, 2).unwrap().as_str() + format_hex(0x1A, 4).unwrap().as_str();
    assert_eq!(h, "$FF$FF$001A");
    assert!(to_char(0xD800).is_err());
    assert!(format_hex(1, 17).is_err());
}

#[test]
fn trimmed_does_not_mutate_the_original_string() {
    let s = "  hi  ";
    let t = trimmed(s);
    assert_eq!((s.len(), t.len()), (6, 2));
}

#[test]
fn returned_values_become_bytes() {
    assert_eq!(
        dynamic_to_bytes(ScriptValue::Array(vec![ScriptValue::Int(1), ScriptValue::Int(258)])),
        Ok(vec![1, 2])
    );
    assert_eq!(dynamic_to_bytes(ScriptValue::Unit), Ok(vec![]));
    assert_eq!(dynamic_to_bytes(ScriptValue::Str("hé".to_string())), Ok(vec![104, 0xC3, 0xA9]));
    assert_eq!(dynamic_to_bytes(ScriptValue::Int(-1)), Ok(vec![0xFF]));
    assert_eq!(
        dynamic_to_bytes(ScriptValue::Array(vec![ScriptValue::Str("x".to_string())])),
        Err("custom() returned a `string` element, expected an integer".to_string())
    );
    assert!(dynamic_to_bytes(ScriptValue::Other("map".to_string())).is_err());
}

#[test]
fn impure_calls_are_named() {
    assert_eq!(call_impurity("rand", 0, None), Some(Impurity::Calls("rand".to_string())));
    assert_eq!(call_impurity("len", 1, None), None);
    assert!(write_mode(1, None));
    assert!(!write_mode(2, Some("r")));
    assert!(write_mode(2, Some("a+")));
    assert!(write_mode(2, None));
    assert_eq!(Impurity::WritesAFile.reason(), "a file write");
    assert_eq!(Impurity::Calls("shuffle".to_string()).reason(), "`shuffle`");
}

fn ints_to_bytes(values: &[i64]) -> Vec<u8> {
    dynamic_to_bytes(ScriptValue::Array(values.iter().map(|v| ScriptValue::Int(*v)).collect()))
        .unwrap()
}

#[test]
fn run_still_returns_only_bytes() {
    assert_eq!(ints_to_bytes(&[1, 2]), vec![1, 2]);
}

#[test]
fn parse_xml_walks_elements_attrs_and_text() {
    let doc = parse("<map w=\"2\"><row>1,2</row><row>3,4</row></map>").unwrap();
    let mut out = vec![doc.attr("w").unwrap().parse::<i64>().unwrap()];
    for row in doc.find_all("row") {
        out.extend(parse_int_list_dec(row.text().unwrap(), ",").unwrap());
    }
    assert_eq!(ints_to_bytes(&out), vec![2, 1, 2, 3, 4]);
}

#[test]
fn parse_xml_rejects_doctype_and_unknown_entities() {
    let err = parse("<!DOCTYPE x><r/>").unwrap_err();
    assert!(err.describe().contains("DOCTYPE"), "{}", err.describe());
    let err = parse("<r>&nope;</r>").unwrap_err();
    assert!(err.describe().contains("&nope;"), "{}", err.describe());
}

#[test]
fn a_rooted_script_path_without_a_root_names_the_path() {
    let err = match script_path("@/assets/logo.bin", false) {
        Err(e) => e,
        Ok(_) => panic!("a rooted path with no root must be refused"),
    };
    assert!(err.contains("@/assets/logo.bin"));
    assert!(err.contains("no project root"));
}

#[test]
fn a_rooted_script_path_that_climbs_out_is_refused() {
    let err = match script_path("@/../secret.bin", true) {
        Err(e) => e,
        Ok(_) => panic!("a path above the root must be refused"),
    };
    assert_eq!(err, "`@/../secret.bin` resolves outside the project root");
    assert!(script_path("@/a/../../b", true).is_err());
}

#[test]
fn rooted_and_plain_script_paths_are_sorted_out() {
    match script_path("@/a/./b/../c.bin", true) {
        Ok(ScriptPath::FromRoot(rest)) => assert_eq!(rest, "a/./b/../c.bin"),
        _ => panic!("expected a rooted path"),
    }
    match script_path("data/x.csv", false) {
        Ok(ScriptPath::FromBase(rest)) => assert_eq!(rest, "data/x.csv"),
        _ => panic!("expected a plain path"),
    }
    match script_path("../x.csv", true) {
        Ok(ScriptPath::FromBase(rest)) => assert_eq!(rest, "../x.csv"),
        _ => panic!("expected a plain path"),
    }
}
