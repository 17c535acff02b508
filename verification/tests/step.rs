use musubicad::step::{
    normalize_step_header, normalize_time_stamp, replace_product_names, STEP_PRODUCT_NAME,
    STEP_TIMESTAMP,
};

#[test]
fn replaces_only_the_file_name_time_stamp() {
    let step = b"HEADER;\nFILE_NAME('Open CASCADE Shape Model','2026-09-25T21:04:05',('Author'),(''),'x','y','');\nENDSEC;";
    let normalized = String::from_utf8(normalize_step_header(step)).unwrap();
    assert!(normalized
        .contains("FILE_NAME('Open CASCADE Shape Model','1970-01-01T00:00:00',('Author')"));
    assert!(normalized.ends_with("ENDSEC;"));
}

#[test]
fn honours_escaped_quotes_and_missing_headers() {
    let step = b"FILE_NAME('it''s','2026-01-01T00:00:00',());";
    let normalized = String::from_utf8(normalize_step_header(step)).unwrap();
    assert_eq!(normalized, "FILE_NAME('it''s','1970-01-01T00:00:00',());");
    assert_eq!(normalize_step_header(b"no header"), b"no header".to_vec());
}

#[test]
fn replaces_counting_product_names() {
    let step = b"#7 = PRODUCT('Open CASCADE STEP translator 8.0 12',
  'Open CASCADE STEP translator 8.0 12','',(#8));";
    let normalized = String::from_utf8(normalize_step_header(step)).unwrap();
    assert_eq!(
        normalized,
        "#7 = PRODUCT('MusubiCAD',
  'MusubiCAD','',(#8));"
    );
}

#[test]
fn constants_match_the_bytes_written() {
    let out = normalize_time_stamp(b"FILE_NAME('a','b')");
    assert_eq!(out, format!("FILE_NAME('a','{}')", STEP_TIMESTAMP).into_bytes());
    let out = replace_product_names(b"'Open CASCADE STEP translator 1'");
    assert_eq!(out, format!("'{}'", STEP_PRODUCT_NAME).into_bytes());
}

#[test]
fn product_prefix_without_closing_quote_is_kept() {
    let text = b"x Open CASCADE STEP translator 7 and nothing else";
    assert_eq!(replace_product_names(text), text.to_vec());
}

#[test]
fn unterminated_time_stamp_replaces_to_the_end() {
    let out = normalize_time_stamp(b"FILE_NAME('n','2026");
    assert_eq!(out, b"FILE_NAME('n','1970-01-01T00:00:00".to_vec());
    // Only one quoted string: nothing to replace.
    assert_eq!(normalize_time_stamp(b"FILE_NAME('n')"), b"FILE_NAME('n')".to_vec());
}

#[test]
fn invalid_utf8_is_replaced_before_normalizing() {
    let out = normalize_step_header(b"a\xffb");
    assert_eq!(String::from_utf8(out).unwrap(), "a\u{FFFD}b");
}
