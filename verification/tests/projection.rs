use sqljson::json::{parse_i32, records_to_json, JsonValue, Record};
use sqljson::project::{project, ProjectError, UnknownTypePolicy};
use sqljson::rowset::{categorize, Cell, Column, ResultSet, Row, TypeCategory};
use sqljson::typed::{project_typed, typed_to_json};

fn col(name: &str, reported_type: &str) -> Column {
    Column { name: name.as_bytes().to_vec(), reported_type: reported_type.as_bytes().to_vec() }
}

fn raw(bytes: &str) -> Cell {
    Cell::Raw(bytes.as_bytes().to_vec())
}

fn rset(columns: Vec<Column>, rows: Vec<Vec<Cell>>) -> ResultSet {
    ResultSet { columns, rows: rows.into_iter().map(|cells| Row { cells }).collect() }
}

#[test]
fn categorize_recognizes_int_and_text() {
    assert_eq!(categorize(b"INT"), TypeCategory::IntegerLike);
    assert_eq!(categorize(b"TEXT"), TypeCategory::TextLike);
    assert_eq!(categorize(b"VARCHAR"), TypeCategory::Unrecognized);
    assert_eq!(categorize(b"int"), TypeCategory::Unrecognized);
    assert_eq!(categorize(b""), TypeCategory::Unrecognized);
}

#[test]
fn typed_shape_int_and_text_row() {
    let rs = rset(
        vec![col("pk", "INT"), col("message", "TEXT")],
        vec![vec![raw("1"), raw("hi")]],
    );
    let ts = project_typed(&rs);
    let body = typed_to_json(&ts);
    assert_eq!(body, b"[{\"pk\":1,\"message\":\"hi\"}]".to_vec());
}

#[test]
fn typed_shape_null_pk_is_omitted() {
    let rs = rset(
        vec![col("pk", "INT"), col("message", "TEXT")],
        vec![vec![Cell::Missing, raw("x")]],
    );
    let ts = project_typed(&rs);
    assert_eq!(ts.len(), 1);
    assert_eq!(ts[0].pk, None);
    assert_eq!(ts[0].message, Some(b"x".to_vec()));
    let body = typed_to_json(&ts);
    assert_eq!(body, b"[{\"message\":\"x\"}]".to_vec());
}

#[test]
fn zero_rows_yield_empty_array() {
    let rs = rset(vec![col("pk", "INT"), col("message", "TEXT")], vec![]);
    let ts = project_typed(&rs);
    assert_eq!(typed_to_json(&ts), b"[]".to_vec());
    let rs2 = rset(vec![col("pk", "INT")], vec![]);
    let records = project(&rs2, UnknownTypePolicy::EmptyText).unwrap();
    assert_eq!(records_to_json(&records), b"[]".to_vec());
}

#[test]
fn generic_shape_emits_every_column_in_order() {
    let rs = rset(
        vec![col("pk", "INT"), col("message", "TEXT"), col("extra", "BLOB")],
        vec![vec![raw("12"), raw("hello"), raw("whatever")]],
    );
    let records = project(&rs, UnknownTypePolicy::EmptyText).unwrap();
    assert_eq!(records.len(), 1);
    let body = records_to_json(&records);
    assert_eq!(
        body,
        b"[{\"pk\":12,\"message\":\"hello\",\"extra\":\"\"}]".to_vec()
    );
}

#[test]
fn generic_shape_null_policy_for_unknown_types() {
    let rs = rset(vec![col("x", "BLOB")], vec![vec![raw("data")]]);
    let records = project(&rs, UnknownTypePolicy::NullValue).unwrap();
    assert_eq!(records_to_json(&records), b"[{\"x\":null}]".to_vec());
}

#[test]
fn generic_shape_missing_cell_is_absent() {
    let rs = rset(
        vec![col("a", "TEXT"), col("b", "TEXT")],
        vec![vec![Cell::Missing, raw("kept")]],
    );
    let records = project(&rs, UnknownTypePolicy::EmptyText).unwrap();
    assert_eq!(records_to_json(&records), b"[{\"b\":\"kept\"}]".to_vec());
}

#[test]
fn generic_shape_integer_decode_failure_is_hard_error() {
    let rs = rset(
        vec![col("pk", "INT")],
        vec![vec![raw("7")], vec![raw("abc")]],
    );
    let err = project(&rs, UnknownTypePolicy::EmptyText).unwrap_err();
    assert_eq!(err, ProjectError { row: 1 });
}

#[test]
fn projection_is_idempotent_byte_for_byte() {
    let rs = rset(
        vec![col("pk", "INT"), col("message", "TEXT")],
        vec![vec![raw("-5"), raw("two words")], vec![raw("0"), raw("")]],
    );
    let a = records_to_json(&project(&rs, UnknownTypePolicy::EmptyText).unwrap());
    let b = records_to_json(&project(&rs, UnknownTypePolicy::EmptyText).unwrap());
    assert_eq!(a, b);
    let ta = typed_to_json(&project_typed(&rs));
    let tb = typed_to_json(&project_typed(&rs));
    assert_eq!(ta, tb);
}

#[test]
fn round_trip_of_int_and_text_values() {
    let rs = rset(
        vec![col("pk", "INT"), col("message", "TEXT")],
        vec![vec![raw("-2147483648"), raw("plain")]],
    );
    let records = project(&rs, UnknownTypePolicy::EmptyText).unwrap();
    let body = records_to_json(&records);
    assert_eq!(
        body,
        b"[{\"pk\":-2147483648,\"message\":\"plain\"}]".to_vec()
    );
    // The number's rendering parses back to the original value.
    assert_eq!(parse_i32(b"-2147483648"), Some(i32::MIN));
}

#[test]
fn string_escaping_is_exact() {
    let mut message = Vec::new();
    message.extend_from_slice(b"a\"b\\c");
    message.push(10);
    let rs = rset(
        vec![col("message", "TEXT")],
        vec![vec![Cell::Raw(message)]],
    );
    let records = project(&rs, UnknownTypePolicy::EmptyText).unwrap();
    assert_eq!(
        records_to_json(&records),
        b"[{\"message\":\"a\\\"b\\\\c\\u000a\"}]".to_vec()
    );
}

#[test]
fn parse_i32_accepts_signs_and_rejects_overflow() {
    assert_eq!(parse_i32(b"0"), Some(0));
    assert_eq!(parse_i32(b"+41"), Some(41));
    assert_eq!(parse_i32(b"007"), Some(7));
    assert_eq!(parse_i32(b"2147483647"), Some(i32::MAX));
    assert_eq!(parse_i32(b"2147483648"), None);
    assert_eq!(parse_i32(b"-2147483649"), None);
    assert_eq!(parse_i32(b"99999999999999999999"), None);
    assert_eq!(parse_i32(b""), None);
    assert_eq!(parse_i32(b"-"), None);
    assert_eq!(parse_i32(b"1a"), None);
    assert_eq!(parse_i32(b" 1"), None);
}

#[test]
fn typed_shape_parses_pk_from_text_and_drops_unparsable() {
    // A text-like pk that parses is kept, per the generic string map.
    let rs = rset(
        vec![col("pk", "TEXT"), col("message", "INT")],
        vec![vec![raw("7"), raw("42")]],
    );
    let ts = project_typed(&rs);
    let body = typed_to_json(&ts);
    assert_eq!(body, b"[{\"pk\":7,\"message\":\"42\"}]".to_vec());

    // An unparsable pk degrades to an omitted field, never a panic.
    let rs2 = rset(
        vec![col("pk", "TEXT"), col("message", "TEXT")],
        vec![vec![raw("seven"), raw("ok")]],
    );
    let body2 = typed_to_json(&project_typed(&rs2));
    assert_eq!(body2, b"[{\"message\":\"ok\"}]".to_vec());
}

#[test]
fn empty_record_serializes_as_empty_object() {
    let rs = rset(vec![col("a", "TEXT")], vec![vec![Cell::Missing]]);
    let records = project(&rs, UnknownTypePolicy::EmptyText).unwrap();
    assert_eq!(records_to_json(&records), b"[{}]".to_vec());
    let ts = project_typed(&rs);
    assert_eq!(typed_to_json(&ts), b"[{}]".to_vec());
}

#[test]
fn record_builder_matches_expected_bytes() {
    let rec = Record {
        fields: vec![
            (b"n".to_vec(), JsonValue::Int(-12)),
            (b"s".to_vec(), JsonValue::Str(b"v".to_vec())),
            (b"z".to_vec(), JsonValue::Null),
        ],
    };
    let out = records_to_json(&vec![rec]);
    assert_eq!(out, b"[{\"n\":-12,\"s\":\"v\",\"z\":null}]".to_vec());
}
