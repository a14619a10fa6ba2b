use jsontable::{JsonTable, JsonValue, OneShotJsonReader, StreamingJsonReader, TableHeader};

fn s(text: &str) -> String {
    String::from(text)
}

fn str_val(text: &str) -> JsonValue {
    JsonValue::String(s(text))
}

fn num_val(text: &str) -> JsonValue {
    JsonValue::Number(s(text))
}

fn obj(entries: Vec<(&str, JsonValue)>) -> JsonValue {
    JsonValue::Object(entries.into_iter().map(|(k, v)| (String::from(k), v)).collect())
}

fn city_rows() -> JsonValue {
    JsonValue::Array(vec![
        obj(vec![("city", str_val("Boston")), ("pop", num_val("4628910"))]),
        obj(vec![("city", str_val("Dallas")), ("pop", num_val("2156212"))]),
    ])
}

#[test]
fn infers_headers_from_first_object_row() {
    let table = JsonTable::new(None, &city_rows());
    match table.headers() {
        TableHeader::NamedFields { fields } => {
            assert_eq!(fields, &vec![s("city"), s("pop")]);
        }
        TableHeader::SingleUnnamedColumn => panic!("expected named fields"),
    }
    assert_eq!(table.num_rows(), 2);
    assert_eq!(table.row_at(0), &vec![str_val("Boston"), num_val("4628910")]);
    assert_eq!(table.row_at(1), &vec![str_val("Dallas"), num_val("2156212")]);
}

#[test]
fn every_row_has_one_cell_per_column() {
    // Rows of very different shapes all project to the header's width.
    let input = JsonValue::Array(vec![
        obj(vec![("a", num_val("1"))]),
        obj(vec![("b", num_val("2")), ("c", num_val("3"))]),
        JsonValue::Null,
        str_val("plain"),
    ]);
    let headers = TableHeader::NamedFields { fields: vec![s("a"), s("b"), s("c")] };
    let table = JsonTable::new(Some(headers), &input);
    assert_eq!(table.num_rows(), 4);
    for r in 0..table.num_rows() {
        assert_eq!(table.row_at(r).len(), 3);
    }
}

#[test]
fn missing_field_projects_to_null() {
    let input = JsonValue::Array(vec![obj(vec![("a", num_val("1"))])]);
    let headers = TableHeader::NamedFields { fields: vec![s("a"), s("missing")] };
    let table = JsonTable::new(Some(headers), &input);
    assert_eq!(table.row_at(0), &vec![num_val("1"), JsonValue::Null]);
}

#[test]
fn inference_is_deterministic_and_empty_falls_back() {
    let first = JsonTable::new(None, &city_rows());
    let second = JsonTable::new(None, &city_rows());
    assert_eq!(first.headers(), second.headers());

    let empty = JsonTable::new(None, &JsonValue::Array(vec![]));
    assert_eq!(empty.headers(), &TableHeader::SingleUnnamedColumn);
    assert_eq!(empty.num_rows(), 0);
}

#[test]
fn non_object_first_row_falls_back_to_single_column() {
    let input = JsonValue::Array(vec![num_val("1"), num_val("2")]);
    let table = JsonTable::new(None, &input);
    assert_eq!(table.headers(), &TableHeader::SingleUnnamedColumn);
    assert_eq!(table.num_rows(), 2);
    assert_eq!(table.row_at(0), &vec![num_val("1")]);
}

#[test]
fn non_array_root_is_a_single_row() {
    let input = obj(vec![("k", str_val("v"))]);
    let table = JsonTable::new(None, &input);
    assert_eq!(table.num_rows(), 1);
    assert_eq!(table.row_at(0), &vec![str_val("v")]);
}

#[test]
fn one_shot_cap_truncates_arrays_only() {
    let arr = JsonValue::Array(vec![num_val("1"), num_val("2"), num_val("3")]);
    let taken = OneShotJsonReader::new(arr).read_value(Some(2));
    assert_eq!(taken, JsonValue::Array(vec![num_val("1"), num_val("2")]));

    let arr = JsonValue::Array(vec![num_val("1"), num_val("2")]);
    let untouched = OneShotJsonReader::new(arr).read_value(None);
    assert_eq!(untouched, JsonValue::Array(vec![num_val("1"), num_val("2")]));

    let scalar = OneShotJsonReader::new(num_val("7")).read_value(Some(1));
    assert_eq!(scalar, num_val("7"));
}

#[test]
fn streaming_cap_admits_exactly_ten_of_five_hundred() {
    let mut lines: Vec<Result<JsonValue, String>> = Vec::new();
    for i in 0..500 {
        lines.push(Ok(obj(vec![("n", num_val(&i.to_string()))])));
    }
    let (value, warnings) = StreamingJsonReader::new(lines).read_value(Some(10));
    match value {
        JsonValue::Array(rows) => assert_eq!(rows.len(), 10),
        _ => panic!("expected an array"),
    }
    assert!(warnings.is_empty());
}

#[test]
fn streaming_defaults_to_one_hundred_lines() {
    let mut lines: Vec<Result<JsonValue, String>> = Vec::new();
    for i in 0..500 {
        lines.push(Ok(num_val(&i.to_string())));
    }
    let (value, _) = StreamingJsonReader::new(lines).read_value(None);
    match value {
        JsonValue::Array(rows) => assert_eq!(rows.len(), 100),
        _ => panic!("expected an array"),
    }
}

#[test]
fn streaming_reports_bad_lines_and_keeps_good_ones() {
    let lines: Vec<Result<JsonValue, String>> = vec![
        Ok(num_val("1")),
        Err(s("expected value at line 1 column 1")),
        Ok(num_val("2")),
    ];
    let (value, warnings) = StreamingJsonReader::new(lines).read_value(None);
    assert_eq!(value, JsonValue::Array(vec![num_val("1"), num_val("2")]));
    assert_eq!(
        warnings,
        vec![s("error parsing row: expected value at line 1 column 1")],
    );
}
