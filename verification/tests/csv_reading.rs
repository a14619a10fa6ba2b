use jsontable::{CsvReader, CsvReaderOptions, JsonValue};

fn s(text: &str) -> String {
    String::from(text)
}

fn str_val(text: &str) -> JsonValue {
    JsonValue::String(s(text))
}

fn obj(entries: Vec<(&str, JsonValue)>) -> JsonValue {
    JsonValue::Object(entries.into_iter().map(|(k, v)| (String::from(k), v)).collect())
}

fn read_csv(data: &str, delimiter: u8, has_header: bool, take: Option<usize>) -> (JsonValue, Vec<String>) {
    CsvReader::new(String::from(data), CsvReaderOptions { delimiter, has_header })
        .read_value(take)
}

#[test]
fn table_it_works() {
    let data = vec![
        "city,country,pop",
        "Boston,United States,4628910",
        "Dallas,United States,2156212",
    ]
    .join("\n");

    let (value, warnings) = read_csv(&data, b',', true, None);

    assert_eq!(
        value,
        JsonValue::Array(vec![
            obj(vec![
                ("city", str_val("Boston")),
                ("country", str_val("United States")),
                ("pop", str_val("4628910")),
            ]),
            obj(vec![
                ("city", str_val("Dallas")),
                ("country", str_val("United States")),
                ("pop", str_val("2156212")),
            ]),
        ]),
    );
    assert!(warnings.is_empty());
}

#[test]
fn reader_it_works() {
    let data = vec![
        "city,country,pop",
        "Boston,United States,4628910",
        "Dallas,United States,2156212",
    ]
    .join("\n");

    let (value, _) = read_csv(&data, b',', true, None);

    assert_eq!(
        value,
        JsonValue::Array(vec![
            obj(vec![
                ("city", str_val("Boston")),
                ("country", str_val("United States")),
                ("pop", str_val("4628910")),
            ]),
            obj(vec![
                ("city", str_val("Dallas")),
                ("country", str_val("United States")),
                ("pop", str_val("2156212")),
            ]),
        ]),
    );
}

#[test]
fn csv_values_stay_text() {
    let (value, warnings) = read_csv("a,b\n1,2\n3,4", b',', true, None);
    assert_eq!(
        value,
        JsonValue::Array(vec![
            obj(vec![("a", str_val("1")), ("b", str_val("2"))]),
            obj(vec![("a", str_val("3")), ("b", str_val("4"))]),
        ]),
    );
    assert!(warnings.is_empty());
}

#[test]
fn csv_ragged_record_dropped_with_diagnostic() {
    let (value, warnings) = read_csv("a,b\n1,2\nonly-one\n3,4", b',', true, None);
    assert_eq!(
        value,
        JsonValue::Array(vec![
            obj(vec![("a", str_val("1")), ("b", str_val("2"))]),
            obj(vec![("a", str_val("3")), ("b", str_val("4"))]),
        ]),
    );
    assert_eq!(warnings, vec![String::from("skipped csv record: field count mismatch")]);
}

#[test]
fn csv_without_header_uses_positional_names() {
    let (value, warnings) = read_csv("x,y\n7,8", b',', false, None);
    assert_eq!(
        value,
        JsonValue::Array(vec![
            obj(vec![("_c0", str_val("x")), ("_c1", str_val("y"))]),
            obj(vec![("_c0", str_val("7")), ("_c1", str_val("8"))]),
        ]),
    );
    assert!(warnings.is_empty());
}

#[test]
fn csv_semicolon_delimiter_and_crlf() {
    let (value, warnings) = read_csv("a;b\r\n1;2\r\n", b';', true, None);
    assert_eq!(
        value,
        JsonValue::Array(vec![obj(vec![("a", str_val("1")), ("b", str_val("2"))])]),
    );
    assert!(warnings.is_empty());
}

#[test]
fn csv_record_cap_applies_after_header() {
    let (value, _) = read_csv("h\n1\n2\n3\n4", b',', true, Some(2));
    assert_eq!(
        value,
        JsonValue::Array(vec![obj(vec![("h", str_val("1"))]), obj(vec![("h", str_val("2"))])]),
    );
}

#[test]
fn csv_empty_input_yields_no_rows() {
    let (value, warnings) = read_csv("", b',', true, None);
    assert_eq!(value, JsonValue::Array(vec![]));
    assert!(warnings.is_empty());
}
