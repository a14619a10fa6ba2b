use jsontable::config::parse_key_val;
use jsontable::{
    ColorizeSpec, ConfigError, CsvReaderOptions, HtmlTableFormat, InputFormat,
    PlainTextTableFormat, TableFormat,
};

fn s(text: &str) -> String {
    String::from(text)
}

fn pairs(kvs: Vec<(&str, &str)>) -> Vec<(String, String)> {
    kvs.into_iter().map(|(k, v)| (s(k), s(v))).collect()
}

#[test]
fn colorize_rule_parses_into_its_three_parts() {
    let rule = ColorizeSpec::parse(&s("status:active:bFg")).expect("should parse");
    assert_eq!(rule.field(), &s("status"));
    assert_eq!(rule.value(), &s("active"));
    assert_eq!(rule.style(), &s("bFg"));
}

#[test]
fn colorize_trigger_value_may_hold_colons() {
    let rule = ColorizeSpec::parse(&s("url:http://x:bFg")).expect("should parse");
    assert_eq!(rule.field(), &s("url"));
    assert_eq!(rule.value(), &s("http://x"));
    assert_eq!(rule.style(), &s("bFg"));
}

#[test]
fn malformed_colorize_rules_are_rejected() {
    let message = "wrong colorize expression. Should be in the form of : 'field:value:spec'";
    for bad in ["", "nocolon", "a:b", ":v:bFg", "a::bFg", "a:b:", "a:b:b1g", "a:b:c:d9"] {
        match ColorizeSpec::parse(&s(bad)) {
            Ok(_) => panic!("{} should not parse", bad),
            Err(m) => assert_eq!(m, s(message)),
        }
    }
}

#[test]
fn format_names_resolve_and_unknown_names_fail() {
    assert_eq!(
        TableFormat::from_str("default"),
        Ok(TableFormat::PlainText(PlainTextTableFormat::Default)),
    );
    assert_eq!(
        TableFormat::from_str("markdown"),
        Ok(TableFormat::PlainText(PlainTextTableFormat::Markdown)),
    );
    assert_eq!(TableFormat::from_str("html"), Ok(TableFormat::Html(HtmlTableFormat::Styled)));
    assert_eq!(TableFormat::from_str("html-raw"), Ok(TableFormat::Html(HtmlTableFormat::Raw)));
    assert_eq!(TableFormat::from_str("yaml"), Err(s("unknown format: yaml")));
}

#[test]
fn input_format_names_resolve_and_unknown_names_fail() {
    assert_eq!(InputFormat::from_str("json"), Ok(InputFormat::Json));
    assert_eq!(InputFormat::from_str("jsonl"), Ok(InputFormat::JsonLines));
    assert_eq!(InputFormat::from_str("csv"), Ok(InputFormat::Csv));
    assert_eq!(InputFormat::from_str("xml"), Err(s("Unknown input format: xml")));
}

#[test]
fn key_val_splits_at_the_first_equals_sign() {
    assert_eq!(parse_key_val("delimiter=;"), Ok((s("delimiter"), s(";"))));
    assert_eq!(parse_key_val("a=b=c"), Ok((s("a"), s("b=c"))));
    assert_eq!(
        parse_key_val("nothing"),
        Err(s("invalid KEY=value: no `=` found in `nothing`")),
    );
}

#[test]
fn csv_options_defaults_and_overrides() {
    let opts = CsvReaderOptions::from_pairs(&pairs(vec![])).expect("defaults should resolve");
    assert_eq!(opts, CsvReaderOptions { delimiter: b',', has_header: true });

    let opts = CsvReaderOptions::from_pairs(&pairs(vec![
        ("delimiter", ";"),
        ("has_header", "false"),
    ]))
    .expect("options should resolve");
    assert_eq!(opts, CsvReaderOptions { delimiter: b';', has_header: false });

    // A later pair overrides an earlier one.
    let opts = CsvReaderOptions::from_pairs(&pairs(vec![
        ("has_header", "false"),
        ("has_header", "true"),
    ]))
    .expect("options should resolve");
    assert!(opts.has_header);
}

#[test]
fn csv_options_reject_bad_values() {
    match CsvReaderOptions::from_pairs(&pairs(vec![("has_header", "maybe")])) {
        Err(ConfigError::InvalidHasHeader(v)) => assert_eq!(v, s("maybe")),
        other => panic!("unexpected result: {:?}", other),
    }
    match CsvReaderOptions::from_pairs(&pairs(vec![("delimiter", "")])) {
        Err(ConfigError::EmptyDelimiter) => {}
        other => panic!("unexpected result: {:?}", other),
    }
    match CsvReaderOptions::from_pairs(&pairs(vec![("delimiter", "ab")])) {
        Err(ConfigError::LongDelimiter(v)) => assert_eq!(v, s("ab")),
        other => panic!("unexpected result: {:?}", other),
    }
    match CsvReaderOptions::from_pairs(&pairs(vec![("colour", "red")])) {
        Err(ConfigError::UnknownCsvOption(k)) => assert_eq!(k, s("colour")),
        other => panic!("unexpected result: {:?}", other),
    }
}

#[test]
fn config_errors_carry_readable_messages() {
    assert_eq!(
        ConfigError::EmptyDelimiter.message(),
        s("delimiter must not be empty string"),
    );
    assert_eq!(
        ConfigError::LongDelimiter(s("ab")).message(),
        s("delimiter must be exactly 1 byte. Found: ab"),
    );
    assert_eq!(
        ConfigError::UnknownCsvOption(s("colour")).message(),
        s("unknown options for csv reader: colour"),
    );
    assert_eq!(
        ConfigError::InvalidHasHeader(s("maybe")).message(),
        s("invalid has_header value: maybe"),
    );
}
