use jsontable::cell::format_cell;
use jsontable::{
    ColorizeIndex, ColorizeSpec, HtmlTableFormat, HtmlTablePrinter, JsonTable, JsonValue,
    PlainTextTableFormat, TableHeader, TablePrinter,
};

fn s(text: &str) -> String {
    String::from(text)
}

fn str_val(text: &str) -> JsonValue {
    JsonValue::String(s(text))
}

fn num_val(text: &str) -> JsonValue {
    JsonValue::Number(s(text))
}

fn obj(entries: Vec<(&str, JsonValue)>) -> JsonValue {
    JsonValue::Object(entries.into_iter().map(|(k, v)| (String::from(k), v)).collect())
}

fn city_table() -> JsonTable {
    JsonTable::new(
        None,
        &JsonValue::Array(vec![
            obj(vec![("city", str_val("Boston")), ("pop", num_val("4628910"))]),
            obj(vec![("city", str_val("Dallas")), ("pop", num_val("2156212"))]),
        ]),
    )
}

fn status_table() -> JsonTable {
    JsonTable::new(
        None,
        &JsonValue::Array(vec![
            obj(vec![("name", str_val("a")), ("status", str_val("active"))]),
            obj(vec![("name", str_val("b")), ("status", str_val("inactive"))]),
        ]),
    )
}

fn rule(text: &str) -> ColorizeSpec {
    ColorizeSpec::parse(&s(text)).expect("rule should parse")
}

#[test]
fn markdown_has_header_separator_and_rows() {
    let printer = TablePrinter::with_format(Vec::new(), PlainTextTableFormat::Markdown);
    let out = printer.print(&city_table());
    let lines: Vec<&str> = out.lines().collect();
    assert_eq!(lines.len(), 4);
    assert_eq!(lines[0], "| city | pop |");
    assert_eq!(lines[1], "| --- | --- |");
    assert_eq!(lines[2], "| Boston | 4628910 |");
    assert_eq!(lines[3], "| Dallas | 2156212 |");
}

#[test]
fn markdown_line_count_is_rows_plus_two() {
    let printer = TablePrinter::with_format(Vec::new(), PlainTextTableFormat::Markdown);
    let out = printer.print(&city_table());
    assert_eq!(out.matches('\n').count(), 2 + 2);
}

#[test]
fn markdown_escapes_pipes_and_newlines() {
    let table = JsonTable::new(
        Some(TableHeader::NamedFields { fields: vec![s("a")] }),
        &JsonValue::Array(vec![obj(vec![("a", str_val("x|y"))])]),
    );
    let printer = TablePrinter::with_format(Vec::new(), PlainTextTableFormat::Markdown);
    let out = printer.print(&table);
    assert!(out.contains("| x\\|y |"));
}

#[test]
fn html_has_one_row_element_per_row_plus_header() {
    let printer = HtmlTablePrinter::new(HtmlTableFormat::Raw);
    let out = printer.print(&city_table());
    assert_eq!(out.matches("<tr>").count(), 2 + 1);
    assert!(out.starts_with("<table>\n"));
    assert!(out.ends_with("</table>\n"));
    assert!(out.contains("<th>city</th><th>pop</th>"));
    assert!(out.contains("<td>Boston</td><td>4628910</td>"));
}

#[test]
fn html_styled_carries_matched_style_as_class() {
    let printer =
        HtmlTablePrinter::with_colorize(HtmlTableFormat::Styled, vec![rule("status:active:bFg")]);
    let out = printer.print(&status_table());
    assert!(out.contains("<td class=\"bFg\">active</td>"));
    assert!(out.contains("<td>inactive</td>"));
    assert!(!out.contains("class=\"bFg\">inactive"));
}

#[test]
fn html_raw_applies_no_styles() {
    let printer =
        HtmlTablePrinter::with_colorize(HtmlTableFormat::Raw, vec![rule("status:active:bFg")]);
    let out = printer.print(&status_table());
    assert!(!out.contains("class="));
    assert!(out.contains("<td>active</td>"));
}

#[test]
fn html_escapes_markup_in_cells() {
    let table = JsonTable::new(
        Some(TableHeader::NamedFields { fields: vec![s("a")] }),
        &JsonValue::Array(vec![obj(vec![("a", str_val("<b>&\"x\"</b>"))])]),
    );
    let out = HtmlTablePrinter::new(HtmlTableFormat::Raw).print(&table);
    assert!(out.contains("<td>&lt;b&gt;&amp;&quot;x&quot;&lt;/b&gt;</td>"));
}

#[test]
fn default_grid_shows_all_cells_with_borders() {
    let printer = TablePrinter::new(Vec::new());
    let out = printer.print(&city_table());
    assert!(out.contains("city"));
    assert!(out.contains("pop"));
    assert!(out.contains("Boston"));
    assert!(out.contains("4628910"));
    assert!(out.contains("Dallas"));
    assert!(out.contains('+'));
    assert!(out.contains('|'));
    assert!(out.contains('-'));
}

#[test]
fn rule_for_absent_column_changes_nothing() {
    let with_rule =
        HtmlTablePrinter::with_colorize(HtmlTableFormat::Styled, vec![rule("ghost:active:bFg")]);
    let without_rule = HtmlTablePrinter::new(HtmlTableFormat::Styled);
    assert_eq!(with_rule.print(&status_table()), without_rule.print(&status_table()));

    let grid_with = TablePrinter::new(vec![rule("ghost:active:bFg")]);
    let grid_without = TablePrinter::new(Vec::new());
    assert_eq!(grid_with.print(&status_table()), grid_without.print(&status_table()));
}

#[test]
fn lookup_picks_first_matching_rule_in_its_column() {
    let rules = vec![
        rule("status:active:bFg"),
        rule("status:active:rFb"),
        rule("name:active:uFy"),
    ];
    let table = status_table();
    let index = ColorizeIndex::build(&rules, table.headers());
    // Column 1 is `status`: the first matching rule wins.
    assert_eq!(index.style_for(1, &s("active")), Some(&s("bFg")));
    assert_eq!(index.style_for(1, &s("inactive")), None);
    // Column 0 is `name`: its rule triggers on its own column only.
    assert_eq!(index.style_for(0, &s("active")), Some(&s("uFy")));
    // Out-of-range columns have no rules.
    assert_eq!(index.style_for(9, &s("active")), None);
}

#[test]
fn single_column_table_renders_value_header() {
    let table = JsonTable::new(None, &JsonValue::Array(vec![num_val("1"), num_val("2")]));
    let printer = TablePrinter::with_format(Vec::new(), PlainTextTableFormat::Markdown);
    let out = printer.print(&table);
    let lines: Vec<&str> = out.lines().collect();
    assert_eq!(lines[0], "| value |");
    assert_eq!(lines[2], "| 1 |");
}

#[test]
fn nested_values_render_as_block_listings() {
    let table = JsonTable::new(
        Some(TableHeader::NamedFields { fields: vec![s("a")] }),
        &JsonValue::Array(vec![obj(vec![(
            "a",
            obj(vec![
                ("x", num_val("1")),
                ("y", JsonValue::Array(vec![num_val("2"), num_val("3")])),
            ]),
        )])]),
    );
    let out = HtmlTablePrinter::new(HtmlTableFormat::Raw).print(&table);
    assert!(out.contains("<td>x: 1\ny:\n  - 2\n  - 3</td>"));
}

#[test]
fn scalar_cells_use_canonical_text() {
    let table = JsonTable::new(
        Some(TableHeader::NamedFields {
            fields: vec![s("n"), s("t"), s("f"), s("z"), s("e"), s("l")],
        }),
        &JsonValue::Array(vec![obj(vec![
            ("n", JsonValue::Null),
            ("t", JsonValue::Bool(true)),
            ("f", JsonValue::Bool(false)),
            ("z", num_val("-12.5e3")),
            ("e", JsonValue::Object(vec![])),
            ("l", JsonValue::Array(vec![])),
        ])]),
    );
    let printer = TablePrinter::with_format(Vec::new(), PlainTextTableFormat::Markdown);
    let out = printer.print(&table);
    let lines: Vec<&str> = out.lines().collect();
    assert_eq!(lines[2], "| null | true | false | -12.5e3 | {} | [] |");
}

#[test]
fn markdown_keeps_multiline_cells_on_one_row() {
    let table = JsonTable::new(
        Some(TableHeader::NamedFields { fields: vec![s("a")] }),
        &JsonValue::Array(vec![obj(vec![(
            "a",
            obj(vec![("x", num_val("1")), ("y", num_val("2"))]),
        )])]),
    );
    let printer = TablePrinter::with_format(Vec::new(), PlainTextTableFormat::Markdown);
    let out = printer.print(&table);
    let lines: Vec<&str> = out.lines().collect();
    assert_eq!(lines.len(), 3);
    assert_eq!(lines[2], "| x: 1\\ny: 2 |");
}

#[test]
fn cells_format_scalars_and_blocks() {
    assert_eq!(format_cell(&JsonValue::Null), s("null"));
    assert_eq!(format_cell(&JsonValue::Bool(true)), s("true"));
    assert_eq!(format_cell(&num_val("3.50")), s("3.50"));
    assert_eq!(format_cell(&str_val("raw text")), s("raw text"));
    assert_eq!(format_cell(&JsonValue::Array(vec![])), s("[]"));
    assert_eq!(format_cell(&JsonValue::Object(vec![])), s("{}"));
    let nested = obj(vec![
        ("k", str_val("v")),
        ("deep", obj(vec![("inner", JsonValue::Array(vec![num_val("1"), obj(vec![("z", num_val("2"))])]))])),
    ]);
    assert_eq!(
        format_cell(&nested),
        s("k: v\ndeep:\n  inner:\n    - 1\n    -\n      z: 2"),
    );
}
