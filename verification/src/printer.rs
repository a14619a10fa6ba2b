//! Output formats and the table printers: the bordered terminal grid, the
//! Markdown table, and the HTML table.

use vstd::prelude::*;

use crate::cell::{fmt_model, format_cell};
use crate::colorize::{index_lookup, index_spec, rule_models, ColorizeIndex, ColorizeSpec, RuleModel};
use crate::grid::{
    pt_cell_new, pt_cell_style, pt_cell_style_spec, pt_cell_text, pt_grid_text, pt_row_cells,
    pt_row_new, pt_table_add_row, pt_table_new, pt_table_rows, pt_table_to_string,
};
use crate::table::{header_model, HeaderModel, JsonTable, TableHeader};
use crate::value::{seq_models, val_model, JsonValue, ValueModel};

verus! {

broadcast use vstd::std_specs::vec::group_vec_axioms;

/// The two plain-text table layouts.
#[derive(Debug, Clone, Copy, PartialEq, Eq)]
pub enum PlainTextTableFormat {
    Default,
    Markdown,
}

/// The two HTML table layouts.
#[derive(Debug, Clone, Copy, PartialEq, Eq)]
pub enum HtmlTableFormat {
    Styled,
    Raw,
}

/// The closed choice of output formats.
#[derive(Debug, Clone, Copy, PartialEq, Eq)]
pub enum TableFormat {
    PlainText(PlainTextTableFormat),
    Html(HtmlTableFormat),
}

/// The format a name on the configuration surface selects.
pub open spec fn format_of_name(s: Seq<char>) -> Option<TableFormat> {
    if s == "default"@ {
        Some(TableFormat::PlainText(PlainTextTableFormat::Default))
    } else if s == "markdown"@ {
        Some(TableFormat::PlainText(PlainTextTableFormat::Markdown))
    } else if s == "html"@ {
        Some(TableFormat::Html(HtmlTableFormat::Styled))
    } else if s == "html-raw"@ {
        Some(TableFormat::Html(HtmlTableFormat::Raw))
    } else {
        None
    }
}

impl TableFormat {
    /// Resolves a format name: `default`, `markdown`, `html` or
    /// `html-raw`; any other name is rejected.
    pub fn from_str(s: &str) -> (r: Result<TableFormat, String>)
        ensures
            match r {
                Ok(f) => format_of_name(s@) == Some(f),
                Err(m) => format_of_name(s@) is None && m@ == "unknown format: "@ + s@,
            },
    {
        let owned = s.to_owned();
        if owned.eq(&String::from_str("default")) {
            Ok(TableFormat::PlainText(PlainTextTableFormat::Default))
        } else if owned.eq(&String::from_str("markdown")) {
            Ok(TableFormat::PlainText(PlainTextTableFormat::Markdown))
        } else if owned.eq(&String::from_str("html")) {
            Ok(TableFormat::Html(HtmlTableFormat::Styled))
        } else if owned.eq(&String::from_str("html-raw")) {
            Ok(TableFormat::Html(HtmlTableFormat::Raw))
        } else {
            let mut m = String::from_str("unknown format: ");
            m.append(s);
            Err(m)
        }
    }
}

/// The header texts every renderer emits first: the column names, or the
/// literal placeholder for the single unnamed column.
pub open spec fn header_texts(h: HeaderModel) -> Seq<Seq<char>> {
    match h {
        HeaderModel::Named(names) => names,
        HeaderModel::Single => seq!["value"@],
    }
}

/// The formatted texts of one row's cells.
pub open spec fn row_texts(row: Seq<ValueModel>) -> Seq<Seq<char>> {
    Seq::new(row.len(), |i: int| fmt_model(row[i]))
}

/// The formatted texts of the whole table body.
pub open spec fn table_texts(rows: Seq<Seq<ValueModel>>) -> Seq<Seq<Seq<char>>> {
    Seq::new(rows.len(), |i: int| row_texts(rows[i]))
}

/// The header texts as strings.
pub(crate) fn header_strings(h: &TableHeader) -> (r: Vec<String>)
    ensures
        r.deep_view() == header_texts(header_model(*h)),
{
    match h {
        TableHeader::NamedFields { fields } => {
            let mut r: Vec<String> = Vec::new();
            let mut i: usize = 0;
            while i < fields.len()
                invariant
                    i <= fields@.len(),
                    r@.len() == i as int,
                    forall|j: int| 0 <= j < i ==> r@[j]@ == fields@[j]@,
                decreases fields@.len() - i,
            {
                r.push(fields[i].clone());
                i = i + 1;
            }
            proof {
                assert(r.deep_view() =~= header_texts(header_model(*h)));
            }
            r
        },
        TableHeader::SingleUnnamedColumn => {
            let mut r: Vec<String> = Vec::new();
            r.push(String::from_str("value"));
            proof {
                assert(r.deep_view() =~= header_texts(header_model(*h)));
            }
            r
        },
    }
}

/// Formats every cell of one row.
pub(crate) fn format_row(cells: &Vec<JsonValue>) -> (r: Vec<String>)
    ensures
        r.deep_view() == row_texts(seq_models(cells@)),
{
    broadcast use crate::value::lemma_seq_models;

    let mut r: Vec<String> = Vec::new();
    let mut i: usize = 0;
    while i < cells.len()
        invariant
            i <= cells@.len(),
            r@.len() == i as int,
            forall|j: int| 0 <= j < i ==> r@[j]@ == fmt_model(val_model(cells@[j])),
        decreases cells@.len() - i,
    {
        r.push(format_cell(&cells[i]));
        i = i + 1;
    }
    proof {
        assert(r.deep_view() =~= row_texts(seq_models(cells@)));
    }
    r
}

/// The style actually applied to a cell: the style the rules select,
/// unless none matched or the tag holds the horizontal-span directive
/// `H`, which this backend does not apply.
pub open spec fn applied_style(o: Option<Seq<char>>) -> Seq<char> {
    match o {
        Some(st) => if st.contains('H') {
            Seq::empty()
        } else {
            st
        },
        None => Seq::empty(),
    }
}

/// The header row handed to the grid backend: every named column bold and
/// colored, the unnamed-column placeholder unstyled.
pub open spec fn grid_header_cells(h: HeaderModel) -> Seq<(Seq<char>, Seq<char>)> {
    match h {
        HeaderModel::Named(names) => Seq::new(names.len(), |i: int| (names[i], "bFc"@)),
        HeaderModel::Single => seq![("value"@, Seq::<char>::empty())],
    }
}

/// One body cell handed to the grid backend: its formatted text and the
/// style its column's rules select for that text.
pub open spec fn grid_body_cell(idx: Seq<Seq<RuleModel>>, c: int, m: ValueModel) -> (
    Seq<char>,
    Seq<char>,
) {
    (fmt_model(m), applied_style(index_lookup(idx, c, fmt_model(m))))
}

/// One body row handed to the grid backend.
pub open spec fn grid_body_row(idx: Seq<Seq<RuleModel>>, row: Seq<ValueModel>) -> Seq<
    (Seq<char>, Seq<char>),
> {
    Seq::new(row.len(), |c: int| grid_body_cell(idx, c, row[c]))
}

/// The whole grid handed to the backend: the header row, then one row per
/// table row.
pub open spec fn default_grid(
    h: HeaderModel,
    rows: Seq<Seq<ValueModel>>,
    idx: Seq<Seq<RuleModel>>,
) -> Seq<Seq<(Seq<char>, Seq<char>)>> {
    seq![grid_header_cells(h)] + Seq::new(rows.len(), |r: int| grid_body_row(idx, rows[r]))
}

/// True when the tag holds the `H` directive.
fn style_has_h(style: &String) -> (b: bool)
    ensures
        b == style@.contains('H'),
{
    let st: &str = style.as_str();
    let n: usize = st.unicode_len();
    let mut i: usize = 0;
    while i < n
        invariant
            st@ == style@,
            n == style@.len(),
            i <= n,
            forall|j: int| 0 <= j < i ==> style@[j] != 'H',
        decreases n - i,
    {
        if st.get_char(i) == 'H' {
            proof {
                assert(style@[i as int] == 'H');
            }
            return true;
        }
        i = i + 1;
    }
    proof {
        assert(!style@.contains('H')) by {
            if style@.contains('H') {
                let j = choose|j: int| 0 <= j < style@.len() && style@[j] == 'H';
                assert(style@[j] != 'H');
            }
        }
    }
    false
}

/// The plain-text table printer: renders a table as a bordered
/// fixed-width grid, or as a Markdown table.
pub struct TablePrinter {
    colorize: Vec<ColorizeSpec>,
    format: PlainTextTableFormat,
}

impl TablePrinter {
    /// The rules this printer applies.
    pub closed spec fn rules(&self) -> Seq<RuleModel> {
        rule_models(self.colorize@)
    }

    /// The layout this printer renders.
    pub closed spec fn layout(&self) -> PlainTextTableFormat {
        self.format
    }

    /// A printer for the default bordered grid with the given rules.
    pub fn new(colorize: Vec<ColorizeSpec>) -> (p: TablePrinter)
        ensures
            p.rules() == rule_models(colorize@),
            p.layout() == PlainTextTableFormat::Default,
    {
        TablePrinter { colorize, format: PlainTextTableFormat::Default }
    }

    /// A printer for the given plain-text layout with the given rules.
    pub fn with_format(colorize: Vec<ColorizeSpec>, format: PlainTextTableFormat) -> (p:
        TablePrinter)
        ensures
            p.rules() == rule_models(colorize@),
            p.layout() == format,
    {
        TablePrinter { colorize, format }
    }

    /// Builds the backend table for the bordered grid: the header row,
    /// then every data row with each cell formatted and, where a rule
    /// matches its text, styled.
    pub fn build_table(&self, data: &JsonTable) -> (t: prettytable::Table)
        ensures
            pt_table_rows(t) == default_grid(
                data@.headers,
                data@.rows,
                index_spec(self.rules(), data@.headers),
            ),
            crate::grid::pt_table_fresh(t),
    {
        let idx = ColorizeIndex::build(&self.colorize, data.headers());
        let ghost idx_m = index_spec(self.rules(), data@.headers);
        let mut t = pt_table_new();

        // Header row.
        let mut header_cells: Vec<prettytable::Cell> = Vec::new();
        match data.headers() {
            TableHeader::NamedFields { fields } => {
                let mut i: usize = 0;
                while i < fields.len()
                    invariant
                        i <= fields@.len(),
                        header_cells@.len() == i as int,
                        forall|j: int|
                            0 <= j < i ==> pt_cell_text(#[trigger] header_cells@[j]) == fields@[j]@
                                && pt_cell_style(header_cells@[j]) == "bFc"@,
                    decreases fields@.len() - i,
                {
                    let cell = pt_cell_new(fields[i].as_str());
                    proof {
                        reveal_strlit("bFc");
                        reveal_strlit("H");
                        assert(!"bFc"@.contains('H')) by {
                            if "bFc"@.contains('H') {
                                let j = choose|j: int|
                                    0 <= j < "bFc"@.len() && "bFc"@[j] == 'H';
                            }
                        }
                    }
                    let cell = pt_cell_style_spec(cell, "bFc");
                    header_cells.push(cell);
                    i = i + 1;
                }
            },
            TableHeader::SingleUnnamedColumn => {
                header_cells.push(pt_cell_new("value"));
            },
        }
        proof {
            assert(header_cells@.map_values(
                |c: prettytable::Cell| (pt_cell_text(c), pt_cell_style(c)),
            ) =~= grid_header_cells(data@.headers));
        }
        let header_row = pt_row_new(header_cells);
        pt_table_add_row(&mut t, header_row);

        // Data rows.
        let n = data.num_rows();
        let mut r: usize = 0;
        while r < n
            invariant
                n == data@.rows.len(),
                idx@ == idx_m,
                idx_m == index_spec(self.rules(), data@.headers),
                r <= n,
                pt_table_rows(t) =~= (seq![grid_header_cells(data@.headers)] + Seq::new(
                    r as nat,
                    |k: int| grid_body_row(idx_m, data@.rows[k]),
                )),
                crate::grid::pt_table_fresh(t),
            decreases n - r,
        {
            let cells = data.row_at(r);
            let texts = format_row(cells);
            let ghost row_m = data@.rows[r as int];
            proof {
                assert(texts.deep_view().len() == texts@.len());
                assert(texts.deep_view().len() == row_texts(row_m).len());
            }
            let mut row_cells: Vec<prettytable::Cell> = Vec::new();
            let mut c: usize = 0;
            while c < texts.len()
                invariant
                    texts.deep_view() == row_texts(row_m),
                    texts@.len() == row_m.len(),
                    idx@ == idx_m,
                    c <= texts@.len(),
                    row_cells@.len() == c as int,
                    forall|j: int|
                        0 <= j < c ==> (pt_cell_text(#[trigger] row_cells@[j]), pt_cell_style(
                            row_cells@[j],
                        )) == grid_body_cell(idx_m, j, row_m[j]),
                decreases texts@.len() - c,
            {
                proof {
                    assert(texts.deep_view()[c as int] == texts@[c as int]@);
                    assert(texts@[c as int]@ == fmt_model(row_m[c as int]));
                }
                let cell = pt_cell_new(texts[c].as_str());
                let cell = match idx.style_for(c, &texts[c]) {
                    Some(style) => {
                        let style = style.clone();
                        if style_has_h(&style) {
                            cell
                        } else {
                            pt_cell_style_spec(cell, style.as_str())
                        }
                    },
                    None => cell,
                };
                row_cells.push(cell);
                c = c + 1;
            }
            proof {
                assert(row_cells@.map_values(
                    |cl: prettytable::Cell| (pt_cell_text(cl), pt_cell_style(cl)),
                ) =~= grid_body_row(idx_m, row_m));
            }
            let row = pt_row_new(row_cells);
            pt_table_add_row(&mut t, row);
            proof {
                assert(pt_table_rows(t) =~= (seq![grid_header_cells(data@.headers)] + Seq::new(
                    (r + 1) as nat,
                    |k: int| grid_body_row(idx_m, data@.rows[k]),
                )));
            }
            r = r + 1;
        }
        proof {
            assert(pt_table_rows(t) =~= default_grid(data@.headers, data@.rows, idx_m));
        }
        t
    }

    /// Renders the table: the bordered grid of the backend for the
    /// default layout, or the Markdown table.
    pub fn print(&self, data: &JsonTable) -> (r: String)
        ensures
            match self.layout() {
                PlainTextTableFormat::Default => r@ == pt_grid_text(
                    default_grid(
                        data@.headers,
                        data@.rows,
                        index_spec(self.rules(), data@.headers),
                    ),
                ),
                PlainTextTableFormat::Markdown => r@ == crate::markdown::markdown_render(
                    data@.headers,
                    data@.rows,
                ),
            },
    {
        match self.format {
            PlainTextTableFormat::Default => {
                let t = self.build_table(data);
                pt_table_to_string(&t)
            },
            PlainTextTableFormat::Markdown => crate::markdown::render_markdown(data),
        }
    }
}

} // verus!
