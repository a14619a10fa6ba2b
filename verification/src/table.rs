//! Header resolution and projection of record batches onto rectangular
//! tables.

use vstd::prelude::*;

use vstd::pervasive::cloned;

use crate::value::{
    entry_models, lemma_entry_models, lemma_seq_models, seq_models, val_model, JsonValue,
    ValueModel,
};

verus! {

broadcast use vstd::std_specs::vec::group_vec_axioms;

/// The resolved column plan of a table: either a caller-supplied or
/// inferred list of named columns, or one unnamed column holding each row
/// whole.
#[derive(Debug, PartialEq)]
pub enum TableHeader {
    NamedFields { fields: Vec<String> },
    SingleUnnamedColumn,
}

/// The mathematical shape of a [`TableHeader`].
#[verifier::ext_equal]
pub enum HeaderModel {
    Named(Seq<Seq<char>>),
    Single,
}

/// Model of a header.
pub open spec fn header_model(h: TableHeader) -> HeaderModel {
    match h {
        TableHeader::NamedFields { fields } => HeaderModel::Named(fields.deep_view()),
        TableHeader::SingleUnnamedColumn => HeaderModel::Single,
    }
}

impl View for TableHeader {
    type V = HeaderModel;

    open spec fn view(&self) -> HeaderModel {
        header_model(*self)
    }
}

/// Number of cells every projected row has under header `h`.
pub open spec fn header_width(h: HeaderModel) -> nat {
    match h {
        HeaderModel::Named(names) => names.len(),
        HeaderModel::Single => 1,
    }
}

/// The row sequence a top-level value stands for: an array contributes its
/// elements, any other value is itself the single row.
pub open spec fn spec_rows_of(root: ValueModel) -> Seq<ValueModel> {
    match root {
        ValueModel::Array(items) => items,
        _ => seq![root],
    }
}

/// The keys of an object's entries, in entry order.
pub open spec fn entry_keys(entries: Seq<(Seq<char>, ValueModel)>) -> Seq<Seq<char>> {
    Seq::new(entries.len(), |i: int| entries[i].0)
}

/// Header inference from the first row: an object row contributes its own
/// keys in their own order; anything else, and an empty row set, falls back
/// to the single unnamed column.
pub open spec fn infer_model(rows: Seq<ValueModel>) -> HeaderModel {
    if rows.len() > 0 && rows[0] is Object {
        HeaderModel::Named(entry_keys(rows[0]->Object_0))
    } else {
        HeaderModel::Single
    }
}

/// The header that governs a table: the explicit one when given, else the
/// inferred one.
pub open spec fn resolved_header(
    explicit: Option<HeaderModel>,
    rows: Seq<ValueModel>,
) -> HeaderModel {
    match explicit {
        Some(h) => h,
        None => infer_model(rows),
    }
}

/// The cell a row contributes for column `name`: the named field of an
/// object row, and `Null` whenever the row is not an object or lacks the
/// field.
pub open spec fn project_cell(row: ValueModel, name: Seq<char>) -> ValueModel {
    match row.get_field(name) {
        Some(v) => v,
        None => ValueModel::Null,
    }
}

/// One row projected onto the resolved header.
pub open spec fn project_row(h: HeaderModel, row: ValueModel) -> Seq<ValueModel> {
    match h {
        HeaderModel::Named(names) => Seq::new(names.len(), |i: int| project_cell(row, names[i])),
        HeaderModel::Single => seq![row],
    }
}

/// The whole table body: every row projected onto the same header.
pub open spec fn project_table(h: HeaderModel, rows: Seq<ValueModel>) -> Seq<Seq<ValueModel>> {
    Seq::new(rows.len(), |i: int| project_row(h, rows[i]))
}

/// The mathematical shape of a [`JsonTable`].
#[verifier::ext_equal]
pub struct TableModel {
    pub headers: HeaderModel,
    pub rows: Seq<Seq<ValueModel>>,
}

/// A materialized table: a resolved header and one cell row per input row,
/// each aligned with the header.
#[derive(Debug)]
pub struct JsonTable {
    headers: TableHeader,
    values: Vec<Vec<JsonValue>>,
}

/// Models of the table body, row by row.
pub open spec fn body_models(values: Seq<Vec<JsonValue>>) -> Seq<Seq<ValueModel>> {
    Seq::new(values.len(), |i: int| seq_models(values[i]@))
}

impl View for JsonTable {
    type V = TableModel;

    closed spec fn view(&self) -> TableModel {
        TableModel { headers: header_model(self.headers), rows: body_models(self.values@) }
    }
}

/// Infers a header from the first row, as [`infer_model`] describes.
pub fn infer_headers(rows: &Vec<JsonValue>) -> (h: TableHeader)
    ensures
        h@ == infer_model(seq_models(rows@)),
{
    broadcast use {lemma_seq_models, lemma_entry_models};

    if rows.len() == 0 {
        return TableHeader::SingleUnnamedColumn;
    }
    match &rows[0] {
        JsonValue::Object(entries) => {
            let mut fields: Vec<String> = Vec::new();
            let mut i: usize = 0;
            while i < entries.len()
                invariant
                    i <= entries@.len(),
                    fields@.len() == i as int,
                    forall|j: int| 0 <= j < i ==> fields@[j]@ == entries@[j].0@,
                decreases entries@.len() - i,
            {
                fields.push(entries[i].0.clone());
                i = i + 1;
            }
            let h = TableHeader::NamedFields { fields };
            proof {
                lemma_seq_models(rows@);
                lemma_entry_models(entries@);
                assert(seq_models(rows@)[0] == val_model(rows@[0]));
                assert(val_model(rows@[0]) == ValueModel::Object(entry_models(entries@)));
                assert(h@ =~= infer_model(seq_models(rows@)));
            }
            h
        },
        _ => TableHeader::SingleUnnamedColumn,
    }
}

/// Projects one row onto a list of named columns.
fn project_named_row(row: &JsonValue, fields: &Vec<String>) -> (cells: Vec<JsonValue>)
    ensures
        seq_models(cells@) == project_row(HeaderModel::Named(fields.deep_view()), val_model(*row)),
{
    broadcast use lemma_seq_models;

    let mut cells: Vec<JsonValue> = Vec::new();
    let mut c: usize = 0;
    while c < fields.len()
        invariant
            c <= fields@.len(),
            cells@.len() == c as int,
            forall|j: int|
                0 <= j < c ==> val_model(cells@[j]) == project_cell(val_model(*row), fields@[j]@),
        decreases fields@.len() - c,
    {
        let cell = match row.get(&fields[c]) {
            Some(v) => v.clone(),
            None => JsonValue::Null,
        };
        cells.push(cell);
        c = c + 1;
    }
    proof {
        assert(seq_models(cells@) =~= project_row(
            HeaderModel::Named(fields.deep_view()),
            val_model(*row),
        ));
    }
    cells
}

impl JsonTable {
    /// Builds the table for `root` under the given explicit header, or
    /// under the header inferred from the first row. Every row of the
    /// result is aligned with the resolved header; missing fields project
    /// to `Null`, never to an error.
    pub fn new(headers: Option<TableHeader>, root: &JsonValue) -> (t: JsonTable)
        ensures
            t@.headers == resolved_header(
                match headers {
                    Some(h) => Some(header_model(h)),
                    None => None,
                },
                spec_rows_of(root@),
            ),
            t@.rows == project_table(t@.headers, spec_rows_of(root@)),
    {
        broadcast use lemma_seq_models;

        let rows: Vec<JsonValue> = match root {
            JsonValue::Array(arr) => arr.clone(),
            _ => {
                let mut v: Vec<JsonValue> = Vec::new();
                v.push(root.clone());
                v
            },
        };
        proof {
            if let JsonValue::Array(arr) = root {
                lemma_seq_models(arr@);
                lemma_seq_models(rows@);
                assert forall|i: int| 0 <= i < arr@.len() implies val_model(rows@[i]) == val_model(
                    arr@[i],
                ) by {
                    assert(cloned::<JsonValue>(arr@[i], rows@[i]));
                }
            }
            assert(seq_models(rows@) =~= spec_rows_of(root@));
        }
        let resolved: TableHeader = match headers {
            Some(h) => h,
            None => infer_headers(&rows),
        };
        let ghost h_m = header_model(resolved);
        let ghost rows_m = seq_models(rows@);
        let mut values: Vec<Vec<JsonValue>> = Vec::new();
        match &resolved {
            TableHeader::NamedFields { fields } => {
                let mut r: usize = 0;
                while r < rows.len()
                    invariant
                        resolved == (TableHeader::NamedFields { fields: *fields }),
                        h_m == header_model(resolved),
                        rows_m == seq_models(rows@),
                        seq_models(rows@).len() == rows@.len(),
                        forall|j: int|
                            0 <= j < rows@.len() ==> seq_models(rows@)[j] == val_model(rows@[j]),
                        r <= rows@.len(),
                        values@.len() == r as int,
                        forall|j: int|
                            0 <= j < r ==> seq_models(values@[j]@) == project_row(h_m, rows_m[j]),
                    decreases rows@.len() - r,
                {
                    let cells = project_named_row(&rows[r], fields);
                    values.push(cells);
                    r = r + 1;
                }
            },
            TableHeader::SingleUnnamedColumn => {
                let mut r: usize = 0;
                while r < rows.len()
                    invariant
                        h_m == HeaderModel::Single,
                        rows_m == seq_models(rows@),
                        seq_models(rows@).len() == rows@.len(),
                        forall|j: int|
                            0 <= j < rows@.len() ==> seq_models(rows@)[j] == val_model(rows@[j]),
                        r <= rows@.len(),
                        values@.len() == r as int,
                        forall|j: int|
                            0 <= j < r ==> seq_models(values@[j]@) == project_row(h_m, rows_m[j]),
                    decreases rows@.len() - r,
                {
                    let mut cells: Vec<JsonValue> = Vec::new();
                    cells.push(rows[r].clone());
                    proof {
                        lemma_seq_models(cells@);
                        assert(seq_models(cells@) =~= project_row(h_m, rows_m[r as int]));
                    }
                    values.push(cells);
                    r = r + 1;
                }
            },
        }
        let t = JsonTable { headers: resolved, values };
        proof {
            assert(t@.rows =~= project_table(t@.headers, spec_rows_of(root@)));
        }
        t
    }

    /// The resolved header that governs this table.
    pub fn headers(&self) -> (h: &TableHeader)
        ensures
            header_model(*h) == self@.headers,
    {
        &self.headers
    }

    /// Number of data rows.
    pub fn num_rows(&self) -> (n: usize)
        ensures
            n == self@.rows.len(),
    {
        self.values.len()
    }

    /// The cells of data row `r`.
    pub fn row_at(&self, r: usize) -> (cells: &Vec<JsonValue>)
        requires
            r < self@.rows.len(),
        ensures
            seq_models(cells@) == self@.rows[r as int],
    {
        &self.values[r]
    }
}

/// Rectangularity: under any resolved header, every projected row has
/// exactly the header's width — one cell per named column, or exactly one
/// cell for the single unnamed column.
pub proof fn lemma_projection_rectangular(h: HeaderModel, rows: Seq<ValueModel>)
    ensures
        project_table(h, rows).len() == rows.len(),
        forall|i: int|
            0 <= i < rows.len() ==> #[trigger] project_table(h, rows)[i].len() == header_width(h),
{
}

/// Missing-field policy: projecting an object row that lacks a named
/// column yields `Null` for that cell — never an error and never a shorter
/// row. Non-object rows yield `Null` in every named column.
pub proof fn lemma_missing_field_is_null(names: Seq<Seq<char>>, row: ValueModel, j: int)
    requires
        0 <= j < names.len(),
        row.get_field(names[j]) is None,
    ensures
        project_row(HeaderModel::Named(names), row).len() == names.len(),
        project_row(HeaderModel::Named(names), row)[j] == ValueModel::Null,
{
}

/// Header inference is deterministic: the same first row always yields the
/// same header, and an empty row set always yields the single unnamed
/// column.
pub proof fn lemma_infer_deterministic(rows1: Seq<ValueModel>, rows2: Seq<ValueModel>)
    requires
        rows1.len() > 0,
        rows2.len() > 0,
        rows1[0] == rows2[0],
    ensures
        infer_model(rows1) == infer_model(rows2),
        infer_model(Seq::<ValueModel>::empty()) == HeaderModel::Single,
{
}

} // verus!
