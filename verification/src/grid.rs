//! The bordered-grid backend: the trusted boundary to the `prettytable`
//! crate, which lays fixed-width bordered grids out and applies terminal
//! style tags.
//!
//! The crate's tables are modelled by the cell texts and style tags handed
//! to them, row by row; the rendered grid text is named as a function of
//! those rows alone, which holds for every table built here: all are
//! created empty and only extended row by row, so they keep the default
//! format and carry no title line.

use vstd::prelude::*;

verus! {

#[verifier::external_type_specification]
#[verifier::external_body]
pub struct ExPtCell(prettytable::Cell);

#[verifier::external_type_specification]
#[verifier::external_body]
pub struct ExPtRow(prettytable::Row);

#[verifier::external_type_specification]
#[verifier::external_body]
pub struct ExPtTable(prettytable::Table);

/// The text a cell was created from.
pub uninterp spec fn pt_cell_text(c: prettytable::Cell) -> Seq<char>;

/// The style tag applied to a cell; empty when none was.
pub uninterp spec fn pt_cell_style(c: prettytable::Cell) -> Seq<char>;

/// The cells of a row: each as its text and its style tag.
pub uninterp spec fn pt_row_cells(r: prettytable::Row) -> Seq<(Seq<char>, Seq<char>)>;

/// The rows of a table, in insertion order.
pub uninterp spec fn pt_table_rows(t: prettytable::Table) -> Seq<Seq<(Seq<char>, Seq<char>)>>;

/// Whether a table still has the shape `Table::new` gave it apart from
/// added rows: the default format and no title line. Rendering is a
/// function of the rows alone only for such tables.
pub uninterp spec fn pt_table_fresh(t: prettytable::Table) -> bool;

/// The grid text that rendering a fresh table with these rows produces.
pub uninterp spec fn pt_grid_text(rows: Seq<Seq<(Seq<char>, Seq<char>)>>) -> Seq<char>;

/// Relies on `prettytable::Cell::new`: builds a cell showing `content`,
/// with no style attribute set.
#[verifier::external_body]
pub(crate) fn pt_cell_new(content: &str) -> (c: prettytable::Cell)
    ensures
        pt_cell_text(c) == content@,
        pt_cell_style(c) == Seq::<char>::empty(),
{
    prettytable::Cell::new(content)
}

/// Relies on `prettytable::Cell::style_spec`: replaces the cell's style
/// with the given tag and keeps its content. An `H` directive makes the
/// call parse the following digits and panic when there are none, so tags
/// holding `H` are excluded.
#[verifier::external_body]
pub(crate) fn pt_cell_style_spec(c: prettytable::Cell, style: &str) -> (r: prettytable::Cell)
    requires
        !style@.contains('H'),
    ensures
        pt_cell_text(r) == pt_cell_text(c),
        pt_cell_style(r) == style@,
{
    c.style_spec(style)
}

/// Relies on `prettytable::Row::new`: builds a row holding exactly the
/// given cells, in order.
#[verifier::external_body]
pub(crate) fn pt_row_new(cells: Vec<prettytable::Cell>) -> (r: prettytable::Row)
    ensures
        pt_row_cells(r) == cells@.map_values(
            |c: prettytable::Cell| (pt_cell_text(c), pt_cell_style(c)),
        ),
{
    prettytable::Row::new(cells)
}

/// Relies on `prettytable::Table::new`: builds an empty table with the
/// default format and no title line.
#[verifier::external_body]
pub(crate) fn pt_table_new() -> (t: prettytable::Table)
    ensures
        pt_table_rows(t) == Seq::<Seq<(Seq<char>, Seq<char>)>>::empty(),
        pt_table_fresh(t),
{
    prettytable::Table::new()
}

/// Relies on `prettytable::Table::add_row`: appends the row, changing
/// nothing else of the table.
#[verifier::external_body]
pub(crate) fn pt_table_add_row(t: &mut prettytable::Table, row: prettytable::Row)
    ensures
        pt_table_rows(*final(t)) == pt_table_rows(*old(t)).push(pt_row_cells(row)),
        pt_table_fresh(*final(t)) == pt_table_fresh(*old(t)),
{
    t.add_row(row);
}

/// Relies on `prettytable`'s `Display` implementation, reached through
/// `ToString`: for a fresh table the rendered grid is a function of the
/// rows alone.
#[verifier::external_body]
pub(crate) fn pt_table_to_string(t: &prettytable::Table) -> (r: String)
    requires
        pt_table_fresh(*t),
    ensures
        r@ == pt_grid_text(pt_table_rows(*t)),
{
    t.to_string()
}

} // verus!
