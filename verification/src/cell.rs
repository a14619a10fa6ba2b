//! The cell formatter: renders one value into the display text of a single
//! table cell.
//!
//! Strings show their raw contents; numbers keep their exact decimal text;
//! booleans and null show their literal scalar form. A nested object or
//! array is expanded into an indented block listing, one entry or element
//! per line, with `key: value` lines for object fields and `- item` lines
//! for array elements; nested non-empty objects and arrays continue on the
//! following lines, indented two further spaces. Strings are shown verbatim,
//! without quoting or escaping.

use vstd::prelude::*;

use crate::value::{
    entry_models, lemma_entry_models, lemma_entry_size_index, lemma_seq_models,
    lemma_seq_size_index, seq_models, val_model, val_size, JsonValue, ValueModel,
};

verus! {

broadcast use vstd::std_specs::vec::group_vec_axioms;

/// True for values whose whole display fits on one line: scalars, and
/// empty objects and arrays.
pub open spec fn is_inline(m: ValueModel) -> bool {
    match m {
        ValueModel::Array(items) => items.len() == 0,
        ValueModel::Object(entries) => entries.len() == 0,
        _ => true,
    }
}

/// One-line display text of an inline value. (For non-empty objects and
/// arrays, which are never displayed inline, this is not used.)
pub open spec fn scalar_text(m: ValueModel) -> Seq<char> {
    match m {
        ValueModel::Null => "null"@,
        ValueModel::Bool(b) => if b {
            "true"@
        } else {
            "false"@
        },
        ValueModel::Number(s) => s,
        ValueModel::String(s) => s,
        ValueModel::Array(_) => "[]"@,
        ValueModel::Object(_) => "{}"@,
    }
}

/// The lines of the block listing of `m`, each starting with the
/// indentation `ind`.
pub open spec fn block_lines(m: ValueModel, ind: Seq<char>) -> Seq<Seq<char>>
    decreases m, 0int,
{
    match m {
        ValueModel::Array(items) => if items.len() == 0 {
            seq![ind + scalar_text(m)]
        } else {
            arr_block_lines(items, ind)
        },
        ValueModel::Object(entries) => if entries.len() == 0 {
            seq![ind + scalar_text(m)]
        } else {
            obj_block_lines(entries, ind)
        },
        _ => seq![ind + scalar_text(m)],
    }
}

/// The lines of the elements of an array, in order.
pub open spec fn arr_block_lines(items: Seq<ValueModel>, ind: Seq<char>) -> Seq<Seq<char>>
    decreases items, 2int,
{
    if items.len() == 0 {
        Seq::empty()
    } else {
        item_lines(items[0], ind) + arr_block_lines(items.drop_first(), ind)
    }
}

/// The lines one array element contributes: `- item` for an inline
/// element, or a lone `-` marker followed by the element's own block,
/// indented one step further.
pub open spec fn item_lines(e: ValueModel, ind: Seq<char>) -> Seq<Seq<char>>
    decreases e, 1int,
{
    if is_inline(e) {
        seq![ind + "- "@ + scalar_text(e)]
    } else {
        seq![ind + "-"@] + block_lines(e, ind + "  "@)
    }
}

/// The lines of the entries of an object, in entry order.
pub open spec fn obj_block_lines(
    entries: Seq<(Seq<char>, ValueModel)>,
    ind: Seq<char>,
) -> Seq<Seq<char>>
    decreases entries, 2int,
{
    if entries.len() == 0 {
        Seq::empty()
    } else {
        field_lines(entries[0].0, entries[0].1, ind) + obj_block_lines(
            entries.drop_first(),
            ind,
        )
    }
}

/// The lines one object entry contributes: `key: value` for an inline
/// value, or `key:` followed by the value's own block, indented one step
/// further.
pub open spec fn field_lines(key: Seq<char>, v: ValueModel, ind: Seq<char>) -> Seq<Seq<char>>
    decreases v, 1int,
{
    if is_inline(v) {
        seq![ind + key + ": "@ + scalar_text(v)]
    } else {
        seq![ind + key + ":"@] + block_lines(v, ind + "  "@)
    }
}

/// Lines joined with a newline between each pair, with no trailing
/// newline.
pub open spec fn join_lines(lines: Seq<Seq<char>>) -> Seq<char>
    decreases lines.len(),
{
    if lines.len() == 0 {
        Seq::empty()
    } else if lines.len() == 1 {
        lines[0]
    } else {
        lines[0] + seq!['\n'] + join_lines(lines.drop_first())
    }
}

/// The full display text of one cell holding `m`.
pub open spec fn fmt_model(m: ValueModel) -> Seq<char> {
    if is_inline(m) {
        scalar_text(m)
    } else {
        join_lines(block_lines(m, Seq::empty()))
    }
}

/// Appending an element to an array appends its lines.
proof fn lemma_arr_block_push(items: Seq<ValueModel>, e: ValueModel, ind: Seq<char>)
    ensures
        arr_block_lines(items.push(e), ind) == arr_block_lines(items, ind) + item_lines(e, ind),
    decreases items.len(),
{
    if items.len() == 0 {
        assert(items.push(e)[0] == e);
        assert(items.push(e).drop_first() =~= items);
        assert(arr_block_lines(items.push(e), ind) =~= arr_block_lines(items, ind) + item_lines(
            e,
            ind,
        ));
    } else {
        assert(items.push(e).drop_first() =~= items.drop_first().push(e));
        assert(items.push(e)[0] == items[0]);
        lemma_arr_block_push(items.drop_first(), e, ind);
        assert(arr_block_lines(items.push(e), ind) =~= arr_block_lines(items, ind) + item_lines(
            e,
            ind,
        ));
    }
}

/// Appending an entry to an object appends its lines.
proof fn lemma_obj_block_push(
    entries: Seq<(Seq<char>, ValueModel)>,
    e: (Seq<char>, ValueModel),
    ind: Seq<char>,
)
    ensures
        obj_block_lines(entries.push(e), ind) == obj_block_lines(entries, ind) + field_lines(
            e.0,
            e.1,
            ind,
        ),
    decreases entries.len(),
{
    if entries.len() == 0 {
        assert(entries.push(e)[0] == e);
        assert(entries.push(e).drop_first() =~= entries);
        assert(obj_block_lines(entries.push(e), ind) =~= obj_block_lines(entries, ind)
            + field_lines(e.0, e.1, ind));
    } else {
        assert(entries.push(e).drop_first() =~= entries.drop_first().push(e));
        assert(entries.push(e)[0] == entries[0]);
        lemma_obj_block_push(entries.drop_first(), e, ind);
        assert(obj_block_lines(entries.push(e), ind) =~= obj_block_lines(entries, ind)
            + field_lines(e.0, e.1, ind));
    }
}

/// Appending a line to a joined listing appends a newline and the line.
proof fn lemma_join_push(lines: Seq<Seq<char>>, line: Seq<char>)
    ensures
        join_lines(lines.push(line)) == if lines.len() == 0 {
            line
        } else {
            join_lines(lines) + seq!['\n'] + line
        },
    decreases lines.len(),
{
    if lines.len() == 0 {
        assert(lines.push(line)[0] == line);
    } else {
        assert(lines.push(line)[0] == lines[0]);
        assert(lines.push(line).drop_first() =~= lines.drop_first().push(line));
        lemma_join_push(lines.drop_first(), line);
        if lines.len() == 1 {
            assert(join_lines(lines) == lines[0]);
            assert(join_lines(lines.push(line)) =~= join_lines(lines) + seq!['\n'] + line);
        } else {
            assert(join_lines(lines.push(line)) =~= join_lines(lines) + seq!['\n'] + line);
        }
    }
}

/// True exactly when the whole display of `v` fits on one line.
fn cell_is_inline(v: &JsonValue) -> (b: bool)
    ensures
        b == is_inline(val_model(*v)),
{
    broadcast use {lemma_seq_models, lemma_entry_models};

    match v {
        JsonValue::Array(items) => items.len() == 0,
        JsonValue::Object(entries) => entries.len() == 0,
        _ => true,
    }
}

/// One-line display text of an inline value.
fn scalar_string(v: &JsonValue) -> (r: String)
    ensures
        r@ == scalar_text(val_model(*v)),
{
    match v {
        JsonValue::Null => String::from_str("null"),
        JsonValue::Bool(b) => if *b {
            String::from_str("true")
        } else {
            String::from_str("false")
        },
        JsonValue::Number(s) => s.clone(),
        JsonValue::String(s) => s.clone(),
        JsonValue::Array(_) => String::from_str("[]"),
        JsonValue::Object(_) => String::from_str("{}"),
    }
}

/// The block listing of `v`, one string per line.
fn block_lines_exec(v: &JsonValue, ind: &String) -> (lines: Vec<String>)
    ensures
        lines.deep_view() == block_lines(val_model(*v), ind@),
    decreases val_size(*v),
{
    broadcast use {lemma_seq_models, lemma_entry_models};

    match v {
        JsonValue::Array(items) => {
            if items.len() == 0 {
                let mut line = ind.clone();
                line.append("[]");
                let mut lines: Vec<String> = Vec::new();
                lines.push(line);
                proof {
                    assert(lines.deep_view() =~= block_lines(val_model(*v), ind@));
                }
                lines
            } else {
                let mut ind2 = ind.clone();
                ind2.append("  ");
                let ghost ms = seq_models(items@);
                let mut lines: Vec<String> = Vec::new();
                let mut i: usize = 0;
                while i < items.len()
                    invariant
                        *v == JsonValue::Array(*items),
                        ms == seq_models(items@),
                        ms.len() == items@.len(),
                        forall|j: int| 0 <= j < items@.len() ==> ms[j] == val_model(items@[j]),
                        ind2@ == ind@ + "  "@,
                        i <= items@.len(),
                        lines.deep_view() =~= arr_block_lines(ms.take(i as int), ind@),
                    decreases items@.len() - i,
                {
                    proof {
                        lemma_seq_size_index(items@, i as int);
                    }
                    let ghost prev = lines.deep_view();
                    if cell_is_inline(&items[i]) {
                        let mut line = ind.clone();
                        line.append("- ");
                        let scalar = scalar_string(&items[i]);
                        line.append(scalar.as_str());
                        lines.push(line);
                        proof {
                            assert(lines.deep_view() =~= prev.push(
                                ind@ + "- "@ + scalar_text(ms[i as int]),
                            ));
                            assert(lines.deep_view() =~= prev + item_lines(ms[i as int], ind@));
                        }
                    } else {
                        let mut marker = ind.clone();
                        marker.append("-");
                        lines.push(marker);
                        let mut sub = block_lines_exec(&items[i], &ind2);
                        let ghost mid = lines.deep_view();
                        let ghost subv = sub.deep_view();
                        lines.append(&mut sub);
                        proof {
                            assert(lines.deep_view() =~= mid + subv);
                            assert(mid =~= prev.push(ind@ + "-"@));
                            assert(lines.deep_view() =~= prev + item_lines(ms[i as int], ind@));
                        }
                    }
                    proof {
                        lemma_arr_block_push(ms.take(i as int), ms[i as int], ind@);
                        assert(ms.take(i as int).push(ms[i as int]) =~= ms.take(i + 1 as int));
                    }
                    i = i + 1;
                }
                proof {
                    assert(ms.take(items@.len() as int) =~= ms);
                    assert(lines.deep_view() =~= block_lines(val_model(*v), ind@));
                }
                lines
            }
        },
        JsonValue::Object(entries) => {
            if entries.len() == 0 {
                let mut line = ind.clone();
                line.append("{}");
                let mut lines: Vec<String> = Vec::new();
                lines.push(line);
                proof {
                    assert(lines.deep_view() =~= block_lines(val_model(*v), ind@));
                }
                lines
            } else {
                let mut ind2 = ind.clone();
                ind2.append("  ");
                let ghost ms = entry_models(entries@);
                let mut lines: Vec<String> = Vec::new();
                let mut i: usize = 0;
                while i < entries.len()
                    invariant
                        *v == JsonValue::Object(*entries),
                        ms == entry_models(entries@),
                        ms.len() == entries@.len(),
                        forall|j: int|
                            0 <= j < entries@.len() ==> ms[j] == (
                            entries@[j].0@,
                            val_model(entries@[j].1),
                            ),
                        ind2@ == ind@ + "  "@,
                        i <= entries@.len(),
                        lines.deep_view() =~= obj_block_lines(ms.take(i as int), ind@),
                    decreases entries@.len() - i,
                {
                    proof {
                        lemma_entry_size_index(entries@, i as int);
                    }
                    let ghost prev = lines.deep_view();
                    let (key, val) = &entries[i];
                    if cell_is_inline(val) {
                        let mut line = ind.clone();
                        line.append(key.as_str());
                        line.append(": ");
                        let scalar = scalar_string(val);
                        line.append(scalar.as_str());
                        lines.push(line);
                        proof {
                            assert(lines.deep_view() =~= prev.push(
                                ind@ + key@ + ": "@ + scalar_text(ms[i as int].1),
                            ));
                            assert(lines.deep_view() =~= prev + field_lines(
                                ms[i as int].0,
                                ms[i as int].1,
                                ind@,
                            ));
                        }
                    } else {
                        let mut marker = ind.clone();
                        marker.append(key.as_str());
                        marker.append(":");
                        lines.push(marker);
                        let mut sub = block_lines_exec(val, &ind2);
                        let ghost mid = lines.deep_view();
                        let ghost subv = sub.deep_view();
                        lines.append(&mut sub);
                        proof {
                            assert(lines.deep_view() =~= mid + subv);
                            assert(mid =~= prev.push(ind@ + key@ + ":"@));
                            assert(lines.deep_view() =~= prev + field_lines(
                                ms[i as int].0,
                                ms[i as int].1,
                                ind@,
                            ));
                        }
                    }
                    proof {
                        lemma_obj_block_push(ms.take(i as int), ms[i as int], ind@);
                        assert(ms.take(i as int).push(ms[i as int]) =~= ms.take(i + 1 as int));
                    }
                    i = i + 1;
                }
                proof {
                    assert(ms.take(entries@.len() as int) =~= ms);
                    assert(lines.deep_view() =~= block_lines(val_model(*v), ind@));
                }
                lines
            }
        },
        _ => {
            let mut line = ind.clone();
            let scalar = scalar_string(v);
            line.append(scalar.as_str());
            let mut lines: Vec<String> = Vec::new();
            lines.push(line);
            proof {
                assert(lines.deep_view() =~= block_lines(val_model(*v), ind@));
            }
            lines
        },
    }
}

/// Joins lines with single newlines, without a trailing newline.
fn join_lines_exec(lines: &Vec<String>) -> (r: String)
    ensures
        r@ == join_lines(lines.deep_view()),
{
    let mut r = String::new();
    let mut i: usize = 0;
    while i < lines.len()
        invariant
            i <= lines@.len(),
            r@ == join_lines(lines.deep_view().take(i as int)),
        decreases lines@.len() - i,
    {
        if i > 0 {
            r.append("\n");
        }
        r.append(lines[i].as_str());
        proof {
            reveal_strlit("\n");
            assert("\n"@ =~= seq!['\n']);
            lemma_join_push(lines.deep_view().take(i as int), lines.deep_view()[i as int]);
            assert(lines.deep_view().take(i as int).push(lines.deep_view()[i as int])
                =~= lines.deep_view().take(i + 1 as int));
            assert(r@ =~= join_lines(lines.deep_view().take(i + 1 as int)));
        }
        i = i + 1;
    }
    proof {
        assert(lines.deep_view().take(lines@.len() as int) =~= lines.deep_view());
    }
    r
}

/// Renders one cell value into its display text, as [`fmt_model`]
/// describes: raw string contents, canonical scalar text, or the indented
/// block listing of a nested object or array.
pub fn format_cell(v: &JsonValue) -> (r: String)
    ensures
        r@ == fmt_model(val_model(*v)),
{
    if cell_is_inline(v) {
        scalar_string(v)
    } else {
        let ind = String::new();
        let lines = block_lines_exec(v, &ind);
        join_lines_exec(&lines)
    }
}

} // verus!
