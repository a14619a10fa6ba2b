//! The Markdown table renderer: a pipe-delimited table with a separator
//! row beneath the header. Pipes and newlines in cell text are escaped so
//! a cell can never break the row structure.

use vstd::prelude::*;

use crate::printer::{format_row, header_strings, header_texts, row_texts, table_texts};
use crate::table::{HeaderModel, JsonTable};
use crate::text::{count_char, lemma_count_char_add, lemma_count_char_single, push_char};
use crate::value::ValueModel;

verus! {

broadcast use vstd::std_specs::vec::group_vec_axioms;

/// The escape of one character of cell text: a backslash escape for the
/// pipe, the two characters `\n` for a newline, anything else itself.
pub open spec fn md_escape_char(c: char) -> Seq<char> {
    if c == '|' {
        seq!['\\', '|']
    } else if c == '\n' {
        seq!['\\', 'n']
    } else {
        seq![c]
    }
}

/// Cell text escaped for a Markdown table.
pub open spec fn md_escape(s: Seq<char>) -> Seq<char>
    decreases s.len(),
{
    if s.len() == 0 {
        Seq::empty()
    } else {
        md_escape_char(s[0]) + md_escape(s.drop_first())
    }
}

/// The cells of one Markdown row, each escaped, padded and closed by a
/// pipe.
pub open spec fn md_cells(cells: Seq<Seq<char>>) -> Seq<char>
    decreases cells.len(),
{
    if cells.len() == 0 {
        Seq::empty()
    } else {
        seq![' '] + md_escape(cells[0]) + seq![' ', '|'] + md_cells(cells.drop_first())
    }
}

/// One Markdown table row: `| cell | cell |` and a line break.
pub open spec fn md_row(cells: Seq<Seq<char>>) -> Seq<char> {
    seq!['|'] + md_cells(cells) + seq!['\n']
}

/// The cells of the separator row.
pub open spec fn md_sep_cells(n: nat) -> Seq<char>
    decreases n,
{
    if n == 0 {
        Seq::empty()
    } else {
        seq![' ', '-', '-', '-', ' ', '|'] + md_sep_cells((n - 1) as nat)
    }
}

/// The separator row beneath the header: `| --- | --- |` and a line
/// break.
pub open spec fn md_sep_row(n: nat) -> Seq<char> {
    seq!['|'] + md_sep_cells(n) + seq!['\n']
}

/// The body of the table: one Markdown row per data row.
pub open spec fn md_body(rows: Seq<Seq<Seq<char>>>) -> Seq<char>
    decreases rows.len(),
{
    if rows.len() == 0 {
        Seq::empty()
    } else {
        md_row(rows[0]) + md_body(rows.drop_first())
    }
}

/// The whole Markdown rendering: the header row, the separator row, and
/// one row per data row.
pub open spec fn markdown_render(h: HeaderModel, rows: Seq<Seq<ValueModel>>) -> Seq<char> {
    md_row(header_texts(h)) + md_sep_row(header_texts(h).len()) + md_body(table_texts(rows))
}

/// Escaping one more character appends its escape.
proof fn lemma_md_escape_push(s: Seq<char>, c: char)
    ensures
        md_escape(s.push(c)) == md_escape(s) + md_escape_char(c),
    decreases s.len(),
{
    if s.len() == 0 {
        assert(s.push(c)[0] == c);
        assert(s.push(c).drop_first() =~= s);
        assert(md_escape(s.push(c)) =~= md_escape(s) + md_escape_char(c));
    } else {
        assert(s.push(c)[0] == s[0]);
        assert(s.push(c).drop_first() =~= s.drop_first().push(c));
        lemma_md_escape_push(s.drop_first(), c);
        assert(md_escape(s.push(c)) =~= md_escape(s) + md_escape_char(c));
    }
}

/// One more cell appends its escaped, padded text.
proof fn lemma_md_cells_push(cells: Seq<Seq<char>>, cell: Seq<char>)
    ensures
        md_cells(cells.push(cell)) == md_cells(cells) + seq![' '] + md_escape(cell) + seq![
            ' ',
            '|',
        ],
    decreases cells.len(),
{
    if cells.len() == 0 {
        assert(cells.push(cell)[0] == cell);
        assert(cells.push(cell).drop_first() =~= cells);
        assert(md_cells(cells.push(cell)) =~= md_cells(cells) + seq![' '] + md_escape(cell)
            + seq![' ', '|']);
    } else {
        assert(cells.push(cell)[0] == cells[0]);
        assert(cells.push(cell).drop_first() =~= cells.drop_first().push(cell));
        lemma_md_cells_push(cells.drop_first(), cell);
        assert(md_cells(cells.push(cell)) =~= md_cells(cells) + seq![' '] + md_escape(cell)
            + seq![' ', '|']);
    }
}

/// One more separator cell appends one separator block.
proof fn lemma_md_sep_cells_step(n: nat)
    ensures
        md_sep_cells(n + 1) == md_sep_cells(n) + seq![' ', '-', '-', '-', ' ', '|'],
    decreases n,
{
    if n == 0 {
        assert(md_sep_cells(1) =~= md_sep_cells(0) + seq![' ', '-', '-', '-', ' ', '|']);
    } else {
        lemma_md_sep_cells_step((n - 1) as nat);
        assert(md_sep_cells(n + 1) =~= md_sep_cells(n) + seq![' ', '-', '-', '-', ' ', '|']);
    }
}

/// One more row appends its rendering.
proof fn lemma_md_body_push(rows: Seq<Seq<Seq<char>>>, row: Seq<Seq<char>>)
    ensures
        md_body(rows.push(row)) == md_body(rows) + md_row(row),
    decreases rows.len(),
{
    if rows.len() == 0 {
        assert(rows.push(row)[0] == row);
        assert(rows.push(row).drop_first() =~= rows);
        assert(md_body(rows.push(row)) =~= md_body(rows) + md_row(row));
    } else {
        assert(rows.push(row)[0] == rows[0]);
        assert(rows.push(row).drop_first() =~= rows.drop_first().push(row));
        lemma_md_body_push(rows.drop_first(), row);
        assert(md_body(rows.push(row)) =~= md_body(rows) + md_row(row));
    }
}

/// Appends the Markdown escape of `s` to `out`.
fn append_md_escaped(out: &mut String, s: &String)
    ensures
        final(out)@ == old(out)@ + md_escape(s@),
{
    let st: &str = s.as_str();
    let n: usize = st.unicode_len();
    let mut i: usize = 0;
    while i < n
        invariant
            st@ == s@,
            n == s@.len(),
            i <= n,
            out@ == old(out)@ + md_escape(s@.take(i as int)),
        decreases n - i,
    {
        let c = st.get_char(i);
        if c == '|' {
            push_char(out, '\\');
            push_char(out, '|');
        } else if c == '\n' {
            push_char(out, '\\');
            push_char(out, 'n');
        } else {
            push_char(out, c);
        }
        proof {
            lemma_md_escape_push(s@.take(i as int), s@[i as int]);
            assert(s@.take(i as int).push(s@[i as int]) =~= s@.take(i + 1 as int));
            assert(out@ =~= old(out)@ + md_escape(s@.take(i + 1 as int)));
        }
        i = i + 1;
    }
    proof {
        assert(s@.take(n as int) =~= s@);
    }
}

/// Renders one Markdown table row from cell texts.
fn md_row_string(cells: &Vec<String>) -> (r: String)
    ensures
        r@ == md_row(cells.deep_view()),
{
    let mut r = String::new();
    push_char(&mut r, '|');
    let ghost cs = cells.deep_view();
    let mut i: usize = 0;
    while i < cells.len()
        invariant
            cs == cells.deep_view(),
            cs.len() == cells@.len(),
            i <= cells@.len(),
            r@ == seq!['|'] + md_cells(cs.take(i as int)),
        decreases cells@.len() - i,
    {
        push_char(&mut r, ' ');
        append_md_escaped(&mut r, &cells[i]);
        push_char(&mut r, ' ');
        push_char(&mut r, '|');
        proof {
            assert(cs[i as int] == cells@[i as int]@);
            lemma_md_cells_push(cs.take(i as int), cs[i as int]);
            assert(cs.take(i as int).push(cs[i as int]) =~= cs.take(i + 1 as int));
            assert(r@ =~= seq!['|'] + md_cells(cs.take(i + 1 as int)));
        }
        i = i + 1;
    }
    push_char(&mut r, '\n');
    proof {
        assert(cs.take(cs.len() as int) =~= cs);
        assert(r@ =~= md_row(cs));
    }
    r
}

/// Renders the separator row for `n` columns.
fn md_sep_string(n: usize) -> (r: String)
    ensures
        r@ == md_sep_row(n as nat),
{
    let mut r = String::new();
    push_char(&mut r, '|');
    let mut i: usize = 0;
    while i < n
        invariant
            i <= n,
            r@ == seq!['|'] + md_sep_cells(i as nat),
        decreases n - i,
    {
        r.append(" --- |");
        proof {
            reveal_strlit(" --- |");
            assert(" --- |"@ =~= seq![' ', '-', '-', '-', ' ', '|']);
            lemma_md_sep_cells_step(i as nat);
            assert(r@ =~= seq!['|'] + md_sep_cells((i + 1) as nat));
        }
        i = i + 1;
    }
    push_char(&mut r, '\n');
    proof {
        assert(r@ =~= md_sep_row(n as nat));
    }
    r
}

/// Renders a table as a Markdown pipe table: the header row, a `---`
/// separator row, and one row per data row.
pub fn render_markdown(data: &JsonTable) -> (r: String)
    ensures
        r@ == markdown_render(data@.headers, data@.rows),
{
    let headers = header_strings(data.headers());
    let mut r = md_row_string(&headers);
    let sep = md_sep_string(headers.len());
    r.append(sep.as_str());
    let ghost rows_m = data@.rows;
    let ghost texts = table_texts(rows_m);
    let ghost prefix = md_row(header_texts(data@.headers)) + md_sep_row(
        header_texts(data@.headers).len(),
    );
    proof {
        assert(headers.deep_view().len() == header_texts(data@.headers).len());
        assert(r@ =~= prefix + md_body(texts.take(0)));
    }
    let n = data.num_rows();
    let mut k: usize = 0;
    while k < n
        invariant
            n == data@.rows.len(),
            rows_m == data@.rows,
            texts == table_texts(rows_m),
            texts.len() == rows_m.len(),
            prefix == md_row(header_texts(data@.headers)) + md_sep_row(
                header_texts(data@.headers).len(),
            ),
            k <= n,
            r@ == prefix + md_body(texts.take(k as int)),
        decreases n - k,
    {
        let cells = data.row_at(k);
        let cell_texts = format_row(cells);
        let line = md_row_string(&cell_texts);
        r.append(line.as_str());
        proof {
            assert(cell_texts.deep_view() == row_texts(rows_m[k as int]));
            assert(texts[k as int] == row_texts(rows_m[k as int]));
            lemma_md_body_push(texts.take(k as int), texts[k as int]);
            assert(texts.take(k as int).push(texts[k as int]) =~= texts.take(k + 1 as int));
            assert(r@ =~= prefix + md_body(texts.take(k + 1 as int)));
        }
        k = k + 1;
    }
    proof {
        assert(texts.take(texts.len() as int) =~= texts);
        assert(r@ =~= markdown_render(data@.headers, data@.rows));
    }
    r
}


/// A sequence without `c` counts zero.
proof fn lemma_count_absent(s: Seq<char>, c: char)
    requires
        forall|i: int| 0 <= i < s.len() ==> s[i] != c,
    ensures
        count_char(s, c) == 0,
    decreases s.len(),
{
    if s.len() > 0 {
        lemma_count_absent(s.drop_first(), c);
    }
}

/// Escaped cell text holds no newline.
proof fn lemma_md_escape_no_newline(s: Seq<char>)
    ensures
        count_char(md_escape(s), '\n') == 0,
    decreases s.len(),
{
    if s.len() > 0 {
        lemma_md_escape_no_newline(s.drop_first());
        lemma_count_char_add(md_escape_char(s[0]), md_escape(s.drop_first()), '\n');
        assert(forall|i: int|
            0 <= i < md_escape_char(s[0]).len() ==> md_escape_char(s[0])[i] != '\n');
        lemma_count_absent(md_escape_char(s[0]), '\n');
    }
}

/// The cells of one row hold no newline.
proof fn lemma_md_cells_no_newline(cells: Seq<Seq<char>>)
    ensures
        count_char(md_cells(cells), '\n') == 0,
    decreases cells.len(),
{
    if cells.len() > 0 {
        lemma_md_cells_no_newline(cells.drop_first());
        lemma_md_escape_no_newline(cells[0]);
        let head = seq![' '] + md_escape(cells[0]) + seq![' ', '|'];
        lemma_count_char_add(seq![' '], md_escape(cells[0]), '\n');
        lemma_count_char_add(seq![' '] + md_escape(cells[0]), seq![' ', '|'], '\n');
        lemma_count_char_add(head, md_cells(cells.drop_first()), '\n');
        lemma_count_absent(seq![' '], '\n');
        lemma_count_absent(seq![' ', '|'], '\n');
    }
}

/// One Markdown row holds exactly one newline.
proof fn lemma_md_row_one_newline(cells: Seq<Seq<char>>)
    ensures
        count_char(md_row(cells), '\n') == 1,
{
    lemma_md_cells_no_newline(cells);
    lemma_count_char_add(seq!['|'], md_cells(cells), '\n');
    lemma_count_char_add(seq!['|'] + md_cells(cells), seq!['\n'], '\n');
    lemma_count_absent(seq!['|'], '\n');
    lemma_count_char_single('\n', '\n');
}

/// The separator cells hold no newline.
proof fn lemma_md_sep_cells_no_newline(n: nat)
    ensures
        count_char(md_sep_cells(n), '\n') == 0,
    decreases n,
{
    if n > 0 {
        lemma_md_sep_cells_no_newline((n - 1) as nat);
        lemma_count_char_add(
            seq![' ', '-', '-', '-', ' ', '|'],
            md_sep_cells((n - 1) as nat),
            '\n',
        );
        lemma_count_absent(seq![' ', '-', '-', '-', ' ', '|'], '\n');
    }
}

/// The separator row holds exactly one newline.
proof fn lemma_md_sep_row_one_newline(n: nat)
    ensures
        count_char(md_sep_row(n), '\n') == 1,
{
    lemma_md_sep_cells_no_newline(n);
    lemma_count_char_add(seq!['|'], md_sep_cells(n), '\n');
    lemma_count_char_add(seq!['|'] + md_sep_cells(n), seq!['\n'], '\n');
    lemma_count_absent(seq!['|'], '\n');
    lemma_count_char_single('\n', '\n');
}

/// The body holds one newline per data row.
proof fn lemma_md_body_newlines(rows: Seq<Seq<Seq<char>>>)
    ensures
        count_char(md_body(rows), '\n') == rows.len(),
    decreases rows.len(),
{
    if rows.len() > 0 {
        lemma_md_body_newlines(rows.drop_first());
        lemma_md_row_one_newline(rows[0]);
        lemma_count_char_add(md_row(rows[0]), md_body(rows.drop_first()), '\n');
    }
}

/// Rendering a table with N data rows in Markdown produces N + 2 lines:
/// the header row, the separator row, and one line per data row, each
/// closed by the only newlines of the output.
pub proof fn lemma_markdown_line_count(h: HeaderModel, rows: Seq<Seq<ValueModel>>)
    ensures
        count_char(markdown_render(h, rows), '\n') == rows.len() + 2,
{
    lemma_md_row_one_newline(header_texts(h));
    lemma_md_sep_row_one_newline(header_texts(h).len());
    lemma_md_body_newlines(table_texts(rows));
    lemma_count_char_add(md_row(header_texts(h)), md_sep_row(header_texts(h).len()), '\n');
    lemma_count_char_add(
        md_row(header_texts(h)) + md_sep_row(header_texts(h).len()),
        md_body(table_texts(rows)),
        '\n',
    );
}

} // verus!
