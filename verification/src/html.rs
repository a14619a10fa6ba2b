//! The HTML table renderer: a semantic table element, one row element per
//! table row. The styled variant carries the matched style tag as a class
//! attribute on the cell element; the raw variant emits content only.

use vstd::prelude::*;

use crate::colorize::{
    index_lookup, index_spec, rule_models, ColorizeIndex, ColorizeSpec, RuleModel,
};
use crate::printer::{format_row, header_strings, header_texts, row_texts, HtmlTableFormat};
use crate::table::{HeaderModel, JsonTable};
use crate::text::{count_char, lemma_count_char_add, push_char};
use crate::value::ValueModel;

verus! {

broadcast use vstd::std_specs::vec::group_vec_axioms;

/// The escape of one character of cell text or attribute text.
pub open spec fn html_escape_char(c: char) -> Seq<char> {
    if c == '&' {
        seq!['&', 'a', 'm', 'p', ';']
    } else if c == '<' {
        seq!['&', 'l', 't', ';']
    } else if c == '>' {
        seq!['&', 'g', 't', ';']
    } else if c == '"' {
        seq!['&', 'q', 'u', 'o', 't', ';']
    } else {
        seq![c]
    }
}

/// Text escaped for HTML content and attribute values.
pub open spec fn html_escape(s: Seq<char>) -> Seq<char>
    decreases s.len(),
{
    if s.len() == 0 {
        Seq::empty()
    } else {
        html_escape_char(s[0]) + html_escape(s.drop_first())
    }
}

/// One header cell element.
pub open spec fn html_th(text: Seq<char>) -> Seq<char> {
    seq!['<', 't', 'h', '>'] + html_escape(text) + seq!['<', '/', 't', 'h', '>']
}

/// All header cell elements, in order.
pub open spec fn html_header_cells(texts: Seq<Seq<char>>) -> Seq<char>
    decreases texts.len(),
{
    if texts.len() == 0 {
        Seq::empty()
    } else {
        html_th(texts[0]) + html_header_cells(texts.drop_first())
    }
}

/// One data cell element: with a class attribute holding the style tag
/// when one applies, content only otherwise.
pub open spec fn html_td(text: Seq<char>, style: Seq<char>) -> Seq<char> {
    if style.len() == 0 {
        seq!['<', 't', 'd', '>'] + html_escape(text) + seq!['<', '/', 't', 'd', '>']
    } else {
        seq!['<', 't', 'd', ' ', 'c', 'l', 'a', 's', 's', '=', '"'] + html_escape(style) + seq![
            '"',
            '>',
        ] + html_escape(text) + seq!['<', '/', 't', 'd', '>']
    }
}

/// The style a data cell carries: the style its column's rules select for
/// its text under the styled variant, and none under the raw variant.
pub open spec fn html_style(
    idx: Seq<Seq<RuleModel>>,
    styled: bool,
    c: int,
    text: Seq<char>,
) -> Seq<char> {
    if styled {
        match index_lookup(idx, c, text) {
            Some(st) => st,
            None => Seq::empty(),
        }
    } else {
        Seq::empty()
    }
}

/// The text and style of every cell of one row.
pub open spec fn html_row_pairs(
    idx: Seq<Seq<RuleModel>>,
    styled: bool,
    row: Seq<ValueModel>,
) -> Seq<(Seq<char>, Seq<char>)> {
    Seq::new(
        row.len(),
        |c: int|
            (
                row_texts(row)[c],
                html_style(idx, styled, c, row_texts(row)[c]),
            ),
    )
}

/// All data cell elements of one row, in order.
pub open spec fn html_row_cells(pairs: Seq<(Seq<char>, Seq<char>)>) -> Seq<char>
    decreases pairs.len(),
{
    if pairs.len() == 0 {
        Seq::empty()
    } else {
        html_td(pairs[0].0, pairs[0].1) + html_row_cells(pairs.drop_first())
    }
}

/// One row element and its line break.
pub open spec fn html_tr(content: Seq<char>) -> Seq<char> {
    seq!['<', 't', 'r', '>'] + content + seq!['<', '/', 't', 'r', '>', '\n']
}

/// All data row elements, in order.
pub open spec fn html_body(rows: Seq<Seq<(Seq<char>, Seq<char>)>>) -> Seq<char>
    decreases rows.len(),
{
    if rows.len() == 0 {
        Seq::empty()
    } else {
        html_tr(html_row_cells(rows[0])) + html_body(rows.drop_first())
    }
}

/// The text and style of every cell of every row.
pub open spec fn html_body_pairs(
    idx: Seq<Seq<RuleModel>>,
    styled: bool,
    rows: Seq<Seq<ValueModel>>,
) -> Seq<Seq<(Seq<char>, Seq<char>)>> {
    Seq::new(rows.len(), |r: int| html_row_pairs(idx, styled, rows[r]))
}

/// The whole HTML rendering: the table element, the header row element,
/// and one row element per data row.
pub open spec fn html_render(
    h: HeaderModel,
    rows: Seq<Seq<ValueModel>>,
    idx: Seq<Seq<RuleModel>>,
    styled: bool,
) -> Seq<char> {
    seq!['<', 't', 'a', 'b', 'l', 'e', '>', '\n'] + html_tr(html_header_cells(header_texts(h)))
        + html_body(html_body_pairs(idx, styled, rows)) + seq![
        '<',
        '/',
        't',
        'a',
        'b',
        'l',
        'e',
        '>',
        '\n',
    ]
}

/// Escaping one more character appends its escape.
proof fn lemma_html_escape_push(s: Seq<char>, c: char)
    ensures
        html_escape(s.push(c)) == html_escape(s) + html_escape_char(c),
    decreases s.len(),
{
    if s.len() == 0 {
        assert(s.push(c)[0] == c);
        assert(s.push(c).drop_first() =~= s);
        assert(html_escape(s.push(c)) =~= html_escape(s) + html_escape_char(c));
    } else {
        assert(s.push(c)[0] == s[0]);
        assert(s.push(c).drop_first() =~= s.drop_first().push(c));
        lemma_html_escape_push(s.drop_first(), c);
        assert(html_escape(s.push(c)) =~= html_escape(s) + html_escape_char(c));
    }
}

/// One more header cell appends its element.
proof fn lemma_html_header_cells_push(texts: Seq<Seq<char>>, t: Seq<char>)
    ensures
        html_header_cells(texts.push(t)) == html_header_cells(texts) + html_th(t),
    decreases texts.len(),
{
    if texts.len() == 0 {
        assert(texts.push(t)[0] == t);
        assert(texts.push(t).drop_first() =~= texts);
        assert(html_header_cells(texts.push(t)) =~= html_header_cells(texts) + html_th(t));
    } else {
        assert(texts.push(t)[0] == texts[0]);
        assert(texts.push(t).drop_first() =~= texts.drop_first().push(t));
        lemma_html_header_cells_push(texts.drop_first(), t);
        assert(html_header_cells(texts.push(t)) =~= html_header_cells(texts) + html_th(t));
    }
}

/// One more data cell appends its element.
proof fn lemma_html_row_cells_push(pairs: Seq<(Seq<char>, Seq<char>)>, p: (Seq<char>, Seq<char>))
    ensures
        html_row_cells(pairs.push(p)) == html_row_cells(pairs) + html_td(p.0, p.1),
    decreases pairs.len(),
{
    if pairs.len() == 0 {
        assert(pairs.push(p)[0] == p);
        assert(pairs.push(p).drop_first() =~= pairs);
        assert(html_row_cells(pairs.push(p)) =~= html_row_cells(pairs) + html_td(p.0, p.1));
    } else {
        assert(pairs.push(p)[0] == pairs[0]);
        assert(pairs.push(p).drop_first() =~= pairs.drop_first().push(p));
        lemma_html_row_cells_push(pairs.drop_first(), p);
        assert(html_row_cells(pairs.push(p)) =~= html_row_cells(pairs) + html_td(p.0, p.1));
    }
}

/// One more data row appends its element.
proof fn lemma_html_body_push(rows: Seq<Seq<(Seq<char>, Seq<char>)>>, row: Seq<
    (Seq<char>, Seq<char>),
>)
    ensures
        html_body(rows.push(row)) == html_body(rows) + html_tr(html_row_cells(row)),
    decreases rows.len(),
{
    if rows.len() == 0 {
        assert(rows.push(row)[0] == row);
        assert(rows.push(row).drop_first() =~= rows);
        assert(html_body(rows.push(row)) =~= html_body(rows) + html_tr(html_row_cells(row)));
    } else {
        assert(rows.push(row)[0] == rows[0]);
        assert(rows.push(row).drop_first() =~= rows.drop_first().push(row));
        lemma_html_body_push(rows.drop_first(), row);
        assert(html_body(rows.push(row)) =~= html_body(rows) + html_tr(html_row_cells(row)));
    }
}

/// Appends the HTML escape of `s` to `out`.
fn append_html_escaped(out: &mut String, s: &String)
    ensures
        final(out)@ == old(out)@ + html_escape(s@),
{
    let st: &str = s.as_str();
    let n: usize = st.unicode_len();
    let mut i: usize = 0;
    while i < n
        invariant
            st@ == s@,
            n == s@.len(),
            i <= n,
            out@ == old(out)@ + html_escape(s@.take(i as int)),
        decreases n - i,
    {
        let c = st.get_char(i);
        if c == '&' {
            out.append("&amp;");
            proof {
                reveal_strlit("&amp;");
                assert("&amp;"@ =~= seq!['&', 'a', 'm', 'p', ';']);
            }
        } else if c == '<' {
            out.append("&lt;");
            proof {
                reveal_strlit("&lt;");
                assert("&lt;"@ =~= seq!['&', 'l', 't', ';']);
            }
        } else if c == '>' {
            out.append("&gt;");
            proof {
                reveal_strlit("&gt;");
                assert("&gt;"@ =~= seq!['&', 'g', 't', ';']);
            }
        } else if c == '"' {
            out.append("&quot;");
            proof {
                reveal_strlit("&quot;");
                assert("&quot;"@ =~= seq!['&', 'q', 'u', 'o', 't', ';']);
            }
        } else {
            push_char(out, c);
        }
        proof {
            lemma_html_escape_push(s@.take(i as int), s@[i as int]);
            assert(s@.take(i as int).push(s@[i as int]) =~= s@.take(i + 1 as int));
            assert(out@ =~= old(out)@ + html_escape(s@.take(i + 1 as int)));
        }
        i = i + 1;
    }
    proof {
        assert(s@.take(n as int) =~= s@);
    }
}

/// The HTML table printer.
pub struct HtmlTablePrinter {
    format: HtmlTableFormat,
    colorize: Vec<ColorizeSpec>,
}

impl HtmlTablePrinter {
    /// The rules this printer applies under the styled variant.
    pub closed spec fn rules(&self) -> Seq<RuleModel> {
        rule_models(self.colorize@)
    }

    /// The variant this printer renders.
    pub closed spec fn layout(&self) -> HtmlTableFormat {
        self.format
    }

    /// A printer for the given variant, with no colorize rules.
    pub fn new(format: HtmlTableFormat) -> (p: HtmlTablePrinter)
        ensures
            p.rules() == Seq::<RuleModel>::empty(),
            p.layout() == format,
    {
        let p = HtmlTablePrinter { format, colorize: Vec::new() };
        proof {
            assert(p.rules() =~= Seq::<RuleModel>::empty());
        }
        p
    }

    /// A printer for the given variant and colorize rules.
    pub fn with_colorize(format: HtmlTableFormat, colorize: Vec<ColorizeSpec>) -> (p:
        HtmlTablePrinter)
        ensures
            p.rules() == rule_models(colorize@),
            p.layout() == format,
    {
        HtmlTablePrinter { format, colorize }
    }

    /// Renders the table as an HTML table element: a header row of `th`
    /// cells, then one `tr` element per data row, each cell formatted
    /// and, under the styled variant, carrying the matched style tag as a
    /// class.
    pub fn print(&self, data: &JsonTable) -> (r: String)
        ensures
            r@ == html_render(
                data@.headers,
                data@.rows,
                index_spec(self.rules(), data@.headers),
                self.layout() is Styled,
            ),
    {
        let idx = ColorizeIndex::build(&self.colorize, data.headers());
        let ghost idx_m = index_spec(self.rules(), data@.headers);
        let styled = match self.format {
            HtmlTableFormat::Styled => true,
            HtmlTableFormat::Raw => false,
        };

        let mut r = String::from_str("<table>\n");
        proof {
            reveal_strlit("<table>\n");
            assert("<table>\n"@ =~= seq!['<', 't', 'a', 'b', 'l', 'e', '>', '\n']);
        }

        // Header row.
        let headers = header_strings(data.headers());
        let ghost hts = header_texts(data@.headers);
        r.append("<tr>");
        proof {
            reveal_strlit("<tr>");
            assert("<tr>"@ =~= seq!['<', 't', 'r', '>']);
        }
        let ghost after_open = r@;
        let mut i: usize = 0;
        while i < headers.len()
            invariant
                headers.deep_view() == hts,
                headers@.len() == hts.len(),
                i <= headers@.len(),
                r@ == after_open + html_header_cells(hts.take(i as int)),
            decreases headers@.len() - i,
        {
            r.append("<th>");
            append_html_escaped(&mut r, &headers[i]);
            r.append("</th>");
            proof {
                reveal_strlit("<th>");
                reveal_strlit("</th>");
                assert("<th>"@ =~= seq!['<', 't', 'h', '>']);
                assert("</th>"@ =~= seq!['<', '/', 't', 'h', '>']);
                assert(hts[i as int] == headers@[i as int]@);
                lemma_html_header_cells_push(hts.take(i as int), hts[i as int]);
                assert(hts.take(i as int).push(hts[i as int]) =~= hts.take(i + 1 as int));
                assert(r@ =~= after_open + html_header_cells(hts.take(i + 1 as int)));
            }
            i = i + 1;
        }
        r.append("</tr>\n");
        proof {
            reveal_strlit("</tr>\n");
            assert("</tr>\n"@ =~= seq!['<', '/', 't', 'r', '>', '\n']);
            assert(hts.take(hts.len() as int) =~= hts);
            assert(r@ =~= seq!['<', 't', 'a', 'b', 'l', 'e', '>', '\n'] + html_tr(
                html_header_cells(hts),
            ) + html_body(html_body_pairs(idx_m, styled, data@.rows).take(0)));
        }

        // Data rows.
        let ghost body_pairs = html_body_pairs(idx_m, styled, data@.rows);
        let ghost prefix = seq!['<', 't', 'a', 'b', 'l', 'e', '>', '\n'] + html_tr(
            html_header_cells(hts),
        );
        let n = data.num_rows();
        let mut k: usize = 0;
        while k < n
            invariant
                n == data@.rows.len(),
                idx@ == idx_m,
                styled == (self.layout() is Styled),
                body_pairs == html_body_pairs(idx_m, styled, data@.rows),
                body_pairs.len() == n as int,
                prefix == seq!['<', 't', 'a', 'b', 'l', 'e', '>', '\n'] + html_tr(
                    html_header_cells(hts),
                ),
                hts == header_texts(data@.headers),
                k <= n,
                r@ == prefix + html_body(body_pairs.take(k as int)),
            decreases n - k,
        {
            let cells = data.row_at(k);
            let texts = format_row(cells);
            let ghost row_m = data@.rows[k as int];
            let ghost pairs = html_row_pairs(idx_m, styled, row_m);
            proof {
                assert(texts.deep_view() == row_texts(row_m));
                assert(texts@.len() == row_texts(row_m).len());
                assert(pairs.len() == row_m.len());
            }
            r.append("<tr>");
            proof {
                reveal_strlit("<tr>");
                assert("<tr>"@ =~= seq!['<', 't', 'r', '>']);
            }
            let ghost row_open = r@;
            let mut c: usize = 0;
            while c < texts.len()
                invariant
                    idx@ == idx_m,
                    texts.deep_view() == row_texts(row_m),
                    texts@.len() == row_m.len(),
                    pairs == html_row_pairs(idx_m, styled, row_m),
                    pairs.len() == row_m.len(),
                    c <= texts@.len(),
                    r@ == row_open + html_row_cells(pairs.take(c as int)),
                decreases texts@.len() - c,
            {
                proof {
                    assert(texts.deep_view()[c as int] == texts@[c as int]@);
                    assert(texts@[c as int]@ == row_texts(row_m)[c as int]);
                }
                let mut applied: Option<String> = None;
                if styled {
                    match idx.style_for(c, &texts[c]) {
                        Some(st) => {
                            if !st.as_str().is_empty() {
                                applied = Some(st.clone());
                            }
                        },
                        None => {},
                    }
                }
                match applied {
                    Some(st) => {
                        r.append("<td class=\"");
                        append_html_escaped(&mut r, &st);
                        r.append("\">");
                        proof {
                            reveal_strlit("<td class=\"");
                            reveal_strlit("\">");
                            assert("<td class=\""@ =~= seq![
                                '<',
                                't',
                                'd',
                                ' ',
                                'c',
                                'l',
                                'a',
                                's',
                                's',
                                '=',
                                '"',
                            ]);
                            assert("\">"@ =~= seq!['"', '>']);
                        }
                        append_html_escaped(&mut r, &texts[c]);
                        r.append("</td>");
                        proof {
                            reveal_strlit("</td>");
                            assert("</td>"@ =~= seq!['<', '/', 't', 'd', '>']);
                            assert(pairs[c as int].1 == st@);
                            assert(pairs[c as int].1.len() > 0);
                            assert(r@ =~= row_open + html_row_cells(pairs.take(c as int))
                                + html_td(pairs[c as int].0, pairs[c as int].1));
                        }
                    },
                    None => {
                        r.append("<td>");
                        append_html_escaped(&mut r, &texts[c]);
                        r.append("</td>");
                        proof {
                            reveal_strlit("<td>");
                            reveal_strlit("</td>");
                            assert("<td>"@ =~= seq!['<', 't', 'd', '>']);
                            assert("</td>"@ =~= seq!['<', '/', 't', 'd', '>']);
                            assert(pairs[c as int].1.len() == 0);
                            assert(pairs[c as int].1 =~= Seq::<char>::empty());
                            assert(r@ =~= row_open + html_row_cells(pairs.take(c as int))
                                + html_td(pairs[c as int].0, pairs[c as int].1));
                        }
                    },
                }
                proof {
                    lemma_html_row_cells_push(pairs.take(c as int), pairs[c as int]);
                    assert(pairs.take(c as int).push(pairs[c as int]) =~= pairs.take(c + 1 as int));
                    assert(r@ =~= row_open + html_row_cells(pairs.take(c + 1 as int)));
                }
                c = c + 1;
            }
            r.append("</tr>\n");
            proof {
                reveal_strlit("</tr>\n");
                assert("</tr>\n"@ =~= seq!['<', '/', 't', 'r', '>', '\n']);
                assert(pairs.take(pairs.len() as int) =~= pairs);
                assert(body_pairs[k as int] == pairs);
                lemma_html_body_push(body_pairs.take(k as int), body_pairs[k as int]);
                assert(body_pairs.take(k as int).push(body_pairs[k as int]) =~= body_pairs.take(
                    k + 1 as int,
                ));
                assert(r@ =~= prefix + html_body(body_pairs.take(k + 1 as int)));
            }
            k = k + 1;
        }
        r.append("</table>\n");
        proof {
            reveal_strlit("</table>\n");
            assert("</table>\n"@ =~= seq!['<', '/', 't', 'a', 'b', 'l', 'e', '>', '\n']);
            assert(body_pairs.take(body_pairs.len() as int) =~= body_pairs);
            assert(r@ =~= html_render(data@.headers, data@.rows, idx_m, styled));
        }
        r
    }
}


/// A sequence without `c` counts zero.
proof fn lemma_count_absent_html(s: Seq<char>, c: char)
    requires
        forall|i: int| 0 <= i < s.len() ==> s[i] != c,
    ensures
        count_char(s, c) == 0,
    decreases s.len(),
{
    if s.len() > 0 {
        lemma_count_absent_html(s.drop_first(), c);
    }
}


/// A sequence whose only occurrence of `c` is its first character counts
/// one.
proof fn lemma_count_head_absent(s: Seq<char>, c: char)
    requires
        s.len() >= 1,
        s[0] == c,
        forall|i: int| 1 <= i < s.len() ==> s[i] != c,
    ensures
        count_char(s, c) == 1,
{
    assert(forall|i: int| 0 <= i < s.drop_first().len() ==> s.drop_first()[i] != c);
    lemma_count_absent_html(s.drop_first(), c);
}

/// Escaped text holds no opening angle bracket.
proof fn lemma_html_escape_no_lt(s: Seq<char>)
    ensures
        count_char(html_escape(s), '<') == 0,
    decreases s.len(),
{
    if s.len() > 0 {
        lemma_html_escape_no_lt(s.drop_first());
        lemma_count_char_add(html_escape_char(s[0]), html_escape(s.drop_first()), '<');
        assert(forall|i: int|
            0 <= i < html_escape_char(s[0]).len() ==> html_escape_char(s[0])[i] != '<');
        lemma_count_absent_html(html_escape_char(s[0]), '<');
    }
}

/// One header cell element holds exactly two opening angle brackets.
proof fn lemma_html_th_lt(text: Seq<char>)
    ensures
        count_char(html_th(text), '<') == 2,
{
    lemma_html_escape_no_lt(text);
    lemma_count_char_add(seq!['<', 't', 'h', '>'], html_escape(text), '<');
    lemma_count_char_add(
        seq!['<', 't', 'h', '>'] + html_escape(text),
        seq!['<', '/', 't', 'h', '>'],
        '<',
    );
    lemma_count_head_absent(seq!['<', 't', 'h', '>'], '<');
    lemma_count_head_absent(seq!['<', '/', 't', 'h', '>'], '<');
}

/// One data cell element holds exactly two opening angle brackets,
/// styled or not.
proof fn lemma_html_td_lt(text: Seq<char>, style: Seq<char>)
    ensures
        count_char(html_td(text, style), '<') == 2,
{
    lemma_html_escape_no_lt(text);
    lemma_html_escape_no_lt(style);
    if style.len() == 0 {
        lemma_count_char_add(seq!['<', 't', 'd', '>'], html_escape(text), '<');
        lemma_count_char_add(
            seq!['<', 't', 'd', '>'] + html_escape(text),
            seq!['<', '/', 't', 'd', '>'],
            '<',
        );
        lemma_count_head_absent(seq!['<', 't', 'd', '>'], '<');
        lemma_count_head_absent(seq!['<', '/', 't', 'd', '>'], '<');
    } else {
        let open = seq!['<', 't', 'd', ' ', 'c', 'l', 'a', 's', 's', '=', '"'];
        lemma_count_char_add(open, html_escape(style), '<');
        lemma_count_char_add(open + html_escape(style), seq!['"', '>'], '<');
        lemma_count_char_add(open + html_escape(style) + seq!['"', '>'], html_escape(text), '<');
        lemma_count_char_add(
            open + html_escape(style) + seq!['"', '>'] + html_escape(text),
            seq!['<', '/', 't', 'd', '>'],
            '<',
        );
        lemma_count_head_absent(seq!['<', 't', 'd', ' ', 'c', 'l', 'a', 's', 's', '=', '"'], '<');
        lemma_count_absent_html(seq!['"', '>'], '<');
        lemma_count_head_absent(seq!['<', '/', 't', 'd', '>'], '<');
    }
}

/// The header cells hold two opening angle brackets per column.
proof fn lemma_html_header_cells_lt(texts: Seq<Seq<char>>)
    ensures
        count_char(html_header_cells(texts), '<') == 2 * texts.len(),
    decreases texts.len(),
{
    if texts.len() > 0 {
        lemma_html_header_cells_lt(texts.drop_first());
        lemma_html_th_lt(texts[0]);
        lemma_count_char_add(html_th(texts[0]), html_header_cells(texts.drop_first()), '<');
    }
}

/// The cells of one row hold two opening angle brackets per cell.
proof fn lemma_html_row_cells_lt(pairs: Seq<(Seq<char>, Seq<char>)>)
    ensures
        count_char(html_row_cells(pairs), '<') == 2 * pairs.len(),
    decreases pairs.len(),
{
    if pairs.len() > 0 {
        lemma_html_row_cells_lt(pairs.drop_first());
        lemma_html_td_lt(pairs[0].0, pairs[0].1);
        lemma_count_char_add(
            html_td(pairs[0].0, pairs[0].1),
            html_row_cells(pairs.drop_first()),
            '<',
        );
    }
}

/// One row element holds two opening angle brackets beyond its content.
proof fn lemma_html_tr_lt(content: Seq<char>)
    ensures
        count_char(html_tr(content), '<') == 2 + count_char(content, '<'),
{
    lemma_count_char_add(seq!['<', 't', 'r', '>'], content, '<');
    lemma_count_char_add(
        seq!['<', 't', 'r', '>'] + content,
        seq!['<', '/', 't', 'r', '>', '\n'],
        '<',
    );
    lemma_count_head_absent(seq!['<', 't', 'r', '>'], '<');
    lemma_count_head_absent(seq!['<', '/', 't', 'r', '>', '\n'], '<');
}

/// The body holds, per row of width `w`, one row element of `2 + 2 * w`
/// opening angle brackets.
proof fn lemma_html_body_lt(rows: Seq<Seq<(Seq<char>, Seq<char>)>>, w: nat)
    requires
        forall|r: int| 0 <= r < rows.len() ==> #[trigger] rows[r].len() == w,
    ensures
        count_char(html_body(rows), '<') == rows.len() * (2 + 2 * w),
    decreases rows.len(),
{
    if rows.len() == 0 {
        assert(count_char(html_body(rows), '<') == 0);
    } else {
        assert(forall|r: int|
            0 <= r < rows.drop_first().len() ==> #[trigger] rows.drop_first()[r].len() == w);
        lemma_html_body_lt(rows.drop_first(), w);
        lemma_html_row_cells_lt(rows[0]);
        lemma_html_tr_lt(html_row_cells(rows[0]));
        lemma_count_char_add(html_tr(html_row_cells(rows[0])), html_body(rows.drop_first()), '<');
        assert(rows.len() * (2 + 2 * w) == (2 + 2 * w) + rows.drop_first().len() * (2 + 2 * w))
            by (nonlinear_arith)
            requires
                rows.len() >= 1,
                rows.drop_first().len() == rows.len() - 1,
        ;
    }
}

/// Rendering a table with N data rows in HTML produces N + 1 row
/// elements, the header row included: counted by opening angle brackets,
/// the output holds exactly the two of the table element and `2 + 2 * W`
/// for each of the `N + 1` row elements, where `W` is the number of
/// columns. Escaping keeps cell text and style tags free of brackets.
pub proof fn lemma_html_row_elements(
    h: HeaderModel,
    rows: Seq<Seq<ValueModel>>,
    idx: Seq<Seq<RuleModel>>,
    styled: bool,
)
    requires
        forall|r: int| 0 <= r < rows.len() ==> #[trigger] rows[r].len() == header_texts(h).len(),
    ensures
        count_char(html_render(h, rows, idx, styled), '<') == 2 + (rows.len() + 1) * (2 + 2
            * header_texts(h).len()),
{
    let w = header_texts(h).len();
    let body = html_body_pairs(idx, styled, rows);
    assert(forall|r: int| 0 <= r < body.len() ==> #[trigger] body[r].len() == w);
    lemma_html_body_lt(body, w);
    lemma_html_header_cells_lt(header_texts(h));
    lemma_html_tr_lt(html_header_cells(header_texts(h)));
    let p1 = seq!['<', 't', 'a', 'b', 'l', 'e', '>', '\n'];
    let p4 = seq!['<', '/', 't', 'a', 'b', 'l', 'e', '>', '\n'];
    lemma_count_char_add(p1, html_tr(html_header_cells(header_texts(h))), '<');
    lemma_count_char_add(p1 + html_tr(html_header_cells(header_texts(h))), html_body(body), '<');
    lemma_count_char_add(
        p1 + html_tr(html_header_cells(header_texts(h))) + html_body(body),
        p4,
        '<',
    );
    lemma_count_head_absent(seq!['<', 't', 'a', 'b', 'l', 'e', '>', '\n'], '<');
    lemma_count_head_absent(seq!['<', '/', 't', 'a', 'b', 'l', 'e', '>', '\n'], '<');
    assert((rows.len() + 1) * (2 + 2 * w) == rows.len() * (2 + 2 * w) + (2 + 2 * w))
        by (nonlinear_arith);
}

} // verus!
