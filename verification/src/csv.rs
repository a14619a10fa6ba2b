//! The CSV value source: turns delimited text into one object per record.
//!
//! The text is cut into lines at newlines; a trailing carriage return is
//! dropped from each line and empty lines are skipped. Each line is cut
//! into fields at the configured delimiter byte; quoting is not
//! interpreted, so a delimiter inside quotes still separates. With a
//! header, the first line names the columns; without one, columns get the
//! positional names `_c0`, `_c1`, and so on, after the first record's
//! width. A record whose field count differs from the column count is
//! dropped with a diagnostic; CSV field values are always strings, never
//! numbers.

use vstd::prelude::*;

use crate::reader::capped;
use crate::text::{dec_digits, usize_to_string};
use crate::value::{
    entry_models, lemma_entry_models, lemma_seq_models, seq_models, val_model, JsonValue,
    ValueModel,
};

verus! {

broadcast use vstd::std_specs::vec::group_vec_axioms;

/// Options of the CSV reader: the field delimiter (one byte) and whether
/// the first line names the columns.
#[derive(Debug, Clone, Copy, PartialEq, Eq)]
pub struct CsvReaderOptions {
    pub delimiter: u8,
    pub has_header: bool,
}

/// `s` cut at every occurrence of `sep`: always one more segment than
/// separators, so empty text gives one empty segment.
pub open spec fn split_on(s: Seq<char>, sep: char) -> Seq<Seq<char>>
    decreases s.len(),
{
    if s.len() == 0 {
        seq![Seq::<char>::empty()]
    } else if s[0] == sep {
        seq![Seq::<char>::empty()] + split_on(s.drop_first(), sep)
    } else {
        let rest = split_on(s.drop_first(), sep);
        seq![seq![s[0]] + rest[0]] + rest.drop_first()
    }
}

/// A split has at least one segment.
pub proof fn lemma_split_on_len(s: Seq<char>, sep: char)
    ensures
        split_on(s, sep).len() >= 1,
    decreases s.len(),
{
    if s.len() > 0 {
        lemma_split_on_len(s.drop_first(), sep);
    }
}

/// One more character either opens a new segment or extends the last one.
proof fn lemma_split_on_push(s: Seq<char>, c: char, sep: char)
    ensures
        split_on(s.push(c), sep) == if c == sep {
            split_on(s, sep).push(Seq::<char>::empty())
        } else {
            split_on(s, sep).update(
                split_on(s, sep).len() - 1,
                split_on(s, sep).last().push(c),
            )
        },
    decreases s.len(),
{
    lemma_split_on_len(s, sep);
    if s.len() == 0 {
        assert(s.push(c)[0] == c);
        assert(s.push(c).drop_first() =~= s);
        if c == sep {
            assert(split_on(s.push(c), sep) =~= split_on(s, sep).push(Seq::<char>::empty()));
        } else {
            assert(seq![c] + split_on(s, sep)[0] =~= split_on(s, sep).last().push(c));
            assert(split_on(s.push(c), sep) =~= split_on(s, sep).update(
                split_on(s, sep).len() - 1,
                split_on(s, sep).last().push(c),
            ));
        }
    } else {
        assert(s.push(c)[0] == s[0]);
        assert(s.push(c).drop_first() =~= s.drop_first().push(c));
        lemma_split_on_push(s.drop_first(), c, sep);
        lemma_split_on_len(s.drop_first(), sep);
        if c == sep {
            assert(split_on(s.push(c), sep) =~= split_on(s, sep).push(Seq::<char>::empty()));
        } else {
            assert(split_on(s.push(c), sep) =~= split_on(s, sep).update(
                split_on(s, sep).len() - 1,
                split_on(s, sep).last().push(c),
            ));
        }
    }
}

/// A line with a trailing carriage return dropped.
pub open spec fn strip_cr(line: Seq<char>) -> Seq<char> {
    if line.len() > 0 && line.last() == '\r' {
        line.drop_last()
    } else {
        line
    }
}

/// The lines a segment sequence yields: each stripped of a trailing
/// carriage return, empty ones skipped.
pub open spec fn csv_lines_of(segs: Seq<Seq<char>>) -> Seq<Seq<char>>
    decreases segs.len(),
{
    if segs.len() == 0 {
        Seq::empty()
    } else {
        (if strip_cr(segs[0]).len() == 0 {
            Seq::<Seq<char>>::empty()
        } else {
            seq![strip_cr(segs[0])]
        }) + csv_lines_of(segs.drop_first())
    }
}

/// One more segment appends its line, or nothing when it is empty.
proof fn lemma_csv_lines_push(segs: Seq<Seq<char>>, seg: Seq<char>)
    ensures
        csv_lines_of(segs.push(seg)) == csv_lines_of(segs) + (if strip_cr(seg).len() == 0 {
            Seq::<Seq<char>>::empty()
        } else {
            seq![strip_cr(seg)]
        }),
    decreases segs.len(),
{
    if segs.len() == 0 {
        assert(segs.push(seg)[0] == seg);
        assert(segs.push(seg).drop_first() =~= segs);
        assert(csv_lines_of(segs.push(seg)) =~= csv_lines_of(segs) + (if strip_cr(seg).len()
            == 0 {
            Seq::<Seq<char>>::empty()
        } else {
            seq![strip_cr(seg)]
        }));
    } else {
        assert(segs.push(seg)[0] == segs[0]);
        assert(segs.push(seg).drop_first() =~= segs.drop_first().push(seg));
        lemma_csv_lines_push(segs.drop_first(), seg);
        assert(csv_lines_of(segs.push(seg)) =~= csv_lines_of(segs) + (if strip_cr(seg).len()
            == 0 {
            Seq::<Seq<char>>::empty()
        } else {
            seq![strip_cr(seg)]
        }));
    }
}

/// The lines of the whole input text.
pub open spec fn csv_lines(text: Seq<char>) -> Seq<Seq<char>> {
    csv_lines_of(split_on(text, '\n'))
}

/// The positional column names `_c0`, `_c1`, and so on.
pub open spec fn positional_names(w: nat) -> Seq<Seq<char>> {
    Seq::new(w, |i: int| "_c"@ + dec_digits(i as nat))
}

/// The column names a line sequence yields: the fields of the first line
/// when the input carries a header, positional names after the first
/// record's width otherwise. No lines, no columns.
pub open spec fn csv_names(lines: Seq<Seq<char>>, sep: char, has_header: bool) -> Seq<
    Seq<char>,
> {
    if lines.len() == 0 {
        Seq::empty()
    } else if has_header {
        split_on(lines[0], sep)
    } else {
        positional_names(split_on(lines[0], sep).len())
    }
}

/// The record lines the cap admits: everything after the header line when
/// there is one, at most `cap` of them (100 when no cap is given).
pub open spec fn csv_records(lines: Seq<Seq<char>>, has_header: bool, cap: Option<usize>) -> Seq<
    Seq<char>,
> {
    if lines.len() == 0 {
        Seq::empty()
    } else if has_header {
        lines.skip(1).take(capped(cap, (lines.len() - 1) as nat, 100) as int)
    } else {
        lines.take(capped(cap, lines.len(), 100) as int)
    }
}

/// The object one record yields: each column name bound to the field's
/// text.
pub open spec fn csv_row_of(fields: Seq<Seq<char>>, names: Seq<Seq<char>>) -> ValueModel {
    ValueModel::Object(
        Seq::new(names.len(), |i: int| (names[i], ValueModel::String(fields[i]))),
    )
}

/// The diagnostic a dropped record leaves.
pub open spec fn csv_warning_text() -> Seq<char> {
    "skipped csv record: field count mismatch"@
}

/// The objects the records yield, in order; a record whose field count
/// differs from the column count yields none.
pub open spec fn csv_rows(records: Seq<Seq<char>>, names: Seq<Seq<char>>, sep: char) -> Seq<
    ValueModel,
>
    decreases records.len(),
{
    if records.len() == 0 {
        Seq::empty()
    } else {
        (if split_on(records[0], sep).len() == names.len() {
            seq![csv_row_of(split_on(records[0], sep), names)]
        } else {
            Seq::<ValueModel>::empty()
        }) + csv_rows(records.drop_first(), names, sep)
    }
}

/// One diagnostic per dropped record, in order.
pub open spec fn csv_warns(records: Seq<Seq<char>>, names: Seq<Seq<char>>, sep: char) -> Seq<
    Seq<char>,
>
    decreases records.len(),
{
    if records.len() == 0 {
        Seq::empty()
    } else {
        (if split_on(records[0], sep).len() == names.len() {
            Seq::<Seq<char>>::empty()
        } else {
            seq![csv_warning_text()]
        }) + csv_warns(records.drop_first(), names, sep)
    }
}

/// One more record appends its object or its diagnostic.
proof fn lemma_csv_records_push(
    records: Seq<Seq<char>>,
    rec: Seq<char>,
    names: Seq<Seq<char>>,
    sep: char,
)
    ensures
        csv_rows(records.push(rec), names, sep) == csv_rows(records, names, sep) + (if split_on(
            rec,
            sep,
        ).len() == names.len() {
            seq![csv_row_of(split_on(rec, sep), names)]
        } else {
            Seq::<ValueModel>::empty()
        }),
        csv_warns(records.push(rec), names, sep) == csv_warns(records, names, sep) + (if split_on(
            rec,
            sep,
        ).len() == names.len() {
            Seq::<Seq<char>>::empty()
        } else {
            seq![csv_warning_text()]
        }),
    decreases records.len(),
{
    if records.len() == 0 {
        assert(records.push(rec)[0] == rec);
        assert(records.push(rec).drop_first() =~= records);
        assert(csv_rows(records.push(rec), names, sep) =~= csv_rows(records, names, sep) + (
        if split_on(rec, sep).len() == names.len() {
            seq![csv_row_of(split_on(rec, sep), names)]
        } else {
            Seq::<ValueModel>::empty()
        }));
        assert(csv_warns(records.push(rec), names, sep) =~= csv_warns(records, names, sep) + (
        if split_on(rec, sep).len() == names.len() {
            Seq::<Seq<char>>::empty()
        } else {
            seq![csv_warning_text()]
        }));
    } else {
        assert(records.push(rec)[0] == records[0]);
        assert(records.push(rec).drop_first() =~= records.drop_first().push(rec));
        lemma_csv_records_push(records.drop_first(), rec, names, sep);
        assert(csv_rows(records.push(rec), names, sep) =~= csv_rows(records, names, sep) + (
        if split_on(rec, sep).len() == names.len() {
            seq![csv_row_of(split_on(rec, sep), names)]
        } else {
            Seq::<ValueModel>::empty()
        }));
        assert(csv_warns(records.push(rec), names, sep) =~= csv_warns(records, names, sep) + (
        if split_on(rec, sep).len() == names.len() {
            Seq::<Seq<char>>::empty()
        } else {
            seq![csv_warning_text()]
        }));
    }
}

/// The value the whole CSV input yields: an array of one object per kept
/// record.
pub open spec fn csv_doc(text: Seq<char>, sep: char, has_header: bool, cap: Option<usize>) -> ValueModel {
    let lines = csv_lines(text);
    ValueModel::Array(
        csv_rows(csv_records(lines, has_header, cap), csv_names(lines, sep, has_header), sep),
    )
}

/// The diagnostics the whole CSV input leaves.
pub open spec fn csv_diagnostics(
    text: Seq<char>,
    sep: char,
    has_header: bool,
    cap: Option<usize>,
) -> Seq<Seq<char>> {
    let lines = csv_lines(text);
    csv_warns(csv_records(lines, has_header, cap), csv_names(lines, sep, has_header), sep)
}

/// Cuts `s` at every occurrence of `sep`.
fn split_on_exec(s: &str, sep: char) -> (r: Vec<String>)
    ensures
        r.deep_view() == split_on(s@, sep),
{
    let n: usize = s.unicode_len();
    let mut done: Vec<String> = Vec::new();
    let mut cur: String = String::new();
    let mut i: usize = 0;
    while i < n
        invariant
            n == s@.len(),
            i <= n,
            split_on(s@.take(i as int), sep) =~= done.deep_view().push(cur@),
        decreases n - i,
    {
        let c = s.get_char(i);
        proof {
            lemma_split_on_push(s@.take(i as int), s@[i as int], sep);
            assert(s@.take(i as int).push(s@[i as int]) =~= s@.take(i + 1 as int));
        }
        if c == sep {
            done.push(cur);
            cur = String::new();
            proof {
                assert(split_on(s@.take(i + 1 as int), sep) =~= done.deep_view().push(cur@));
            }
        } else {
            crate::text::push_char(&mut cur, c);
            proof {
                let prev = split_on(s@.take(i as int), sep);
                assert(prev.last() == cur@.drop_last());
                assert(prev.update(prev.len() - 1, prev.last().push(s@[i as int]))
                    =~= done.deep_view().push(cur@));
            }
        }
        i = i + 1;
    }
    done.push(cur);
    proof {
        assert(s@.take(n as int) =~= s@);
        assert(done.deep_view() =~= split_on(s@, sep));
    }
    done
}

/// The lines of the input text: segments at newlines, carriage returns
/// stripped, empty lines skipped.
fn csv_lines_exec(text: &str) -> (r: Vec<String>)
    ensures
        r.deep_view() == csv_lines(text@),
{
    let segs = split_on_exec(text, '\n');
    let mut lines: Vec<String> = Vec::new();
    let mut i: usize = 0;
    while i < segs.len()
        invariant
            segs.deep_view() == split_on(text@, '\n'),
            segs@.len() == split_on(text@, '\n').len(),
            i <= segs@.len(),
            lines.deep_view() =~= csv_lines_of(segs.deep_view().take(i as int)),
        decreases segs@.len() - i,
    {
        let seg: &String = &segs[i];
        let len = seg.as_str().unicode_len();
        proof {
            assert(segs.deep_view()[i as int] == segs@[i as int]@);
        }
        let stripped: String = if len > 0 && seg.as_str().get_char(len - 1) == '\r' {
            seg.as_str().substring_char(0, len - 1).to_owned()
        } else {
            seg.clone()
        };
        proof {
            assert(stripped@ =~= strip_cr(segs@[i as int]@));
        }
        if !stripped.as_str().is_empty() {
            lines.push(stripped);
        }
        proof {
            lemma_csv_lines_push(segs.deep_view().take(i as int), segs.deep_view()[i as int]);
            assert(segs.deep_view().take(i as int).push(segs.deep_view()[i as int])
                =~= segs.deep_view().take(i + 1 as int));
            assert(lines.deep_view() =~= csv_lines_of(segs.deep_view().take(i + 1 as int)));
        }
        i = i + 1;
    }
    proof {
        assert(segs.deep_view().take(segs@.len() as int) =~= segs.deep_view());
    }
    lines
}

/// The positional column names for a record width.
fn positional_names_exec(w: usize) -> (r: Vec<String>)
    ensures
        r.deep_view() == positional_names(w as nat),
{
    let mut r: Vec<String> = Vec::new();
    let mut i: usize = 0;
    while i < w
        invariant
            i <= w,
            r@.len() == i as int,
            forall|j: int| 0 <= j < i ==> r@[j]@ == "_c"@ + dec_digits(j as nat),
        decreases w - i,
    {
        let mut name = String::from_str("_c");
        let digits = usize_to_string(i);
        name.append(digits.as_str());
        r.push(name);
        i = i + 1;
    }
    proof {
        assert(r.deep_view() =~= positional_names(w as nat));
    }
    r
}

/// Reads CSV text: one object per record, under named or positional
/// columns.
pub struct CsvReader {
    text: String,
    options: CsvReaderOptions,
}

impl CsvReader {
    /// The input text this reader works on.
    pub closed spec fn spec_text(&self) -> Seq<char> {
        self.text@
    }

    /// The options this reader was built with.
    pub closed spec fn spec_options(&self) -> CsvReaderOptions {
        self.options
    }

    /// A reader over the given delimited text. The delimiter is a single
    /// byte of the text, so it must be an ASCII byte.
    pub fn new(text: String, options: CsvReaderOptions) -> (r: CsvReader)
        requires
            options.delimiter < 128,
        ensures
            r.spec_text() == text@,
            r.spec_options() == options,
    {
        CsvReader { text, options }
    }

    /// Parses the text as [`csv_doc`] describes: at most `take` records
    /// (100 when no cap is given) become objects under the resolved
    /// column names; a record with the wrong field count is dropped and
    /// leaves one diagnostic.
    pub fn read_value(self, take: Option<usize>) -> (r: (JsonValue, Vec<String>))
        requires
            self.spec_options().delimiter < 128,
        ensures
            val_model(r.0) == csv_doc(
                self.spec_text(),
                self.spec_options().delimiter as char,
                self.spec_options().has_header,
                take,
            ),
            r.1.deep_view() == csv_diagnostics(
                self.spec_text(),
                self.spec_options().delimiter as char,
                self.spec_options().has_header,
                take,
            ),
    {
        let sep: char = self.options.delimiter as char;
        let has_header = self.options.has_header;
        let lines = csv_lines_exec(self.text.as_str());
        let ghost lines_m = csv_lines(self.text@);
        proof {
            assert(lines@.len() == lines_m.len());
        }
        let mut rows: Vec<JsonValue> = Vec::new();
        let mut warnings: Vec<String> = Vec::new();
        if lines.len() == 0 {
            let r = (JsonValue::Array(rows), warnings);
            proof {
                assert(seq_models(rows@) =~= Seq::<ValueModel>::empty());
                assert(r.1.deep_view() =~= Seq::<Seq<char>>::empty());
                assert(csv_records(lines_m, has_header, take) =~= Seq::<Seq<char>>::empty());
            }
            return r;
        }
        // Resolve the column names.
        let names: Vec<String> = if has_header {
            split_on_exec(lines[0].as_str(), sep)
        } else {
            let first_fields = split_on_exec(lines[0].as_str(), sep);
            positional_names_exec(first_fields.len())
        };
        let ghost names_m = csv_names(lines_m, sep, has_header);
        proof {
            assert(lines.deep_view()[0] == lines@[0]@);
            assert(names.deep_view() == names_m);
            assert(names@.len() == names_m.len());
        }
        // Walk the records the cap admits.
        let cap: usize = match take {
            Some(t) => t,
            None => 100,
        };
        let start: usize = if has_header {
            1
        } else {
            0
        };
        let avail: usize = lines.len() - start;
        let count: usize = if cap <= avail {
            cap
        } else {
            avail
        };
        let ghost records_m = csv_records(lines_m, has_header, take);
        proof {
            assert(records_m =~= lines_m.skip(start as int).take(count as int));
            assert(records_m.len() == count as int);
        }
        let mut k: usize = 0;
        while k < count
            invariant
                start + count <= lines@.len(),
                lines.deep_view() == lines_m,
                lines@.len() == lines_m.len(),
                names.deep_view() == names_m,
                names@.len() == names_m.len(),
                records_m == csv_records(lines_m, has_header, take),
                records_m =~= lines_m.skip(start as int).take(count as int),
                records_m.len() == count as int,
                k <= count,
                seq_models(rows@) =~= csv_rows(records_m.take(k as int), names_m, sep),
                warnings.deep_view() =~= csv_warns(records_m.take(k as int), names_m, sep),
            decreases count - k,
        {
            proof {
                assert(lines@.len() == lines.len());
                assert(start + k < start + count);
            }
            let fields = split_on_exec(lines[start + k].as_str(), sep);
            proof {
                assert(lines.deep_view()[(start + k) as int] == lines@[(start + k) as int]@);
                assert(records_m[k as int] == lines_m[(start + k) as int]);
                assert(fields.deep_view() == split_on(records_m[k as int], sep));
                assert(fields@.len() == split_on(records_m[k as int], sep).len());
            }
            if fields.len() == names.len() {
                let mut entries: Vec<(String, JsonValue)> = Vec::new();
                let mut c: usize = 0;
                while c < names.len()
                    invariant
                        names.deep_view() == names_m,
                        names@.len() == names_m.len(),
                        fields.deep_view() == split_on(records_m[k as int], sep),
                        fields@.len() == names@.len(),
                        c <= names@.len(),
                        entries@.len() == c as int,
                        forall|j: int|
                            0 <= j < c ==> entries@[j].0@ == names_m[j] && val_model(
                                entries@[j].1,
                            ) == ValueModel::String(split_on(records_m[k as int], sep)[j]),
                    decreases names@.len() - c,
                {
                    proof {
                        assert(names.deep_view()[c as int] == names@[c as int]@);
                        assert(fields.deep_view()[c as int] == fields@[c as int]@);
                    }
                    let key = names[c].clone();
                    let fld = JsonValue::String(fields[c].clone());
                    entries.push((key, fld));
                    c = c + 1;
                }
                let obj = JsonValue::Object(entries);
                let ghost old_rows = seq_models(rows@);
                rows.push(obj);
                proof {
                    broadcast use {lemma_seq_models, lemma_entry_models};

                    assert(entry_models(entries@) =~= Seq::new(
                        names_m.len(),
                        |i: int|
                            (names_m[i], ValueModel::String(split_on(records_m[k as int], sep)[i])),
                    ));
                    assert(seq_models(rows@) =~= old_rows.push(
                        csv_row_of(split_on(records_m[k as int], sep), names_m),
                    ));
                }
            } else {
                let ghost old_warns = warnings.deep_view();
                warnings.push(String::from_str("skipped csv record: field count mismatch"));
                proof {
                    assert(warnings.deep_view() =~= old_warns.push(csv_warning_text()));
                }
            }
            proof {
                lemma_csv_records_push(records_m.take(k as int), records_m[k as int], names_m, sep);
                assert(records_m.take(k as int).push(records_m[k as int]) =~= records_m.take(
                    k + 1 as int,
                ));
                assert(seq_models(rows@) =~= csv_rows(records_m.take(k + 1 as int), names_m, sep));
                assert(warnings.deep_view() =~= csv_warns(
                    records_m.take(k + 1 as int),
                    names_m,
                    sep,
                ));
            }
            k = k + 1;
        }
        let r = (JsonValue::Array(rows), warnings);
        proof {
            assert(records_m.take(count as int) =~= records_m);
            assert(val_model(r.0) == csv_doc(self.text@, sep, has_header, take));
            assert(r.1.deep_view() =~= csv_diagnostics(self.text@, sep, has_header, take));
        }
        r
    }
}

} // verus!
