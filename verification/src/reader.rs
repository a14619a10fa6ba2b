//! Value sources for JSON input: the one-shot document reader and the
//! line-delimited streaming reader.
//!
//! Both work on values already decoded from the wire format: the one-shot
//! reader on the single top-level value, the streaming reader on the
//! decode outcome of each input line. The row-count cap is applied here,
//! before any value reaches header resolution. Mind the asymmetry: the
//! streaming readers cap at 100 lines when no cap is named, while a
//! one-shot document is never truncated without one.

use vstd::prelude::*;

use crate::value::{lemma_seq_models, seq_models, val_model, JsonValue, ValueModel};

verus! {

broadcast use vstd::std_specs::vec::group_vec_axioms;

/// How many records a cap admits out of `len` available.
pub open spec fn capped(cap: Option<usize>, len: nat, default: nat) -> nat {
    let bound: nat = match cap {
        Some(t) => t as nat,
        None => default,
    };
    if bound <= len {
        bound
    } else {
        len
    }
}

/// The default cap of the streaming readers when the caller names none.
pub open spec fn default_stream_cap() -> nat {
    100
}

/// Reads one JSON document already decoded into a value: the value
/// stands as it is, except that a cap truncates a top-level array.
pub struct OneShotJsonReader {
    value: JsonValue,
}

/// What the one-shot reader returns: the value itself, with a top-level
/// array truncated to the cap when one is given. Without a cap nothing is
/// truncated.
pub open spec fn one_shot_value(v: ValueModel, take: Option<usize>) -> ValueModel {
    match (take, v) {
        (Some(t), ValueModel::Array(items)) => ValueModel::Array(
            items.take(capped(Some(t), items.len(), 0) as int),
        ),
        _ => v,
    }
}

impl OneShotJsonReader {
    /// A reader over one decoded document.
    pub fn new(value: JsonValue) -> (r: OneShotJsonReader)
        ensures
            r@ == val_model(value),
    {
        OneShotJsonReader { value }
    }

    /// The decoded document, truncated to the first `take` elements when
    /// it is an array and a cap is given.
    pub fn read_value(self, take: Option<usize>) -> (r: JsonValue)
        ensures
            val_model(r) == one_shot_value(self@, take),
    {
        broadcast use lemma_seq_models;

        match (take, self.value) {
            (Some(t), JsonValue::Array(mut items)) => {
                let ghost before = items@;
                items.truncate(t);
                proof {
                    assert(seq_models(items@) =~= seq_models(before).take(
                        capped(Some(t), seq_models(before).len(), 0) as int,
                    ));
                }
                JsonValue::Array(items)
            },
            (_, v) => v,
        }
    }
}

impl View for OneShotJsonReader {
    type V = ValueModel;

    closed spec fn view(&self) -> ValueModel {
        val_model(self.value)
    }
}

/// The decode outcome of one input line: the decoded value, or the decode
/// error's message.
pub type LineOutcome = Result<JsonValue, String>;

/// Model of one line outcome.
pub open spec fn outcome_model(o: LineOutcome) -> Result<ValueModel, Seq<char>> {
    match o {
        Ok(v) => Ok(val_model(v)),
        Err(m) => Err(m@),
    }
}

/// Models of a sequence of line outcomes.
pub open spec fn outcome_models(lines: Seq<LineOutcome>) -> Seq<Result<ValueModel, Seq<char>>> {
    Seq::new(lines.len(), |i: int| outcome_model(lines[i]))
}

/// The values of the successfully decoded lines, in order.
pub open spec fn ok_values(lines: Seq<Result<ValueModel, Seq<char>>>) -> Seq<ValueModel>
    decreases lines.len(),
{
    if lines.len() == 0 {
        Seq::empty()
    } else {
        (match lines[0] {
            Ok(v) => seq![v],
            Err(_) => Seq::empty(),
        }) + ok_values(lines.drop_first())
    }
}

/// One diagnostic per failed line, in order.
pub open spec fn line_warnings(lines: Seq<Result<ValueModel, Seq<char>>>) -> Seq<Seq<char>>
    decreases lines.len(),
{
    if lines.len() == 0 {
        Seq::empty()
    } else {
        (match lines[0] {
            Ok(_) => Seq::empty(),
            Err(m) => seq!["error parsing row: "@ + m],
        }) + line_warnings(lines.drop_first())
    }
}

/// One more line outcome appends its value or its diagnostic.
proof fn lemma_outcomes_push(lines: Seq<Result<ValueModel, Seq<char>>>, o: Result<
    ValueModel,
    Seq<char>,
>)
    ensures
        ok_values(lines.push(o)) == ok_values(lines) + (match o {
            Ok(v) => seq![v],
            Err(_) => Seq::<ValueModel>::empty(),
        }),
        line_warnings(lines.push(o)) == line_warnings(lines) + (match o {
            Ok(_) => Seq::<Seq<char>>::empty(),
            Err(m) => seq!["error parsing row: "@ + m],
        }),
    decreases lines.len(),
{
    if lines.len() == 0 {
        assert(lines.push(o)[0] == o);
        assert(lines.push(o).drop_first() =~= lines);
        assert(ok_values(lines.push(o)) =~= ok_values(lines) + (match o {
            Ok(v) => seq![v],
            Err(_) => Seq::<ValueModel>::empty(),
        }));
        assert(line_warnings(lines.push(o)) =~= line_warnings(lines) + (match o {
            Ok(_) => Seq::<Seq<char>>::empty(),
            Err(m) => seq!["error parsing row: "@ + m],
        }));
    } else {
        assert(lines.push(o)[0] == lines[0]);
        assert(lines.push(o).drop_first() =~= lines.drop_first().push(o));
        lemma_outcomes_push(lines.drop_first(), o);
        assert(ok_values(lines.push(o)) =~= ok_values(lines) + (match o {
            Ok(v) => seq![v],
            Err(_) => Seq::<ValueModel>::empty(),
        }));
        assert(line_warnings(lines.push(o)) =~= line_warnings(lines) + (match o {
            Ok(_) => Seq::<Seq<char>>::empty(),
            Err(m) => seq!["error parsing row: "@ + m],
        }));
    }
}

/// Reads line-delimited JSON input: one decode outcome per input line, in
/// input order.
pub struct StreamingJsonReader {
    lines: Vec<LineOutcome>,
}

impl View for StreamingJsonReader {
    type V = Seq<Result<ValueModel, Seq<char>>>;

    closed spec fn view(&self) -> Seq<Result<ValueModel, Seq<char>>> {
        outcome_models(self.lines@)
    }
}

impl StreamingJsonReader {
    /// A reader over the decode outcomes of the input lines.
    pub fn new(lines: Vec<LineOutcome>) -> (r: StreamingJsonReader)
        ensures
            r@ == outcome_models(lines@),
    {
        StreamingJsonReader { lines }
    }

    /// Gathers the first `take` lines (100 when no cap is given) into an
    /// array of the successfully decoded values, and one diagnostic per
    /// line among them that failed to decode. Lines beyond the cap are
    /// never touched: the cap counts lines, not decoded values.
    pub fn read_value(self, take: Option<usize>) -> (r: (JsonValue, Vec<String>))
        ensures
            ({
                let taken = self@.take(capped(take, self@.len(), default_stream_cap()) as int);
                val_model(r.0) == ValueModel::Array(ok_values(taken))
                    && r.1.deep_view() == line_warnings(taken)
            }),
    {
        broadcast use lemma_seq_models;

        let cap: usize = match take {
            Some(t) => t,
            None => 100,
        };
        let n: usize = if cap <= self.lines.len() {
            cap
        } else {
            self.lines.len()
        };
        let ghost taken = self@.take(n as int);
        let mut elements: Vec<JsonValue> = Vec::new();
        let mut warnings: Vec<String> = Vec::new();
        let mut i: usize = 0;
        let lines = self.lines;
        while i < n
            invariant
                n <= lines@.len(),
                taken == outcome_models(lines@).take(n as int),
                i <= n,
                seq_models(elements@) =~= ok_values(outcome_models(lines@).take(i as int)),
                warnings.deep_view() =~= line_warnings(outcome_models(lines@).take(i as int)),
            decreases n - i,
        {
            let ghost prefix = outcome_models(lines@).take(i as int);
            let ghost old_elems = seq_models(elements@);
            let ghost old_warns = warnings.deep_view();
            match &lines[i] {
                Ok(v) => {
                    proof {
                        assert(lines@[i as int] == Ok::<JsonValue, String>(*v));
                        assert(outcome_models(lines@)[i as int] == Ok::<ValueModel, Seq<char>>(
                            val_model(*v),
                        ));
                    }
                    let cv = v.clone();
                    let ghost cvm = val_model(cv);
                    elements.push(cv);
                    proof {
                        broadcast use lemma_seq_models;

                        assert(seq_models(elements@) =~= old_elems.push(cvm));
                    }
                },
                Err(m) => {
                    proof {
                        assert(lines@[i as int] == Err::<JsonValue, String>(*m));
                        assert(outcome_models(lines@)[i as int] == Err::<ValueModel, Seq<char>>(
                            m@,
                        ));
                    }
                    let mut w = String::from_str("error parsing row: ");
                    w.append(m.as_str());
                    let ghost wm = w@;
                    warnings.push(w);
                    proof {
                        assert(warnings.deep_view() =~= old_warns.push(wm));
                    }
                },
            }
            proof {
                broadcast use lemma_seq_models;

                lemma_outcomes_push(prefix, outcome_models(lines@)[i as int]);
                assert(prefix.push(outcome_models(lines@)[i as int]) =~= outcome_models(
                    lines@,
                ).take(i + 1 as int));
                assert(seq_models(elements@) =~= ok_values(
                    outcome_models(lines@).take(i + 1 as int),
                ));
                assert(warnings.deep_view() =~= line_warnings(
                    outcome_models(lines@).take(i + 1 as int),
                ));
            }
            i = i + 1;
        }
        let r = (JsonValue::Array(elements), warnings);
        proof {
            assert(val_model(r.0) == ValueModel::Array(ok_values(taken)));
            assert(r.1.deep_view() =~= line_warnings(taken));
        }
        r
    }
}

} // verus!
