//! The semi-structured value model shared by ingestion, projection and
//! formatting.

use vstd::prelude::*;

verus! {

broadcast use vstd::std_specs::vec::group_vec_axioms;

/// A semi-structured value: the universal currency between the value
/// sources, the table projector and the cell formatter.
///
/// A `Number` holds the exact decimal text of the number as it was read,
/// so that rendering preserves it verbatim. An `Object` holds its entries
/// in insertion order.
#[derive(Debug, PartialEq)]
pub enum JsonValue {
    Null,
    Bool(bool),
    Number(String),
    String(String),
    Array(Vec<JsonValue>),
    Object(Vec<(String, JsonValue)>),
}

/// The mathematical shape of a [`JsonValue`]: the same tree with every
/// string read as a sequence of characters. Contracts speak about values
/// through this model.
#[verifier::ext_equal]
pub enum ValueModel {
    Null,
    Bool(bool),
    Number(Seq<char>),
    String(Seq<char>),
    Array(Seq<ValueModel>),
    Object(Seq<(Seq<char>, ValueModel)>),
}

/// Model of one value.
pub open spec fn val_model(v: JsonValue) -> ValueModel
    decreases v,
{
    match v {
        JsonValue::Null => ValueModel::Null,
        JsonValue::Bool(b) => ValueModel::Bool(b),
        JsonValue::Number(s) => ValueModel::Number(s@),
        JsonValue::String(s) => ValueModel::String(s@),
        JsonValue::Array(items) => ValueModel::Array(seq_models(items@)),
        JsonValue::Object(entries) => ValueModel::Object(entry_models(entries@)),
    }
}

/// Models of a sequence of values, elementwise.
pub open spec fn seq_models(items: Seq<JsonValue>) -> Seq<ValueModel>
    decreases items,
{
    if items.len() == 0 {
        Seq::empty()
    } else {
        seq![val_model(items[0])] + seq_models(items.drop_first())
    }
}

/// Models of a sequence of object entries, elementwise.
pub open spec fn entry_models(entries: Seq<(String, JsonValue)>) -> Seq<
    (Seq<char>, ValueModel),
>
    decreases entries,
{
    if entries.len() == 0 {
        Seq::empty()
    } else {
        seq![(entries[0].0@, val_model(entries[0].1))] + entry_models(entries.drop_first())
    }
}

/// `seq_models` is the elementwise image of `val_model`.
pub broadcast proof fn lemma_seq_models(items: Seq<JsonValue>)
    ensures
        #![trigger seq_models(items)]
        seq_models(items).len() == items.len(),
        forall|i: int| 0 <= i < items.len() ==> seq_models(items)[i] == val_model(items[i]),
    decreases items.len(),
{
    if items.len() > 0 {
        lemma_seq_models(items.drop_first());
        assert forall|i: int| 0 <= i < items.len() implies seq_models(items)[i] == val_model(
            items[i],
        ) by {
            if i > 0 {
                assert(seq_models(items)[i] == seq_models(items.drop_first())[i - 1]);
                assert(items.drop_first()[i - 1] == items[i]);
            }
        }
    }
}

/// `entry_models` is the elementwise image of the entry model.
pub broadcast proof fn lemma_entry_models(entries: Seq<(String, JsonValue)>)
    ensures
        #![trigger entry_models(entries)]
        entry_models(entries).len() == entries.len(),
        forall|i: int|
            0 <= i < entries.len() ==> entry_models(entries)[i] == (
            entries[i].0@,
            val_model(entries[i].1),
            ),
    decreases entries.len(),
{
    if entries.len() > 0 {
        lemma_entry_models(entries.drop_first());
        assert forall|i: int| 0 <= i < entries.len() implies entry_models(entries)[i] == (
        entries[i].0@,
        val_model(entries[i].1),
        ) by {
            if i > 0 {
                assert(entry_models(entries)[i] == entry_models(entries.drop_first())[i - 1]);
                assert(entries.drop_first()[i - 1] == entries[i]);
            }
        }
    }
}


/// Structural size of a value: the measure that the executable recursive
/// walks over values decrease.
pub open spec fn val_size(v: JsonValue) -> nat
    decreases v,
{
    match v {
        JsonValue::Array(items) => 1 + seq_size(items@),
        JsonValue::Object(entries) => 1 + entry_size(entries@),
        _ => 1,
    }
}

/// Total size of a sequence of values.
pub open spec fn seq_size(items: Seq<JsonValue>) -> nat
    decreases items,
{
    if items.len() == 0 {
        0
    } else {
        val_size(items[0]) + seq_size(items.drop_first())
    }
}

/// Total size of a sequence of object entries.
pub open spec fn entry_size(entries: Seq<(String, JsonValue)>) -> nat
    decreases entries,
{
    if entries.len() == 0 {
        0
    } else {
        val_size(entries[0].1) + entry_size(entries.drop_first())
    }
}

/// Each element weighs no more than the whole sequence.
pub broadcast proof fn lemma_seq_size_index(items: Seq<JsonValue>, i: int)
    requires
        0 <= i < items.len(),
    ensures
        #[trigger] val_size(items[i]) <= seq_size(items),
    decreases items.len(),
{
    if i > 0 {
        lemma_seq_size_index(items.drop_first(), i - 1);
        assert(items.drop_first()[i - 1] == items[i]);
    }
}

/// Each entry's value weighs no more than the whole entry sequence.
pub broadcast proof fn lemma_entry_size_index(entries: Seq<(String, JsonValue)>, i: int)
    requires
        0 <= i < entries.len(),
    ensures
        #[trigger] val_size(entries[i].1) <= entry_size(entries),
    decreases entries.len(),
{
    if i > 0 {
        lemma_entry_size_index(entries.drop_first(), i - 1);
        assert(entries.drop_first()[i - 1] == entries[i]);
    }
}

impl View for JsonValue {
    type V = ValueModel;

    open spec fn view(&self) -> ValueModel {
        val_model(*self)
    }
}

impl DeepView for JsonValue {
    type V = ValueModel;

    open spec fn deep_view(&self) -> ValueModel {
        val_model(*self)
    }
}

/// First value bound to `key` in a model entry sequence, if any.
pub open spec fn model_entries_get(
    entries: Seq<(Seq<char>, ValueModel)>,
    key: Seq<char>,
) -> Option<ValueModel>
    decreases entries.len(),
{
    if entries.len() == 0 {
        None
    } else if entries[0].0 == key {
        Some(entries[0].1)
    } else {
        model_entries_get(entries.drop_first(), key)
    }
}

impl ValueModel {
    /// Field lookup as the projector uses it: `None` unless `self` is an
    /// object with an entry named `key`.
    pub open spec fn get_field(self, key: Seq<char>) -> Option<ValueModel> {
        match self {
            ValueModel::Object(entries) => model_entries_get(entries, key),
            _ => None,
        }
    }
}

impl JsonValue {
    /// Looks `key` up among the entries of an object value; `None` for any
    /// other kind of value and for an absent key.
    pub fn get(&self, key: &String) -> (r: Option<&JsonValue>)
        ensures
            match r {
                Some(found) => val_model(*self).get_field(key@) == Some(val_model(*found)),
                None => val_model(*self).get_field(key@) is None,
            },
    {
        match self {
            JsonValue::Object(entries) => {
                proof {
                    lemma_entry_models(entries@);
                }
                let mut i: usize = 0;
                while i < entries.len()
                    invariant
                        *self == JsonValue::Object(*entries),
                        i <= entries@.len(),
                        forall|j: int| 0 <= j < i ==> entries@[j].0@ != key@,
                        entry_models(entries@).len() == entries@.len(),
                        forall|j: int|
                            0 <= j < entries@.len() ==> entry_models(entries@)[j] == (
                            entries@[j].0@,
                            val_model(entries@[j].1),
                            ),
                    decreases entries@.len() - i,
                {
                    if entries[i].0.eq(&*key) {
                        proof {
                            lemma_model_entries_get_found(entry_models(entries@), key@, i as int);
                        }
                        return Some(&entries[i].1);
                    }
                    i = i + 1;
                }
                proof {
                    lemma_model_entries_get_missing(entry_models(entries@), key@);
                }
                None
            },
            _ => None,
        }
    }
}

/// If the first entry named `key` stands at position `i`, the lookup finds
/// its value.
proof fn lemma_model_entries_get_found(
    entries: Seq<(Seq<char>, ValueModel)>,
    key: Seq<char>,
    i: int,
)
    requires
        0 <= i < entries.len(),
        entries[i].0 == key,
        forall|j: int| 0 <= j < i ==> entries[j].0 != key,
    ensures
        model_entries_get(entries, key) == Some(entries[i].1),
    decreases i,
{
    if i > 0 {
        lemma_model_entries_get_found(entries.drop_first(), key, i - 1);
    }
}

/// If no entry is named `key`, the lookup finds nothing.
proof fn lemma_model_entries_get_missing(entries: Seq<(Seq<char>, ValueModel)>, key: Seq<char>)
    requires
        forall|j: int| 0 <= j < entries.len() ==> entries[j].0 != key,
    ensures
        model_entries_get(entries, key) is None,
    decreases entries.len(),
{
    if entries.len() > 0 {
        lemma_model_entries_get_missing(entries.drop_first(), key);
    }
}

impl Clone for JsonValue {
    /// A clone has the same model as the original.
    fn clone(&self) -> (r: Self)
        ensures
            val_model(r) == val_model(*self),
        decreases val_size(*self),
    {
        broadcast use {lemma_seq_models, lemma_entry_models, lemma_seq_size_index,
            lemma_entry_size_index};

        match self {
            JsonValue::Null => JsonValue::Null,
            JsonValue::Bool(b) => JsonValue::Bool(*b),
            JsonValue::Number(s) => JsonValue::Number(s.clone()),
            JsonValue::String(s) => JsonValue::String(s.clone()),
            JsonValue::Array(items) => {
                let mut out: Vec<JsonValue> = Vec::new();
                let mut i: usize = 0;
                while i < items.len()
                    invariant
                        *self == JsonValue::Array(*items),
                        i <= items@.len(),
                        out@.len() == i as int,
                        forall|j: int|
                            0 <= j < i ==> val_model(out@[j]) == val_model(items@[j]),
                    decreases items@.len() - i,
                {
                    proof {
                        lemma_seq_size_index(items@, i as int);
                        assert(val_size(items@[i as int]) < val_size(*self));
                    }
                    let cloned_item = items[i].clone();
                    out.push(cloned_item);
                    i = i + 1;
                }
                let result = JsonValue::Array(out);
                proof {
                    assert(seq_models(out@) =~= seq_models(items@));
                }
                result
            },
            JsonValue::Object(entries) => {
                let mut out: Vec<(String, JsonValue)> = Vec::new();
                let mut i: usize = 0;
                while i < entries.len()
                    invariant
                        *self == JsonValue::Object(*entries),
                        i <= entries@.len(),
                        out@.len() == i as int,
                        forall|j: int|
                            0 <= j < i ==> out@[j].0@ == entries@[j].0@ && val_model(out@[j].1)
                                == val_model(entries@[j].1),
                    decreases entries@.len() - i,
                {
                    proof {
                        lemma_entry_size_index(entries@, i as int);
                        assert(val_size(entries@[i as int].1) < val_size(*self));
                    }
                    let key_clone = entries[i].0.clone();
                    let val_clone = entries[i].1.clone();
                    out.push((key_clone, val_clone));
                    i = i + 1;
                }
                let result = JsonValue::Object(out);
                proof {
                    assert(entry_models(out@) =~= entry_models(entries@));
                }
                result
            },
        }
    }
}

} // verus!
