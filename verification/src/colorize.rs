//! Colorize rules: parsing of `column:triggerValue:styleTag` rule strings,
//! the per-column rule index, and the first-match style lookup.

use vstd::prelude::*;

use crate::table::{header_model, HeaderModel, TableHeader};

verus! {

broadcast use vstd::std_specs::vec::group_vec_axioms;

/// A colorize rule: cells of column `field` whose formatted text equals
/// `value` are given the style tag `style`.
#[derive(Debug)]
pub struct ColorizeSpec {
    field: String,
    value: String,
    style: String,
}

/// The mathematical shape of a [`ColorizeSpec`].
#[verifier::ext_equal]
pub struct RuleModel {
    pub field: Seq<char>,
    pub value: Seq<char>,
    pub style: Seq<char>,
}

impl View for ColorizeSpec {
    type V = RuleModel;

    closed spec fn view(&self) -> RuleModel {
        RuleModel { field: self.field@, value: self.value@, style: self.style@ }
    }
}

/// A character a style tag may consist of: an ASCII letter.
pub open spec fn is_style_char(c: char) -> bool {
    ('a' <= c && c <= 'z') || ('A' <= c && c <= 'Z')
}

/// `i` and `j` cut `s` into a well-formed rule: `i` is the first colon and
/// leaves a non-empty column name before it, `j` leaves a non-empty
/// trigger value between the two, and after `j` stands a non-empty style
/// tag of letters only (which makes `j` the last colon of `s`).
pub open spec fn rule_split_at(s: Seq<char>, i: int, j: int) -> bool {
    &&& 1 <= i
    &&& i + 2 <= j
    &&& j + 1 < s.len()
    &&& s[i] == ':'
    &&& s[j] == ':'
    &&& forall|k: int| 0 <= k < i ==> s[k] != ':'
    &&& forall|k: int| j < k < s.len() ==> is_style_char(#[trigger] s[k])
}

/// Whether `s` is a well-formed rule string.
pub open spec fn rule_parses(s: Seq<char>) -> bool {
    exists|i: int, j: int| rule_split_at(s, i, j)
}

impl ColorizeSpec {
    /// The column name the rule applies to.
    pub fn field(&self) -> (r: &String)
        ensures
            r@ == self@.field,
    {
        &self.field
    }

    /// The formatted cell text that triggers the rule.
    pub fn value(&self) -> (r: &String)
        ensures
            r@ == self@.value,
    {
        &self.value
    }

    /// The style tag the rule applies.
    pub fn style(&self) -> (r: &String)
        ensures
            r@ == self@.style,
    {
        &self.style
    }

    /// Parses a rule string of the shape `column:triggerValue:styleTag`:
    /// the column name must not be empty and holds no colon, the trigger
    /// value is non-empty and may hold colons, and the style tag is one or
    /// more letters. Any other string is rejected.
    pub fn parse(s: &String) -> (r: Result<ColorizeSpec, String>)
        ensures
            match r {
                Ok(rule) => exists|i: int, j: int|
                    #[trigger] rule_split_at(s@, i, j) && rule@.field == s@.subrange(0, i)
                        && rule@.value == s@.subrange(i + 1, j) && rule@.style == s@.subrange(
                        j + 1,
                        s@.len() as int,
                    ),
                Err(m) => !rule_parses(s@) && m@ == colorize_error_text(),
            },
    {
        let st: &str = s.as_str();
        let n: usize = st.unicode_len();
        // Find the first and the last colon; `n` stands for "none yet".
        let mut first: usize = n;
        let mut last: usize = n;
        let mut k: usize = 0;
        while k < n
            invariant
                st@ == s@,
                n == s@.len(),
                k <= n,
                first == n || (first < k && s@[first as int] == ':'),
                forall|t: int| 0 <= t < k && t < first ==> s@[t] != ':',
                first == n ==> forall|t: int| 0 <= t < k ==> s@[t] != ':',
                last == n || (last < k && s@[last as int] == ':'),
                last != n ==> forall|t: int| last < t < k ==> s@[t] != ':',
                last == n ==> forall|t: int| 0 <= t < k ==> s@[t] != ':',
                (first == n) == (last == n),
            decreases n - k,
        {
            if st.get_char(k) == ':' {
                if first == n {
                    first = k;
                }
                last = k;
            }
            k = k + 1;
        }
        if first == n || first == 0 || last < 2 || last - 2 < first || last + 1 >= n {
            proof {
                assert forall|i: int, j: int| !rule_split_at(s@, i, j) by {
                    if rule_split_at(s@, i, j) {
                        assert(s@[i] == ':');
                        assert(s@[j] == ':');
                        assert(first != n);
                        assert(i == first);
                        assert(j <= last);
                        if j < last {
                            assert(is_style_char(s@[last as int]));
                            assert(false);
                        }
                        assert(j == last);
                        assert(false);
                    }
                }
            }
            return Err(colorize_error());
        }
        // Check that everything after the last colon is a letter.
        let mut t: usize = last + 1;
        while t < n
            invariant
                st@ == s@,
                n == s@.len(),
                last + 1 <= t <= n,
                last < n,
                s@[last as int] == ':',
                forall|u: int| last < u < n ==> s@[u] != ':',
                forall|u: int| last < u < t ==> is_style_char(#[trigger] s@[u]),
            decreases n - t,
        {
            let c = st.get_char(t);
            let ok = ('a' <= c && c <= 'z') || ('A' <= c && c <= 'Z');
            if !ok {
                proof {
                    assert forall|i: int, j: int| !rule_split_at(s@, i, j) by {
                        if rule_split_at(s@, i, j) {
                            // The style tag holds only letters, so `j` can
                            // only be the last colon, whose suffix holds a
                            // non-letter: contradiction.
                            assert(s@[j] == ':');
                            assert(j <= last);
                            if j < last {
                                assert(is_style_char(s@[last as int]));
                                assert(false);
                            }
                            assert(j == last);
                            assert(is_style_char(s@[t as int]));
                        }
                    }
                }
                return Err(colorize_error());
            }
            t = t + 1;
        }
        let field = st.substring_char(0, first).to_owned();
        let value = st.substring_char(first + 1, last).to_owned();
        let style = st.substring_char(last + 1, n).to_owned();
        let rule = ColorizeSpec { field, value, style };
        proof {
            assert(rule_split_at(s@, first as int, last as int));
        }
        Ok(rule)
    }
}

/// The message every rejected rule string is reported with.
pub open spec fn colorize_error_text() -> Seq<char> {
    "wrong colorize expression. Should be in the form of : 'field:value:spec'"@
}

/// Builds the rejection message.
fn colorize_error() -> (m: String)
    ensures
        m@ == colorize_error_text(),
{
    String::from_str("wrong colorize expression. Should be in the form of : 'field:value:spec'")
}

impl Clone for ColorizeSpec {
    /// A clone has the same model as the original.
    fn clone(&self) -> (r: Self)
        ensures
            r@ == self@,
    {
        ColorizeSpec {
            field: self.field.clone(),
            value: self.value.clone(),
            style: self.style.clone(),
        }
    }
}

/// Models of a sequence of rules, elementwise.
pub open spec fn rule_models(rules: Seq<ColorizeSpec>) -> Seq<RuleModel> {
    Seq::new(rules.len(), |i: int| rules[i]@)
}

/// The rules that apply to a column named `name`, in rule order.
pub open spec fn bucket_spec(rules: Seq<RuleModel>, name: Seq<char>) -> Seq<RuleModel>
    decreases rules.len(),
{
    if rules.len() == 0 {
        Seq::empty()
    } else {
        (if rules[0].field == name {
            seq![rules[0]]
        } else {
            Seq::empty()
        }) + bucket_spec(rules.drop_first(), name)
    }
}

/// Whether column `c` is the first column of that name.
pub open spec fn first_occurrence(names: Seq<Seq<char>>, c: int) -> bool {
    forall|k: int| 0 <= k < c ==> names[k] != names[c]
}

/// The per-column rule index: under named columns, each rule is bucketed
/// under the first column bearing its name, and rules naming no column are
/// dropped; under the single unnamed column no rule applies.
pub open spec fn index_spec(rules: Seq<RuleModel>, h: HeaderModel) -> Seq<Seq<RuleModel>> {
    match h {
        HeaderModel::Named(names) => Seq::new(
            names.len(),
            |c: int|
                if first_occurrence(names, c) {
                    bucket_spec(rules, names[c])
                } else {
                    Seq::empty()
                },
        ),
        HeaderModel::Single => Seq::empty(),
    }
}

/// The style of the first rule in a bucket whose trigger value equals the
/// cell text, if any.
pub open spec fn lookup_spec(bucket: Seq<RuleModel>, text: Seq<char>) -> Option<Seq<char>>
    decreases bucket.len(),
{
    if bucket.len() == 0 {
        None
    } else if bucket[0].value == text {
        Some(bucket[0].style)
    } else {
        lookup_spec(bucket.drop_first(), text)
    }
}

/// The style for a cell of column `col` whose formatted text is `text`.
pub open spec fn index_lookup(idx: Seq<Seq<RuleModel>>, col: int, text: Seq<char>) -> Option<
    Seq<char>,
> {
    if 0 <= col < idx.len() {
        lookup_spec(idx[col], text)
    } else {
        None
    }
}

/// Appending a rule appends it to the buckets of its own column.
proof fn lemma_bucket_push(rules: Seq<RuleModel>, r: RuleModel, name: Seq<char>)
    ensures
        bucket_spec(rules.push(r), name) == bucket_spec(rules, name) + (if r.field == name {
            seq![r]
        } else {
            Seq::<RuleModel>::empty()
        }),
    decreases rules.len(),
{
    if rules.len() == 0 {
        assert(rules.push(r)[0] == r);
        assert(rules.push(r).drop_first() =~= rules);
        assert(bucket_spec(rules.push(r), name) =~= bucket_spec(rules, name) + (if r.field == name {
            seq![r]
        } else {
            Seq::<RuleModel>::empty()
        }));
    } else {
        assert(rules.push(r)[0] == rules[0]);
        assert(rules.push(r).drop_first() =~= rules.drop_first().push(r));
        lemma_bucket_push(rules.drop_first(), r, name);
        assert(bucket_spec(rules.push(r), name) =~= bucket_spec(rules, name) + (if r.field == name {
            seq![r]
        } else {
            Seq::<RuleModel>::empty()
        }));
    }
}

/// The per-column rule index of one table.
pub struct ColorizeIndex {
    buckets: Vec<Vec<ColorizeSpec>>,
}

impl View for ColorizeIndex {
    type V = Seq<Seq<RuleModel>>;

    closed spec fn view(&self) -> Seq<Seq<RuleModel>> {
        Seq::new(self.buckets@.len(), |c: int| rule_models(self.buckets@[c]@))
    }
}

/// The rules of `rules` that name `name`, in order.
fn bucket_for(rules: &Vec<ColorizeSpec>, name: &String) -> (bucket: Vec<ColorizeSpec>)
    ensures
        rule_models(bucket@) == bucket_spec(rule_models(rules@), name@),
{
    let mut bucket: Vec<ColorizeSpec> = Vec::new();
    let mut i: usize = 0;
    while i < rules.len()
        invariant
            i <= rules@.len(),
            rule_models(bucket@) =~= bucket_spec(rule_models(rules@).take(i as int), name@),
        decreases rules@.len() - i,
    {
        let ghost prev = rule_models(bucket@);
        if rules[i].field().eq(name) {
            bucket.push(rules[i].clone());
        }
        proof {
            lemma_bucket_push(
                rule_models(rules@).take(i as int),
                rule_models(rules@)[i as int],
                name@,
            );
            assert(rule_models(rules@).take(i as int).push(rule_models(rules@)[i as int])
                =~= rule_models(rules@).take(i + 1 as int));
            assert(rule_models(bucket@) =~= bucket_spec(
                rule_models(rules@).take(i + 1 as int),
                name@,
            ));
        }
        i = i + 1;
    }
    proof {
        assert(rule_models(rules@).take(rules@.len() as int) =~= rule_models(rules@));
    }
    bucket
}

impl ColorizeIndex {
    /// Builds the index: each rule is resolved once to the first column
    /// bearing its name; rules naming unknown columns are dropped
    /// silently, and under the single unnamed column every rule is inert.
    pub fn build(rules: &Vec<ColorizeSpec>, headers: &TableHeader) -> (idx: ColorizeIndex)
        ensures
            idx@ == index_spec(rule_models(rules@), header_model(*headers)),
    {
        match headers {
            TableHeader::NamedFields { fields } => {
                let mut buckets: Vec<Vec<ColorizeSpec>> = Vec::new();
                let mut c: usize = 0;
                while c < fields.len()
                    invariant
                        *headers == (TableHeader::NamedFields { fields: *fields }),
                        c <= fields@.len(),
                        buckets@.len() == c as int,
                        forall|d: int|
                            0 <= d < c ==> rule_models(#[trigger] buckets@[d]@) == (
                            if first_occurrence(fields.deep_view(), d) {
                                bucket_spec(rule_models(rules@), fields.deep_view()[d])
                            } else {
                                Seq::<RuleModel>::empty()
                            }),
                    decreases fields@.len() - c,
                {
                    // Is column c the first occurrence of its name?
                    let mut is_first: bool = true;
                    let mut k: usize = 0;
                    while k < c
                        invariant
                            c < fields@.len(),
                            k <= c,
                            is_first == (forall|t: int|
                                0 <= t < k ==> fields.deep_view()[t] != fields.deep_view()[c as int]),
                        decreases c - k,
                    {
                        proof {
                            assert(fields.deep_view()[k as int] == fields@[k as int]@);
                            assert(fields.deep_view()[c as int] == fields@[c as int]@);
                        }
                        if fields[k].eq(&fields[c]) {
                            is_first = false;
                        }
                        k = k + 1;
                    }
                    if is_first {
                        let bucket = bucket_for(rules, &fields[c]);
                        buckets.push(bucket);
                    } else {
                        buckets.push(Vec::new());
                    }
                    proof {
                        assert(rule_models(Seq::<ColorizeSpec>::empty()) =~= Seq::<
                            RuleModel,
                        >::empty());
                    }
                    c = c + 1;
                }
                let idx = ColorizeIndex { buckets };
                proof {
                    assert(idx@ =~= index_spec(rule_models(rules@), header_model(*headers)));
                }
                idx
            },
            TableHeader::SingleUnnamedColumn => {
                let idx = ColorizeIndex { buckets: Vec::new() };
                proof {
                    assert(idx@ =~= index_spec(rule_models(rules@), header_model(*headers)));
                }
                idx
            },
        }
    }

    /// The style for a cell in column `col` whose formatted text is
    /// `text`: the first rule of that column whose trigger value equals
    /// the text, if any.
    pub fn style_for(&self, col: usize, text: &String) -> (r: Option<&String>)
        ensures
            match r {
                Some(style) => index_lookup(self@, col as int, text@) == Some(style@),
                None => index_lookup(self@, col as int, text@) is None,
            },
    {
        if col >= self.buckets.len() {
            return None;
        }
        let bucket = &self.buckets[col];
        proof {
            assert(rule_models(bucket@).skip(0) =~= rule_models(bucket@));
        }
        let mut i: usize = 0;
        while i < bucket.len()
            invariant
                col < self.buckets@.len(),
                bucket == &self.buckets@[col as int],
                i <= bucket@.len(),
                lookup_spec(rule_models(bucket@), text@) == lookup_spec(
                    rule_models(bucket@).skip(i as int),
                    text@,
                ),
            decreases bucket@.len() - i,
        {
            if bucket[i].value().eq(text) {
                proof {
                    assert(rule_models(bucket@).skip(i as int)[0] == bucket@[i as int]@);
                }
                return Some(bucket[i].style());
            }
            proof {
                assert(rule_models(bucket@).skip(i as int)[0] == bucket@[i as int]@);
                assert(rule_models(bucket@).skip(i as int).drop_first() =~= rule_models(
                    bucket@,
                ).skip(i + 1 as int));
            }
            i = i + 1;
        }
        proof {
            assert(rule_models(bucket@).skip(bucket@.len() as int) =~= Seq::<RuleModel>::empty());
        }
        None
    }
}

/// The rules of `rules` whose column stands among `names`, in order.
pub open spec fn present_rules(rules: Seq<RuleModel>, names: Seq<Seq<char>>) -> Seq<RuleModel>
    decreases rules.len(),
{
    if rules.len() == 0 {
        Seq::empty()
    } else {
        (if names.contains(rules[0].field) {
            seq![rules[0]]
        } else {
            Seq::empty()
        }) + present_rules(rules.drop_first(), names)
    }
}

/// Colorize inertness: a rule naming a column absent from the header set
/// never contributes to the index, so it never applies a style — dropping
/// all such rules leaves the whole index, and with it every lookup,
/// unchanged.
pub proof fn lemma_absent_rules_inert(rules: Seq<RuleModel>, h: HeaderModel)
    ensures
        match h {
            HeaderModel::Named(names) => index_spec(rules, h) == index_spec(
                present_rules(rules, names),
                h,
            ),
            HeaderModel::Single => index_spec(rules, h) == Seq::<Seq<RuleModel>>::empty(),
        },
{
    match h {
        HeaderModel::Named(names) => {
            assert forall|c: int| 0 <= c < names.len() implies bucket_spec(rules, names[c])
                == bucket_spec(present_rules(rules, names), names[c]) by {
                lemma_present_bucket(rules, names, names[c]);
            }
            assert(index_spec(rules, h) =~= index_spec(present_rules(rules, names), h));
        },
        HeaderModel::Single => {
        },
    }
}

/// Dropping the rules of absent columns keeps every present column's
/// bucket.
proof fn lemma_present_bucket(rules: Seq<RuleModel>, names: Seq<Seq<char>>, name: Seq<char>)
    requires
        names.contains(name),
    ensures
        bucket_spec(present_rules(rules, names), name) == bucket_spec(rules, name),
    decreases rules.len(),
{
    if rules.len() == 0 {
        assert(present_rules(rules, names) =~= Seq::<RuleModel>::empty());
    } else {
        lemma_present_bucket(rules.drop_first(), names, name);
        if names.contains(rules[0].field) {
            assert(present_rules(rules, names)[0] == rules[0]);
            assert(present_rules(rules, names).drop_first() =~= present_rules(
                rules.drop_first(),
                names,
            ));
            assert(bucket_spec(present_rules(rules, names), name) =~= bucket_spec(rules, name));
        } else {
            assert(rules[0].field != name);
            assert(present_rules(rules, names) =~= present_rules(rules.drop_first(), names));
            assert(bucket_spec(present_rules(rules, names), name) =~= bucket_spec(rules, name));
        }
    }
}

} // verus!
