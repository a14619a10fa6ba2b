//! The configuration surface: input-format names, `KEY=value` option
//! pairs, and the CSV reader options built from them.

use vstd::prelude::*;

use vstd::string::StringSliceAdditionalSpecFns;

use crate::csv::CsvReaderOptions;

verus! {

broadcast use vstd::std_specs::vec::group_vec_axioms;

/// The closed choice of input formats.
#[derive(Debug, Clone, Copy, PartialEq, Eq)]
pub enum InputFormat {
    Json,
    JsonLines,
    Csv,
}

/// The input format a name on the configuration surface selects.
pub open spec fn input_format_of_name(s: Seq<char>) -> Option<InputFormat> {
    if s == "json"@ {
        Some(InputFormat::Json)
    } else if s == "jsonl"@ {
        Some(InputFormat::JsonLines)
    } else if s == "csv"@ {
        Some(InputFormat::Csv)
    } else {
        None
    }
}

impl InputFormat {
    /// Resolves an input-format name: `json`, `jsonl` or `csv`; any other
    /// name is rejected.
    pub fn from_str(s: &str) -> (r: Result<InputFormat, String>)
        ensures
            match r {
                Ok(f) => input_format_of_name(s@) == Some(f),
                Err(m) => input_format_of_name(s@) is None && m@ == "Unknown input format: "@
                    + s@,
            },
    {
        let owned = s.to_owned();
        if owned.eq(&String::from_str("json")) {
            Ok(InputFormat::Json)
        } else if owned.eq(&String::from_str("jsonl")) {
            Ok(InputFormat::JsonLines)
        } else if owned.eq(&String::from_str("csv")) {
            Ok(InputFormat::Csv)
        } else {
            let mut m = String::from_str("Unknown input format: ");
            m.append(s);
            Err(m)
        }
    }
}

/// `i` cuts `s` into a key and a value: the first `=` of `s`.
pub open spec fn key_val_split_at(s: Seq<char>, i: int) -> bool {
    &&& 0 <= i < s.len()
    &&& s[i] == '='
    &&& forall|k: int| 0 <= k < i ==> s[k] != '='
}

/// Parses one `KEY=value` pair: the text before the first `=` and the
/// text after it. A string without `=` is rejected.
pub fn parse_key_val(s: &str) -> (r: Result<(String, String), String>)
    ensures
        match r {
            Ok(kv) => exists|i: int|
                #[trigger] key_val_split_at(s@, i) && kv.0@ == s@.take(i) && kv.1@ == s@.skip(
                    i + 1,
                ),
            Err(m) => (forall|i: int| !key_val_split_at(s@, i)) && m@ ==
                "invalid KEY=value: no `=` found in `"@ + s@ + "`"@,
        },
{
    let n: usize = s.unicode_len();
    let mut i: usize = 0;
    while i < n
        invariant
            n == s@.len(),
            i <= n,
            forall|t: int| 0 <= t < i ==> s@[t] != '=',
        decreases n - i,
    {
        if s.get_char(i) == '=' {
            let key = s.substring_char(0, i).to_owned();
            let val = s.substring_char(i + 1, n).to_owned();
            proof {
                assert(key_val_split_at(s@, i as int));
            }
            return Ok((key, val));
        }
        i = i + 1;
    }
    let mut m = String::from_str("invalid KEY=value: no `=` found in `");
    m.append(s);
    m.append("`");
    proof {
        assert forall|t: int| !key_val_split_at(s@, t) by {
            if key_val_split_at(s@, t) {
                assert(s@[t] == '=');
            }
        }
    }
    Err(m)
}

/// A rejected CSV reader option.
#[derive(Debug)]
pub enum ConfigError {
    InvalidHasHeader(String),
    EmptyDelimiter,
    LongDelimiter(String),
    UnknownCsvOption(String),
}

/// The mathematical shape of a [`ConfigError`].
#[verifier::ext_equal]
pub enum ConfigErrorModel {
    InvalidHasHeader(Seq<char>),
    EmptyDelimiter,
    LongDelimiter(Seq<char>),
    UnknownCsvOption(Seq<char>),
}

impl View for ConfigError {
    type V = ConfigErrorModel;

    open spec fn view(&self) -> ConfigErrorModel {
        match self {
            ConfigError::InvalidHasHeader(v) => ConfigErrorModel::InvalidHasHeader(v@),
            ConfigError::EmptyDelimiter => ConfigErrorModel::EmptyDelimiter,
            ConfigError::LongDelimiter(v) => ConfigErrorModel::LongDelimiter(v@),
            ConfigError::UnknownCsvOption(k) => ConfigErrorModel::UnknownCsvOption(k@),
        }
    }
}

/// The message each rejected option is reported with.
pub open spec fn config_error_text(e: ConfigErrorModel) -> Seq<char> {
    match e {
        ConfigErrorModel::InvalidHasHeader(v) => "invalid has_header value: "@ + v,
        ConfigErrorModel::EmptyDelimiter => "delimiter must not be empty string"@,
        ConfigErrorModel::LongDelimiter(v) => "delimiter must be exactly 1 byte. Found: "@ + v,
        ConfigErrorModel::UnknownCsvOption(k) => "unknown options for csv reader: "@ + k,
    }
}

impl ConfigError {
    /// The message this error is reported with.
    pub fn message(&self) -> (m: String)
        ensures
            m@ == config_error_text(self@),
    {
        match self {
            ConfigError::InvalidHasHeader(v) => {
                let mut m = String::from_str("invalid has_header value: ");
                m.append(v.as_str());
                m
            },
            ConfigError::EmptyDelimiter => String::from_str("delimiter must not be empty string"),
            ConfigError::LongDelimiter(v) => {
                let mut m = String::from_str("delimiter must be exactly 1 byte. Found: ");
                m.append(v.as_str());
                m
            },
            ConfigError::UnknownCsvOption(k) => {
                let mut m = String::from_str("unknown options for csv reader: ");
                m.append(k.as_str());
                m
            },
        }
    }
}

/// The value the last pair with the given key carries, if any: a later
/// occurrence of a key overrides an earlier one.
pub open spec fn last_value(pairs: Seq<(Seq<char>, Seq<char>)>, key: Seq<char>) -> Option<
    Seq<char>,
>
    decreases pairs.len(),
{
    if pairs.len() == 0 {
        None
    } else if pairs.last().0 == key {
        Some(pairs.last().1)
    } else {
        last_value(pairs.drop_last(), key)
    }
}

/// The key of the first pair that no CSV reader option answers to, if
/// any.
pub open spec fn first_unknown(pairs: Seq<(Seq<char>, Seq<char>)>) -> Option<Seq<char>>
    decreases pairs.len(),
{
    if pairs.len() == 0 {
        None
    } else if pairs[0].0 != "has_header"@ && pairs[0].0 != "delimiter"@ {
        Some(pairs[0].0)
    } else {
        first_unknown(pairs.drop_first())
    }
}

/// The options a pair list resolves to: `has_header` must read `true` or
/// `false` (`true` when absent), the delimiter must be exactly one byte
/// of text (a comma when absent), and any other key is rejected.
pub open spec fn csv_options_spec(pairs: Seq<(Seq<char>, Seq<char>)>) -> Result<
    CsvReaderOptions,
    ConfigErrorModel,
> {
    let hh = last_value(pairs, "has_header"@);
    let dl = last_value(pairs, "delimiter"@);
    match hh {
        Some(v) if v != "true"@ && v != "false"@ => Err(ConfigErrorModel::InvalidHasHeader(v)),
        _ => {
            let has_header = match hh {
                Some(v) => v == "true"@,
                None => true,
            };
            match dl {
                Some(v) if vstd::utf8::encode_utf8(v).len() == 0 => Err(
                    ConfigErrorModel::EmptyDelimiter,
                ),
                Some(v) if vstd::utf8::encode_utf8(v).len() > 1 => Err(
                    ConfigErrorModel::LongDelimiter(v),
                ),
                _ => {
                    let delimiter = match dl {
                        Some(v) => vstd::utf8::encode_utf8(v)[0],
                        None => ',' as u8,
                    };
                    match first_unknown(pairs) {
                        Some(k) => Err(ConfigErrorModel::UnknownCsvOption(k)),
                        None => Ok(CsvReaderOptions { delimiter, has_header }),
                    }
                },
            }
        },
    }
}

/// Models of a pair list.
pub open spec fn pair_models(pairs: Seq<(String, String)>) -> Seq<(Seq<char>, Seq<char>)> {
    Seq::new(pairs.len(), |i: int| (pairs[i].0@, pairs[i].1@))
}

/// The last pair with the given key, found by a forward scan.
fn find_last(pairs: &Vec<(String, String)>, key: &str) -> (r: Option<String>)
    ensures
        match r {
            Some(v) => last_value(pair_models(pairs@), key@) == Some(v@),
            None => last_value(pair_models(pairs@), key@) is None,
        },
{
    let key_owned = key.to_owned();
    let mut found: Option<String> = None;
    let mut i: usize = 0;
    while i < pairs.len()
        invariant
            i <= pairs@.len(),
            key_owned@ == key@,
            match found {
                Some(v) => last_value(pair_models(pairs@).take(i as int), key@) == Some(v@),
                None => last_value(pair_models(pairs@).take(i as int), key@) is None,
            },
        decreases pairs@.len() - i,
    {
        let ghost prefix = pair_models(pairs@).take(i as int);
        if pairs[i].0.eq(&key_owned) {
            found = Some(pairs[i].1.clone());
        }
        proof {
            let next = pair_models(pairs@).take(i + 1 as int);
            assert(next.last() == pair_models(pairs@)[i as int]);
            assert(next.drop_last() =~= prefix);
        }
        i = i + 1;
    }
    proof {
        assert(pair_models(pairs@).take(pairs@.len() as int) =~= pair_models(pairs@));
    }
    found
}

impl CsvReaderOptions {
    /// Resolves reader options from `KEY=value` pairs, as
    /// [`csv_options_spec`] describes. A later pair overrides an earlier
    /// one with the same key.
    pub fn from_pairs(pairs: &Vec<(String, String)>) -> (r: Result<
        CsvReaderOptions,
        ConfigError,
    >)
        ensures
            match r {
                Ok(o) => csv_options_spec(pair_models(pairs@)) == Ok::<
                    CsvReaderOptions,
                    ConfigErrorModel,
                >(o),
                Err(e) => csv_options_spec(pair_models(pairs@)) == Err::<
                    CsvReaderOptions,
                    ConfigErrorModel,
                >(e@),
            },
    {
        let hh = find_last(pairs, "has_header");
        let has_header: bool = match hh {
            Some(v) => {
                if v.eq(&String::from_str("true")) {
                    true
                } else if v.eq(&String::from_str("false")) {
                    false
                } else {
                    return Err(ConfigError::InvalidHasHeader(v));
                }
            },
            None => true,
        };
        proof {
            assert(match last_value(pair_models(pairs@), "has_header"@) {
                Some(v) => (v == "true"@ || v == "false"@) && has_header == (v == "true"@),
                None => has_header == true,
            });
        }
        let dl = find_last(pairs, "delimiter");
        let delimiter: u8 = match dl {
            Some(v) => {
                let vs: &str = v.as_str();
                let bytes: &[u8] = vs.as_bytes();
                proof {
                    assert(bytes@ == vstd::utf8::encode_utf8(v@));
                }
                if bytes.len() == 0 {
                    return Err(ConfigError::EmptyDelimiter);
                }
                if bytes.len() > 1 {
                    return Err(ConfigError::LongDelimiter(v));
                }
                bytes[0]
            },
            None => ',' as u8,
        };
        proof {
            assert(match last_value(pair_models(pairs@), "delimiter"@) {
                Some(v) => vstd::utf8::encode_utf8(v).len() == 1 && delimiter
                    == vstd::utf8::encode_utf8(v)[0],
                None => delimiter == (',' as u8),
            });
            assert(pair_models(pairs@).skip(0) =~= pair_models(pairs@));
        }
        // Any key besides the two above is rejected.
        let mut i: usize = 0;
        while i < pairs.len()
            invariant
                i <= pairs@.len(),
                first_unknown(pair_models(pairs@)) == first_unknown(
                    pair_models(pairs@).skip(i as int),
                ),
                csv_options_spec(pair_models(pairs@)) == (match first_unknown(
                    pair_models(pairs@),
                ) {
                    Some(k) => Err::<CsvReaderOptions, ConfigErrorModel>(
                        ConfigErrorModel::UnknownCsvOption(k),
                    ),
                    None => Ok::<CsvReaderOptions, ConfigErrorModel>(
                        CsvReaderOptions { delimiter, has_header },
                    ),
                }),
            decreases pairs@.len() - i,
        {
            let known = pairs[i].0.eq(&String::from_str("has_header")) || pairs[i].0.eq(
                &String::from_str("delimiter"),
            );
            proof {
                assert(pair_models(pairs@).skip(i as int)[0] == pair_models(pairs@)[i as int]);
                assert(pair_models(pairs@).skip(i as int).drop_first() =~= pair_models(
                    pairs@,
                ).skip(i + 1 as int));
            }
            if !known {
                proof {
                    assert(first_unknown(pair_models(pairs@).skip(i as int)) == Some(
                        pair_models(pairs@)[i as int].0,
                    ));
                }
                return Err(ConfigError::UnknownCsvOption(pairs[i].0.clone()));
            }
            i = i + 1;
        }
        proof {
            assert(pair_models(pairs@).skip(pairs@.len() as int) =~= Seq::<
                (Seq<char>, Seq<char>),
            >::empty());
        }
        Ok(CsvReaderOptions { delimiter, has_header })
    }
}

} // verus!
