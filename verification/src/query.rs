use crate::text::{chars_of, same_text};
use crate::value::{convert, converted, data_of, default_of, default_value, Datum, FieldType, Kind, Value};
use std::collections::BTreeMap;
use vstd::prelude::*;

verus! {

/// The error of the `serde_qs` crate.
#[verifier::external_type_specification]
#[verifier::external_body]
pub struct ExQueryError(serde_qs::Error);

/// A key of a query string with its value, both decoded.
#[derive(Debug, PartialEq, Eq, Clone)]
pub struct QueryPair {
    pub key: String,
    pub value: String,
}

/// The model of a list of pairs.
pub open spec fn pairs_of(pairs: Seq<QueryPair>) -> Seq<(Seq<char>, Seq<char>)> {
    pairs.map_values(|p: QueryPair| (p.key@, p.value@))
}

/// What `serde_qs` reads from a query string as a map from text to text: the
/// pairs in the order of their keys, or nothing where it fails.
pub uninterp spec fn parsed_pairs(query: Seq<char>) -> Option<Seq<(Seq<char>, Seq<char>)>>;

/// Reads `query` with `serde_qs::from_str` into a `BTreeMap<String, String>` and
/// hands out its entries in the map's order. The contract names the result,
/// which depends on `query` alone, and claims one fact of it: of an empty query
/// string the crate makes an empty map.
#[verifier::external_body]
fn parse_pairs(query: &str) -> (result: Result<Vec<QueryPair>, serde_qs::Error>)
    ensures
        match result {
            Ok(pairs) => parsed_pairs(query@) == Some(pairs_of(pairs@)),
            Err(_) => parsed_pairs(query@) is None,
        },
        query@.len() == 0 ==> result is Ok && result->Ok_0@.len() == 0,
{
    let map = serde_qs::from_str::<BTreeMap<String, String>>(query)?;
    Ok(map.into_iter().map(|(key, value)| QueryPair { key, value }).collect())
}

/// The decoded pairs of a query string, or nothing where it cannot be read.
pub fn read_pairs(query: &str) -> (pairs: Option<Vec<QueryPair>>)
    ensures
        match pairs {
            Some(found) => parsed_pairs(query@) == Some(pairs_of(found@)),
            None => parsed_pairs(query@) is None,
        },
        query@.len() == 0 ==> pairs is Some && pairs->Some_0@.len() == 0,
{
    match parse_pairs(query) {
        Ok(pairs) => Some(pairs),
        Err(_) => None,
    }
}

/// What holds for a key that the query string lacks.
#[derive(Debug, PartialEq, Eq, Clone, Copy, Structural)]
pub enum Presence {
    /// The record cannot be made without it.
    Required,
    /// The value is `Missing`.
    Optional,
    /// The value is the default of the key's type.
    Defaulted,
}

/// A key that a query record reads.
#[derive(Debug, PartialEq, Eq, Clone)]
pub struct QueryKey {
    pub name: String,
    pub kind: FieldType,
    pub presence: Presence,
}

/// The model of a `QueryKey`.
pub struct KeyModel {
    pub name: Seq<char>,
    pub kind: Kind,
    pub presence: Presence,
}

impl View for QueryKey {
    type V = KeyModel;

    open spec fn view(&self) -> KeyModel {
        KeyModel { name: self.name@, kind: self.kind@, presence: self.presence }
    }
}

/// The model of a list of keys.
pub open spec fn keys_of(keys: Seq<QueryKey>) -> Seq<KeyModel> {
    keys.map_values(|k: QueryKey| k@)
}

/// The value of the first pair from `from` on whose key is `name`.
pub open spec fn find_pair(pairs: Seq<(Seq<char>, Seq<char>)>, name: Seq<char>, from: int) -> Option<
    Seq<char>,
>
    decreases pairs.len() - from,
{
    if from < 0 || from >= pairs.len() {
        None
    } else if pairs[from].0 == name {
        Some(pairs[from].1)
    } else {
        find_pair(pairs, name, from + 1)
    }
}

/// The value that a record has for `key`: what the query string gives for it,
/// converted to the key's type, or what the key's presence says where the query
/// string lacks it. Nothing where the text does not convert, or a required key
/// is lacking.
pub open spec fn key_value(key: KeyModel, pairs: Seq<(Seq<char>, Seq<char>)>) -> Option<Datum> {
    match find_pair(pairs, key.name, 0) {
        Some(text) => converted(key.kind, text),
        None => match key.presence {
            Presence::Required => None,
            Presence::Optional => Some(Datum::Missing),
            Presence::Defaulted => Some(default_of(key.kind)),
        },
    }
}

/// The record that the pairs give for the keys, one value for each key in
/// order, where every key has a value. Pairs with other keys are passed over.
pub open spec fn record_of(keys: Seq<KeyModel>, pairs: Seq<(Seq<char>, Seq<char>)>) -> Option<
    Seq<Datum>,
> {
    if forall|i: int| 0 <= i < keys.len() ==> (#[trigger] key_value(keys[i], pairs)) is Some {
        Some(Seq::new(keys.len(), |i: int| key_value(keys[i], pairs)->Some_0))
    } else {
        None
    }
}

/// The model of a record that may have failed to decode.
pub open spec fn record_model(record: Option<Vec<Value>>) -> Option<Seq<Datum>> {
    match record {
        Some(values) => Some(data_of(values@)),
        None => None,
    }
}

fn lookup<'a>(pairs: &'a Vec<QueryPair>, name: &str) -> (found: Option<&'a QueryPair>)
    ensures
        match found {
            Some(pair) => find_pair(pairs_of(pairs@), name@, 0) == Some(pair.value@),
            None => find_pair(pairs_of(pairs@), name@, 0) is None,
        },
{
    let wanted = chars_of(name);
    let mut k: usize = 0;
    while k < pairs.len()
        invariant
            k <= pairs.len(),
            wanted@ == name@,
            find_pair(pairs_of(pairs@), name@, 0) == find_pair(pairs_of(pairs@), name@, k as int),
        decreases pairs.len() - k,
    {
        assert(pairs_of(pairs@)[k as int] == (pairs@[k as int].key@, pairs@[k as int].value@));
        if same_text(&wanted, &chars_of(pairs[k].key.as_str())) {
            return Some(&pairs[k]);
        }
        k = k + 1;
    }
    None
}

/// Makes the record of the keys from the decoded pairs of a query string.
pub fn decode_record(keys: &Vec<QueryKey>, pairs: &Vec<QueryPair>) -> (record: Option<Vec<Value>>)
    ensures
        record_model(record) == record_of(keys_of(keys@), pairs_of(pairs@)),
{
    let mut values: Vec<Value> = Vec::new();
    let mut k: usize = 0;
    let ghost key_models = keys_of(keys@);
    let ghost pair_models = pairs_of(pairs@);
    while k < keys.len()
        invariant
            k <= keys.len(),
            key_models == keys_of(keys@),
            pair_models == pairs_of(pairs@),
            values@.len() == k,
            forall|i: int|
                0 <= i < k ==> key_value(key_models[i], pair_models) == Some(
                    #[trigger] values@[i]@,
                ),
        decreases keys.len() - k,
    {
        let key = &keys[k];
        assert(key_models[k as int] == key@);
        let value = match lookup(pairs, key.name.as_str()) {
            Some(pair) => convert(&key.kind, pair.value.as_str()),
            None => match key.presence {
                Presence::Required => None,
                Presence::Optional => Some(Value::Missing),
                Presence::Defaulted => Some(default_value(&key.kind)),
            },
        };
        match value {
            Some(v) => {
                values.push(v);
            },
            None => {
                assert(key_value(key_models[k as int], pair_models) is None);
                return None;
            },
        }
        k = k + 1;
    }
    assert forall|i: int| 0 <= i < key_models.len() implies (#[trigger] key_value(
        key_models[i],
        pair_models,
    )) is Some by {
        assert(key_value(key_models[i], pair_models) == Some(values@[i]@));
    }
    assert(data_of(values@) =~= Seq::new(
        key_models.len(),
        |i: int| key_value(key_models[i], pair_models)->Some_0,
    ));
    Some(values)
}

} // verus!
