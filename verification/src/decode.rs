use crate::matching::{
    lemma_run_len_is, lemma_trailing_slash_never_matches, match_path, slot_of,
};
use crate::pattern::{lemma_run_len_bound, run_len, Piece};
use crate::query::{key_value, record_of, KeyModel, Presence};
use crate::route::{route_ok, PathFieldModel, QueryFieldModel, RouteModel};
use crate::value::{converted, data_of, default_of, Datum, Value};
use vstd::prelude::*;

verus! {

/// Why an input was not decoded.
#[derive(Debug, PartialEq, Eq, Clone)]
pub enum PathParseErr {
    /// The path does not match the template.
    NoMatches,
    /// The text of this path field does not convert to its type.
    ParamParseErr(String),
    /// The record has a required query field and the input has no query string.
    NoQueryString,
    /// The query string does not give the record of this query field.
    QueryParseErr(String),
}

/// The model of a `PathParseErr`.
pub enum Fault {
    NoMatches,
    ParamParseErr(Seq<char>),
    NoQueryString,
    QueryParseErr(Seq<char>),
}

impl View for PathParseErr {
    type V = Fault;

    open spec fn view(&self) -> Fault {
        match self {
            PathParseErr::NoMatches => Fault::NoMatches,
            PathParseErr::ParamParseErr(name) => Fault::ParamParseErr(name@),
            PathParseErr::NoQueryString => Fault::NoQueryString,
            PathParseErr::QueryParseErr(name) => Fault::QueryParseErr(name@),
        }
    }
}

/// A decoded record: the values of the path fields, and for each query field its
/// record, or `None` for an optional one where the input has no query string.
/// Both are in the order in which the fields were declared. Equal records have
/// equal hashes, so a change of route can be told from the hash of its record.
#[derive(Debug, PartialEq, Eq, Clone, Hash)]
pub struct Decoded {
    pub path: Vec<Value>,
    pub query: Vec<Option<Vec<Value>>>,
}

/// The model of a `Decoded`.
pub struct Record {
    pub path: Seq<Datum>,
    pub query: Seq<Option<Seq<Datum>>>,
}

/// The model of the records of the query fields.
pub open spec fn records_of(records: Seq<Option<Vec<Value>>>) -> Seq<Option<Seq<Datum>>> {
    records.map_values(
        |r: Option<Vec<Value>>|
            match r {
                Some(values) => Some(data_of(values@)),
                None => None,
            },
    )
}

impl View for Decoded {
    type V = Record;

    open spec fn view(&self) -> Record {
        Record { path: data_of(self.path@), query: records_of(self.query@) }
    }
}

/// The model of the outcome of decoding.
pub open spec fn outcome_of(result: Result<Decoded, PathParseErr>) -> Result<Record, Fault> {
    match result {
        Ok(decoded) => Ok(decoded@),
        Err(fault) => Err(fault@),
    }
}

/// The part of the input before the first `?`, or all of it.
pub open spec fn path_part(input: Seq<char>) -> Seq<char> {
    input.take(run_len(input, 0, '?') as int)
}

/// The part of the input after the first `?`, if it has one.
pub open spec fn query_part(input: Seq<char>) -> Option<Seq<char>> {
    let n = run_len(input, 0, '?');
    if n < input.len() {
        Some(input.skip(n as int + 1))
    } else {
        None
    }
}

/// The value of a path field: the text of its placeholder, converted to its type.
pub open spec fn field_value(
    pieces: Seq<Piece>,
    field: PathFieldModel,
    texts: Seq<Seq<char>>,
) -> Option<Datum> {
    converted(field.kind, texts[slot_of(pieces, field.name)->Some_0 as int])
}

/// Field `i` comes no later than field `j` in the order of the template; fields
/// of one placeholder are taken in the order of the list.
pub open spec fn no_later(route: RouteModel, i: int, j: int) -> bool {
    let a = slot_of(route.pieces, route.path_fields[i].name)->Some_0;
    let b = slot_of(route.pieces, route.path_fields[j].name)->Some_0;
    a < b || (a == b && i <= j)
}

/// The text of path field `i` does not convert.
pub open spec fn field_fails(route: RouteModel, texts: Seq<Seq<char>>, i: int) -> bool {
    0 <= i < route.path_fields.len() && field_value(route.pieces, route.path_fields[i], texts)
        is None
}

/// Field `i` is the first, in the order of the template, whose text does not convert.
pub open spec fn fails_first(route: RouteModel, texts: Seq<Seq<char>>, i: int) -> bool {
    field_fails(route, texts, i) && forall|j: int|
        #[trigger] field_fails(route, texts, j) ==> no_later(route, i, j)
}

/// The values of the path fields, in the order of the list, or the fault of the
/// first field, in the order of the template, whose text does not convert.
pub open spec fn path_values(route: RouteModel, texts: Seq<Seq<char>>) -> Result<Seq<Datum>, Fault> {
    if exists|i: int| field_fails(route, texts, i) {
        let first = choose|i: int| fails_first(route, texts, i);
        Err(Fault::ParamParseErr(route.path_fields[first].name))
    } else {
        Ok(
            Seq::new(
                route.path_fields.len(),
                |i: int| field_value(route.pieces, route.path_fields[i], texts)->Some_0,
            ),
        )
    }
}

/// The record of one query field, from the query string, if the input has one,
/// and the pairs read from it, if it could be read.
pub open spec fn query_value(
    field: QueryFieldModel,
    query: Option<Seq<char>>,
    pairs: Option<Seq<(Seq<char>, Seq<char>)>>,
) -> Result<Option<Seq<Datum>>, Fault> {
    if query is None {
        if field.optional {
            Ok(None)
        } else {
            Err(Fault::NoQueryString)
        }
    } else {
        match pairs {
            None => Err(Fault::QueryParseErr(field.name)),
            Some(found) => match record_of(field.keys, found) {
                Some(record) => Ok(Some(record)),
                None => Err(Fault::QueryParseErr(field.name)),
            },
        }
    }
}

/// The records of the query fields from position `from` on, or the fault of the
/// first that has one.
pub open spec fn query_values(
    fields: Seq<QueryFieldModel>,
    query: Option<Seq<char>>,
    pairs: Option<Seq<(Seq<char>, Seq<char>)>>,
    from: int,
) -> Result<Seq<Option<Seq<Datum>>>, Fault>
    decreases fields.len() - from,
{
    if from < 0 || from >= fields.len() {
        Ok(Seq::empty())
    } else {
        match query_value(fields[from], query, pairs) {
            Err(fault) => Err(fault),
            Ok(record) => match query_values(fields, query, pairs, from + 1) {
                Err(fault) => Err(fault),
                Ok(later) => Ok(seq![record] + later),
            },
        }
    }
}

/// What decoding `input` gives, where `pairs` is what was read from its query
/// string: the path must match, then every path field must convert, then every
/// query field must have its record.
pub open spec fn decoded(
    route: RouteModel,
    input: Seq<char>,
    pairs: Option<Seq<(Seq<char>, Seq<char>)>>,
) -> Result<Record, Fault> {
    match match_path(route.pieces, path_part(input)) {
        None => Err(Fault::NoMatches),
        Some(texts) => match path_values(route, texts) {
            Err(fault) => Err(fault),
            Ok(path) => match query_values(route.query_fields, query_part(input), pairs, 0) {
                Err(fault) => Err(fault),
                Ok(query) => Ok(Record { path, query }),
            },
        },
    }
}

/// An input without a query string, with `/` put after it, matches no route.
pub proof fn lemma_trailing_slash_is_no_match(
    route: RouteModel,
    input: Seq<char>,
    pairs: Option<Seq<(Seq<char>, Seq<char>)>>,
)
    requires
        route_ok(route),
        query_part(input) is None,
    ensures
        decoded(route, input.push('/'), pairs) == Err::<Record, Fault>(Fault::NoMatches),
{
    let longer = input.push('/');
    lemma_run_len_bound(input, 0, '?');
    assert forall|k: int| 0 <= k < longer.len() implies longer[k] != '?' by {
        if k < input.len() {
            assert(longer[k] == input[k]);
        }
    }
    lemma_run_len_is(longer, 0, '?', longer.len() as int);
    assert(path_part(longer) =~= longer);
    lemma_trailing_slash_never_matches(route.pieces, input);
}

proof fn lemma_no_query_string(
    fields: Seq<QueryFieldModel>,
    pairs: Option<Seq<(Seq<char>, Seq<char>)>>,
    from: int,
    i: int,
)
    requires
        0 <= from <= i < fields.len(),
        !fields[i].optional,
    ensures
        query_values(fields, None, pairs, from) == Err::<Seq<Option<Seq<Datum>>>, Fault>(
            Fault::NoQueryString,
        ),
    decreases i - from,
{
    if from < i {
        lemma_no_query_string(fields, pairs, from + 1, i);
    }
}

/// Where the path matches and its fields convert, an input without a query
/// string is refused for that as soon as the record has a required query field.
pub proof fn lemma_required_query_needs_query_string(
    route: RouteModel,
    input: Seq<char>,
    pairs: Option<Seq<(Seq<char>, Seq<char>)>>,
    i: int,
)
    requires
        query_part(input) is None,
        match_path(route.pieces, path_part(input)) is Some,
        path_values(route, match_path(route.pieces, path_part(input))->Some_0) is Ok,
        0 <= i < route.query_fields.len(),
        !route.query_fields[i].optional,
    ensures
        decoded(route, input, pairs) == Err::<Record, Fault>(Fault::NoQueryString),
{
    lemma_no_query_string(route.query_fields, pairs, 0, i);
}

/// What a key is given where the query string holds nothing.
pub open spec fn absent_value(key: KeyModel) -> Datum {
    if key.presence == Presence::Optional {
        Datum::Missing
    } else {
        default_of(key.kind)
    }
}

/// From an empty query string a record without required keys is made, with
/// `Missing` for each optional key and the default of its type for each other:
/// `false` for a flag.
pub proof fn lemma_empty_query_gives_defaults(keys: Seq<KeyModel>)
    requires
        forall|k: int| 0 <= k < keys.len() ==> (#[trigger] keys[k]).presence != Presence::Required,
    ensures
        record_of(keys, Seq::empty()) == Some(Seq::new(keys.len(), |k: int| absent_value(keys[k]))),
        forall|k: int|
            0 <= k < keys.len() && (#[trigger] keys[k]).presence == Presence::Defaulted
                && keys[k].kind is Flag ==> absent_value(keys[k]) == Datum::Flag(false),
{
    let none = Seq::<(Seq<char>, Seq<char>)>::empty();
    assert forall|k: int| 0 <= k < keys.len() implies (#[trigger] key_value(keys[k], none)) == Some(
        absent_value(keys[k]),
    ) by {
        assert(keys[k].presence != Presence::Required);
    }
    assert(Seq::new(keys.len(), |k: int| key_value(keys[k], none)->Some_0) =~= Seq::new(
        keys.len(),
        |k: int| absent_value(keys[k]),
    ));
}

/// The records that an empty query string gives the query fields from `from` on.
pub open spec fn absent_records(fields: Seq<QueryFieldModel>, from: int) -> Seq<
    Option<Seq<Datum>>,
> {
    Seq::new(
        (fields.len() - from) as nat,
        |i: int| Some(Seq::new(fields[from + i].keys.len(), |k: int| absent_value(fields[from + i].keys[k]))),
    )
}

/// No query field has a required key.
pub open spec fn no_required_key(fields: Seq<QueryFieldModel>) -> bool {
    forall|i: int, k: int|
        0 <= i < fields.len() && 0 <= k < fields[i].keys.len() ==> (
        #[trigger] fields[i].keys[k]).presence != Presence::Required
}

proof fn lemma_empty_query_records(fields: Seq<QueryFieldModel>, from: int)
    requires
        0 <= from <= fields.len(),
        no_required_key(fields),
    ensures
        query_values(fields, Some(Seq::empty()), Some(Seq::empty()), from) == Ok::<
            Seq<Option<Seq<Datum>>>,
            Fault,
        >(absent_records(fields, from)),
    decreases fields.len() - from,
{
    if from < fields.len() {
        lemma_empty_query_records(fields, from + 1);
        let keys = fields[from].keys;
        assert forall|k: int| 0 <= k < keys.len() implies (#[trigger] keys[k]).presence
            != Presence::Required by {
            assert(fields[from].keys[k].presence != Presence::Required);
        }
        lemma_empty_query_gives_defaults(keys);
        assert(seq![Some(Seq::new(keys.len(), |k: int| absent_value(keys[k])))] + absent_records(
            fields,
            from + 1,
        ) =~= absent_records(fields, from));
    } else {
        assert(absent_records(fields, from) =~= Seq::empty());
    }
}

/// Where the path matches and its fields convert, an input that ends at its
/// `?` gives every query field, required or not, the record of an empty query
/// string, as long as no key is required.
pub proof fn lemma_bare_question_mark_gives_defaults(route: RouteModel, input: Seq<char>)
    requires
        query_part(input) == Some(Seq::<char>::empty()),
        match_path(route.pieces, path_part(input)) is Some,
        path_values(route, match_path(route.pieces, path_part(input))->Some_0) is Ok,
        no_required_key(route.query_fields),
    ensures
        decoded(route, input, Some(Seq::empty())) == Ok::<Record, Fault>(
            Record {
                path: path_values(route, match_path(route.pieces, path_part(input))->Some_0)->Ok_0,
                query: absent_records(route.query_fields, 0),
            },
        ),
{
    lemma_empty_query_records(route.query_fields, 0);
}

} // verus!
