use crate::decode::{
    decoded, fails_first, field_fails, field_value, no_later, outcome_of, path_part, path_values,
    query_part, query_value, query_values, records_of, Decoded, Fault, PathParseErr,
};
use crate::matcher::{anchored_pattern, Matcher};
use crate::matching::{capture_count, lemma_match_spells_input, lemma_slot_in_range, slot_of};
use crate::pattern::{
    compiled, find_run_end, pieces_of, well_formed, PathToRegexError, Piece, Segment, TemplateFault,
};
use crate::query::{
    decode_record, keys_of, pairs_of, parsed_pairs, read_pairs, KeyModel, QueryKey, QueryPair,
};
use crate::text::{chars_of, same_text, text_model, texts_of};
use crate::value::{convert, data_of, show, shown, Datum, FieldType, Kind, Value};
use vstd::prelude::*;
use vstd::string::{StrSliceExecFns, StringExecFns};

verus! {

/// A field of a record that is read from a placeholder of the same name.
#[derive(Debug, PartialEq, Eq, Clone)]
pub struct PathField {
    pub name: String,
    pub kind: FieldType,
}

/// The model of a `PathField`.
pub struct PathFieldModel {
    pub name: Seq<char>,
    pub kind: Kind,
}

impl View for PathField {
    type V = PathFieldModel;

    open spec fn view(&self) -> PathFieldModel {
        PathFieldModel { name: self.name@, kind: self.kind@ }
    }
}

/// A field of a record that is a record of its own, read from the query string.
#[derive(Debug, PartialEq, Eq, Clone)]
pub struct QueryField {
    pub name: String,
    /// Whether the field is absent where the input has no query string.
    pub optional: bool,
    pub keys: Vec<QueryKey>,
}

/// The model of a `QueryField`.
pub struct QueryFieldModel {
    pub name: Seq<char>,
    pub optional: bool,
    pub keys: Seq<KeyModel>,
}

impl View for QueryField {
    type V = QueryFieldModel;

    open spec fn view(&self) -> QueryFieldModel {
        QueryFieldModel { name: self.name@, optional: self.optional, keys: keys_of(self.keys@) }
    }
}

/// The model of a list of path fields.
pub open spec fn path_fields_of(fields: Seq<PathField>) -> Seq<PathFieldModel> {
    fields.map_values(|f: PathField| f@)
}

/// The model of a list of query fields.
pub open spec fn query_fields_of(fields: Seq<QueryField>) -> Seq<QueryFieldModel> {
    fields.map_values(|f: QueryField| f@)
}

/// The model of a route: the segments of its template and the fields of its record.
pub struct RouteModel {
    pub pieces: Seq<Piece>,
    pub path_fields: Seq<PathFieldModel>,
    pub query_fields: Seq<QueryFieldModel>,
}

/// Every path field has a placeholder of its name.
pub open spec fn fields_bound(pieces: Seq<Piece>, fields: Seq<PathFieldModel>) -> bool {
    forall|i: int| 0 <= i < fields.len() ==> slot_of(pieces, (#[trigger] fields[i]).name) is Some
}

/// The invariant of a route.
pub open spec fn route_ok(route: RouteModel) -> bool {
    well_formed(route.pieces) && fields_bound(route.pieces, route.path_fields)
}

/// Why a route could not be made.
#[derive(Debug, PartialEq, Eq, Clone)]
pub enum RouteError {
    /// The template does not compile.
    Template(PathToRegexError),
    /// No placeholder of the template has the name of this path field.
    UnknownCapture(String),
}

/// The model of a `RouteError`.
pub enum RouteFault {
    Template(TemplateFault),
    UnknownCapture(Seq<char>),
}

impl View for RouteError {
    type V = RouteFault;

    open spec fn view(&self) -> RouteFault {
        match self {
            RouteError::Template(fault) => RouteFault::Template(fault@),
            RouteError::UnknownCapture(name) => RouteFault::UnknownCapture(name@),
        }
    }
}

/// The first path field, in the order of the list, that no placeholder is named after.
pub open spec fn first_unbound(pieces: Seq<Piece>, fields: Seq<PathFieldModel>, from: int) -> Option<
    Seq<char>,
>
    decreases fields.len() - from,
{
    if from < 0 || from >= fields.len() {
        None
    } else if slot_of(pieces, fields[from].name) is None {
        Some(fields[from].name)
    } else {
        first_unbound(pieces, fields, from + 1)
    }
}

/// What making a route gives: the route, or the fault of the template, or the
/// first path field without a placeholder.
pub open spec fn route_of(
    template: Seq<char>,
    path_fields: Seq<PathFieldModel>,
    query_fields: Seq<QueryFieldModel>,
) -> Result<RouteModel, RouteFault> {
    match compiled(template) {
        Err(fault) => Err(RouteFault::Template(fault)),
        Ok(pieces) => match first_unbound(pieces, path_fields, 0) {
            Some(name) => Err(RouteFault::UnknownCapture(name)),
            None => Ok(RouteModel { pieces, path_fields, query_fields }),
        },
    }
}

/// A template with the fields of the record that is decoded from its paths.
#[derive(Debug)]
pub struct Route {
    matcher: Matcher,
    path_fields: Vec<PathField>,
    slots: Vec<usize>,
    query_fields: Vec<QueryField>,
}

impl View for Route {
    type V = RouteModel;

    closed spec fn view(&self) -> RouteModel {
        RouteModel {
            pieces: self.matcher@,
            path_fields: path_fields_of(self.path_fields@),
            query_fields: query_fields_of(self.query_fields@),
        }
    }
}

impl Route {
    #[verifier::type_invariant]
    spec fn inv(&self) -> bool {
        &&& self.slots@.len() == self.path_fields@.len()
        &&& forall|i: int|
            0 <= i < self.slots@.len() ==> slot_of(self.matcher@, self.path_fields@[i].name@)
                == Some(#[trigger] self.slots@[i] as nat)
    }

    /// Compiles the template and binds every path field to the placeholder of its name.
    pub fn new(template: &str, path_fields: Vec<PathField>, query_fields: Vec<QueryField>) -> (result:
        Result<Route, RouteError>)
        ensures
            match result {
                Ok(route) => route_of(
                    template@,
                    path_fields_of(path_fields@),
                    query_fields_of(query_fields@),
                ) == Ok::<RouteModel, RouteFault>(route@) && route_ok(route@),
                Err(fault) => route_of(
                    template@,
                    path_fields_of(path_fields@),
                    query_fields_of(query_fields@),
                ) == Err::<RouteModel, RouteFault>(fault@),
            },
    {
        let matcher = match Matcher::compile(template) {
            Ok(matcher) => matcher,
            Err(fault) => {
                return Err(RouteError::Template(fault));
            },
        };
        let ghost models = path_fields_of(path_fields@);
        let mut slots: Vec<usize> = Vec::new();
        let mut i: usize = 0;
        while i < path_fields.len()
            invariant
                i <= path_fields.len(),
                slots@.len() == i,
                models == path_fields_of(path_fields@),
                compiled(template@) == Ok::<Seq<Piece>, TemplateFault>(matcher@),
                first_unbound(matcher@, models, 0) == first_unbound(matcher@, models, i as int),
                forall|k: int|
                    0 <= k < i ==> slot_of(matcher@, path_fields@[k].name@) == Some(
                        #[trigger] slots@[k] as nat,
                    ),
            decreases path_fields.len() - i,
        {
            assert(models[i as int] == path_fields@[i as int]@);
            match matcher.slot(path_fields[i].name.as_str()) {
                Some(k) => {
                    slots.push(k);
                },
                None => {
                    return Err(RouteError::UnknownCapture(path_fields[i].name.clone()));
                },
            }
            i = i + 1;
        }
        proof {
            assert forall|k: int| 0 <= k < models.len() implies slot_of(
                matcher@,
                (#[trigger] models[k]).name,
            ) is Some by {
                assert(models[k] == path_fields@[k]@);
                assert(slot_of(matcher@, path_fields@[k].name@) == Some(slots@[k] as nat));
            }
        }
        Ok(Route { matcher, path_fields, slots, query_fields })
    }
}

/// The model of the pairs read from a query string, if it could be read.
pub open spec fn pairs_model(pairs: Option<Vec<QueryPair>>) -> Option<Seq<(Seq<char>, Seq<char>)>> {
    match pairs {
        Some(found) => Some(pairs_of(found@)),
        None => None,
    }
}

/// Puts `front` before the records of the query fields that follow.
pub open spec fn records_after(
    front: Seq<Option<Seq<Datum>>>,
    rest: Result<Seq<Option<Seq<Datum>>>, Fault>,
) -> Result<Seq<Option<Seq<Datum>>>, Fault> {
    match rest {
        Ok(later) => Ok(front + later),
        Err(fault) => Err(fault),
    }
}

/// The model of the query part of an input.
pub open spec fn query_text(query: Option<&str>) -> Option<Seq<char>> {
    match query {
        Some(text) => Some(text@),
        None => None,
    }
}

/// Splits an input at its first `?` into the path and, if there is a `?`, the
/// query string after it.
pub fn split_input(input: &str) -> (parts: (&str, Option<&str>))
    ensures
        parts.0@ == path_part(input@),
        query_text(parts.1) == query_part(input@),
{
    let chars = chars_of(input);
    let n: usize = find_run_end(&chars, 0, '?');
    let path = input.substring_char(0, n);
    assert(path@ =~= input@.take(n as int));
    if n < chars.len() {
        let query = input.substring_char(n + 1, chars.len());
        assert(query@ =~= input@.skip(n + 1));
        (path, Some(query))
    } else {
        (path, None)
    }
}

impl Route {
    /// Decodes an input with the pairs that were read from its query string:
    /// `None` where it has none, or where it could not be read.
    pub fn decode_with(&self, input: &str, pairs: &Option<Vec<QueryPair>>) -> (result: Result<
        Decoded,
        PathParseErr,
    >)
        ensures
            outcome_of(result) == decoded(self@, input@, pairs_model(*pairs)),
            route_ok(self@),
    {
        proof {
            use_type_invariant(self);
        }
        let (path, query) = split_input(input);
        let texts = match self.matcher.captures(path) {
            Some(texts) => texts,
            None => {
                proof {
                    self.lemma_bound();
                }
                return Err(PathParseErr::NoMatches);
            },
        };
        proof {
            self.lemma_bound();
            lemma_match_spells_input(self.matcher@, path@);
        }
        let path_values = match self.decode_path(&texts) {
            Ok(values) => values,
            Err(fault) => {
                return Err(fault);
            },
        };
        let records = match self.decode_queries(query.is_some(), pairs) {
            Ok(records) => records,
            Err(fault) => {
                assert(query_values(self@.query_fields, query_part(input@), pairs_model(*pairs), 0)
                    is Err);
                return Err(fault);
            },
        };
        assert(query_values(self@.query_fields, query_part(input@), pairs_model(*pairs), 0) is Ok);
        Ok(Decoded { path: path_values, query: records })
    }

    /// Decodes an input: splits it, matches the path, converts the path fields
    /// and makes the record of every query field from the query string. The
    /// query string is read only where the record has a query field.
    pub fn decode(&self, input: &str) -> (result: Result<Decoded, PathParseErr>)
        ensures
            outcome_of(result) == decoded(
                self@,
                input@,
                match query_part(input@) {
                    Some(query) => parsed_pairs(query),
                    None => None,
                },
            ),
            query_part(input@) == Some(Seq::<char>::empty()) ==> outcome_of(result) == decoded(
                self@,
                input@,
                Some(Seq::empty()),
            ),
            route_ok(self@),
    {
        let (_, query) = split_input(input);
        let pairs = match query {
            Some(text) => if self.query_fields.len() > 0 {
                read_pairs(text)
            } else {
                None
            },
            None => None,
        };
        proof {
            if self.query_fields.len() > 0 {
                if query_part(input@) == Some(Seq::<char>::empty()) {
                    assert(pairs_of(pairs->Some_0@) =~= Seq::empty());
                }
            } else {
                assert(self@.query_fields.len() == 0);
            }
        }
        self.decode_with(input, &pairs)
    }

    proof fn lemma_bound(&self)
        requires
            self.inv(),
        ensures
            fields_bound(self@.pieces, self@.path_fields),
    {
        assert forall|i: int| 0 <= i < self@.path_fields.len() implies slot_of(
            self@.pieces,
            (#[trigger] self@.path_fields[i]).name,
        ) is Some by {
            assert(self@.path_fields[i] == self.path_fields@[i]@);
            assert(slot_of(self.matcher@, self.path_fields@[i].name@) == Some(
                self.slots@[i] as nat,
            ));
        }
    }

    /// The template of the route as an anchored pattern for the `regex` crate.
    pub fn path_pattern(&self) -> (pattern: String)
        ensures
            pattern@ == anchored_pattern(self@.pieces),
    {
        self.matcher.path_pattern()
    }

    fn decode_path(&self, texts: &Vec<String>) -> (result: Result<Vec<Value>, PathParseErr>)
        requires
            texts@.len() == capture_count(self@.pieces),
        ensures
            match result {
                Ok(values) => path_values(self@, texts_of(texts@)) == Ok::<Seq<Datum>, Fault>(
                    data_of(values@),
                ),
                Err(fault) => path_values(self@, texts_of(texts@)) == Err::<Seq<Datum>, Fault>(
                    fault@,
                ),
            },
    {
        proof {
            use_type_invariant(self);
        }
        let ghost route = self@;
        let ghost found = texts_of(texts@);
        let n: usize = self.path_fields.len();
        let mut values: Vec<Value> = Vec::new();
        let mut worst: Option<usize> = None;
        let mut i: usize = 0;
        while i < n
            invariant
                i <= n,
                n == self.path_fields@.len(),
                n == self.slots@.len(),
                route == self@,
                found == texts_of(texts@),
                texts@.len() == capture_count(route.pieces),
                forall|k: int|
                    0 <= k < n ==> slot_of(self.matcher@, self.path_fields@[k].name@) == Some(
                        #[trigger] self.slots@[k] as nat,
                    ),
                worst is None ==> values@.len() == i,
                worst is None ==> forall|k: int|
                    0 <= k < i ==> field_value(route.pieces, route.path_fields[k], found) == Some(
                        #[trigger] values@[k]@,
                    ),
                worst matches Some(w) ==> w < i && field_fails(route, found, w as int)
                    && forall|k: int|
                    0 <= k < i && #[trigger] field_fails(route, found, k) ==> no_later(
                        route,
                        w as int,
                        k,
                    ),
            decreases n - i,
        {
            let slot: usize = self.slots[i];
            proof {
                assert(route.path_fields[i as int] == self.path_fields@[i as int]@);
                lemma_slot_in_range(route.pieces, route.path_fields[i as int].name);
                assert(found[slot as int] == texts@[slot as int]@);
            }
            match convert(&self.path_fields[i].kind, texts[slot].as_str()) {
                Some(value) => {
                    assert(!field_fails(route, found, i as int));
                    match worst {
                        None => {
                            values.push(value);
                        },
                        Some(_) => {},
                    }
                },
                None => {
                    assert(field_fails(route, found, i as int));
                    match worst {
                        None => {
                            assert forall|k: int|
                                0 <= k < i + 1 && #[trigger] field_fails(
                                    route,
                                    found,
                                    k,
                                ) implies no_later(route, i as int, k) by {
                                if k < i {
                                    assert(field_value(route.pieces, route.path_fields[k], found)
                                        == Some(values@[k]@));
                                }
                            }
                            worst = Some(i);
                        },
                        Some(w) => {
                            assert(route.path_fields[w as int] == self.path_fields@[w as int]@);
                            let other: usize = self.slots[w];
                            assert(slot_of(route.pieces, route.path_fields[w as int].name) == Some(
                                other as nat,
                            ));
                            assert(slot_of(route.pieces, route.path_fields[i as int].name) == Some(
                                slot as nat,
                            ));
                            if slot < other {
                                worst = Some(i);
                                assert forall|k: int|
                                    0 <= k < i + 1 && #[trigger] field_fails(
                                        route,
                                        found,
                                        k,
                                    ) implies no_later(route, i as int, k) by {
                                    if k < i {
                                        assert(no_later(route, w as int, k));
                                    }
                                }
                            } else {
                                assert(no_later(route, w as int, i as int));
                            }
                        },
                    }
                },
            }
            i = i + 1;
        }
        match worst {
            Some(w) => {
                proof {
                    assert(fails_first(route, found, w as int));
                    let first = choose|k: int| fails_first(route, found, k);
                    assert(field_fails(route, found, first));
                    assert(no_later(route, w as int, first));
                    assert(no_later(route, first, w as int));
                    assert(first == w);
                    assert(route.path_fields[w as int] == self.path_fields@[w as int]@);
                }
                Err(PathParseErr::ParamParseErr(self.path_fields[w].name.clone()))
            },
            None => {
                proof {
                    assert forall|k: int| !field_fails(route, found, k) by {
                        if 0 <= k < n {
                            assert(field_value(route.pieces, route.path_fields[k], found) == Some(
                                values@[k]@,
                            ));
                        }
                    }
                    assert(data_of(values@) =~= Seq::new(
                        route.path_fields.len(),
                        |k: int| field_value(route.pieces, route.path_fields[k], found)->Some_0,
                    ));
                }
                Ok(values)
            },
        }
    }

    fn decode_queries(&self, has_query: bool, pairs: &Option<Vec<QueryPair>>) -> (result: Result<
        Vec<Option<Vec<Value>>>,
        PathParseErr,
    >)
        ensures
            forall|query: Option<Seq<char>>|
                (query is Some) == has_query ==> match result {
                    Ok(records) => #[trigger] query_values(
                        self@.query_fields,
                        query,
                        pairs_model(*pairs),
                        0,
                    ) == Ok::<Seq<Option<Seq<Datum>>>, Fault>(records_of(records@)),
                    Err(fault) => query_values(self@.query_fields, query, pairs_model(*pairs), 0)
                        == Err::<Seq<Option<Seq<Datum>>>, Fault>(fault@),
                },
    {
        let ghost fields = self@.query_fields;
        let ghost read = pairs_model(*pairs);
        let mut records: Vec<Option<Vec<Value>>> = Vec::new();
        let mut i: usize = 0;
        assert(Seq::<Option<Seq<Datum>>>::empty() =~= records_of(records@));
        while i < self.query_fields.len()
            invariant
                i <= self.query_fields.len(),
                fields == self@.query_fields,
                fields == query_fields_of(self.query_fields@),
                read == pairs_model(*pairs),
                forall|query: Option<Seq<char>>|
                    (query is Some) == has_query ==> #[trigger] query_values(fields, query, read, 0)
                        == records_after(
                        records_of(records@),
                        query_values(fields, query, read, i as int),
                    ),
            decreases self.query_fields.len() - i,
        {
            let field = &self.query_fields[i];
            let ghost before = records_of(records@);
            assert(fields[i as int] == field@);
            let record: Option<Vec<Value>> = if !has_query {
                if field.optional {
                    None
                } else {
                    assert forall|query: Option<Seq<char>>| (query is Some) == has_query implies (
                    #[trigger] query_values(fields, query, read, 0)) == Err::<
                        Seq<Option<Seq<Datum>>>,
                        Fault,
                    >(Fault::NoQueryString) by {
                        assert(query_value(fields[i as int], query, read) is Err);
                    }
                    return Err(PathParseErr::NoQueryString);
                }
            } else {
                let decoded = match pairs {
                    Some(found) => decode_record(&field.keys, found),
                    None => None,
                };
                match decoded {
                    Some(values) => Some(values),
                    None => {
                        let name = field.name.clone();
                        assert forall|query: Option<Seq<char>>|
                            (query is Some) == has_query implies (#[trigger] query_values(
                            fields,
                            query,
                            read,
                            0,
                        )) == Err::<Seq<Option<Seq<Datum>>>, Fault>(Fault::QueryParseErr(name@)) by {
                            assert(query_value(fields[i as int], query, read) is Err);
                        }
                        return Err(PathParseErr::QueryParseErr(name));
                    },
                }
            };
            records.push(record);
            proof {
                let model = records_of(records@).last();
                assert(records_of(records@) =~= before.push(model));
                assert forall|query: Option<Seq<char>>| (query is Some) == has_query implies (
                #[trigger] query_values(fields, query, read, 0)) == records_after(
                    records_of(records@),
                    query_values(fields, query, read, i + 1),
                ) by {
                    assert(query_value(fields[i as int], query, read) == Ok::<
                        Option<Seq<Datum>>,
                        Fault,
                    >(model));
                    match query_values(fields, query, read, i + 1) {
                        Ok(later) => {
                            assert(before + (seq![model] + later) =~= before.push(model) + later);
                        },
                        Err(_) => {},
                    }
                }
            }
            i = i + 1;
        }
        proof {
            assert forall|query: Option<Seq<char>>| (query is Some) == has_query implies (
            #[trigger] query_values(fields, query, read, 0)) == Ok::<
                Seq<Option<Seq<Datum>>>,
                Fault,
            >(records_of(records@)) by {
                assert(records_of(records@) + Seq::<Option<Seq<Datum>>>::empty()
                    =~= records_of(records@));
            }
        }
        Ok(records)
    }
}

/// The position of the first field from `from` on that is named `name`.
pub open spec fn field_named(fields: Seq<PathFieldModel>, name: Seq<char>, from: int) -> Option<
    int,
>
    decreases fields.len() - from,
{
    if from < 0 || from >= fields.len() {
        None
    } else if fields[from].name == name {
        Some(from)
    } else {
        field_named(fields, name, from + 1)
    }
}

/// The text that a record writes at the placeholder `name`: that of the value
/// of the first path field of that name.
pub open spec fn capture_text(route: RouteModel, values: Seq<Datum>, name: Seq<char>) -> Option<
    Seq<char>,
> {
    match field_named(route.path_fields, name, 0) {
        Some(i) => if i < values.len() {
            shown(route.path_fields[i].kind, values[i])
        } else {
            None
        },
        None => None,
    }
}

/// The path that the first `upto` segments spell with the values of a record:
/// the literals as they are, and at each placeholder the text of its field.
pub open spec fn spelled(route: RouteModel, values: Seq<Datum>, upto: int) -> Option<Seq<char>>
    decreases upto,
{
    if upto <= 0 {
        Some(Seq::empty())
    } else {
        match spelled(route, values, upto - 1) {
            None => None,
            Some(front) => match route.pieces[upto - 1] {
                Piece::Literal(text) => Some(front + text),
                Piece::Capture(name) => match capture_text(route, values, name) {
                    Some(text) => Some(front + text),
                    None => None,
                },
            },
        }
    }
}

/// The path of a record: what all the segments of the template spell with it.
pub open spec fn path_of(route: RouteModel, values: Seq<Datum>) -> Option<Seq<char>> {
    spelled(route, values, route.pieces.len() as int)
}

proof fn lemma_spelled_stays_none(route: RouteModel, values: Seq<Datum>, k: int, m: int)
    requires
        0 <= k <= m,
        spelled(route, values, k) is None,
    ensures
        spelled(route, values, m) is None,
    decreases m - k,
{
    if k < m {
        lemma_spelled_stays_none(route, values, k, m - 1);
    }
}

impl Route {
    fn field_index(&self, name: &str) -> (found: Option<usize>)
        ensures
            match found {
                Some(i) => field_named(self@.path_fields, name@, 0) == Some(i as int) && i
                    < self@.path_fields.len(),
                None => field_named(self@.path_fields, name@, 0) is None,
            },
    {
        let wanted = chars_of(name);
        let mut i: usize = 0;
        while i < self.path_fields.len()
            invariant
                i <= self.path_fields.len(),
                wanted@ == name@,
                self@.path_fields == path_fields_of(self.path_fields@),
                field_named(self@.path_fields, name@, 0) == field_named(
                    self@.path_fields,
                    name@,
                    i as int,
                ),
            decreases self.path_fields.len() - i,
        {
            assert(self@.path_fields[i as int] == self.path_fields@[i as int]@);
            if same_text(&wanted, &chars_of(self.path_fields[i].name.as_str())) {
                return Some(i);
            }
            i = i + 1;
        }
        None
    }

    /// Writes the path of a record: the template with the text of each path field
    /// in place of its placeholder. Gives nothing where a placeholder has no
    /// field, or a value is not one of its field's type.
    pub fn to_path(&self, decoded: &Decoded) -> (path: Option<String>)
        ensures
            text_model(path) == path_of(self@, data_of(decoded.path@)),
    {
        let ghost route = self@;
        let ghost values = data_of(decoded.path@);
        let segments = self.matcher.segments();
        let mut path = String::new();
        let mut k: usize = 0;
        while k < segments.len()
            invariant
                k <= segments.len(),
                route == self@,
                values == data_of(decoded.path@),
                route.pieces == pieces_of(segments@),
                route.path_fields == path_fields_of(self.path_fields@),
                spelled(route, values, k as int) == Some(path@),
            decreases segments.len() - k,
        {
            assert(route.pieces[k as int] == segments@[k as int]@);
            match &segments[k] {
                Segment::Literal(text) => {
                    path.append(text.as_str());
                },
                Segment::Capture(name) => {
                    let text = match self.field_index(name.as_str()) {
                        Some(i) => if i < decoded.path.len() {
                            assert(route.path_fields[i as int] == self.path_fields@[i as int]@);
                            assert(values[i as int] == decoded.path@[i as int]@);
                            show(&self.path_fields[i].kind, &decoded.path[i])
                        } else {
                            None
                        },
                        None => None,
                    };
                    match text {
                        Some(text) => {
                            path.append(text.as_str());
                        },
                        None => {
                            proof {
                                assert(spelled(route, values, k + 1) is None);
                                lemma_spelled_stays_none(
                                    route,
                                    values,
                                    k + 1,
                                    route.pieces.len() as int,
                                );
                            }
                            return None;
                        },
                    }
                },
            }
            k = k + 1;
        }
        Some(path)
    }

    /// The query string of a record. Writing one is not supported: every record
    /// is given none.
    pub fn query_string(&self, decoded: &Decoded) -> (query: Option<String>)
        ensures
            query is None,
    {
        None
    }
}

} // verus!
