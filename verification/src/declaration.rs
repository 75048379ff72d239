use crate::query::{keys_of, KeyModel, QueryKey};
use crate::route::{
    path_fields_of, query_fields_of, route_of, route_ok, PathField, PathFieldModel, QueryField,
    QueryFieldModel, Route, RouteError, RouteFault, RouteModel,
};
use crate::text::{chars_of, same_text, text_model};
use crate::value::{FieldType, Kind};
use vstd::prelude::*;

verus! {

/// What stands inside the brackets of a list attribute.
#[derive(Debug, PartialEq, Eq, Clone)]
pub enum Nested {
    /// A string literal, with its value.
    Str(String),
    /// Anything else.
    Other,
}

/// An attribute of a record or of a field.
#[derive(Debug, PartialEq, Eq, Clone)]
pub enum Attribute {
    /// A bare word, such as `#[query]`.
    Word(String),
    /// A word with a list, such as `#[path("/users")]`.
    List(String, Vec<Nested>),
    /// Any other attribute.
    Other,
}

/// The type that a field is declared with.
#[derive(Debug, PartialEq, Eq, Clone)]
pub enum Type {
    /// A path: the names of its segments and, where the last segment has
    /// arguments, the last name of the first of them. `std::option::Option<Page>`
    /// has the segments `std`, `option` and `Option` and the argument `Page`.
    Path(Vec<String>, Option<String>),
    /// Any other type.
    Other,
}

/// A named field of a record.
#[derive(Debug, PartialEq, Eq, Clone)]
pub struct Field {
    pub ident: String,
    pub attrs: Vec<Attribute>,
    pub ty: Type,
}

/// The fields of a struct.
#[derive(Debug, PartialEq, Eq, Clone)]
pub enum Fields {
    Named(Vec<Field>),
    Unnamed,
    Unit,
}

/// The body of a declared type.
#[derive(Debug, PartialEq, Eq, Clone)]
pub enum Data {
    Struct(Fields),
    Enum,
    Union,
}

/// The declaration of a record type, as far as a route is derived from it.
#[derive(Debug, PartialEq, Eq, Clone)]
pub struct DeriveInput {
    pub ident: String,
    pub attrs: Vec<Attribute>,
    pub data: Data,
}

/// The attribute is the bare word `name`.
pub open spec fn is_flag(attr: Attribute, name: Seq<char>) -> bool {
    attr matches Attribute::Word(word) && word@ == name
}

/// One of the attributes is the bare word `name`.
pub open spec fn has_flag(name: Seq<char>, attrs: Seq<Attribute>) -> bool {
    exists|i: int| 0 <= i < attrs.len() && is_flag(#[trigger] attrs[i], name)
}

/// Whether one of the attributes is the bare word `name`.
pub fn has_flag_attr(name: &str, attrs: &Vec<Attribute>) -> (found: bool)
    ensures
        found == has_flag(name@, attrs@),
{
    let wanted = chars_of(name);
    let mut i: usize = 0;
    while i < attrs.len()
        invariant
            i <= attrs.len(),
            wanted@ == name@,
            forall|k: int| 0 <= k < i ==> !is_flag(#[trigger] attrs@[k], name@),
        decreases attrs.len() - i,
    {
        match &attrs[i] {
            Attribute::Word(word) => {
                if same_text(&wanted, &chars_of(word.as_str())) {
                    return true;
                }
            },
            _ => {},
        }
        i = i + 1;
    }
    false
}

/// The value of the first string literal from `from` on.
pub open spec fn first_string(nested: Seq<Nested>, from: int) -> Option<Seq<char>>
    decreases nested.len() - from,
{
    if from < 0 || from >= nested.len() {
        None
    } else {
        match nested[from] {
            Nested::Str(value) => Some(value@),
            Nested::Other => first_string(nested, from + 1),
        }
    }
}

/// The string that a list attribute named `name` gives: its first string literal.
pub open spec fn string_in(attr: Attribute, name: Seq<char>) -> Option<Seq<char>> {
    match attr {
        Attribute::List(word, nested) => if word@ == name {
            first_string(nested@, 0)
        } else {
            None
        },
        _ => None,
    }
}

/// The string of the first attribute from `from` on that is a list named `name`
/// and holds a string literal.
pub open spec fn string_attr(name: Seq<char>, attrs: Seq<Attribute>, from: int) -> Option<
    Seq<char>,
>
    decreases attrs.len() - from,
{
    if from < 0 || from >= attrs.len() {
        None
    } else {
        match string_in(attrs[from], name) {
            Some(value) => Some(value),
            None => string_attr(name, attrs, from + 1),
        }
    }
}

fn first_string_of(nested: &Vec<Nested>) -> (found: Option<String>)
    ensures
        text_model(found) == first_string(nested@, 0),
{
    let mut k: usize = 0;
    while k < nested.len()
        invariant
            k <= nested.len(),
            first_string(nested@, 0) == first_string(nested@, k as int),
        decreases nested.len() - k,
    {
        match &nested[k] {
            Nested::Str(value) => {
                return Some(value.clone());
            },
            Nested::Other => {},
        }
        k = k + 1;
    }
    None
}

/// The string that the attributes give under `name`, as in `#[path("/users")]`.
pub fn get_string_attr(name: &str, attrs: &Vec<Attribute>) -> (found: Option<String>)
    ensures
        text_model(found) == string_attr(name@, attrs@, 0),
{
    let wanted = chars_of(name);
    let mut i: usize = 0;
    while i < attrs.len()
        invariant
            i <= attrs.len(),
            wanted@ == name@,
            string_attr(name@, attrs@, 0) == string_attr(name@, attrs@, i as int),
        decreases attrs.len() - i,
    {
        match &attrs[i] {
            Attribute::List(word, nested) => {
                if same_text(&wanted, &chars_of(word.as_str())) {
                    match first_string_of(nested) {
                        Some(value) => {
                            return Some(value);
                        },
                        None => {},
                    }
                }
            },
            _ => {},
        }
        i = i + 1;
    }
    None
}

/// The declared type is a struct with named fields.
pub open spec fn has_named_fields(data: Data) -> bool {
    data matches Data::Struct(fields) && fields is Named
}

/// The named fields of a struct.
pub fn get_struct_fields(data: &Data) -> (fields: &Vec<Field>)
    requires
        has_named_fields(*data),
    ensures
        *data == Data::Struct(Fields::Named(*fields)),
{
    match data {
        Data::Struct(Fields::Named(fields)) => fields,
        _ => vstd::pervasive::unreached(),
    }
}

/// The type is a path whose last segment is named `Option`.
pub open spec fn is_option(ty: Type) -> bool {
    ty matches Type::Path(segments, _) && segments@.len() > 0 && segments@.last()@ == "Option"@
}

/// Whether the field is declared with an `Option`.
pub fn field_is_option(field: &Field) -> (optional: bool)
    ensures
        optional == is_option(field.ty),
{
    match &field.ty {
        Type::Path(segments, _) => {
            if segments.len() == 0 {
                false
            } else {
                let last = &segments[segments.len() - 1];
                same_text(&chars_of(last.as_str()), &chars_of("Option"))
            }
        },
        Type::Other => false,
    }
}

/// A record type that is read from a query string, with the keys it reads.
#[derive(Debug, PartialEq, Eq, Clone)]
pub struct QueryRecord {
    pub name: String,
    pub keys: Vec<QueryKey>,
}

/// Why no route was derived from a declaration.
#[derive(Debug, PartialEq, Eq, Clone)]
pub enum DeriveError {
    /// The declared type is an enum or a union.
    NotAStruct,
    /// The struct has no named fields.
    FieldsNotNamed,
    /// The struct has no `path` attribute with a string.
    MissingPath,
    /// This path field has a type that no text converts to.
    UnsupportedType(String),
    /// The type of this query field is not among the records given.
    UnknownRecord(String),
    /// The route could not be made.
    Route(RouteError),
}

/// The model of a `DeriveError`.
pub enum DeriveFault {
    NotAStruct,
    FieldsNotNamed,
    MissingPath,
    UnsupportedType(Seq<char>),
    UnknownRecord(Seq<char>),
    Route(RouteFault),
}

impl View for DeriveError {
    type V = DeriveFault;

    open spec fn view(&self) -> DeriveFault {
        match self {
            DeriveError::NotAStruct => DeriveFault::NotAStruct,
            DeriveError::FieldsNotNamed => DeriveFault::FieldsNotNamed,
            DeriveError::MissingPath => DeriveFault::MissingPath,
            DeriveError::UnsupportedType(name) => DeriveFault::UnsupportedType(name@),
            DeriveError::UnknownRecord(name) => DeriveFault::UnknownRecord(name@),
            DeriveError::Route(fault) => DeriveFault::Route(fault@),
        }
    }
}

/// The field type that is written `name`.
pub open spec fn kind_named(name: Seq<char>) -> Option<Kind> {
    if name == "u8"@ {
        Some(Kind::U8)
    } else if name == "u16"@ {
        Some(Kind::U16)
    } else if name == "u32"@ {
        Some(Kind::U32)
    } else if name == "u64"@ {
        Some(Kind::U64)
    } else if name == "String"@ {
        Some(Kind::Text)
    } else if name == "bool"@ {
        Some(Kind::Flag)
    } else {
        None
    }
}

/// The field type of a path field: that which the last segment of its type names.
pub open spec fn path_kind(ty: Type) -> Option<Kind> {
    match ty {
        Type::Path(segments, _) => if segments@.len() > 0 {
            kind_named(segments@.last()@)
        } else {
            None
        },
        Type::Other => None,
    }
}

/// The name of the record of a query field: the argument of an `Option`, or the
/// last segment of the type.
pub open spec fn record_name(ty: Type) -> Option<Seq<char>> {
    match ty {
        Type::Path(segments, argument) => if segments@.len() == 0 {
            None
        } else if is_option(ty) {
            text_model(argument)
        } else {
            Some(segments@.last()@)
        },
        Type::Other => None,
    }
}

/// The keys of the first record from `from` on that is named `name`.
pub open spec fn find_record(records: Seq<QueryRecord>, name: Seq<char>, from: int) -> Option<
    Seq<KeyModel>,
>
    decreases records.len() - from,
{
    if from < 0 || from >= records.len() {
        None
    } else if records[from].name@ == name {
        Some(keys_of(records[from].keys@))
    } else {
        find_record(records, name, from + 1)
    }
}

/// Puts `front` before the items of a list that was made without fault.
pub open spec fn after<T>(front: Seq<T>, rest: Result<Seq<T>, Seq<char>>) -> Result<
    Seq<T>,
    Seq<char>,
> {
    match rest {
        Ok(items) => Ok(front + items),
        Err(name) => Err(name),
    }
}

/// The fields from `from` on that do not carry `#[query]`, each with the field
/// type that its type names, or the name of the first whose type names none.
pub open spec fn declared_path_fields(fields: Seq<Field>, from: int) -> Result<
    Seq<PathFieldModel>,
    Seq<char>,
>
    decreases fields.len() - from,
{
    if from < 0 || from >= fields.len() {
        Ok(Seq::empty())
    } else if has_flag("query"@, fields[from].attrs@) {
        declared_path_fields(fields, from + 1)
    } else {
        match path_kind(fields[from].ty) {
            None => Err(fields[from].ident@),
            Some(kind) => after(
                seq![PathFieldModel { name: fields[from].ident@, kind }],
                declared_path_fields(fields, from + 1),
            ),
        }
    }
}

/// The model of the query field that a declared field stands for.
pub open spec fn declared_query_field(field: Field, records: Seq<QueryRecord>) -> Option<
    QueryFieldModel,
> {
    match record_name(field.ty) {
        None => None,
        Some(name) => match find_record(records, name, 0) {
            None => None,
            Some(keys) => Some(
                QueryFieldModel { name: field.ident@, optional: is_option(field.ty), keys },
            ),
        },
    }
}

/// The fields from `from` on that carry `#[query]`, each with the keys of its
/// record, or the name of the first whose record is not among those given.
pub open spec fn declared_query_fields(fields: Seq<Field>, records: Seq<QueryRecord>, from: int) -> Result<
    Seq<QueryFieldModel>,
    Seq<char>,
>
    decreases fields.len() - from,
{
    if from < 0 || from >= fields.len() {
        Ok(Seq::empty())
    } else if !has_flag("query"@, fields[from].attrs@) {
        declared_query_fields(fields, records, from + 1)
    } else {
        match declared_query_field(fields[from], records) {
            None => Err(fields[from].ident@),
            Some(field) => after(seq![field], declared_query_fields(fields, records, from + 1)),
        }
    }
}

/// The route that a declaration stands for: the template is the string of its
/// `path` attribute, the query fields are the fields that carry `#[query]`, the
/// path fields are the others.
pub open spec fn derived(input: DeriveInput, records: Seq<QueryRecord>) -> Result<
    RouteModel,
    DeriveFault,
> {
    match input.data {
        Data::Struct(Fields::Named(fields)) => match string_attr("path"@, input.attrs@, 0) {
            None => Err(DeriveFault::MissingPath),
            Some(template) => match declared_path_fields(fields@, 0) {
                Err(name) => Err(DeriveFault::UnsupportedType(name)),
                Ok(path_fields) => match declared_query_fields(fields@, records, 0) {
                    Err(name) => Err(DeriveFault::UnknownRecord(name)),
                    Ok(query_fields) => match route_of(template, path_fields, query_fields) {
                        Ok(route) => Ok(route),
                        Err(fault) => Err(DeriveFault::Route(fault)),
                    },
                },
            },
        },
        Data::Struct(_) => Err(DeriveFault::FieldsNotNamed),
        _ => Err(DeriveFault::NotAStruct),
    }
}

/// The model of a field type that may be lacking.
pub open spec fn kind_of(kind: Option<FieldType>) -> Option<Kind> {
    match kind {
        Some(k) => Some(k@),
        None => None,
    }
}

fn scalar_type(ty: &Type) -> (kind: Option<FieldType>)
    ensures
        kind_of(kind) == path_kind(*ty),
{
    match ty {
        Type::Path(segments, _) => {
            if segments.len() == 0 {
                return None;
            }
            let name = chars_of(segments[segments.len() - 1].as_str());
            if same_text(&name, &chars_of("u8")) {
                Some(FieldType::U8)
            } else if same_text(&name, &chars_of("u16")) {
                Some(FieldType::U16)
            } else if same_text(&name, &chars_of("u32")) {
                Some(FieldType::U32)
            } else if same_text(&name, &chars_of("u64")) {
                Some(FieldType::U64)
            } else if same_text(&name, &chars_of("String")) {
                Some(FieldType::Text)
            } else if same_text(&name, &chars_of("bool")) {
                Some(FieldType::Flag)
            } else {
                None
            }
        },
        Type::Other => None,
    }
}

fn record_keys(records: &Vec<QueryRecord>, name: &str) -> (keys: Option<Vec<QueryKey>>)
    ensures
        match keys {
            Some(found) => find_record(records@, name@, 0) == Some(keys_of(found@)),
            None => find_record(records@, name@, 0) is None,
        },
{
    let wanted = chars_of(name);
    let mut k: usize = 0;
    while k < records.len()
        invariant
            k <= records.len(),
            wanted@ == name@,
            find_record(records@, name@, 0) == find_record(records@, name@, k as int),
        decreases records.len() - k,
    {
        if same_text(&wanted, &chars_of(records[k].name.as_str())) {
            return Some(copy_keys(&records[k].keys));
        }
        k = k + 1;
    }
    None
}

fn copy_keys(keys: &Vec<QueryKey>) -> (copy: Vec<QueryKey>)
    ensures
        keys_of(copy@) == keys_of(keys@),
{
    let mut copy: Vec<QueryKey> = Vec::new();
    let mut i: usize = 0;
    while i < keys.len()
        invariant
            i <= keys.len(),
            copy@.len() == i,
            forall|k: int| 0 <= k < i ==> (#[trigger] copy@[k])@ == keys@[k]@,
        decreases keys.len() - i,
    {
        let key = &keys[i];
        let kind = copy_type(&key.kind);
        copy.push(QueryKey { name: key.name.clone(), kind, presence: key.presence });
        i = i + 1;
    }
    assert(keys_of(copy@) =~= keys_of(keys@));
    copy
}

fn copy_type(kind: &FieldType) -> (copy: FieldType)
    ensures
        copy@ == kind@,
{
    match kind {
        FieldType::U8 => FieldType::U8,
        FieldType::U16 => FieldType::U16,
        FieldType::U32 => FieldType::U32,
        FieldType::U64 => FieldType::U64,
        FieldType::Text => FieldType::Text,
        FieldType::Flag => FieldType::Flag,
        FieldType::Choice(names) => {
            let mut copy: Vec<String> = Vec::new();
            let mut i: usize = 0;
            while i < names.len()
                invariant
                    i <= names.len(),
                    copy@.len() == i,
                    forall|k: int| 0 <= k < i ==> (#[trigger] copy@[k])@ == names@[k]@,
                decreases names.len() - i,
            {
                copy.push(names[i].clone());
                i = i + 1;
            }
            assert(crate::text::texts_of(copy@) =~= crate::text::texts_of(names@));
            FieldType::Choice(copy)
        },
    }
}

fn query_field_of(field: &Field, records: &Vec<QueryRecord>) -> (made: Option<QueryField>)
    ensures
        match made {
            Some(query_field) => declared_query_field(*field, records@) == Some(query_field@),
            None => declared_query_field(*field, records@) is None,
        },
{
    let optional = field_is_option(field);
    match &field.ty {
        Type::Path(segments, argument) => {
            if segments.len() == 0 {
                return None;
            }
            let keys = if optional {
                match argument {
                    Some(name) => record_keys(records, name.as_str()),
                    None => None,
                }
            } else {
                record_keys(records, segments[segments.len() - 1].as_str())
            };
            match keys {
                Some(keys) => Some(QueryField { name: field.ident.clone(), optional, keys }),
                None => None,
            }
        },
        Type::Other => None,
    }
}

/// Derives the route of a declared record: reads the template from the `path`
/// attribute, takes the fields with `#[query]` as query fields, with the keys of
/// their records, and the others as path fields, and makes the route.
pub fn app_path_derive(input: &DeriveInput, records: &Vec<QueryRecord>) -> (result: Result<
    Route,
    DeriveError,
>)
    ensures
        match result {
            Ok(route) => derived(*input, records@) == Ok::<RouteModel, DeriveFault>(route@)
                && route_ok(route@),
            Err(fault) => derived(*input, records@) == Err::<RouteModel, DeriveFault>(fault@),
        },
{
    match &input.data {
        Data::Struct(Fields::Named(_)) => {},
        Data::Struct(_) => {
            return Err(DeriveError::FieldsNotNamed);
        },
        _ => {
            return Err(DeriveError::NotAStruct);
        },
    }
    let fields = get_struct_fields(&input.data);
    let template = match get_string_attr("path", &input.attrs) {
        Some(template) => template,
        None => {
            return Err(DeriveError::MissingPath);
        },
    };
    let path_fields = match path_fields_in(fields) {
        Ok(path_fields) => path_fields,
        Err(name) => {
            return Err(DeriveError::UnsupportedType(name));
        },
    };
    let query_fields = match query_fields_in(fields, records) {
        Ok(query_fields) => query_fields,
        Err(name) => {
            return Err(DeriveError::UnknownRecord(name));
        },
    };
    match Route::new(template.as_str(), path_fields, query_fields) {
        Ok(route) => Ok(route),
        Err(fault) => Err(DeriveError::Route(fault)),
    }
}

fn path_fields_in(fields: &Vec<Field>) -> (result: Result<Vec<PathField>, String>)
    ensures
        match result {
            Ok(made) => declared_path_fields(fields@, 0) == Ok::<Seq<PathFieldModel>, Seq<char>>(
                path_fields_of(made@),
            ),
            Err(name) => declared_path_fields(fields@, 0) == Err::<Seq<PathFieldModel>, Seq<char>>(
                name@,
            ),
        },
{
    let mut made: Vec<PathField> = Vec::new();
    let mut i: usize = 0;
    assert(Seq::<PathFieldModel>::empty() + declared_path_fields(fields@, 0)->Ok_0
        =~= declared_path_fields(fields@, 0)->Ok_0);
    while i < fields.len()
        invariant
            i <= fields.len(),
            declared_path_fields(fields@, 0) == after(
                path_fields_of(made@),
                declared_path_fields(fields@, i as int),
            ),
        decreases fields.len() - i,
    {
        let field = &fields[i];
        let ghost before = path_fields_of(made@);
        if !has_flag_attr("query", &field.attrs) {
            match scalar_type(&field.ty) {
                None => {
                    return Err(field.ident.clone());
                },
                Some(kind) => {
                    let path_field = PathField { name: field.ident.clone(), kind };
                    let ghost model = path_field@;
                    made.push(path_field);
                    proof {
                        assert(path_fields_of(made@) =~= before.push(model));
                        match declared_path_fields(fields@, i + 1) {
                            Ok(rest) => {
                                assert(before + (seq![model] + rest) =~= before.push(model) + rest);
                            },
                            Err(_) => {},
                        }
                    }
                },
            }
        }
        i = i + 1;
    }
    assert(path_fields_of(made@) + Seq::<PathFieldModel>::empty() =~= path_fields_of(made@));
    Ok(made)
}

fn query_fields_in(fields: &Vec<Field>, records: &Vec<QueryRecord>) -> (result: Result<
    Vec<QueryField>,
    String,
>)
    ensures
        match result {
            Ok(made) => declared_query_fields(fields@, records@, 0) == Ok::<
                Seq<QueryFieldModel>,
                Seq<char>,
            >(query_fields_of(made@)),
            Err(name) => declared_query_fields(fields@, records@, 0) == Err::<
                Seq<QueryFieldModel>,
                Seq<char>,
            >(name@),
        },
{
    let mut made: Vec<QueryField> = Vec::new();
    let mut i: usize = 0;
    assert(Seq::<QueryFieldModel>::empty() + declared_query_fields(fields@, records@, 0)->Ok_0
        =~= declared_query_fields(fields@, records@, 0)->Ok_0);
    while i < fields.len()
        invariant
            i <= fields.len(),
            declared_query_fields(fields@, records@, 0) == after(
                query_fields_of(made@),
                declared_query_fields(fields@, records@, i as int),
            ),
        decreases fields.len() - i,
    {
        let field = &fields[i];
        let ghost before = query_fields_of(made@);
        if has_flag_attr("query", &field.attrs) {
            match query_field_of(field, records) {
                None => {
                    return Err(field.ident.clone());
                },
                Some(query_field) => {
                    let ghost model = query_field@;
                    made.push(query_field);
                    proof {
                        assert(query_fields_of(made@) =~= before.push(model));
                        match declared_query_fields(fields@, records@, i + 1) {
                            Ok(rest) => {
                                assert(before + (seq![model] + rest) =~= before.push(model) + rest);
                            },
                            Err(_) => {},
                        }
                    }
                },
            }
        }
        i = i + 1;
    }
    assert(query_fields_of(made@) + Seq::<QueryFieldModel>::empty() =~= query_fields_of(made@));
    Ok(made)
}

} // verus!
