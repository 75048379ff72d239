use rs_frame::declaration::{
    app_path_derive, field_is_option, get_string_attr, get_struct_fields, has_flag_attr, Attribute,
    Data, DeriveError, DeriveInput, Field, Fields, Nested, QueryRecord, Type,
};
use rs_frame::decode::{Decoded, PathParseErr};
use rs_frame::pattern::PathToRegexError;
use rs_frame::query::{Presence, QueryKey};
use rs_frame::route::RouteError;
use rs_frame::sort::SortDirection;
use rs_frame::value::{FieldType, Value};

fn word(name: &str) -> Attribute {
    Attribute::Word(name.to_string())
}

fn path_attr(template: &str) -> Attribute {
    Attribute::List("path".to_string(), vec![Nested::Str(template.to_string())])
}

fn plain(name: &str) -> Type {
    Type::Path(vec![name.to_string()], None)
}

fn option_of(name: &str) -> Type {
    Type::Path(vec!["Option".to_string()], Some(name.to_string()))
}

fn field(ident: &str, attrs: Vec<Attribute>, ty: Type) -> Field {
    Field { ident: ident.to_string(), attrs, ty }
}

fn key(name: &str, kind: FieldType) -> QueryKey {
    QueryKey { name: name.to_string(), kind, presence: Presence::Optional }
}

fn records() -> Vec<QueryRecord> {
    vec![
        QueryRecord {
            name: "SubmissionsQuery".to_string(),
            keys: vec![
                key("column", FieldType::Text),
                key("direction", SortDirection::field_type()),
                key("keyword", FieldType::Text),
            ],
        },
        QueryRecord {
            name: "LimitOffsetQuery".to_string(),
            keys: vec![key("limit", FieldType::U64), key("offset", FieldType::U64)],
        },
    ]
}

fn expired_submissions_path(template: &str) -> DeriveInput {
    DeriveInput {
        ident: "ExpiredSubmissionsPath".to_string(),
        attrs: vec![word("derive"), path_attr(template)],
        data: Data::Struct(Fields::Named(vec![
            field("project_id", vec![], plain("String")),
            field(
                "query",
                vec![word("query")],
                Type::Path(
                    vec!["std".to_string(), "option".to_string(), "Option".to_string()],
                    Some("SubmissionsQuery".to_string()),
                ),
            ),
            field("exam_id", vec![], plain("u64")),
            field("limit", vec![word("query")], option_of("LimitOffsetQuery")),
            field("required_query", vec![word("query")], plain("LimitOffsetQuery")),
        ])),
    }
}

#[test]
fn flag_is_a_bare_word() {
    let attrs = vec![path_attr("query"), Attribute::Other, word("query")];
    assert!(has_flag_attr("query", &attrs));
    assert!(!has_flag_attr("path", &attrs));
    assert!(!has_flag_attr("query", &vec![]));
    assert!(!has_flag_attr("query", &vec![Attribute::List("query".to_string(), vec![])]));
}

#[test]
fn string_of_a_list_attribute() {
    let attrs = vec![
        word("path"),
        Attribute::List("path".to_string(), vec![Nested::Other]),
        Attribute::List("other".to_string(), vec![Nested::Str("/no".to_string())]),
        Attribute::List(
            "path".to_string(),
            vec![Nested::Other, Nested::Str("/yes".to_string()), Nested::Str("/late".to_string())],
        ),
        path_attr("/later"),
    ];
    assert_eq!(get_string_attr("path", &attrs), Some("/yes".to_string()));
    assert_eq!(get_string_attr("other", &attrs), Some("/no".to_string()));
    assert_eq!(get_string_attr("query", &attrs), None);
    assert_eq!(get_string_attr("path", &vec![]), None);
}

#[test]
fn fields_of_a_struct() {
    let fields = vec![field("a", vec![], plain("u8"))];
    let data = Data::Struct(Fields::Named(fields.clone()));
    assert_eq!(get_struct_fields(&data), &fields);
}

#[test]
fn option_is_told_by_the_last_segment() {
    assert!(field_is_option(&field("a", vec![], option_of("Page"))));
    assert!(field_is_option(&field(
        "a",
        vec![],
        Type::Path(vec!["std".to_string(), "option".to_string(), "Option".to_string()], None)
    )));
    assert!(!field_is_option(&field("a", vec![], plain("u64"))));
    assert!(!field_is_option(&field("a", vec![], plain("option"))));
    assert!(!field_is_option(&field("a", vec![], Type::Path(vec![], None))));
    assert!(!field_is_option(&field("a", vec![], Type::Other)));
}

#[test]
fn route_of_a_declared_record() {
    let input = expired_submissions_path("/p/:project_id/exams/:exam_id/submissions_expired");
    let route = app_path_derive(&input, &records()).unwrap();
    assert_eq!(
        route.decode("/p/22/exams/10/submissions_expired?limit=20&keyword=test"),
        Ok(Decoded {
            path: vec![Value::Text("22".to_string()), Value::Number(10)],
            query: vec![
                Some(vec![Value::Missing, Value::Missing, Value::Text("test".to_string())]),
                Some(vec![Value::Number(20), Value::Missing]),
                Some(vec![Value::Number(20), Value::Missing]),
            ],
        })
    );
    assert_eq!(route.decode("/p/43/exams/10/submissions_expired"), Err(PathParseErr::NoQueryString));
}

#[test]
fn declaration_must_be_a_struct_with_named_fields() {
    let mut input = expired_submissions_path("/p");
    input.data = Data::Enum;
    assert_eq!(app_path_derive(&input, &records()).err(), Some(DeriveError::NotAStruct));
    input.data = Data::Union;
    assert_eq!(app_path_derive(&input, &records()).err(), Some(DeriveError::NotAStruct));
    input.data = Data::Struct(Fields::Unit);
    assert_eq!(app_path_derive(&input, &records()).err(), Some(DeriveError::FieldsNotNamed));
    input.data = Data::Struct(Fields::Unnamed);
    assert_eq!(app_path_derive(&input, &records()).err(), Some(DeriveError::FieldsNotNamed));
}

#[test]
fn declaration_must_name_its_path() {
    let mut input = expired_submissions_path("/p");
    input.attrs = vec![word("path")];
    assert_eq!(app_path_derive(&input, &records()).err(), Some(DeriveError::MissingPath));
}

#[test]
fn declaration_must_use_types_that_are_known() {
    let input = DeriveInput {
        ident: "Odd".to_string(),
        attrs: vec![path_attr("/odd/:when/:what")],
        data: Data::Struct(Fields::Named(vec![
            field("what", vec![], plain("u16")),
            field("when", vec![], plain("Instant")),
        ])),
    };
    assert_eq!(
        app_path_derive(&input, &records()).err(),
        Some(DeriveError::UnsupportedType("when".to_string()))
    );
    let input = DeriveInput {
        ident: "Odd".to_string(),
        attrs: vec![path_attr("/odd")],
        data: Data::Struct(Fields::Named(vec![field("page", vec![word("query")], option_of("Page"))])),
    };
    assert_eq!(
        app_path_derive(&input, &records()).err(),
        Some(DeriveError::UnknownRecord("page".to_string()))
    );
}

#[test]
fn declaration_must_give_a_route() {
    let input = expired_submissions_path("/p/:project_id/exams/:exam_id/submissions_expired/");
    assert_eq!(
        app_path_derive(&input, &records()).err(),
        Some(DeriveError::Route(RouteError::Template(PathToRegexError::InvalidTrailingSlash)))
    );
    let input = expired_submissions_path("/p/:project_id/exams");
    assert_eq!(
        app_path_derive(&input, &records()).err(),
        Some(DeriveError::Route(RouteError::UnknownCapture("exam_id".to_string())))
    );
}
