use rs_frame::decode::{Decoded, PathParseErr};
use rs_frame::query::{Presence, QueryKey};
use rs_frame::route::{PathField, QueryField, Route};
use rs_frame::value::{FieldType, Value};

fn path_field(name: &str, kind: FieldType) -> PathField {
    PathField { name: name.to_string(), kind }
}

fn key(name: &str, kind: FieldType, presence: Presence) -> QueryKey {
    QueryKey { name: name.to_string(), kind, presence }
}

fn query_field(name: &str, optional: bool, keys: Vec<QueryKey>) -> QueryField {
    QueryField { name: name.to_string(), optional, keys }
}

fn text(s: &str) -> Value {
    Value::Text(s.to_string())
}

// struct UsersListPath {}
fn users_list_path() -> Route {
    Route::new("/users", vec![], vec![]).unwrap()
}

#[test]
fn no_params() {
    let path = users_list_path().decode("/users").unwrap();
    assert_eq!(path, Decoded { path: vec![], query: vec![] });
}

#[test]
fn trailing_slash() {
    let path = users_list_path().decode("/users/");
    match path {
        Err(PathParseErr::NoMatches) => {}
        _ => assert!(false),
    }
}

#[test]
fn no_leading_slash() {
    let path = users_list_path().decode("users");
    match path {
        Err(PathParseErr::NoMatches) => {}
        _ => assert!(false),
    }
}

// struct UserDetailPath { user_id: u64 }
fn user_detail_path() -> Route {
    Route::new("/users/:user_id", vec![path_field("user_id", FieldType::U64)], vec![]).unwrap()
}

#[test]
fn one_param() {
    let path = user_detail_path().decode("/users/642151").unwrap();
    assert_eq!(path, Decoded { path: vec![Value::Number(642151)], query: vec![] });
}

#[test]
fn invalid_param_type() {
    let path = user_detail_path().decode("/users/not_a_u64");
    match path {
        Err(PathParseErr::ParamParseErr(_)) => {}
        _ => assert!(false),
    }
}

#[test]
fn one_param_no_leading_slash() {
    let path = user_detail_path().decode("users/4216");
    match path {
        Err(PathParseErr::NoMatches) => {}
        _ => assert!(false),
    }
}

// struct UserFriendDetailPath { user_id: u64, friend_name: String }
fn user_friend_detail_path() -> Route {
    Route::new(
        "/users/:user_id/friends/:friend_name",
        vec![path_field("user_id", FieldType::U64), path_field("friend_name", FieldType::Text)],
        vec![],
    )
    .unwrap()
}

#[test]
fn two_params() {
    let path = user_friend_detail_path().decode("/users/612451/friends/steve").unwrap();
    assert_eq!(
        path,
        Decoded { path: vec![Value::Number(612451), text("steve")], query: vec![] }
    );
}

#[test]
fn two_params_utf8_1() {
    let path = user_friend_detail_path().decode("/users/612451/friends/田中").unwrap();
    assert_eq!(
        path,
        Decoded { path: vec![Value::Number(612451), text("田中")], query: vec![] }
    );
}

#[test]
fn two_params_utf8_2() {
    let path = user_friend_detail_path().decode("/users/612451/friends/🌮🌮🌮").unwrap();
    assert_eq!(
        path,
        Decoded { path: vec![Value::Number(612451), text("🌮🌮🌮")], query: vec![] }
    );
}

// struct UserListQuery { limit: Option<u64>, offset: Option<u64>, keyword: Option<String>,
//                        friends_only: bool (false where the key is absent) }
fn user_list_query() -> Vec<QueryKey> {
    vec![
        key("limit", FieldType::U64, Presence::Optional),
        key("offset", FieldType::U64, Presence::Optional),
        key("keyword", FieldType::Text, Presence::Optional),
        key("friends_only", FieldType::Flag, Presence::Defaulted),
    ]
}

// struct UsersListWithQuery { query: UserListQuery }
fn users_list_with_query() -> Route {
    Route::new("/users", vec![], vec![query_field("query", false, user_list_query())]).unwrap()
}

#[test]
fn no_params_simple_query_required() {
    let path = users_list_with_query().decode("/users");
    match path {
        Err(PathParseErr::NoQueryString) => {}
        _ => assert!(false),
    }
}

#[test]
fn no_params_simple_query() {
    let path = users_list_with_query().decode("/users?friends_only=true").unwrap();
    assert_eq!(
        path,
        Decoded {
            path: vec![],
            query: vec![Some(vec![
                Value::Missing,
                Value::Missing,
                Value::Missing,
                Value::Flag(true),
            ])],
        }
    );
}

#[test]
fn no_params_simple_query_missing_bool_field() {
    let path = users_list_with_query().decode("/users?").unwrap();
    assert_eq!(
        path,
        Decoded {
            path: vec![],
            query: vec![Some(vec![
                Value::Missing,
                Value::Missing,
                Value::Missing,
                Value::Flag(false),
            ])],
        }
    );
}

#[test]
fn no_params_simple_query_invalid_type() {
    let path = users_list_with_query().decode("/users?offset=test");
    match path {
        Err(PathParseErr::QueryParseErr(_)) => {}
        _ => assert!(false),
    }
}

#[test]
fn no_params_simple_query_all_defined() {
    let path = users_list_with_query()
        .decode("/users?offset=10&limit=20&friends_only=false&keyword=some_keyword")
        .unwrap();
    assert_eq!(
        path,
        Decoded {
            path: vec![],
            query: vec![Some(vec![
                Value::Number(20),
                Value::Number(10),
                text("some_keyword"),
                Value::Flag(false),
            ])],
        }
    );
}

#[test]
fn no_params_simple_query_url_decoding() {
    let path = users_list_with_query().decode("/users?keyword=some%20keyword%20with%20ampersand-question-equals-stuff%26%3F%3d%3a%3b%40%23%25%5e%5b%5d%7b%7D%60%22%3c%3e%E6%97%A5%E6%9C%AC%E8%AA%9E").unwrap();
    assert_eq!(
        path,
        Decoded {
            path: vec![],
            query: vec![Some(vec![
                Value::Missing,
                Value::Missing,
                text("some keyword with ampersand-question-equals-stuff&?=:;@#%^[]{}`\"<>日本語"),
                Value::Flag(false),
            ])],
        }
    );
}

// struct UserDetailExtraPath { user_id: u8, query: Option<UserListQuery> }
fn user_detail_extra_path() -> Route {
    Route::new(
        "/users/:user_id",
        vec![path_field("user_id", FieldType::U8)],
        vec![query_field("query", true, user_list_query())],
    )
    .unwrap()
}

#[test]
fn one_param_optional_query_missing() {
    let path = user_detail_extra_path().decode("/users/8").unwrap();
    assert_eq!(path, Decoded { path: vec![Value::Number(8)], query: vec![None] });
}

#[test]
fn one_param_optional_query_present() {
    let path = user_detail_extra_path().decode("/users/8?limit=55").unwrap();
    assert_eq!(
        path,
        Decoded {
            path: vec![Value::Number(8)],
            query: vec![Some(vec![
                Value::Number(55),
                Value::Missing,
                Value::Missing,
                Value::Flag(false),
            ])],
        }
    );
}

#[test]
fn one_param_num_out_of_range() {
    let path = user_detail_extra_path().decode("/users/256");
    match path {
        Err(PathParseErr::ParamParseErr(_)) => {}
        _ => assert!(false),
    }
}

// enum SortDirection { Asc, Desc }, written in lower case
fn sort_direction() -> FieldType {
    FieldType::Choice(vec!["asc".to_string(), "desc".to_string()])
}

// struct SubmissionsQuery { column: Option<String>, direction: Option<SortDirection>,
//                           keyword: Option<String> }
fn submissions_query() -> Vec<QueryKey> {
    vec![
        key("column", FieldType::Text, Presence::Optional),
        key("direction", sort_direction(), Presence::Optional),
        key("keyword", FieldType::Text, Presence::Optional),
    ]
}

// struct LimitOffsetQuery { limit: Option<u64>, offset: Option<u64> }
fn limit_offset_query() -> Vec<QueryKey> {
    vec![
        key("limit", FieldType::U64, Presence::Optional),
        key("offset", FieldType::U64, Presence::Optional),
    ]
}

// struct ExpiredSubmissionsPath { project_id: String, exam_id: u64,
//                                 query: Option<SubmissionsQuery>, limit: Option<LimitOffsetQuery> }
fn expired_submissions_path() -> Route {
    Route::new(
        "/p/:project_id/exams/:exam_id/submissions_expired",
        vec![path_field("project_id", FieldType::Text), path_field("exam_id", FieldType::U64)],
        vec![
            query_field("query", true, submissions_query()),
            query_field("limit", true, limit_offset_query()),
        ],
    )
    .unwrap()
}

#[test]
fn test_no_query() {
    let path = expired_submissions_path().decode("/p/43/exams/10/submissions_expired").unwrap();
    assert_eq!(
        path,
        Decoded { path: vec![text("43"), Value::Number(10)], query: vec![None, None] }
    );
}

#[test]
fn test_only_question_mark() {
    let path = expired_submissions_path().decode("/p/43/exams/10/submissions_expired?").unwrap();
    assert_eq!(
        path,
        Decoded {
            path: vec![text("43"), Value::Number(10)],
            query: vec![
                Some(vec![Value::Missing, Value::Missing, Value::Missing]),
                Some(vec![Value::Missing, Value::Missing]),
            ],
        }
    );
}
