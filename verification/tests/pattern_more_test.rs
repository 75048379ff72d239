use rs_frame::identifier::check_identifier;
use rs_frame::matcher::{path_to_regex, Matcher};
use rs_frame::pattern::{compile_segments, PathToRegexError, Segment};

#[test]
fn identifier_rule() {
    assert!(check_identifier("a"));
    assert!(check_identifier("exam_id"));
    assert!(check_identifier("Z9_"));
    assert!(!check_identifier(""));
    assert!(!check_identifier("_exam_id"));
    assert!(!check_identifier("9lives"));
    assert!(!check_identifier("exam*ID"));
    assert!(!check_identifier("exam id"));
    assert!(!check_identifier("exam\n"));
    assert!(!check_identifier("ünneve"));
}

#[test]
fn empty_template_lacks_its_leading_slash() {
    assert_eq!(path_to_regex(""), Err(PathToRegexError::MissingLeadingForwardSlash));
}

#[test]
fn bare_slash_is_a_trailing_slash() {
    assert_eq!(path_to_regex("/"), Err(PathToRegexError::InvalidTrailingSlash));
}

#[test]
fn slash_after_a_placeholder_is_a_trailing_slash() {
    assert_eq!(path_to_regex("/users/:user_id/"), Err(PathToRegexError::InvalidTrailingSlash));
}

#[test]
fn name_at_the_end_is_checked_too() {
    assert_eq!(
        path_to_regex("/users/:1st"),
        Err(PathToRegexError::InvalidIdentifier("1st".to_string()))
    );
    assert_eq!(path_to_regex("/users/:"), Err(PathToRegexError::InvalidIdentifier("".to_string())));
}

#[test]
fn name_at_the_end_closes_the_pattern() {
    assert_eq!(path_to_regex("/users/:user_id").unwrap(), r"^/users/(?P<user_id>[^/]+)$");
}

#[test]
fn invalid_name_comes_before_trailing_slash() {
    assert_eq!(
        path_to_regex("/users/:_id/"),
        Err(PathToRegexError::InvalidIdentifier("_id".to_string()))
    );
}

#[test]
fn non_ascii_comes_before_everything() {
    assert_eq!(path_to_regex("users/:näme/"), Err(PathToRegexError::NonAsciiChars));
}

#[test]
fn colon_inside_a_name_breaks_it() {
    assert_eq!(
        path_to_regex("/users/:a:b/x"),
        Err(PathToRegexError::InvalidIdentifier("a:b".to_string()))
    );
}

#[test]
fn segments_of_a_template() {
    let segments = compile_segments("/p/:project_id/exams/:exam_id/submissions_expired").unwrap();
    assert_eq!(
        segments,
        vec![
            Segment::Literal("/p/".to_string()),
            Segment::Capture("project_id".to_string()),
            Segment::Literal("/exams/".to_string()),
            Segment::Capture("exam_id".to_string()),
            Segment::Literal("/submissions_expired".to_string()),
        ]
    );
}

#[test]
fn placeholder_may_start_inside_a_segment() {
    let segments = compile_segments("/v:major/x").unwrap();
    assert_eq!(
        segments,
        vec![
            Segment::Literal("/v".to_string()),
            Segment::Capture("major".to_string()),
            Segment::Literal("/x".to_string()),
        ]
    );
}

#[test]
fn match_gives_the_values_in_order() {
    let matcher = Matcher::compile("/p/:project_id/exams/:exam_id/submissions_expired").unwrap();
    assert_eq!(
        matcher.captures("/p/43/exams/10/submissions_expired"),
        Some(vec!["43".to_string(), "10".to_string()])
    );
}

#[test]
fn match_takes_the_whole_path() {
    let matcher = Matcher::compile("/users/:user_id").unwrap();
    assert_eq!(matcher.captures("/users/7/friends"), None);
    assert_eq!(matcher.captures("/users/7/"), None);
    assert_eq!(matcher.captures("/users/"), None);
    assert_eq!(matcher.captures("/users"), None);
    assert_eq!(matcher.captures("x/users/7"), None);
    assert_eq!(matcher.captures(""), None);
    assert_eq!(matcher.captures("/users/7"), Some(vec!["7".to_string()]));
}

#[test]
fn own_paths_match_with_any_values() {
    let matcher = Matcher::compile("/a/:x/b/:y").unwrap();
    for x in ["1", "steve", "田中", "a b", "?", ":z"] {
        for y in ["2", "🌮🌮🌮", "%2F", "-"] {
            let path = format!("/a/{}/b/{}", x, y);
            assert_eq!(matcher.captures(&path), Some(vec![x.to_string(), y.to_string()]));
            assert_eq!(matcher.captures(&format!("{}/", path)), None);
        }
    }
}

#[test]
fn slot_counts_placeholders_only() {
    let matcher = Matcher::compile("/a/:x/b/:y").unwrap();
    assert_eq!(matcher.slot("x"), Some(0));
    assert_eq!(matcher.slot("y"), Some(1));
    assert_eq!(matcher.slot("z"), None);
    assert_eq!(matcher.slot("a"), None);
}

#[test]
fn pattern_of_a_matcher() {
    let matcher = Matcher::compile("/a/:x/b").unwrap();
    assert_eq!(matcher.path_pattern(), r"^/a/(?P<x>[^/]+)/b$");
}
