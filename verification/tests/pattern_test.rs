use rs_frame::matcher::path_to_regex;
use rs_frame::pattern::PathToRegexError;

#[test]
fn test_path_to_regex() {
    let regex = path_to_regex("/p/:project_id/exams/:exam_id/submissions_expired").unwrap();
    assert_eq!(
        regex,
        r"^/p/(?P<project_id>[^/]+)/exams/(?P<exam_id>[^/]+)/submissions_expired$"
    );
}

#[test]
fn test_path_to_regex_no_path_params() {
    let regex = path_to_regex("/p/exams/submissions_expired").unwrap();
    assert_eq!(regex, r"^/p/exams/submissions_expired$");
}

#[test]
fn test_path_to_regex_no_leading_slash() {
    let regex = path_to_regex("p/exams/submissions_expired");
    assert_eq!(regex, Err(PathToRegexError::MissingLeadingForwardSlash));
}

#[test]
fn test_path_to_regex_non_ascii_chars() {
    let regex = path_to_regex("ðŸ¥–pðŸ¥–:project_idðŸ¥–examsðŸ¥–:exam_idðŸ¥–submissions_expired");
    assert_eq!(regex, Err(PathToRegexError::NonAsciiChars));
}

#[test]
fn test_path_to_regex_invalid_ident() {
    let regex = path_to_regex("/p/:project_id/exams/:exam*ID/submissions_expired");
    assert_eq!(
        regex,
        Err(PathToRegexError::InvalidIdentifier("exam*ID".to_string()))
    );

    let regex = path_to_regex("/p/:project_id/exams/:_exam_id/submissions_expired");
    assert_eq!(
        regex,
        Err(PathToRegexError::InvalidIdentifier("_exam_id".to_string()))
    );
}

#[test]
fn test_path_to_regex_invalid_ending() {
    let regex = path_to_regex("/p/:project_id/exams/:exam_id/submissions_expired/");
    assert_eq!(regex, Err(PathToRegexError::InvalidTrailingSlash));
}
