use kronox::error::ApiError;

#[test]
fn bad_request_is_400_with_its_message() {
    let (status, body) = ApiError::BadRequest("missing".to_owned()).into_parts();
    assert_eq!(status, 400);
    assert_eq!(body.error, "missing");
    assert!(body.allowed_schools.is_none());
    assert!(body.retry_after.is_none());
}

#[test]
fn unknown_school_lists_the_allowed_ones() {
    let (status, body) = ApiError::UnknownSchool(vec!["hkr".to_owned(), "mau".to_owned()]).into_parts();
    assert_eq!(status, 400);
    assert_eq!(body.error, "unknown school");
    assert_eq!(body.allowed_schools, Some(vec!["hkr".to_owned(), "mau".to_owned()]));
    assert!(body.retry_after.is_none());
}

#[test]
fn upstream_is_503_with_a_retry_hint() {
    let (status, body) = ApiError::Upstream.into_parts();
    assert_eq!(status, 503);
    assert_eq!(body.error, "upstream unavailable");
    assert_eq!(body.retry_after.as_deref(), Some("300"));
    assert!(body.allowed_schools.is_none());
}

#[test]
fn internal_is_500() {
    let (status, body) = ApiError::Internal.into_parts();
    assert_eq!(status, 500);
    assert_eq!(body.error, "internal error");
}
