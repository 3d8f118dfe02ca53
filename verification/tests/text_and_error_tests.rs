use ironstream::{eq_str, token_matches, ApiError};

#[test]
fn string_equality_by_characters() {
    assert!(eq_str("", ""));
    assert!(eq_str("room1", "room1"));
    assert!(!eq_str("room1", "room2"));
    assert!(!eq_str("room", "room1"));
    assert!(eq_str("naïve", "naïve"));
}

#[test]
fn token_comparison_matches_equality() {
    assert!(token_matches("AAA", "AAA"));
    assert!(!token_matches("BBB", "AAA"));
    assert!(!token_matches("AA", "AAA"));
    assert!(!token_matches("AAB", "AAA"));
    assert!(token_matches("", ""));
}

#[test]
fn every_error_kind_has_its_code_and_status() {
    let table = [
        (ApiError::BadRequest, "BAD_REQUEST", 400),
        (ApiError::Unauthorised, "UNAUTHORIZED", 401),
        (ApiError::NotFound, "NOT_FOUND", 404),
        (ApiError::UnsupportedMediaType, "UNSUPPORTED_MEDIA_TYPE", 415),
        (ApiError::TooManyRequests, "TOO_MANY_REQUESTS", 429),
        (ApiError::UpstreamUnavailable, "SERVICE_UNAVAILABLE", 503),
        (ApiError::UpstreamMalformed, "INTERNAL_SERVER_ERROR", 500),
    ];
    for (err, code, status) in table {
        assert_eq!(err.code(), code);
        assert_eq!(err.http_status(), status);
    }
}
