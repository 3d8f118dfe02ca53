use ironstream::{check_rate_limit, ws_admission, ApiError, AppState, RateLimiter, WsQuery};

#[test]
fn rate_limit_denies_the_third_of_three_quick_requests() {
    // Config: two requests per five-second window.
    let mut state = AppState::new(
        "admin".to_string(),
        "https://example.com".to_string(),
        2,
        5000,
    );
    let q = WsQuery {
        channel: "x".to_string(),
        token: "y".to_string(),
    };
    // Three requests from one address within one second.
    assert!(ws_admission(&mut state, Some(&q), "1.2.3.4:1000", 0).is_ok());
    assert!(ws_admission(&mut state, Some(&q), "1.2.3.4:1000", 400).is_ok());
    let third = ws_admission(&mut state, Some(&q), "1.2.3.4:1000", 900);
    let err = third.unwrap_err();
    assert_eq!(err, ApiError::TooManyRequests);
    assert_eq!(err.http_status(), 429);
    assert_eq!(err.code(), "TOO_MANY_REQUESTS");
}

#[test]
fn rate_limit_resets_after_the_window_elapses() {
    let mut limiter = RateLimiter::new(2, 5000);
    assert!(limiter.check("1.2.3.4:1000", 0));
    assert!(limiter.check("1.2.3.4:1000", 10));
    assert!(!limiter.check("1.2.3.4:1000", 20));
    // Still inside the window: denied.
    assert!(!limiter.check("1.2.3.4:1000", 4999));
    // The window has elapsed: the counter starts over.
    assert!(limiter.check("1.2.3.4:1000", 5000));
    assert!(limiter.check("1.2.3.4:1000", 5001));
    assert!(!limiter.check("1.2.3.4:1000", 5002));
}

#[test]
fn rate_limit_tracks_addresses_independently() {
    let mut limiter = RateLimiter::new(1, 1000);
    assert!(limiter.check("1.1.1.1:1", 0));
    assert!(!limiter.check("1.1.1.1:1", 1));
    assert!(limiter.check("2.2.2.2:2", 2));
}

#[test]
fn rate_limit_via_state_maps_denial() {
    let mut state = AppState::new(
        "admin".to_string(),
        "https://example.com".to_string(),
        1,
        1000,
    );
    assert!(check_rate_limit(&mut state, "5.6.7.8:9", 0).is_ok());
    assert_eq!(
        check_rate_limit(&mut state, "5.6.7.8:9", 1).unwrap_err(),
        ApiError::TooManyRequests
    );
}
