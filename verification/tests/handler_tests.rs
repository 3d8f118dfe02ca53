use ironstream::{
    admin_auth, connect_at, disconnect_user, stats_handler, webhook_publish_at, ws_admission,
    ApiError, AppState, AuthCallResult, DisconnectPayload, RecvOutcome, interpret_auth_reply,
};

fn test_state() -> AppState {
    AppState::new(
        "test_admin_token".to_string(),
        "https://example.com".to_string(),
        10,
        1000,
    )
}

fn add_test_client(state: &mut AppState) -> u64 {
    connect_at(
        state,
        "test-channel",
        "TEST123".to_string(),
        "127.0.0.1:8080".to_string(),
        Some("Test Agent".to_string()),
        Vec::new(),
        0,
    )
    .expect("fresh id must register")
}

#[test]
fn test_admin_auth_success() {
    let result = admin_auth(Some("test_admin_token"), "test_admin_token");
    assert!(result.is_ok());
}

#[test]
fn test_admin_auth_failure() {
    let result = admin_auth(Some("wrong_token"), "test_admin_token");
    assert!(result.is_err());
    assert_eq!(result.unwrap_err(), ApiError::Unauthorised);
}

#[test]
fn test_admin_auth_missing_header() {
    let result = admin_auth(None, "test_admin_token");
    assert!(result.is_err());
    assert_eq!(result.unwrap_err(), ApiError::Unauthorised);
}

#[test]
fn admin_token_mismatch_is_unauthorized() {
    // Config admin_token "AAA"; the caller supplies "BBB".
    let result = admin_auth(Some("BBB"), "AAA");
    let err = result.unwrap_err();
    assert_eq!(err, ApiError::Unauthorised);
    assert_eq!(err.http_status(), 401);
    assert_eq!(err.code(), "UNAUTHORIZED");
}

#[test]
fn test_stats_handler() {
    let mut state = test_state();
    for _ in 0..5 {
        state
            .channels
            .publish("test-channel", "payload".to_string(), 7);
    }
    add_test_client(&mut state);

    let (channels, clients) = stats_handler(&state);
    assert_eq!(channels.len(), 1);
    assert_eq!(clients.len(), 1);
    assert_eq!(channels[0].channel_id, "test-channel");
    assert_eq!(channels[0].messages, 5);
    assert_eq!(clients[0].id, "TEST123");
    assert_eq!(clients[0].ip, "127.0.0.1:8080");
    assert_eq!(clients[0].user_agent.as_deref(), Some("Test Agent"));
    assert_eq!(clients[0].channels, vec!["test-channel".to_string()]);
}

#[test]
fn test_disconnect_user_success() {
    let mut state = test_state();
    add_test_client(&mut state);

    let payload = DisconnectPayload {
        id: "TEST123".to_string(),
        channel: "test-channel".to_string(),
    };
    let result = disconnect_user(&mut state, &payload);
    assert!(result.is_ok());
    assert_eq!(state.clients.len(), 0);
}

#[test]
fn test_disconnect_user_not_found() {
    let mut state = test_state();
    let payload = DisconnectPayload {
        id: "NONEXIST".to_string(),
        channel: "test-channel".to_string(),
    };
    let result = disconnect_user(&mut state, &payload);
    assert!(result.is_err());
    assert_eq!(result.unwrap_err(), ApiError::NotFound);
}

#[test]
fn admin_detach_is_not_found_the_second_time() {
    let mut state = test_state();
    add_test_client(&mut state);
    let before = state.clients.len();

    let payload = DisconnectPayload {
        id: "TEST123".to_string(),
        channel: "test-channel".to_string(),
    };
    assert!(disconnect_user(&mut state, &payload).is_ok());
    assert_eq!(state.clients.len(), before - 1);

    let again = disconnect_user(&mut state, &payload);
    let err = again.unwrap_err();
    assert_eq!(err, ApiError::NotFound);
    assert_eq!(err.http_status(), 404);
    assert_eq!(err.code(), "NOT_FOUND");
}

#[test]
fn test_ws_handler_bad_query() {
    let mut state = test_state();
    let result = ws_admission(&mut state, None, "127.0.0.1:8080", 0);
    assert!(result.is_err());
    assert_eq!(result.unwrap_err(), ApiError::BadRequest);
}

#[test]
fn ws_admission_rejects_empty_channel_or_token() {
    let mut state = test_state();
    let q = ironstream::WsQuery {
        channel: "".to_string(),
        token: "t".to_string(),
    };
    assert_eq!(
        ws_admission(&mut state, Some(&q), "1.2.3.4:5", 0).unwrap_err(),
        ApiError::BadRequest
    );
    let q = ironstream::WsQuery {
        channel: "c".to_string(),
        token: "".to_string(),
    };
    assert_eq!(
        ws_admission(&mut state, Some(&q), "1.2.3.4:5", 0).unwrap_err(),
        ApiError::BadRequest
    );
}

#[test]
fn test_ws_handler_auth_failure() {
    // The upstream authenticator answers a readable refusal.
    let result = interpret_auth_reply(AuthCallResult::Reply {
        status: 200,
        body: "{\"ok\":false,\"metadata\":{}}".to_string(),
    });
    assert!(result.is_err());
    assert_eq!(result.unwrap_err(), ApiError::Unauthorised);
}

#[test]
fn auth_refusal_is_unauthorized() {
    let err = interpret_auth_reply(AuthCallResult::Reply {
        status: 200,
        body: "{\"ok\":false,\"metadata\":{}}".to_string(),
    })
    .unwrap_err();
    assert_eq!(err.http_status(), 401);
    assert_eq!(err.code(), "UNAUTHORIZED");
}

#[test]
fn auth_transport_outcomes_map_to_distinct_errors() {
    assert_eq!(
        interpret_auth_reply(AuthCallResult::Unreachable).unwrap_err(),
        ApiError::UpstreamUnavailable
    );
    assert_eq!(
        interpret_auth_reply(AuthCallResult::Reply {
            status: 502,
            body: "{\"ok\":true,\"metadata\":{}}".to_string(),
        })
        .unwrap_err(),
        ApiError::UpstreamUnavailable
    );
    assert_eq!(
        interpret_auth_reply(AuthCallResult::Reply {
            status: 200,
            body: "not json at all".to_string(),
        })
        .unwrap_err(),
        ApiError::UpstreamMalformed
    );
    let ok = interpret_auth_reply(AuthCallResult::Reply {
        status: 200,
        body: "{\"ok\":true,\"metadata\":{\"plan\":\"gold\"}}".to_string(),
    })
    .unwrap();
    assert_eq!(ok, vec![("plan".to_string(), "gold".to_string())]);
}

#[test]
fn publish_reaches_subscriber_with_exact_canonical_bytes() {
    let mut state = test_state();
    let rid = connect_at(
        &mut state,
        "room1",
        "SUBSCRIB".to_string(),
        "9.9.9.9:1".to_string(),
        None,
        Vec::new(),
        0,
    )
    .unwrap();

    // The body arrives with extra whitespace; subscribers get the
    // canonical serialisation.
    let result = webhook_publish_at(
        &mut state,
        "room1",
        Some("test_admin_token"),
        Some("application/json"),
        "{ \"hello\" : \"world\" }",
        42,
    );
    let sent_to = result.unwrap();
    assert_eq!(sent_to, vec!["SUBSCRIB".to_string()]);
    assert!(
        matches!(state.channels.recv("room1", rid), RecvOutcome::Msg(m) if m == "{\"hello\":\"world\"}")
    );
}

#[test]
fn webhook_rejects_bad_admin_token() {
    let mut state = test_state();
    let err = webhook_publish_at(
        &mut state,
        "room1",
        Some("nope"),
        Some("application/json"),
        "{}",
        0,
    )
    .unwrap_err();
    assert_eq!(err, ApiError::Unauthorised);
}

#[test]
fn webhook_wrong_content_type_is_unsupported_media_type() {
    let mut state = test_state();
    let err = webhook_publish_at(
        &mut state,
        "room1",
        Some("test_admin_token"),
        Some("text/plain"),
        "{\"hello\":\"world\"}",
        0,
    )
    .unwrap_err();
    assert_eq!(err, ApiError::UnsupportedMediaType);
    assert_eq!(err.http_status(), 415);
    assert_eq!(err.code(), "UNSUPPORTED_MEDIA_TYPE");
}

#[test]
fn webhook_malformed_body_is_bad_request() {
    let mut state = test_state();
    let err = webhook_publish_at(
        &mut state,
        "room1",
        Some("test_admin_token"),
        Some("application/json"),
        "{not json",
        0,
    )
    .unwrap_err();
    assert_eq!(err, ApiError::BadRequest);
    assert_eq!(err.http_status(), 400);
}

#[test]
fn duplicate_connection_id_is_rejected() {
    let mut state = test_state();
    add_test_client(&mut state);
    let second = connect_at(
        &mut state,
        "other-channel",
        "TEST123".to_string(),
        "8.8.8.8:9".to_string(),
        None,
        Vec::new(),
        1,
    );
    assert!(second.is_none());
    assert_eq!(state.clients.len(), 1);
}
