use ironstream::{
    close_connection, heartbeat_frame, open_connection, AppState, PeerFrame, ReceiverAction,
    RecvOutcome, SenderAction, SenderEvent, HEARTBEAT_INTERVAL_MS,
};

fn test_state() -> AppState {
    AppState::new(
        "admin".to_string(),
        "https://example.com".to_string(),
        10,
        1000,
    )
}

#[test]
fn heartbeat_is_ping_every_eighty_seconds() {
    assert_eq!(HEARTBEAT_INTERVAL_MS, 80_000);
    assert_eq!(heartbeat_frame(), "ping");
    assert!(matches!(
        ironstream::sender_step(SenderEvent::HeartbeatTick),
        SenderAction::SendPing
    ));
}

#[test]
fn sender_forwards_deliveries_verbatim_and_absorbs_lag() {
    let got = ironstream::sender_step(SenderEvent::Delivery(RecvOutcome::Msg(
        "{\"a\":1}".to_string(),
    )));
    assert!(matches!(got, SenderAction::SendText(s) if s == "{\"a\":1}"));
    assert!(matches!(
        ironstream::sender_step(SenderEvent::Delivery(RecvOutcome::Lagged(3))),
        SenderAction::Continue
    ));
    assert!(matches!(
        ironstream::sender_step(SenderEvent::Delivery(RecvOutcome::Empty)),
        SenderAction::Continue
    ));
    assert!(matches!(
        ironstream::sender_step(SenderEvent::Delivery(RecvOutcome::Gone)),
        SenderAction::Exit
    ));
}

#[test]
fn receiver_discards_frames_until_close_or_error() {
    assert!(matches!(
        ironstream::receiver_step(PeerFrame::Other),
        ReceiverAction::Continue
    ));
    assert!(matches!(
        ironstream::receiver_step(PeerFrame::Close),
        ReceiverAction::Exit
    ));
    assert!(matches!(
        ironstream::receiver_step(PeerFrame::ReadError),
        ReceiverAction::Exit
    ));
}

#[test]
fn open_connection_mints_a_valid_id_and_registers() {
    let mut state = test_state();
    let (id, rid) = open_connection(
        &mut state,
        "room1",
        "127.0.0.1:8080".to_string(),
        Some("Test Agent".to_string()),
        vec![("k".to_string(), "v".to_string())],
    )
    .unwrap();
    assert_eq!(id.len(), 8);
    assert!(id
        .chars()
        .all(|c| "ABCDEFGHJKLMNPQRSTUVWXYZ23456789".contains(c)));
    assert_eq!(state.clients.len(), 1);

    // The fresh receiver sees the next publish.
    state.channels.publish("room1", "hi".to_string(), 5);
    assert!(matches!(state.channels.recv("room1", rid), RecvOutcome::Msg(m) if m == "hi"));
}

#[test]
fn close_connection_is_tolerant_of_prior_removal() {
    let mut state = test_state();
    let (id, rid) = open_connection(
        &mut state,
        "room1",
        "127.0.0.1:8080".to_string(),
        None,
        Vec::new(),
    )
    .unwrap();
    // An admin disconnect may have removed the record already.
    let payload = ironstream::DisconnectPayload {
        id: id.clone(),
        channel: "room1".to_string(),
    };
    assert!(ironstream::disconnect_user(&mut state, &payload).is_ok());
    assert_eq!(state.clients.len(), 0);
    // Teardown still runs cleanly and detaches the receiver.
    close_connection(&mut state, "room1", &id, rid);
    assert_eq!(state.clients.len(), 0);
    assert!(matches!(state.channels.recv("room1", rid), RecvOutcome::Gone));
}
