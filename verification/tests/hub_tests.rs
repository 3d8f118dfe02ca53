use ironstream::{ChannelRegistry, RecvOutcome, RING_CAPACITY};

#[test]
fn subscriber_sees_messages_in_publish_order() {
    let mut channels = ChannelRegistry::new();
    let rid = channels.subscribe("room1");
    channels.publish("room1", "first".to_string(), 1);
    channels.publish("room1", "second".to_string(), 2);
    assert!(matches!(channels.recv("room1", rid), RecvOutcome::Msg(m) if m == "first"));
    assert!(matches!(channels.recv("room1", rid), RecvOutcome::Msg(m) if m == "second"));
    assert!(matches!(channels.recv("room1", rid), RecvOutcome::Empty));
}

#[test]
fn receiver_created_after_publish_sees_nothing_earlier() {
    let mut channels = ChannelRegistry::new();
    channels.publish("room1", "early".to_string(), 1);
    let rid = channels.subscribe("room1");
    assert!(matches!(channels.recv("room1", rid), RecvOutcome::Empty));
}

#[test]
fn ring_overflow_drops_oldest_for_stalled_subscriber() {
    let mut channels = ChannelRegistry::new();
    let stalled = channels.subscribe("room1");
    let keen = channels.subscribe("room1");
    for k in 0..RING_CAPACITY {
        channels.publish("room1", format!("m{}", k), k as i64);
    }
    // The keen subscriber drains everything; the stalled one reads nothing.
    for k in 0..RING_CAPACITY {
        let want = format!("m{}", k);
        assert!(matches!(channels.recv("room1", keen), RecvOutcome::Msg(m) if m == want));
    }
    // One more publish than the ring holds: the oldest message is gone
    // for the stalled subscriber; the keen one is unaffected.
    channels.publish("room1", "overflow".to_string(), 99);
    assert!(matches!(channels.recv("room1", stalled), RecvOutcome::Lagged(1)));
    assert!(matches!(channels.recv("room1", stalled), RecvOutcome::Msg(m) if m == "m1"));
    assert!(matches!(channels.recv("room1", keen), RecvOutcome::Msg(m) if m == "overflow"));
}

#[test]
fn message_count_counts_only_publishes() {
    let mut channels = ChannelRegistry::new();
    // Creation on subscribe starts at zero.
    channels.subscribe("by-subscribe");
    // Creation on publish starts at one: the publish that created it.
    channels.publish("by-publish", "x".to_string(), 1);
    for _ in 0..4 {
        channels.publish("by-publish", "y".to_string(), 2);
    }
    let stats = channels.stats();
    let by_subscribe = stats.iter().find(|s| s.channel_id == "by-subscribe").unwrap();
    let by_publish = stats.iter().find(|s| s.channel_id == "by-publish").unwrap();
    assert_eq!(by_subscribe.messages, 0);
    assert_eq!(by_subscribe.connections, 1);
    assert_eq!(by_subscribe.last_message, None);
    assert_eq!(by_publish.messages, 5);
    assert_eq!(by_publish.connections, 0);
    assert_eq!(by_publish.last_message, Some(2));
}

#[test]
fn recv_on_unknown_channel_or_receiver_is_gone() {
    let mut channels = ChannelRegistry::new();
    assert!(matches!(channels.recv("nowhere", 0), RecvOutcome::Gone));
    channels.subscribe("room1");
    assert!(matches!(channels.recv("room1", 999), RecvOutcome::Gone));
}

#[test]
fn unsubscribe_detaches_one_receiver() {
    let mut channels = ChannelRegistry::new();
    let a = channels.subscribe("room1");
    let b = channels.subscribe("room1");
    channels.unsubscribe("room1", a);
    channels.publish("room1", "x".to_string(), 1);
    assert!(matches!(channels.recv("room1", a), RecvOutcome::Gone));
    assert!(matches!(channels.recv("room1", b), RecvOutcome::Msg(m) if m == "x"));
    let stats = channels.stats();
    assert_eq!(stats[0].connections, 1);
}
