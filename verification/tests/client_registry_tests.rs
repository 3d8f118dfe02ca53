use ironstream::{ApiError, ClientData, ClientRegistry};

fn record(id: &str, channels: &[&str]) -> ClientData {
    ClientData {
        id: id.to_string(),
        ip: "127.0.0.1:8080".to_string(),
        user_agent: None,
        channels: channels.iter().map(|c| c.to_string()).collect(),
        connected_at: 0,
        metadata: Vec::new(),
    }
}

#[test]
fn register_rejects_a_duplicate_id() {
    let mut reg = ClientRegistry::new();
    assert!(reg.register(record("AAAA1111", &["a"])));
    assert!(!reg.register(record("AAAA1111", &["b"])));
    assert_eq!(reg.len(), 1);
}

#[test]
fn remove_is_idempotent() {
    let mut reg = ClientRegistry::new();
    assert!(reg.register(record("AAAA1111", &["a"])));
    reg.remove("AAAA1111");
    assert_eq!(reg.len(), 0);
    reg.remove("AAAA1111");
    assert_eq!(reg.len(), 0);
}

#[test]
fn detach_removes_one_channel_then_the_record() {
    let mut reg = ClientRegistry::new();
    assert!(reg.register(record("AAAA1111", &["a", "b"])));
    assert!(reg.detach("AAAA1111", "a").is_ok());
    // Still registered: one channel left.
    assert_eq!(reg.len(), 1);
    // Detaching the detached channel again is NotFound.
    assert_eq!(reg.detach("AAAA1111", "a").unwrap_err(), ApiError::NotFound);
    // Detaching the last channel removes the record entirely.
    assert!(reg.detach("AAAA1111", "b").is_ok());
    assert_eq!(reg.len(), 0);
    assert_eq!(reg.detach("AAAA1111", "b").unwrap_err(), ApiError::NotFound);
}

#[test]
fn detach_unknown_id_is_not_found() {
    let mut reg = ClientRegistry::new();
    assert_eq!(reg.detach("NOPE", "a").unwrap_err(), ApiError::NotFound);
}

#[test]
fn ids_in_channel_reports_subscribers_in_order() {
    let mut reg = ClientRegistry::new();
    assert!(reg.register(record("AAAA1111", &["x"])));
    assert!(reg.register(record("BBBB2222", &["y"])));
    assert!(reg.register(record("CCCC3333", &["x", "y"])));
    assert_eq!(
        reg.ids_in_channel("x"),
        vec!["AAAA1111".to_string(), "CCCC3333".to_string()]
    );
    assert_eq!(
        reg.ids_in_channel("y"),
        vec!["BBBB2222".to_string(), "CCCC3333".to_string()]
    );
    assert!(reg.ids_in_channel("z").is_empty());
}

#[test]
fn snapshot_reflects_every_field() {
    let mut reg = ClientRegistry::new();
    let mut rec = record("AAAA1111", &["a"]);
    rec.user_agent = Some("Agent".to_string());
    rec.connected_at = 77;
    rec.metadata = vec![("k".to_string(), "v".to_string())];
    assert!(reg.register(rec));
    let snap = reg.snapshot();
    assert_eq!(snap.len(), 1);
    assert_eq!(snap[0].id, "AAAA1111");
    assert_eq!(snap[0].ip, "127.0.0.1:8080");
    assert_eq!(snap[0].user_agent.as_deref(), Some("Agent"));
    assert_eq!(snap[0].channels, vec!["a".to_string()]);
    assert_eq!(snap[0].connected_at, 77);
    assert_eq!(snap[0].metadata, vec![("k".to_string(), "v".to_string())]);
}
