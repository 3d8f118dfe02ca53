use ironstream::{
    canonicalize_json, decode_auth_reply, encode_auth_envelope, encode_string_object,
};

#[test]
fn envelope_is_framed_exactly() {
    let headers = vec![("user-agent".to_string(), "Test Client/1.0".to_string())];
    let body = encode_auth_envelope("room1", "secret", "1.2.3.4:5678", &headers);
    assert_eq!(
        body,
        "{\"channel\":\"room1\",\"token\":\"secret\",\"ip\":\"1.2.3.4:5678\",\
         \"headers\":{\"user-agent\":\"Test Client/1.0\"}}"
    );
}

#[test]
fn envelope_escapes_special_characters() {
    let headers: Vec<(String, String)> = Vec::new();
    let body = encode_auth_envelope("a\"b", "c\\d", "e\nf", &headers);
    assert_eq!(
        body,
        "{\"channel\":\"a\\\"b\",\"token\":\"c\\\\d\",\"ip\":\"e\\nf\",\"headers\":{}}"
    );
}

#[test]
fn string_object_escapes_control_characters() {
    let pairs = vec![(
        "key".to_string(),
        "tab\there bell\u{7} and\u{1f}unit".to_string(),
    )];
    let out = encode_string_object(&pairs);
    assert_eq!(
        out,
        "{\"key\":\"tab\\there bell\\u0007 and\\u001funit\"}"
    );
}

#[test]
fn envelope_matches_what_serde_would_emit() {
    // The framed body must be JSON that serde_json parses back to the
    // same fields.
    let headers = vec![("x-test".to_string(), "v\"quoted\"".to_string())];
    let body = encode_auth_envelope("c", "t", "1.2.3.4:1", &headers);
    let v: serde_json::Value = serde_json::from_str(&body).unwrap();
    assert_eq!(v.get("channel").unwrap().as_str(), Some("c"));
    assert_eq!(v.get("token").unwrap().as_str(), Some("t"));
    assert_eq!(v.get("ip").unwrap().as_str(), Some("1.2.3.4:1"));
    assert_eq!(
        v.get("headers").unwrap().get("x-test").unwrap().as_str(),
        Some("v\"quoted\"")
    );
}

#[test]
fn canonicalize_rewrites_whitespace_and_rejects_garbage() {
    assert_eq!(
        canonicalize_json("[1, 2 ,  3]").as_deref(),
        Some("[1,2,3]")
    );
    assert_eq!(
        canonicalize_json("{ \"a\" : true }").as_deref(),
        Some("{\"a\":true}")
    );
    assert_eq!(canonicalize_json("{bad"), None);
    assert_eq!(canonicalize_json(""), None);
}

#[test]
fn auth_reply_decodes_flag_and_metadata() {
    let r = decode_auth_reply("{\"ok\":true,\"metadata\":{\"k\":\"v\"}}").unwrap();
    assert!(r.ok);
    assert_eq!(r.metadata, vec![("k".to_string(), "v".to_string())]);

    let r = decode_auth_reply("{\"ok\":false,\"metadata\":{}}").unwrap();
    assert!(!r.ok);
    assert!(r.metadata.is_empty());
}

#[test]
fn auth_reply_rejects_malformed_shapes() {
    assert!(decode_auth_reply("not json").is_none());
    assert!(decode_auth_reply("{\"ok\":true}").is_none());
    assert!(decode_auth_reply("{\"metadata\":{}}").is_none());
    assert!(decode_auth_reply("{\"ok\":\"yes\",\"metadata\":{}}").is_none());
    assert!(decode_auth_reply("{\"ok\":true,\"metadata\":{\"k\":42}}").is_none());
    assert!(decode_auth_reply("{\"ok\":true,\"metadata\":null}").is_none());
}

#[test]
fn auth_reply_tolerates_extra_fields() {
    let r = decode_auth_reply("{\"ok\":true,\"metadata\":{},\"extra\":[1,2]}").unwrap();
    assert!(r.ok);
}
