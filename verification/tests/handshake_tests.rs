use haske_core::handshake::websocket_accept_key;

#[test]
fn accept_key_known_vector() {
    assert_eq!(
        websocket_accept_key("dGhlIHNhbXBsZSBub25jZQ=="),
        "s3pPLMBiTxaQ9kYGzzhZRbK+xOo="
    );
}

#[test]
fn accept_key_is_deterministic_and_padded() {
    let a = websocket_accept_key("abc");
    let b = websocket_accept_key("abc");
    assert_eq!(a, b);
    assert_eq!(a.len(), 28);
    assert!(a.ends_with('='));
    let other = websocket_accept_key("abd");
    assert_ne!(a, other);
}
