use haske_core::crypto::{
    generate_random_bytes, hash_password, sign_cookie, verify_cookie, verify_password,
};

#[test]
fn cookie_roundtrip() {
    let token = sign_cookie("secret", "session=42");
    assert_eq!(verify_cookie("secret", &token), Some("session=42".to_string()));
}

#[test]
fn cookie_shape_is_two_base64url_parts() {
    let token = sign_cookie("k", "payload");
    let parts: Vec<&str> = token.split('.').collect();
    assert_eq!(parts.len(), 2);
    assert!(!parts[0].is_empty());
    assert!(!parts[1].is_empty());
}

#[test]
fn cookie_rejects_wrong_secret() {
    let token = sign_cookie("secret", "data");
    assert_eq!(verify_cookie("other", &token), None);
}

#[test]
fn cookie_rejects_tampering() {
    let token = sign_cookie("secret", "data");
    let mut tampered = token.clone();
    let first = tampered.remove(0);
    let replacement = if first == 'A' { 'B' } else { 'A' };
    tampered.insert(0, replacement);
    assert_eq!(verify_cookie("secret", &tampered), None);
}

#[test]
fn cookie_rejects_wrong_shape() {
    assert_eq!(verify_cookie("secret", "no-dot-here"), None);
    assert_eq!(verify_cookie("secret", "a.b.c"), None);
    assert_eq!(verify_cookie("secret", "!!!.@@@"), None);
    assert_eq!(verify_cookie("secret", ""), None);
}

#[test]
fn password_hash_roundtrip_with_given_salt() {
    let salt = vec![1u8; 16];
    let (hash, used_salt) = hash_password("hunter2", Some(salt.clone()));
    assert_eq!(used_salt, salt);
    assert_eq!(hash.len(), 32);
    assert!(verify_password("hunter2", &hash, &salt));
    assert!(!verify_password("hunter3", &hash, &salt));
    assert!(!verify_password("hunter2", &hash, &[2u8; 16]));
}

#[test]
fn password_hash_generates_salt_when_missing() {
    let (hash, salt) = hash_password("pw", None);
    assert_eq!(hash.len(), 32);
    assert_eq!(salt.len(), 16);
    assert!(verify_password("pw", &hash, &salt));
}

#[test]
fn random_bytes_have_requested_length() {
    assert_eq!(generate_random_bytes(0).len(), 0);
    assert_eq!(generate_random_bytes(16).len(), 16);
    assert_eq!(generate_random_bytes(1000).len(), 1000);
}
