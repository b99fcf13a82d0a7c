use dim_core::credentials::{hash, verify};

#[test]
fn hash_is_deterministic() {
    let a = hash("alice".to_string(), "hunter2".to_string());
    let b = hash("alice".to_string(), "hunter2".to_string());
    assert_eq!(a, b);
}

#[test]
fn verify_accepts_the_hashed_secret() {
    let digest = hash("alice".to_string(), "hunter2".to_string());
    assert!(verify("alice".to_string(), digest, "hunter2".to_string()));
}

#[test]
fn verify_rejects_a_wrong_secret() {
    let digest = hash("alice".to_string(), "hunter2".to_string());
    assert!(!verify("alice".to_string(), digest, "hunter3".to_string()));
}

#[test]
fn verify_rejects_under_a_different_salt() {
    let digest = hash("alice".to_string(), "hunter2".to_string());
    assert!(!verify("bob".to_string(), digest, "hunter2".to_string()));
}

#[test]
fn equal_secrets_under_different_identities_do_not_collide() {
    let a = hash("alice".to_string(), "hunter2".to_string());
    let b = hash("bob".to_string(), "hunter2".to_string());
    assert_ne!(a, b);
}

#[test]
fn digest_is_base64_of_32_bytes() {
    let digest = hash("alice".to_string(), "hunter2".to_string());
    assert_eq!(digest.len(), 44);
    assert!(digest.ends_with('='));
}

#[test]
fn malformed_digest_fails_closed() {
    assert!(!verify("alice".to_string(), "not base64 at all!!".to_string(), "x".to_string()));
    assert!(!verify("alice".to_string(), "".to_string(), "x".to_string()));
}

#[test]
fn non_canonical_digest_fails_closed() {
    // Same bytes, padding stripped: not the canonical stored form.
    let digest = hash("alice".to_string(), "hunter2".to_string());
    let stripped = digest.trim_end_matches('=').to_string();
    assert!(!verify("alice".to_string(), stripped, "hunter2".to_string()));
}
