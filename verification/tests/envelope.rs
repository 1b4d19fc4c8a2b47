use nexus::causal_op::CausalOp;
use nexus::envelope::{EnvelopeError, KeyDerivation, KeyScope, SovereignEnvelope};
use nexus::json::Json;
use nexus::version_vector::VersionVector;
use sha2::{Digest, Sha256};

fn create_test_op() -> CausalOp {
    let keypair = [3u8; 32];
    let mut vv = VersionVector::new();
    vv.increment("node1");
    CausalOp::new(
        "test".to_string(),
        Json::Object(vec![("data".to_string(), Json::String("secret".to_string()))]),
        vec![],
        vv,
        "node1".to_string(),
        &keypair,
    )
}

#[test]
fn test_key_derivation() {
    let mut kd = KeyDerivation::from_passphrase("my-secret", "doc123".to_string());

    let key1 = kd.derive_key(KeyScope::FullDocument, 0).unwrap();
    let key2 = kd.derive_key(KeyScope::ReadOnly, 0).unwrap();

    assert_ne!(key1.key_bytes, key2.key_bytes);

    assert!(kd.get_key(&key1.key_id).is_some());
}

#[test]
fn test_seal_unseal() {
    let mut kd = KeyDerivation::from_passphrase("my-secret", "doc123".to_string());
    let key = kd.derive_key(KeyScope::FullDocument, 0).unwrap();

    let op = create_test_op();

    let envelope = SovereignEnvelope::seal(&op, &key, "doc123".to_string()).unwrap();

    assert_eq!(envelope.metadata.operation_id, op.id);

    let decrypted = envelope.unseal(&key).unwrap();
    let value: serde_json::Value = serde_json::from_slice(&decrypted).unwrap();
    assert_eq!(value["id"], serde_json::Value::String(op.id.clone()));
}

#[test]
fn test_wrong_key() {
    let mut kd = KeyDerivation::from_passphrase("my-secret", "doc123".to_string());
    let key1 = kd.derive_key(KeyScope::FullDocument, 0).unwrap();
    let key2 = kd.derive_key(KeyScope::ReadOnly, 0).unwrap();

    let op = create_test_op();
    let envelope = SovereignEnvelope::seal(&op, &key1, "doc123".to_string()).unwrap();

    let result = envelope.unseal(&key2);
    assert!(matches!(result, Err(EnvelopeError::WrongKey)));
}

#[test]
fn test_key_revocation() {
    let mut kd = KeyDerivation::from_passphrase("my-secret", "doc123".to_string());
    let key = kd.derive_key(KeyScope::FullDocument, 0).unwrap();

    assert!(kd.get_key(&key.key_id).is_some());

    kd.revoke_key(&key.key_id);

    assert!(kd.get_key(&key.key_id).is_none());
}

#[test]
fn derived_key_matches_its_formula() {
    let mut kd = KeyDerivation::from_passphrase("pw", "doc".to_string());
    let salt = [9u8; 16];
    let k = kd.derive_key_with_salt(KeyScope::Section("intro".to_string()), 5, &salt);

    let master = Sha256::digest(b"pwdoccausalux-master-key-v1");
    let scope_json = b"{\"Section\":\"intro\"}";
    let mut h = Sha256::new();
    h.update(b"doc");
    h.update(scope_json);
    h.update(salt);
    let id = format!("key_{:x}", h.finalize())[..24].to_string();
    assert_eq!(k.key_id, id);

    let mut h = Sha256::new();
    h.update(master);
    h.update(id.as_bytes());
    h.update(scope_json);
    let bytes: [u8; 32] = h.finalize().into();
    assert_eq!(k.key_bytes, bytes);
    assert_eq!(k.expires_at, 5);
    assert_eq!(k.scope, KeyScope::Section("intro".to_string()));
}

#[test]
fn scope_json_texts() {
    assert_eq!(KeyScope::FullDocument.to_json(), "\"FullDocument\"");
    assert_eq!(KeyScope::ReadOnly.to_json(), "\"ReadOnly\"");
    assert_eq!(KeyScope::Temporary { until: 42 }.to_json(), "{\"Temporary\":{\"until\":42}}");
}

#[test]
fn key_validity_follows_expiry() {
    let mut kd = KeyDerivation::new([1u8; 32], "d".to_string());
    let forever = kd.derive_key(KeyScope::ReadOnly, 0).unwrap();
    let old = kd.derive_key(KeyScope::ReadOnly, 1).unwrap();
    let later = kd.derive_key(KeyScope::ReadOnly, 100).unwrap();
    assert!(kd.is_key_valid(&forever.key_id));
    assert!(!kd.is_key_valid(&old.key_id));
    assert!(!kd.is_key_valid("missing"));
    assert!(kd.is_key_valid_at(&later.key_id, 99));
    assert!(!kd.is_key_valid_at(&later.key_id, 100));
    assert!(kd.revoke_key(&later.key_id));
    assert!(!kd.revoke_key(&later.key_id));
    assert!(!kd.is_key_valid_at(&later.key_id, 0));
}

#[test]
fn tampered_envelope_fails_integrity() {
    let mut kd = KeyDerivation::from_passphrase("my-secret", "doc123".to_string());
    let key = kd.derive_key(KeyScope::FullDocument, 0).unwrap();
    let op = create_test_op();
    let mut envelope = SovereignEnvelope::seal_with_nonce(&op, &key, "doc123".to_string(), [7u8; 12]).unwrap();
    assert_eq!(envelope.version, 1);
    assert_eq!(envelope.nonce, [7u8; 12]);
    assert_eq!(envelope.metadata.timestamp, op.wall_clock);
    assert_eq!(envelope.ciphertext.len(), op.to_json().len());
    assert_eq!(envelope.unseal(&key).unwrap(), op.to_json().into_bytes());
    envelope.ciphertext[0] ^= 1;
    assert!(matches!(envelope.unseal(&key), Err(EnvelopeError::IntegrityFailure)));
    assert_eq!(EnvelopeError::IntegrityFailure.message(), "Envelope integrity check failed (authentication tag mismatch)");
}

#[test]
fn operation_json_parses_back() {
    let op = create_test_op();
    let value: serde_json::Value = serde_json::from_str(&op.to_json()).unwrap();
    assert_eq!(value["operation"], "test");
    assert_eq!(value["input"]["data"], "secret");
    assert_eq!(value["version_vector"]["versions"]["node1"], 1);
    assert_eq!(value["lamport_clock"], 1);
    assert_eq!(value["signature"].as_array().unwrap().len(), 64);
}
