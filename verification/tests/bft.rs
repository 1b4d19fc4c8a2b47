use ed25519_dalek::SigningKey;
use nexus::bft::{BFTError, BFTValidator, ValidationResult, ValidatorKey, ValidatorSignature};
use nexus::causal_op::CausalOp;
use nexus::json::Json;
use nexus::version_vector::VersionVector;
use std::time::Duration;

fn key(seed: u8) -> [u8; 32] {
    [seed; 32]
}

fn public(k: &[u8; 32]) -> [u8; 32] {
    SigningKey::from_bytes(k).verifying_key().to_bytes()
}

fn validator(k: &[u8; 32]) -> ValidatorKey {
    ValidatorKey { id: CausalOp::derive_identity(&public(k)), public_key: public(k), priority: 1 }
}

fn an_op() -> CausalOp {
    let mut vv = VersionVector::new();
    vv.increment("n");
    CausalOp::new("edit".to_string(), Json::Null, vec![], vv, "n".to_string(), &key(99))
}

#[test]
fn test_bft_creation() {
    let keys: Vec<[u8; 32]> = (0..4).map(key).collect();
    let bft = BFTValidator::new(keys.iter().map(validator).collect(), 1, Duration::from_secs(30)).unwrap();
    assert_eq!(bft.quorum_size(), 3);
    assert!(bft.is_enabled());
    assert_eq!(bft.validator_count(), 4);
}

#[test]
fn test_insufficient_validators() {
    let keys: Vec<[u8; 32]> = (0..2).map(key).collect();
    let r = BFTValidator::new(keys.iter().map(validator).collect(), 1, Duration::from_secs(30));
    assert!(matches!(r, Err(BFTError::InsufficientValidators)));
}

#[test]
fn test_disabled_bft() {
    let mut bft = BFTValidator::disabled();
    assert!(!bft.is_enabled());
    let sig = ValidatorSignature::new("v".to_string(), "op".to_string(), &key(1));
    assert!(matches!(bft.add_validator_signature(sig), Ok(ValidationResult::PassThrough)));
}

#[test]
fn test_validator_signature() {
    let k = key(3);
    let sig = ValidatorSignature::new("validator1".to_string(), "op123".to_string(), &k);
    assert!(sig.verify(&public(&k)));
    assert!(!sig.verify(&public(&key(4))));
}

#[test]
fn quorum_of_signatures_validates() {
    let keys: Vec<[u8; 32]> = (10..14).map(key).collect();
    let mut bft = BFTValidator::new(keys.iter().map(validator).collect(), 1, Duration::from_secs(30)).unwrap();
    let op = an_op();
    let op_id = op.id.clone();
    bft.submit_for_validation(op.copy()).unwrap();
    assert!(matches!(bft.submit_for_validation(op), Err(BFTError::AlreadyPending)));
    assert_eq!(bft.pending_count(), 1);
    let mut results = Vec::new();
    for k in keys.iter().take(3) {
        bft.set_validator_keypair(k.clone());
        let sig = bft.sign_operation(&op_id).unwrap();
        if results.is_empty() {
            let again = sig.clone();
            results.push(bft.add_validator_signature(sig));
            assert!(matches!(bft.add_validator_signature(again), Err(BFTError::DuplicateSignature)));
        } else {
            results.push(bft.add_validator_signature(sig));
        }
    }
    assert!(matches!(results[0], Ok(ValidationResult::Pending { current: 1, required: 3 })));
    assert!(matches!(results[1], Ok(ValidationResult::Pending { current: 2, required: 3 })));
    match &results[2] {
        Ok(ValidationResult::Validated(v)) => assert_eq!(v.id, op_id),
        _ => panic!("expected validation"),
    }
    assert_eq!(bft.pending_count(), 0);
}

#[test]
fn signatures_from_strangers_are_refused() {
    let keys: Vec<[u8; 32]> = (20..23).map(key).collect();
    let mut bft = BFTValidator::new(keys.iter().map(validator).collect(), 1, Duration::from_secs(30)).unwrap();
    let op = an_op();
    let op_id = op.id.clone();
    let stranger = ValidatorSignature::new("nobody".to_string(), op_id.clone(), &key(50));
    assert!(matches!(bft.add_validator_signature(stranger.clone()), Err(BFTError::OperationNotPending)));
    bft.submit_for_validation(op).unwrap();
    assert!(matches!(bft.add_validator_signature(stranger), Err(BFTError::UnknownValidator)));
    let forged = ValidatorSignature::new(validator(&keys[0]).id, op_id.clone(), &key(51));
    assert!(matches!(bft.add_validator_signature(forged), Err(BFTError::InvalidSignature)));
    bft.set_validator_keypair(key(60));
    assert!(matches!(bft.sign_operation(&op_id), Err(BFTError::NotAValidator)));
    assert!(bft.check_timeouts().is_empty());
    assert!(bft.remove_validator(&validator(&keys[0]).id));
    assert_eq!(bft.validator_count(), 2);
}

#[test]
fn future_operations_are_refused() {
    let keys: Vec<[u8; 32]> = (30..33).map(key).collect();
    let mut bft = BFTValidator::new(keys.iter().map(validator).collect(), 1, Duration::from_secs(30)).unwrap();
    let mut op = an_op();
    op.wall_clock = u64::MAX - 1;
    assert!(matches!(bft.submit_for_validation(op), Err(BFTError::TimestampManipulation)));
    assert!(nexus::bft::check_timestamp(1_300_000, 1_000_000));
    assert!(!nexus::bft::check_timestamp(1_300_001, 1_000_000));
}

#[test]
fn a_validator_node_signs_and_its_signature_counts() {
    let keys: Vec<[u8; 32]> = (40..43).map(key).collect();
    let mut bft = BFTValidator::new(keys.iter().map(validator).collect(), 1, Duration::from_secs(30)).unwrap();
    let op = an_op();
    let op_id = op.id.clone();
    bft.submit_for_validation(op).unwrap();
    bft.set_validator_keypair(keys[1]);
    let sig = bft.sign_operation(&op_id).unwrap();
    assert_eq!(sig.validator_id, validator(&keys[1]).id);
    assert!(sig.verify(&public(&keys[1])));
    assert!(matches!(bft.add_validator_signature(sig), Ok(ValidationResult::Pending { current: 1, required: 3 })));
}
