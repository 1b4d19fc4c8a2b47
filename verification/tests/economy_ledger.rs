use sha2::{Digest, Sha256};
use nexus::economy::ledger::{EconomyLedger, LedgerError, Transaction, TransactionType};
use nexus::economy::token::InsufficientBalance;
use nexus::version_vector::VersionVector;

#[test]
fn test_ledger_creation() {
    let ledger = EconomyLedger::new("node1".to_string(), 1_000_000);
    assert_eq!(ledger.treasury_balance(), 1_000_000);
}

#[test]
fn test_mint_and_transfer() {
    let mut ledger = EconomyLedger::new("node1".to_string(), 1_000_000);

    ledger.mint("alice", 10000).unwrap();
    assert_eq!(ledger.balance("alice"), 10000);

    ledger.transfer("alice", "bob", 1000).unwrap();
    assert_eq!(ledger.balance("alice"), 9000);
    assert_eq!(ledger.balance("bob"), 999);
}

#[test]
fn test_operation_charge() {
    let mut ledger = EconomyLedger::new("node1".to_string(), 1_000_000);

    ledger.mint("alice", 1000).unwrap();
    ledger.charge_operation("alice", "op_123", 10).unwrap();

    assert_eq!(ledger.balance("alice"), 990);
}

#[test]
fn test_service_reward() {
    let mut ledger = EconomyLedger::new("node1".to_string(), 1_000_000);

    let initial_treasury = ledger.treasury_balance();
    ledger.reward_service("alice", "sync_bandwidth", 100).unwrap();

    assert_eq!(ledger.balance("alice"), 100);
    assert_eq!(ledger.treasury_balance(), initial_treasury - 100);
}

#[test]
fn test_ledger_merge() {
    let mut ledger1 = EconomyLedger::new("node1".to_string(), 1_000_000);
    let mut ledger2 = EconomyLedger::new("node2".to_string(), 1_000_000);

    ledger1.mint("alice", 1000).unwrap();
    ledger2.mint("bob", 500).unwrap();

    ledger1.merge(&ledger2);

    assert!(ledger1.balance("alice") >= 0);
    assert!(ledger1.balance("bob") >= 0);
}

#[test]
fn transfer_fee_goes_to_treasury_and_supply_is_kept() {
    let mut ledger = EconomyLedger::new("node1".to_string(), 1_000_000);
    ledger.mint("alice", 10000).unwrap();
    let before = ledger.stats().total_supply;
    assert_eq!(before, 1_010_000);
    ledger.transfer("alice", "bob", 5000).unwrap();
    assert_eq!(ledger.treasury_balance(), 1_000_005);
    assert_eq!(ledger.balance("bob"), 4995);
    assert_eq!(ledger.stats().total_supply, before);
    let stats = ledger.stats();
    assert_eq!(stats.total_accounts, 3);
    assert_eq!(stats.total_transactions, ledger.transaction_count());
}

#[test]
fn small_transfer_has_no_fee() {
    let mut ledger = EconomyLedger::new("n".to_string(), 0);
    ledger.mint("a", 999).unwrap();
    ledger.transfer("a", "b", 999).unwrap();
    assert_eq!(ledger.balance("b"), 999);
    assert_eq!(ledger.treasury_balance(), 0);
}

#[test]
fn refused_requests_change_nothing() {
    let mut ledger = EconomyLedger::new("node1".to_string(), 50);
    ledger.mint("alice", 10).unwrap();
    let count = ledger.transaction_count();
    match ledger.transfer("alice", "bob", 11) {
        Err(LedgerError::InsufficientBalance(e)) => {
            assert_eq!(e, InsufficientBalance { required: 11, available: 10 });
            assert_eq!(e.message(), "Insufficient balance: required 11, available 10");
        }
        other => panic!("unexpected {:?}", other),
    }
    match ledger.charge_operation("carol", "op", 1) {
        Err(LedgerError::InsufficientBalance(e)) => assert_eq!(e.available, 0),
        other => panic!("unexpected {:?}", other),
    }
    match ledger.reward_service("dave", "sync", 51) {
        Err(e) => assert_eq!(e.message(), "Treasury depleted"),
        Ok(_) => panic!("reward beyond the treasury"),
    }
    assert_eq!(ledger.transaction_count(), count);
    assert_eq!(ledger.balance("alice"), 10);
    assert_eq!(ledger.balance("bob"), 0);
}

#[test]
fn history_and_lookup() {
    let mut ledger = EconomyLedger::new("node1".to_string(), 1_000);
    let m = ledger.mint("alice", 100).unwrap();
    let t = ledger.transfer("alice", "bob", 10).unwrap();
    let c = ledger.charge_operation("carol", "op", 0).unwrap();
    assert!(m.starts_with("tx_") && m.len() == 19);
    let tx = ledger.get_transaction(&t).unwrap();
    assert_eq!(tx.amount(), 10);
    assert_eq!(tx.initiator, "alice");
    assert_eq!(tx.dependencies, vec![m.clone()]);
    assert!(ledger.get_transaction("tx_missing").is_none());
    let bob: Vec<String> = ledger.account_history("bob").iter().map(|t| t.id.clone()).collect();
    assert_eq!(bob, vec![t.clone()]);
    let node: Vec<String> = ledger.account_history("node1").iter().map(|t| t.id.clone()).collect();
    assert_eq!(node, vec![m.clone()]);
    let carol: Vec<String> = ledger.account_history("carol").iter().map(|t| t.id.clone()).collect();
    assert_eq!(carol, vec![c]);
}

#[test]
fn merge_is_idempotent_on_transactions() {
    let mut a = EconomyLedger::new("a".to_string(), 10);
    let mut b = EconomyLedger::new("b".to_string(), 10);
    a.mint("x", 1).unwrap();
    b.mint("y", 2).unwrap();
    a.merge(&b);
    assert_eq!(a.transaction_count(), 2);
    a.merge(&b);
    assert_eq!(a.transaction_count(), 2);
    assert_eq!(a.balance("y"), 2);
}

#[test]
fn transaction_id_is_hash_of_kind_initiator_and_time() {
    let t1 = Transaction::new(
        TransactionType::Transfer { from: "a".to_string(), to: "b".to_string(), amount: 5 },
        "a".to_string(),
        VersionVector::new(),
        vec![],
    );
    assert_eq!(t1.amount(), 5);
    assert!(t1.id.starts_with("tx_"));
    assert_eq!(t1.id.len(), 19);
    assert!(t1.id[3..].chars().all(|c| c.is_ascii_hexdigit() && !c.is_ascii_uppercase()));
    assert!(t1.signature.is_empty());
}

#[test]
fn ledger_error_messages() {
    assert_eq!(
        LedgerError::InvalidTransaction("bad".to_string()).message(),
        "Invalid transaction: bad"
    );
}

#[test]
fn transaction_id_matches_sha256_of_preimage() {
    let kind = TransactionType::OperationFee { operation_id: "op \"1\"".to_string(), amount: 42 };
    let t = Transaction::new(kind.clone(), "alice".to_string(), VersionVector::new(), vec![]);
    let mut hasher = Sha256::new();
    hasher.update(format!("{:?}", kind).as_bytes());
    hasher.update("alice".as_bytes());
    hasher.update(t.timestamp.to_le_bytes());
    let expected = format!("tx_{}", &format!("{:x}", hasher.finalize())[..16]);
    assert_eq!(t.id, expected);
}
