use nexus::economy::token::{CausalToken, TokenBalance};

#[test]
fn test_token_creation() {
    let token = CausalToken::new("node1", 1000);
    assert_eq!(token.balance(), 1000);
}

#[test]
fn test_credit_debit() {
    let mut token = CausalToken::new("node1", 100);

    token.credit(50);
    assert_eq!(token.balance(), 150);

    token.debit(30).unwrap();
    assert_eq!(token.balance(), 120);
}

#[test]
fn test_insufficient_balance() {
    let mut token = CausalToken::new("node1", 10);
    let result = token.debit(100);
    assert!(result.is_err());
}

#[test]
fn test_token_merge() {
    let mut token1 = CausalToken::new("node1", 100);
    let mut token2 = CausalToken::new("node2", 50);

    token1.credit(20);
    token2.credit(30);

    token1.merge(&token2);
    // After merge: 100 + 20 (node1) + 50 + 30 (node2) = 200
    assert_eq!(token1.balance(), 200);
}

#[test]
fn test_balance_tracker() {
    let mut tracker = TokenBalance::new("node1".to_string());

    tracker.credit("alice", 1000);
    tracker.credit("bob", 500);

    assert_eq!(tracker.balance("alice"), 1000);
    assert_eq!(tracker.balance("bob"), 500);

    tracker.transfer("alice", "bob", 200).unwrap();

    assert_eq!(tracker.balance("alice"), 800);
    assert_eq!(tracker.balance("bob"), 700);
}

#[test]
fn test_balance_merge() {
    let mut tracker1 = TokenBalance::new("node1".to_string());
    let mut tracker2 = TokenBalance::new("node2".to_string());

    tracker1.credit("alice", 100);
    tracker2.credit("alice", 50);

    tracker1.merge(&tracker2);

    assert_eq!(tracker1.balance("alice"), 150);
}

#[test]
fn token_shortfall_reports_required_and_available() {
    let mut token = CausalToken::new("n", 10);
    let err = token.debit(25).unwrap_err();
    assert_eq!(err.required, 25);
    assert_eq!(err.available, 10);
    assert_eq!(token.balance(), 10);
    let mut other = CausalToken::zero("m");
    assert!(token.transfer(&mut other, 4).is_ok());
    assert_eq!(token.balance(), 6);
    assert_eq!(other.balance(), 4);
    assert!(token.transfer(&mut other, 7).is_err());
    assert_eq!(other.balance(), 4);
    assert_eq!(token.metadata.symbol, "CAUS");
    assert_eq!(token.metadata.decimals, 6);
}

#[test]
fn tracker_edge_cases() {
    let mut t = TokenBalance::new("n".to_string());
    assert_eq!(t.balance("ghost"), 0);
    assert_eq!(t.account_count(), 0);
    // A refused transfer changes nothing, not even the account list.
    assert_eq!(t.transfer("ghost", "x", 1).unwrap_err().available, 0);
    assert_eq!(t.account_count(), 0);
    // A refused debit still opens the account.
    assert!(t.debit("ghost", 1).is_err());
    assert_eq!(t.account_count(), 1);
    t.credit("a", 30);
    t.credit("b", 12);
    assert!(t.transfer("a", "a", 30).is_ok());
    assert_eq!(t.balance("a"), 30);
    assert_eq!(t.total_supply(), 42);
    assert!(t.debit("b", 2).is_ok());
    assert_eq!(t.total_supply(), 40);
    t.account("c").credit(5);
    assert_eq!(t.balance("c"), 5);
    assert_eq!(t.account_count(), 4);
}
