use nexus::content_address::ContentAddress;
use nexus::presence::{CausalCursor, PresenceStatus, UserPresence};

#[test]
fn presence_status_and_idle() {
    let mut p = UserPresence::new("alice".to_string(), "Alice".to_string(), "#FF5733".to_string(), "n".to_string());
    assert_eq!(*p.status.get(), PresenceStatus::Active);
    assert!(!p.is_idle());
    p.set_status(PresenceStatus::Typing);
    assert_eq!(*p.status.get(), PresenceStatus::Typing);
    let t = p.last_activity;
    assert!(!p.idle_at(t + 300));
    assert!(p.idle_at(t + 301));
    assert!(!p.idle_at(t.saturating_sub(1000)));
}

#[test]
fn presence_merge_keeps_latest_activity() {
    let mut a = UserPresence::new("u".to_string(), "U".to_string(), "c".to_string(), "a".to_string());
    let mut b = a.clone();
    b.last_activity = a.last_activity + 50;
    b.set_status(PresenceStatus::Viewing);
    let later = b.last_activity;
    a.merge(&b);
    assert_eq!(a.last_activity, later);
    assert_eq!(*a.status.get(), PresenceStatus::Viewing);
}

#[test]
fn cursor_selection() {
    let anchor = ContentAddress::new("hello", 0, "op1".to_string());
    let focus = ContentAddress::new("hello", 5, "op1".to_string());
    let c = CausalCursor::with_selection("alice".to_string(), anchor.clone(), focus, "n".to_string());
    assert!(c.has_selection());
    let d = CausalCursor::at_position("alice".to_string(), anchor, "n".to_string());
    assert!(!d.has_selection());
    let e = CausalCursor::at_start("alice".to_string(), "n".to_string());
    assert!(!e.has_selection());
    assert!(e.anchor.is_none());
}

#[test]
fn cursor_moves_and_merges() {
    let mut c1 = CausalCursor::at_start("alice".to_string(), "node1".to_string());
    let addr = ContentAddress::new("test", 3, "op1".to_string());
    let mut c2 = CausalCursor::at_position("alice".to_string(), addr.clone(), "node2".to_string());
    c2.timestamp = c1.timestamp + 1;
    c1.merge(&c2);
    assert_eq!(c1.anchor.as_ref().unwrap().offset, 3);
    assert_eq!(c1.node_id, "node2");
    let mut c3 = c1.clone();
    c3.node_id = "node9".to_string();
    c3.anchor = None;
    c1.merge(&c3);
    assert!(c1.anchor.is_none());
    c1.move_to(Some(addr.clone()));
    c1.extend_to(None);
    assert_eq!(c1.anchor.as_ref().unwrap().offset, 3);
    assert!(c1.focus.is_none());
}
