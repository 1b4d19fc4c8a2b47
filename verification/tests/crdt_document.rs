use nexus::content_address::ContentAddress;
use nexus::crdt::document::CRDTDocument;
use nexus::crdt::orset::ORSet;
use nexus::presence::{PresenceManager, PresenceStatus};

#[test]
fn test_orset_add_wins() {
    let mut set1 = ORSet::<String>::new("node1".to_string());
    let mut set2 = ORSet::<String>::new("node2".to_string());

    set1.add("apple".to_string());
    set2.add("apple".to_string());
    set2.remove(&"apple".to_string());

    set1.merge(&set2);
    assert!(set1.contains(&"apple".to_string()));
}

#[test]
fn orset_remove_and_elements() {
    let mut s = ORSet::<String>::new("n".to_string());
    let e = s.add("x".to_string());
    s.add("y".to_string());
    assert_eq!(e.value_hash.len(), 64);
    assert_eq!(s.elements().len(), 2);
    s.remove(&"x".to_string());
    assert!(!s.contains(&"x".to_string()));
    assert!(s.contains(&"y".to_string()));
    assert_eq!(s.elements().len(), 1);
    assert!(!s.contains(&"z".to_string()));
}

#[test]
fn test_crdt_document() {
    let mut doc1 = CRDTDocument::new("doc".to_string(), "alice".to_string());
    let mut doc2 = CRDTDocument::new("doc".to_string(), "bob".to_string());

    doc1.set_title("Hello".to_string());
    doc1.insert_text(0, "World");

    doc2.set_title("Hi".to_string());
    doc2.insert_text(0, "There");

    doc1.merge(&doc2);
    doc2.merge(&doc1);

    assert_eq!(doc1.content.to_string(), doc2.content.to_string());
}

#[test]
fn document_edits_and_json() {
    let mut doc = CRDTDocument::new("doc".to_string(), "alice".to_string());
    doc.insert_text(0, "Hello");
    doc.delete_text(1, 3);
    assert_eq!(doc.content.to_string(), "Ho");
    doc.delete_text(5, 3);
    doc.set_title("T".to_string());
    doc.set_metadata("lang".to_string(), "en".to_string());
    doc.add_collaborator("bob".to_string());
    let j = doc.to_json();
    let text = j.to_json_string();
    assert!(text.starts_with("{\"collaborators\":[\""));
    assert!(text.ends_with(",\"content\":\"Ho\",\"id\":\"doc\",\"metadata\":{\"lang\":\"en\"},\"title\":\"T\",\"version\":4}"));
}

#[test]
fn test_presence_lifecycle() {
    let mut manager = PresenceManager::new("node1".to_string());
    manager.join("alice".to_string(), "Alice".to_string(), "#FF5733".to_string());
    assert_eq!(manager.get_active_users().len(), 1);
    manager.set_typing("alice");
    assert_eq!(*manager.presence("alice").unwrap().status.get(), PresenceStatus::Typing);
    manager.leave("alice");
    assert_eq!(manager.get_active_users().len(), 0);
    assert!(!manager.is_active_user(&"alice".to_string()));
}

#[test]
fn test_cursor_movement() {
    let mut manager = PresenceManager::new("node1".to_string());
    manager.join("alice".to_string(), "Alice".to_string(), "#FF5733".to_string());
    assert!(manager.get_cursor("alice").unwrap().anchor.is_none());
    let addr = ContentAddress::new("hello", 5, "op1".to_string());
    manager.update_cursor("alice", Some(addr.clone()));
    let cursor = manager.get_cursor("alice").unwrap();
    assert_eq!(cursor.anchor.as_ref().unwrap().offset, 5);
    assert_eq!(manager.get_all_cursors().len(), 1);
    manager.check_idle();
    assert_eq!(*manager.presence("alice").unwrap().status.get(), PresenceStatus::Active);
}

#[test]
fn test_presence_merge() {
    let mut manager1 = PresenceManager::new("node1".to_string());
    let mut manager2 = PresenceManager::new("node2".to_string());
    manager1.join("alice".to_string(), "Alice".to_string(), "#FF5733".to_string());
    manager2.join("bob".to_string(), "Bob".to_string(), "#33FF57".to_string());
    manager1.merge(&manager2);
    assert_eq!(manager1.presence_count(), 2);
    assert!(manager1.presence("alice").is_some());
    assert!(manager1.presence("bob").is_some());
    assert!(manager1.is_active_user(&"bob".to_string()));
}

#[test]
fn test_selection() {
    let mut manager = PresenceManager::new("node1".to_string());
    manager.join("alice".to_string(), "Alice".to_string(), "#FF5733".to_string());
    let anchor = ContentAddress::new("hello", 0, "op1".to_string());
    let focus = ContentAddress::new("hello", 5, "op1".to_string());
    manager.update_selection("alice", anchor, focus);
    assert!(manager.get_cursor("alice").unwrap().has_selection());
}

#[test]
fn idle_marking_at_a_given_time() {
    let mut manager = PresenceManager::new("node1".to_string());
    manager.join("alice".to_string(), "Alice".to_string(), "#FF5733".to_string());
    manager.join("bob".to_string(), "Bob".to_string(), "#33FF57".to_string());
    manager.leave("bob");
    let last = manager.presence("alice").unwrap().last_activity;
    manager.check_idle_at(last + 300);
    assert_eq!(*manager.presence("alice").unwrap().status.get(), PresenceStatus::Active);
    manager.check_idle_at(last + 301);
    assert_eq!(*manager.presence("alice").unwrap().status.get(), PresenceStatus::Idle);
    assert_eq!(*manager.presence("bob").unwrap().status.get(), PresenceStatus::Offline);
}

#[test]
fn cursors_of_users_still_online() {
    let mut manager = PresenceManager::new("node1".to_string());
    manager.join("alice".to_string(), "Alice".to_string(), "#FF5733".to_string());
    manager.join("bob".to_string(), "Bob".to_string(), "#33FF57".to_string());
    manager.leave("bob");
    let cursors = manager.get_all_cursors();
    assert!(cursors.iter().all(|(p, _)| p.user_id == "alice"));
    assert!(cursors.len() <= 1);
}
