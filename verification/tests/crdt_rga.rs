use nexus::crdt::rga::{CharacterId, RGACharacter, RGAText};

#[test]
fn test_rga_basic() {
    let mut doc = RGAText::new("node1".to_string());
    doc.insert(0, 'H');
    doc.insert(1, 'i');

    assert_eq!(doc.to_string(), "Hi");
}

#[test]
fn test_rga_concurrent_inserts() {
    let mut doc1 = RGAText::new("node1".to_string());
    let mut doc2 = RGAText::new("node2".to_string());

    doc1.insert(0, 'A');
    doc2.insert(0, 'B');

    for char_obj in doc2.get_all_characters() {
        doc1.insert_remote(char_obj);
    }
    for char_obj in doc1.get_all_characters() {
        doc2.insert_remote(char_obj.clone());
    }

    assert_eq!(doc1.to_string(), doc2.to_string());
}

#[test]
fn rga_delete_and_positions() {
    let mut doc = RGAText::new("n".to_string());
    doc.insert(0, 'a');
    doc.insert(1, 'c');
    doc.insert(1, 'b');
    doc.insert(99, 'd');
    assert_eq!(doc.to_string(), "abcd");
    assert_eq!(doc.len(), 4);
    let removed = doc.delete(1).unwrap();
    assert_eq!(removed.sequence, 3);
    assert_eq!(doc.to_string(), "acd");
    assert!(doc.delete(3).is_none());
    assert_eq!(doc.get_all_characters().len(), 4);
    assert!(doc.get_all_characters().iter().any(|c| c.deleted && c.value == 'b'));
    assert!(!doc.is_empty());
}

#[test]
fn rga_remote_insert_is_idempotent_and_ordered_by_id() {
    let mut doc = RGAText::new("n".to_string());
    let a = RGACharacter {
        id: CharacterId::new(5, "x".to_string(), 1),
        value: 'a',
        deleted: false,
        inserted_after: None,
    };
    let b = RGACharacter {
        id: CharacterId::new(5, "y".to_string(), 1),
        value: 'b',
        deleted: false,
        inserted_after: None,
    };
    doc.insert_remote(b.clone());
    doc.insert_remote(a.clone());
    assert_eq!(doc.to_string(), "ab");
    doc.insert_remote(a.clone());
    assert_eq!(doc.len(), 2);
    let c = RGACharacter {
        id: CharacterId::new(1, "z".to_string(), 1),
        value: 'c',
        deleted: false,
        inserted_after: Some(a.id.clone()),
    };
    doc.insert_remote(c);
    assert_eq!(doc.to_string(), "acb");
    doc.delete_remote(&a.id);
    assert_eq!(doc.to_string(), "cb");
    assert_eq!(doc.len(), 2);
}
