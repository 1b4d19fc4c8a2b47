use nexus::content_address::ContentAddress;

#[test]
fn test_content_address_creation() {
    let addr = ContentAddress::new("Hello, World!", 7, "op1".to_string());
    assert_eq!(addr.offset, 7);
    assert_eq!(addr.creator_op_id, "op1");
    assert!(!addr.content_hash.is_empty());
}

#[test]
fn test_content_verification() {
    let addr = ContentAddress::new("Hello, World!", 0, "op1".to_string());
    assert!(addr.verify("Hello, World!"));
    assert!(!addr.verify("Different content"));
}

#[test]
fn test_same_content_same_hash() {
    let addr1 = ContentAddress::new("Test", 0, "op1".to_string());
    let addr2 = ContentAddress::new("Test", 0, "op2".to_string());
    assert_eq!(addr1.content_hash, addr2.content_hash);
}

#[test]
fn test_special_addresses() {
    let start = ContentAddress::document_start();
    let end = ContentAddress::document_end();

    assert_eq!(start.content_hash, "START");
    assert_eq!(end.content_hash, "END");
}

#[test]
fn test_address_id() {
    let addr = ContentAddress::new("Test", 5, "op1".to_string());
    let id = addr.id();
    assert!(id.contains("@5"));
}

#[test]
fn content_hash_is_lower_hex_sha256() {
    let addr = ContentAddress::new("abc", 0, "op".to_string());
    assert_eq!(
        addr.content_hash,
        "ba7816bf8f01cfea414140de5dae2223b00361a396177a9cb410ff61f20015ad"
    );
    let empty = ContentAddress::new("", 3, "op".to_string());
    assert_eq!(
        empty.id(),
        "e3b0c44298fc1c149afbf4c8996fb92427ae41e4649b934ca495991b7852b855@3"
    );
}
