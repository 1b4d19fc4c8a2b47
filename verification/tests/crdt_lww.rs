use nexus::crdt::lww::{LWWMap, LWWRegister};

#[test]
fn register_later_write_wins() {
    let mut a = LWWRegister::new(1, "a".to_string());
    let b = LWWRegister::new(2, "b".to_string());
    // Equal timestamps (0): the larger node ID wins.
    a.merge(&b);
    assert_eq!(*a.get(), 2);
    let mut c = LWWRegister::new(3, "c".to_string());
    c.set(4);
    // c was written after time 0, so b does not override it.
    c.merge(&b);
    assert_eq!(*c.get(), 4);
    let mut d = LWWRegister::new(9, "a".to_string());
    d.merge(&c);
    assert_eq!(*d.get(), 4);
}

#[test]
fn register_merge_with_itself_keeps_value() {
    let mut a = LWWRegister::new("x".to_string(), "n".to_string());
    a.set("y".to_string());
    let copy = a.clone();
    a.merge(&copy);
    assert_eq!(a.get(), "y");
}

#[test]
fn lww_map_insert_remove_get() {
    let mut m: LWWMap<String, i32> = LWWMap::new("n1".to_string());
    m.insert("k".to_string(), 10);
    m.insert("j".to_string(), 5);
    assert_eq!(m.get(&"k".to_string()), Some(&10));
    m.remove(&"k".to_string());
    assert_eq!(m.get(&"k".to_string()), None);
    m.remove(&"missing".to_string());
    let live: Vec<(String, i32)> = m.iter().into_iter().map(|(k, v)| (k.clone(), *v)).collect();
    assert_eq!(live, vec![("j".to_string(), 5)]);
}

#[test]
fn lww_map_merge_takes_newer_writes() {
    let mut m1: LWWMap<String, i32> = LWWMap::new("node1".to_string());
    m1.insert("key".to_string(), 10);
    let mut m2: LWWMap<String, i32> = LWWMap::new("node2".to_string());
    m2.insert("other".to_string(), 7);
    m1.merge(&m2);
    assert_eq!(m1.get(&"key".to_string()), Some(&10));
    assert_eq!(m1.get(&"other".to_string()), Some(&7));
    let mut m3: LWWMap<String, i32> = LWWMap::new("node3".to_string());
    m3.insert("key".to_string(), 20);
    m1.merge(&m3);
    assert_eq!(m1.get(&"key".to_string()), Some(&20));
}
