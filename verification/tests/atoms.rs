use nexus::atom::causal_atom::{AtomValue, CausalAtom};
use nexus::atom::compose::{AtomComposer, AtomSchema, CompositeAtom, SchemaError};
use std::time::{Duration, Instant};

fn wait_millis(ms: u64) {
    let start = Instant::now();
    while start.elapsed() < Duration::from_millis(ms) {}
}

#[test]
fn test_atom_creation() {
    let atom = CausalAtom::string("hello".to_string(), "node1".to_string());
    assert_eq!(atom.value_type(), "string");
    assert_eq!(atom.value.as_string(), Some("hello"));
    assert!(!atom.id().is_empty());
}

#[test]
fn test_atom_update() {
    let mut atom = CausalAtom::integer(42, "node1".to_string());
    let original_id = atom.id().to_string();

    atom.set_value(AtomValue::Int(100));

    assert_ne!(atom.id(), &original_id);
    assert_eq!(atom.value.as_int(), Some(100));
}

#[test]
fn test_atom_merge() {
    let atom1 = CausalAtom::string("hello".to_string(), "node1".to_string());

    wait_millis(10);

    let atom2 = CausalAtom::string("world".to_string(), "node2".to_string());

    let merged = atom1.merge(&atom2);

    assert_eq!(merged.value.as_string(), Some("world"));
}

#[test]
fn test_list_atom() {
    let items = vec![
        CausalAtom::integer(1, "node1".to_string()),
        CausalAtom::integer(2, "node1".to_string()),
        CausalAtom::integer(3, "node1".to_string()),
    ];

    let list = CausalAtom::list(items, "node1".to_string());

    match &list.value {
        AtomValue::List(items) => assert_eq!(items.len(), 3),
        _ => panic!("Expected list"),
    }
}

#[test]
fn test_map_atom() {
    let entries = vec![
        ("name".to_string(), CausalAtom::string("Alice".to_string(), "node1".to_string())),
        ("age".to_string(), CausalAtom::integer(30, "node1".to_string())),
    ];

    let map = CausalAtom::map(entries, "node1".to_string());

    match &map.value {
        AtomValue::Dict(entries) => {
            assert_eq!(entries.len(), 2);
            assert_eq!(entries[0].0, "name");
        }
        _ => panic!("Expected map"),
    }
}

#[test]
fn test_counter_atom() {
    let counter = CausalAtom::counter(0, "node1".to_string());
    let incremented = counter.increment(5, "node1");

    assert_eq!(incremented.value.as_int(), Some(5));
    assert!(incremented.meta.dependencies.contains(&counter.id().to_string()));
}

#[test]
fn test_deep_merge_maps() {
    let map1 = CausalAtom::map(
        vec![("a".to_string(), CausalAtom::integer(1, "node1".to_string()))],
        "node1".to_string(),
    );

    let map2 = CausalAtom::map(
        vec![("b".to_string(), CausalAtom::integer(2, "node2".to_string()))],
        "node2".to_string(),
    );

    let merged = map1.deep_merge(&map2);

    match &merged.value {
        AtomValue::Dict(entries) => {
            assert_eq!(entries.len(), 2);
        }
        _ => panic!("Expected map"),
    }
}

#[test]
fn test_composite_creation() {
    let root = CausalAtom::string("root".to_string(), "node1".to_string());
    let composite = CompositeAtom::new(root, "node1".to_string());

    assert_eq!(composite.atom_count(), 1);
}

#[test]
fn test_composite_add() {
    let root = CausalAtom::map(vec![], "node1".to_string());
    let mut composite = CompositeAtom::new(root, "node1".to_string());

    composite.add(CausalAtom::integer(42, "node1".to_string()));
    composite.add(CausalAtom::string("hello".to_string(), "node1".to_string()));

    assert_eq!(composite.atom_count(), 3);
}

#[test]
fn test_composer() {
    let composite = AtomComposer::new("node1")
        .string_field("name", "Alice", "node1")
        .int_field("age", 30, "node1")
        .build();

    assert!(composite.atom_count() >= 1);
}

#[test]
fn test_composite_merge() {
    let root1 = CausalAtom::map(
        vec![("a".to_string(), CausalAtom::integer(1, "node1".to_string()))],
        "node1".to_string(),
    );
    let mut comp1 = CompositeAtom::new(root1, "node1".to_string());

    let root2 = CausalAtom::map(
        vec![("b".to_string(), CausalAtom::integer(2, "node2".to_string()))],
        "node2".to_string(),
    );
    let comp2 = CompositeAtom::new(root2, "node2".to_string());

    comp1.merge(&comp2);

    assert!(comp1.atom_count() >= 2);
}

#[test]
fn test_schema_validation() {
    let schema = AtomSchema::new("Person".to_string())
        .field("name", "string")
        .field("age", "int")
        .require("name");

    let valid = CausalAtom::map(
        vec![("name".to_string(), CausalAtom::string("Alice".to_string(), "node1".to_string()))],
        "node1".to_string(),
    );

    assert!(schema.validate(&valid).is_ok());

    let invalid = CausalAtom::map(vec![], "node1".to_string());
    assert!(schema.validate(&invalid).is_err());
}

#[test]
fn schema_reports_first_missing_field_and_type_mismatch() {
    let schema = AtomSchema::new("Person".to_string()).require("name").require("age");
    let partial = CausalAtom::map(
        vec![("age".to_string(), CausalAtom::integer(3, "n".to_string()))],
        "n".to_string(),
    );
    match schema.validate(&partial) {
        Err(SchemaError::MissingRequired(f)) => assert_eq!(f, "name"),
        other => panic!("unexpected {:?}", other),
    }
    let not_map = CausalAtom::bool(true, "n".to_string());
    match schema.validate(&not_map) {
        Err(e) => assert_eq!(e.message(), "Type mismatch: expected map, got bool"),
        Ok(()) => panic!("expected an error"),
    }
}

#[test]
fn atom_ids_are_hashes_of_value_creator_and_time() {
    let a = CausalAtom::integer(7, "n".to_string());
    assert!(a.id().starts_with("atom_"));
    assert_eq!(a.id().len(), 21);
    assert!(a.id()[5..].chars().all(|c| c.is_ascii_hexdigit() && !c.is_ascii_uppercase()));
    let mut b = CausalAtom::integer(7, "n".to_string());
    b.meta.created_at = a.meta.created_at;
    b.set_value(AtomValue::Int(7));
    assert_eq!(b.id(), a.id());
    b.set_value(AtomValue::Int(8));
    assert_ne!(b.id(), a.id());
}

#[test]
fn type_labels_and_accessors() {
    assert_eq!(AtomValue::Null.type_label(), "null");
    assert_eq!(AtomValue::Bytes(vec![1]).type_label(), "bytes");
    assert_eq!(AtomValue::Dict(vec![]).type_label(), "map");
    assert_eq!(AtomValue::Ref("x".to_string()).type_label(), "ref");
    assert!(AtomValue::Null.is_null());
    assert!(!AtomValue::Int(0).is_null());
    assert_eq!(AtomValue::Int(3).as_string(), None);
    assert_eq!(AtomValue::String("s".to_string()).as_int(), None);
}

#[test]
fn set_value_counts_one_more_operation() {
    let mut a = CausalAtom::string("x".to_string(), "n".to_string());
    assert_eq!(a.meta.version.get("n"), 1);
    a.set_value(AtomValue::Null);
    assert_eq!(a.meta.version.get("n"), 2);
    assert!(a.value.is_null());
}

#[test]
fn dependencies_stay_sorted_and_unique() {
    let mut a = CausalAtom::null("n".to_string());
    a.add_dependency("b".to_string());
    a.add_dependency("a".to_string());
    a.add_dependency("b".to_string());
    assert_eq!(a.meta.dependencies, vec!["a".to_string(), "b".to_string()]);
    a.add_tag("t1".to_string());
    a.add_tag("t1".to_string());
    assert_eq!(a.meta.tags.len(), 2);
}

#[test]
fn merge_prefers_later_and_joins_versions_and_dependencies() {
    let mut a = CausalAtom::string("old".to_string(), "n1".to_string());
    let mut b = CausalAtom::string("new".to_string(), "n2".to_string());
    a.meta.modified_at = 10;
    b.meta.modified_at = 20;
    a.add_dependency("d1".to_string());
    b.add_dependency("d0".to_string());
    let m = a.merge(&b);
    assert_eq!(m.value.as_string(), Some("new"));
    assert_eq!(m.id(), b.id());
    assert_eq!(m.meta.version.get("n1"), 1);
    assert_eq!(m.meta.version.get("n2"), 1);
    assert_eq!(m.meta.dependencies, vec!["d0".to_string(), "d1".to_string()]);
    let m2 = b.merge(&a);
    assert_eq!(m2.value.as_string(), Some("new"));
    assert_eq!(m2.meta.dependencies, m.meta.dependencies);
    a.meta.modified_at = 20;
    let tie = a.merge(&b);
    assert_eq!(tie.value.as_string(), Some("old"));
}

#[test]
fn deep_merge_lists_merges_by_id_and_appends_new_items() {
    let mut x = CausalAtom::string("x".to_string(), "n".to_string());
    x.meta.modified_at = 1;
    let mut x_later = x.copy();
    x_later.value = AtomValue::String("x2".to_string());
    x_later.meta.modified_at = 5;
    let y = CausalAtom::integer(9, "m".to_string());
    let l1 = CausalAtom::list(vec![x.copy()], "n".to_string());
    let l2 = CausalAtom::list(vec![x_later.copy(), y.copy()], "m".to_string());
    let merged = l1.deep_merge(&l2);
    assert_eq!(merged.id(), l1.id());
    match &merged.value {
        AtomValue::List(items) => {
            assert_eq!(items.len(), 2);
            assert_eq!(items[0].value.as_string(), Some("x2"));
            assert_eq!(items[1].value.as_int(), Some(9));
        }
        _ => panic!("Expected list"),
    }
}

#[test]
fn deep_merge_maps_merges_same_keys() {
    let mut one = CausalAtom::integer(1, "n".to_string());
    one.meta.modified_at = 1;
    let mut two = CausalAtom::integer(2, "m".to_string());
    two.meta.modified_at = 2;
    let m1 = CausalAtom::map(vec![("k".to_string(), one)], "n".to_string());
    let m2 = CausalAtom::map(vec![("k".to_string(), two)], "m".to_string());
    let merged = m1.deep_merge(&m2);
    match &merged.value {
        AtomValue::Dict(entries) => {
            assert_eq!(entries.len(), 1);
            assert_eq!(entries[0].1.value.as_int(), Some(2));
        }
        _ => panic!("Expected map"),
    }
    let scalar = CausalAtom::integer(5, "n".to_string());
    let mixed = m1.deep_merge(&scalar);
    assert!(mixed.value.as_int() == Some(5) || mixed.value.type_label() == "map");
}

#[test]
fn composite_update_get_and_merge() {
    let root = CausalAtom::map(vec![], "node1".to_string());
    let root_id = root.id().to_string();
    let mut c = CompositeAtom::new(root, "node1".to_string());
    let a = CausalAtom::integer(1, "node1".to_string());
    let a_id = a.id().to_string();
    c.add(a);
    assert!(c.get(&a_id).is_some());
    assert!(c.update("missing", AtomValue::Null).is_none());
    let new_id = c.update(&a_id, AtomValue::Int(2)).unwrap();
    assert_ne!(new_id, a_id);
    assert_eq!(c.get(&a_id).unwrap().value.as_int(), Some(2));
    assert_eq!(c.version.get("node1"), 2);
    if let Some(atom) = c.get_mut(&a_id) {
        atom.add_tag("t".to_string());
    }
    assert_eq!(c.get(&a_id).unwrap().meta.tags.len(), 1);
    let mut ids = c.atom_ids();
    ids.sort();
    let mut expected = vec![root_id.clone(), a_id.clone()];
    expected.sort();
    assert_eq!(ids, expected);
    assert_eq!(c.flatten().len(), 2);

    let other = CompositeAtom::new(CausalAtom::null("node2".to_string()), "node2".to_string());
    c.merge(&other);
    assert_eq!(c.atom_count(), 3);
}

#[test]
fn composer_links_fields_into_the_current_object() {
    let composer = AtomComposer::new("node1").string_field("name", "Alice", "node1");
    assert_eq!(composer.atom_count(), 2);
    let composer = composer.object("address", "node1").int_field("zip", 12345, "node1").end_object();
    let composite = composer.build();
    assert_eq!(composite.atom_count(), 4);
    match &composite.get(composite.root.id()).unwrap().value {
        AtomValue::Dict(entries) => {
            assert_eq!(entries.len(), 1);
            assert_eq!(entries[0].0, "name");
            assert_eq!(entries[0].1.value.type_label(), "ref");
        }
        _ => panic!("Expected map"),
    }
    let again = AtomComposer::from_composite(composite).int_field("age", 30, "node1").build();
    assert_eq!(again.atom_count(), 5);
}
