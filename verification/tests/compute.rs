use nexus::compute::gradient::GradientError;
use nexus::compute::mesh::{MeshConfig, NodeState};
use nexus::compute::shard::{ModelShard, ShardRegistry};
use nexus::compute::tensor::TensorShape;

#[test]
fn tensor_shape_size_and_dims() {
    let s = TensorShape::new(vec![2, 3, 4]);
    assert_eq!(s.size(), 24);
    assert_eq!(s.dims(), &[2, 3, 4]);
    assert_eq!(TensorShape::new(vec![]).size(), 1);
    assert_eq!(TensorShape::new(vec![5, 0]).size(), 0);
}

#[test]
fn gradient_error_messages() {
    let e = GradientError::ShapeMismatch {
        expected: TensorShape::new(vec![2, 3]),
        got: TensorShape::new(vec![4]),
    };
    assert_eq!(e.message(), "Shape mismatch: expected [2, 3], got [4]");
    assert_eq!(GradientError::LayerNotFound("fc".to_string()).message(), "Layer not found: fc");
    let empty = GradientError::ShapeMismatch { expected: TensorShape::new(vec![]), got: TensorShape::new(vec![1]) };
    assert_eq!(empty.message(), "Shape mismatch: expected [], got [1]");
}

#[test]
fn mesh_defaults() {
    let c = MeshConfig::default();
    assert_eq!(c.max_peers, 10);
    assert!(!c.gpu_enabled);
    assert_eq!(c.node_id.len(), 36);
    assert_eq!(c.sync_interval, std::time::Duration::from_millis(100));
    assert_ne!(NodeState::Idle, NodeState::Offline);
}

#[test]
fn test_model_shard_creation() {
    let shard = ModelShard::new("fc1".to_string(), 0, 1, "abc".to_string(), "node1".to_string(), vec![]);
    assert_eq!(shard.layer_id, "fc1");
    assert_eq!(shard.shard_idx, 0);
    assert_eq!(shard.content_id.len(), 16);
    let same = ModelShard::new("fc1".to_string(), 0, 1, "abc".to_string(), "node2".to_string(), vec![]);
    assert_eq!(shard.content_id, same.content_id);
    let mut other = same.clone();
    other.update_weights("def".to_string());
    assert_ne!(other.content_id, shard.content_id);
    assert_eq!(other.version.get("node2"), 1);
}

#[test]
fn test_shard_registry() {
    let mut registry = ShardRegistry::new("node1".to_string());
    let shard = ModelShard::new("fc1".to_string(), 0, 1, "w".to_string(), "node1".to_string(), vec![]);
    let content_id = shard.content_id.clone();
    registry.register(shard);
    assert!(registry.get(&content_id).is_some());
    assert_eq!(registry.shard_count(), 1);
    assert_eq!(registry.layer_count(), 1);
    assert_eq!(registry.get_layer_shards("fc1").len(), 1);
    assert_eq!(registry.my_shards().len(), 1);
    assert!(registry.get_node_shards("node9").is_empty());
}

#[test]
fn test_execution_order() {
    let mut registry = ShardRegistry::new("node1".to_string());
    let layers = vec![
        ("fc3".to_string(), "w3".to_string(), vec!["fc2".to_string()]),
        ("fc1".to_string(), "w1".to_string(), vec![]),
        ("fc2".to_string(), "w2".to_string(), vec!["fc1".to_string()]),
    ];
    let shards = registry.shard_model(layers, &["node1".to_string(), "node2".to_string()]);
    assert_eq!(shards[1].owner_node, "node2");
    assert_eq!(registry.execution_order(), vec!["fc1", "fc2", "fc3"]);
}

#[test]
fn execution_order_leaves_out_blocked_layers() {
    let mut registry = ShardRegistry::new("n".to_string());
    let layers = vec![
        ("a".to_string(), "w".to_string(), vec!["b".to_string()]),
        ("b".to_string(), "w".to_string(), vec!["a".to_string()]),
        ("c".to_string(), "w".to_string(), vec!["missing".to_string()]),
        ("d".to_string(), "w".to_string(), vec![]),
        ("e".to_string(), "w".to_string(), vec!["d".to_string()]),
    ];
    registry.shard_model(layers, &["n".to_string()]);
    assert_eq!(registry.execution_order(), vec!["d", "e"]);
}

#[test]
fn registry_merge_keeps_newer_shard() {
    let mut a = ShardRegistry::new("a".to_string());
    let mut b = ShardRegistry::new("b".to_string());
    let s = ModelShard::new("l".to_string(), 0, 1, "w".to_string(), "a".to_string(), vec![]);
    a.register(s.clone());
    let mut newer = s.clone();
    newer.version.increment("a");
    newer.total_shards = 7;
    b.register(newer);
    b.register(ModelShard::new("m".to_string(), 0, 1, "x".to_string(), "b".to_string(), vec![]));
    a.merge(&b);
    assert_eq!(a.shard_count(), 2);
    assert_eq!(a.get(&s.content_id).unwrap().total_shards, 7);
    assert_eq!(a.layer_count(), 2);
}
