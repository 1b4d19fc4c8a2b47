use nexus::observability::{AuditLogEntry, AuditOperation, AuditResult, HealthState, HealthStatus};

#[test]
fn test_health_status() {
    let mut health = HealthStatus::new();
    assert_eq!(health.status, HealthState::Healthy);
    assert!(health.is_ready());

    health.add_component(
        "storage".to_string(),
        HealthState::Degraded,
        Some("Disk usage at 80%".to_string()),
    );
    assert_eq!(health.status, HealthState::Degraded);
    assert!(health.is_ready());

    health.add_component(
        "network".to_string(),
        HealthState::Unhealthy,
        Some("Connection lost".to_string()),
    );
    assert_eq!(health.status, HealthState::Unhealthy);
    assert!(!health.is_ready());
}

#[test]
fn health_never_improves() {
    let mut health = HealthStatus::new();
    health.add_component("a".to_string(), HealthState::Unhealthy, None);
    health.add_component("b".to_string(), HealthState::Healthy, None);
    health.add_component("c".to_string(), HealthState::Degraded, None);
    assert_eq!(health.status, HealthState::Unhealthy);
    assert!(!health.is_alive());
    assert_eq!(health.components.len(), 3);
    assert_eq!(health.components[1].name, "b");
}

#[test]
fn healthy_components_keep_status_healthy() {
    let mut health = HealthStatus::new();
    health.add_component("a".to_string(), HealthState::Healthy, None);
    assert_eq!(health.status, HealthState::Healthy);
    assert!(health.is_alive());
    assert!(health.timestamp > 0);
}

#[test]
fn audit_entry_keeps_its_fields() {
    let entry = AuditLogEntry::new(
        "alice".to_string(),
        AuditOperation::WriteDocument,
        "op123".to_string(),
        "doc456".to_string(),
        AuditResult::Success,
    );
    assert_eq!(entry.actor_id, "alice");
    assert_eq!(entry.operation, AuditOperation::WriteDocument);
    assert_eq!(entry.resource_id, "doc456");
    assert!(entry.timestamp > 0);
    assert!(entry.metadata.as_object().unwrap().is_empty());
}
