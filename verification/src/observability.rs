//! Audit records and health checks.

use vstd::prelude::*;
use crate::clock::{unix_micros, unix_secs};

verus! {

/// A JSON value (serde_json's `Value`), carried through as opaque metadata.
#[verifier::external_type_specification]
#[verifier::external_body]
pub struct ExJsonValue(serde_json::Value);

/// serde_json's derived `Clone` for `Value`: the copy is the same JSON
/// value.
pub assume_specification[ <serde_json::Value as Clone>::clone ](v: &serde_json::Value) -> (r: serde_json::Value)
    ensures
        r == *v,
;

/// An empty JSON object (serde_json's `Value::Object` around a fresh
/// `Map::new()`). Nothing is stated of it: the value is opaque here.
#[verifier::external_body]
fn empty_json_object() -> serde_json::Value {
    serde_json::Value::Object(serde_json::Map::new())
}

/// The kind of operation an audit record is about.
#[derive(Debug, Clone, Copy, PartialEq, Eq, Structural)]
pub enum AuditOperation {
    ReadDocument,
    WriteDocument,
    DeleteDocument,
    ShareDocument,
    RevokeSharing,
    SyncOperation,
    CreateSnapshot,
    RestoreSnapshot,
    EncryptData,
    DecryptData,
    BFTValidation,
}

/// How an audited operation ended.
#[derive(Debug, Clone)]
pub enum AuditResult {
    Success,
    Failure { reason: String },
}

/// An audit log entry, for compliance and forensics.
#[derive(Debug, Clone)]
pub struct AuditLogEntry {
    /// Microseconds since the Unix epoch.
    pub timestamp: u64,
    /// User or node that performed the operation.
    pub actor_id: String,
    pub operation: AuditOperation,
    /// Operation ID, for correlation.
    pub operation_id: String,
    /// Document or resource affected.
    pub resource_id: String,
    pub result: AuditResult,
    /// Additional metadata (an empty object when created).
    pub metadata: serde_json::Value,
}

impl AuditLogEntry {
    /// A new entry stamped with the current time.
    pub fn new(
        actor_id: String,
        operation: AuditOperation,
        operation_id: String,
        resource_id: String,
        result: AuditResult,
    ) -> (e: Self)
        ensures
            e.actor_id == actor_id,
            e.operation == operation,
            e.operation_id == operation_id,
            e.resource_id == resource_id,
            e.result == result,
    {
        AuditLogEntry {
            timestamp: unix_micros(),
            actor_id,
            operation,
            operation_id,
            resource_id,
            result,
            metadata: empty_json_object(),
        }
    }
}

/// Health of the whole system or of one component.
#[derive(Debug, Clone, Copy, PartialEq, Eq, Structural)]
pub enum HealthState {
    Healthy,
    Degraded,
    Unhealthy,
}

/// How bad a health state is: healthy 0, degraded 1, unhealthy 2.
pub open spec fn severity(s: HealthState) -> int {
    match s {
        HealthState::Healthy => 0,
        HealthState::Degraded => 1,
        HealthState::Unhealthy => 2,
    }
}

/// The worse of two health states.
pub open spec fn worst(a: HealthState, b: HealthState) -> HealthState {
    if severity(b) > severity(a) { b } else { a }
}

/// The worst state among `start` and those of the components.
pub open spec fn worst_of(start: HealthState, cs: Seq<ComponentHealth>) -> HealthState
    decreases cs.len(),
{
    if cs.len() == 0 {
        start
    } else {
        worst(worst_of(start, cs.drop_last()), cs.last().status)
    }
}

/// Health of one component.
#[derive(Debug, Clone)]
pub struct ComponentHealth {
    pub name: String,
    pub status: HealthState,
    pub message: Option<String>,
}

/// Overall health: the worst of the component states.
#[derive(Debug, Clone)]
pub struct HealthStatus {
    /// Overall status.
    pub status: HealthState,
    /// Component statuses, in the order they were added.
    pub components: Vec<ComponentHealth>,
    /// Seconds since the Unix epoch when the status was created.
    pub timestamp: u64,
}

impl HealthStatus {
    /// A healthy status with no components, stamped with the current time.
    pub fn new() -> (h: Self)
        ensures
            h.status == HealthState::Healthy,
            h.components@.len() == 0,
            h.status == worst_of(HealthState::Healthy, h.components@),
    {
        HealthStatus { status: HealthState::Healthy, components: Vec::new(), timestamp: unix_secs() }
    }

    /// Record a component; the overall status becomes the worse of the two.
    pub fn add_component(&mut self, name: String, status: HealthState, message: Option<String>)
        ensures
            final(self).components@ == old(self).components@.push(
                ComponentHealth { name: name, status: status, message: message },
            ),
            final(self).status == worst(old(self).status, status),
            old(self).status == worst_of(HealthState::Healthy, old(self).components@) ==> final(self).status
                == worst_of(HealthState::Healthy, final(self).components@),
            final(self).timestamp == old(self).timestamp,
    {
        let ghost c = ComponentHealth { name: name, status: status, message: message };
        proof { lemma_health_is_worst(HealthState::Healthy, self.components@, c); }
        self.components.push(ComponentHealth { name, status, message });
        if status == HealthState::Unhealthy {
            self.status = HealthState::Unhealthy;
        } else if status == HealthState::Degraded && self.status != HealthState::Unhealthy {
            self.status = HealthState::Degraded;
        }
    }

    /// Ready to serve traffic: healthy or degraded.
    pub fn is_ready(&self) -> (b: bool)
        ensures
            b == (self.status != HealthState::Unhealthy),
    {
        self.status == HealthState::Healthy || self.status == HealthState::Degraded
    }

    /// Alive, for a liveness probe: not unhealthy.
    pub fn is_alive(&self) -> (b: bool)
        ensures
            b == (self.status != HealthState::Unhealthy),
    {
        self.status != HealthState::Unhealthy
    }
}

/// The overall health only gets worse as components are added: adding one
/// gives the worse of the old overall state and its own, which is at least
/// as bad as either, and all is healthy only while every component is.
pub proof fn lemma_health_is_worst(start: HealthState, cs: Seq<ComponentHealth>, c: ComponentHealth)
    ensures
        worst_of(start, cs.push(c)) == worst(worst_of(start, cs), c.status),
        severity(worst_of(start, cs.push(c))) >= severity(worst_of(start, cs)),
        severity(worst_of(start, cs.push(c))) >= severity(c.status),
        worst_of(HealthState::Healthy, cs.push(c)) == HealthState::Healthy ==> c.status == HealthState::Healthy,
{
    assert(cs.push(c).drop_last() =~= cs);
}

} // verus!
