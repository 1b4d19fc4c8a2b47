use nexus::gates::enforcer::{AccessResult, GateEnforcer};
use nexus::gates::registry::{Capability, CapabilityRegistry};
use nexus::gates::stage::DevelopmentalStage;

#[test]
fn test_stage_ordering() {
    assert!(DevelopmentalStage::Adult > DevelopmentalStage::Child);
    assert!(DevelopmentalStage::Elder > DevelopmentalStage::Adult);
}

#[test]
fn test_stage_navigation() {
    assert_eq!(DevelopmentalStage::Child.next(), Some(DevelopmentalStage::Adolescent));
    assert_eq!(DevelopmentalStage::Child.previous(), Some(DevelopmentalStage::Infant));
    assert_eq!(DevelopmentalStage::Elder.next(), None);
}

#[test]
fn test_default_is_infant() {
    assert_eq!(DevelopmentalStage::default(), DevelopmentalStage::Infant);
}

#[test]
fn stage_levels_names_and_round_trips() {
    let all = [
        DevelopmentalStage::Infant,
        DevelopmentalStage::Child,
        DevelopmentalStage::Adolescent,
        DevelopmentalStage::Adult,
        DevelopmentalStage::Elder,
    ];
    for (i, s) in all.iter().enumerate() {
        assert_eq!(s.level() as usize, i);
        if let Some(n) = s.next() {
            assert_eq!(n.previous(), Some(*s));
        }
    }
    assert_eq!(DevelopmentalStage::Infant.previous(), None);
    assert_eq!(DevelopmentalStage::Adolescent.name(), "Adolescent");
    assert_eq!(DevelopmentalStage::Infant.description(), "Observation only, no actions");
}

#[test]
fn test_default_stages() {
    let registry = CapabilityRegistry::new();

    assert_eq!(registry.required_stage(Capability::Read), Some(DevelopmentalStage::Infant));
    assert_eq!(registry.required_stage(Capability::Execute), Some(DevelopmentalStage::Adult));
}

#[test]
fn test_capabilities_at_stage() {
    let registry = CapabilityRegistry::new();

    let infant_caps = registry.capabilities_at_stage(DevelopmentalStage::Infant);
    assert!(infant_caps.contains(&Capability::Read));
    assert!(!infant_caps.contains(&Capability::Execute));

    let adult_caps = registry.capabilities_at_stage(DevelopmentalStage::Adult);
    assert!(adult_caps.contains(&Capability::Execute));
}

#[test]
fn test_custom_registration() {
    let mut registry = CapabilityRegistry::new();
    registry.register(Capability::Custom(42), DevelopmentalStage::Child);

    assert_eq!(registry.required_stage(Capability::Custom(42)), Some(DevelopmentalStage::Child));
}

#[test]
fn registry_listings_and_names() {
    let mut registry = CapabilityRegistry::new();
    assert_eq!(registry.all_capabilities().len(), 13);
    assert_eq!(registry.capabilities_unlocked_at(DevelopmentalStage::Elder).len(), 3);
    assert_eq!(registry.capabilities_at_stage(DevelopmentalStage::Elder).len(), 13);
    assert_eq!(registry.required_stage(Capability::Custom(7)), None);
    registry.register_with_description(Capability::Custom(7), DevelopmentalStage::Adult, "seven");
    assert_eq!(registry.description(Capability::Custom(7)), Some("seven"));
    assert_eq!(registry.description(Capability::Read), None);
    assert_eq!(Capability::Custom(1207).name(), "custom_1207");
    assert_eq!(Capability::Custom(0).name(), "custom_0");
    assert_eq!(Capability::SelfModify.name(), "self_modify");
    assert_eq!(Capability::Spawn.default_stage(), DevelopmentalStage::Adult);
    assert_eq!(Capability::Custom(3).default_stage(), DevelopmentalStage::Adult);
}

fn setup() -> GateEnforcer {
    let mut registry = CapabilityRegistry::new();
    registry.register(Capability::Read, DevelopmentalStage::Infant);
    registry.register(Capability::WriteLocal, DevelopmentalStage::Child);
    registry.register(Capability::Network, DevelopmentalStage::Adolescent);
    registry.register(Capability::Execute, DevelopmentalStage::Adult);

    GateEnforcer::new(registry)
}

#[test]
fn test_infant_can_read() {
    let mut enforcer = setup();
    let result = enforcer.check(Capability::Read, 0);
    assert!(result.is_allowed());
}

#[test]
fn test_infant_cannot_write() {
    let mut enforcer = setup();
    let result = enforcer.check(Capability::WriteLocal, 0);
    assert!(!result.is_allowed());
}

#[test]
fn test_adult_can_execute() {
    let mut enforcer = setup();
    enforcer.set_stage(DevelopmentalStage::Adult);
    let result = enforcer.check(Capability::Execute, 0);
    assert!(result.is_allowed());
}

#[test]
fn test_suspension() {
    let mut enforcer = setup();
    enforcer.set_stage(DevelopmentalStage::Adult);

    enforcer.suspend(Capability::Execute, "temporary", 100);
    let result = enforcer.check(Capability::Execute, 50);

    assert!(matches!(result, AccessResult::Suspended { .. }));
}

#[test]
fn enforcer_outcomes_log_and_expiry() {
    let mut enforcer = setup();
    match enforcer.check(Capability::Network, 1) {
        AccessResult::Denied { required, current } => {
            assert_eq!(required, DevelopmentalStage::Adolescent);
            assert_eq!(current, DevelopmentalStage::Infant);
        }
        _ => panic!("expected denial"),
    }
    assert!(matches!(enforcer.check(Capability::Custom(9), 2), AccessResult::UnknownCapability));
    enforcer.set_stage(DevelopmentalStage::Adult);
    enforcer.suspend(Capability::Execute, "cooldown", 10);
    match enforcer.check(Capability::Execute, 9) {
        AccessResult::Suspended { reason, until } => {
            assert_eq!(reason, "cooldown");
            assert_eq!(until, 10);
        }
        _ => panic!("expected suspension"),
    }
    // At the end time the suspension has expired and is lifted.
    assert!(enforcer.check(Capability::Execute, 10).is_allowed());
    assert!(enforcer.check(Capability::Execute, 5).is_allowed());
    assert_eq!(enforcer.denied_count(), 1);
    let recent = enforcer.recent_attempts(2);
    assert_eq!(recent.len(), 2);
    assert_eq!(recent[0].timestamp, 5);
    assert_eq!(recent[1].timestamp, 10);
    assert_eq!(enforcer.recent_attempts(100).len(), 5);
    enforcer.suspend(Capability::Read, "x", 100);
    enforcer.unsuspend(Capability::Read);
    assert!(enforcer.check(Capability::Read, 0).is_allowed());
    assert_eq!(enforcer.allowed_capabilities().len(), 10);
}

#[test]
fn enforcer_log_is_bounded() {
    let mut enforcer = setup();
    for t in 0..1005u64 {
        enforcer.check(Capability::WriteLocal, t);
    }
    assert_eq!(enforcer.recent_attempts(5000).len(), 1000);
    assert_eq!(enforcer.recent_attempts(1)[0].timestamp, 1004);
    assert_eq!(enforcer.denied_count(), 1000);
}
