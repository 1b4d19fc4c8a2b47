use nexus::autonomic::mode::AutonomicMode;
use nexus::autonomic::reflex::ReflexType;

#[test]
fn test_mode_defaults() {
    assert_eq!(AutonomicMode::default(), AutonomicMode::Calm);
}

#[test]
fn test_reflex_priority() {
    assert!(ReflexType::EmergencyBrake.priority() > ReflexType::ResourceConservation.priority());
}
