//! Automatic reflex types.

use vstd::prelude::*;

verus! {

/// Types of automatic reflexes.
#[derive(Debug, Clone, Copy, PartialEq, Eq, Structural)]
pub enum ReflexType {
    /// Emergency stop all actions.
    EmergencyBrake,
    /// Reduce resource consumption.
    ResourceConservation,
    /// Increase caution level.
    HeightenedCaution,
    /// Alert human operators.
    HumanAlert,
    /// Pause non-critical operations.
    SuspendNonCritical,
    /// Enter defensive mode.
    DefensivePosture,
    /// Request assistance.
    RequestHelp,
}

/// The priority of a reflex (higher = more urgent).
pub open spec fn reflex_priority(r: ReflexType) -> u8 {
    match r {
        ReflexType::EmergencyBrake => 10,
        ReflexType::HumanAlert => 9,
        ReflexType::DefensivePosture => 8,
        ReflexType::SuspendNonCritical => 6,
        ReflexType::RequestHelp => 5,
        ReflexType::HeightenedCaution => 4,
        ReflexType::ResourceConservation => 3,
    }
}

/// The description of a reflex.
pub open spec fn reflex_description(r: ReflexType) -> Seq<char> {
    match r {
        ReflexType::EmergencyBrake => "Emergency stop all actions"@,
        ReflexType::ResourceConservation => "Reduce resource consumption"@,
        ReflexType::HeightenedCaution => "Increase caution level"@,
        ReflexType::HumanAlert => "Alert human operators"@,
        ReflexType::SuspendNonCritical => "Pause non-critical operations"@,
        ReflexType::DefensivePosture => "Enter defensive mode"@,
        ReflexType::RequestHelp => "Request external assistance"@,
    }
}

impl ReflexType {
    /// Returns priority of this reflex (higher = more urgent).
    pub fn priority(&self) -> (p: u8)
        ensures
            p == reflex_priority(*self),
    {
        match self {
            ReflexType::EmergencyBrake => 10,
            ReflexType::HumanAlert => 9,
            ReflexType::DefensivePosture => 8,
            ReflexType::SuspendNonCritical => 6,
            ReflexType::RequestHelp => 5,
            ReflexType::HeightenedCaution => 4,
            ReflexType::ResourceConservation => 3,
        }
    }

    /// Returns human-readable description.
    pub fn description(&self) -> (d: &'static str)
        ensures
            d@ == reflex_description(*self),
    {
        match self {
            ReflexType::EmergencyBrake => "Emergency stop all actions",
            ReflexType::ResourceConservation => "Reduce resource consumption",
            ReflexType::HeightenedCaution => "Increase caution level",
            ReflexType::HumanAlert => "Alert human operators",
            ReflexType::SuspendNonCritical => "Pause non-critical operations",
            ReflexType::DefensivePosture => "Enter defensive mode",
            ReflexType::RequestHelp => "Request external assistance",
        }
    }
}

/// Whether a bounded reflex queue of length `len` accepts another reflex.
pub fn reflex_queue_accepts(len: usize, max_reflex_queue: usize) -> (b: bool)
    ensures
        b == (len < max_reflex_queue),
{
    len < max_reflex_queue
}

/// Emergency braking has the highest priority of all reflexes, and distinct
/// reflexes have distinct priorities.
pub proof fn lemma_reflex_priorities(a: ReflexType, b: ReflexType)
    ensures
        reflex_priority(ReflexType::EmergencyBrake) >= reflex_priority(a),
        a != b ==> reflex_priority(a) != reflex_priority(b),
{
}

} // verus!
