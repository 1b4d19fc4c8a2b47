//! Autonomic modes and the rules that move between them.

use vstd::prelude::*;

verus! {

/// Primary operating modes (ACT vs CALM).
#[derive(Debug, Clone, Copy, PartialEq, Eq, Structural)]
pub enum AutonomicMode {
    /// Action mode: high arousal, fast responses, risk tolerant.
    Act,
    /// Contemplation mode: low arousal, deliberate, safety focused.
    Calm,
    /// Emergency mode: maximum arousal, survival-only actions.
    Emergency,
    /// Recovery mode: post-emergency, transitioning to CALM.
    Recovery,
}

/// The name of a mode.
pub open spec fn mode_name(m: AutonomicMode) -> Seq<char> {
    match m {
        AutonomicMode::Act => "ACT"@,
        AutonomicMode::Calm => "CALM"@,
        AutonomicMode::Emergency => "EMERGENCY"@,
        AutonomicMode::Recovery => "RECOVERY"@,
    }
}

impl AutonomicMode {
    /// Returns whether reflexes are enabled (ACT and EMERGENCY).
    pub fn reflexes_enabled(&self) -> (b: bool)
        ensures
            b == (*self == AutonomicMode::Act || *self == AutonomicMode::Emergency),
    {
        match self {
            AutonomicMode::Act | AutonomicMode::Emergency => true,
            _ => false,
        }
    }

    /// Returns a human-readable name.
    pub fn name(&self) -> (n: &'static str)
        ensures
            n@ == mode_name(*self),
    {
        match self {
            AutonomicMode::Act => "ACT",
            AutonomicMode::Calm => "CALM",
            AutonomicMode::Emergency => "EMERGENCY",
            AutonomicMode::Recovery => "RECOVERY",
        }
    }
}

impl Default for AutonomicMode {
    /// The default is the safe mode, CALM.
    fn default() -> (m: Self)
        ensures
            m == AutonomicMode::Calm,
    {
        AutonomicMode::Calm
    }
}

/// Where an arousal level lies relative to the controller's thresholds.
#[derive(Debug, Clone, Copy, PartialEq, Eq, Structural)]
pub enum ArousalBand {
    /// At or above the emergency threshold.
    Emergency,
    /// At or above the ACT threshold, below the emergency one.
    Act,
    /// Strictly between the CALM and ACT thresholds.
    Neutral,
    /// At or below the CALM threshold (and below the ACT one).
    Calm,
}

/// The mode an arousal band calls for, given the current mode.
pub open spec fn spec_mode_for_band(current: AutonomicMode, band: ArousalBand) -> AutonomicMode {
    match band {
        ArousalBand::Emergency => AutonomicMode::Emergency,
        ArousalBand::Act => if current == AutonomicMode::Emergency {
            AutonomicMode::Recovery
        } else {
            AutonomicMode::Act
        },
        ArousalBand::Calm => AutonomicMode::Calm,
        ArousalBand::Neutral => current,
    }
}

/// The mode an arousal band calls for: EMERGENCY at the top; ACT above the
/// ACT threshold, except that leaving EMERGENCY goes through RECOVERY;
/// CALM at the bottom; and in between the current mode stays
/// (hysteresis).
pub fn mode_for_band(current: AutonomicMode, band: ArousalBand) -> (m: AutonomicMode)
    ensures
        m == spec_mode_for_band(current, band),
{
    match band {
        ArousalBand::Emergency => AutonomicMode::Emergency,
        ArousalBand::Act => {
            if current == AutonomicMode::Emergency {
                AutonomicMode::Recovery
            } else {
                AutonomicMode::Act
            }
        },
        ArousalBand::Calm => AutonomicMode::Calm,
        ArousalBand::Neutral => current,
    }
}

/// Whether the controller changes mode: the band calls for another mode
/// and the current one has lasted its minimum duration.
pub fn should_transition(
    current: AutonomicMode,
    band: ArousalBand,
    mode_duration: u64,
    min_mode_duration: u64,
) -> (b: bool)
    ensures
        b == (spec_mode_for_band(current, band) != current && mode_duration >= min_mode_duration),
{
    let new_mode = mode_for_band(current, band);
    new_mode != current && mode_duration >= min_mode_duration
}

/// A transition is an escalation: CALM → ACT, CALM → EMERGENCY or
/// ACT → EMERGENCY.
pub open spec fn spec_is_escalation(from: AutonomicMode, to: AutonomicMode) -> bool {
    (from == AutonomicMode::Calm && to == AutonomicMode::Act) || (from == AutonomicMode::Calm && to
        == AutonomicMode::Emergency) || (from == AutonomicMode::Act && to == AutonomicMode::Emergency)
}

/// A transition is a de-escalation: EMERGENCY → RECOVERY, RECOVERY → CALM,
/// ACT → CALM or EMERGENCY → ACT.
pub open spec fn spec_is_deescalation(from: AutonomicMode, to: AutonomicMode) -> bool {
    (from == AutonomicMode::Emergency && to == AutonomicMode::Recovery) || (from == AutonomicMode::Recovery
        && to == AutonomicMode::Calm) || (from == AutonomicMode::Act && to == AutonomicMode::Calm) || (from
        == AutonomicMode::Emergency && to == AutonomicMode::Act)
}

/// Returns true if a transition from `from` to `to` is an escalation.
pub fn is_escalation(from: AutonomicMode, to: AutonomicMode) -> (b: bool)
    ensures
        b == spec_is_escalation(from, to),
{
    match (from, to) {
        (AutonomicMode::Calm, AutonomicMode::Act) => true,
        (AutonomicMode::Calm, AutonomicMode::Emergency) => true,
        (AutonomicMode::Act, AutonomicMode::Emergency) => true,
        _ => false,
    }
}

/// Returns true if a transition from `from` to `to` is a de-escalation.
pub fn is_deescalation(from: AutonomicMode, to: AutonomicMode) -> (b: bool)
    ensures
        b == spec_is_deescalation(from, to),
{
    match (from, to) {
        (AutonomicMode::Emergency, AutonomicMode::Recovery) => true,
        (AutonomicMode::Recovery, AutonomicMode::Calm) => true,
        (AutonomicMode::Act, AutonomicMode::Calm) => true,
        (AutonomicMode::Emergency, AutonomicMode::Act) => true,
        _ => false,
    }
}

/// No transition is both an escalation and a de-escalation; the band rule
/// never jumps straight from EMERGENCY to CALM-or-ACT without passing
/// RECOVERY on the ACT band, stays put in the neutral band, and every
/// change it makes from CALM is an escalation.
pub proof fn lemma_mode_rules(current: AutonomicMode, band: ArousalBand)
    ensures
        !(spec_is_escalation(current, spec_mode_for_band(current, band)) && spec_is_deescalation(
            current,
            spec_mode_for_band(current, band),
        )),
        band == ArousalBand::Neutral ==> spec_mode_for_band(current, band) == current,
        current == AutonomicMode::Emergency && band == ArousalBand::Act ==> spec_mode_for_band(current, band)
            == AutonomicMode::Recovery,
        current == AutonomicMode::Calm && spec_mode_for_band(current, band) != current ==> spec_is_escalation(
            current,
            spec_mode_for_band(current, band),
        ),
{
}

/// Whatever the current mode, arousal at or below the CALM threshold
/// calls for CALM (a mode without reflexes), and arousal at or above the
/// emergency threshold calls for EMERGENCY. So from every other mode the
/// CALM band asks for a change, and leaving ACT or RECOVERY that way is a
/// de-escalation; and a mode reached from a band is kept by that band.
pub proof fn lemma_band_extremes(current: AutonomicMode, band: ArousalBand)
    ensures
        spec_mode_for_band(current, ArousalBand::Calm) == AutonomicMode::Calm,
        spec_mode_for_band(current, ArousalBand::Emergency) == AutonomicMode::Emergency,
        current != AutonomicMode::Calm ==> spec_mode_for_band(current, ArousalBand::Calm) != current,
        current == AutonomicMode::Act || current == AutonomicMode::Recovery ==> spec_is_deescalation(
            current,
            spec_mode_for_band(current, ArousalBand::Calm),
        ),
        !(spec_mode_for_band(current, ArousalBand::Calm) == AutonomicMode::Act || spec_mode_for_band(
            current,
            ArousalBand::Calm,
        ) == AutonomicMode::Emergency),
        band != ArousalBand::Act ==> spec_mode_for_band(spec_mode_for_band(current, band), band)
            == spec_mode_for_band(current, band),
{
}

} // verus!
