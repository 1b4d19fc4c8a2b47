//! Developmental stage definitions.

use vstd::prelude::*;

verus! {

/// Developmental stages with increasing capabilities.
#[derive(Debug, Clone, Copy, PartialEq, Eq, Structural, PartialOrd, Ord, Hash)]
pub enum DevelopmentalStage {
    /// Stage 0: Minimal capability, observation only.
    Infant,
    /// Stage 1: Basic actions, supervised, limited scope.
    Child,
    /// Stage 2: Extended actions, some autonomy.
    Adolescent,
    /// Stage 3: Full capability, self-regulated.
    Adult,
    /// Stage 4: Mentoring and multi-agent coordination.
    Elder,
}

/// The numeric level of a stage (Infant = 0 … Elder = 4).
pub open spec fn stage_level(s: DevelopmentalStage) -> int {
    match s {
        DevelopmentalStage::Infant => 0,
        DevelopmentalStage::Child => 1,
        DevelopmentalStage::Adolescent => 2,
        DevelopmentalStage::Adult => 3,
        DevelopmentalStage::Elder => 4,
    }
}

/// The stage with a given level, if any.
pub open spec fn stage_of_level(l: int) -> Option<DevelopmentalStage> {
    if l == 0 {
        Some(DevelopmentalStage::Infant)
    } else if l == 1 {
        Some(DevelopmentalStage::Child)
    } else if l == 2 {
        Some(DevelopmentalStage::Adolescent)
    } else if l == 3 {
        Some(DevelopmentalStage::Adult)
    } else if l == 4 {
        Some(DevelopmentalStage::Elder)
    } else {
        None
    }
}

/// The human-readable name of a stage.
pub open spec fn stage_name(s: DevelopmentalStage) -> Seq<char> {
    match s {
        DevelopmentalStage::Infant => "Infant"@,
        DevelopmentalStage::Child => "Child"@,
        DevelopmentalStage::Adolescent => "Adolescent"@,
        DevelopmentalStage::Adult => "Adult"@,
        DevelopmentalStage::Elder => "Elder"@,
    }
}

/// The description of the capabilities at a stage.
pub open spec fn stage_description(s: DevelopmentalStage) -> Seq<char> {
    match s {
        DevelopmentalStage::Infant => "Observation only, no actions"@,
        DevelopmentalStage::Child => "Basic actions, requires supervision"@,
        DevelopmentalStage::Adolescent => "Extended actions, limited autonomy"@,
        DevelopmentalStage::Adult => "Full actions, self-regulated"@,
        DevelopmentalStage::Elder => "Full actions plus mentoring"@,
    }
}

impl DevelopmentalStage {
    /// Returns the numeric level.
    pub fn level(&self) -> (l: u8)
        ensures
            l == stage_level(*self),
    {
        match self {
            DevelopmentalStage::Infant => 0,
            DevelopmentalStage::Child => 1,
            DevelopmentalStage::Adolescent => 2,
            DevelopmentalStage::Adult => 3,
            DevelopmentalStage::Elder => 4,
        }
    }

    /// Returns the next stage, if any.
    pub fn next(&self) -> (r: Option<DevelopmentalStage>)
        ensures
            r == stage_of_level(stage_level(*self) + 1),
    {
        match self {
            DevelopmentalStage::Infant => Some(DevelopmentalStage::Child),
            DevelopmentalStage::Child => Some(DevelopmentalStage::Adolescent),
            DevelopmentalStage::Adolescent => Some(DevelopmentalStage::Adult),
            DevelopmentalStage::Adult => Some(DevelopmentalStage::Elder),
            DevelopmentalStage::Elder => None,
        }
    }

    /// Returns the previous stage, if any.
    pub fn previous(&self) -> (r: Option<DevelopmentalStage>)
        ensures
            r == stage_of_level(stage_level(*self) - 1),
    {
        match self {
            DevelopmentalStage::Infant => None,
            DevelopmentalStage::Child => Some(DevelopmentalStage::Infant),
            DevelopmentalStage::Adolescent => Some(DevelopmentalStage::Child),
            DevelopmentalStage::Adult => Some(DevelopmentalStage::Adolescent),
            DevelopmentalStage::Elder => Some(DevelopmentalStage::Adult),
        }
    }

    /// Returns human-readable name.
    pub fn name(&self) -> (n: &'static str)
        ensures
            n@ == stage_name(*self),
    {
        match self {
            DevelopmentalStage::Infant => "Infant",
            DevelopmentalStage::Child => "Child",
            DevelopmentalStage::Adolescent => "Adolescent",
            DevelopmentalStage::Adult => "Adult",
            DevelopmentalStage::Elder => "Elder",
        }
    }

    /// Returns description of capabilities at this stage.
    pub fn description(&self) -> (d: &'static str)
        ensures
            d@ == stage_description(*self),
    {
        match self {
            DevelopmentalStage::Infant => "Observation only, no actions",
            DevelopmentalStage::Child => "Basic actions, requires supervision",
            DevelopmentalStage::Adolescent => "Extended actions, limited autonomy",
            DevelopmentalStage::Adult => "Full actions, self-regulated",
            DevelopmentalStage::Elder => "Full actions plus mentoring",
        }
    }
}

impl Default for DevelopmentalStage {
    /// The initial stage is Infant.
    fn default() -> (s: Self)
        ensures
            s == DevelopmentalStage::Infant,
    {
        DevelopmentalStage::Infant
    }
}

/// Stages are totally ordered by level, the level determines the stage,
/// and moving to the next stage and back again returns to where one began.
pub proof fn lemma_stage_navigation(s: DevelopmentalStage)
    ensures
        stage_of_level(stage_level(s)) == Some(s),
        stage_of_level(stage_level(s) + 1) matches Some(n) ==> stage_level(n) == stage_level(s) + 1
            && stage_of_level(stage_level(n) - 1) == Some(s),
        stage_of_level(stage_level(s) - 1) matches Some(p) ==> stage_level(p) + 1 == stage_level(s)
            && stage_of_level(stage_level(p) + 1) == Some(s),
        (stage_of_level(stage_level(s) + 1) is None) <==> s == DevelopmentalStage::Elder,
        (stage_of_level(stage_level(s) - 1) is None) <==> s == DevelopmentalStage::Infant,
{
}

} // verus!
