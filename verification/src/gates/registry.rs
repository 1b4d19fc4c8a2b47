//! Capability registry: which developmental stage unlocks each capability.

use vstd::prelude::*;
use crate::assoc::{AssocMap, MapKey};
use crate::gates::stage::{DevelopmentalStage, stage_level};
use crate::text::{decimal, push_decimal};

verus! {

/// Core capabilities that can be gated.
#[derive(Debug, Clone, Copy, PartialEq, Eq, Structural, Hash)]
pub enum Capability {
    Read,
    Observe,
    Query,
    WriteLocal,
    ComputeLocal,
    Network,
    FileSystem,
    Execute,
    Spawn,
    Modify,
    SelfModify,
    Delegate,
    Mentor,
    /// Custom capability by ID.
    Custom(u32),
}

impl MapKey for Capability {
    type KV = Capability;

    open spec fn key_view(&self) -> Capability {
        *self
    }

    fn key_eq(&self, other: &Self) -> (b: bool) {
        *self == *other
    }

    fn key_clone(&self) -> (k: Self) {
        *self
    }
}

/// The name of a capability.
pub open spec fn capability_name(c: Capability) -> Seq<char> {
    match c {
        Capability::Read => "read"@,
        Capability::Observe => "observe"@,
        Capability::Query => "query"@,
        Capability::WriteLocal => "write_local"@,
        Capability::ComputeLocal => "compute_local"@,
        Capability::Network => "network"@,
        Capability::FileSystem => "filesystem"@,
        Capability::Execute => "execute"@,
        Capability::Spawn => "spawn"@,
        Capability::Modify => "modify"@,
        Capability::SelfModify => "self_modify"@,
        Capability::Delegate => "delegate"@,
        Capability::Mentor => "mentor"@,
        Capability::Custom(id) => "custom_"@ + decimal(id as nat),
    }
}

/// The stage a capability requires by default.
pub open spec fn default_stage_of(c: Capability) -> DevelopmentalStage {
    match c {
        Capability::Read | Capability::Observe | Capability::Query => DevelopmentalStage::Infant,
        Capability::WriteLocal | Capability::ComputeLocal => DevelopmentalStage::Child,
        Capability::Network | Capability::FileSystem => DevelopmentalStage::Adolescent,
        Capability::Execute | Capability::Spawn | Capability::Modify => DevelopmentalStage::Adult,
        Capability::SelfModify | Capability::Delegate | Capability::Mentor => DevelopmentalStage::Elder,
        Capability::Custom(_) => DevelopmentalStage::Adult,
    }
}

/// The thirteen standard capabilities (all but custom ones).
pub open spec fn is_standard(c: Capability) -> bool {
    !(c is Custom)
}

impl Capability {
    /// Returns a human-readable name.
    pub fn name(&self) -> (n: String)
        ensures
            n@ == capability_name(*self),
    {
        match self {
            Capability::Read => "read".to_string(),
            Capability::Observe => "observe".to_string(),
            Capability::Query => "query".to_string(),
            Capability::WriteLocal => "write_local".to_string(),
            Capability::ComputeLocal => "compute_local".to_string(),
            Capability::Network => "network".to_string(),
            Capability::FileSystem => "filesystem".to_string(),
            Capability::Execute => "execute".to_string(),
            Capability::Spawn => "spawn".to_string(),
            Capability::Modify => "modify".to_string(),
            Capability::SelfModify => "self_modify".to_string(),
            Capability::Delegate => "delegate".to_string(),
            Capability::Mentor => "mentor".to_string(),
            Capability::Custom(id) => {
                let mut s = "custom_".to_string();
                push_decimal(&mut s, *id as u64);
                s
            },
        }
    }

    /// Returns default required stage.
    pub fn default_stage(&self) -> (s: DevelopmentalStage)
        ensures
            s == default_stage_of(*self),
    {
        match self {
            Capability::Read | Capability::Observe | Capability::Query => DevelopmentalStage::Infant,
            Capability::WriteLocal | Capability::ComputeLocal => DevelopmentalStage::Child,
            Capability::Network | Capability::FileSystem => DevelopmentalStage::Adolescent,
            Capability::Execute | Capability::Spawn | Capability::Modify => DevelopmentalStage::Adult,
            Capability::SelfModify | Capability::Delegate | Capability::Mentor => DevelopmentalStage::Elder,
            Capability::Custom(_) => DevelopmentalStage::Adult,
        }
    }
}

/// Whether `v` lists exactly the elements of `s`, each once.
pub open spec fn lists_exactly(v: Seq<Capability>, s: Set<Capability>) -> bool {
    &&& v.no_duplicates()
    &&& forall|c: Capability| #[trigger] v.contains(c) <==> s.contains(c)
}

/// The capabilities a requirement map unlocks at or below `stage`.
pub open spec fn unlocked_at_or_below(
    m: Map<Capability, DevelopmentalStage>,
    stage: DevelopmentalStage,
) -> Set<Capability> {
    Set::new(|c: Capability| m.contains_key(c) && stage_level(m[c]) <= stage_level(stage))
}

/// The capabilities a requirement map unlocks exactly at `stage`.
pub open spec fn unlocked_exactly_at(
    m: Map<Capability, DevelopmentalStage>,
    stage: DevelopmentalStage,
) -> Set<Capability> {
    Set::new(|c: Capability| m.contains_key(c) && m[c] == stage)
}

/// Unlocking only grows with the stage: what is unlocked at a stage is
/// unlocked at every later one, and what unlocks exactly at a stage is
/// unlocked at it.
pub proof fn lemma_unlocking_monotone(
    m: Map<Capability, DevelopmentalStage>,
    s1: DevelopmentalStage,
    s2: DevelopmentalStage,
)
    requires
        stage_level(s1) <= stage_level(s2),
    ensures
        unlocked_at_or_below(m, s1).subset_of(unlocked_at_or_below(m, s2)),
        unlocked_exactly_at(m, s1).subset_of(unlocked_at_or_below(m, s1)),
{
}

/// Whether a listing in `mode` (0: all, 1: at or below `stage`, 2:
/// exactly at `stage`) includes `c`.
pub open spec fn keep_cap(
    m: Map<Capability, DevelopmentalStage>,
    stage: DevelopmentalStage,
    mode: u8,
    c: Capability,
) -> bool {
    m.contains_key(c) && (mode == 0 || (mode == 1 && stage_level(m[c]) <= stage_level(stage)) || (mode == 2
        && m[c] == stage))
}

/// Registry mapping capabilities to required stages.
pub struct CapabilityRegistry {
    requirements: AssocMap<Capability, DevelopmentalStage>,
    descriptions: AssocMap<Capability, String>,
}

impl CapabilityRegistry {
    #[verifier::type_invariant]
    closed spec fn inv(self) -> bool {
        self.requirements.wf() && self.descriptions.wf()
    }

    /// Capability → required stage.
    pub closed spec fn view(self) -> Map<Capability, DevelopmentalStage> {
        self.requirements@
    }

    /// Capability → description.
    pub closed spec fn descriptions(self) -> Map<Capability, String> {
        self.descriptions@
    }

    /// Creates a new registry with the standard capabilities at their
    /// default stages.
    pub fn new() -> (r: Self)
        ensures
            forall|c: Capability| #[trigger] r@.contains_key(c) <==> is_standard(c),
            forall|c: Capability| #[trigger] r@.contains_key(c) ==> r@[c] == default_stage_of(c),
            r.descriptions() == Map::<Capability, String>::empty(),
    {
        let mut registry = CapabilityRegistry { requirements: AssocMap::new(), descriptions: AssocMap::new() };
        registry.register(Capability::Read, Capability::Read.default_stage());
        registry.register(Capability::Observe, Capability::Observe.default_stage());
        registry.register(Capability::Query, Capability::Query.default_stage());
        registry.register(Capability::WriteLocal, Capability::WriteLocal.default_stage());
        registry.register(Capability::ComputeLocal, Capability::ComputeLocal.default_stage());
        registry.register(Capability::Network, Capability::Network.default_stage());
        registry.register(Capability::FileSystem, Capability::FileSystem.default_stage());
        registry.register(Capability::Execute, Capability::Execute.default_stage());
        registry.register(Capability::Spawn, Capability::Spawn.default_stage());
        registry.register(Capability::Modify, Capability::Modify.default_stage());
        registry.register(Capability::SelfModify, Capability::SelfModify.default_stage());
        registry.register(Capability::Delegate, Capability::Delegate.default_stage());
        registry.register(Capability::Mentor, Capability::Mentor.default_stage());
        registry
    }

    /// Registers a capability with its required stage.
    pub fn register(&mut self, capability: Capability, stage: DevelopmentalStage)
        ensures
            final(self)@ == old(self)@.insert(capability, stage),
            final(self).descriptions() == old(self).descriptions(),
    {
        proof { use_type_invariant(&*self); }
        let mut req = AssocMap::new();
        std::mem::swap(&mut req, &mut self.requirements);
        req.insert(capability, stage);
        self.requirements = req;
    }

    /// Registers with description.
    pub fn register_with_description(&mut self, capability: Capability, stage: DevelopmentalStage, description: &str)
        ensures
            final(self)@ == old(self)@.insert(capability, stage),
            final(self).descriptions().dom() == old(self).descriptions().dom().insert(capability),
            final(self).descriptions()[capability]@ == description@,
            forall|c: Capability| c != capability && #[trigger] old(self).descriptions().contains_key(c)
                ==> final(self).descriptions()[c] == old(self).descriptions()[c],
    {
        self.register(capability, stage);
        proof { use_type_invariant(&*self); }
        let mut desc = AssocMap::new();
        std::mem::swap(&mut desc, &mut self.descriptions);
        desc.insert(capability, description.to_string());
        self.descriptions = desc;
    }

    /// Returns required stage for a capability.
    pub fn required_stage(&self, capability: Capability) -> (s: Option<DevelopmentalStage>)
        ensures
            s == (if self@.contains_key(capability) { Some(self@[capability]) } else { None }),
    {
        proof { use_type_invariant(self); }
        match self.requirements.get(&capability) {
            Some(s) => Some(*s),
            None => None,
        }
    }

    /// The registered capabilities whose required stage satisfies `keep`,
    /// in storage order.
    fn collect(&self, stage: DevelopmentalStage, mode: u8) -> (v: Vec<Capability>)
        requires
            mode <= 2,
        ensures
            lists_exactly(v@, Set::new(|c: Capability| keep_cap(self@, stage, mode, c))),
    {
        proof { use_type_invariant(self); }
        let n = self.requirements.len_raw();
        let mut out: Vec<Capability> = Vec::new();
        let ghost mut idx: Seq<int> = Seq::empty();
        let mut i: usize = 0;
        while i < n
            invariant
                self.requirements.wf(),
                n == self.requirements.entries().len(),
                i <= n,
                mode <= 2,
                idx.len() == out@.len(),
                forall|k: int| 0 <= k < out@.len() ==> 0 <= #[trigger] idx[k] < i
                    && self.requirements.entries()[idx[k]].0 == out@[k] && keep_cap(self@, stage, mode, out@[k]),
                forall|j: int| 0 <= j < i && keep_cap(self@, stage, mode, #[trigger] self.requirements.entries()[j].0)
                    ==> out@.contains(self.requirements.entries()[j].0),
                out@.no_duplicates(),
            decreases n - i,
        {
            let c = *self.requirements.key_at(i);
            let s = *self.requirements.value_at(i);
            proof { self.requirements.lemma_entry_in_view(i as int); }
            let take = if mode == 0 {
                true
            } else if mode == 1 {
                s.level() <= stage.level()
            } else {
                s == stage
            };
            let ghost old_out = out@;
            let ghost old_idx = idx;
            if take {
                proof {
                    assert forall|k: int| 0 <= k < old_out.len() implies old_out[k] != c by {
                        self.requirements.lemma_distinct(old_idx[k], i as int);
                    }
                    idx = idx.push(i as int);
                }
                out.push(c);
            }
            proof {
                assert forall|k: int| 0 <= k < out@.len() implies 0 <= #[trigger] idx[k] < i + 1
                    && self.requirements.entries()[idx[k]].0 == out@[k] && keep_cap(self@, stage, mode, out@[k]) by {
                    if k < old_out.len() {
                        assert(old_idx[k] == idx[k]);
                        assert(old_out[k] == out@[k]);
                    }
                }
                assert forall|j: int| 0 <= j < i + 1 && keep_cap(self@, stage, mode, #[trigger] self.requirements.entries()[j].0)
                    implies out@.contains(self.requirements.entries()[j].0) by {
                    if j < i {
                        let k = choose|k: int| 0 <= k < old_out.len() && old_out[k] == self.requirements.entries()[j].0;
                        assert(out@[k] == old_out[k]);
                    } else {
                        assert(out@[old_out.len() as int] == c);
                    }
                }
            }
            i = i + 1;
        }
        proof {
            assert forall|c: Capability| #[trigger] out@.contains(c) <==> keep_cap(self@, stage, mode, c) by {
                if keep_cap(self@, stage, mode, c) {
                    let j = self.requirements.lemma_key_in_entries(c);
                    assert(self.requirements.entries()[j].0 == c);
                    assert(keep_cap(self@, stage, mode, self.requirements.entries()[j].0));
                }
                if out@.contains(c) {
                    let k = choose|k: int| 0 <= k < out@.len() && out@[k] == c;
                    assert(0 <= idx[k] < n);
                }
            }
        }
        out
    }

    /// Returns all registered capabilities.
    pub fn all_capabilities(&self) -> (v: Vec<Capability>)
        ensures
            lists_exactly(v@, self@.dom()),
    {
        let v = self.collect(DevelopmentalStage::Infant, 0);
        proof {
            assert(Set::new(|c: Capability| keep_cap(self@, DevelopmentalStage::Infant, 0u8, c)) =~= self@.dom());
        }
        v
    }

    /// Returns capabilities at or below a stage.
    pub fn capabilities_at_stage(&self, stage: DevelopmentalStage) -> (v: Vec<Capability>)
        ensures
            lists_exactly(v@, unlocked_at_or_below(self@, stage)),
    {
        let v = self.collect(stage, 1);
        proof {
            assert(Set::new(|c: Capability| keep_cap(self@, stage, 1u8, c)) =~= unlocked_at_or_below(self@, stage));
        }
        v
    }

    /// Returns capabilities that unlock at a specific stage.
    pub fn capabilities_unlocked_at(&self, stage: DevelopmentalStage) -> (v: Vec<Capability>)
        ensures
            lists_exactly(v@, unlocked_exactly_at(self@, stage)),
    {
        let v = self.collect(stage, 2);
        proof {
            assert(Set::new(|c: Capability| keep_cap(self@, stage, 2u8, c)) =~= unlocked_exactly_at(self@, stage));
        }
        v
    }

    /// Returns description of a capability.
    pub fn description(&self, capability: Capability) -> (d: Option<&str>)
        ensures
            match d {
                Some(s) => self.descriptions().contains_key(capability) && s@ == self.descriptions()[capability]@,
                None => !self.descriptions().contains_key(capability),
            },
    {
        proof { use_type_invariant(self); }
        match self.descriptions.get(&capability) {
            Some(s) => Some(s.as_str()),
            None => None,
        }
    }
}

impl Default for CapabilityRegistry {
    /// The registry of standard capabilities.
    fn default() -> (r: Self)
        ensures
            forall|c: Capability| #[trigger] r@.contains_key(c) <==> is_standard(c),
            forall|c: Capability| #[trigger] r@.contains_key(c) ==> r@[c] == default_stage_of(c),
    {
        Self::new()
    }
}

} // verus!
