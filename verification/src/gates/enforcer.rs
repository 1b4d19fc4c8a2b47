//! Gate enforcer: capability access control by developmental stage.

use vstd::prelude::*;
use crate::assoc::AssocMap;
use crate::gates::stage::{DevelopmentalStage, stage_level};
use crate::gates::registry::{Capability, CapabilityRegistry, lists_exactly, unlocked_at_or_below};

verus! {

/// Result of an access check.
#[derive(Debug, Clone)]
pub enum AccessResult {
    /// Access granted.
    Allowed,
    /// Access denied, stage too low.
    Denied { required: DevelopmentalStage, current: DevelopmentalStage },
    /// Access denied, capability unknown.
    UnknownCapability,
    /// Access denied, temporary suspension.
    Suspended { reason: String, until: u64 },
}

impl AccessResult {
    /// Returns true if access is allowed.
    pub fn is_allowed(&self) -> (b: bool)
        ensures
            b == (*self is Allowed),
    {
        match self {
            AccessResult::Allowed => true,
            _ => false,
        }
    }
}

/// Record of an access attempt.
#[derive(Debug, Clone)]
pub struct AccessAttempt {
    pub capability: Capability,
    pub result: AccessResult,
    pub timestamp: u64,
}

/// The outcome of checking `cap` at time `now`.
pub open spec fn check_outcome(
    registry: Map<Capability, DevelopmentalStage>,
    suspended: Map<Capability, (String, u64)>,
    stage: DevelopmentalStage,
    cap: Capability,
    now: u64,
) -> AccessResult {
    if suspended.contains_key(cap) && now < suspended[cap].1 {
        AccessResult::Suspended { reason: suspended[cap].0, until: suspended[cap].1 }
    } else if !registry.contains_key(cap) {
        AccessResult::UnknownCapability
    } else if stage_level(stage) >= stage_level(registry[cap]) {
        AccessResult::Allowed
    } else {
        AccessResult::Denied { required: registry[cap], current: stage }
    }
}

/// A bounded log after appending `a`: the oldest entries beyond `max` go.
pub open spec fn log_append(log: Seq<AccessAttempt>, a: AccessAttempt, max: nat) -> Seq<AccessAttempt> {
    let l = log.push(a);
    if l.len() > max { l.subrange(l.len() - max, l.len() as int) } else { l }
}

/// The number of denied attempts in a log.
pub open spec fn count_denied(log: Seq<AccessAttempt>) -> nat
    decreases log.len(),
{
    if log.len() == 0 {
        0
    } else {
        count_denied(log.drop_last()) + if log.last().result is Denied { 1nat } else { 0nat }
    }
}

/// Gate enforcer: checks capability access against the current stage.
pub struct GateEnforcer {
    registry: CapabilityRegistry,
    current_stage: DevelopmentalStage,
    access_log: Vec<AccessAttempt>,
    max_log_size: usize,
    suspended: AssocMap<Capability, (String, u64)>,
}

impl GateEnforcer {
    #[verifier::type_invariant]
    closed spec fn inv(self) -> bool {
        &&& self.suspended.wf()
        &&& self.max_log_size >= 1
        &&& self.access_log@.len() <= self.max_log_size
    }

    /// The capability registry's requirements.
    pub closed spec fn registry(self) -> Map<Capability, DevelopmentalStage> {
        self.registry@
    }

    /// The current stage.
    pub closed spec fn stage(self) -> DevelopmentalStage {
        self.current_stage
    }

    /// The access log, oldest first.
    pub closed spec fn log(self) -> Seq<AccessAttempt> {
        self.access_log@
    }

    /// The largest number of attempts the log keeps.
    pub closed spec fn max_log(self) -> nat {
        self.max_log_size as nat
    }

    /// Suspended capabilities: reason and end time.
    pub closed spec fn suspensions(self) -> Map<Capability, (String, u64)> {
        self.suspended@
    }

    /// Creates a new enforcer at the Infant stage.
    pub fn new(registry: CapabilityRegistry) -> (e: Self)
        ensures
            e.registry() == registry@,
            e.stage() == DevelopmentalStage::Infant,
            e.log() == Seq::<AccessAttempt>::empty(),
            e.max_log() == 1000,
            e.suspensions() == Map::<Capability, (String, u64)>::empty(),
    {
        GateEnforcer {
            registry,
            current_stage: DevelopmentalStage::default(),
            access_log: Vec::new(),
            max_log_size: 1000,
            suspended: AssocMap::new(),
        }
    }

    /// Updates the current stage.
    pub fn set_stage(&mut self, stage: DevelopmentalStage)
        ensures
            final(self).stage() == stage,
            final(self).registry() == old(self).registry(),
            final(self).log() == old(self).log(),
            final(self).max_log() == old(self).max_log(),
            final(self).suspensions() == old(self).suspensions(),
    {
        proof { use_type_invariant(&*self); }
        self.current_stage = stage;
    }

    /// Returns current stage.
    pub fn current_stage(&self) -> (s: DevelopmentalStage)
        ensures
            s == self.stage(),
    {
        self.current_stage
    }

    /// Checks whether a capability is allowed, logging the attempt. An
    /// expired suspension is lifted.
    pub fn check(&mut self, capability: Capability, current_time: u64) -> (r: AccessResult)
        ensures
            r == check_outcome(old(self).registry(), old(self).suspensions(), old(self).stage(), capability, current_time),
            final(self).log() == log_append(
                old(self).log(),
                AccessAttempt { capability, result: r, timestamp: current_time },
                old(self).max_log(),
            ),
            final(self).suspensions() == (if old(self).suspensions().contains_key(capability)
                && current_time >= old(self).suspensions()[capability].1 {
                old(self).suspensions().remove(capability)
            } else {
                old(self).suspensions()
            }),
            final(self).registry() == old(self).registry(),
            final(self).stage() == old(self).stage(),
            final(self).max_log() == old(self).max_log(),
    {
        proof { use_type_invariant(&*self); }
        match self.suspended.get(&capability) {
            Some(entry) => {
                let until = entry.1;
                if current_time < until {
                    let result = AccessResult::Suspended { reason: entry.0.clone(), until };
                    let logged = AccessResult::Suspended { reason: entry.0.clone(), until };
                    self.log_attempt(capability, logged, current_time);
                    return result;
                } else {
                    let mut susp = AssocMap::new();
                    std::mem::swap(&mut susp, &mut self.suspended);
                    susp.remove(&capability);
                    self.suspended = susp;
                }
            },
            None => {},
        }
        match self.registry.required_stage(capability) {
            None => {
                self.log_attempt(capability, AccessResult::UnknownCapability, current_time);
                AccessResult::UnknownCapability
            },
            Some(required) => {
                if self.current_stage.level() >= required.level() {
                    self.log_attempt(capability, AccessResult::Allowed, current_time);
                    AccessResult::Allowed
                } else {
                    let current = self.current_stage;
                    self.log_attempt(capability, AccessResult::Denied { required, current }, current_time);
                    AccessResult::Denied { required, current }
                }
            },
        }
    }

    fn log_attempt(&mut self, capability: Capability, result: AccessResult, timestamp: u64)
        ensures
            final(self).log() == log_append(
                old(self).log(),
                AccessAttempt { capability, result, timestamp },
                old(self).max_log(),
            ),
            final(self).suspensions() == old(self).suspensions(),
            final(self).registry() == old(self).registry(),
            final(self).stage() == old(self).stage(),
            final(self).max_log() == old(self).max_log(),
    {
        proof { use_type_invariant(&*self); }
        let ghost old_log = self.access_log@;
        let mut log: Vec<AccessAttempt> = Vec::new();
        std::mem::swap(&mut log, &mut self.access_log);
        log.push(AccessAttempt { capability, result, timestamp });
        if log.len() > self.max_log_size {
            log.remove(0);
            proof {
                let l = old_log.push(AccessAttempt { capability, result, timestamp });
                assert(log@ =~= l.subrange(l.len() - self.max_log_size, l.len() as int));
            }
        }
        self.access_log = log;
    }

    /// Suspends a capability until the given time.
    pub fn suspend(&mut self, capability: Capability, reason: &str, until: u64)
        ensures
            final(self).suspensions().dom() == old(self).suspensions().dom().insert(capability),
            final(self).suspensions()[capability].0@ == reason@,
            final(self).suspensions()[capability].1 == until,
            forall|c: Capability| c != capability && #[trigger] old(self).suspensions().contains_key(c)
                ==> final(self).suspensions()[c] == old(self).suspensions()[c],
            final(self).registry() == old(self).registry(),
            final(self).stage() == old(self).stage(),
            final(self).log() == old(self).log(),
            final(self).max_log() == old(self).max_log(),
    {
        proof { use_type_invariant(&*self); }
        let mut susp = AssocMap::new();
        std::mem::swap(&mut susp, &mut self.suspended);
        susp.insert(capability, (reason.to_string(), until));
        self.suspended = susp;
    }

    /// Lifts a suspension.
    pub fn unsuspend(&mut self, capability: Capability)
        ensures
            final(self).suspensions() == old(self).suspensions().remove(capability),
            final(self).registry() == old(self).registry(),
            final(self).stage() == old(self).stage(),
            final(self).log() == old(self).log(),
            final(self).max_log() == old(self).max_log(),
    {
        proof { use_type_invariant(&*self); }
        let mut susp = AssocMap::new();
        std::mem::swap(&mut susp, &mut self.suspended);
        susp.remove(&capability);
        self.suspended = susp;
    }

    /// Returns up to `count` most recent access attempts, newest first.
    pub fn recent_attempts(&self, count: usize) -> (v: Vec<&AccessAttempt>)
        ensures
            v@.len() == (if count < self.log().len() { count as nat } else { self.log().len() }),
            forall|i: int| 0 <= i < v@.len() ==> *(#[trigger] v@[i]) == self.log()[self.log().len() - 1 - i],
    {
        let n = self.access_log.len();
        let mut v: Vec<&AccessAttempt> = Vec::new();
        let mut i: usize = 0;
        while i < n && i < count
            invariant
                n == self.access_log@.len(),
                i <= n,
                i <= count,
                v@.len() == i,
                forall|j: int| 0 <= j < i ==> *(#[trigger] v@[j]) == self.access_log@[n - 1 - j],
            decreases n - i,
        {
            v.push(&self.access_log[n - 1 - i]);
            i = i + 1;
        }
        v
    }

    /// Returns count of denied attempts in the log.
    pub fn denied_count(&self) -> (c: usize)
        ensures
            c == count_denied(self.log()),
    {
        let n = self.access_log.len();
        let mut c: usize = 0;
        let mut i: usize = 0;
        while i < n
            invariant
                n == self.access_log@.len(),
                i <= n,
                c == count_denied(self.access_log@.subrange(0, i as int)),
                c <= i,
            decreases n - i,
        {
            proof {
                assert(self.access_log@.subrange(0, i + 1).drop_last() =~= self.access_log@.subrange(0, i as int));
            }
            match self.access_log[i].result {
                AccessResult::Denied { .. } => { c = c + 1; },
                _ => {},
            }
            i = i + 1;
        }
        proof { assert(self.access_log@.subrange(0, n as int) =~= self.access_log@); }
        c
    }

    /// Returns all currently allowed capabilities.
    pub fn allowed_capabilities(&self) -> (v: Vec<Capability>)
        ensures
            lists_exactly(v@, unlocked_at_or_below(self.registry(), self.stage())),
    {
        self.registry.capabilities_at_stage(self.current_stage)
    }
}

} // verus!
