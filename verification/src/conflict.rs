//! Conflict resolution policies and the resolver's configuration.

use vstd::prelude::*;
use crate::assoc::{StrMap, str_eq};
use crate::causal_op::CausalOp;
use crate::json::{Json, JsonNumber, JsonV, json_as_i64, json_get, items_view};
use crate::order::{str_lt, text_lt};
use crate::version_vector::vv_conflicts;

verus! {

/// How concurrent operations are resolved.
#[derive(Clone, Copy, Debug, PartialEq, Eq, Structural)]
pub enum ConflictPolicy {
    /// By wall-clock time (may lose data).
    LastWriterWins,
    /// By configured node priority.
    HighestPriority,
    /// Hand both options to the user.
    ManualResolution,
    /// Merge by meaning where the operation allows it.
    SemanticMerge,
}

/// The outcome of resolving two operations.
#[derive(Debug)]
pub enum ConflictResolution {
    /// The operations are not concurrent.
    NoConflict,
    /// The operation with this ID wins.
    Winner(String),
    /// The user must choose.
    Manual { option_a: CausalOp, option_b: CausalOp },
    /// The operations merge into this value.
    Merged { result: Json },
}

/// What a resolution says, as values.
pub enum ResKind {
    NoConflict,
    Winner(Seq<char>),
    Manual,
    Merged(JsonV),
}

/// What a resolution says.
pub open spec fn kind_of(r: ConflictResolution) -> ResKind {
    match r {
        ConflictResolution::NoConflict => ResKind::NoConflict,
        ConflictResolution::Winner(w) => ResKind::Winner(w@),
        ConflictResolution::Manual { .. } => ResKind::Manual,
        ConflictResolution::Merged { result } => ResKind::Merged(result@),
    }
}

/// The winner by wall clock, ties going to the larger ID.
pub open spec fn lww_winner(op1: CausalOp, op2: CausalOp) -> Seq<char> {
    if op1.wall_clock > op2.wall_clock {
        op1.id@
    } else if op2.wall_clock > op1.wall_clock {
        op2.id@
    } else if text_lt(op2.id@, op1.id@) {
        op1.id@
    } else {
        op2.id@
    }
}

/// The integer an operation's input carries under `value`, 0 when none.
pub open spec fn counter_value(input: JsonV) -> int {
    match json_get(input, "value"@) {
        Some(v) => match json_as_i64(v) {
            Some(n) => n as int,
            None => 0,
        },
        None => 0,
    }
}

/// The items an operation's input carries under `elements`, none when the
/// member is missing or not an array.
pub open spec fn set_elements(input: JsonV) -> Seq<JsonV> {
    match json_get(input, "elements"@) {
        Some(JsonV::Array(items)) => items,
        _ => Seq::empty(),
    }
}

/// `a` followed by the items of `b` not already present, in order.
pub open spec fn union_items(a: Seq<JsonV>, b: Seq<JsonV>) -> Seq<JsonV>
    decreases b.len(),
{
    if b.len() == 0 {
        a
    } else {
        let m = union_items(a, b.drop_last());
        if m.contains(b.last()) { m } else { m.push(b.last()) }
    }
}

/// A JSON integer.
pub open spec fn json_int(n: int) -> JsonV {
    if n >= 0 { JsonV::PosInt(n as u64) } else { JsonV::NegInt(n as i64) }
}

/// The operation kinds that merge as counters.
pub open spec fn is_counter_op(op: Seq<char>) -> bool {
    op == "increment"@ || op == "decrement"@
}

/// `r` is a manual resolution offering `op1` then `op2`.
pub open spec fn is_manual(r: ConflictResolution, op1: CausalOp, op2: CausalOp) -> bool {
    r matches ConflictResolution::Manual { option_a, option_b } && option_a@ == op1@ && option_b@ == op2@
}

/// `r` names `id` as the winner.
pub open spec fn is_winner(r: ConflictResolution, id: Seq<char>) -> bool {
    r matches ConflictResolution::Winner(w) && w@ == id
}

/// Conflict resolver: a default policy, per-operation policies and node
/// priorities.
pub struct ConflictResolver {
    default_policy: ConflictPolicy,
    operation_policies: StrMap<ConflictPolicy>,
    node_priorities: StrMap<u8>,
}

impl ConflictResolver {
    #[verifier::type_invariant]
    closed spec fn inv(self) -> bool {
        self.operation_policies.wf() && self.node_priorities.wf()
    }

    /// The policy for operations without one of their own.
    pub closed spec fn default_policy(self) -> ConflictPolicy {
        self.default_policy
    }

    /// Operation type → policy.
    pub closed spec fn operation_policies(self) -> Map<Seq<char>, ConflictPolicy> {
        self.operation_policies@
    }

    /// Node → priority.
    pub closed spec fn node_priorities(self) -> Map<Seq<char>, u8> {
        self.node_priorities@
    }

    /// The policy that applies to an operation type.
    pub open spec fn policy_for(self, operation: Seq<char>) -> ConflictPolicy {
        if self.operation_policies().contains_key(operation) {
            self.operation_policies()[operation]
        } else {
            self.default_policy()
        }
    }

    /// The priority of a node, 0 when unset.
    pub open spec fn priority_of(self, node: Seq<char>) -> u8 {
        if self.node_priorities().contains_key(node) { self.node_priorities()[node] } else { 0 }
    }

    /// A resolver with the given default policy.
    pub fn new(default_policy: ConflictPolicy) -> (r: Self)
        ensures
            r.default_policy() == default_policy,
            r.operation_policies() == Map::<Seq<char>, ConflictPolicy>::empty(),
            r.node_priorities() == Map::<Seq<char>, u8>::empty(),
    {
        ConflictResolver { default_policy, operation_policies: StrMap::new(), node_priorities: StrMap::new() }
    }

    /// Set a node's priority.
    pub fn set_node_priority(&mut self, node_id: String, priority: u8)
        ensures
            final(self).node_priorities() == old(self).node_priorities().insert(node_id@, priority),
            final(self).operation_policies() == old(self).operation_policies(),
            final(self).default_policy() == old(self).default_policy(),
    {
        proof { use_type_invariant(&*self); }
        let mut m = StrMap::new();
        std::mem::swap(&mut m, &mut self.node_priorities);
        m.insert(node_id, priority);
        self.node_priorities = m;
    }

    /// Set the policy of an operation type.
    pub fn set_operation_policy(&mut self, operation: String, policy: ConflictPolicy)
        ensures
            final(self).operation_policies() == old(self).operation_policies().insert(operation@, policy),
            final(self).node_priorities() == old(self).node_priorities(),
            final(self).default_policy() == old(self).default_policy(),
    {
        proof { use_type_invariant(&*self); }
        let mut m = StrMap::new();
        std::mem::swap(&mut m, &mut self.operation_policies);
        m.insert(operation, policy);
        self.operation_policies = m;
    }

    /// The policy that applies to an operation type.
    pub fn get_policy(&self, operation: &str) -> (p: ConflictPolicy)
        ensures
            p == self.policy_for(operation@),
    {
        proof { use_type_invariant(self); }
        match self.operation_policies.get_str(operation) {
            Some(p) => *p,
            None => self.default_policy,
        }
    }

    /// The winner by priority, falling back to the wall clock.
    pub open spec fn priority_winner(self, op1: CausalOp, op2: CausalOp) -> Seq<char> {
        let p1 = self.priority_of(op1.node_id@);
        let p2 = self.priority_of(op2.node_id@);
        if p1 > p2 {
            op1.id@
        } else if p2 > p1 {
            op2.id@
        } else {
            lww_winner(op1, op2)
        }
    }

    /// `r` is the semantic merge of two concurrent operations.
    pub open spec fn semantic_result(self, r: ConflictResolution, op1: CausalOp, op2: CausalOp) -> bool {
        if op1.operation@ == op2.operation@ && is_counter_op(op1.operation@) {
            r matches ConflictResolution::Merged { result } && result@ == JsonV::Object(
                seq![("value"@, json_int(counter_value(op1.input@) + counter_value(op2.input@)))],
            )
        } else if op1.operation@ == op2.operation@ && op1.operation@ == "add_to_set"@ {
            r matches ConflictResolution::Merged { result } && result@ == JsonV::Object(
                seq![("elements"@, JsonV::Array(union_items(set_elements(op1.input@), set_elements(op2.input@))))],
            )
        } else {
            is_manual(r, op1, op2)
        }
    }

    /// The resolution of two operations under this resolver.
    pub open spec fn resolves(self, r: ConflictResolution, op1: CausalOp, op2: CausalOp) -> bool {
        if !vv_conflicts(op1.version_vector@, op2.version_vector@) {
            r is NoConflict
        } else {
            match self.policy_for(op1.operation@) {
                ConflictPolicy::LastWriterWins => is_winner(r, lww_winner(op1, op2)),
                ConflictPolicy::HighestPriority => is_winner(r, self.priority_winner(op1, op2)),
                ConflictPolicy::ManualResolution => is_manual(r, op1, op2),
                ConflictPolicy::SemanticMerge => self.semantic_result(r, op1, op2),
            }
        }
    }

    /// What resolving two operations says.
    pub open spec fn resolution(self, op1: CausalOp, op2: CausalOp) -> ResKind {
        if !vv_conflicts(op1.version_vector@, op2.version_vector@) {
            ResKind::NoConflict
        } else {
            match self.policy_for(op1.operation@) {
                ConflictPolicy::LastWriterWins => ResKind::Winner(lww_winner(op1, op2)),
                ConflictPolicy::HighestPriority => ResKind::Winner(self.priority_winner(op1, op2)),
                ConflictPolicy::ManualResolution => ResKind::Manual,
                ConflictPolicy::SemanticMerge => if op1.operation@ == op2.operation@ && is_counter_op(
                    op1.operation@,
                ) {
                    ResKind::Merged(
                        JsonV::Object(
                            seq![("value"@, json_int(counter_value(op1.input@) + counter_value(op2.input@)))],
                        ),
                    )
                } else if op1.operation@ == op2.operation@ && op1.operation@ == "add_to_set"@ {
                    ResKind::Merged(
                        JsonV::Object(
                            seq![("elements"@, JsonV::Array(union_items(set_elements(op1.input@), set_elements(op2.input@))))],
                        ),
                    )
                } else {
                    ResKind::Manual
                },
            }
        }
    }

    /// Highest priority: the operation from the node of higher priority
    /// wins; between nodes of equal priority (all of them, while no
    /// priority is set) the operation with the later wall clock wins, and
    /// at equal clocks the one with the larger ID, exactly as last writer
    /// wins decides. The winner is always one of the two.
    pub proof fn lemma_priority_winner(self, op1: CausalOp, op2: CausalOp)
        ensures
            self.priority_of(op1.node_id@) > self.priority_of(op2.node_id@) ==> self.priority_winner(op1, op2)
                == op1.id@,
            self.priority_of(op2.node_id@) > self.priority_of(op1.node_id@) ==> self.priority_winner(op1, op2)
                == op2.id@,
            self.priority_of(op1.node_id@) == self.priority_of(op2.node_id@) ==> self.priority_winner(op1, op2)
                == lww_winner(op1, op2),
            self.node_priorities() == Map::<Seq<char>, u8>::empty() ==> self.priority_winner(op1, op2)
                == lww_winner(op1, op2),
            self.priority_of(op1.node_id@) == self.priority_of(op2.node_id@) && op1.wall_clock < op2.wall_clock
                ==> self.priority_winner(op1, op2) == op2.id@,
            self.priority_of(op1.node_id@) == self.priority_of(op2.node_id@) && op2.wall_clock < op1.wall_clock
                ==> self.priority_winner(op1, op2) == op1.id@,
            self.priority_of(op1.node_id@) == self.priority_of(op2.node_id@) && op1.wall_clock == op2.wall_clock
                && text_lt(op2.id@, op1.id@) ==> self.priority_winner(op1, op2) == op1.id@,
            self.priority_of(op1.node_id@) == self.priority_of(op2.node_id@) && op1.wall_clock == op2.wall_clock
                && text_lt(op1.id@, op2.id@) ==> self.priority_winner(op1, op2) == op2.id@,
            self.priority_winner(op1, op2) == op1.id@ || self.priority_winner(op1, op2) == op2.id@,
    {
        if text_lt(op1.id@, op2.id@) {
            crate::order::lemma_text_lt_order(op1.id@, op2.id@, op1.id@);
        }
    }

    /// Between nodes of equal priority, a resolver that resolves by highest
    /// priority answers exactly as one that resolves by last writer wins.
    pub proof fn lemma_equal_priority_resolves_as_lww(self, other: ConflictResolver, op1: CausalOp, op2: CausalOp)
        requires
            self.policy_for(op1.operation@) == ConflictPolicy::HighestPriority,
            other.policy_for(op1.operation@) == ConflictPolicy::LastWriterWins,
            self.priority_of(op1.node_id@) == self.priority_of(op2.node_id@),
        ensures
            self.resolution(op1, op2) == other.resolution(op1, op2),
    {
    }

    /// The counter values of the two operations add up within an `i64`.
    pub open spec fn counter_sum_fits(op1: CausalOp, op2: CausalOp) -> bool {
        i64::MIN <= counter_value(op1.input@) + counter_value(op2.input@) <= i64::MAX
    }

    /// Resolving the two operations adds their counter values only within
    /// `i64`: they are concurrent counter operations of one kind merged
    /// semantically only when the sum fits.
    pub open spec fn resolve_fits(self, op1: CausalOp, op2: CausalOp) -> bool {
        (vv_conflicts(op1.version_vector@, op2.version_vector@) && self.policy_for(op1.operation@)
            == ConflictPolicy::SemanticMerge && op1.operation@ == op2.operation@ && is_counter_op(op1.operation@))
            ==> Self::counter_sum_fits(op1, op2)
    }

    /// Resolve two operations: no conflict unless they are concurrent;
    /// otherwise by the policy of the first one's kind.
    pub fn resolve(&self, op1: &CausalOp, op2: &CausalOp) -> (r: ConflictResolution)
        requires
            self.resolve_fits(*op1, *op2),
        ensures
            self.resolves(r, *op1, *op2),
            kind_of(r) == self.resolution(*op1, *op2),
            r matches ConflictResolution::Manual { option_a, option_b } ==> option_a@ == op1@ && option_b@ == op2@,
    {
        if !op1.conflicts_with(op2) {
            return ConflictResolution::NoConflict;
        }
        match self.get_policy(op1.operation.as_str()) {
            ConflictPolicy::LastWriterWins => self.resolve_lww(op1, op2),
            ConflictPolicy::HighestPriority => self.resolve_priority(op1, op2),
            ConflictPolicy::ManualResolution => ConflictResolution::Manual {
                option_a: op1.copy(),
                option_b: op2.copy(),
            },
            ConflictPolicy::SemanticMerge => self.resolve_semantic(op1, op2),
        }
    }

    fn resolve_lww(&self, op1: &CausalOp, op2: &CausalOp) -> (r: ConflictResolution)
        ensures
            is_winner(r, lww_winner(*op1, *op2)),
    {
        if op1.wall_clock > op2.wall_clock {
            ConflictResolution::Winner(op1.id.clone())
        } else if op2.wall_clock > op1.wall_clock {
            ConflictResolution::Winner(op2.id.clone())
        } else if str_lt(op2.id.as_str(), op1.id.as_str()) {
            ConflictResolution::Winner(op1.id.clone())
        } else {
            ConflictResolution::Winner(op2.id.clone())
        }
    }

    fn resolve_priority(&self, op1: &CausalOp, op2: &CausalOp) -> (r: ConflictResolution)
        ensures
            is_winner(r, self.priority_winner(*op1, *op2)),
    {
        let p1 = self.priority(op1.node_id.as_str());
        let p2 = self.priority(op2.node_id.as_str());
        if p1 > p2 {
            ConflictResolution::Winner(op1.id.clone())
        } else if p2 > p1 {
            ConflictResolution::Winner(op2.id.clone())
        } else {
            self.resolve_lww(op1, op2)
        }
    }

    fn counter_of(input: &Json) -> (n: i64)
        ensures
            n == counter_value(input@),
    {
        match input.get("value") {
            Some(v) => match v.as_i64() {
                Some(n) => n,
                None => 0,
            },
            None => 0,
        }
    }

    fn elements_of(input: &Json) -> (v: Vec<Json>)
        ensures
            items_view(v@, v@.len() as int) == set_elements(input@),
    {
        match input.get("elements") {
            Some(e) => match e.as_array() {
                Some(items) => copy_items(items),
                None => Vec::new(),
            },
            None => Vec::new(),
        }
    }

    fn resolve_semantic(&self, op1: &CausalOp, op2: &CausalOp) -> (r: ConflictResolution)
        requires
            op1.operation@ == op2.operation@ && is_counter_op(op1.operation@) ==> Self::counter_sum_fits(*op1, *op2),
        ensures
            self.semantic_result(r, *op1, *op2),
    {
        if str_eq(op1.operation.as_str(), op2.operation.as_str()) {
            let op = op1.operation.as_str();
            if str_eq(op, "increment") || str_eq(op, "decrement") {
                let v1 = Self::counter_of(&op1.input);
                let v2 = Self::counter_of(&op2.input);
                let sum = v1 + v2;
                let number = if sum >= 0 {
                    JsonNumber::PosInt(sum as u64)
                } else {
                    JsonNumber::NegInt(sum)
                };
                let result = single_member("value", Json::Number(number));
                ConflictResolution::Merged { result }
            } else if str_eq(op, "add_to_set") {
                let set1 = Self::elements_of(&op1.input);
                let set2 = Self::elements_of(&op2.input);
                let merged = union_vec(set1, &set2);
                let result = single_member("elements", Json::Array(merged));
                ConflictResolution::Merged { result }
            } else {
                ConflictResolution::Manual { option_a: op1.copy(), option_b: op2.copy() }
            }
        } else {
            ConflictResolution::Manual { option_a: op1.copy(), option_b: op2.copy() }
        }
    }

    /// The priority of a node, 0 when unset.
    fn priority(&self, node_id: &str) -> (p: u8)
        ensures
            p == self.priority_of(node_id@),
    {
        proof { use_type_invariant(self); }
        match self.node_priorities.get_str(node_id) {
            Some(p) => *p,
            None => 0,
        }
    }
}

fn single_member(key: &str, value: Json) -> (j: Json)
    ensures
        j@ == JsonV::Object(seq![(key@, value@)]),
{
    let ghost vv = value@;
    let mut m: Vec<(String, Json)> = Vec::new();
    m.push((String::from_str(key), value));
    let j = Json::Object(m);
    proof {
        crate::json::lemma_members_view_pub(m@, 1);
        assert(crate::json::members_view(m@, 1) =~= seq![(key@, vv)]);
    }
    j
}

fn copy_items(v: &Vec<Json>) -> (r: Vec<Json>)
    ensures
        items_view(r@, r@.len() as int) == items_view(v@, v@.len() as int),
{
    let mut r: Vec<Json> = Vec::new();
    let mut i: usize = 0;
    while i < v.len()
        invariant
            i <= v@.len(),
            r@.len() == i,
            forall|k: int| 0 <= k < i ==> (#[trigger] r@[k])@ == v@[k]@,
        decreases v@.len() - i,
    {
        r.push(v[i].copy());
        i = i + 1;
    }
    proof {
        crate::json::lemma_items_view_pub(r@, r@.len() as int);
        crate::json::lemma_items_view_pub(v@, v@.len() as int);
        assert(items_view(r@, r@.len() as int) =~= items_view(v@, v@.len() as int));
    }
    r
}

/// `a` extended by the items of `b` that it does not hold yet.
fn union_vec(a: Vec<Json>, b: &Vec<Json>) -> (r: Vec<Json>)
    ensures
        items_view(r@, r@.len() as int) == union_items(items_view(a@, a@.len() as int), items_view(b@, b@.len() as int)),
{
    let ghost bv = items_view(b@, b@.len() as int);
    proof { crate::json::lemma_items_view_pub(b@, b@.len() as int); }
    let mut r = a;
    let ghost av = items_view(r@, r@.len() as int);
    let mut i: usize = 0;
    while i < b.len()
        invariant
            bv == items_view(b@, b@.len() as int),
            bv.len() == b@.len(),
            forall|k: int| 0 <= k < b@.len() ==> #[trigger] bv[k] == b@[k]@,
            i <= b@.len(),
            items_view(r@, r@.len() as int) == union_items(av, bv.subrange(0, i as int)),
        decreases b@.len() - i,
    {
        let ghost m = items_view(r@, r@.len() as int);
        proof {
            crate::json::lemma_items_view_pub(r@, r@.len() as int);
            assert(bv.subrange(0, i + 1).drop_last() =~= bv.subrange(0, i as int));
            assert(bv.subrange(0, i + 1).last() == b@[i as int]@);
        }
        let mut found = false;
        let mut k: usize = 0;
        while k < r.len()
            invariant
                m == items_view(r@, r@.len() as int),
                m.len() == r@.len(),
                forall|q: int| 0 <= q < r@.len() ==> #[trigger] m[q] == r@[q]@,
                k <= r@.len(),
                i < b@.len(),
                found == (exists|q: int| 0 <= q < k && m[q] == b@[i as int]@),
            decreases r@.len() - k,
        {
            let same = r[k].json_eq(&b[i]);
            proof { assert(m[k as int] == r@[k as int]@); }
            if same {
                found = true;
            }
            k = k + 1;
        }
        proof {
            assert(found == m.contains(b@[i as int]@));
            let x = b@[i as int]@;
            let sub = bv.subrange(0, i + 1);
            assert(sub.len() > 0);
            assert(union_items(av, sub) == (if union_items(av, sub.drop_last()).contains(sub.last()) {
                union_items(av, sub.drop_last())
            } else {
                union_items(av, sub.drop_last()).push(sub.last())
            }));
            assert(union_items(av, sub) == (if m.contains(x) { m } else { m.push(x) }));
        }
        if !found {
            let ghost before = r@;
            r.push(b[i].copy());
            proof {
                crate::json::lemma_items_view_pub(r@, r@.len() as int);
                assert(items_view(r@, r@.len() as int) =~= m.push(b@[i as int]@));
            }
        }
        i = i + 1;
    }
    proof { assert(bv.subrange(0, b@.len() as int) =~= bv); }
    r
}

} // verus!
