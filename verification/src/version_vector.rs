//! Version vectors: per-node operation counters for causal tracking.

use vstd::prelude::*;
use crate::order::strictly_sorted;
use crate::assoc::{StrMap, map_sum};
use crate::text::{debug_str, decimal, push_decimal, str_debug_of, string_push_str};
use crate::json::{json_quote, json_string_of};

verus! {

/// The count a version vector map gives a node (0 when absent).
pub open spec fn vv_count(m: Map<Seq<char>, u64>, k: Seq<char>) -> nat {
    if m.contains_key(k) { m[k] as nat } else { 0 }
}

/// `a` happened-before `b` (`a ≤ b`): every node listed in `a` is listed in
/// `b` with a count at least as large.
pub open spec fn vv_happens_before(a: Map<Seq<char>, u64>, b: Map<Seq<char>, u64>) -> bool {
    forall|k: Seq<char>| #[trigger] a.contains_key(k) ==> b.contains_key(k) && a[k] <= b[k]
}

/// Neither vector happened-before the other.
pub open spec fn vv_conflicts(a: Map<Seq<char>, u64>, b: Map<Seq<char>, u64>) -> bool {
    !vv_happens_before(a, b) && !vv_happens_before(b, a)
}

/// The larger of two counts.
pub open spec fn max_u64(x: u64, y: u64) -> u64 {
    if x >= y { x } else { y }
}

/// The pointwise maximum of two version vector maps, over the union of
/// their nodes.
pub open spec fn vv_merge(a: Map<Seq<char>, u64>, b: Map<Seq<char>, u64>) -> Map<Seq<char>, u64> {
    Map::new(
        |k: Seq<char>| a.contains_key(k) || b.contains_key(k),
        |k: Seq<char>|
            if a.contains_key(k) && b.contains_key(k) {
                max_u64(a[k], b[k])
            } else if a.contains_key(k) {
                a[k]
            } else {
                b[k]
            },
    )
}

/// `"node": count` for each entry, separated by `, `, as `Debug` prints a
/// map.
pub open spec fn entries_debug(s: Seq<(String, u64)>) -> Seq<char>
    decreases s.len(),
{
    if s.len() == 0 {
        Seq::empty()
    } else {
        let item = str_debug_of(s.last().0@) + ": "@ + decimal(s.last().1 as nat);
        if s.len() == 1 { item } else { entries_debug(s.drop_last()) + ", "@ + item }
    }
}

/// The entries with their node IDs as text.
pub open spec fn entry_views(s: Seq<(String, u64)>) -> Seq<(Seq<char>, u64)> {
    s.map_values(|e: (String, u64)| (e.0@, e.1))
}

/// `"node":count` for each entry, separated by commas, as JSON writes an
/// object's members.
pub open spec fn entries_json(s: Seq<(String, u64)>) -> Seq<char>
    decreases s.len(),
{
    if s.len() == 0 {
        Seq::empty()
    } else {
        let item = json_string_of(s.last().0@) + ":"@ + decimal(s.last().1 as nat);
        if s.len() == 1 { item } else { entries_json(s.drop_last()) + ","@ + item }
    }
}

/// Version vector for tracking causality across distributed nodes: a map
/// from node IDs to logical clocks.
#[derive(Debug)]
pub struct VersionVector {
    versions: StrMap<u64>,
}

impl VersionVector {
    #[verifier::type_invariant]
    closed spec fn inv(self) -> bool {
        self.versions.wf() && strictly_sorted(self.versions.key_seq())
    }

    /// The abstract map from node ID to count.
    pub closed spec fn view(self) -> Map<Seq<char>, u64> {
        self.versions@
    }

    /// The (node, count) entries in storage order.
    pub closed spec fn entries(self) -> Seq<(String, u64)> {
        self.versions.entries()
    }

    /// The count of a node (0 when absent).
    pub open spec fn count(self, k: Seq<char>) -> nat {
        vv_count(self@, k)
    }

    /// Create a new empty version vector.
    pub fn new() -> (v: Self)
        ensures
            v@ == Map::<Seq<char>, u64>::empty(),
    {
        let versions = StrMap::new();
        assert(versions.key_seq() =~= Seq::<Seq<char>>::empty());
        VersionVector { versions }
    }

    /// Increment the count for a given node and return the new count.
    pub fn increment(&mut self, node_id: &str) -> (c: u64)
        requires
            old(self).count(node_id@) < u64::MAX,
        ensures
            c == old(self).count(node_id@) + 1,
            final(self)@ == old(self)@.insert(node_id@, c),
    {
        proof { use_type_invariant(&*self); }
        let mut versions = StrMap::new();
        std::mem::swap(&mut versions, &mut self.versions);
        let c: u64 = match versions.find_str(node_id) {
            Some(i) => {
                let ghost old_map = versions;
                let c: u64 = *versions.value_at(i) + 1;
                *versions.value_at_mut(i) = c;
                assert(versions.key_seq() =~= old_map.key_seq());
                proof { StrMap::lemma_value_updated(old_map, versions, i as int, c); }
                c
            },
            None => {
                versions.push_sorted(node_id.to_string(), 1);
                1
            },
        };
        self.versions = versions;
        c
    }

    /// Sets the count of a node (used when a vector is read back from its
    /// serialised form).
    pub fn set_count(&mut self, node_id: String, count: u64)
        ensures
            final(self)@ == old(self)@.insert(node_id@, count),
    {
        proof { use_type_invariant(&*self); }
        let mut versions = StrMap::new();
        std::mem::swap(&mut versions, &mut self.versions);
        match versions.find_str(node_id.as_str()) {
            Some(i) => {
                let ghost old_map = versions;
                *versions.value_at_mut(i) = count;
                proof { StrMap::lemma_value_updated(old_map, versions, i as int, count); }
                assert(versions.key_seq() =~= old_map.key_seq());
            },
            None => {
                versions.push_sorted(node_id, count);
            },
        }
        self.versions = versions;
    }

    /// Check if self happened-before other (self ≤ other): every entry of
    /// self is present in other with a count at least as large.
    pub fn happens_before(&self, other: &VersionVector) -> (b: bool)
        ensures
            b == vv_happens_before(self@, other@),
    {
        proof {
            use_type_invariant(self);
            use_type_invariant(other);
        }
        let n = self.versions.len();
        let mut i: usize = 0;
        while i < n
            invariant
                self.versions.wf(),
                other.versions.wf(),
                n == self.versions.entries().len(),
                i <= n,
                forall|j: int| 0 <= j < i ==> {
                    let e = #[trigger] self.versions.entries()[j];
                    other@.contains_key(e.0@) && e.1 <= other@[e.0@]
                },
            decreases n - i,
        {
            let key = self.versions.key_at(i);
            let count = *self.versions.value_at(i);
            match other.versions.get_str(key.as_str()) {
                Some(oc) => {
                    if count > *oc {
                        proof { self.versions.lemma_entry_in_view(i as int); }
                        return false;
                    }
                },
                None => {
                    proof { self.versions.lemma_entry_in_view(i as int); }
                    return false;
                },
            }
            i = i + 1;
        }
        proof {
            assert forall|k: Seq<char>| #[trigger] self@.contains_key(k) implies other@.contains_key(k)
                && self@[k] <= other@[k] by {
                let j = self.versions.lemma_key_in_entries(k);
            }
        }
        true
    }

    /// Check if vectors conflict (neither dominates the other).
    pub fn conflicts_with(&self, other: &VersionVector) -> (b: bool)
        ensures
            b == vv_conflicts(self@, other@),
    {
        !self.happens_before(other) && !other.happens_before(self)
    }

    /// Merge two version vectors (take max per node).
    pub fn merge(&self, other: &VersionVector) -> (m: VersionVector)
        ensures
            m@ == vv_merge(self@, other@),
    {
        proof {
            use_type_invariant(self);
            use_type_invariant(other);
        }
        let mut merged = self.versions.copy();
        assert(merged.key_seq() =~= self.versions.key_seq());
        merge_max_into(&mut merged, &other.versions);
        VersionVector { versions: merged }
    }

    /// Get the count for a specific node (0 if not present).
    pub fn get(&self, node_id: &str) -> (c: u64)
        ensures
            c == self.count(node_id@),
    {
        proof { use_type_invariant(self); }
        match self.versions.get_str(node_id) {
            Some(c) => *c,
            None => 0,
        }
    }

    /// Get the total number of operations across all nodes.
    pub fn total_operations(&self) -> (t: u64)
        requires
            map_sum(self@) <= u64::MAX,
        ensures
            t == map_sum(self@),
    {
        proof { use_type_invariant(self); }
        self.versions.sum()
    }

    /// The node IDs, in storage order: each node of the view once.
    pub fn node_ids(&self) -> (v: Vec<String>)
        ensures
            v@.len() == self.entries().len(),
            v@.len() == self@.dom().len(),
            forall|i: int| 0 <= i < v@.len() ==> (#[trigger] v@[i]) == self.entries()[i].0,
            forall|i: int| 0 <= i < v@.len() ==> self@.contains_key(#[trigger] v@[i]@),
    {
        proof {
            use_type_invariant(self);
            self.versions.lemma_len();
        }
        let n = self.versions.len_raw();
        let mut v: Vec<String> = Vec::new();
        let mut i: usize = 0;
        while i < n
            invariant
                self.versions.wf(),
                n == self.versions.entries().len(),
                i <= n,
                v@.len() == i,
                forall|j: int| 0 <= j < i ==> (#[trigger] v@[j]) == self.versions.entries()[j].0,
                forall|j: int| 0 <= j < i ==> self.versions@.contains_key(#[trigger] v@[j]@),
            decreases n - i,
        {
            proof { self.versions.lemma_entry_in_view(i as int); }
            v.push(self.versions.key_at(i).clone());
            i = i + 1;
        }
        v
    }

    /// The `Debug` text of this vector in the form of a map:
    /// `VersionVector { versions: {"a": 1, "b": 2} }`.
    pub fn debug_text(&self) -> (s: String)
        ensures
            s@ == "VersionVector { versions: {"@ + entries_debug(self.entries()) + "} }"@,
    {
        let n = self.versions.len_raw();
        let mut s = String::from_str("VersionVector { versions: {");
        let ghost e = self.entries();
        let mut i: usize = 0;
        while i < n
            invariant
                e == self.entries(),
                n == e.len(),
                i <= n,
                s@ == "VersionVector { versions: {"@ + entries_debug(e.subrange(0, i as int)),
            decreases n - i,
        {
            proof { assert(e.subrange(0, i + 1).drop_last() =~= e.subrange(0, i as int)); }
            if i > 0 {
                string_push_str(&mut s, ", ");
            }
            let k = debug_str(self.versions.key_at(i).as_str());
            string_push_str(&mut s, k.as_str());
            string_push_str(&mut s, ": ");
            push_decimal(&mut s, *self.versions.value_at(i));
            proof {
                if i == 0 {
                    assert(e.subrange(0, 0) =~= Seq::<(String, u64)>::empty());
                }
                assert(s@ =~= "VersionVector { versions: {"@ + entries_debug(e.subrange(0, i + 1)));
            }
            i = i + 1;
        }
        string_push_str(&mut s, "} }");
        proof { assert(e.subrange(0, n as int) =~= e); }
        s
    }

    /// The counts as a JSON object, entries in storage order:
    /// `{"a":1,"b":2}`.
    pub fn versions_json(&self) -> (s: String)
        ensures
            s@ == "{"@ + entries_json(self.entries()) + "}"@,
    {
        let n = self.versions.len_raw();
        let mut s = String::from_str("{");
        let ghost e = self.entries();
        let mut i: usize = 0;
        while i < n
            invariant
                e == self.entries(),
                n == e.len(),
                i <= n,
                s@ == "{"@ + entries_json(e.subrange(0, i as int)),
            decreases n - i,
        {
            proof { assert(e.subrange(0, i + 1).drop_last() =~= e.subrange(0, i as int)); }
            if i > 0 {
                string_push_str(&mut s, ",");
            }
            let k = json_quote(self.versions.key_at(i).as_str());
            string_push_str(&mut s, k.as_str());
            string_push_str(&mut s, ":");
            push_decimal(&mut s, *self.versions.value_at(i));
            proof {
                if i == 0 {
                    assert(e.subrange(0, 0) =~= Seq::<(String, u64)>::empty());
                }
                assert(s@ =~= "{"@ + entries_json(e.subrange(0, i + 1)));
            }
            i = i + 1;
        }
        string_push_str(&mut s, "}");
        proof { assert(e.subrange(0, n as int) =~= e); }
        s
    }

    /// The counts as a map from node ID to count, entries in storage order.
    pub fn to_map(&self) -> (m: StrMap<u64>)
        ensures
            m.wf(),
            m@ == self@,
            entry_views(m.entries()) == entry_views(self.entries()),
    {
        proof { use_type_invariant(self); }
        let m = self.versions.copy();
        assert(entry_views(m.entries()) =~= entry_views(self.entries()));
        m
    }

    /// Check if this vector is empty.
    pub fn is_empty(&self) -> (b: bool)
        ensures
            b == (self@.dom() == Set::<Seq<char>>::empty()),
    {
        proof { use_type_invariant(self); }
        let n = self.versions.len();
        proof {
            if n == 0 {
                assert forall|k: Seq<char>| !#[trigger] self@.dom().contains(k) by {
                    if self@.dom().contains(k) {
                        let j = self.versions.lemma_key_in_entries(k);
                    }
                }
                assert(self@.dom() =~= Set::<Seq<char>>::empty());
            } else {
                assert(self@.dom().len() > 0);
            }
        }
        n == 0
    }
}

/// Merging version vectors is commutative.
pub proof fn lemma_vv_merge_commutative(a: Map<Seq<char>, u64>, b: Map<Seq<char>, u64>)
    ensures
        vv_merge(a, b) == vv_merge(b, a),
{
    assert(vv_merge(a, b) =~= vv_merge(b, a));
}

/// Merging version vectors is associative.
pub proof fn lemma_vv_merge_associative(a: Map<Seq<char>, u64>, b: Map<Seq<char>, u64>, c: Map<Seq<char>, u64>)
    ensures
        vv_merge(vv_merge(a, b), c) == vv_merge(a, vv_merge(b, c)),
{
    assert(vv_merge(vv_merge(a, b), c) =~= vv_merge(a, vv_merge(b, c)));
}

/// Merging a version vector with itself changes nothing.
pub proof fn lemma_vv_merge_idempotent(a: Map<Seq<char>, u64>)
    ensures
        vv_merge(a, a) == a,
{
    assert(vv_merge(a, a) =~= a);
}

/// The merge is an upper bound of both inputs, and the least one: any
/// vector that both inputs happened-before, the merge happened-before too.
pub proof fn lemma_vv_merge_least_upper_bound(a: Map<Seq<char>, u64>, b: Map<Seq<char>, u64>, c: Map<Seq<char>, u64>)
    ensures
        vv_happens_before(a, vv_merge(a, b)),
        vv_happens_before(b, vv_merge(a, b)),
        vv_happens_before(a, c) && vv_happens_before(b, c) ==> vv_happens_before(vv_merge(a, b), c),
{
}

/// Happened-before is reflexive and transitive.
pub proof fn lemma_vv_happens_before_preorder(a: Map<Seq<char>, u64>, b: Map<Seq<char>, u64>, c: Map<Seq<char>, u64>)
    ensures
        vv_happens_before(a, a),
        vv_happens_before(a, b) && vv_happens_before(b, c) ==> vv_happens_before(a, c),
{
}

/// Conflict is symmetric, and a vector never conflicts with one it
/// happened-before.
pub proof fn lemma_vv_conflicts_symmetric(a: Map<Seq<char>, u64>, b: Map<Seq<char>, u64>)
    ensures
        vv_conflicts(a, b) == vv_conflicts(b, a),
        vv_happens_before(a, b) ==> !vv_conflicts(a, b),
{
}

/// Incrementing a node's count moves a vector strictly forward: the old
/// vector happened-before the new one and not the other way round.
pub proof fn lemma_vv_increment_advances(a: Map<Seq<char>, u64>, k: Seq<char>)
    requires
        vv_count(a, k) < u64::MAX,
    ensures
        vv_happens_before(a, a.insert(k, (vv_count(a, k) + 1) as u64)),
        !vv_happens_before(a.insert(k, (vv_count(a, k) + 1) as u64), a),
{
    let b = a.insert(k, (vv_count(a, k) + 1) as u64);
    assert(b.contains_key(k));
}

impl Clone for VersionVector {
    /// A copy with the same node counts.
    fn clone(&self) -> (v: Self)
        ensures
            v@ == self@,
            entry_views(v.entries()) == entry_views(self.entries()),
    {
        proof { use_type_invariant(self); }
        let c = self.versions.copy();
        assert(c.key_seq() =~= self.versions.key_seq());
        let v = VersionVector { versions: c };
        assert(entry_views(v.entries()) =~= entry_views(self.entries()));
        v
    }
}

impl Default for VersionVector {
    /// An empty version vector.
    fn default() -> (v: Self)
        ensures
            v@ == Map::<Seq<char>, u64>::empty(),
    {
        VersionVector::new()
    }
}

/// Merges `other` into `target`, keeping the larger count for each key.
pub fn merge_max_into(target: &mut StrMap<u64>, other: &StrMap<u64>)
    requires
        old(target).wf(),
        other.wf(),
    ensures
        final(target).wf(),
        final(target)@ == vv_merge(old(target)@, other@),
        strictly_sorted(old(target).key_seq()) ==> strictly_sorted(final(target).key_seq()),
{
    let ghost sorted0 = strictly_sorted(target.key_seq());
    let ghost base = target@;
    let n = other.len();
    let mut i: usize = 0;
    proof {
        other.lemma_prefix_ends();
        assert(vv_merge(base, Map::empty()) =~= base);
    }
    while i < n
        invariant
            other.wf(),
            target.wf(),
            n == other.entries().len(),
            i <= n,
            target@ == vv_merge(base, other.prefix_view(i as int)),
            sorted0 ==> strictly_sorted(target.key_seq()),
        decreases n - i,
    {
        let key = other.key_at(i);
        let count = *other.value_at(i);
        proof {
            other.lemma_prefix_step(i as int);
            lemma_merge_step(base, other.prefix_view(i as int), key@, count);
        }
        let ghost old_target = *target;
        match target.find_str(key.as_str()) {
            Some(p) => {
                let cur = *target.value_at(p);
                let newc = if cur >= count { cur } else { count };
                *target.value_at_mut(p) = newc;
                proof { StrMap::lemma_value_updated(old_target, *target, p as int, newc); }
                assert(target.key_seq() =~= old_target.key_seq());
            },
            None => {
                target.push_sorted(key.clone(), count);
            },
        }
        i = i + 1;
    }
    proof { other.lemma_prefix_ends(); }
}

/// Merging in one more fresh entry updates a single key of the merge.
proof fn lemma_merge_step(a: Map<Seq<char>, u64>, p: Map<Seq<char>, u64>, k: Seq<char>, c: u64)
    requires
        !p.contains_key(k),
    ensures
        vv_merge(a, p.insert(k, c)) == vv_merge(a, p).insert(
            k,
            if a.contains_key(k) { max_u64(a[k], c) } else { c },
        ),
        vv_merge(a, p).contains_key(k) == a.contains_key(k),
        a.contains_key(k) ==> vv_merge(a, p)[k] == a[k],
{
    assert(vv_merge(a, p.insert(k, c)) =~= vv_merge(a, p).insert(
        k,
        if a.contains_key(k) { max_u64(a[k], c) } else { c },
    ));
}

} // verus!
