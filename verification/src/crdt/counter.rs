//! Grow-only and positive-negative counters.

use vstd::prelude::*;
use crate::assoc::{StrMap, map_sum, lemma_map_sum_remove, lemma_map_sum_insert, lemma_map_sum_empty};
use crate::version_vector::{vv_merge, vv_count, max_u64, merge_max_into};

verus! {

/// G-Counter: a grow-only counter, one count per node.
#[derive(Debug)]
pub struct GCounter {
    counts: StrMap<u64>,
    node_id: String,
}

impl GCounter {
    #[verifier::type_invariant]
    closed spec fn inv(self) -> bool {
        self.counts.wf() && self.counts@.contains_key(self.node_id@)
    }

    /// Count per node.
    pub closed spec fn view(self) -> Map<Seq<char>, u64> {
        self.counts@
    }

    /// This replica's node ID.
    pub closed spec fn node(self) -> Seq<char> {
        self.node_id@
    }

    /// The counter's value: the sum of all node counts.
    pub open spec fn spec_value(self) -> int {
        map_sum(self@)
    }

    /// A counter whose own node has count 0.
    pub fn new(node_id: String) -> (c: Self)
        ensures
            c@ == Map::<Seq<char>, u64>::empty().insert(node_id@, 0),
            c.node() == node_id@,
            c@.dom().finite(),
            c.spec_value() == 0,
    {
        let mut counts = StrMap::new();
        counts.push_new(node_id.clone(), 0);
        proof {
            lemma_map_sum_empty::<Seq<char>>();
            lemma_map_sum_insert(Map::<Seq<char>, u64>::empty(), node_id@, 0);
            assert(Map::<Seq<char>, u64>::empty().dom().finite());
        }
        GCounter { counts, node_id }
    }

    /// Adds `amount` to this node's count.
    pub fn increment(&mut self, amount: u64)
        requires
            vv_count(old(self)@, old(self).node()) + amount <= u64::MAX,
        ensures
            final(self).node() == old(self).node(),
            final(self)@ == old(self)@.insert(old(self).node(), (vv_count(old(self)@, old(self).node()) + amount) as u64),
            final(self).spec_value() == old(self).spec_value() + amount,
            final(self)@.dom().finite(),
    {
        let mut tmp = GCounter::new(String::new());
        std::mem::swap(self, &mut tmp);
        proof {
            use_type_invariant(&tmp);
            tmp.counts.lemma_len();
        }
        let GCounter { mut counts, node_id } = tmp;
        let ghost m = counts@;
        let ghost k = node_id@;
        match counts.find_str(node_id.as_str()) {
            Some(i) => {
                let ghost old_counts = counts;
                let c = *counts.value_at(i) + amount;
                *counts.value_at_mut(i) = c;
                proof {
                    StrMap::lemma_value_updated(old_counts, counts, i as int, c);
                    lemma_map_sum_remove(m, k);
                    assert(m.insert(k, c).remove(k) =~= m.remove(k));
                    assert(m.remove(k).dom().finite());
                    lemma_map_sum_insert(m.remove(k), k, c);
                    assert(m.remove(k).insert(k, c) =~= m.insert(k, c));
                }
            },
            None => {},
        }
        *self = GCounter { counts, node_id };
        proof {
            use_type_invariant(&*self);
            self.counts.lemma_len();
        }
    }

    /// The counter's value: the sum of all node counts.
    pub fn value(&self) -> (v: u64)
        requires
            self.spec_value() <= u64::MAX,
        ensures
            v == self.spec_value(),
    {
        proof { use_type_invariant(self); }
        self.counts.sum()
    }

    /// Merges another replica: per node, the larger count.
    pub fn merge(&mut self, other: &GCounter)
        ensures
            final(self).node() == old(self).node(),
            final(self)@ == vv_merge(old(self)@, other@),
            final(self)@.dom().finite(),
    {
        let mut tmp = GCounter::new(String::new());
        std::mem::swap(self, &mut tmp);
        proof {
            use_type_invariant(&tmp);
            use_type_invariant(other);
        }
        let GCounter { mut counts, node_id } = tmp;
        merge_max_into(&mut counts, &other.counts);
        *self = GCounter { counts, node_id };
        proof {
            use_type_invariant(&*self);
            self.counts.lemma_len();
        }
    }

    /// The per-node counts.
    pub fn get_breakdown(&self) -> (m: StrMap<u64>)
        ensures
            m.wf(),
            m@ == self@,
    {
        proof { use_type_invariant(self); }
        self.counts.copy()
    }
}

/// PN-Counter: a counter that can go up and down, as two G-Counters.
#[derive(Debug)]
pub struct PNCounter {
    positive: GCounter,
    negative: GCounter,
}

impl PNCounter {
    #[verifier::type_invariant]
    closed spec fn inv(self) -> bool {
        self.positive.node() == self.negative.node()
    }

    /// Increments per node.
    pub closed spec fn positive(self) -> Map<Seq<char>, u64> {
        self.positive@
    }

    /// Decrements per node.
    pub closed spec fn negative(self) -> Map<Seq<char>, u64> {
        self.negative@
    }

    /// This replica's node ID.
    pub closed spec fn node(self) -> Seq<char> {
        self.positive.node()
    }

    /// The counter's value: increments minus decrements.
    pub open spec fn spec_value(self) -> int {
        map_sum(self.positive()) - map_sum(self.negative())
    }

    /// A zero counter.
    pub fn new(node_id: String) -> (c: Self)
        ensures
            c.positive() == Map::<Seq<char>, u64>::empty().insert(node_id@, 0),
            c.negative() == Map::<Seq<char>, u64>::empty().insert(node_id@, 0),
            c.node() == node_id@,
            map_sum(c.positive()) == 0,
            map_sum(c.negative()) == 0,
    {
        PNCounter { positive: GCounter::new(node_id.clone()), negative: GCounter::new(node_id) }
    }

    /// Adds `amount`.
    pub fn increment(&mut self, amount: u64)
        requires
            vv_count(old(self).positive(), old(self).node()) + amount <= u64::MAX,
        ensures
            final(self).node() == old(self).node(),
            final(self).positive() == old(self).positive().insert(
                old(self).node(),
                (vv_count(old(self).positive(), old(self).node()) + amount) as u64,
            ),
            final(self).negative() == old(self).negative(),
            map_sum(final(self).positive()) == map_sum(old(self).positive()) + amount,
    {
        let mut tmp = PNCounter::new(String::new());
        std::mem::swap(self, &mut tmp);
        proof { use_type_invariant(&tmp); }
        let PNCounter { mut positive, negative } = tmp;
        positive.increment(amount);
        *self = PNCounter { positive, negative };
    }

    /// Subtracts `amount`.
    pub fn decrement(&mut self, amount: u64)
        requires
            vv_count(old(self).negative(), old(self).node()) + amount <= u64::MAX,
        ensures
            final(self).node() == old(self).node(),
            final(self).negative() == old(self).negative().insert(
                old(self).node(),
                (vv_count(old(self).negative(), old(self).node()) + amount) as u64,
            ),
            final(self).positive() == old(self).positive(),
            map_sum(final(self).negative()) == map_sum(old(self).negative()) + amount,
    {
        let mut tmp = PNCounter::new(String::new());
        std::mem::swap(self, &mut tmp);
        proof { use_type_invariant(&tmp); }
        let PNCounter { positive, mut negative } = tmp;
        negative.increment(amount);
        *self = PNCounter { positive, negative };
    }

    /// The counter's value.
    pub fn value(&self) -> (v: i64)
        requires
            map_sum(self.positive()) <= i64::MAX,
            map_sum(self.negative()) <= i64::MAX,
        ensures
            v == self.spec_value(),
    {
        let p = self.positive.value();
        let n = self.negative.value();
        p as i64 - n as i64
    }

    /// Merges another replica, both halves pointwise.
    pub fn merge(&mut self, other: &PNCounter)
        ensures
            final(self).node() == old(self).node(),
            final(self).positive() == vv_merge(old(self).positive(), other.positive()),
            final(self).negative() == vv_merge(old(self).negative(), other.negative()),
    {
        let mut tmp = PNCounter::new(String::new());
        std::mem::swap(self, &mut tmp);
        proof { use_type_invariant(&tmp); }
        let PNCounter { mut positive, mut negative } = tmp;
        positive.merge(&other.positive);
        negative.merge(&other.negative);
        *self = PNCounter { positive, negative };
    }
}

impl Clone for GCounter {
    /// A replica with the same counts and node.
    fn clone(&self) -> (c: Self)
        ensures
            c@ == self@,
            c.node() == self.node(),
    {
        proof { use_type_invariant(self); }
        GCounter { counts: self.counts.copy(), node_id: self.node_id.clone() }
    }
}

impl Clone for PNCounter {
    /// A replica with the same counts and node.
    fn clone(&self) -> (c: Self)
        ensures
            c.positive() == self.positive(),
            c.negative() == self.negative(),
            c.node() == self.node(),
    {
        proof { use_type_invariant(self); }
        PNCounter { positive: self.positive.clone(), negative: self.negative.clone() }
    }
}

/// Merging never lowers a counter's value: the merge of `a` and `b` sums to
/// at least what `a` sums to, and when no node appears in both it sums to
/// exactly the two sums added.
pub proof fn lemma_merge_sum(a: Map<Seq<char>, u64>, b: Map<Seq<char>, u64>)
    requires
        a.dom().finite(),
        b.dom().finite(),
    ensures
        vv_merge(a, b).dom().finite(),
        map_sum(vv_merge(a, b)) >= map_sum(a),
        a.dom().disjoint(b.dom()) ==> map_sum(vv_merge(a, b)) == map_sum(a) + map_sum(b),
    decreases b.dom().len(),
{
    assert(vv_merge(a, b).dom() =~= a.dom().union(b.dom()));
    if b.dom().len() == 0 {
        assert(b =~= Map::<Seq<char>, u64>::empty()) by {
            assert(b.dom() =~= Set::empty());
        }
        assert(vv_merge(a, b) =~= a);
        lemma_map_sum_empty::<Seq<char>>();
    } else {
        let k = b.dom().choose();
        let v = b[k];
        let p = b.remove(k);
        assert(p.dom() =~= b.dom().remove(k));
        lemma_merge_sum(a, p);
        assert(p.insert(k, v) =~= b);
        let mp = vv_merge(a, p);
        assert(vv_merge(a, b) =~= mp.insert(k, if a.contains_key(k) { max_u64(a[k], v) } else { v }));
        lemma_map_sum_remove(b, k);
        if a.contains_key(k) {
            assert(mp.contains_key(k) && mp[k] == a[k]);
            lemma_map_sum_remove(mp, k);
            let mb = vv_merge(a, b);
            lemma_map_sum_remove(mb, k);
            assert(mb.remove(k) =~= mp.remove(k));
        } else {
            assert(!mp.contains_key(k));
            lemma_map_sum_insert(mp, k, v);
            if a.dom().disjoint(b.dom()) {
                assert(a.dom().disjoint(p.dom()));
            }
        }
    }
}

/// Merging counter replicas converges: the merge is commutative,
/// associative and idempotent, so replicas that have exchanged state agree.
pub proof fn lemma_gcounter_merge_laws(a: Map<Seq<char>, u64>, b: Map<Seq<char>, u64>, c: Map<Seq<char>, u64>)
    ensures
        vv_merge(a, b) == vv_merge(b, a),
        vv_merge(vv_merge(a, b), c) == vv_merge(a, vv_merge(b, c)),
        vv_merge(a, a) == a,
{
    assert(vv_merge(a, b) =~= vv_merge(b, a));
    assert(vv_merge(vv_merge(a, b), c) =~= vv_merge(a, vv_merge(b, c)));
    assert(vv_merge(a, a) =~= a);
}

/// Merging PN-counter replicas converges: the merged value does not depend
/// on the order of the replicas, merging a replica in again changes
/// nothing, and merging with oneself changes nothing.
pub proof fn lemma_pncounter_merge_laws(
    ap: Map<Seq<char>, u64>,
    an: Map<Seq<char>, u64>,
    bp: Map<Seq<char>, u64>,
    bn: Map<Seq<char>, u64>,
)
    ensures
        map_sum(vv_merge(ap, bp)) - map_sum(vv_merge(an, bn)) == map_sum(vv_merge(bp, ap)) - map_sum(vv_merge(bn, an)),
        vv_merge(vv_merge(ap, bp), bp) == vv_merge(ap, bp),
        vv_merge(vv_merge(an, bn), bn) == vv_merge(an, bn),
        vv_merge(ap, ap) == ap && vv_merge(an, an) == an,
{
    lemma_gcounter_merge_laws(ap, bp, bp);
    lemma_gcounter_merge_laws(an, bn, bn);
    lemma_gcounter_merge_laws(ap, an, an);
    lemma_gcounter_merge_laws(an, ap, ap);
    lemma_gcounter_merge_laws(bp, bp, bp);
    assert(vv_merge(bp, bp) =~= bp);
    assert(vv_merge(bn, bn) =~= bn);
}

} // verus!
