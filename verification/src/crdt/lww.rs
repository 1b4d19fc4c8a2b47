//! Last-write-wins register and map.

use vstd::prelude::*;
use crate::assoc::{AssocMap, MapKey};
use crate::clock::unix_micros;
use crate::order::{str_lt, text_lt, lemma_text_lt_order};

verus! {

/// A register, as values.
pub struct RegView<T> {
    pub value: T,
    pub timestamp: u64,
    pub node: Seq<char>,
}

/// LWW register: the value of the latest write wins, ties broken by the
/// larger node ID.
#[derive(Clone, Debug)]
pub struct LWWRegister<T: Clone> {
    value: T,
    timestamp: u64,
    node_id: String,
}

/// The node of the register for key `k`: its own when present, else the
/// map's node `node`.
pub open spec fn reg_node<KV, V>(regs: Map<KV, RegView<V>>, k: KV, node: Seq<char>) -> Seq<char> {
    if regs.contains_key(k) { regs[k].node } else { node }
}

/// A register written with `value` at time `now` by node `node`.
pub open spec fn write_of<T>(value: T, now: u64, node: Seq<char>) -> RegView<T> {
    RegView { value, timestamp: now, node }
}

/// `r` is what merging `b` into `a` leaves: `b` wins when it is newer, or
/// equally new from a larger node ID (taking a clone of its value; the
/// timestamp is already equal in the second case); otherwise `a` stays.
pub open spec fn lww_merged<T: Clone>(a: RegView<T>, b: RegView<T>, r: RegView<T>) -> bool {
    if b.timestamp > a.timestamp || (b.timestamp == a.timestamp && text_lt(a.node, b.node)) {
        &&& cloned(b.value, r.value)
        &&& r.timestamp == b.timestamp
        &&& r.node == b.node
    } else {
        r == a
    }
}

/// Merging a register with an equal replica changes nothing; merging two
/// replicas either way round picks the same winner: the same write time
/// and node, and a clone of the winner's value.
pub proof fn lemma_lww_merge_laws<T: Clone>(a: RegView<T>, b: RegView<T>, r1: RegView<T>, r2: RegView<T>)
    ensures
        lww_merged(a, a, r1) ==> r1 == a,
        lww_merged(a, b, r1) && lww_merged(b, a, r2) && (a.timestamp != b.timestamp || a.node != b.node) ==> {
            &&& r1.timestamp == r2.timestamp
            &&& r1.node == r2.node
            &&& if r1.node == b.node && r1.timestamp == b.timestamp {
                cloned(b.value, r1.value) && r2 == b
            } else {
                r1 == a && cloned(a.value, r2.value)
            }
        },
{
    lemma_text_lt_order(a.node, b.node, a.node);
}

/// The later of two writes wins a merge, whichever register it is merged
/// into.
pub proof fn lemma_later_write_wins<T: Clone>(
    va: T,
    ta: u64,
    na: Seq<char>,
    vb: T,
    tb: u64,
    nb: Seq<char>,
    r1: RegView<T>,
    r2: RegView<T>,
)
    requires
        ta < tb,
    ensures
        lww_merged(write_of(va, ta, na), write_of(vb, tb, nb), r1) ==> r1.timestamp == tb && r1.node == nb && cloned(
            vb,
            r1.value,
        ),
        lww_merged(write_of(vb, tb, nb), write_of(va, ta, na), r2) ==> r2 == write_of(vb, tb, nb),
{
}

impl<T: Clone> View for LWWRegister<T> {
    type V = RegView<T>;

    closed spec fn view(&self) -> RegView<T> {
        RegView { value: self.value, timestamp: self.timestamp, node: self.node_id@ }
    }
}

impl<T: Clone> LWWRegister<T> {
    /// A register holding `initial_value`, written at time 0.
    pub fn new(initial_value: T, node_id: String) -> (r: Self)
        ensures
            r@ == (RegView { value: initial_value, timestamp: 0, node: node_id@ }),
    {
        LWWRegister { value: initial_value, timestamp: 0, node_id }
    }

    /// Write a value stamped with time `now` (microseconds).
    pub fn set_at(&mut self, value: T, now: u64)
        ensures
            final(self)@ == write_of(value, now, old(self)@.node),
    {
        self.value = value;
        self.timestamp = now;
    }

    /// Write a value, stamped with the current time (the clock gives the
    /// stamp; see `set_at`).
    pub fn set(&mut self, value: T)
        ensures
            exists|now: u64| final(self)@ == #[trigger] write_of(value, now, old(self)@.node),
            final(self)@.value == value,
            final(self)@.node == old(self)@.node,
    {
        let now = unix_micros();
        self.set_at(value, now);
    }

    /// The current value.
    pub fn get(&self) -> (v: &T)
        ensures
            *v == self@.value,
    {
        &self.value
    }

    /// Merge another replica: the later write wins.
    pub fn merge(&mut self, other: &LWWRegister<T>)
        ensures
            lww_merged(old(self)@, other@, final(self)@),
    {
        if other.timestamp > self.timestamp {
            self.value = other.value.clone();
            self.timestamp = other.timestamp;
            self.node_id = other.node_id.clone();
        } else if other.timestamp == self.timestamp && str_lt(self.node_id.as_str(), other.node_id.as_str()) {
            self.value = other.value.clone();
            self.node_id = other.node_id.clone();
        }
    }
}

impl<T: Copy> LWWRegister<T> {
    /// A copy of this register.
    pub fn copy(&self) -> (r: Self)
        ensures
            r@ == self@,
    {
        LWWRegister { value: self.value, timestamp: self.timestamp, node_id: self.node_id.clone() }
    }
}

/// The entries whose register holds a value, with that value, in order.
pub open spec fn live_entries<K: MapKey, V: Clone>(s: Seq<(K, LWWRegister<Option<V>>)>) -> Seq<(K, V)>
    decreases s.len(),
{
    if s.len() == 0 {
        Seq::empty()
    } else {
        let rest = live_entries(s.drop_last());
        match s.last().1@.value {
            Some(v) => rest.push((s.last().0, v)),
            None => rest,
        }
    }
}

/// Where each live entry stands among the entries: `idx[j]` is the
/// position of the `j`th live entry; positions increase, and every entry
/// holding a value is listed.
proof fn lemma_live_index<K: MapKey, V: Clone>(s: Seq<(K, LWWRegister<Option<V>>)>) -> (idx: Seq<int>)
    ensures
        idx.len() == live_entries(s).len(),
        forall|j: int| 0 <= j < idx.len() ==> 0 <= #[trigger] idx[j] < s.len() && s[idx[j]].0 == live_entries(s)[j].0
            && s[idx[j]].1@.value == Some(live_entries(s)[j].1),
        forall|j: int, l: int| 0 <= j < l < idx.len() ==> #[trigger] idx[j] < #[trigger] idx[l],
        forall|i: int| 0 <= i < s.len() && (#[trigger] s[i]).1@.value is Some ==> exists|j: int|
            0 <= j < idx.len() && idx[j] == i,
    decreases s.len(),
{
    if s.len() == 0 {
        Seq::empty()
    } else {
        let p = s.drop_last();
        let idx0 = lemma_live_index(p);
        let n = s.len() - 1;
        assert forall|i: int| 0 <= i < p.len() implies #[trigger] p[i] == s[i] by {}
        match s.last().1@.value {
            Some(x) => {
                let idx = idx0.push(n);
                assert forall|i: int| 0 <= i < s.len() && (#[trigger] s[i]).1@.value is Some implies exists|j: int|
                    0 <= j < idx.len() && idx[j] == i by {
                    if i < n {
                        assert(p[i] == s[i]);
                        let j = choose|j: int| 0 <= j < idx0.len() && idx0[j] == i;
                        assert(idx[j] == i);
                    } else {
                        assert(idx[idx0.len() as int] == i);
                    }
                }
                idx
            },
            None => {
                assert forall|i: int| 0 <= i < s.len() && (#[trigger] s[i]).1@.value is Some implies exists|j: int|
                    0 <= j < idx0.len() && idx0[j] == i by {
                    assert(i < n);
                    assert(p[i] == s[i]);
                }
                idx0
            },
        }
    }
}

/// What merging register map `b` into `a` (of node `node`) gives in `r`:
/// the keys of both, each register merged last-writer-wins, a register
/// missing from `a` starting from "no value" at time 0.
pub open spec fn lww_map_merged<KV, V: Clone>(
    a: Map<KV, RegView<Option<V>>>,
    node: Seq<char>,
    b: Map<KV, RegView<Option<V>>>,
    r: Map<KV, RegView<Option<V>>>,
) -> bool {
    &&& r.dom() == a.dom().union(b.dom())
    &&& forall|k: KV| #[trigger] r.contains_key(k) ==> {
        let base = if a.contains_key(k) { a[k] } else { RegView { value: None, timestamp: 0, node } };
        if b.contains_key(k) {
            lww_merged(base, b[k], r[k])
        } else {
            r[k] == base
        }
    }
}

/// LWW map: one LWW register per key; a removal writes "no value".
#[derive(Debug)]
pub struct LWWMap<K: MapKey, V: Clone> {
    entries: AssocMap<K, LWWRegister<Option<V>>>,
    node_id: String,
}

impl<K: MapKey, V: Clone> LWWMap<K, V> {
    #[verifier::type_invariant]
    closed spec fn inv(self) -> bool {
        self.entries.wf()
    }

    /// Key → register.
    pub closed spec fn registers(self) -> Map<K::KV, RegView<Option<V>>> {
        self.entries@.map_values(|r: LWWRegister<Option<V>>| r@)
    }

    /// The stored entries, in storage order.
    pub closed spec fn entries(self) -> Seq<(K, LWWRegister<Option<V>>)> {
        self.entries.entries()
    }

    /// This replica's node ID.
    pub closed spec fn node(self) -> Seq<char> {
        self.node_id@
    }

    /// An empty map.
    pub fn new(node_id: String) -> (m: Self)
        ensures
            m.registers() == Map::<K::KV, RegView<Option<V>>>::empty(),
            m.entries().len() == 0,
            m.node() == node_id@,
    {
        let m = LWWMap { entries: AssocMap::new(), node_id };
        assert(m.registers() =~= Map::<K::KV, RegView<Option<V>>>::empty());
        m
    }

    fn register_for(&mut self, key: K) -> (i: usize)
        ensures
            i < final(self).entries.entries().len(),
            final(self).entries.entries()[i as int].0.key_view() == key.key_view(),
            final(self).registers() == if old(self).registers().contains_key(key.key_view()) {
                old(self).registers()
            } else {
                old(self).registers().insert(
                    key.key_view(),
                    RegView { value: None, timestamp: 0, node: old(self).node() },
                )
            },
            final(self).node() == old(self).node(),
    {
        proof { use_type_invariant(&*self); }
        let mut tmp = LWWMap { entries: AssocMap::new(), node_id: String::new() };
        std::mem::swap(self, &mut tmp);
        proof { use_type_invariant(&tmp); }
        let LWWMap { mut entries, node_id } = tmp;
        let ghost before = entries@;
        let i = match entries.find(&key) {
            Some(i) => i,
            None => {
                entries.push_new(key, LWWRegister::new(None, node_id.clone()));
                proof { entries.lemma_entry_in_view(entries.entries().len() - 1); }
                entries.len_raw() - 1
            },
        };
        proof {
            entries.lemma_entry_in_view(i as int);
        }
        *self = LWWMap { entries, node_id };
        assert(self.registers() =~= (if before.contains_key(key.key_view()) {
            before.map_values(|r: LWWRegister<Option<V>>| r@)
        } else {
            before.map_values(|r: LWWRegister<Option<V>>| r@).insert(
                key.key_view(),
                RegView { value: None, timestamp: 0, node: self.node() },
            )
        }));
        i
    }

    /// Write a value for a key at time `now` (microseconds), creating its
    /// register when absent.
    pub fn insert_at(&mut self, key: K, value: V, now: u64)
        ensures
            final(self).registers() == old(self).registers().insert(
                key.key_view(),
                write_of(Some(value), now, reg_node(old(self).registers(), key.key_view(), old(self).node())),
            ),
            final(self).node() == old(self).node(),
    {
        let ghost kv = key.key_view();
        let i = self.register_for(key);
        let ghost mid = self.registers();
        let mut tmp = LWWMap { entries: AssocMap::new(), node_id: String::new() };
        std::mem::swap(self, &mut tmp);
        proof { use_type_invariant(&tmp); }
        let LWWMap { mut entries, node_id } = tmp;
        let ghost e = entries;
        proof {
            e.lemma_entry_in_view(i as int);
            assert(e@.contains_key(kv));
            assert(mid[kv] == e@[kv]@);
            assert(e@[kv] == e.entries()[i as int].1);
        }
        entries.value_at_mut(i).set_at(Some(value), now);
        assert(entries@[kv]@.node == mid[kv].node);
        *self = LWWMap { entries, node_id };
        assert(self.registers() =~= mid.insert(kv, self.entries@[kv]@));
        assert(self.registers() =~= old(self).registers().insert(
            kv,
            write_of(Some(value), now, reg_node(old(self).registers(), kv, old(self).node())),
        ));
    }

    /// Write a value for a key (creating its register when absent), stamped
    /// with the current time (the clock gives the stamp; see `insert_at`).
    pub fn insert(&mut self, key: K, value: V)
        ensures
            exists|now: u64|
                final(self).registers() == old(self).registers().insert(
                    key.key_view(),
                    #[trigger] write_of(Some(value), now, reg_node(old(self).registers(), key.key_view(), old(self).node())),
                ),
            final(self).registers().dom() == old(self).registers().dom().insert(key.key_view()),
            final(self).registers()[key.key_view()].value == Some(value),
            final(self).registers()[key.key_view()].node == reg_node(
                old(self).registers(),
                key.key_view(),
                old(self).node(),
            ),
            forall|k: K::KV| k != key.key_view() && #[trigger] old(self).registers().contains_key(k)
                ==> final(self).registers()[k] == old(self).registers()[k],
            final(self).node() == old(self).node(),
    {
        let now = unix_micros();
        self.insert_at(key, value, now);
        assert(self.registers().dom() =~= old(self).registers().dom().insert(key.key_view()));
    }

    /// Write "no value" for a present key at time `now` (microseconds); an
    /// absent key is left absent.
    pub fn remove_at(&mut self, key: &K, now: u64)
        ensures
            final(self).registers() == if old(self).registers().contains_key(key.key_view()) {
                old(self).registers().insert(
                    key.key_view(),
                    write_of(None, now, old(self).registers()[key.key_view()].node),
                )
            } else {
                old(self).registers()
            },
            final(self).node() == old(self).node(),
    {
        proof { use_type_invariant(&*self); }
        let ghost before = self.registers();
        let mut tmp = LWWMap { entries: AssocMap::new(), node_id: String::new() };
        std::mem::swap(self, &mut tmp);
        proof { use_type_invariant(&tmp); }
        let LWWMap { mut entries, node_id } = tmp;
        match entries.find(key) {
            Some(i) => {
                proof { entries.lemma_entry_in_view(i as int); }
                let ghost e0 = entries;
                entries.value_at_mut(i).set_at(None, now);
                proof {
                    assert(entries@ == e0@.insert(key.key_view(), entries@[key.key_view()]));
                }
            },
            None => {},
        }
        *self = LWWMap { entries, node_id };
        proof {
            if before.contains_key(key.key_view()) {
                assert(self.registers() =~= before.insert(
                    key.key_view(),
                    write_of(None, now, before[key.key_view()].node),
                ));
            } else {
                assert(self.registers() =~= before);
            }
        }
    }

    /// Write "no value" for a present key, stamped with the current time
    /// (the clock gives the stamp; see `remove_at`); an absent key is left
    /// absent.
    pub fn remove(&mut self, key: &K)
        ensures
            exists|now: u64|
                final(self).registers() == if old(self).registers().contains_key(key.key_view()) {
                    old(self).registers().insert(
                        key.key_view(),
                        #[trigger] write_of(None, now, old(self).registers()[key.key_view()].node),
                    )
                } else {
                    old(self).registers()
                },
            final(self).registers().dom() == old(self).registers().dom(),
            old(self).registers().contains_key(key.key_view()) ==> final(self).registers()[key.key_view()].value
                is None && final(self).registers()[key.key_view()].node == old(
                self,
            ).registers()[key.key_view()].node,
            forall|k: K::KV| k != key.key_view() && #[trigger] old(self).registers().contains_key(k)
                ==> final(self).registers()[k] == old(self).registers()[k],
            final(self).node() == old(self).node(),
    {
        let now = unix_micros();
        self.remove_at(key, now);
        proof {
            let w = write_of(None::<V>, now, old(self).registers()[key.key_view()].node);
            if old(self).registers().contains_key(key.key_view()) {
                assert(self.registers().dom() =~= old(self).registers().dom());
            }
        }
    }

    /// The value of a key, if its register holds one.
    pub fn get(&self, key: &K) -> (r: Option<&V>)
        ensures
            match r {
                Some(v) => self.registers().contains_key(key.key_view()) && self.registers()[key.key_view()].value
                    == Some(*v),
                None => !self.registers().contains_key(key.key_view())
                    || self.registers()[key.key_view()].value is None,
            },
    {
        proof { use_type_invariant(self); }
        match self.entries.get(key) {
            Some(reg) => match reg.get() {
                Some(v) => Some(v),
                None => None,
            },
            None => None,
        }
    }

    /// The keys whose register holds a value, with the value, in storage
    /// order.
    pub fn iter(&self) -> (v: Vec<(&K, &V)>)
        ensures
            v@.len() == live_entries(self.entries()).len(),
            forall|i: int| 0 <= i < v@.len() ==> *(#[trigger] v@[i]).0 == live_entries(self.entries())[i].0
                && *v@[i].1 == live_entries(self.entries())[i].1,
            forall|i: int| 0 <= i < v@.len() ==> self.registers().contains_key((#[trigger] v@[i]).0.key_view())
                && self.registers()[v@[i].0.key_view()].value == Some(*v@[i].1),
            forall|k: K::KV| #[trigger] self.registers().contains_key(k) && self.registers()[k].value is Some ==> exists|
                i: int,
            | 0 <= i < v@.len() && (#[trigger] v@[i]).0.key_view() == k,
            forall|i: int, j: int| 0 <= i < j < v@.len() ==> (#[trigger] v@[i]).0.key_view() != (#[trigger] v@[j]).0.key_view(),
    {
        proof { use_type_invariant(self); }
        let ghost s = self.entries();
        let n = self.entries.len_raw();
        let mut v: Vec<(&K, &V)> = Vec::new();
        let mut i: usize = 0;
        while i < n
            invariant
                s == self.entries(),
                n == s.len(),
                i <= n,
                v@.len() == live_entries(s.subrange(0, i as int)).len(),
                forall|j: int| 0 <= j < v@.len() ==> *(#[trigger] v@[j]).0 == live_entries(s.subrange(0, i as int))[j].0
                    && *v@[j].1 == live_entries(s.subrange(0, i as int))[j].1,
            decreases n - i,
        {
            proof { assert(s.subrange(0, i + 1).drop_last() =~= s.subrange(0, i as int)); }
            let k = self.entries.key_at(i);
            match self.entries.value_at(i).get() {
                Some(x) => {
                    v.push((k, x));
                },
                None => {},
            }
            i = i + 1;
        }
        proof {
            assert(s.subrange(0, n as int) =~= s);
            let idx = lemma_live_index(s);
            let live = live_entries(s);
            assert forall|i: int| 0 <= i < v@.len() implies self.registers().contains_key((#[trigger] v@[i]).0.key_view())
                && self.registers()[v@[i].0.key_view()].value == Some(*v@[i].1) by {
                self.entries.lemma_entry_in_view(idx[i]);
            }
            assert forall|k: K::KV| #[trigger] self.registers().contains_key(k) && self.registers()[k].value is Some implies exists|
                i: int,
            | 0 <= i < v@.len() && (#[trigger] v@[i]).0.key_view() == k by {
                let e = self.entries.lemma_key_in_entries(k);
                let j = choose|j: int| 0 <= j < idx.len() && idx[j] == e;
                assert(v@[j].0.key_view() == k);
            }
            assert forall|i: int, j: int| 0 <= i < j < v@.len() implies (#[trigger] v@[i]).0.key_view() != (#[trigger] v@[j]).0.key_view() by {
                self.entries.lemma_distinct(idx[i], idx[j]);
            }
        }
        v
    }

    /// Merge another replica: register by register, a register missing
    /// here starting from "no value" at time 0.
    pub fn merge(&mut self, other: &LWWMap<K, V>)
        ensures
            lww_map_merged(old(self).registers(), old(self).node(), other.registers(), final(self).registers()),
            final(self).node() == old(self).node(),
    {
        proof { use_type_invariant(other); }
        let ghost start = self.registers();
        let ghost node0 = self.node();
        let ghost theirs = other.entries;
        let ghost tv = other.registers();
        let n = other.entries.len_raw();
        let mut i: usize = 0;
        proof { theirs.lemma_prefix_ends(); }
        while i < n
            invariant
                theirs == other.entries,
                theirs.wf(),
                tv == other.registers(),
                n == theirs.entries().len(),
                i <= n,
                self.node() == node0,
                self.registers().dom() == start.dom().union(theirs.prefix_view(i as int).dom()),
                forall|k: K::KV| #[trigger] self.registers().contains_key(k) ==> {
                    let base = if start.contains_key(k) {
                        start[k]
                    } else {
                        RegView { value: None, timestamp: 0, node: node0 }
                    };
                    if theirs.prefix_view(i as int).contains_key(k) {
                        lww_merged(base, theirs.prefix_view(i as int)[k]@, self.registers()[k])
                    } else {
                        self.registers()[k] == base
                    }
                },
            decreases n - i,
        {
            proof { theirs.lemma_prefix_step(i as int); }
            let key = other.entries.key_at(i).key_clone();
            let ghost kv = key.key_view();
            let ghost pre = self.registers();
            let j = self.register_for(key);
            let ghost mid = self.registers();
            let mut tmp = LWWMap { entries: AssocMap::new(), node_id: String::new() };
            std::mem::swap(self, &mut tmp);
            proof { use_type_invariant(&tmp); }
            let LWWMap { mut entries, node_id } = tmp;
            let ghost e = entries;
            proof {
                e.lemma_entry_in_view(j as int);
                assert(e@.contains_key(kv));
                assert(mid[kv] == e@[kv]@);
                assert(e@[kv] == e.entries()[j as int].1);
            }
            let theirs_reg = other.entries.value_at(i);
            entries.value_at_mut(j).merge(theirs_reg);
            proof {
                assert(lww_merged(mid[kv], theirs_reg@, entries@[kv]@));
                assert(theirs.prefix_view(i + 1)[kv] == *theirs_reg);
                let base = if start.contains_key(kv) {
                    start[kv]
                } else {
                    RegView { value: None, timestamp: 0, node: node0 }
                };
                assert(mid[kv] == base);
            }
            *self = LWWMap { entries, node_id };
            proof {
                assert(self.registers() =~= mid.insert(kv, self.entries@[kv]@));
                assert(self.registers().dom() =~= start.dom().union(theirs.prefix_view(i + 1).dom()));
                assert forall|k: K::KV| #[trigger] self.registers().contains_key(k) implies {
                    let base = if start.contains_key(k) {
                        start[k]
                    } else {
                        RegView { value: None, timestamp: 0, node: node0 }
                    };
                    if theirs.prefix_view(i + 1).contains_key(k) {
                        lww_merged(base, theirs.prefix_view(i + 1)[k]@, self.registers()[k])
                    } else {
                        self.registers()[k] == base
                    }
                } by {
                    if k != kv {
                        assert(pre.contains_key(k));
                    }
                }
            }
            i = i + 1;
        }
        proof {
            theirs.lemma_prefix_ends();
            assert(self.registers().dom() =~= start.dom().union(tv.dom()));
            assert forall|k: K::KV| #[trigger] self.registers().contains_key(k) implies {
                let base = if start.contains_key(k) {
                    start[k]
                } else {
                    RegView { value: None, timestamp: 0, node: node0 }
                };
                if tv.contains_key(k) {
                    lww_merged(base, tv[k], self.registers()[k])
                } else {
                    self.registers()[k] == base
                }
            } by {
                if tv.contains_key(k) {
                    assert(tv[k] == theirs@[k]@);
                }
            }
        }
    }
}

} // verus!
