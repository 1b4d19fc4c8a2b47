//! Finite maps kept as lists of entries with pairwise distinct keys. A key
//! type names the abstract value it is compared by; the map's view is a
//! `Map` from those abstract keys to values.

use vstd::prelude::*;
use crate::order::{str_lt, str_pos, strictly_sorted};

verus! {

/// Equality of two string slices (std's `PartialEq for str`): true exactly
/// when the two slices hold the same characters.
#[verifier::external_body]
pub fn str_eq(a: &str, b: &str) -> (res: bool)
    ensures
        res == (a@ == b@),
{
    a == b
}

/// A key type: compared and copied by an abstract key value.
pub trait MapKey: Sized {
    /// The abstract value the key is compared by.
    type KV;

    /// The abstract key.
    spec fn key_view(&self) -> Self::KV;

    /// Whether two keys have the same abstract value.
    fn key_eq(&self, other: &Self) -> (b: bool)
        ensures
            b == (self.key_view() == other.key_view()),
    ;

    /// A copy of the key.
    fn key_clone(&self) -> (k: Self)
        ensures
            k.key_view() == self.key_view(),
    ;
}

impl MapKey for String {
    type KV = Seq<char>;

    open spec fn key_view(&self) -> Seq<char> {
        self@
    }

    fn key_eq(&self, other: &Self) -> (b: bool) {
        *self == *other
    }

    fn key_clone(&self) -> (k: Self) {
        self.clone()
    }
}

/// A map whose keys are pairwise distinct.
#[derive(Debug)]
pub struct AssocMap<K: MapKey, V> {
    entries: Vec<(K, V)>,
}

/// A map keyed by strings.
pub type StrMap<V> = AssocMap<String, V>;

/// The index of the entry holding key `k` (meaningful when one exists).
pub open spec fn key_index<K: MapKey, V>(s: Seq<(K, V)>, k: K::KV) -> int {
    choose|i: int| 0 <= i < s.len() && (#[trigger] s[i]).0.key_view() == k
}

/// Whether some entry of `s` holds key `k`.
pub open spec fn has_key<K: MapKey, V>(s: Seq<(K, V)>, k: K::KV) -> bool {
    exists|i: int| 0 <= i < s.len() && (#[trigger] s[i]).0.key_view() == k
}

/// No two entries of `s` share a key.
pub open spec fn distinct_keys<K: MapKey, V>(s: Seq<(K, V)>) -> bool {
    forall|i: int, j: int|
        0 <= i < s.len() && 0 <= j < s.len() && i != j ==> (#[trigger] s[i]).0.key_view() != (#[trigger] s[j]).0.key_view()
}

/// The map that a list of entries stands for.
pub open spec fn entries_map<K: MapKey, V>(s: Seq<(K, V)>) -> Map<K::KV, V> {
    Map::new(|k: K::KV| has_key(s, k), |k: K::KV| s[key_index(s, k)].1)
}

impl<K: MapKey, V> AssocMap<K, V> {
    /// Entries of the map, in storage order.
    pub closed spec fn entries(self) -> Seq<(K, V)> {
        self.entries@
    }

    /// Keys are pairwise distinct.
    pub closed spec fn wf(self) -> bool {
        distinct_keys(self.entries@)
    }

    /// The abstract map.
    pub closed spec fn view(self) -> Map<K::KV, V> {
        entries_map(self.entries@)
    }

    /// An empty map.
    pub fn new() -> (m: Self)
        ensures
            m.wf(),
            m@ == Map::<K::KV, V>::empty(),
            m.entries().len() == 0,
    {
        let m = AssocMap { entries: Vec::new() };
        assert(m@ =~= Map::<K::KV, V>::empty());
        m
    }

    /// An entry-for-entry copy of a map with copyable values.
    pub fn copy(&self) -> (m: Self)
        where V: Copy,
        requires
            self.wf(),
        ensures
            m.wf(),
            m@ == self@,
            m.entries().len() == self.entries().len(),
            forall|i: int| 0 <= i < self.entries().len() ==> (#[trigger] m.entries()[i]).0.key_view()
                == self.entries()[i].0.key_view() && m.entries()[i].1 == self.entries()[i].1,
    {
        let mut entries: Vec<(K, V)> = Vec::new();
        let mut i: usize = 0;
        while i < self.entries.len()
            invariant
                self.wf(),
                i <= self.entries@.len(),
                entries@.len() == i,
                forall|j: int| 0 <= j < i ==> (#[trigger] entries@[j]).0.key_view()
                    == self.entries@[j].0.key_view() && entries@[j].1 == self.entries@[j].1,
            decreases self.entries@.len() - i,
        {
            let k = self.entries[i].0.key_clone();
            let v = self.entries[i].1;
            entries.push((k, v));
            i = i + 1;
        }
        let m = AssocMap { entries };
        proof {
            let s = self.entries@;
            let t = m.entries@;
            assert forall|j: int, l: int|
                0 <= j < t.len() && 0 <= l < t.len() && j != l implies (#[trigger] t[j]).0.key_view() != (#[trigger] t[l]).0.key_view() by {
                assert(s[j].0.key_view() != s[l].0.key_view());
            }
            assert forall|k: K::KV| #[trigger] m@.contains_key(k) <==> self@.contains_key(k) by {
                if has_key(t, k) {
                    let j = choose|j: int| 0 <= j < t.len() && (#[trigger] t[j]).0.key_view() == k;
                    assert(s[j].0.key_view() == k);
                }
                if has_key(s, k) {
                    let j = choose|j: int| 0 <= j < s.len() && (#[trigger] s[j]).0.key_view() == k;
                    assert(t[j].0.key_view() == k);
                }
            }
            assert forall|k: K::KV| #[trigger] m@.contains_key(k) implies m@[k] == self@[k] by {
                let j = key_index(t, k);
                let j2 = key_index(s, k);
                assert(s[j].0.key_view() == k);
                assert(j == j2);
            }
            assert(m@ =~= self@);
        }
        m
    }

    /// Number of entries.
    pub fn len(&self) -> (n: usize)
        requires
            self.wf(),
        ensures
            n == self@.dom().len(),
            n == self.entries().len(),
    {
        proof { self.lemma_len(); }
        self.entries.len()
    }

    /// The number of entries is the size of the domain.
    pub proof fn lemma_len(self)
        requires
            self.wf(),
        ensures
            self@.dom().finite(),
            self@.dom().len() == self.entries().len(),
        decreases self.entries().len(),
    {
        lemma_entries_map_len(self.entries@);
    }

    /// Number of stored entries.
    pub fn len_raw(&self) -> (n: usize)
        ensures
            n == self.entries().len(),
    {
        self.entries.len()
    }

    /// The key stored at position `i`.
    pub fn key_at(&self, i: usize) -> (k: &K)
        requires
            i < self.entries().len(),
        ensures
            *k == self.entries()[i as int].0,
    {
        &self.entries[i].0
    }

    /// The value stored at position `i`.
    pub fn value_at(&self, i: usize) -> (v: &V)
        requires
            i < self.entries().len(),
        ensures
            *v == self.entries()[i as int].1,
    {
        &self.entries[i].1
    }

    /// Each stored entry is an entry of the view.
    pub proof fn lemma_entry_in_view(self, i: int)
        requires
            self.wf(),
            0 <= i < self.entries().len(),
        ensures
            self@.contains_key(self.entries()[i].0.key_view()),
            self@[self.entries()[i].0.key_view()] == self.entries()[i].1,
    {
        let s = self.entries@;
        let k = s[i].0.key_view();
        assert(has_key(s, k));
        let j = key_index(s, k);
        assert(s[j].0.key_view() == k);
    }

    /// The entries have pairwise distinct keys.
    pub proof fn lemma_wf_distinct(self)
        requires
            self.wf(),
        ensures
            distinct_keys(self.entries()),
    {
    }

    /// Totalling the entries totals the view.
    pub proof fn lemma_total(self, f: spec_fn(V) -> int)
        requires
            self.wf(),
        ensures
            self@.dom().finite(),
            entries_total(self.entries(), f) == map_total(self@, f),
    {
        lemma_entries_total(self.entries@, f);
    }

    /// Different positions hold different keys.
    pub proof fn lemma_distinct(self, i: int, j: int)
        requires
            self.wf(),
            0 <= i < self.entries().len(),
            0 <= j < self.entries().len(),
            i != j,
        ensures
            self.entries()[i].0.key_view() != self.entries()[j].0.key_view(),
    {
    }

    /// Each key of the view is stored at some position.
    pub proof fn lemma_key_in_entries(self, k: K::KV) -> (i: int)
        requires
            self.wf(),
            self@.contains_key(k),
        ensures
            0 <= i < self.entries().len(),
            self.entries()[i].0.key_view() == k,
            self.entries()[i].1 == self@[k],
    {
        let i = key_index(self.entries@, k);
        i
    }

    /// The map formed by the first `i` entries.
    pub open spec fn prefix_view(self, i: int) -> Map<K::KV, V> {
        entries_map(self.entries().subrange(0, i))
    }

    /// Growing a prefix by one entry inserts that entry's fresh key.
    pub proof fn lemma_prefix_step(self, i: int)
        requires
            self.wf(),
            0 <= i < self.entries().len(),
        ensures
            !self.prefix_view(i).contains_key(self.entries()[i].0.key_view()),
            self.prefix_view(i + 1) == self.prefix_view(i).insert(self.entries()[i].0.key_view(), self.entries()[i].1),
    {
        let s = self.entries@;
        let p = s.subrange(0, i);
        assert(distinct_keys(p)) by {
            assert forall|j: int, l: int|
                0 <= j < p.len() && 0 <= l < p.len() && j != l implies (#[trigger] p[j]).0.key_view() != (#[trigger] p[l]).0.key_view() by {
                assert(p[j] == s[j]);
                assert(p[l] == s[l]);
            }
        }
        assert(!entries_map(p).contains_key(s[i].0.key_view())) by {
            if has_key(p, s[i].0.key_view()) {
                let j = choose|j: int| 0 <= j < p.len() && (#[trigger] p[j]).0.key_view() == s[i].0.key_view();
                assert(p[j] == s[j]);
            }
        }
        lemma_push_map(p, s[i].0.key_view(), s[i]);
        assert(p.push(s[i]) =~= s.subrange(0, i + 1));
    }

    /// The empty prefix maps nothing; the full prefix is the whole map.
    pub proof fn lemma_prefix_ends(self)
        ensures
            self.prefix_view(0) == Map::<K::KV, V>::empty(),
            self.prefix_view(self.entries().len() as int) == self@,
    {
        assert(self.entries@.subrange(0, self.entries@.len() as int) =~= self.entries@);
        assert(self.prefix_view(0) =~= Map::<K::KV, V>::empty());
    }

    /// The position of `key`, if present.
    pub fn find(&self, key: &K) -> (r: Option<usize>)
        requires
            self.wf(),
        ensures
            match r {
                Some(i) => i < self.entries().len() && self.entries()[i as int].0.key_view() == key.key_view()
                    && self@.contains_key(key.key_view()) && self@[key.key_view()] == self.entries()[i as int].1,
                None => !self@.contains_key(key.key_view()),
            },
    {
        let mut i: usize = 0;
        while i < self.entries.len()
            invariant
                self.wf(),
                i <= self.entries@.len(),
                forall|j: int| 0 <= j < i ==> (#[trigger] self.entries@[j]).0.key_view() != key.key_view(),
            decreases self.entries@.len() - i,
        {
            if self.entries[i].0.key_eq(key) {
                proof { self.lemma_entry_in_view(i as int); }
                return Some(i);
            }
            i = i + 1;
        }
        None
    }

    /// Whether `key` is present.
    pub fn contains_key(&self, key: &K) -> (b: bool)
        requires
            self.wf(),
        ensures
            b == self@.contains_key(key.key_view()),
    {
        self.find(key).is_some()
    }

    /// The value of `key`, if present.
    pub fn get(&self, key: &K) -> (r: Option<&V>)
        requires
            self.wf(),
        ensures
            match r {
                Some(v) => self@.contains_key(key.key_view()) && *v == self@[key.key_view()],
                None => !self@.contains_key(key.key_view()),
            },
    {
        match self.find(key) {
            Some(i) => Some(&self.entries[i].1),
            None => None,
        }
    }

    /// A mutable reference to the value stored at position `i`; afterwards
    /// `lemma_value_updated` gives the new view.
    pub fn value_at_mut(&mut self, i: usize) -> (v: &mut V)
        requires
            i < old(self).entries().len(),
        ensures
            *v == old(self).entries()[i as int].1,
            final(self).entries() == old(self).entries().update(
                i as int,
                (old(self).entries()[i as int].0, *final(v)),
            ),
            old(self).wf() ==> final(self).wf(),
            old(self).wf() ==> final(self)@ == old(self)@.insert(old(self).entries()[i as int].0.key_view(), *final(v)),
        no_unwind
    {
        broadcast use lemma_update_value_map_auto;
        &mut self.entries[i].1
    }

    /// Replacing the value stored at one position changes the view only at
    /// that position's key.
    pub proof fn lemma_value_updated(old_map: Self, new_map: Self, i: int, v: V)
        requires
            old_map.wf(),
            0 <= i < old_map.entries().len(),
            new_map.entries() == old_map.entries().update(i, (old_map.entries()[i].0, v)),
        ensures
            new_map.wf(),
            new_map@ == old_map@.insert(old_map.entries()[i].0.key_view(), v),
    {
        lemma_update_value_map(old_map.entries@, i, v);
    }

    /// Adds an entry for a key that is not yet present.
    pub fn push_new(&mut self, key: K, value: V)
        requires
            old(self).wf(),
            !old(self)@.contains_key(key.key_view()),
        ensures
            final(self).wf(),
            final(self)@ == old(self)@.insert(key.key_view(), value),
            final(self).entries() == old(self).entries().push((key, value)),
    {
        let ghost old_s = self.entries@;
        let ghost k = key.key_view();
        self.entries.push((key, value));
        proof { lemma_push_map(old_s, k, self.entries@.last()); }
    }

    /// Sets the value of `key`, adding the key when absent.
    pub fn insert(&mut self, key: K, value: V)
        requires
            old(self).wf(),
        ensures
            final(self).wf(),
            final(self)@ == old(self)@.insert(key.key_view(), value),
    {
        match self.find(&key) {
            Some(i) => {
                let ghost old_map = *self;
                *self.value_at_mut(i) = value;
                proof { AssocMap::lemma_value_updated(old_map, *self, i as int, value); }
            },
            None => {
                self.push_new(key, value);
            },
        }
    }

    /// Removes the entry stored at position `i`, returning it.
    pub fn remove_at(&mut self, i: usize) -> (r: (K, V))
        requires
            old(self).wf(),
            i < old(self).entries().len(),
        ensures
            final(self).wf(),
            r == old(self).entries()[i as int],
            final(self).entries() == old(self).entries().remove(i as int),
            final(self)@ == old(self)@.remove(r.0.key_view()),
    {
        let ghost old_s = self.entries@;
        proof { lemma_remove_map(old_s, i as int); }
        self.entries.remove(i)
    }

    /// Removes the entry of `key`, returning its value.
    pub fn remove(&mut self, key: &K) -> (r: Option<V>)
        requires
            old(self).wf(),
        ensures
            final(self).wf(),
            final(self)@ == old(self)@.remove(key.key_view()),
            match r {
                Some(v) => old(self)@.contains_key(key.key_view()) && v == old(self)@[key.key_view()],
                None => !old(self)@.contains_key(key.key_view()),
            },
    {
        match self.find(key) {
            Some(i) => {
                let ghost old_s = self.entries@;
                let (_k, v) = self.entries.remove(i);
                proof { lemma_remove_map(old_s, i as int); }
                Some(v)
            },
            None => {
                assert(self@.remove(key.key_view()) =~= self@);
                None
            },
        }
    }
}

impl<V> AssocMap<String, V> {
    /// The keys in storage order.
    pub open spec fn key_seq(self) -> Seq<Seq<char>> {
        self.entries().map_values(|e: (String, V)| e.0@)
    }

    /// Adds an entry for a key that is not yet present, in key order: when
    /// the keys were in increasing order they stay so.
    pub fn push_sorted(&mut self, key: String, value: V)
        requires
            old(self).wf(),
            !old(self)@.contains_key(key@),
        ensures
            final(self).wf(),
            final(self)@ == old(self)@.insert(key@, value),
            strictly_sorted(old(self).key_seq()) ==> strictly_sorted(final(self).key_seq()),
            final(self).key_seq() == old(self).key_seq().insert(str_pos(old(self).key_seq(), key@, 0), key@),
    {
        let ghost ks = self.key_seq();
        let ghost old_s = self.entries@;
        let mut p: usize = 0;
        while p < self.entries.len() && str_lt(self.entries[p].0.as_str(), key.as_str())
            invariant
                p <= self.entries@.len(),
                ks == self.key_seq(),
                self.entries@ == old_s,
                str_pos(ks, key@, 0) == str_pos(ks, key@, p as int),
            decreases self.entries@.len() - p,
        {
            proof { assert(ks[p as int] == self.entries@[p as int].0@); }
            p = p + 1;
        }
        proof {
            if p < ks.len() {
                assert(ks[p as int] == self.entries@[p as int].0@);
            }
            assert(str_pos(ks, key@, p as int) == p);
        }
        let ghost k = key@;
        let ghost e = (key, value);
        self.entries.insert(p, (key, value));
        proof {
            lemma_insert_map(old_s, p as int, k, self.entries@[p as int]);
            assert(self.entries@ == old_s.insert(p as int, self.entries@[p as int]));
            assert(self.key_seq() =~= ks.insert(p as int, k));
            if strictly_sorted(ks) {
                assert(!ks.contains(k)) by {
                    if ks.contains(k) {
                        let j = choose|j: int| 0 <= j < ks.len() && ks[j] == k;
                        assert(old_s[j].0.key_view() == k);
                        assert(has_key(old_s, k));
                    }
                }
                crate::order::lemma_sorted_set_insert(ks, k);
                if p < ks.len() {
                    assert(ks[p as int] != k);
                }
                assert(crate::order::sorted_set_insert(ks, k) == ks.insert(p as int, k));
            }
        }
    }

    /// The position of the string key `key`, if present.
    pub fn find_str(&self, key: &str) -> (r: Option<usize>)
        requires
            self.wf(),
        ensures
            match r {
                Some(i) => i < self.entries().len() && self.entries()[i as int].0@ == key@
                    && self@.contains_key(key@) && self@[key@] == self.entries()[i as int].1,
                None => !self@.contains_key(key@),
            },
    {
        let mut i: usize = 0;
        while i < self.entries.len()
            invariant
                self.wf(),
                i <= self.entries@.len(),
                forall|j: int| 0 <= j < i ==> (#[trigger] self.entries@[j]).0@ != key@,
            decreases self.entries@.len() - i,
        {
            if str_eq(self.entries[i].0.as_str(), key) {
                proof { self.lemma_entry_in_view(i as int); }
                return Some(i);
            }
            i = i + 1;
        }
        None
    }

    /// Whether the string key `key` is present.
    pub fn contains_str(&self, key: &str) -> (b: bool)
        requires
            self.wf(),
        ensures
            b == self@.contains_key(key@),
    {
        self.find_str(key).is_some()
    }

    /// The value of the string key `key`, if present.
    pub fn get_str(&self, key: &str) -> (r: Option<&V>)
        requires
            self.wf(),
        ensures
            match r {
                Some(v) => self@.contains_key(key@) && *v == self@[key@],
                None => !self@.contains_key(key@),
            },
    {
        match self.find_str(key) {
            Some(i) => Some(&self.entries[i].1),
            None => None,
        }
    }

    /// Removes the entry of the string key `key`, returning its value.
    pub fn remove_str(&mut self, key: &str) -> (r: Option<V>)
        requires
            old(self).wf(),
        ensures
            final(self).wf(),
            final(self)@ == old(self)@.remove(key@),
            match r {
                Some(v) => old(self)@.contains_key(key@) && v == old(self)@[key@],
                None => !old(self)@.contains_key(key@),
            },
    {
        match self.find_str(key) {
            Some(i) => {
                let ghost old_s = self.entries@;
                let (_k, v) = self.entries.remove(i);
                proof { lemma_remove_map(old_s, i as int); }
                Some(v)
            },
            None => {
                assert(self@.remove(key@) =~= self@);
                None
            },
        }
    }
}

/// The total of `f` over the values of a finite map.
pub open spec fn map_total<T, V>(m: Map<T, V>, f: spec_fn(V) -> int) -> int
    decreases m.dom().len(),
    when m.dom().finite()
{
    if m.dom().len() == 0 {
        0
    } else {
        let k = m.dom().choose();
        f(m[k]) + map_total(m.remove(k), f)
    }
}

/// A count as an integer.
pub open spec fn count_value(v: u64) -> int {
    v as int
}

/// The sum of the values of a finite map of counts.
pub open spec fn map_sum<T>(m: Map<T, u64>) -> int {
    map_total(m, |v: u64| count_value(v))
}

/// The total of `f` over the values of a list of entries.
pub open spec fn entries_total<K: MapKey, V>(s: Seq<(K, V)>, f: spec_fn(V) -> int) -> int
    decreases s.len(),
{
    if s.len() == 0 { 0 } else { entries_total(s.drop_last(), f) + f(s.last().1) }
}

/// A total over a finite map may take out any one key first.
pub proof fn lemma_map_total_remove<T, V>(m: Map<T, V>, f: spec_fn(V) -> int, k: T)
    requires
        m.dom().finite(),
        m.contains_key(k),
    ensures
        map_total(m, f) == f(m[k]) + map_total(m.remove(k), f),
    decreases m.dom().len(),
{
    assert(m.dom().len() > 0) by {
        assert(m.dom().contains(k));
    }
    let c = m.dom().choose();
    if c != k {
        let mc = m.remove(c);
        let mk = m.remove(k);
        assert(mc.dom() =~= m.dom().remove(c));
        assert(mk.dom() =~= m.dom().remove(k));
        lemma_map_total_remove(mc, f, k);
        lemma_map_total_remove(mk, f, c);
        assert(mc.remove(k) =~= mk.remove(c));
    }
}

/// The total over a map with one more key.
pub proof fn lemma_map_total_insert<T, V>(m: Map<T, V>, f: spec_fn(V) -> int, k: T, v: V)
    requires
        m.dom().finite(),
        !m.contains_key(k),
    ensures
        map_total(m.insert(k, v), f) == map_total(m, f) + f(v),
{
    lemma_map_total_remove(m.insert(k, v), f, k);
    assert(m.insert(k, v).remove(k) =~= m);
}

/// The total over a map after replacing the value of a present key.
pub proof fn lemma_map_total_update<T, V>(m: Map<T, V>, f: spec_fn(V) -> int, k: T, v: V)
    requires
        m.dom().finite(),
        m.contains_key(k),
    ensures
        map_total(m.insert(k, v), f) == map_total(m, f) - f(m[k]) + f(v),
{
    lemma_map_total_remove(m, f, k);
    assert(m.remove(k).dom().finite());
    lemma_map_total_insert(m.remove(k), f, k, v);
    assert(m.remove(k).insert(k, v) =~= m.insert(k, v));
}

/// The total over the empty map is zero.
pub proof fn lemma_map_total_empty<T, V>(f: spec_fn(V) -> int)
    ensures
        map_total(Map::<T, V>::empty(), f) == 0,
{
    assert(Map::<T, V>::empty().dom() =~= Set::empty());
}

/// Summing a finite map may take out any one key first.
pub proof fn lemma_map_sum_remove<T>(m: Map<T, u64>, k: T)
    requires
        m.dom().finite(),
        m.contains_key(k),
    ensures
        map_sum(m) == m[k] + map_sum(m.remove(k)),
{
    lemma_map_total_remove(m, |v: u64| count_value(v), k);
}

/// The sum of a map with one more key.
pub proof fn lemma_map_sum_insert<T>(m: Map<T, u64>, k: T, v: u64)
    requires
        m.dom().finite(),
        !m.contains_key(k),
    ensures
        map_sum(m.insert(k, v)) == map_sum(m) + v,
{
    lemma_map_total_insert(m, |v: u64| count_value(v), k, v);
}

/// The empty map sums to zero.
pub proof fn lemma_map_sum_empty<T>()
    ensures
        map_sum(Map::<T, u64>::empty()) == 0,
{
    lemma_map_total_empty::<T, u64>(|v: u64| count_value(v));
}

/// Totalling the entries of a list with distinct keys totals its map.
pub proof fn lemma_entries_total<K: MapKey, V>(s: Seq<(K, V)>, f: spec_fn(V) -> int)
    requires
        distinct_keys(s),
    ensures
        entries_map(s).dom().finite(),
        entries_total(s, f) == map_total(entries_map(s), f),
    decreases s.len(),
{
    lemma_entries_map_len(s);
    if s.len() == 0 {
        assert(entries_map(s) =~= Map::empty());
        lemma_map_total_empty::<K::KV, V>(f);
    } else {
        let p = s.drop_last();
        let e = s.last();
        assert(distinct_keys(p)) by {
            assert forall|j: int, l: int|
                0 <= j < p.len() && 0 <= l < p.len() && j != l implies (#[trigger] p[j]).0.key_view() != (#[trigger] p[l]).0.key_view() by {
                assert(p[j] == s[j]);
                assert(p[l] == s[l]);
            }
        }
        lemma_entries_total(p, f);
        assert(!entries_map(p).contains_key(e.0.key_view())) by {
            if has_key(p, e.0.key_view()) {
                let j = choose|j: int| 0 <= j < p.len() && (#[trigger] p[j]).0.key_view() == e.0.key_view();
                assert(p[j] == s[j]);
                assert(s[s.len() - 1] == e);
            }
        }
        lemma_push_map(p, e.0.key_view(), e);
        assert(p.push(e) =~= s);
        lemma_map_total_insert(entries_map(p), f, e.0.key_view(), e.1);
    }
}

impl<K: MapKey> AssocMap<K, u64> {
    /// The sum of all values; the caller guarantees it fits in a `u64`.
    pub fn sum(&self) -> (t: u64)
        requires
            self.wf(),
            map_sum(self@) <= u64::MAX,
        ensures
            t == map_sum(self@),
            self@.dom().finite(),
    {
        let ghost f = |v: u64| count_value(v);
        proof { lemma_entries_total(self.entries@, f); }
        let n = self.entries.len();
        let mut total: u64 = 0;
        let mut i: usize = 0;
        while i < n
            invariant
                n == self.entries@.len(),
                i <= n,
                total == entries_total(self.entries@.subrange(0, i as int), f),
                entries_total(self.entries@, f) <= u64::MAX,
                f == (|v: u64| count_value(v)),
            decreases n - i,
        {
            proof {
                let e = self.entries@;
                assert(e.subrange(0, i + 1).drop_last() =~= e.subrange(0, i as int));
                lemma_entries_total_prefix_le(e, i + 1);
            }
            total = total + self.entries[i].1;
            i = i + 1;
        }
        proof { assert(self.entries@.subrange(0, n as int) =~= self.entries@); }
        total
    }
}

/// A prefix sum of counts never exceeds the whole sum.
proof fn lemma_entries_total_prefix_le<K: MapKey>(s: Seq<(K, u64)>, n: int)
    requires
        0 <= n <= s.len(),
    ensures
        entries_total(s.subrange(0, n), |v: u64| count_value(v)) <= entries_total(s, |v: u64| count_value(v)),
    decreases s.len() - n,
{
    if n < s.len() {
        lemma_entries_total_prefix_le(s, n + 1);
        assert(s.subrange(0, n + 1).drop_last() =~= s.subrange(0, n));
    } else {
        assert(s.subrange(0, n) =~= s);
    }
}

/// Updating the value at one position changes the map only at that key.
pub broadcast proof fn lemma_update_value_map_auto<K: MapKey, V>(s: Seq<(K, V)>, i: int, v: V)
    requires
        distinct_keys(s),
        0 <= i < s.len(),
    ensures
        #![trigger s.update(i, (s[i].0, v))]
        distinct_keys(s.update(i, (s[i].0, v))),
        entries_map(s.update(i, (s[i].0, v))) == entries_map(s).insert(s[i].0.key_view(), v),
{
    lemma_update_value_map(s, i, v);
}

/// Updating the value at one position changes the map only at that key.
proof fn lemma_update_value_map<K: MapKey, V>(s: Seq<(K, V)>, i: int, v: V)
    requires
        distinct_keys(s),
        0 <= i < s.len(),
    ensures
        distinct_keys(s.update(i, (s[i].0, v))),
        entries_map(s.update(i, (s[i].0, v))) == entries_map(s).insert(s[i].0.key_view(), v),
{
    let t = s.update(i, (s[i].0, v));
    assert forall|j: int, l: int|
        0 <= j < t.len() && 0 <= l < t.len() && j != l implies (#[trigger] t[j]).0.key_view() != (#[trigger] t[l]).0.key_view() by {
        assert(t[j].0 == s[j].0);
        assert(t[l].0 == s[l].0);
    }
    let m1 = entries_map(t);
    let m2 = entries_map(s).insert(s[i].0.key_view(), v);
    assert forall|k: K::KV| #[trigger] m1.contains_key(k) <==> m2.contains_key(k) by {
        if has_key(t, k) {
            let j = choose|j: int| 0 <= j < t.len() && (#[trigger] t[j]).0.key_view() == k;
            assert(s[j].0.key_view() == k);
        }
        if has_key(s, k) {
            let j = choose|j: int| 0 <= j < s.len() && (#[trigger] s[j]).0.key_view() == k;
            assert(t[j].0.key_view() == k);
        }
        if k == s[i].0.key_view() {
            assert(t[i].0.key_view() == k);
        }
    }
    assert forall|k: K::KV| #[trigger] m1.contains_key(k) implies m1[k] == m2[k] by {
        let j = key_index(t, k);
        if k == s[i].0.key_view() {
            assert(t[i].0.key_view() == k);
            assert(j == i);
        } else {
            let j2 = key_index(s, k);
            assert(t[j].0.key_view() == k);
            assert(s[j].0.key_view() == k);
            assert(j == j2);
        }
    }
    assert(m1 =~= m2);
}

/// Appending an entry with a fresh key inserts it into the map.
proof fn lemma_push_map<K: MapKey, V>(s: Seq<(K, V)>, k: K::KV, e: (K, V))
    requires
        distinct_keys(s),
        !entries_map(s).contains_key(k),
        e.0.key_view() == k,
    ensures
        distinct_keys(s.push(e)),
        entries_map(s.push(e)) == entries_map(s).insert(k, e.1),
{
    let t = s.push(e);
    assert forall|j: int, l: int|
        0 <= j < t.len() && 0 <= l < t.len() && j != l implies (#[trigger] t[j]).0.key_view() != (#[trigger] t[l]).0.key_view() by {
        if j == s.len() {
            assert(t[l] == s[l]);
            assert(!has_key(s, k));
        } else if l == s.len() {
            assert(t[j] == s[j]);
            assert(!has_key(s, k));
        } else {
            assert(t[j] == s[j]);
            assert(t[l] == s[l]);
        }
    }
    let m1 = entries_map(t);
    let m2 = entries_map(s).insert(k, e.1);
    assert forall|q: K::KV| #[trigger] m1.contains_key(q) <==> m2.contains_key(q) by {
        if has_key(t, q) {
            let j = choose|j: int| 0 <= j < t.len() && (#[trigger] t[j]).0.key_view() == q;
            if j < s.len() {
                assert(s[j] == t[j]);
            }
        }
        if has_key(s, q) {
            let j = choose|j: int| 0 <= j < s.len() && (#[trigger] s[j]).0.key_view() == q;
            assert(t[j] == s[j]);
        }
        if q == k {
            assert(t[s.len() as int] == e);
        }
    }
    assert forall|q: K::KV| #[trigger] m1.contains_key(q) implies m1[q] == m2[q] by {
        let j = key_index(t, q);
        if q == k {
            assert(t[s.len() as int] == e);
            assert(j == s.len());
        } else {
            let j2 = key_index(s, q);
            assert(t[j2] == s[j2]);
            assert(j == j2);
        }
    }
    assert(m1 =~= m2);
}

/// Inserting an entry of a fresh key at any position adds that key.
proof fn lemma_insert_map<K: MapKey, V>(s: Seq<(K, V)>, p: int, k: K::KV, e: (K, V))
    requires
        distinct_keys(s),
        !entries_map(s).contains_key(k),
        e.0.key_view() == k,
        0 <= p <= s.len(),
    ensures
        distinct_keys(s.insert(p, e)),
        entries_map(s.insert(p, e)) == entries_map(s).insert(k, e.1),
{
    let t = s.insert(p, e);
    assert forall|j: int| 0 <= j < t.len() implies (j < p ==> #[trigger] t[j] == s[j]) && (j == p ==> t[j] == e) && (j > p
        ==> t[j] == s[j - 1]) by {}
    assert forall|j: int, l: int|
        0 <= j < t.len() && 0 <= l < t.len() && j != l implies (#[trigger] t[j]).0.key_view() != (#[trigger] t[l]).0.key_view() by {
        if j == p {
            assert(!has_key(s, k));
            if l < p {
                assert(t[l] == s[l]);
            } else {
                assert(t[l] == s[l - 1]);
            }
        } else if l == p {
            assert(!has_key(s, k));
            if j < p {
                assert(t[j] == s[j]);
            } else {
                assert(t[j] == s[j - 1]);
            }
        } else {
            let sj = if j < p { j } else { j - 1 };
            let sl = if l < p { l } else { l - 1 };
            assert(t[j] == s[sj]);
            assert(t[l] == s[sl]);
        }
    }
    let m1 = entries_map(t);
    let m2 = entries_map(s).insert(k, e.1);
    assert forall|q: K::KV| #[trigger] m1.contains_key(q) <==> m2.contains_key(q) by {
        if has_key(t, q) {
            let j = choose|j: int| 0 <= j < t.len() && (#[trigger] t[j]).0.key_view() == q;
            if j < p {
                assert(s[j] == t[j]);
            } else if j > p {
                assert(s[j - 1] == t[j]);
            }
        }
        if has_key(s, q) {
            let j = choose|j: int| 0 <= j < s.len() && (#[trigger] s[j]).0.key_view() == q;
            if j < p {
                assert(t[j] == s[j]);
            } else {
                assert(t[j + 1] == s[j]);
            }
        }
        if q == k {
            assert(t[p] == e);
        }
    }
    assert forall|q: K::KV| #[trigger] m1.contains_key(q) implies m1[q] == m2[q] by {
        let j = key_index(t, q);
        if q == k {
            assert(t[p] == e);
            assert(j == p);
        } else {
            let j2 = key_index(s, q);
            if j2 < p {
                assert(t[j2] == s[j2]);
                assert(j == j2);
            } else {
                assert(t[j2 + 1] == s[j2]);
                assert(j == j2 + 1);
            }
        }
    }
    assert(m1 =~= m2);
}

/// Removing the entry at a position removes its key from the map.
proof fn lemma_remove_map<K: MapKey, V>(s: Seq<(K, V)>, i: int)
    requires
        distinct_keys(s),
        0 <= i < s.len(),
    ensures
        distinct_keys(s.remove(i)),
        entries_map(s.remove(i)) == entries_map(s).remove(s[i].0.key_view()),
{
    let t = s.remove(i);
    let k = s[i].0.key_view();
    assert forall|j: int| 0 <= j < t.len() implies #[trigger] t[j] == (if j < i { s[j] } else { s[j + 1] }) by {}
    assert forall|j: int, l: int|
        0 <= j < t.len() && 0 <= l < t.len() && j != l implies (#[trigger] t[j]).0.key_view() != (#[trigger] t[l]).0.key_view() by {
        let jj = if j < i { j } else { j + 1 };
        let ll = if l < i { l } else { l + 1 };
        assert(t[j] == s[jj]);
        assert(t[l] == s[ll]);
    }
    let m1 = entries_map(t);
    let m2 = entries_map(s).remove(k);
    assert forall|q: K::KV| #[trigger] m1.contains_key(q) <==> m2.contains_key(q) by {
        if has_key(t, q) {
            let j = choose|j: int| 0 <= j < t.len() && (#[trigger] t[j]).0.key_view() == q;
            let jj = if j < i { j } else { j + 1 };
            assert(t[j] == s[jj]);
            assert(s[jj].0.key_view() == q);
            assert(jj != i);
        }
        if has_key(s, q) && q != k {
            let j = choose|j: int| 0 <= j < s.len() && (#[trigger] s[j]).0.key_view() == q;
            assert(j != i);
            let jt = if j < i { j } else { j - 1 };
            assert(t[jt] == s[j]);
        }
    }
    assert forall|q: K::KV| #[trigger] m1.contains_key(q) implies m1[q] == m2[q] by {
        let j = key_index(t, q);
        let jj = if j < i { j } else { j + 1 };
        assert(t[j] == s[jj]);
        let j2 = key_index(s, q);
        assert(s[j2].0.key_view() == q);
        assert(s[jj].0.key_view() == q);
        assert(jj == j2);
    }
    assert(m1 =~= m2);
}

/// The map of a list with distinct keys has as many keys as entries.
proof fn lemma_entries_map_len<K: MapKey, V>(s: Seq<(K, V)>)
    requires
        distinct_keys(s),
    ensures
        entries_map(s).dom().finite(),
        entries_map(s).dom().len() == s.len(),
    decreases s.len(),
{
    if s.len() == 0 {
        assert(entries_map(s).dom() =~= Set::empty());
    } else {
        let p = s.drop_last();
        assert(distinct_keys(p)) by {
            assert forall|j: int, l: int|
                0 <= j < p.len() && 0 <= l < p.len() && j != l implies (#[trigger] p[j]).0.key_view() != (#[trigger] p[l]).0.key_view() by {
                assert(p[j] == s[j]);
                assert(p[l] == s[l]);
            }
        }
        lemma_entries_map_len(p);
        let e = s.last();
        assert(!entries_map(p).contains_key(e.0.key_view())) by {
            if has_key(p, e.0.key_view()) {
                let j = choose|j: int| 0 <= j < p.len() && (#[trigger] p[j]).0.key_view() == e.0.key_view();
                assert(p[j] == s[j]);
                assert(s[s.len() - 1] == e);
            }
        }
        lemma_push_map(p, e.0.key_view(), e);
        assert(p.push(e) =~= s);
    }
}

} // verus!
