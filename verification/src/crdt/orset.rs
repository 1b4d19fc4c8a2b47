//! Observed-remove set: a removal only removes the additions it has seen,
//! so a concurrent addition wins.

use vstd::prelude::*;
use vstd::string::StringSliceAdditionalSpecFns;
use vstd::utf8::encode_utf8;
use std::marker::PhantomData;
use crate::assoc::{StrMap, str_eq};
use crate::clock::unix_micros;
use crate::digest::{sha256_hex, sha256_hex_of};
use crate::json::{json_quote, json_string_of};

verus! {

/// An element tag, as values.
pub struct TagView {
    pub value_hash: Seq<char>,
    pub timestamp: u64,
    pub node_id: Seq<char>,
}

/// The tag of one addition of a value.
#[derive(Clone, Debug, PartialEq, Eq, Hash, PartialOrd, Ord)]
pub struct ElementId {
    pub value_hash: String,
    pub timestamp: u64,
    pub node_id: String,
}

impl View for ElementId {
    type V = TagView;

    open spec fn view(&self) -> TagView {
        TagView { value_hash: self.value_hash@, timestamp: self.timestamp, node_id: self.node_id@ }
    }
}

impl ElementId {
    /// A copy of this tag.
    pub fn copy(&self) -> (e: Self)
        ensures
            e == *self,
    {
        ElementId { value_hash: self.value_hash.clone(), timestamp: self.timestamp, node_id: self.node_id.clone() }
    }

    /// Whether two tags are equal.
    pub fn same(&self, other: &ElementId) -> (b: bool)
        ensures
            b == (self@ == other@),
    {
        self.timestamp == other.timestamp && str_eq(self.value_hash.as_str(), other.value_hash.as_str()) && str_eq(
            self.node_id.as_str(),
            other.node_id.as_str(),
        )
    }
}

/// The hash a value is stored under: the hex SHA-256 of its JSON text.
pub open spec fn value_hash(v: Seq<char>) -> Seq<char> {
    sha256_hex_of(encode_utf8(json_string_of(v)))
}

/// The tags of a list, as a set.
pub open spec fn tag_set(v: Seq<ElementId>) -> Set<TagView> {
    v.map_values(|e: ElementId| e@).to_set()
}

/// A list of tags with no tag twice.
pub open spec fn tags_distinct(v: Seq<ElementId>) -> bool {
    v.map_values(|e: ElementId| e@).no_duplicates()
}

fn tags_contain(v: &Vec<ElementId>, e: &ElementId) -> (b: bool)
    ensures
        b == tag_set(v@).contains(e@),
{
    let mut i: usize = 0;
    while i < v.len()
        invariant
            i <= v@.len(),
            forall|j: int| 0 <= j < i ==> v@[j]@ != e@,
        decreases v@.len() - i,
    {
        if v[i].same(e) {
            assert(v@.map_values(|x: ElementId| x@)[i as int] == e@);
            return true;
        }
        i = i + 1;
    }
    proof {
        if tag_set(v@).contains(e@) {
            let w = v@.map_values(|x: ElementId| x@);
            let k = choose|k: int| 0 <= k < w.len() && #[trigger] w[k] == e@;
            assert(v@[k]@ == e@);
        }
    }
    false
}

/// Adds a tag to a list of distinct tags unless it is there.
fn tags_insert(v: &mut Vec<ElementId>, e: ElementId)
    requires
        tags_distinct(old(v)@),
    ensures
        tags_distinct(final(v)@),
        tag_set(final(v)@) == tag_set(old(v)@).insert(e@),
{
    let ghost ev = e@;
    let ghost before = v@;
    if !tags_contain(v, &e) {
        v.push(e);
        proof {
            let w = before.map_values(|x: ElementId| x@);
            assert(v@.map_values(|x: ElementId| x@) =~= w.push(ev));
            w.lemma_push_to_set_commute(ev);
            assert forall|a: int, b: int| 0 <= a < w.push(ev).len() && 0 <= b < w.push(ev).len() && a != b implies w.push(
                ev,
            )[a] != w.push(ev)[b] by {
                if a < w.len() && b < w.len() {
                } else if a < w.len() {
                    assert(w.contains(w[a]));
                } else if b < w.len() {
                    assert(w.contains(w[b]));
                }
            }
        }
    } else {
        proof { assert(tag_set(before).insert(ev) =~= tag_set(before)); }
    }
}

/// The tags of both replicas, hash by hash.
pub open spec fn merged_tags(a: Map<Seq<char>, Set<TagView>>, b: Map<Seq<char>, Set<TagView>>) -> Map<
    Seq<char>,
    Set<TagView>,
> {
    Map::new(
        |h: Seq<char>| a.contains_key(h) || b.contains_key(h),
        |h: Seq<char>|
            if a.contains_key(h) && b.contains_key(h) {
                a[h].union(b[h])
            } else if a.contains_key(h) {
                a[h]
            } else {
                b[h]
            },
    )
}

/// Add wins: an addition that neither replica has removed is present
/// after they merge, whatever the other replica removed.
pub proof fn lemma_add_wins(
    a_tags: Map<Seq<char>, Set<TagView>>,
    a_removed: Set<TagView>,
    b_tags: Map<Seq<char>, Set<TagView>>,
    b_removed: Set<TagView>,
    h: Seq<char>,
    t: TagView,
)
    requires
        a_tags.contains_key(h),
        a_tags[h].contains(t),
        !a_removed.contains(t),
        !b_removed.contains(t),
    ensures
        merged_tags(a_tags, b_tags).contains_key(h),
        merged_tags(a_tags, b_tags)[h].contains(t),
        !a_removed.union(b_removed).contains(t),
{
}

/// Observed-remove set of string values (add wins).
#[derive(Debug)]
pub struct ORSet<T> {
    elements: StrMap<Vec<ElementId>>,
    removed: Vec<ElementId>,
    node_id: String,
    _phantom: PhantomData<T>,
}

impl<T> ORSet<T> {
    #[verifier::type_invariant]
    closed spec fn inv(self) -> bool {
        &&& self.elements.wf()
        &&& forall|h: Seq<char>| #[trigger] self.elements@.contains_key(h) ==> tags_distinct(self.elements@[h]@)
        &&& tags_distinct(self.removed@)
    }

    /// Value hash → the tags of its additions.
    pub closed spec fn tags(self) -> Map<Seq<char>, Set<TagView>> {
        self.elements@.map_values(|v: Vec<ElementId>| tag_set(v@))
    }

    /// The tags whose additions were removed.
    pub closed spec fn removed(self) -> Set<TagView> {
        tag_set(self.removed@)
    }

    /// The value hashes in storage order.
    pub closed spec fn hashes(self) -> Seq<Seq<char>> {
        self.elements.entries().map_values(|e: (String, Vec<ElementId>)| e.0@)
    }

    /// This replica's node ID.
    pub closed spec fn node(self) -> Seq<char> {
        self.node_id@
    }

    /// Whether the value with this hash is in the set: some addition of it
    /// was not removed.
    pub open spec fn live(self, h: Seq<char>) -> bool {
        self.tags().contains_key(h) && exists|t: TagView| #[trigger] self.tags()[h].contains(t) && !self.removed().contains(t)
    }

}

impl ORSet<String> {
    /// An empty set.
    pub fn new(node_id: String) -> (s: Self)
        ensures
            s.tags() == Map::<Seq<char>, Set<TagView>>::empty(),
            s.removed() == Set::<TagView>::empty(),
            s.node() == node_id@,
    {
        let s = ORSet { elements: StrMap::new(), removed: Vec::new(), node_id, _phantom: PhantomData };
        assert(s.tags() =~= Map::<Seq<char>, Set<TagView>>::empty());
        assert(s.removed() =~= Set::<TagView>::empty());
        s
    }

    fn hash_value(value: &String) -> (h: String)
        ensures
            h@ == value_hash(value@),
    {
        let json = json_quote(value.as_str());
        sha256_hex(json.as_str().as_bytes())
    }

    /// Add a value, tagged with its hash, the current time and this node.
    pub fn add(&mut self, value: String) -> (e: ElementId)
        ensures
            e.value_hash@ == value_hash(value@),
            e.node_id@ == old(self).node(),
            final(self).tags() == old(self).tags().insert(
                value_hash(value@),
                (if old(self).tags().contains_key(value_hash(value@)) {
                    old(self).tags()[value_hash(value@)]
                } else {
                    Set::<TagView>::empty()
                }).insert(e@),
            ),
            final(self).removed() == old(self).removed(),
            final(self).node() == old(self).node(),
    {
        proof { use_type_invariant(&*self); }
        let h = Self::hash_value(&value);
        let e = ElementId { value_hash: h.clone(), timestamp: unix_micros(), node_id: self.node_id.clone() };
        let ghost before = self.tags();
        let mut elements = StrMap::new();
        std::mem::swap(&mut elements, &mut self.elements);
        match elements.find_str(h.as_str()) {
            Some(i) => {
                proof { elements.lemma_entry_in_view(i as int); }
                let tags = elements.value_at_mut(i);
                tags_insert(tags, e.copy());
            },
            None => {
                let mut tags: Vec<ElementId> = Vec::new();
                tags_insert(&mut tags, e.copy());
                proof { assert(tag_set(Seq::<ElementId>::empty()) =~= Set::<TagView>::empty()); }
                elements.push_new(h, tags);
            },
        }
        self.elements = elements;
        assert(self.tags() =~= before.insert(
            value_hash(value@),
            (if before.contains_key(value_hash(value@)) {
                before[value_hash(value@)]
            } else {
                Set::<TagView>::empty()
            }).insert(e@),
        ));
        e
    }

    /// Remove a value: every addition of it seen so far counts as removed.
    pub fn remove(&mut self, value: &String)
        ensures
            final(self).tags() == old(self).tags(),
            final(self).removed() == old(self).removed().union(
                if old(self).tags().contains_key(value_hash(value@)) {
                    old(self).tags()[value_hash(value@)]
                } else {
                    Set::<TagView>::empty()
                },
            ),
            final(self).node() == old(self).node(),
    {
        proof { use_type_invariant(&*self); }
        let h = Self::hash_value(value);
        match self.elements.get_str(h.as_str()) {
            Some(ids) => {
                let ghost base = tag_set(self.removed@);
                let mut removed: Vec<ElementId> = Vec::new();
                std::mem::swap(&mut removed, &mut self.removed);
                let mut i: usize = 0;
                while i < ids.len()
                    invariant
                        i <= ids@.len(),
                        tags_distinct(removed@),
                        tag_set(removed@) == base.union(tag_set(ids@.subrange(0, i as int))),
                    decreases ids@.len() - i,
                {
                    tags_insert(&mut removed, ids[i].copy());
                    proof {
                        let w = ids@.subrange(0, i as int).map_values(|x: ElementId| x@);
                        assert(ids@.subrange(0, i + 1).map_values(|x: ElementId| x@) =~= w.push(ids@[i as int]@));
                        w.lemma_push_to_set_commute(ids@[i as int]@);
                        assert(tag_set(removed@) =~= base.union(tag_set(ids@.subrange(0, i + 1))));
                    }
                    i = i + 1;
                }
                proof { assert(ids@.subrange(0, ids@.len() as int) =~= ids@); }
                self.removed = removed;
            },
            None => {
                proof { assert(self.removed().union(Set::<TagView>::empty()) =~= self.removed()); }
            },
        }
    }

    /// The hashes of the values in the set, in storage order.
    pub fn elements(&self) -> (v: Vec<String>)
        ensures
            v@.map_values(|s: String| s@).no_duplicates(),
            forall|i: int| 0 <= i < v@.len() ==> self.live(#[trigger] v@[i]@),
            forall|h: Seq<char>| self.live(h) ==> v@.map_values(|s: String| s@).contains(h),
    {
        proof { use_type_invariant(self); }
        let ghost hs = self.hashes();
        let n = self.elements.len_raw();
        let mut v: Vec<String> = Vec::new();
        let mut i: usize = 0;
        while i < n
            invariant
                self.elements.wf(),
                tags_distinct(self.removed@),
                hs == self.hashes(),
                n == hs.len(),
                i <= n,
                forall|a: int| 0 <= a < v@.len() ==> self.live(#[trigger] v@[a]@),
                forall|a: int| 0 <= a < v@.len() ==> exists|k: int| 0 <= k < i && hs[k] == (#[trigger] v@[a])@,
                v@.map_values(|s: String| s@).no_duplicates(),
                forall|k: int| 0 <= k < i && self.live(#[trigger] hs[k]) ==> v@.map_values(|s: String| s@).contains(hs[k]),
            decreases n - i,
        {
            proof { self.elements.lemma_entry_in_view(i as int); }
            let key = self.elements.key_at(i);
            let ids = self.elements.value_at(i);
            let mut j: usize = 0;
            let mut alive = false;
            while j < ids.len()
                invariant
                    j <= ids@.len(),
                    alive == (exists|q: int| 0 <= q < j && !self.removed().contains(#[trigger] ids@[q]@)),
                decreases ids@.len() - j,
            {
                if !tags_contain(&self.removed, &ids[j]) {
                    alive = true;
                }
                j = j + 1;
            }
            proof {
                assert(hs[i as int] == key@);
                assert(self.tags().contains_key(key@));
                assert(self.tags()[key@] == tag_set(ids@));
                if alive {
                    let q = choose|q: int| 0 <= q < ids@.len() && !self.removed().contains(#[trigger] ids@[q]@);
                    assert(ids@.map_values(|x: ElementId| x@)[q] == ids@[q]@);
                    assert(self.tags()[key@].contains(ids@[q]@));
                } else {
                    assert forall|t: TagView| #[trigger] self.tags()[key@].contains(t) implies self.removed().contains(t) by {
                        let w = ids@.map_values(|x: ElementId| x@);
                        let q = choose|q: int| 0 <= q < w.len() && #[trigger] w[q] == t;
                        assert(ids@[q]@ == t);
                    }
                }
            }
            if alive {
                let ghost before = v@;
                v.push(key.clone());
                proof {
                    let w0 = before.map_values(|s: String| s@);
                    let w1 = v@.map_values(|s: String| s@);
                    assert(w1 =~= w0.push(key@));
                    assert(!w0.contains(key@)) by {
                        if w0.contains(key@) {
                            let a = choose|a: int| 0 <= a < w0.len() && w0[a] == key@;
                            assert(before[a]@ == key@);
                            let k = choose|k: int| 0 <= k < i && hs[k] == (#[trigger] before[a])@;
                            self.elements.lemma_distinct(k, i as int);
                        }
                    }
                    assert forall|a: int, b: int| 0 <= a < w1.len() && 0 <= b < w1.len() && a != b implies w1[a] != w1[b] by {
                        if a < w0.len() && b < w0.len() {
                        } else if a < w0.len() {
                            assert(w0.contains(w1[a]));
                        } else if b < w0.len() {
                            assert(w0.contains(w1[b]));
                        }
                    }
                    assert forall|k: int| 0 <= k < i + 1 && self.live(#[trigger] hs[k]) implies w1.contains(hs[k]) by {
                        if k < i {
                            let a = choose|a: int| 0 <= a < w0.len() && w0[a] == hs[k];
                            assert(w1[a] == hs[k]);
                        } else {
                            assert(w1[w0.len() as int] == hs[k]);
                        }
                    }
                    assert forall|a: int| 0 <= a < v@.len() implies exists|k: int| 0 <= k < i + 1 && hs[k] == (#[trigger] v@[a])@ by {
                        if a < before.len() {
                            assert(v@[a] == before[a]);
                        } else {
                            assert(hs[i as int] == v@[a]@);
                        }
                    }
                }
            }
            i = i + 1;
        }
        proof {
            assert forall|h: Seq<char>| self.live(h) implies v@.map_values(|s: String| s@).contains(h) by {
                let k = self.elements.lemma_key_in_entries(h);
                assert(hs[k] == h);
            }
        }
        v
    }

    /// Merge another replica: the union of the tags of each value, and of
    /// the removed tags.
    pub fn merge(&mut self, other: &ORSet<String>)
        ensures
            final(self).tags() == merged_tags(old(self).tags(), other.tags()),
            final(self).removed() == old(self).removed().union(other.removed()),
            final(self).node() == old(self).node(),
    {
        proof {
            use_type_invariant(&*self);
            use_type_invariant(other);
        }
        let ghost start = self.tags();
        let ghost theirs = other.elements;
        let mut elements = StrMap::new();
        std::mem::swap(&mut elements, &mut self.elements);
        let n = other.elements.len_raw();
        let mut i: usize = 0;
        proof { theirs.lemma_prefix_ends(); }
        while i < n
            invariant
                theirs == other.elements,
                theirs.wf(),
                forall|h: Seq<char>| #[trigger] theirs@.contains_key(h) ==> tags_distinct(theirs@[h]@),
                n == theirs.entries().len(),
                i <= n,
                elements.wf(),
                forall|h: Seq<char>| #[trigger] elements@.contains_key(h) ==> tags_distinct(elements@[h]@),
                elements@.map_values(|v: Vec<ElementId>| tag_set(v@)) == merged_tags(
                    start,
                    theirs.prefix_view(i as int).map_values(|v: Vec<ElementId>| tag_set(v@)),
                ),
            decreases n - i,
        {
            proof { theirs.lemma_prefix_step(i as int); theirs.lemma_entry_in_view(i as int); }
            let key = other.elements.key_at(i);
            let ids = other.elements.value_at(i);
            let ghost before = elements@.map_values(|v: Vec<ElementId>| tag_set(v@));
            let ghost raw_before = elements@;
            let pos = match elements.find_str(key.as_str()) {
                Some(p) => p,
                None => {
                    elements.push_new(key.clone(), Vec::new());
                    proof { elements.lemma_entry_in_view(elements.entries().len() - 1); }
                    elements.len_raw() - 1
                },
            };
            proof {
                if raw_before.contains_key(key@) {
                    assert(elements@ == raw_before);
                    assert(before[key@] == tag_set(elements@[key@]@));
                } else {
                    assert(tag_set(elements@[key@]@) =~= Set::<TagView>::empty());
                }
            }
            proof { elements.lemma_entry_in_view(pos as int); }
            let ghost mid = elements@;
            let list = elements.value_at_mut(pos);
            let ghost l0 = tag_set(list@);
            let mut j: usize = 0;
            while j < ids.len()
                invariant
                    j <= ids@.len(),
                    tags_distinct(list@),
                    tag_set(list@) == l0.union(tag_set(ids@.subrange(0, j as int))),
                decreases ids@.len() - j,
            {
                tags_insert(list, ids[j].copy());
                proof {
                    let w = ids@.subrange(0, j as int).map_values(|x: ElementId| x@);
                    assert(ids@.subrange(0, j + 1).map_values(|x: ElementId| x@) =~= w.push(ids@[j as int]@));
                    w.lemma_push_to_set_commute(ids@[j as int]@);
                    assert(tag_set(list@) =~= l0.union(tag_set(ids@.subrange(0, j + 1))));
                }
                j = j + 1;
            }
            let ghost list_final = *list;
            proof {
                assert(ids@.subrange(0, ids@.len() as int) =~= ids@);
                let p0 = theirs.prefix_view(i as int).map_values(|v: Vec<ElementId>| tag_set(v@));
                let p1 = theirs.prefix_view(i + 1).map_values(|v: Vec<ElementId>| tag_set(v@));
                assert(p1 =~= p0.insert(key@, tag_set(ids@)));
                assert(!p0.contains_key(key@));
                assert(elements@ == mid.insert(key@, list_final));
                let after = elements@.map_values(|v: Vec<ElementId>| tag_set(v@));
                let target = merged_tags(start, p1);
                assert(tag_set(list_final@) == l0.union(tag_set(ids@)));
                assert(l0 == (if start.contains_key(key@) { start[key@] } else { Set::<TagView>::empty() })) by {
                    assert(before.contains_key(key@) == raw_before.contains_key(key@));
                }
                assert forall|h: Seq<char>| after.contains_key(h) <==> target.contains_key(h) by {
                    assert(after.contains_key(h) == elements@.contains_key(h));
                    assert(elements@.contains_key(h) == (h == key@ || mid.contains_key(h)));
                    assert(mid.contains_key(h) == (h == key@ || raw_before.contains_key(h)));
                    assert(raw_before.contains_key(h) == before.contains_key(h));
                    assert(before.contains_key(h) == (start.contains_key(h) || p0.contains_key(h)));
                    assert(target.contains_key(h) == (start.contains_key(h) || p1.contains_key(h)));
                    assert(p1.contains_key(h) == (h == key@ || p0.contains_key(h)));
                }
                assert forall|h: Seq<char>| after.contains_key(h) implies after[h] == target[h] by {
                    if h == key@ {
                        if start.contains_key(h) {
                            assert(target[h] == start[h].union(tag_set(ids@)));
                        } else {
                            assert(target[h] == tag_set(ids@));
                            assert(Set::<TagView>::empty().union(tag_set(ids@)) =~= tag_set(ids@));
                        }
                    } else {
                        assert(after[h] == before[h]);
                    }
                }
                assert(after =~= target);
            }
            i = i + 1;
        }
        proof { theirs.lemma_prefix_ends(); }
        self.elements = elements;
        let ghost r0 = tag_set(self.removed@);
        let mut removed: Vec<ElementId> = Vec::new();
        std::mem::swap(&mut removed, &mut self.removed);
        let mut k: usize = 0;
        while k < other.removed.len()
            invariant
                k <= other.removed@.len(),
                tags_distinct(removed@),
                tag_set(removed@) == r0.union(tag_set(other.removed@.subrange(0, k as int))),
            decreases other.removed@.len() - k,
        {
            tags_insert(&mut removed, other.removed[k].copy());
            proof {
                let w = other.removed@.subrange(0, k as int).map_values(|x: ElementId| x@);
                assert(other.removed@.subrange(0, k + 1).map_values(|x: ElementId| x@) =~= w.push(other.removed@[k as int]@));
                w.lemma_push_to_set_commute(other.removed@[k as int]@);
                assert(tag_set(removed@) =~= r0.union(tag_set(other.removed@.subrange(0, k + 1))));
            }
            k = k + 1;
        }
        proof { assert(other.removed@.subrange(0, other.removed@.len() as int) =~= other.removed@); }
        self.removed = removed;
    }

    /// Whether a value is in the set.
    pub fn contains(&self, value: &String) -> (b: bool)
        ensures
            b == self.live(value_hash(value@)),
    {
        proof { use_type_invariant(self); }
        let h = Self::hash_value(value);
        match self.elements.get_str(h.as_str()) {
            Some(ids) => {
                proof {
                    assert(self.tags().contains_key(h@));
                    assert(self.tags()[h@] == tag_set(ids@));
                }
                let mut i: usize = 0;
                while i < ids.len()
                    invariant
                        h@ == value_hash(value@),
                        self.tags().contains_key(h@),
                        self.tags()[h@] == tag_set(ids@),
                        i <= ids@.len(),
                        forall|j: int| 0 <= j < i ==> self.removed().contains(#[trigger] ids@[j]@),
                    decreases ids@.len() - i,
                {
                    if !tags_contain(&self.removed, &ids[i]) {
                        proof {
                            assert(ids@.map_values(|x: ElementId| x@)[i as int] == ids@[i as int]@);
                            assert(self.tags()[h@].contains(ids@[i as int]@));
                        }
                        return true;
                    }
                    i = i + 1;
                }
                proof {
                    assert forall|t: TagView| #[trigger] self.tags()[h@].contains(t) implies self.removed().contains(t) by {
                        let w = ids@.map_values(|x: ElementId| x@);
                        let k = choose|k: int| 0 <= k < w.len() && #[trigger] w[k] == t;
                        assert(ids@[k]@ == t);
                    }
                }
                false
            },
            None => {
                proof { assert(!self.tags().contains_key(h@)); }
                false
            },
        }
    }
}

} // verus!
