//! References to atoms and schemas for typed atoms.

use vstd::prelude::*;
use crate::assoc::StrMap;
use crate::atom::causal_atom::{deep_merge_v, is_new_atom, is_value_set, lemma_map_view, map_view, AtomV, AtomValue, CausalAtom, ValueV, type_name_of};
use crate::assoc::str_eq;
use crate::order::string_views;
use crate::text::string_push_str;
use crate::version_vector::{vv_count, vv_merge, VersionVector};

verus! {

/// A reference to an atom by ID, optionally pinned to a version.
#[derive(Debug, Clone, PartialEq, Eq, Hash)]
pub struct AtomRef {
    pub id: String,
    pub version: Option<u64>,
}

impl AtomRef {
    /// A reference to any version.
    pub fn new(id: String) -> (r: Self)
        ensures
            r.id == id,
            r.version is None,
    {
        AtomRef { id, version: None }
    }

    /// A reference pinned to a version.
    pub fn versioned(id: String, version: u64) -> (r: Self)
        ensures
            r.id == id,
            r.version == Some(version),
    {
        AtomRef { id, version: Some(version) }
    }
}

/// The values of a map of atoms.
pub open spec fn atom_map_view(m: Map<Seq<char>, CausalAtom>) -> Map<Seq<char>, AtomV> {
    m.map_values(|a: CausalAtom| a@)
}

/// Merging a map of atoms `b` into `a`: a key of both holds the deep merge
/// of the two atoms, a key of one holds that one's atom.
pub open spec fn composite_merged(a: Map<Seq<char>, AtomV>, b: Map<Seq<char>, AtomV>) -> Map<Seq<char>, AtomV> {
    Map::new(
        |k: Seq<char>| a.contains_key(k) || b.contains_key(k),
        |k: Seq<char>|
            if b.contains_key(k) {
                if a.contains_key(k) { deep_merge_v(a[k], b[k]) } else { b[k] }
            } else {
                a[k]
            },
    )
}

/// Some ID of the map names the atom `a`.
pub open spec fn holds_atom(m: Map<Seq<char>, CausalAtom>, a: CausalAtom) -> bool {
    exists|k: Seq<char>| #[trigger] m.contains_key(k) && m[k] == a
}

/// A composite made of several atoms, found by ID.
#[derive(Debug)]
pub struct CompositeAtom {
    /// The root atom.
    pub root: CausalAtom,
    /// The atoms, by ID.
    pub atoms: StrMap<CausalAtom>,
    /// The composite's version.
    pub version: VersionVector,
    node_id: String,
}

impl CompositeAtom {
    /// The map of atoms is well formed.
    pub closed spec fn wf(&self) -> bool {
        self.atoms.wf()
    }

    /// The atoms, by ID.
    pub closed spec fn atoms_map(&self) -> Map<Seq<char>, CausalAtom> {
        self.atoms@
    }

    /// The root atom.
    pub closed spec fn root_atom(&self) -> CausalAtom {
        self.root
    }

    /// The composite's version.
    pub closed spec fn version_map(&self) -> Map<Seq<char>, u64> {
        self.version@
    }

    /// The node that makes changes to this composite.
    pub closed spec fn node(&self) -> Seq<char> {
        self.node_id@
    }

    /// The values of the atoms, by ID.
    pub open spec fn atoms_view(&self) -> Map<Seq<char>, AtomV> {
        atom_map_view(self.atoms_map())
    }

    /// A composite holding `root` alone, at an empty version.
    pub fn new(root: CausalAtom, node_id: String) -> (c: Self)
        ensures
            c.wf(),
            c.root_atom() == root,
            c.atoms_view() == Map::<Seq<char>, AtomV>::empty().insert(root.meta.id@, root@),
            c.version_map() == Map::<Seq<char>, u64>::empty(),
            c.node() == node_id@,
    {
        let mut atoms: StrMap<CausalAtom> = StrMap::new();
        atoms.push_new(root.meta.id.clone(), root.copy());
        assert(atom_map_view(atoms@) =~= Map::<Seq<char>, AtomV>::empty().insert(root.meta.id@, root@));
        CompositeAtom { root, atoms, version: VersionVector::new(), node_id }
    }

    /// Adds (or replaces) an atom under its ID; the node's count goes up
    /// by one.
    pub fn add(&mut self, atom: CausalAtom)
        requires
            old(self).wf(),
            vv_count(old(self).version_map(), old(self).node()) < u64::MAX,
        ensures
            final(self).wf(),
            final(self).atoms_map() == old(self).atoms_map().insert(atom.meta.id@, atom),
            final(self).version_map() == old(self).version_map().insert(
                old(self).node(),
                (vv_count(old(self).version_map(), old(self).node()) + 1) as u64,
            ),
            final(self).root_atom() == old(self).root_atom(),
            final(self).node() == old(self).node(),
    {
        let id = atom.meta.id.clone();
        self.atoms.insert(id, atom);
        self.version.increment(self.node_id.as_str());
    }

    /// The atom with ID `id`, if any.
    pub fn get(&self, id: &str) -> (r: Option<&CausalAtom>)
        requires
            self.wf(),
        ensures
            match r {
                Some(a) => self.atoms_map().contains_key(id@) && *a == self.atoms_map()[id@],
                None => !self.atoms_map().contains_key(id@),
            },
    {
        self.atoms.get_str(id)
    }

    /// The atom with ID `id`, if any, to change in place.
    pub fn get_mut(&mut self, id: &str) -> (r: Option<&mut CausalAtom>)
        requires
            old(self).wf(),
        ensures
            match r {
                Some(a) => {
                    &&& old(self).atoms_map().contains_key(id@)
                    &&& *a == old(self).atoms_map()[id@]
                    &&& final(self).wf()
                    &&& final(self).atoms_map() == old(self).atoms_map().insert(id@, *final(a))
                    &&& final(self).root_atom() == old(self).root_atom()
                    &&& final(self).version_map() == old(self).version_map()
                    &&& final(self).node() == old(self).node()
                },
                None => !old(self).atoms_map().contains_key(id@) && *final(self) == *old(self),
            },
    {
        match self.atoms.find_str(id) {
            Some(i) => Some(self.atoms.value_at_mut(i)),
            None => None,
        }
    }

    /// The atom a reference names, if any.
    pub fn resolve(&self, atom_ref: &AtomRef) -> (r: Option<&CausalAtom>)
        requires
            self.wf(),
        ensures
            match r {
                Some(a) => self.atoms_map().contains_key(atom_ref.id@) && *a == self.atoms_map()[atom_ref.id@],
                None => !self.atoms_map().contains_key(atom_ref.id@),
            },
    {
        self.atoms.get_str(atom_ref.id.as_str())
    }

    /// Sets the value of the atom with ID `id` and returns its new ID; the
    /// atom stays under the old one. `None`, with nothing changed, when no
    /// atom has that ID.
    pub fn update(&mut self, id: &str, value: AtomValue) -> (r: Option<String>)
        requires
            old(self).wf(),
            old(self).atoms_map().contains_key(id@) ==> vv_count(old(self).atoms_map()[id@].meta.version@,
                old(self).atoms_map()[id@].meta.creator@,
            ) < u64::MAX && vv_count(old(self).version_map(), old(self).node()) < u64::MAX,
        ensures
            final(self).wf(),
            final(self).root_atom() == old(self).root_atom(),
            final(self).node() == old(self).node(),
            match r {
                Some(new_id) => {
                    &&& old(self).atoms_map().contains_key(id@)
                    &&& final(self).atoms_map().dom() == old(self).atoms_map().dom()
                    &&& final(self).atoms_view().remove(id@) == old(self).atoms_view().remove(id@)
                    &&& is_value_set(final(self).atoms_view()[id@], old(self).atoms_view()[id@], value)
                    &&& new_id@ == final(self).atoms_view()[id@].meta.id
                    &&& final(self).version_map() == old(self).version_map().insert(
                        old(self).node(),
                        (vv_count(old(self).version_map(), old(self).node()) + 1) as u64,
                    )
                },
                None => !old(self).atoms_map().contains_key(id@) && *final(self) == *old(self),
            },
    {
        match self.atoms.find_str(id) {
            Some(i) => {
                let mut atom = self.atoms.value_at(i).copy();
                atom.set_value(value);
                let new_id = atom.meta.id.clone();
                let ghost old_map = self.atoms;
                let ghost a = atom;
                *self.atoms.value_at_mut(i) = atom;
                proof {
                    StrMap::lemma_value_updated(old_map, self.atoms, i as int, a);
                    assert(atom_map_view(self.atoms@).remove(id@) =~= atom_map_view(old_map@).remove(id@));
                }
                self.version.increment(self.node_id.as_str());
                Some(new_id)
            },
            None => None,
        }
    }

    /// Merges another composite in: each of its atoms is deep-merged into
    /// the atom with the same ID, or added where there is none; the roots
    /// are deep-merged and the versions joined.
    pub fn merge(&mut self, other: &CompositeAtom)
        requires
            old(self).wf(),
            other.wf(),
        ensures
            final(self).wf(),
            final(self).atoms_view() == composite_merged(old(self).atoms_view(), other.atoms_view()),
            final(self).root_atom()@ == deep_merge_v(old(self).root_atom()@, other.root_atom()@),
            final(self).version_map() == vv_merge(old(self).version_map(), other.version_map()),
            final(self).node() == old(self).node(),
    {
        let ghost a = atom_map_view(self.atoms@);
        let n = other.atoms.len_raw();
        proof {
            other.atoms.lemma_prefix_ends();
            assert(atom_map_view(other.atoms.prefix_view(0)) =~= Map::<Seq<char>, AtomV>::empty());
            assert(composite_merged(a, Map::<Seq<char>, AtomV>::empty()) =~= a);
        }
        let mut i: usize = 0;
        while i < n
            invariant
                self.atoms.wf(),
                other.atoms.wf(),
                n == other.atoms.entries().len(),
                i <= n,
                atom_map_view(self.atoms@) == composite_merged(a, atom_map_view(other.atoms.prefix_view(i as int))),
                self.root == old(self).root,
                self.version == old(self).version,
                self.node_id == old(self).node_id,
            decreases n - i,
        {
            let k = other.atoms.key_at(i);
            let oa = other.atoms.value_at(i);
            let ghost p = atom_map_view(other.atoms.prefix_view(i as int));
            let ghost cur = atom_map_view(self.atoms@);
            proof {
                other.atoms.lemma_prefix_step(i as int);
                assert(!p.contains_key(k@));
                assert(cur.contains_key(k@) == self.atoms@.contains_key(k@));
                assert(cur.contains_key(k@) == a.contains_key(k@));
                if a.contains_key(k@) {
                    assert(cur[k@] == a[k@]);
                    assert(self.atoms@[k@]@ == a[k@]);
                }
            }
            match self.atoms.find_str(k.as_str()) {
                Some(j) => {
                    let merged = self.atoms.value_at(j).deep_merge(oa);
                    let ghost old_map = self.atoms;
                    let ghost mv = merged;
                    *self.atoms.value_at_mut(j) = merged;
                    proof {
                        StrMap::lemma_value_updated(old_map, self.atoms, j as int, mv);
                        assert(a.contains_key(k@));
                        assert(mv@ == deep_merge_v(a[k@], oa@));
                        assert(atom_map_view(self.atoms@) =~= cur.insert(k@, deep_merge_v(a[k@], oa@)));
                        assert(composite_merged(a, p.insert(k@, oa@)) =~= cur.insert(k@, deep_merge_v(a[k@], oa@)));
                    }
                },
                None => {
                    let c = oa.copy();
                    let ghost cv = c;
                    self.atoms.push_new(k.clone(), c);
                    proof {
                        assert(!a.contains_key(k@));
                        assert(atom_map_view(self.atoms@) =~= cur.insert(k@, oa@));
                        assert(composite_merged(a, p.insert(k@, oa@)) =~= cur.insert(k@, oa@));
                    }
                },
            }
            proof {
                assert(atom_map_view(other.atoms.prefix_view(i + 1)) =~= p.insert(k@, oa@));
                assert(atom_map_view(self.atoms@) =~= composite_merged(a, p.insert(k@, oa@)));
            }
            i = i + 1;
        }
        proof {
            other.atoms.lemma_prefix_ends();
        }
        self.root = self.root.deep_merge(&other.root);
        self.version = self.version.merge(&other.version);
    }

    /// The IDs of the atoms, each once.
    pub fn atom_ids(&self) -> (r: Vec<String>)
        requires
            self.wf(),
        ensures
            string_views(r@).to_set() == self.atoms_map().dom(),
            r@.len() == self.atoms_map().dom().len(),
    {
        proof { self.atoms.lemma_len(); }
        let n = self.atoms.len_raw();
        let mut r: Vec<String> = Vec::new();
        let mut i: usize = 0;
        while i < n
            invariant
                self.atoms.wf(),
                n == self.atoms.entries().len(),
                i <= n,
                r@.len() == i,
                forall|j: int| 0 <= j < i ==> (#[trigger] r@[j])@ == self.atoms.entries()[j].0@,
            decreases n - i,
        {
            r.push(self.atoms.key_at(i).clone());
            i = i + 1;
        }
        proof {
            let v = string_views(r@);
            assert forall|k: Seq<char>| v.to_set().contains(k) <==> self.atoms@.dom().contains(k) by {
                if v.to_set().contains(k) {
                    let j = choose|j: int| 0 <= j < v.len() && v[j] == k;
                    self.atoms.lemma_entry_in_view(j);
                }
                if self.atoms@.dom().contains(k) {
                    let j = self.atoms.lemma_key_in_entries(k);
                    assert(v[j] == k);
                }
            }
            assert(v.to_set() =~= self.atoms@.dom());
        }
        r
    }

    /// The number of atoms.
    pub fn atom_count(&self) -> (n: usize)
        requires
            self.wf(),
        ensures
            n == self.atoms_map().dom().len(),
    {
        self.atoms.len()
    }

    /// The atoms, each once.
    pub fn flatten(&self) -> (r: Vec<&CausalAtom>)
        requires
            self.wf(),
        ensures
            r@.len() == self.atoms_map().dom().len(),
            forall|j: int| 0 <= j < r@.len() ==> holds_atom(self.atoms_map(), *#[trigger] r@[j]),
            forall|k: Seq<char>| #[trigger] self.atoms_map().contains_key(k) ==> exists|j: int| 0 <= j < r@.len() && *#[trigger] r@[j] == self.atoms_map()[k],
    {
        proof { self.atoms.lemma_len(); }
        let n = self.atoms.len_raw();
        let mut r: Vec<&CausalAtom> = Vec::new();
        let mut i: usize = 0;
        while i < n
            invariant
                self.atoms.wf(),
                n == self.atoms.entries().len(),
                i <= n,
                r@.len() == i,
                forall|j: int| 0 <= j < i ==> *(#[trigger] r@[j]) == self.atoms.entries()[j].1,
            decreases n - i,
        {
            r.push(self.atoms.value_at(i));
            i = i + 1;
        }
        proof {
            assert forall|j: int| 0 <= j < r@.len() implies holds_atom(self.atoms@, *#[trigger] r@[j]) by {
                self.atoms.lemma_entry_in_view(j);
            }
            assert forall|k: Seq<char>| #[trigger] self.atoms@.contains_key(k) implies exists|j: int| 0 <= j < r@.len() && *#[trigger] r@[j] == self.atoms@[k] by {
                let j = self.atoms.lemma_key_in_entries(k);
                assert(*r@[j] == self.atoms@[k]);
            }
        }
        r
    }
}

/// An atom with one more map entry, when it holds a map; unchanged
/// otherwise.
pub open spec fn entry_added(a: AtomV, name: Seq<char>, e: AtomV) -> AtomV {
    match a.value {
        ValueV::Dict(es) => AtomV { value: ValueV::Dict(es.push((name, e))), meta: a.meta },
        _ => a,
    }
}

/// `ra` is a new atom by `creator` referring to the atom with ID `target`.
pub open spec fn is_new_reference(ra: CausalAtom, target: Seq<char>, creator: Seq<char>) -> bool {
    is_new_atom(ra, ra.value, creator) && ra.value@ == ValueV::Ref(target)
}

fn with_entry(a: CausalAtom, name: String, e: CausalAtom) -> (r: CausalAtom)
    ensures
        r@ == entry_added(a@, name@, e@),
{
    let CausalAtom { value, meta } = a;
    match value {
        AtomValue::Dict(mut es) => {
            let ghost es0 = es@;
            let ghost ev = (name, e);
            es.push((name, e));
            proof {
                lemma_map_view(es@, es@.len() as int);
                lemma_map_view(es0, es0.len() as int);
                assert(map_view(es@, es@.len() as int) =~= map_view(es0, es0.len() as int).push((ev.0@, ev.1@)));
            }
            CausalAtom { value: AtomValue::Dict(es), meta }
        },
        other => CausalAtom { value: other, meta },
    }
}

/// Builds a composite one field at a time, with a stack of the nested
/// objects being filled.
#[derive(Debug)]
pub struct AtomComposer {
    composite: CompositeAtom,
    stack: Vec<String>,
}

impl AtomComposer {
    /// The composite being built.
    pub closed spec fn composite_of(self) -> CompositeAtom {
        self.composite
    }

    /// The IDs of the open nested objects, innermost last.
    pub closed spec fn stack_of(self) -> Seq<Seq<char>> {
        string_views(self.stack@)
    }

    /// The composite is well formed.
    pub closed spec fn wf(self) -> bool {
        self.composite.wf()
    }

    /// The ID of the object that fields go into: the innermost open
    /// object, or the root.
    pub open spec fn parent_key(self) -> Seq<char> {
        if self.stack_of().len() > 0 {
            self.stack_of().last()
        } else {
            self.composite_of().root_atom().meta.id@
        }
    }

    /// What adding field `name` with atom `value` to `s` gives: the atom is
    /// added under its ID, the node's count goes up by one, and the parent
    /// object, when it holds a map, gets an entry `name` holding a new
    /// reference to the atom, made by the parent's creator.
    pub open spec fn field_result(r: Self, s: Self, name: Seq<char>, value: AtomV) -> bool {
        let m1 = s.composite_of().atoms_view().insert(value.meta.id, value);
        let pid = s.parent_key();
        &&& r.wf()
        &&& r.stack_of() == s.stack_of()
        &&& r.composite_of().root_atom() == s.composite_of().root_atom()
        &&& r.composite_of().node() == s.composite_of().node()
        &&& r.composite_of().version_map() == s.composite_of().version_map().insert(
            s.composite_of().node(),
            (vv_count(s.composite_of().version_map(), s.composite_of().node()) + 1) as u64,
        )
        &&& if m1.contains_key(pid) && m1[pid].value is Dict {
            exists|ra: CausalAtom|
                is_new_reference(ra, value.meta.id, m1[pid].meta.creator) && r.composite_of().atoms_view() == m1.insert(
                    pid,
                    entry_added(m1[pid], name, ra@),
                )
        } else {
            r.composite_of().atoms_view() == m1
        }
    }

    /// A composer over a new empty map atom made by `node_id`, with no
    /// open object.
    pub fn new(node_id: &str) -> (c: Self)
        ensures
            c.wf(),
            c.stack_of().len() == 0,
            is_new_atom(c.composite_of().root_atom(), c.composite_of().root_atom().value, node_id@),
            c.composite_of().root_atom().value@ == ValueV::Dict(Seq::empty()),
            c.composite_of().atoms_view() == Map::<Seq<char>, AtomV>::empty().insert(
                c.composite_of().root_atom().meta.id@,
                c.composite_of().root_atom()@,
            ),
            c.composite_of().version_map() == Map::<Seq<char>, u64>::empty(),
            c.composite_of().node() == node_id@,
    {
        let root = CausalAtom::map(Vec::new(), node_id.to_string());
        let composite = CompositeAtom::new(root, node_id.to_string());
        AtomComposer { composite, stack: Vec::new() }
    }

    /// A composer over an existing composite, filling its root.
    pub fn from_composite(composite: CompositeAtom) -> (c: Self)
        requires
            composite.wf(),
        ensures
            c.wf(),
            c.composite_of() == composite,
            c.stack_of() == seq![composite.root_atom().meta.id@],
    {
        let root_id = composite.root.meta.id.clone();
        let stack = vec![root_id];
        assert(string_views(stack@) =~= seq![composite.root_atom().meta.id@]);
        AtomComposer { composite, stack }
    }

    /// Adds field `name` holding `value` to the current object.
    pub fn field(self, name: &str, value: CausalAtom) -> (c: Self)
        requires
            self.wf(),
            vv_count(self.composite_of().version_map(), self.composite_of().node()) < u64::MAX,
        ensures
            Self::field_result(c, self, name@, value@),
    {
        let ghost s = self;
        let ghost m1 = self.composite_of().atoms_view().insert(value.meta.id@, value@);
        let ghost pid = self.parent_key();
        let AtomComposer { mut composite, stack } = self;
        let parent_id: String = if stack.len() > 0 {
            stack[stack.len() - 1].clone()
        } else {
            composite.root.meta.id.clone()
        };
        assert(parent_id@ == pid);
        let value_id = value.meta.id.clone();
        composite.add(value.copy());
        assert(composite.atoms_view() =~= m1);
        match composite.atoms.find_str(parent_id.as_str()) {
            Some(i) => {
                let is_dict = match &composite.atoms.value_at(i).value {
                    AtomValue::Dict(_) => true,
                    _ => false,
                };
                if is_dict {
                    let parent = composite.atoms.value_at(i).copy();
                    let ra = CausalAtom::reference(value_id, parent.meta.creator.clone());
                    let ghost rv = ra;
                    let p2 = with_entry(parent, String::from_str(name), ra);
                    let ghost old_map = composite.atoms;
                    let ghost pv = p2;
                    *composite.atoms.value_at_mut(i) = p2;
                    proof {
                        StrMap::lemma_value_updated(old_map, composite.atoms, i as int, pv);
                        assert(is_new_reference(rv, value.meta.id@, m1[pid].meta.creator));
                        assert(composite.atoms_view() =~= m1.insert(pid, entry_added(m1[pid], name@, rv@)));
                    }
                }
            },
            None => {},
        }
        AtomComposer { composite, stack }
    }

    /// Adds a string field: a new string atom made by `node_id`.
    pub fn string_field(self, name: &str, value: &str, node_id: &str) -> (c: Self)
        requires
            self.wf(),
            vv_count(self.composite_of().version_map(), self.composite_of().node()) < u64::MAX,
        ensures
            exists|a: CausalAtom|
                is_new_atom(a, a.value, node_id@) && a.value@ == ValueV::Str(value@) && Self::field_result(
                    c,
                    self,
                    name@,
                    a@,
                ),
    {
        let a = CausalAtom::string(value.to_string(), node_id.to_string());
        let ghost av = a;
        let c = self.field(name, a);
        assert(is_new_atom(av, av.value, node_id@) && av.value@ == ValueV::Str(value@));
        c
    }

    /// Adds an integer field: a new integer atom made by `node_id`.
    pub fn int_field(self, name: &str, value: i64, node_id: &str) -> (c: Self)
        requires
            self.wf(),
            vv_count(self.composite_of().version_map(), self.composite_of().node()) < u64::MAX,
        ensures
            exists|a: CausalAtom|
                is_new_atom(a, AtomValue::Int(value), node_id@) && Self::field_result(c, self, name@, a@),
    {
        let a = CausalAtom::integer(value, node_id.to_string());
        let ghost av = a;
        let c = self.field(name, a);
        assert(is_new_atom(av, AtomValue::Int(value), node_id@));
        c
    }

    /// Opens a nested object: a new empty map atom made by `node_id` is
    /// added, and later fields go into it until `end_object`. The object
    /// is not entered in its parent.
    pub fn object(self, name: &str, node_id: &str) -> (c: Self)
        requires
            self.wf(),
            vv_count(self.composite_of().version_map(), self.composite_of().node()) < u64::MAX,
        ensures
            c.wf(),
            exists|o: CausalAtom|
                {
                    &&& is_new_atom(o, o.value, node_id@)
                    &&& o.value@ == ValueV::Dict(Seq::empty())
                    &&& c.composite_of().atoms_map() == self.composite_of().atoms_map().insert(o.meta.id@, o)
                    &&& c.stack_of() == self.stack_of().push(o.meta.id@)
                },
            c.composite_of().root_atom() == self.composite_of().root_atom(),
            c.composite_of().node() == self.composite_of().node(),
            c.composite_of().version_map() == self.composite_of().version_map().insert(
                self.composite_of().node(),
                (vv_count(self.composite_of().version_map(), self.composite_of().node()) + 1) as u64,
            ),
    {
        let AtomComposer { mut composite, mut stack } = self;
        let obj = CausalAtom::map(Vec::new(), node_id.to_string());
        let ghost ov = obj;
        let obj_id = obj.meta.id.clone();
        composite.add(obj);
        let ghost st0 = stack@;
        stack.push(obj_id);
        proof {
            assert(string_views(stack@) =~= string_views(st0).push(ov.meta.id@));
            lemma_map_view(Seq::<(String, CausalAtom)>::empty(), 0);
            assert(ov.value@ == ValueV::Dict(Seq::empty()));
        }
        AtomComposer { composite, stack }
    }

    /// Closes the innermost open object (nothing when none is open).
    pub fn end_object(self) -> (c: Self)
        requires
            self.wf(),
        ensures
            c.wf(),
            c.composite_of() == self.composite_of(),
            c.stack_of() == if self.stack_of().len() > 0 { self.stack_of().drop_last() } else { self.stack_of() },
    {
        let AtomComposer { composite, mut stack } = self;
        let ghost st0 = stack@;
        let _ = stack.pop();
        proof {
            if st0.len() > 0 {
                assert(string_views(stack@) =~= string_views(st0).drop_last());
            }
        }
        AtomComposer { composite, stack }
    }

    /// The composite built.
    pub fn build(self) -> (c: CompositeAtom)
        ensures
            c == self.composite_of(),
    {
        self.composite
    }

    /// The number of atoms so far.
    pub fn atom_count(&self) -> (n: usize)
        requires
            self.wf(),
        ensures
            n == self.composite_of().atoms_map().dom().len(),
    {
        self.composite.atom_count()
    }
}

/// A field definition of a schema.
#[derive(Debug, Clone)]
pub struct FieldDef {
    pub name: String,
    pub field_type: String,
    pub description: Option<String>,
}

/// A schema for typed atoms.
#[derive(Debug, Clone)]
pub struct AtomSchema {
    pub name: String,
    pub fields: Vec<FieldDef>,
    /// Names of the required fields.
    pub required: Vec<String>,
}

/// Whether some entry of a map has the key `name`.
pub open spec fn has_field(es: Seq<(Seq<char>, AtomV)>, name: Seq<char>) -> bool {
    exists|k: int| 0 <= k < es.len() && (#[trigger] es[k]).0 == name
}

/// What validating an atom against a list of required fields gives: a
/// type mismatch when it holds no map, else the first required field
/// that the map lacks, else success.
pub open spec fn validation_ok(r: Result<(), SchemaError>, required: Seq<Seq<char>>, v: ValueV) -> bool {
    match v {
        ValueV::Dict(es) => match r {
            Ok(_) => forall|i: int| 0 <= i < required.len() ==> has_field(es, #[trigger] required[i]),
            Err(SchemaError::MissingRequired(f)) => exists|i: int|
                0 <= i < required.len() && f@ == required[i] && !has_field(es, required[i]) && (forall|j: int|
                    0 <= j < i ==> has_field(es, #[trigger] required[j])),
            Err(_) => false,
        },
        _ => match r {
            Err(SchemaError::TypeMismatch { expected, got }) => expected@ == "map"@ && got@ == type_name_of(v),
            _ => false,
        },
    }
}

fn dict_has_key(es: &Vec<(String, CausalAtom)>, name: &str) -> (b: bool)
    ensures
        b == has_field(map_view(es@, es@.len() as int), name@),
{
    proof { lemma_map_view(es@, es@.len() as int); }
    let ghost v = map_view(es@, es@.len() as int);
    let mut k: usize = 0;
    while k < es.len()
        invariant
            v == map_view(es@, es@.len() as int),
            v.len() == es@.len(),
            forall|l: int| 0 <= l < es@.len() ==> #[trigger] v[l] == (es@[l].0@, es@[l].1@),
            k <= es@.len(),
            forall|l: int| 0 <= l < k ==> (#[trigger] v[l]).0 != name@,
        decreases es@.len() - k,
    {
        if str_eq(es[k].0.as_str(), name) {
            assert(v[k as int].0 == name@);
            return true;
        }
        k = k + 1;
    }
    false
}

impl AtomSchema {
    /// A schema with no fields.
    pub fn new(name: String) -> (s: Self)
        ensures
            s.name == name,
            s.fields@.len() == 0,
            s.required@.len() == 0,
    {
        AtomSchema { name, fields: Vec::new(), required: Vec::new() }
    }

    /// The schema with one more field, without description.
    pub fn field(self, name: &str, field_type: &str) -> (s: Self)
        ensures
            s.name == self.name,
            s.required == self.required,
            s.fields@.len() == self.fields@.len() + 1,
            s.fields@.subrange(0, self.fields@.len() as int) == self.fields@,
            s.fields@.last().name@ == name@,
            s.fields@.last().field_type@ == field_type@,
            s.fields@.last().description is None,
    {
        let AtomSchema { name: n, mut fields, required } = self;
        fields.push(FieldDef { name: String::from_str(name), field_type: String::from_str(field_type), description: None });
        assert(fields@.subrange(0, fields@.len() - 1) =~= self.fields@);
        AtomSchema { name: n, fields, required }
    }

    /// Validates an atom: it must hold a map that has every required
    /// field. The error names the first required field missing, or the
    /// type found where a map was expected.
    pub fn validate(&self, atom: &CausalAtom) -> (r: Result<(), SchemaError>)
        ensures
            validation_ok(r, string_views(self.required@), atom.value@),
    {
        match &atom.value {
            AtomValue::Dict(entries) => {
                let ghost req = string_views(self.required@);
                let ghost es = map_view(entries@, entries@.len() as int);
                let mut i: usize = 0;
                while i < self.required.len()
                    invariant
                        req == string_views(self.required@),
                        atom.value == AtomValue::Dict(*entries),
                        es == map_view(entries@, entries@.len() as int),
                        i <= self.required@.len(),
                        forall|j: int| 0 <= j < i ==> has_field(es, #[trigger] req[j]),
                    decreases self.required@.len() - i,
                {
                    if !dict_has_key(entries, self.required[i].as_str()) {
                        let f = self.required[i].clone();
                        assert(req[i as int] == self.required@[i as int]@);
                        return Err(SchemaError::MissingRequired(f));
                    }
                    i = i + 1;
                }
                Ok(())
            },
            _ => {
                let got = String::from_str(atom.value.type_label());
                Err(SchemaError::TypeMismatch { expected: String::from_str("map"), got })
            },
        }
    }

    /// The schema with one more required field name.
    pub fn require(self, name: &str) -> (s: Self)
        ensures
            s.name == self.name,
            s.fields == self.fields,
            s.required@.len() == self.required@.len() + 1,
            s.required@.subrange(0, self.required@.len() as int) == self.required@,
            s.required@.last()@ == name@,
    {
        let AtomSchema { name: n, fields, mut required } = self;
        required.push(String::from_str(name));
        assert(required@.subrange(0, required@.len() - 1) =~= self.required@);
        AtomSchema { name: n, fields, required }
    }
}

/// A schema validation error.
#[derive(Debug, Clone)]
pub enum SchemaError {
    MissingRequired(String),
    TypeMismatch { expected: String, got: String },
    InvalidValue(String),
}

/// The text of a schema error.
pub open spec fn schema_error_text(e: SchemaError) -> Seq<char> {
    match e {
        SchemaError::MissingRequired(field) => "Missing required field: "@ + field@,
        SchemaError::TypeMismatch { expected, got } => "Type mismatch: expected "@ + expected@ + ", got "@ + got@,
        SchemaError::InvalidValue(msg) => "Invalid value: "@ + msg@,
    }
}

impl SchemaError {
    /// The error's text.
    pub fn message(&self) -> (s: String)
        ensures
            s@ == schema_error_text(*self),
    {
        match self {
            SchemaError::MissingRequired(field) => {
                let mut s = String::from_str("Missing required field: ");
                string_push_str(&mut s, field.as_str());
                s
            },
            SchemaError::TypeMismatch { expected, got } => {
                let mut s = String::from_str("Type mismatch: expected ");
                string_push_str(&mut s, expected.as_str());
                string_push_str(&mut s, ", got ");
                string_push_str(&mut s, got.as_str());
                s
            },
            SchemaError::InvalidValue(msg) => {
                let mut s = String::from_str("Invalid value: ");
                string_push_str(&mut s, msg.as_str());
                s
            },
        }
    }
}

} // verus!
