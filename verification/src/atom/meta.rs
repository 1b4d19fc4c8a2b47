//! Atom metadata.

use vstd::prelude::*;
use crate::clock::unix_micros;
use crate::order::{strictly_sorted, string_views};
use crate::version_vector::VersionVector;

verus! {

/// Atom metadata, as values.
pub struct MetaV {
    pub id: Seq<char>,
    pub version: Map<Seq<char>, u64>,
    pub creator: Seq<char>,
    pub created_at: u64,
    pub modified_at: u64,
    pub dependencies: Seq<Seq<char>>,
    pub tags: Seq<Seq<char>>,
}

/// Metadata of an atom.
#[derive(Debug, Clone)]
pub struct AtomMeta {
    /// Content address (hash-based ID); empty until the content is hashed.
    pub id: String,
    /// Version vector.
    pub version: VersionVector,
    /// Creator node.
    pub creator: String,
    /// Creation time, microseconds since the Unix epoch.
    pub created_at: u64,
    /// Last modification time, microseconds since the Unix epoch.
    pub modified_at: u64,
    /// IDs of the atoms this one depends on, in increasing order, each once.
    pub dependencies: Vec<String>,
    /// Tags for categorisation.
    pub tags: Vec<String>,
}

impl View for AtomMeta {
    type V = MetaV;

    open spec fn view(&self) -> MetaV {
        MetaV {
            id: self.id@,
            version: self.version@,
            creator: self.creator@,
            created_at: self.created_at,
            modified_at: self.modified_at,
            dependencies: string_views(self.dependencies@),
            tags: string_views(self.tags@),
        }
    }
}

/// A copy of a list of strings.
pub fn copy_strings(v: &Vec<String>) -> (r: Vec<String>)
    ensures
        r@ == v@,
{
    let mut r: Vec<String> = Vec::new();
    let mut i: usize = 0;
    while i < v.len()
        invariant
            i <= v@.len(),
            r@ == v@.subrange(0, i as int),
        decreases v@.len() - i,
    {
        r.push(v[i].clone());
        i = i + 1;
        assert(r@ =~= v@.subrange(0, i as int));
    }
    assert(v@.subrange(0, v@.len() as int) =~= v@);
    r
}

impl AtomMeta {
    /// Fresh metadata: no ID yet, an empty version, no dependencies or
    /// tags, created and modified now.
    pub fn new(creator: String) -> (m: Self)
        ensures
            m.id@.len() == 0,
            m.version@ == Map::<Seq<char>, u64>::empty(),
            m.creator == creator,
            m.created_at == m.modified_at,
            m.dependencies@.len() == 0,
            m.tags@.len() == 0,
    {
        let now = unix_micros();
        AtomMeta {
            id: String::new(),
            version: VersionVector::new(),
            creator,
            created_at: now,
            modified_at: now,
            dependencies: Vec::new(),
            tags: Vec::new(),
        }
    }

    /// Record a modification now (the clock gives the time).
    pub fn touch(&mut self)
        ensures
            final(self).id == old(self).id,
            final(self).version == old(self).version,
            final(self).creator == old(self).creator,
            final(self).created_at == old(self).created_at,
            final(self).dependencies == old(self).dependencies,
            final(self).tags == old(self).tags,
    {
        self.modified_at = unix_micros();
    }

    /// A copy of this metadata.
    pub fn copy(&self) -> (m: Self)
        ensures
            m@ == self@,
    {
        AtomMeta {
            id: self.id.clone(),
            version: self.version.clone(),
            creator: self.creator.clone(),
            created_at: self.created_at,
            modified_at: self.modified_at,
            dependencies: copy_strings(&self.dependencies),
            tags: copy_strings(&self.tags),
        }
    }
}

/// The dependencies are in increasing order, each once.
pub open spec fn deps_sorted(m: AtomMeta) -> bool {
    strictly_sorted(string_views(m.dependencies@))
}

} // verus!
