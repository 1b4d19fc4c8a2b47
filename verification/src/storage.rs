//! In-memory storage of serialised operations and snapshots.

use vstd::prelude::*;
use crate::assoc::StrMap;
use crate::causal_op::{op_json, CausalOp};
use crate::snapshot::{snapshot_json, Snapshot};
use crate::text::string_push_str;

verus! {

/// Storage errors.
#[derive(Debug, Clone)]
pub enum StorageError {
    DatabaseError(String),
    SerializationError(String),
    NotFound(String),
    InvalidKey(String),
}

/// The text of a storage error.
pub open spec fn storage_error_text(e: StorageError) -> Seq<char> {
    match e {
        StorageError::DatabaseError(msg) => "Database error: "@ + msg@,
        StorageError::SerializationError(msg) => "Serialization error: "@ + msg@,
        StorageError::NotFound(key) => "Key not found: "@ + key@,
        StorageError::InvalidKey(key) => "Invalid key: "@ + key@,
    }
}

fn prefixed(prefix: &str, msg: &String) -> (s: String)
    ensures
        s@ == prefix@ + msg@,
{
    let mut s = String::from_str(prefix);
    string_push_str(&mut s, msg.as_str());
    s
}

impl StorageError {
    /// The error's text.
    pub fn message(&self) -> (s: String)
        ensures
            s@ == storage_error_text(*self),
    {
        match self {
            StorageError::DatabaseError(msg) => prefixed("Database error: ", msg),
            StorageError::SerializationError(msg) => prefixed("Serialization error: ", msg),
            StorageError::NotFound(key) => prefixed("Key not found: ", key),
            StorageError::InvalidKey(key) => prefixed("Invalid key: ", key),
        }
    }
}

/// In-memory storage: serialised operations and snapshots by ID.
pub struct InMemoryStorage {
    operations: StrMap<String>,
    snapshots: StrMap<String>,
}

/// What a lookup in a store of texts gives: the stored text, or
/// `NotFound` with the key.
pub open spec fn stored_text(m: Map<Seq<char>, String>, key: Seq<char>, r: Result<String, StorageError>) -> bool {
    if m.contains_key(key) {
        r == Ok::<String, StorageError>(m[key])
    } else {
        r matches Err(StorageError::NotFound(k)) && k@ == key
    }
}

impl InMemoryStorage {
    #[verifier::type_invariant]
    closed spec fn inv(self) -> bool {
        self.operations.wf() && self.snapshots.wf()
    }

    /// Operation ID → serialised operation.
    pub closed spec fn operations(self) -> Map<Seq<char>, String> {
        self.operations@
    }

    /// Snapshot ID → serialised snapshot.
    pub closed spec fn snapshots(self) -> Map<Seq<char>, String> {
        self.snapshots@
    }

    /// The snapshot IDs in storage order.
    pub closed spec fn snapshot_ids(self) -> Seq<Seq<char>> {
        self.snapshots.entries().map_values(|e: (String, String)| e.0@)
    }

    /// Empty storage.
    pub fn new() -> (s: Self)
        ensures
            s.operations() == Map::<Seq<char>, String>::empty(),
            s.snapshots() == Map::<Seq<char>, String>::empty(),
    {
        InMemoryStorage { operations: StrMap::new(), snapshots: StrMap::new() }
    }

    /// Store an operation's JSON text under its ID (replacing any).
    /// Writing an operation cannot fail.
    pub fn put_operation(&mut self, op: &CausalOp) -> (r: Result<(), StorageError>)
        ensures
            r is Ok,
            final(self).operations().dom() == old(self).operations().dom().insert(op.id@),
            final(self).operations()[op.id@]@ == op_json(*op),
            final(self).operations().remove(op.id@) == old(self).operations().remove(op.id@),
            final(self).snapshots() == old(self).snapshots(),
    {
        let text = op.to_json();
        let ghost t = text;
        self.put_operation_text(op.id.clone(), text);
        assert(self.operations().remove(op.id@) =~= old(self).operations().remove(op.id@));
        assert(self.operations().dom() =~= old(self).operations().dom().insert(op.id@));
        Ok(())
    }

    /// Store a snapshot's JSON text under an ID (replacing any). Writing a
    /// snapshot cannot fail.
    pub fn put_snapshot(&mut self, snapshot_id: &str, snapshot: &Snapshot) -> (r: Result<(), StorageError>)
        ensures
            r is Ok,
            final(self).snapshots().dom() == old(self).snapshots().dom().insert(snapshot_id@),
            final(self).snapshots()[snapshot_id@]@ == snapshot_json(*snapshot),
            final(self).snapshots().remove(snapshot_id@) == old(self).snapshots().remove(snapshot_id@),
            final(self).operations() == old(self).operations(),
    {
        let text = snapshot.to_json();
        self.put_snapshot_text(snapshot_id, text);
        assert(self.snapshots().remove(snapshot_id@) =~= old(self).snapshots().remove(snapshot_id@));
        assert(self.snapshots().dom() =~= old(self).snapshots().dom().insert(snapshot_id@));
        Ok(())
    }

    /// Store a serialised operation under its ID (replacing any).
    pub fn put_operation_text(&mut self, op_id: String, text: String)
        ensures
            final(self).operations() == old(self).operations().insert(op_id@, text),
            final(self).snapshots() == old(self).snapshots(),
    {
        proof { use_type_invariant(&*self); }
        let mut m = StrMap::new();
        std::mem::swap(&mut m, &mut self.operations);
        m.insert(op_id, text);
        self.operations = m;
    }

    /// The serialised operation stored under an ID.
    pub fn get_operation_text(&self, op_id: &str) -> (r: Result<String, StorageError>)
        ensures
            stored_text(self.operations(), op_id@, r),
    {
        proof { use_type_invariant(self); }
        match self.operations.get_str(op_id) {
            Some(t) => Ok(t.clone()),
            None => Err(StorageError::NotFound(String::from_str(op_id))),
        }
    }

    /// Store a serialised snapshot under its ID (replacing any).
    pub fn put_snapshot_text(&mut self, snapshot_id: &str, text: String)
        ensures
            final(self).snapshots() == old(self).snapshots().insert(snapshot_id@, text),
            final(self).operations() == old(self).operations(),
    {
        proof { use_type_invariant(&*self); }
        let mut m = StrMap::new();
        std::mem::swap(&mut m, &mut self.snapshots);
        m.insert(String::from_str(snapshot_id), text);
        self.snapshots = m;
    }

    /// The serialised snapshot stored under an ID.
    pub fn get_snapshot_text(&self, snapshot_id: &str) -> (r: Result<String, StorageError>)
        ensures
            stored_text(self.snapshots(), snapshot_id@, r),
    {
        proof { use_type_invariant(self); }
        match self.snapshots.get_str(snapshot_id) {
            Some(t) => Ok(t.clone()),
            None => Err(StorageError::NotFound(String::from_str(snapshot_id))),
        }
    }

    /// The stored snapshot IDs.
    pub fn list_snapshots(&self) -> (r: Result<Vec<String>, StorageError>)
        ensures
            r matches Ok(v) && v@.map_values(|s: String| s@) == self.snapshot_ids(),
            self.snapshot_ids().to_set() == self.snapshots().dom(),
            self.snapshot_ids().no_duplicates(),
    {
        proof {
            use_type_invariant(self);
            let ids = self.snapshot_ids();
            assert forall|a: int, b: int| 0 <= a < ids.len() && 0 <= b < ids.len() && a != b implies ids[a]
                != ids[b] by {
                self.snapshots.lemma_distinct(a, b);
            }
            assert forall|k: Seq<char>| ids.to_set().contains(k) <==> self.snapshots().dom().contains(k) by {
                if ids.to_set().contains(k) {
                    let a = choose|a: int| 0 <= a < ids.len() && ids[a] == k;
                    self.snapshots.lemma_entry_in_view(a);
                }
                if self.snapshots().dom().contains(k) {
                    let a = self.snapshots.lemma_key_in_entries(k);
                    assert(ids[a] == k);
                }
            }
            assert(ids.to_set() =~= self.snapshots().dom());
        }
        let n = self.snapshots.len_raw();
        let mut v: Vec<String> = Vec::new();
        let mut i: usize = 0;
        while i < n
            invariant
                n == self.snapshots.entries().len(),
                i <= n,
                v@.len() == i,
                v@.map_values(|s: String| s@) == self.snapshot_ids().subrange(0, i as int),
            decreases n - i,
        {
            let ghost before = v@;
            v.push(self.snapshots.key_at(i).clone());
            proof {
                assert(before.map_values(|s: String| s@) == self.snapshot_ids().subrange(0, i as int));
                assert(v@[i as int]@ == self.snapshot_ids()[i as int]);
                assert(v@.map_values(|s: String| s@) =~= self.snapshot_ids().subrange(0, i + 1));
            }
            i = i + 1;
        }
        assert(self.snapshot_ids().subrange(0, n as int) =~= self.snapshot_ids());
        Ok(v)
    }
}

/// A read gives back what the last write under the same ID wrote.
pub proof fn lemma_read_after_write(m: Map<Seq<char>, String>, id: Seq<char>, text: String, r: Result<
    String,
    StorageError,
>)
    requires
        stored_text(m.insert(id, text), id, r),
    ensures
        r == Ok::<String, StorageError>(text),
{
}

} // verus!
