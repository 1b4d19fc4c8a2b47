//! Causal operations: signed, content-identified operations with explicit
//! dependencies and the version vector they were made at.

use vstd::prelude::*;
use vstd::string::StringSliceAdditionalSpecFns;
use vstd::utf8::encode_utf8;
use crate::clock::unix_millis;
use crate::crypto::{ed25519_accepts, ed25519_public_of, ed25519_signature_of, public_key_of, sig_or_zeros, sign_bytes, verify_signature};
use crate::digest::{is_hex_digit, sha256_hex, sha256_hex_of};
use crate::json::{bytes_json, json_quote, json_string_of, json_text, push_bytes, push_strs, strs_json, Json, JsonV};
use crate::order::{sorted_unique, strictly_sorted, string_views};
use crate::text::{decimal, push_decimal, string_push_str};
use crate::version_vector::{VersionVector, entries_json, entry_views, vv_conflicts};

verus! {

/// The dependency IDs separated by commas.
pub open spec fn joined(s: Seq<Seq<char>>) -> Seq<char>
    decreases s.len(),
{
    if s.len() == 0 {
        Seq::empty()
    } else if s.len() == 1 {
        s[0]
    } else {
        joined(s.drop_last()) + ","@ + s.last()
    }
}

/// The text an operation signs: kind, input, dependencies, version vector,
/// Lamport clock and wall clock, separated by colons.
pub open spec fn op_message(
    operation: Seq<char>,
    input: Json,
    deps: Seq<Seq<char>>,
    versions: Seq<(String, u64)>,
    lamport: u64,
    wall: u64,
) -> Seq<char> {
    operation + ":"@ + json_text(input@) + ":"@ + joined(deps) + ":"@ + "{"@ + entries_json(versions) + "}"@
        + ":"@ + decimal(lamport as nat) + ":"@ + decimal(wall as nat)
}

/// The JSON text of an operation, fields in declaration order: the
/// version vector as `{"versions":{..}}`, the dependencies as an array of
/// strings and the signature as an array of byte values.
pub open spec fn op_json(op: CausalOp) -> Seq<char> {
    "{\"id\":"@ + json_string_of(op.id@) + ",\"operation\":"@ + json_string_of(op.operation@) + ",\"input\":"@
        + json_text(op.input@) + ",\"dependencies\":["@ + strs_json(string_views(op.dependencies@))
        + "],\"version_vector\":{\"versions\":{"@ + entries_json(op.version_vector.entries()) + "}},\"lamport_clock\":"@
        + decimal(op.lamport_clock as nat) + ",\"wall_clock\":"@ + decimal(op.wall_clock as nat) + ",\"node_id\":"@
        + json_string_of(op.node_id@) + ",\"identity\":"@ + json_string_of(op.identity@) + ",\"signature\":["@
        + bytes_json(op.signature@) + "]}"@
}


/// A signed causal operation.
#[derive(Debug)]
pub struct CausalOp {
    /// Operation ID: the hex SHA-256 of the signature.
    pub id: String,
    /// Operation kind (such as `insert`, `increment`).
    pub operation: String,
    /// Operation parameters.
    pub input: Json,
    /// IDs of the operations this one depends on, in increasing order.
    pub dependencies: Vec<String>,
    /// Version vector at creation.
    pub version_vector: VersionVector,
    /// Lamport clock: this node's count in the version vector.
    pub lamport_clock: u64,
    /// Wall-clock milliseconds (untrusted, for display).
    pub wall_clock: u64,
    /// The node that made the operation.
    pub node_id: String,
    /// Identity of the creator: the hex SHA-256 of its public key.
    pub identity: String,
    /// Ed25519 signature of the signing message.
    pub signature: Vec<u8>,
}

/// An operation, as values.
pub struct OpView {
    pub id: Seq<char>,
    pub operation: Seq<char>,
    pub input: JsonV,
    pub dependencies: Seq<Seq<char>>,
    pub versions: Seq<(Seq<char>, u64)>,
    pub lamport_clock: u64,
    pub wall_clock: u64,
    pub node_id: Seq<char>,
    pub identity: Seq<char>,
    pub signature: Seq<u8>,
}

impl View for CausalOp {
    type V = OpView;

    open spec fn view(&self) -> OpView {
        OpView {
            id: self.id@,
            operation: self.operation@,
            input: self.input@,
            dependencies: string_views(self.dependencies@),
            versions: entry_views(self.version_vector.entries()),
            lamport_clock: self.lamport_clock,
            wall_clock: self.wall_clock,
            node_id: self.node_id@,
            identity: self.identity@,
            signature: self.signature@,
        }
    }
}

fn copy_strings(v: &Vec<String>) -> (r: Vec<String>)
    ensures
        r@ == v@,
{
    let mut r: Vec<String> = Vec::new();
    let mut i: usize = 0;
    while i < v.len()
        invariant
            i <= v@.len(),
            r@ == v@.subrange(0, i as int),
        decreases v@.len() - i,
    {
        r.push(v[i].clone());
        i = i + 1;
        assert(r@ =~= v@.subrange(0, i as int));
    }
    assert(v@.subrange(0, v@.len() as int) =~= v@);
    r
}

fn copy_bytes(v: &Vec<u8>) -> (r: Vec<u8>)
    ensures
        r@ == v@,
{
    let mut r: Vec<u8> = Vec::new();
    let mut i: usize = 0;
    while i < v.len()
        invariant
            i <= v@.len(),
            r@ == v@.subrange(0, i as int),
        decreases v@.len() - i,
    {
        r.push(v[i]);
        i = i + 1;
        assert(r@ =~= v@.subrange(0, i as int));
    }
    assert(v@.subrange(0, v@.len() as int) =~= v@);
    r
}

/// The hex SHA-256 of a 32-byte public key.
pub open spec fn is_identity(s: Seq<char>) -> bool {
    exists|k: Seq<u8>| k.len() == 32 && s == sha256_hex_of(k)
}

fn join_strings(v: &Vec<String>) -> (s: String)
    ensures
        s@ == joined(string_views(v@)),
{
    let ghost w = string_views(v@);
    let mut s = String::new();
    let mut i: usize = 0;
    while i < v.len()
        invariant
            w == string_views(v@),
            i <= v@.len(),
            s@ == joined(w.subrange(0, i as int)),
        decreases v@.len() - i,
    {
        proof { assert(w.subrange(0, i + 1).drop_last() =~= w.subrange(0, i as int)); }
        if i > 0 {
            string_push_str(&mut s, ",");
        }
        string_push_str(&mut s, v[i].as_str());
        proof {
            if i == 0 {
                assert(s@ =~= joined(w.subrange(0, 1)));
            } else {
                assert(s@ =~= joined(w.subrange(0, i + 1)));
            }
        }
        i = i + 1;
    }
    proof { assert(w.subrange(0, w.len() as int) =~= w); }
    s
}

impl CausalOp {
    /// The text this operation's signature covers (see `op_message`).
    pub open spec fn signing_text(self) -> Seq<char> {
        op_message(
            self.operation@,
            self.input,
            string_views(self.dependencies@),
            self.version_vector.entries(),
            self.lamport_clock,
            self.wall_clock,
        )
    }

    /// The identity of a public key: the hex SHA-256 of its 32 bytes.
    pub fn derive_identity(public_key: &[u8; 32]) -> (s: String)
        ensures
            s@ == sha256_hex_of(public_key@),
            is_identity(s@),
            s@.len() == 64,
    {
        sha256_hex(public_key.as_slice())
    }

    fn create_message(
        operation: &str,
        input: &Json,
        dependencies: &Vec<String>,
        version_vector: &VersionVector,
        lamport: u64,
        wall: u64,
    ) -> (m: String)
        ensures
            m@ == op_message(operation@, *input, string_views(dependencies@), version_vector.entries(), lamport, wall),
    {
        let mut m = String::from_str(operation);
        string_push_str(&mut m, ":");
        let j = input.to_json_string();
        string_push_str(&mut m, j.as_str());
        string_push_str(&mut m, ":");
        let d = join_strings(dependencies);
        string_push_str(&mut m, d.as_str());
        string_push_str(&mut m, ":");
        let v = version_vector.versions_json();
        string_push_str(&mut m, v.as_str());
        string_push_str(&mut m, ":");
        push_decimal(&mut m, lamport);
        string_push_str(&mut m, ":");
        push_decimal(&mut m, wall);
        m
    }

    /// Make and sign an operation, stamped with the current wall clock.
    /// The dependencies are kept once each, in increasing order.
    pub fn new(
        operation: String,
        input: Json,
        dependencies: Vec<String>,
        version_vector: VersionVector,
        node_id: String,
        keypair: &[u8; 32],
    ) -> (op: Self)
        ensures
            op.operation == operation,
            op.input == input,
            strictly_sorted(string_views(op.dependencies@)),
            string_views(op.dependencies@).to_set() == string_views(dependencies@).to_set(),
            op.version_vector == version_vector,
            op.lamport_clock == version_vector.count(node_id@),
            op.node_id == node_id,
            op.identity@ == sha256_hex_of(ed25519_public_of(keypair@)),
            is_identity(op.identity@),
            op.signature@.len() == 64,
            op.signature@ == ed25519_signature_of(keypair@, encode_utf8(op.signing_text())),
            ed25519_accepts(ed25519_public_of(keypair@), encode_utf8(op.signing_text()), op.signature@),
            op.id@ == sha256_hex_of(op.signature@),
    {
        let public_key = public_key_of(keypair);
        let identity = Self::derive_identity(&public_key);
        let lamport_clock = version_vector.get(node_id.as_str());
        let wall_clock = unix_millis();
        let deps = sorted_unique(&dependencies);
        let message = Self::create_message(
            operation.as_str(),
            &input,
            &deps,
            &version_vector,
            lamport_clock,
            wall_clock,
        );
        let signature = sign_bytes(keypair, message.as_str().as_bytes());
        let id = sha256_hex(signature.as_slice());
        CausalOp {
            id,
            operation,
            input,
            dependencies: deps,
            version_vector,
            lamport_clock,
            wall_clock,
            node_id,
            identity,
            signature,
        }
    }

    /// The text this operation's signature covers.
    pub fn signing_message(&self) -> (m: String)
        ensures
            m@ == op_message(
                self.operation@,
                self.input,
                string_views(self.dependencies@),
                self.version_vector.entries(),
                self.lamport_clock,
                self.wall_clock,
            ),
    {
        Self::create_message(
            self.operation.as_str(),
            &self.input,
            &self.dependencies,
            &self.version_vector,
            self.lamport_clock,
            self.wall_clock,
        )
    }

    /// Whether the signature is valid for the signing message under
    /// `public_key` (a signature that is not 64 bytes long is checked as 64
    /// zero bytes), under the key's 32-byte encoding.
    pub fn verify(&self, public_key: &[u8; 32]) -> (b: bool)
        ensures
            b == ed25519_accepts(public_key@, encode_utf8(self.signing_text()), sig_or_zeros(self.signature@)),
    {
        let message = self.signing_message();
        verify_signature(public_key, message.as_str().as_bytes(), self.signature.as_slice())
    }

    /// The JSON text of this operation (see `op_json`).
    pub fn to_json(&self) -> (s: String)
        ensures
            s@ == op_json(*self),
    {
        let mut s = String::from_str("{\"id\":");
        let q = json_quote(self.id.as_str());
        string_push_str(&mut s, q.as_str());
        string_push_str(&mut s, ",\"operation\":");
        let q = json_quote(self.operation.as_str());
        string_push_str(&mut s, q.as_str());
        string_push_str(&mut s, ",\"input\":");
        let j = self.input.to_json_string();
        string_push_str(&mut s, j.as_str());
        string_push_str(&mut s, ",\"dependencies\":[");
        push_strs(&mut s, &self.dependencies);
        let ghost s1 = s@;
        string_push_str(&mut s, "],\"version_vector\":{\"versions\":");
        let v = self.version_vector.versions_json();
        string_push_str(&mut s, v.as_str());
        string_push_str(&mut s, "},\"lamport_clock\":");
        proof {
            reveal_strlit("],\"version_vector\":{\"versions\":");
            reveal_strlit("],\"version_vector\":{\"versions\":{");
            reveal_strlit("{");
            reveal_strlit("}");
            reveal_strlit("},\"lamport_clock\":");
            reveal_strlit("}},\"lamport_clock\":");
            assert(s@ =~= s1 + "],\"version_vector\":{\"versions\":{"@ + entries_json(self.version_vector.entries())
                + "}},\"lamport_clock\":"@);
        }
        push_decimal(&mut s, self.lamport_clock);
        string_push_str(&mut s, ",\"wall_clock\":");
        push_decimal(&mut s, self.wall_clock);
        string_push_str(&mut s, ",\"node_id\":");
        let q = json_quote(self.node_id.as_str());
        string_push_str(&mut s, q.as_str());
        string_push_str(&mut s, ",\"identity\":");
        let q = json_quote(self.identity.as_str());
        string_push_str(&mut s, q.as_str());
        string_push_str(&mut s, ",\"signature\":[");
        push_bytes(&mut s, &self.signature);
        string_push_str(&mut s, "]}");
        assert(s@ =~= op_json(*self));
        s
    }

    /// A copy of this operation.
    pub fn copy(&self) -> (op: Self)
        ensures
            op@ == self@,
            op.version_vector@ == self.version_vector@,
    {
        CausalOp {
            id: self.id.clone(),
            operation: self.operation.clone(),
            input: self.input.copy(),
            dependencies: copy_strings(&self.dependencies),
            version_vector: self.version_vector.clone(),
            lamport_clock: self.lamport_clock,
            wall_clock: self.wall_clock,
            node_id: self.node_id.clone(),
            identity: self.identity.clone(),
            signature: copy_bytes(&self.signature),
        }
    }

    /// Whether this operation is concurrent with another: neither version
    /// vector is before the other.
    pub fn conflicts_with(&self, other: &CausalOp) -> (b: bool)
        ensures
            b == vv_conflicts(self.version_vector@, other.version_vector@),
    {
        self.version_vector.conflicts_with(&other.version_vector)
    }
}

} // verus!
