//! Sealed envelopes: operations encrypted with AES-256-GCM under keys
//! derived per access scope, so that sync nodes route them by their
//! plaintext metadata without reading their content.

use vstd::prelude::*;
use vstd::string::StringSliceAdditionalSpecFns;
use vstd::utf8::encode_utf8;
use aes_gcm::aead::{Aead, KeyInit};
use aes_gcm::{Aes256Gcm, Nonce};
use crate::ident::os_random_bytes;
use crate::assoc::{str_eq, StrMap};
use crate::causal_op::{op_json, CausalOp};
use crate::clock::unix_secs;
use crate::digest::{push_str_bytes, sha256_digest, sha256_hex, sha256_hex_of, sha256_of};
use crate::json::{json_quote, json_string_of};
use crate::order::string_views;
use crate::text::{decimal, push_decimal, string_push_str};

verus! {

/// The largest plaintext, in bytes, that AES-GCM encrypts.
pub const GCM_MAX_PLAINTEXT: u64 = 68719476736;

/// The ciphertext followed by its 16-byte tag that AES-256-GCM makes of a
/// plaintext under a key and a nonce.
pub uninterp spec fn aes256_gcm_sealed(key: Seq<u8>, nonce: Seq<u8>, plaintext: Seq<u8>) -> Seq<u8>;

/// What AES-256-GCM decryption gives for a ciphertext followed by its tag
/// under a key and a nonce: the plaintext, or `None` when the tag does not
/// authenticate.
pub uninterp spec fn aes256_gcm_opened(key: Seq<u8>, nonce: Seq<u8>, sealed: Seq<u8>) -> Option<Seq<u8>>;

/// AES-256-GCM encryption with no associated data (aes-gcm's
/// `Aes256Gcm::new_from_slice`, which accepts any 32-byte key, then
/// `Aead::encrypt`). The crate refuses exactly the plaintexts longer than
/// 2^36 bytes. The result, named by `aes256_gcm_sealed`, is the
/// ciphertext followed by the 16-byte tag, so 16 bytes longer than the
/// plaintext; decrypting it under the same key and nonce gives the
/// plaintext back.
#[verifier::external_body]
fn aes256_gcm_encrypt(key: &[u8; 32], nonce: &[u8; 12], plaintext: &[u8]) -> (r: Option<Vec<u8>>)
    ensures
        r is Some <==> plaintext@.len() <= GCM_MAX_PLAINTEXT,
        r is Some ==> r->Some_0@ == aes256_gcm_sealed(key@, nonce@, plaintext@),
        r is Some ==> r->Some_0@.len() == plaintext@.len() + 16,
        r is Some ==> aes256_gcm_opened(key@, nonce@, r->Some_0@) == Some(plaintext@),
{
    let cipher = match Aes256Gcm::new_from_slice(key) {
        Ok(c) => c,
        Err(_) => return None,
    };
    cipher.encrypt(Nonce::from_slice(nonce), plaintext).ok()
}

/// AES-256-GCM decryption with no associated data (aes-gcm's
/// `Aes256Gcm::new_from_slice`, then `Aead::decrypt`) of a ciphertext
/// followed by its tag: the plaintext, or `None` when the tag does not
/// authenticate. The outcome is named by `aes256_gcm_opened`.
#[verifier::external_body]
fn aes256_gcm_decrypt(key: &[u8; 32], nonce: &[u8; 12], sealed: &[u8]) -> (r: Option<Vec<u8>>)
    ensures
        match r {
            Some(p) => aes256_gcm_opened(key@, nonce@, sealed@) == Some(p@),
            None => aes256_gcm_opened(key@, nonce@, sealed@) is None,
        },
{
    let cipher = match Aes256Gcm::new_from_slice(key) {
        Ok(c) => c,
        Err(_) => return None,
    };
    cipher.decrypt(Nonce::from_slice(nonce), sealed).ok()
}

fn to_array12(v: &[u8]) -> (a: [u8; 12])
    requires
        v@.len() == 12,
    ensures
        a@ == v@,
{
    let mut a = [0u8; 12];
    let mut i: usize = 0;
    while i < 12
        invariant
            v@.len() == 12,
            i <= 12,
            forall|j: int| 0 <= j < i ==> a@[j] == v@[j],
        decreases 12 - i,
    {
        a[i] = v[i];
        i = i + 1;
    }
    assert(a@ =~= v@);
    a
}

fn to_array16(v: &[u8]) -> (a: [u8; 16])
    requires
        v@.len() == 16,
    ensures
        a@ == v@,
{
    let mut a = [0u8; 16];
    let mut i: usize = 0;
    while i < 16
        invariant
            v@.len() == 16,
            i <= 16,
            forall|j: int| 0 <= j < i ==> a@[j] == v@[j],
        decreases 16 - i,
    {
        a[i] = v[i];
        i = i + 1;
    }
    assert(a@ =~= v@);
    a
}

/// What a derived key gives access to.
#[derive(Clone, Debug, PartialEq, Eq)]
pub enum KeyScope {
    /// The whole document.
    FullDocument,
    /// Reading only.
    ReadOnly,
    /// One named section.
    Section(String),
    /// Access until a time (seconds since the Unix epoch).
    Temporary { until: u64 },
}

/// A key scope, as values.
pub enum ScopeV {
    FullDocument,
    ReadOnly,
    Section(Seq<char>),
    Temporary(u64),
}

impl View for KeyScope {
    type V = ScopeV;

    open spec fn view(&self) -> ScopeV {
        match self {
            KeyScope::FullDocument => ScopeV::FullDocument,
            KeyScope::ReadOnly => ScopeV::ReadOnly,
            KeyScope::Section(s) => ScopeV::Section(s@),
            KeyScope::Temporary { until } => ScopeV::Temporary(*until),
        }
    }
}

/// The JSON text of a scope, variants tagged by name.
pub open spec fn scope_json(s: ScopeV) -> Seq<char> {
    match s {
        ScopeV::FullDocument => "\"FullDocument\""@,
        ScopeV::ReadOnly => "\"ReadOnly\""@,
        ScopeV::Section(name) => "{\"Section\":"@ + json_string_of(name) + "}"@,
        ScopeV::Temporary(until) => "{\"Temporary\":{\"until\":"@ + decimal(until as nat) + "}}"@,
    }
}

impl KeyScope {
    /// A copy of this scope.
    pub fn copy(&self) -> (r: Self)
        ensures
            r@ == self@,
    {
        match self {
            KeyScope::FullDocument => KeyScope::FullDocument,
            KeyScope::ReadOnly => KeyScope::ReadOnly,
            KeyScope::Section(s) => KeyScope::Section(s.clone()),
            KeyScope::Temporary { until } => KeyScope::Temporary { until: *until },
        }
    }

    /// The JSON text of this scope (see `scope_json`).
    pub fn to_json(&self) -> (s: String)
        ensures
            s@ == scope_json(self@),
    {
        match self {
            KeyScope::FullDocument => String::from_str("\"FullDocument\""),
            KeyScope::ReadOnly => String::from_str("\"ReadOnly\""),
            KeyScope::Section(name) => {
                let mut s = String::from_str("{\"Section\":");
                let q = json_quote(name.as_str());
                string_push_str(&mut s, q.as_str());
                string_push_str(&mut s, "}");
                s
            },
            KeyScope::Temporary { until } => {
                let mut s = String::from_str("{\"Temporary\":{\"until\":");
                push_decimal(&mut s, *until);
                string_push_str(&mut s, "}}");
                s
            },
        }
    }
}

/// A key derived for one access scope.
#[derive(Clone, Debug)]
pub struct DerivedKey {
    /// Key identifier.
    pub key_id: String,
    /// The 256-bit key.
    pub key_bytes: [u8; 32],
    /// What the key gives access to.
    pub scope: KeyScope,
    /// Expiry, seconds since the Unix epoch; 0 for never.
    pub expires_at: u64,
}

/// A derived key, as values.
pub struct KeyV {
    pub key_id: Seq<char>,
    pub key_bytes: Seq<u8>,
    pub scope: ScopeV,
    pub expires_at: u64,
}

impl View for DerivedKey {
    type V = KeyV;

    open spec fn view(&self) -> KeyV {
        KeyV { key_id: self.key_id@, key_bytes: self.key_bytes@, scope: self.scope@, expires_at: self.expires_at }
    }
}

impl DerivedKey {
    /// A copy of this key.
    pub fn copy(&self) -> (r: Self)
        ensures
            r@ == self@,
    {
        DerivedKey {
            key_id: self.key_id.clone(),
            key_bytes: self.key_bytes,
            scope: self.scope.copy(),
            expires_at: self.expires_at,
        }
    }
}

/// The master key of a passphrase: the SHA-256 of the passphrase, the
/// document ID and a fixed label.
pub open spec fn master_key_of(passphrase: Seq<char>, document_id: Seq<char>) -> Seq<u8> {
    sha256_of(encode_utf8(passphrase) + encode_utf8(document_id) + encode_utf8("causalux-master-key-v1"@))
}

/// A key's ID: `key_` and the first 20 hex digits of the SHA-256 of the
/// document ID, the scope's JSON text and a random salt.
pub open spec fn key_id_of(document_id: Seq<char>, scope: ScopeV, salt: Seq<u8>) -> Seq<char> {
    "key_"@ + sha256_hex_of(encode_utf8(document_id) + encode_utf8(scope_json(scope)) + salt).subrange(0, 20)
}

/// A key's bytes: the SHA-256 of the master key, the key ID and the
/// scope's JSON text.
pub open spec fn key_bytes_of(master: Seq<u8>, key_id: Seq<char>, scope: ScopeV) -> Seq<u8> {
    sha256_of(master + encode_utf8(key_id) + encode_utf8(scope_json(scope)))
}

/// `k` is the key derived from `master` for `document_id` and `scope`
/// with the given salt and expiry.
pub open spec fn is_derived(
    k: KeyV,
    master: Seq<u8>,
    document_id: Seq<char>,
    scope: ScopeV,
    expires_at: u64,
    salt: Seq<u8>,
) -> bool {
    &&& k.key_id == key_id_of(document_id, scope, salt)
    &&& k.key_bytes == key_bytes_of(master, k.key_id, scope)
    &&& k.scope == scope
    &&& k.expires_at == expires_at
}

/// Whether a key of the map is valid at time `now`: present, and never
/// expiring or expiring after `now`.
pub open spec fn key_valid(keys: Map<Seq<char>, KeyV>, key_id: Seq<char>, now: u64) -> bool {
    keys.contains_key(key_id) && (keys[key_id].expires_at == 0 || keys[key_id].expires_at > now)
}

/// Derives keys for access scopes from the master key of one document.
#[derive(Debug)]
pub struct KeyDerivation {
    master_key: [u8; 32],
    derived_keys: StrMap<DerivedKey>,
    document_id: String,
}

impl KeyDerivation {
    #[verifier::type_invariant]
    closed spec fn inv(self) -> bool {
        self.derived_keys.wf()
    }

    /// The master key.
    pub closed spec fn master(self) -> Seq<u8> {
        self.master_key@
    }

    /// The document the keys are for.
    pub closed spec fn document(self) -> Seq<char> {
        self.document_id@
    }

    /// The derived keys, by key ID.
    pub closed spec fn keys(self) -> Map<Seq<char>, KeyV> {
        self.derived_keys@.map_values(|k: DerivedKey| k@)
    }

    /// A key tree for a document, with no derived keys yet.
    pub fn new(master_key: [u8; 32], document_id: String) -> (kd: Self)
        ensures
            kd.master() == master_key@,
            kd.document() == document_id@,
            kd.keys() == Map::<Seq<char>, KeyV>::empty(),
    {
        let kd = KeyDerivation { master_key, derived_keys: StrMap::new(), document_id };
        assert(kd.keys() =~= Map::<Seq<char>, KeyV>::empty());
        kd
    }

    /// A key tree whose master key comes from a passphrase (see
    /// `master_key_of`).
    pub fn from_passphrase(passphrase: &str, document_id: String) -> (kd: Self)
        ensures
            kd.master() == master_key_of(passphrase@, document_id@),
            kd.document() == document_id@,
            kd.keys() == Map::<Seq<char>, KeyV>::empty(),
    {
        let mut bytes: Vec<u8> = Vec::new();
        push_str_bytes(&mut bytes, passphrase);
        push_str_bytes(&mut bytes, document_id.as_str());
        push_str_bytes(&mut bytes, "causalux-master-key-v1");
        let master_key = sha256_digest(bytes.as_slice());
        Self::new(master_key, document_id)
    }

    fn generate_key_id(&self, scope: &KeyScope, salt: &[u8; 16]) -> (id: String)
        ensures
            id@ == key_id_of(self.document(), scope@, salt@),
    {
        let mut bytes: Vec<u8> = Vec::new();
        push_str_bytes(&mut bytes, self.document_id.as_str());
        let sj = scope.to_json();
        push_str_bytes(&mut bytes, sj.as_str());
        let mut i: usize = 0;
        let ghost b0 = bytes@;
        while i < 16
            invariant
                i <= 16,
                salt@.len() == 16,
                bytes@ == b0 + salt@.subrange(0, i as int),
            decreases 16 - i,
        {
            bytes.push(salt[i]);
            i = i + 1;
            assert(bytes@ =~= b0 + salt@.subrange(0, i as int));
        }
        assert(salt@.subrange(0, 16) =~= salt@);
        let hex = sha256_hex(bytes.as_slice());
        let mut id = String::from_str("key_");
        string_push_str(&mut id, hex.as_str().substring_char(0, 20));
        id
    }

    /// Derives and records the key for `scope` with the given salt (see
    /// `is_derived`); a key with the same ID is replaced.
    pub fn derive_key_with_salt(&mut self, scope: KeyScope, expires_at: u64, salt: &[u8; 16]) -> (k: DerivedKey)
        ensures
            is_derived(k@, old(self).master(), old(self).document(), scope@, expires_at, salt@),
            final(self).keys() == old(self).keys().insert(k.key_id@, k@),
            final(self).master() == old(self).master(),
            final(self).document() == old(self).document(),
    {
        proof { use_type_invariant(&*self); }
        let key_id = self.generate_key_id(&scope, salt);
        let mut bytes: Vec<u8> = Vec::new();
        let mut i: usize = 0;
        while i < 32
            invariant
                i <= 32,
                self.master_key@.len() == 32,
                bytes@ == self.master_key@.subrange(0, i as int),
            decreases 32 - i,
        {
            bytes.push(self.master_key[i]);
            i = i + 1;
            assert(bytes@ =~= self.master_key@.subrange(0, i as int));
        }
        assert(self.master_key@.subrange(0, 32) =~= self.master_key@);
        push_str_bytes(&mut bytes, key_id.as_str());
        let sj = scope.to_json();
        push_str_bytes(&mut bytes, sj.as_str());
        let key_bytes = sha256_digest(bytes.as_slice());
        let key = DerivedKey { key_id, key_bytes, scope, expires_at };
        let stored = key.copy();
        let mut keys = StrMap::new();
        std::mem::swap(&mut keys, &mut self.derived_keys);
        let ghost before = keys@;
        keys.insert(key.key_id.clone(), stored);
        self.derived_keys = keys;
        assert(self.keys() =~= old(self).keys().insert(key.key_id@, key@));
        key
    }

    /// Derives and records a key for `scope`, salted with 16 random bytes
    /// from the operating system; `None`, with nothing recorded, when the
    /// operating system gives no random bytes.
    pub fn derive_key(&mut self, scope: KeyScope, expires_at: u64) -> (r: Option<DerivedKey>)
        ensures
            match r {
                Some(k) => {
                    &&& exists|salt: Seq<u8>|
                        salt.len() == 16 && is_derived(
                            k@,
                            old(self).master(),
                            old(self).document(),
                            scope@,
                            expires_at,
                            salt,
                        )
                    &&& final(self).keys() == old(self).keys().insert(k.key_id@, k@)
                },
                None => final(self).keys() == old(self).keys(),
            },
            final(self).master() == old(self).master(),
            final(self).document() == old(self).document(),
    {
        match os_random_bytes(16) {
            Some(r) => {
                let salt = to_array16(r.as_slice());
                Some(self.derive_key_with_salt(scope, expires_at, &salt))
            },
            None => None,
        }
    }

    /// The key with ID `key_id`, if recorded.
    pub fn get_key(&self, key_id: &str) -> (r: Option<&DerivedKey>)
        ensures
            match r {
                Some(k) => self.keys().contains_key(key_id@) && k@ == self.keys()[key_id@],
                None => !self.keys().contains_key(key_id@),
            },
    {
        proof { use_type_invariant(self); }
        self.derived_keys.get_str(key_id)
    }

    /// Whether the key with ID `key_id` is recorded and valid at time `now`
    /// (seconds since the Unix epoch).
    pub fn is_key_valid_at(&self, key_id: &str, now: u64) -> (b: bool)
        ensures
            b == key_valid(self.keys(), key_id@, now),
    {
        match self.get_key(key_id) {
            Some(key) => key.expires_at == 0 || key.expires_at > now,
            None => false,
        }
    }

    /// Whether the key with ID `key_id` is recorded and valid now (by the
    /// clock).
    pub fn is_key_valid(&self, key_id: &str) -> (b: bool)
        ensures
            exists|now: u64| b == key_valid(self.keys(), key_id@, now),
    {
        match self.get_key(key_id) {
            Some(key) => {
                if key.expires_at == 0 {
                    assert(key_valid(self.keys(), key_id@, 0));
                    return true;
                }
                let now = unix_secs();
                let b = key.expires_at > now;
                assert(b == key_valid(self.keys(), key_id@, now));
                b
            },
            None => {
                assert(!key_valid(self.keys(), key_id@, 0));
                false
            },
        }
    }

    /// Forgets the key with ID `key_id`; whether it was recorded.
    pub fn revoke_key(&mut self, key_id: &str) -> (b: bool)
        ensures
            b == old(self).keys().contains_key(key_id@),
            final(self).keys() == old(self).keys().remove(key_id@),
            final(self).master() == old(self).master(),
            final(self).document() == old(self).document(),
    {
        proof { use_type_invariant(&*self); }
        let mut keys = StrMap::new();
        std::mem::swap(&mut keys, &mut self.derived_keys);
        let r = keys.remove_str(key_id);
        self.derived_keys = keys;
        assert(self.keys() =~= old(self).keys().remove(key_id@));
        r.is_some()
    }
}

/// An envelope error.
#[derive(Debug, Clone, Copy, PartialEq, Eq, Structural)]
pub enum EnvelopeError {
    WrongKey,
    InvalidKey,
    IntegrityFailure,
    InvalidContent,
    KeyExpired,
    EncryptionFailure,
    DecryptionFailure,
}

/// The text of an envelope error.
pub open spec fn envelope_error_text(e: EnvelopeError) -> Seq<char> {
    match e {
        EnvelopeError::WrongKey => "Wrong decryption key"@,
        EnvelopeError::InvalidKey => "Invalid key format"@,
        EnvelopeError::IntegrityFailure => "Envelope integrity check failed (authentication tag mismatch)"@,
        EnvelopeError::InvalidContent => "Invalid content after decryption"@,
        EnvelopeError::KeyExpired => "Decryption key has expired"@,
        EnvelopeError::EncryptionFailure => "Encryption operation failed"@,
        EnvelopeError::DecryptionFailure => "Decryption operation failed"@,
    }
}

impl EnvelopeError {
    /// The error's text.
    pub fn message(&self) -> (s: String)
        ensures
            s@ == envelope_error_text(*self),
    {
        match self {
            EnvelopeError::WrongKey => String::from_str("Wrong decryption key"),
            EnvelopeError::InvalidKey => String::from_str("Invalid key format"),
            EnvelopeError::IntegrityFailure => String::from_str(
                "Envelope integrity check failed (authentication tag mismatch)",
            ),
            EnvelopeError::InvalidContent => String::from_str("Invalid content after decryption"),
            EnvelopeError::KeyExpired => String::from_str("Decryption key has expired"),
            EnvelopeError::EncryptionFailure => String::from_str("Encryption operation failed"),
            EnvelopeError::DecryptionFailure => String::from_str("Decryption operation failed"),
        }
    }
}

/// Metadata that travels in plaintext, for routing and filtering.
#[derive(Debug)]
pub struct EnvelopeMetadata {
    /// The operation's ID.
    pub operation_id: String,
    /// The creator's identity.
    pub creator_id: String,
    /// The operation's wall-clock time.
    pub timestamp: u64,
    /// The IDs of the operations it depends on.
    pub dependencies: Vec<String>,
    /// The operation's version vector: node ID to count.
    pub version_summary: StrMap<u64>,
}

/// An operation encrypted with AES-256-GCM under a derived key.
#[derive(Debug)]
pub struct SovereignEnvelope {
    /// Envelope format version.
    pub version: u8,
    /// The document, in plaintext for routing.
    pub document_id: String,
    /// The ID of the key the content is encrypted under.
    pub key_id: String,
    /// The encrypted operation, without its tag.
    pub ciphertext: Vec<u8>,
    /// The nonce of the encryption.
    pub nonce: [u8; 12],
    /// The authentication tag.
    pub tag: [u8; 16],
    /// Plaintext metadata.
    pub metadata: EnvelopeMetadata,
}

/// The bytes an envelope encrypts for an operation: the UTF-8 of its JSON
/// text.
pub open spec fn op_plaintext(op: CausalOp) -> Seq<u8> {
    encode_utf8(op_json(op))
}

/// What opening envelope `e` with key `key` gives: `WrongKey` when the key
/// IDs differ, else the decrypted content, or `IntegrityFailure` when the
/// tag does not authenticate it.
pub open spec fn unseal_outcome(e: SovereignEnvelope, key: DerivedKey) -> Result<Seq<u8>, EnvelopeError> {
    if e.key_id@ != key.key_id@ {
        Err(EnvelopeError::WrongKey)
    } else {
        match aes256_gcm_opened(key.key_bytes@, e.nonce@, e.ciphertext@ + e.tag@) {
            Some(p) => Ok(p),
            None => Err(EnvelopeError::IntegrityFailure),
        }
    }
}

/// `e` is the envelope of `op` for `document_id` under `key`, with the
/// nonce it holds: version 1, the key's ID, the ciphertext and tag that
/// AES-256-GCM makes of the operation's bytes, and the operation's ID,
/// identity, wall clock, dependencies and version vector as metadata.
pub open spec fn sealed_from(e: SovereignEnvelope, op: CausalOp, key: DerivedKey, document_id: Seq<char>) -> bool {
    &&& e.version == 1
    &&& e.document_id@ == document_id
    &&& e.key_id@ == key.key_id@
    &&& e.ciphertext@ + e.tag@ == aes256_gcm_sealed(key.key_bytes@, e.nonce@, op_plaintext(op))
    &&& e.metadata.operation_id@ == op.id@
    &&& e.metadata.creator_id@ == op.identity@
    &&& e.metadata.timestamp == op.wall_clock
    &&& string_views(e.metadata.dependencies@) == string_views(op.dependencies@)
    &&& e.metadata.version_summary.wf()
    &&& e.metadata.version_summary@ == op.version_vector@
}

fn copy_strings(v: &Vec<String>) -> (r: Vec<String>)
    ensures
        string_views(r@) == string_views(v@),
{
    let mut r: Vec<String> = Vec::new();
    let mut i: usize = 0;
    while i < v.len()
        invariant
            i <= v@.len(),
            string_views(r@) == string_views(v@.subrange(0, i as int)),
        decreases v@.len() - i,
    {
        let ghost r0 = r@;
        let s = v[i].clone();
        r.push(s);
        assert(string_views(r@) =~= string_views(r0).push(s@));
        assert(string_views(v@.subrange(0, i + 1)) =~= string_views(v@.subrange(0, i as int)).push(s@));
        i = i + 1;
    }
    assert(v@.subrange(0, v@.len() as int) =~= v@);
    r
}

impl SovereignEnvelope {
    /// Seals `op` for `document_id` under `key` with the given nonce.
    /// Fails with `EncryptionFailure` exactly when the operation's bytes
    /// exceed what AES-GCM encrypts. Opening the envelope with the same key
    /// gives the operation's bytes back.
    pub fn seal_with_nonce(op: &CausalOp, key: &DerivedKey, document_id: String, nonce: [u8; 12]) -> (r: Result<
        Self,
        EnvelopeError,
    >)
        ensures
            r is Ok <==> op_plaintext(*op).len() <= GCM_MAX_PLAINTEXT,
            r is Err ==> r == Err::<Self, EnvelopeError>(EnvelopeError::EncryptionFailure),
            r is Ok ==> sealed_from(r->Ok_0, *op, *key, document_id@) && r->Ok_0.nonce == nonce,
            r is Ok ==> unseal_outcome(r->Ok_0, *key) == Ok::<Seq<u8>, EnvelopeError>(op_plaintext(*op)),
    {
        let text = op.to_json();
        let plaintext = text.as_str().as_bytes();
        match aes256_gcm_encrypt(&key.key_bytes, &nonce, plaintext) {
            None => Err(EnvelopeError::EncryptionFailure),
            Some(sealed) => {
                let n = sealed.len() - 16;
                let mut ciphertext: Vec<u8> = Vec::new();
                let mut i: usize = 0;
                while i < n
                    invariant
                        n + 16 == sealed@.len(),
                        i <= n,
                        ciphertext@ == sealed@.subrange(0, i as int),
                    decreases n - i,
                {
                    ciphertext.push(sealed[i]);
                    i = i + 1;
                    assert(ciphertext@ =~= sealed@.subrange(0, i as int));
                }
                let tag_slice = slice_from(sealed.as_slice(), n);
                let tag = to_array16(tag_slice.as_slice());
                assert(ciphertext@ + tag@ =~= sealed@);
                let metadata = EnvelopeMetadata {
                    operation_id: op.id.clone(),
                    creator_id: op.identity.clone(),
                    timestamp: op.wall_clock,
                    dependencies: copy_strings(&op.dependencies),
                    version_summary: op.version_vector.to_map(),
                };
                Ok(SovereignEnvelope {
                    version: 1,
                    document_id,
                    key_id: key.key_id.clone(),
                    ciphertext,
                    nonce,
                    tag,
                    metadata,
                })
            },
        }
    }

    /// Seals `op` for `document_id` under `key` with a random nonce from
    /// the operating system (see `seal_with_nonce`); `EncryptionFailure`
    /// also when the operating system gives no random bytes.
    pub fn seal(op: &CausalOp, key: &DerivedKey, document_id: String) -> (r: Result<Self, EnvelopeError>)
        ensures
            r is Ok ==> op_plaintext(*op).len() <= GCM_MAX_PLAINTEXT,
            op_plaintext(*op).len() > GCM_MAX_PLAINTEXT ==> r is Err,
            r is Err ==> r == Err::<Self, EnvelopeError>(EnvelopeError::EncryptionFailure),
            r is Ok ==> sealed_from(r->Ok_0, *op, *key, document_id@),
            r is Ok ==> unseal_outcome(r->Ok_0, *key) == Ok::<Seq<u8>, EnvelopeError>(op_plaintext(*op)),
    {
        match os_random_bytes(12) {
            Some(r) => {
                let nonce = to_array12(r.as_slice());
                Self::seal_with_nonce(op, key, document_id, nonce)
            },
            None => Err(EnvelopeError::EncryptionFailure),
        }
    }

    /// Opens the envelope with `key` (see `unseal_outcome`): the bytes of
    /// the sealed operation's JSON text.
    pub fn unseal(&self, key: &DerivedKey) -> (r: Result<Vec<u8>, EnvelopeError>)
        ensures
            match r {
                Ok(p) => unseal_outcome(*self, *key) == Ok::<Seq<u8>, EnvelopeError>(p@),
                Err(e) => unseal_outcome(*self, *key) == Err::<Seq<u8>, EnvelopeError>(e),
            },
    {
        if !str_eq(self.key_id.as_str(), key.key_id.as_str()) {
            return Err(EnvelopeError::WrongKey);
        }
        let mut sealed: Vec<u8> = Vec::new();
        let mut i: usize = 0;
        while i < self.ciphertext.len()
            invariant
                i <= self.ciphertext@.len(),
                sealed@ == self.ciphertext@.subrange(0, i as int),
            decreases self.ciphertext@.len() - i,
        {
            sealed.push(self.ciphertext[i]);
            i = i + 1;
            assert(sealed@ =~= self.ciphertext@.subrange(0, i as int));
        }
        let mut j: usize = 0;
        while j < 16
            invariant
                j <= 16,
                self.tag@.len() == 16,
                sealed@ == self.ciphertext@ + self.tag@.subrange(0, j as int),
            decreases 16 - j,
        {
            sealed.push(self.tag[j]);
            j = j + 1;
            assert(sealed@ =~= self.ciphertext@ + self.tag@.subrange(0, j as int));
        }
        assert(self.tag@.subrange(0, 16) =~= self.tag@);
        match aes256_gcm_decrypt(&key.key_bytes, &self.nonce, sealed.as_slice()) {
            Some(p) => Ok(p),
            None => Err(EnvelopeError::IntegrityFailure),
        }
    }
}

fn slice_from(v: &[u8], start: usize) -> (r: Vec<u8>)
    requires
        start <= v@.len(),
    ensures
        r@ == v@.subrange(start as int, v@.len() as int),
{
    let mut r: Vec<u8> = Vec::new();
    let mut i: usize = start;
    while i < v.len()
        invariant
            start <= i <= v@.len(),
            r@ == v@.subrange(start as int, i as int),
        decreases v@.len() - i,
    {
        r.push(v[i]);
        i = i + 1;
        assert(r@ =~= v@.subrange(start as int, i as int));
    }
    r
}

} // verus!
