//! Byzantine fault tolerant validation: an operation counts as validated
//! once a quorum of 2f+1 known validators has signed it.

use vstd::prelude::*;
use vstd::utf8::encode_utf8;
use std::time::{Duration, Instant};
use crate::assoc::{StrMap, str_eq};
use crate::order::string_views;
use crate::causal_op::CausalOp;
use crate::clock::{duration_millis, elapsed_millis, instant_now, unix_millis, unix_secs};
use crate::crypto::{ed25519_accepts, ed25519_public_of, ed25519_signature_of, public_key_of, sig_or_zeros, sign_bytes, verify_signature};
use crate::digest::sha256_hex_of;
use crate::text::string_push_str;

verus! {

/// The text a validator signs for an operation:
/// `VALIDATE:<operation>:<validator>`.
pub open spec fn validation_message(operation_id: Seq<char>, validator_id: Seq<char>) -> Seq<char> {
    "VALIDATE:"@ + operation_id + ":"@ + validator_id
}

fn make_message(operation_id: &str, validator_id: &str) -> (m: String)
    ensures
        m@ == validation_message(operation_id@, validator_id@),
{
    let mut m = String::from_str("VALIDATE:");
    string_push_str(&mut m, operation_id);
    string_push_str(&mut m, ":");
    string_push_str(&mut m, validator_id);
    m
}

/// A validator's signature on an operation.
#[derive(Clone, Debug)]
pub struct ValidatorSignature {
    pub validator_id: String,
    pub operation_id: String,
    /// Ed25519 signature of the validation message.
    pub signature: Vec<u8>,
    /// Seconds since the Unix epoch when signed.
    pub timestamp: u64,
}

impl ValidatorSignature {
    /// Sign the validation message of an operation, stamped now.
    pub fn new(validator_id: String, operation_id: String, keypair: &[u8; 32]) -> (s: Self)
        ensures
            s.validator_id == validator_id,
            s.operation_id == operation_id,
            s.signature@.len() == 64,
            s.signature@ == ed25519_signature_of(keypair@, encode_utf8(validation_message(operation_id@, validator_id@))),
            ed25519_accepts(
                ed25519_public_of(keypair@),
                encode_utf8(validation_message(operation_id@, validator_id@)),
                s.signature@,
            ),
    {
        let message = make_message(operation_id.as_str(), validator_id.as_str());
        let signature = sign_bytes(keypair, message.as_str().as_bytes());
        ValidatorSignature { validator_id, operation_id, signature, timestamp: unix_secs() }
    }

    /// Whether the signature is valid for the validation message under
    /// `public_key` (one that is not 64 bytes long is checked as 64 zero
    /// bytes), under the key's 32-byte encoding.
    pub fn verify(&self, public_key: &[u8; 32]) -> (b: bool)
        ensures
            b == ed25519_accepts(
                public_key@,
                encode_utf8(validation_message(self.operation_id@, self.validator_id@)),
                sig_or_zeros(self.signature@),
            ),
    {
        let message = make_message(self.operation_id.as_str(), self.validator_id.as_str());
        verify_signature(public_key, message.as_str().as_bytes(), self.signature.as_slice())
    }

    fn copy(&self) -> (s: Self)
        ensures
            s.validator_id == self.validator_id,
            s.operation_id == self.operation_id,
            s.timestamp == self.timestamp,
    {
        ValidatorSignature {
            validator_id: self.validator_id.clone(),
            operation_id: self.operation_id.clone(),
            signature: self.signature.clone(),
            timestamp: self.timestamp,
        }
    }
}

/// A validator: its identity, the 32-byte encoding of its public key and
/// its priority. Its reputation is tracked by the caller.
#[derive(Clone, Debug)]
pub struct ValidatorKey {
    pub id: String,
    pub public_key: [u8; 32],
    pub priority: u8,
}

/// An operation waiting for signatures.
#[derive(Debug)]
pub struct PendingValidation {
    pub operation: CausalOp,
    pub signatures: Vec<ValidatorSignature>,
    pub submitted_at: Instant,
    /// Time allowed for the signatures, milliseconds.
    pub timeout_ms: u64,
}

/// Errors of BFT validation.
#[derive(Debug, Clone, Copy, PartialEq, Eq, Structural)]
pub enum BFTError {
    NotAValidator,
    UnknownValidator,
    OperationNotPending,
    AlreadyPending,
    InvalidSignature,
    DuplicateSignature,
    TimestampManipulation,
    InsufficientValidators,
}

/// The outcome of adding a signature.
#[derive(Debug)]
pub enum ValidationResult {
    /// The quorum signed: the operation is validated.
    Validated(CausalOp),
    /// More signatures are needed.
    Pending { current: usize, required: usize },
    /// Validation is disabled.
    PassThrough,
}

/// A wall clock at most five minutes ahead of `now` (milliseconds).
pub open spec fn timestamp_ok(wall: u64, now: u64) -> bool {
    wall <= now + 300_000
}

/// Whether an operation's wall clock is at most five minutes ahead of
/// `now` (milliseconds).
pub fn check_timestamp(wall: u64, now: u64) -> (b: bool)
    ensures
        b == timestamp_ok(wall, now),
{
    if now > u64::MAX - 300_000 {
        true
    } else {
        wall <= now + 300_000
    }
}

/// The validators by ID, later entries replacing earlier ones with the
/// same ID.
pub open spec fn validator_map(v: Seq<ValidatorKey>) -> Map<Seq<char>, ValidatorKey>
    decreases v.len(),
{
    if v.len() == 0 {
        Map::empty()
    } else {
        validator_map(v.drop_last()).insert(v.last().id@, v.last())
    }
}

/// The keys of the first `n` pending validations that waited longer than
/// their timeout, in order.
pub open spec fn expired_keys(es: Seq<(String, PendingValidation)>, rs: Seq<u64>, n: int) -> Seq<Seq<char>>
    decreases n,
{
    if n <= 0 || n > es.len() || n > rs.len() {
        Seq::empty()
    } else {
        let r = expired_keys(es, rs, n - 1);
        if rs[n - 1] > es[n - 1].1.timeout_ms { r.push(es[n - 1].0@) } else { r }
    }
}

/// Byzantine fault tolerant operation validator: 2f+1 signatures from
/// known validators validate an operation, tolerating f faulty ones.
pub struct BFTValidator {
    validators: StrMap<ValidatorKey>,
    quorum_size: usize,
    pending: StrMap<PendingValidation>,
    validation_timeout_ms: u64,
    keypair: Option<[u8; 32]>,
    enabled: bool,
}

impl BFTValidator {
    #[verifier::type_invariant]
    closed spec fn inv(self) -> bool {
        self.validators.wf() && self.pending.wf()
    }

    /// Validator ID → validator.
    pub closed spec fn validators(self) -> Map<Seq<char>, ValidatorKey> {
        self.validators@
    }

    /// Operation ID → pending validation.
    pub closed spec fn pending(self) -> Map<Seq<char>, PendingValidation> {
        self.pending@
    }

    /// Signatures needed.
    pub closed spec fn quorum(self) -> usize {
        self.quorum_size
    }

    /// Whether validation is on.
    pub closed spec fn enabled(self) -> bool {
        self.enabled
    }

    /// Whether this node has a validator key.
    pub closed spec fn has_keypair(self) -> bool {
        self.keypair is Some
    }

    /// This node's secret validator key, if it has one.
    pub closed spec fn secret_key(self) -> Option<Seq<u8>> {
        match self.keypair {
            Some(k) => Some(k@),
            None => None,
        }
    }

    /// A validator requiring 2f+1 signatures: refused when fewer
    /// validators are given.
    pub fn new(validators: Vec<ValidatorKey>, fault_tolerance: usize, validation_timeout: Duration) -> (r: Result<
        Self,
        BFTError,
    >)
        requires
            2 * fault_tolerance + 1 <= usize::MAX,
        ensures
            validators@.len() < 2 * fault_tolerance + 1 ==> r == Err::<Self, BFTError>(BFTError::InsufficientValidators),
            validators@.len() >= 2 * fault_tolerance + 1 ==> (r matches Ok(b) && b.validators() == validator_map(
                validators@,
            ) && b.quorum() == 2 * fault_tolerance + 1 && b.pending() == Map::<
                Seq<char>,
                PendingValidation,
            >::empty() && b.enabled() && !b.has_keypair()),
    {
        let quorum_size = 2 * fault_tolerance + 1;
        if validators.len() < quorum_size {
            return Err(BFTError::InsufficientValidators);
        }
        let ghost vs = validators@;
        let mut map: StrMap<ValidatorKey> = StrMap::new();
        let mut rest = validators;
        let ghost mut taken: int = 0;
        proof { assert(vs.subrange(0, 0) =~= Seq::<ValidatorKey>::empty()); }
        while rest.len() > 0
            invariant
                0 <= taken <= vs.len(),
                rest@ == vs.subrange(taken, vs.len() as int),
                map.wf(),
                map@ == validator_map(vs.subrange(0, taken)),
            decreases rest@.len(),
        {
            let v = rest.remove(0);
            proof {
                assert(vs[taken] == v);
                assert(vs.subrange(0, taken + 1).drop_last() =~= vs.subrange(0, taken));
                taken = taken + 1;
                assert(rest@ =~= vs.subrange(taken, vs.len() as int));
            }
            let id = v.id.clone();
            map.insert(id, v);
        }
        proof { assert(vs.subrange(0, taken) =~= vs); }
        let b = BFTValidator {
            validators: map,
            quorum_size,
            pending: StrMap::new(),
            validation_timeout_ms: duration_millis(validation_timeout),
            keypair: None,
            enabled: true,
        };
        Ok(b)
    }

    /// A disabled validator: every operation passes.
    pub fn disabled() -> (b: Self)
        ensures
            !b.enabled(),
            b.validators() == Map::<Seq<char>, ValidatorKey>::empty(),
            b.pending() == Map::<Seq<char>, PendingValidation>::empty(),
            b.quorum() == 0,
            !b.has_keypair(),
    {
        BFTValidator {
            validators: StrMap::new(),
            quorum_size: 0,
            pending: StrMap::new(),
            validation_timeout_ms: 0,
            keypair: None,
            enabled: false,
        }
    }

    /// Whether validation is on.
    pub fn is_enabled(&self) -> (b: bool)
        ensures
            b == self.enabled(),
    {
        self.enabled
    }

    /// Make this node a validator with the given key.
    pub fn set_validator_keypair(&mut self, keypair: [u8; 32])
        ensures
            final(self).has_keypair(),
            final(self).secret_key() == Some(keypair@),
            final(self).validators() == old(self).validators(),
            final(self).pending() == old(self).pending(),
            final(self).quorum() == old(self).quorum(),
            final(self).enabled() == old(self).enabled(),
    {
        proof { use_type_invariant(&*self); }
        self.keypair = Some(keypair);
    }

    /// Queue an operation for validation. With validation off it passes
    /// unchanged; one already pending is refused; one whose wall clock is
    /// over five minutes ahead of this node's is refused as manipulated
    /// (the clock decides).
    pub fn submit_for_validation(&mut self, op: CausalOp) -> (r: Result<(), BFTError>)
        ensures
            !old(self).enabled() ==> r is Ok && final(self).pending() == old(self).pending(),
            old(self).enabled() && old(self).pending().contains_key(op.id@) ==> r == Err::<(), BFTError>(
                BFTError::AlreadyPending,
            ) && final(self).pending() == old(self).pending(),
            old(self).enabled() && !old(self).pending().contains_key(op.id@) ==> match r {
                Ok(()) => final(self).pending().dom() == old(self).pending().dom().insert(op.id@) && final(self).pending()[op.id@].operation == op && final(self).pending()[op.id@].signatures@.len() == 0
                    && forall|k: Seq<char>| k != op.id@ && #[trigger] old(self).pending().contains_key(k) ==> final(self).pending()[k] == old(self).pending()[k],
                Err(e) => e == BFTError::TimestampManipulation && final(self).pending() == old(self).pending(),
            },
            old(self).enabled() && !old(self).pending().contains_key(op.id@) ==> exists|now: u64|
                (r is Err <==> !#[trigger] timestamp_ok(op.wall_clock, now)),
            final(self).validators() == old(self).validators(),
            final(self).quorum() == old(self).quorum(),
            final(self).enabled() == old(self).enabled(),
            final(self).has_keypair() == old(self).has_keypair(),
    {
        proof { use_type_invariant(&*self); }
        if !self.enabled {
            return Ok(());
        }
        if self.pending.contains_str(op.id.as_str()) {
            return Err(BFTError::AlreadyPending);
        }
        let now = unix_millis();
        if !check_timestamp(op.wall_clock, now) {
            return Err(BFTError::TimestampManipulation);
        }
        assert(timestamp_ok(op.wall_clock, now));
        let id = op.id.clone();
        let p = PendingValidation {
            operation: op,
            signatures: Vec::new(),
            submitted_at: instant_now(),
            timeout_ms: self.validation_timeout_ms,
        };
        let mut pending = StrMap::new();
        std::mem::swap(&mut pending, &mut self.pending);
        pending.push_new(id, p);
        self.pending = pending;
        Ok(())
    }

    /// Sign an operation as this node's validator: refused when this node
    /// has no key or its identity is not a known validator.
    pub fn sign_operation(&self, operation_id: &str) -> (r: Result<ValidatorSignature, BFTError>)
        ensures
            match self.secret_key() {
                None => r == Err::<ValidatorSignature, BFTError>(BFTError::NotAValidator),
                Some(k) => {
                    let id = sha256_hex_of(ed25519_public_of(k));
                    let msg = encode_utf8(validation_message(operation_id@, id));
                    if self.validators().contains_key(id) {
                        r matches Ok(s) && s.validator_id@ == id && s.operation_id@ == operation_id@
                            && s.signature@ == ed25519_signature_of(k, msg) && ed25519_accepts(
                            ed25519_public_of(k),
                            msg,
                            s.signature@,
                        )
                    } else {
                        r == Err::<ValidatorSignature, BFTError>(BFTError::NotAValidator)
                    }
                },
            },
    {
        proof { use_type_invariant(self); }
        match &self.keypair {
            None => Err(BFTError::NotAValidator),
            Some(keypair) => {
                let public_key = public_key_of(keypair);
                let validator_id = CausalOp::derive_identity(&public_key);
                if !self.validators.contains_str(validator_id.as_str()) {
                    return Err(BFTError::NotAValidator);
                }
                Ok(ValidatorSignature::new(validator_id, String::from_str(operation_id), keypair))
            },
        }
    }

    /// Pending validations in storage order.
    pub closed spec fn pending_entries(self) -> Seq<(String, PendingValidation)> {
        self.pending.entries()
    }

    /// Drop the validations whose time ran out, given how long each stored
    /// validation has waited (`elapsed_ms[i]` for the `i`th entry): those
    /// that waited longer than their own timeout. Returns their operation
    /// IDs in storage order.
    pub fn check_timeouts_at(&mut self, elapsed_ms: &Vec<u64>) -> (out: Vec<String>)
        requires
            elapsed_ms@.len() == old(self).pending_entries().len(),
        ensures
            string_views(out@) == expired_keys(
                old(self).pending_entries(),
                elapsed_ms@,
                old(self).pending_entries().len() as int,
            ),
            final(self).pending() == old(self).pending().remove_keys(string_views(out@).to_set()),
            final(self).validators() == old(self).validators(),
            final(self).quorum() == old(self).quorum(),
            final(self).enabled() == old(self).enabled(),
            final(self).has_keypair() == old(self).has_keypair(),
    {
        proof { use_type_invariant(&*self); }
        let n = self.pending.len_raw();
        let mut out: Vec<String> = Vec::new();
        let mut i: usize = 0;
        while i < n
            invariant
                n == self.pending.entries().len(),
                elapsed_ms@.len() == n,
                i <= n,
                string_views(out@) == expired_keys(self.pending_entries(), elapsed_ms@, i as int),
            decreases n - i,
        {
            if elapsed_ms[i] > self.pending.value_at(i).timeout_ms {
                let ghost v0 = out@;
                out.push(self.pending.key_at(i).clone());
                proof { assert(string_views(out@) =~= string_views(v0).push(self.pending_entries()[i as int].0@)); }
            }
            i = i + 1;
        }
        let ghost base = self.pending@;
        let ghost w = string_views(out@);
        let mut pending = StrMap::new();
        std::mem::swap(&mut pending, &mut self.pending);
        let mut j: usize = 0;
        while j < out.len()
            invariant
                pending.wf(),
                w == string_views(out@),
                j <= out@.len(),
                pending@ == base.remove_keys(w.subrange(0, j as int).to_set()),
            decreases out@.len() - j,
        {
            let _ = pending.remove_str(out[j].as_str());
            proof {
                assert(w.subrange(0, j + 1) =~= w.subrange(0, j as int).push(w[j as int]));
                w.subrange(0, j as int).lemma_push_to_set_commute(w[j as int]);
                assert(pending@ =~= base.remove_keys(w.subrange(0, j + 1).to_set()));
            }
            j = j + 1;
        }
        assert(w.subrange(0, w.len() as int) =~= w);
        self.pending = pending;
        out
    }

    /// Drop the validations whose time ran out (the clock gives how long
    /// each has waited; see `check_timeouts_at`), returning their operation
    /// IDs.
    pub fn check_timeouts(&mut self) -> (out: Vec<String>)
        ensures
            exists|elapsed_ms: Seq<u64>|
                elapsed_ms.len() == old(self).pending_entries().len() && string_views(out@) == expired_keys(
                    old(self).pending_entries(),
                    elapsed_ms,
                    old(self).pending_entries().len() as int,
                ),
            final(self).pending() == old(self).pending().remove_keys(string_views(out@).to_set()),
            final(self).validators() == old(self).validators(),
            final(self).quorum() == old(self).quorum(),
            final(self).enabled() == old(self).enabled(),
            final(self).has_keypair() == old(self).has_keypair(),
    {
        let n = self.pending.len_raw();
        let mut readings: Vec<u64> = Vec::new();
        let mut i: usize = 0;
        while i < n
            invariant
                n == self.pending.entries().len(),
                i <= n,
                readings@.len() == i,
            decreases n - i,
        {
            readings.push(elapsed_millis(&self.pending.value_at(i).submitted_at));
            i = i + 1;
        }
        self.check_timeouts_at(&readings)
    }

    /// Remove a validator (for one whose reputation fell too low).
    pub fn remove_validator(&mut self, validator_id: &str) -> (removed: bool)
        ensures
            removed == old(self).validators().contains_key(validator_id@),
            final(self).validators() == old(self).validators().remove(validator_id@),
            final(self).pending() == old(self).pending(),
            final(self).quorum() == old(self).quorum(),
            final(self).enabled() == old(self).enabled(),
            final(self).has_keypair() == old(self).has_keypair(),
    {
        proof { use_type_invariant(&*self); }
        let mut validators = StrMap::new();
        std::mem::swap(&mut validators, &mut self.validators);
        let r = validators.remove_str(validator_id);
        self.validators = validators;
        r.is_some()
    }

    /// The number of validators.
    pub fn validator_count(&self) -> (n: usize)
        ensures
            n == self.validators().dom().len(),
    {
        proof { use_type_invariant(self); }
        self.validators.len()
    }

    /// The number of pending validations.
    pub fn pending_count(&self) -> (n: usize)
        ensures
            n == self.pending().dom().len(),
    {
        proof { use_type_invariant(self); }
        self.pending.len()
    }

    /// Signatures needed to validate.
    pub fn quorum_size(&self) -> (n: usize)
        ensures
            n == self.quorum(),
    {
        self.quorum_size
    }

    /// Add a validator's signature. With validation off it passes. It is
    /// refused for an operation not pending, an unknown validator, an
    /// invalid signature (the key decides; the caller may penalise the
    /// validator) and a second signature of one validator. At the quorum
    /// the operation leaves the pending set, validated.
    pub fn add_validator_signature(&mut self, signature: ValidatorSignature) -> (r: Result<
        ValidationResult,
        BFTError,
    >)
        ensures
            final(self).validators() == old(self).validators(),
            final(self).quorum() == old(self).quorum(),
            final(self).enabled() == old(self).enabled(),
            final(self).has_keypair() == old(self).has_keypair(),
            !old(self).enabled() ==> (r matches Ok(ValidationResult::PassThrough)) && final(self).pending() == old(
                self,
            ).pending(),
            old(self).enabled() && !old(self).pending().contains_key(signature.operation_id@) ==> r == Err::<
                ValidationResult,
                BFTError,
            >(BFTError::OperationNotPending) && final(self).pending() == old(self).pending(),
            old(self).enabled() && old(self).pending().contains_key(signature.operation_id@)
                && !old(self).validators().contains_key(signature.validator_id@) ==> r == Err::<
                ValidationResult,
                BFTError,
            >(BFTError::UnknownValidator) && final(self).pending() == old(self).pending(),
            r == Err::<ValidationResult, BFTError>(BFTError::InvalidSignature) <==> (old(self).enabled() && old(
                self,
            ).pending().contains_key(signature.operation_id@) && old(self).validators().contains_key(
                signature.validator_id@,
            ) && !ed25519_accepts(
                old(self).validators()[signature.validator_id@].public_key@,
                encode_utf8(validation_message(signature.operation_id@, signature.validator_id@)),
                sig_or_zeros(signature.signature@),
            )),
            r == Err::<ValidationResult, BFTError>(BFTError::InvalidSignature) ==> final(self).pending() == old(self).pending(),
            old(self).enabled() && old(self).pending().contains_key(signature.operation_id@) && old(self).validators().contains_key(signature.validator_id@) && r != Err::<ValidationResult, BFTError>(
                BFTError::InvalidSignature,
            ) ==> ({
                let p = old(self).pending()[signature.operation_id@];
                let n = p.signatures@.len() + 1;
                if exists|i: int| 0 <= i < p.signatures@.len() && (#[trigger] p.signatures@[i]).validator_id@
                    == signature.validator_id@ {
                    r == Err::<ValidationResult, BFTError>(BFTError::DuplicateSignature) && final(self).pending()
                        == old(self).pending()
                } else if n >= old(self).quorum() {
                    (r matches Ok(ValidationResult::Validated(op)) && op == p.operation) && final(self).pending()
                        == old(self).pending().remove(signature.operation_id@)
                } else {
                    (r matches Ok(ValidationResult::Pending { current, required }) && current == n && required
                        == old(self).quorum()) && final(self).pending().dom() == old(self).pending().dom()
                        && final(self).pending()[signature.operation_id@].signatures@ == p.signatures@.push(signature)
                        && final(self).pending()[signature.operation_id@].operation == p.operation
                        && forall|k: Seq<char>| k != signature.operation_id@ && #[trigger] old(self).pending().contains_key(k) ==> final(self).pending()[k] == old(self).pending()[k]
                }
            }),
    {
        proof { use_type_invariant(&*self); }
        if !self.enabled {
            return Ok(ValidationResult::PassThrough);
        }
        let pi = match self.pending.find_str(signature.operation_id.as_str()) {
            Some(i) => i,
            None => {
                return Err(BFTError::OperationNotPending);
            },
        };
        proof { self.pending.lemma_entry_in_view(pi as int); }
        let public_key = match self.validators.get_str(signature.validator_id.as_str()) {
            Some(v) => v.public_key,
            None => {
                return Err(BFTError::UnknownValidator);
            },
        };
        if !signature.verify(&public_key) {
            return Err(BFTError::InvalidSignature);
        }
        let ghost p = self.pending@[signature.operation_id@];
        let sigs = &self.pending.value_at(pi).signatures;
        let mut k: usize = 0;
        while k < sigs.len()
            invariant
                *self == *old(self),
                self.enabled,
                self.pending@.contains_key(signature.operation_id@),
                self.validators@.contains_key(signature.validator_id@),
                p == self.pending@[signature.operation_id@],
                *sigs == p.signatures,
                ed25519_accepts(
                    old(self).validators()[signature.validator_id@].public_key@,
                    encode_utf8(validation_message(signature.operation_id@, signature.validator_id@)),
                    sig_or_zeros(signature.signature@),
                ),
                k <= sigs@.len(),
                forall|i: int| 0 <= i < k ==> (#[trigger] sigs@[i]).validator_id@ != signature.validator_id@,
            decreases sigs@.len() - k,
        {
            if str_eq(sigs[k].validator_id.as_str(), signature.validator_id.as_str()) {
                proof { assert(p.signatures@[k as int].validator_id@ == signature.validator_id@); }
                return Err(BFTError::DuplicateSignature);
            }
            k = k + 1;
        }
        let quorum = self.quorum_size;
        let op_id = signature.operation_id.clone();
        let mut pending = StrMap::new();
        std::mem::swap(&mut pending, &mut self.pending);
        let entry = pending.value_at_mut(pi);
        entry.signatures.push(signature);
        let count = entry.signatures.len();
        if count >= quorum {
            let removed = pending.remove_str(op_id.as_str());
            self.pending = pending;
            match removed {
                Some(v) => Ok(ValidationResult::Validated(v.operation)),
                None => Ok(ValidationResult::Pending { current: count, required: quorum }),
            }
        } else {
            self.pending = pending;
            Ok(ValidationResult::Pending { current: count, required: quorum })
        }
    }
}

} // verus!
