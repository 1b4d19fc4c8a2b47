//! Causal tokens: balances kept as PN-Counters so replicas merge without
//! consensus.

use vstd::prelude::*;
use crate::assoc::{StrMap, map_sum, map_total, entries_total};
use crate::crdt::counter::PNCounter;
use crate::text::{decimal, push_decimal, string_push_str};
use crate::version_vector::{VersionVector, vv_count, vv_merge};

verus! {

/// Token metadata.
#[derive(Debug)]
pub struct TokenMetadata {
    /// Token symbol (e.g., "CAUS").
    pub symbol: String,
    /// Decimal places for display.
    pub decimals: u8,
    /// Total supply tracking.
    pub total_supply: u64,
}

impl Default for TokenMetadata {
    /// Symbol "CAUS", 6 decimals, a supply of one trillion.
    fn default() -> (m: Self)
        ensures
            m.symbol@ == "CAUS"@,
            m.decimals == 6,
            m.total_supply == 1_000_000_000_000,
    {
        TokenMetadata { symbol: "CAUS".to_string(), decimals: 6, total_supply: 1_000_000_000_000 }
    }
}

impl Clone for TokenMetadata {
    /// An equal copy.
    fn clone(&self) -> (m: Self)
        ensures
            m == *self,
    {
        TokenMetadata { symbol: self.symbol.clone(), decimals: self.decimals, total_supply: self.total_supply }
    }
}

/// Error for insufficient balance.
#[derive(Debug, Clone, Copy, PartialEq, Eq, Structural)]
pub struct InsufficientBalance {
    pub required: u64,
    pub available: u64,
}

/// The text of a shortfall error.
pub open spec fn shortfall_text(e: InsufficientBalance) -> Seq<char> {
    "Insufficient balance: required "@ + decimal(e.required as nat) + ", available "@ + decimal(
        e.available as nat,
    )
}

impl InsufficientBalance {
    /// The error's text: the amounts required and available.
    pub fn message(&self) -> (s: String)
        ensures
            s@ == shortfall_text(*self),
    {
        let mut s = String::from_str("Insufficient balance: required ");
        push_decimal(&mut s, self.required);
        string_push_str(&mut s, ", available ");
        push_decimal(&mut s, self.available);
        proof { assert(s@ =~= shortfall_text(*self)); }
        s
    }
}

/// The shortfall error for a request of `amount` against `balance`.
pub open spec fn shortfall(amount: u64, balance: int) -> InsufficientBalance {
    InsufficientBalance { required: amount, available: if balance > 0 { balance as u64 } else { 0 } }
}

/// Causal Token: a balance kept as a PN-Counter.
#[derive(Debug)]
pub struct CausalToken {
    counter: PNCounter,
    /// Token metadata.
    pub metadata: TokenMetadata,
    node_id: String,
}

impl CausalToken {
    #[verifier::type_invariant]
    closed spec fn inv(self) -> bool {
        self.counter.node() == self.node_id@
    }

    /// Credits per node.
    pub closed spec fn positive(self) -> Map<Seq<char>, u64> {
        self.counter.positive()
    }

    /// Debits per node.
    pub closed spec fn negative(self) -> Map<Seq<char>, u64> {
        self.counter.negative()
    }

    /// The node this replica records its own credits and debits under.
    pub closed spec fn node(self) -> Seq<char> {
        self.node_id@
    }

    /// The token's metadata.
    pub closed spec fn meta(self) -> TokenMetadata {
        self.metadata
    }

    /// The balance: credits minus debits.
    pub open spec fn spec_balance(self) -> int {
        map_sum(self.positive()) - map_sum(self.negative())
    }

    /// Credits and debits each fit in an `i64`.
    pub open spec fn fits(self) -> bool {
        map_sum(self.positive()) <= i64::MAX && map_sum(self.negative()) <= i64::MAX
    }

    /// Create a new token with an initial balance.
    pub fn new(node_id: &str, initial_balance: u64) -> (t: Self)
        ensures
            t.node() == node_id@,
            t.positive() == Map::<Seq<char>, u64>::empty().insert(node_id@, initial_balance),
            t.negative() == Map::<Seq<char>, u64>::empty().insert(node_id@, 0),
            map_sum(t.positive()) == initial_balance,
            map_sum(t.negative()) == 0,
            t.meta().symbol@ == "CAUS"@,
            t.meta().decimals == 6,
            t.meta().total_supply == 1_000_000_000_000,
    {
        let mut counter = PNCounter::new(node_id.to_string());
        counter.increment(initial_balance);
        CausalToken { counter, metadata: TokenMetadata::default(), node_id: node_id.to_string() }
    }

    /// Create with zero balance.
    pub fn zero(node_id: &str) -> (t: Self)
        ensures
            t.node() == node_id@,
            t.positive() == Map::<Seq<char>, u64>::empty().insert(node_id@, 0),
            t.negative() == Map::<Seq<char>, u64>::empty().insert(node_id@, 0),
            map_sum(t.positive()) == 0,
            map_sum(t.negative()) == 0,
            t.meta().symbol@ == "CAUS"@,
            t.meta().decimals == 6,
            t.meta().total_supply == 1_000_000_000_000,
    {
        CausalToken {
            counter: PNCounter::new(node_id.to_string()),
            metadata: TokenMetadata::default(),
            node_id: node_id.to_string(),
        }
    }

    /// Get current balance.
    pub fn balance(&self) -> (b: i64)
        requires
            self.fits(),
        ensures
            b == self.spec_balance(),
    {
        self.counter.value()
    }

    /// Credit tokens (add).
    pub fn credit(&mut self, amount: u64)
        requires
            vv_count(old(self).positive(), old(self).node()) + amount <= u64::MAX,
        ensures
            final(self).node() == old(self).node(),
            final(self).positive() == old(self).positive().insert(
                old(self).node(),
                (vv_count(old(self).positive(), old(self).node()) + amount) as u64,
            ),
            final(self).negative() == old(self).negative(),
            final(self).meta() == old(self).meta(),
            map_sum(final(self).positive()) == map_sum(old(self).positive()) + amount,
            final(self).spec_balance() == old(self).spec_balance() + amount,
    {
        proof { use_type_invariant(&*self); }
        let mut tmp = CausalToken::zero("");
        std::mem::swap(self, &mut tmp);
        proof { use_type_invariant(&tmp); }
        let CausalToken { mut counter, metadata, node_id } = tmp;
        counter.increment(amount);
        *self = CausalToken { counter, metadata, node_id };
    }

    /// Debit tokens (subtract): refused when the balance is below `amount`.
    pub fn debit(&mut self, amount: u64) -> (r: Result<(), InsufficientBalance>)
        requires
            old(self).fits(),
            vv_count(old(self).negative(), old(self).node()) + amount <= u64::MAX,
        ensures
            old(self).spec_balance() < (amount as i64) ==> r == Err::<(), InsufficientBalance>(
                shortfall(amount, old(self).spec_balance()),
            ) && *final(self) == *old(self),
            old(self).spec_balance() >= (amount as i64) ==> r is Ok && final(self).node() == old(self).node()
                && final(self).positive() == old(self).positive() && final(self).negative() == old(
                self,
            ).negative().insert(old(self).node(), (vv_count(old(self).negative(), old(self).node()) + amount) as u64)
                && final(self).meta() == old(self).meta() && map_sum(final(self).negative()) == map_sum(
                old(self).negative(),
            ) + amount,
    {
        let bal = self.balance();
        if bal < amount as i64 {
            let available: u64 = if bal > 0 { bal as u64 } else { 0 };
            return Err(InsufficientBalance { required: amount, available });
        }
        proof { use_type_invariant(&*self); }
        let mut tmp = CausalToken::zero("");
        std::mem::swap(self, &mut tmp);
        proof { use_type_invariant(&tmp); }
        let CausalToken { mut counter, metadata, node_id } = tmp;
        counter.decrement(amount);
        *self = CausalToken { counter, metadata, node_id };
        Ok(())
    }

    /// Merge with another token (CRDT merge of the counters).
    pub fn merge(&mut self, other: &CausalToken)
        ensures
            final(self).node() == old(self).node(),
            final(self).positive() == vv_merge(old(self).positive(), other.positive()),
            final(self).negative() == vv_merge(old(self).negative(), other.negative()),
            final(self).meta() == old(self).meta(),
    {
        proof { use_type_invariant(&*self); }
        let mut tmp = CausalToken::zero("");
        std::mem::swap(self, &mut tmp);
        proof { use_type_invariant(&tmp); }
        let CausalToken { mut counter, metadata, node_id } = tmp;
        counter.merge(&other.counter);
        *self = CausalToken { counter, metadata, node_id };
    }

    /// Transfer tokens to another balance: a debit here, then a credit there.
    pub fn transfer(&mut self, to: &mut CausalToken, amount: u64) -> (r: Result<(), InsufficientBalance>)
        requires
            old(self).fits(),
            vv_count(old(self).negative(), old(self).node()) + amount <= u64::MAX,
            vv_count(old(to).positive(), old(to).node()) + amount <= u64::MAX,
        ensures
            old(self).spec_balance() < (amount as i64) ==> r == Err::<(), InsufficientBalance>(
                shortfall(amount, old(self).spec_balance()),
            ) && *final(self) == *old(self) && *final(to) == *old(to),
            old(self).spec_balance() >= (amount as i64) ==> r is Ok && final(self).spec_balance()
                == old(self).spec_balance() - amount && final(to).spec_balance() == old(to).spec_balance() + amount
                && final(self).positive() == old(self).positive() && final(to).negative() == old(to).negative()
                && final(self).negative() == old(self).negative().insert(
                old(self).node(),
                (vv_count(old(self).negative(), old(self).node()) + amount) as u64,
            ) && final(to).positive() == old(to).positive().insert(
                old(to).node(),
                (vv_count(old(to).positive(), old(to).node()) + amount) as u64,
            ),
    {
        match self.debit(amount) {
            Err(e) => Err(e),
            Ok(()) => {
                to.credit(amount);
                Ok(())
            },
        }
    }
}

impl Clone for CausalToken {
    /// A replica with the same counters, metadata and node.
    fn clone(&self) -> (t: Self)
        ensures
            t.positive() == self.positive(),
            t.negative() == self.negative(),
            t.node() == self.node(),
            t.meta() == self.meta(),
    {
        proof { use_type_invariant(self); }
        CausalToken { counter: self.counter.clone(), metadata: self.metadata.clone(), node_id: self.node_id.clone() }
    }
}

/// A freshly created account token of `node`: zero credits and debits.
pub open spec fn is_fresh_token(t: CausalToken, node: Seq<char>) -> bool {
    &&& t.node() == node
    &&& t.positive() == Map::<Seq<char>, u64>::empty().insert(node, 0)
    &&& t.negative() == Map::<Seq<char>, u64>::empty().insert(node, 0)
    &&& t.meta().symbol@ == "CAUS"@
    &&& t.meta().decimals == 6
    &&& t.meta().total_supply == 1_000_000_000_000
}

/// `t` is `base` with `amount` more credited under its own node.
pub open spec fn is_credited(base: CausalToken, t: CausalToken, amount: u64) -> bool {
    &&& t.node() == base.node()
    &&& t.meta() == base.meta()
    &&& t.negative() == base.negative()
    &&& t.positive() == base.positive().insert(base.node(), (vv_count(base.positive(), base.node()) + amount) as u64)
    &&& map_sum(t.positive()) == map_sum(base.positive()) + amount
}

/// `t` is `base` with `amount` more debited under its own node.
pub open spec fn is_debited(base: CausalToken, t: CausalToken, amount: u64) -> bool {
    &&& t.node() == base.node()
    &&& t.meta() == base.meta()
    &&& t.positive() == base.positive()
    &&& t.negative() == base.negative().insert(base.node(), (vv_count(base.negative(), base.node()) + amount) as u64)
    &&& map_sum(t.negative()) == map_sum(base.negative()) + amount
}

/// Every account's credits and debits fit in an `i64`, so every balance
/// can be read.
pub open spec fn all_fit(m: Map<Seq<char>, CausalToken>) -> bool {
    forall|k: Seq<char>| #[trigger] m.contains_key(k) ==> m[k].fits()
}

/// Crediting `amount` keeps the account's credits within an `i64`.
pub open spec fn credit_fits(m: Map<Seq<char>, CausalToken>, id: Seq<char>, amount: u64) -> bool {
    if m.contains_key(id) { map_sum(m[id].positive()) + amount <= i64::MAX } else { amount <= i64::MAX }
}

/// Debiting `amount` keeps the account's debits within an `i64`.
pub open spec fn debit_fits(m: Map<Seq<char>, CausalToken>, id: Seq<char>, amount: u64) -> bool {
    if m.contains_key(id) { map_sum(m[id].negative()) + amount <= i64::MAX } else { amount <= i64::MAX }
}

/// The balance of an account in a map of accounts (0 when absent).
pub open spec fn balance_of(m: Map<Seq<char>, CausalToken>, id: Seq<char>) -> int {
    if m.contains_key(id) { m[id].spec_balance() } else { 0 }
}

/// A token's balance.
pub open spec fn token_balance(t: CausalToken) -> int {
    t.spec_balance()
}

/// The balance function, for totals over accounts.
pub open spec fn balance_fn() -> spec_fn(CausalToken) -> int {
    |t: CausalToken| token_balance(t)
}

/// The sum of the balances of a finite map of accounts.
pub open spec fn total_balance(m: Map<Seq<char>, CausalToken>) -> int {
    map_total(m, balance_fn())
}

/// Setting one account changes the total by the change in its balance.
pub proof fn lemma_total_set(m: Map<Seq<char>, CausalToken>, k: Seq<char>, t: CausalToken)
    requires
        m.dom().finite(),
    ensures
        total_balance(m.insert(k, t)) == total_balance(m) - balance_of(m, k) + t.spec_balance(),
{
    if m.contains_key(k) {
        crate::assoc::lemma_map_total_update(m, balance_fn(), k, t);
    } else {
        crate::assoc::lemma_map_total_insert(m, balance_fn(), k, t);
    }
}

/// A fresh account token has balance zero.
pub proof fn lemma_fresh_balance(t: CausalToken, node: Seq<char>)
    requires
        is_fresh_token(t, node),
    ensures
        t.spec_balance() == 0,
        t.fits(),
        map_sum(t.positive()) == 0,
        map_sum(t.negative()) == 0,
{
    crate::assoc::lemma_map_sum_empty::<Seq<char>>();
    crate::assoc::lemma_map_sum_insert(Map::<Seq<char>, u64>::empty(), node, 0);
}

/// Token balance tracker for multiple accounts.
#[derive(Debug)]
pub struct TokenBalance {
    accounts: StrMap<CausalToken>,
    version: VersionVector,
    node_id: String,
}

impl TokenBalance {
    #[verifier::type_invariant]
    closed spec fn inv(self) -> bool {
        self.accounts.wf()
    }

    /// Account ID → token.
    pub closed spec fn accounts(self) -> Map<Seq<char>, CausalToken> {
        self.accounts@
    }

    /// The version vector of updates.
    pub closed spec fn version(self) -> Map<Seq<char>, u64> {
        self.version@
    }

    /// This tracker's node ID.
    pub closed spec fn node(self) -> Seq<char> {
        self.node_id@
    }

    /// The account as it stands, or a fresh one when absent.
    pub open spec fn base_ok(self, id: Seq<char>, t: CausalToken) -> bool {
        if self.accounts().contains_key(id) { t == self.accounts()[id] } else { is_fresh_token(t, self.node()) }
    }

    /// Create a new token balance tracker.
    pub fn new(node_id: String) -> (b: Self)
        ensures
            b.accounts() == Map::<Seq<char>, CausalToken>::empty(),
            b.version() == Map::<Seq<char>, u64>::empty(),
            b.node() == node_id@,
    {
        TokenBalance { accounts: StrMap::new(), version: VersionVector::new(), node_id }
    }

    /// Get or create an account.
    pub fn account(&mut self, account_id: &str) -> (t: &mut CausalToken)
        ensures
            old(self).base_ok(account_id@, *t),
            final(self).accounts() == old(self).accounts().insert(account_id@, *final(t)),
            final(self).version() == old(self).version(),
            final(self).node() == old(self).node(),
    {
        proof { use_type_invariant(&*self); }
        let i = match self.accounts.find_str(account_id) {
            Some(i) => i,
            None => {
                let t = CausalToken::zero(self.node_id.as_str());
                let mut accounts = StrMap::new();
                std::mem::swap(&mut accounts, &mut self.accounts);
                accounts.push_new(account_id.to_string(), t);
                self.accounts = accounts;
                proof { self.accounts.lemma_entry_in_view(self.accounts.entries().len() - 1); }
                self.accounts.len_raw() - 1
            },
        };
        proof { self.accounts.lemma_entry_in_view(i as int); }
        self.accounts.value_at_mut(i)
    }

    /// Get balance for an account (0 for an unknown one).
    pub fn balance(&self, account_id: &str) -> (b: i64)
        requires
            self.accounts().contains_key(account_id@) ==> self.accounts()[account_id@].fits(),
        ensures
            b == balance_of(self.accounts(), account_id@),
    {
        proof { use_type_invariant(self); }
        match self.accounts.get_str(account_id) {
            Some(t) => t.balance(),
            None => 0,
        }
    }

    /// Credit an account (created when absent).
    pub fn credit(&mut self, account_id: &str, amount: u64)
        requires
            vv_count(old(self).version(), old(self).node()) < u64::MAX,
            old(self).accounts().contains_key(account_id@) ==> vv_count(
                old(self).accounts()[account_id@].positive(),
                old(self).accounts()[account_id@].node(),
            ) + amount <= u64::MAX,
        ensures
            final(self).accounts().dom() == old(self).accounts().dom().insert(account_id@),
            exists|base: CausalToken| old(self).base_ok(account_id@, base)
                && #[trigger] is_credited(base, final(self).accounts()[account_id@], amount),
            forall|k: Seq<char>| k != account_id@ && #[trigger] old(self).accounts().contains_key(k)
                ==> final(self).accounts()[k] == old(self).accounts()[k],
            balance_of(final(self).accounts(), account_id@) == balance_of(old(self).accounts(), account_id@) + amount,
            total_balance(final(self).accounts()) == total_balance(old(self).accounts()) + amount,
            final(self).version() == old(self).version().insert(
                old(self).node(),
                (vv_count(old(self).version(), old(self).node()) + 1) as u64,
            ),
            final(self).node() == old(self).node(),
            all_fit(old(self).accounts()) && credit_fits(old(self).accounts(), account_id@, amount) ==> all_fit(
                final(self).accounts(),
            ),
    {
        proof {
            use_type_invariant(&*self);
            self.accounts.lemma_len();
        }
        let ghost pre = *self;
        let t = self.account(account_id);
        let ghost base = *t;
        proof {
            if !pre.accounts().contains_key(account_id@) {
                lemma_fresh_balance(base, pre.node());
            }
        }
        proof {
            if !pre.accounts().contains_key(account_id@) {
                assert(vv_count(base.positive(), base.node()) == 0);
            }
        }
        t.credit(amount);
        proof {
            assert(is_credited(base, self.accounts()[account_id@], amount));
            lemma_total_set(pre.accounts(), account_id@, self.accounts()[account_id@]);
            if all_fit(pre.accounts()) && credit_fits(pre.accounts(), account_id@, amount) {
                assert forall|k: Seq<char>| #[trigger] self.accounts().contains_key(k) implies self.accounts()[k].fits() by {
                    if k != account_id@ {
                        assert(pre.accounts().contains_key(k));
                    }
                }
            }
        }
        self.bump_version();
    }

    fn bump_version(&mut self)
        requires
            vv_count(old(self).version(), old(self).node()) < u64::MAX,
        ensures
            final(self).accounts() == old(self).accounts(),
            final(self).version() == old(self).version().insert(
                old(self).node(),
                (vv_count(old(self).version(), old(self).node()) + 1) as u64,
            ),
            final(self).node() == old(self).node(),
    {
        proof { use_type_invariant(&*self); }
        let mut v = VersionVector::new();
        std::mem::swap(&mut v, &mut self.version);
        v.increment(self.node_id.as_str());
        self.version = v;
    }

    /// Debit an account. The account is created even when the debit is
    /// refused for insufficient balance.
    pub fn debit(&mut self, account_id: &str, amount: u64) -> (r: Result<(), InsufficientBalance>)
        requires
            vv_count(old(self).version(), old(self).node()) < u64::MAX,
            old(self).accounts().contains_key(account_id@) ==> old(self).accounts()[account_id@].fits()
                && vv_count(
                old(self).accounts()[account_id@].negative(),
                old(self).accounts()[account_id@].node(),
            ) + amount <= u64::MAX,
        ensures
            final(self).accounts().dom() == old(self).accounts().dom().insert(account_id@),
            forall|k: Seq<char>| k != account_id@ && #[trigger] old(self).accounts().contains_key(k)
                ==> final(self).accounts()[k] == old(self).accounts()[k],
            final(self).node() == old(self).node(),
            balance_of(old(self).accounts(), account_id@) < (amount as i64) ==> r == Err::<(), InsufficientBalance>(
                shortfall(amount, balance_of(old(self).accounts(), account_id@)),
            ) && old(self).base_ok(account_id@, final(self).accounts()[account_id@])
                && final(self).version() == old(self).version()
                && total_balance(final(self).accounts()) == total_balance(old(self).accounts()),
            balance_of(old(self).accounts(), account_id@) >= (amount as i64) ==> r is Ok && (exists|base: CausalToken|
                old(self).base_ok(account_id@, base) && #[trigger] is_debited(
                base,
                final(self).accounts()[account_id@],
                amount,
            )) && balance_of(final(self).accounts(), account_id@) == balance_of(old(self).accounts(), account_id@)
                - amount && total_balance(final(self).accounts()) == total_balance(old(self).accounts()) - amount
                && final(self).version() == old(self).version().insert(
                old(self).node(),
                (vv_count(old(self).version(), old(self).node()) + 1) as u64,
            ),
            all_fit(old(self).accounts()) && debit_fits(old(self).accounts(), account_id@, amount) ==> all_fit(
                final(self).accounts(),
            ),
    {
        proof {
            use_type_invariant(&*self);
            self.accounts.lemma_len();
        }
        let ghost pre = *self;
        let t = self.account(account_id);
        let ghost base = *t;
        proof {
            if !pre.accounts().contains_key(account_id@) {
                assert(vv_count(base.negative(), base.node()) == 0);
                assert(map_sum(base.positive()) == 0) by {
                    crate::assoc::lemma_map_sum_empty::<Seq<char>>();
                    crate::assoc::lemma_map_sum_insert(Map::<Seq<char>, u64>::empty(), pre.node(), 0);
                }
                assert(map_sum(base.negative()) == 0) by {
                    crate::assoc::lemma_map_sum_empty::<Seq<char>>();
                    crate::assoc::lemma_map_sum_insert(Map::<Seq<char>, u64>::empty(), pre.node(), 0);
                }
            }
        }
        let r = t.debit(amount);
        proof {
            lemma_total_set(pre.accounts(), account_id@, self.accounts()[account_id@]);
            if all_fit(pre.accounts()) && debit_fits(pre.accounts(), account_id@, amount) {
                assert forall|k: Seq<char>| #[trigger] self.accounts().contains_key(k) implies self.accounts()[k].fits() by {
                    if k != account_id@ {
                        assert(pre.accounts().contains_key(k));
                    }
                }
            }
        }
        match r {
            Err(e) => Err(e),
            Ok(()) => {
                proof { assert(is_debited(base, self.accounts()[account_id@], amount)); }
                self.bump_version();
                Ok(())
            },
        }
    }

    /// Transfer between accounts: refused, with nothing changed, when the
    /// sender's balance is below `amount`; otherwise a debit of the sender,
    /// a credit of the receiver and a version bump.
    pub fn transfer(&mut self, from: &str, to: &str, amount: u64) -> (r: Result<(), InsufficientBalance>)
        requires
            vv_count(old(self).version(), old(self).node()) < u64::MAX,
            old(self).accounts().contains_key(from@) ==> old(self).accounts()[from@].fits() && vv_count(
                old(self).accounts()[from@].negative(),
                old(self).accounts()[from@].node(),
            ) + amount <= u64::MAX,
            old(self).accounts().contains_key(to@) ==> vv_count(
                old(self).accounts()[to@].positive(),
                old(self).accounts()[to@].node(),
            ) + amount <= u64::MAX,
        ensures
            balance_of(old(self).accounts(), from@) < (amount as i64) ==> r == Err::<(), InsufficientBalance>(
                shortfall(amount, balance_of(old(self).accounts(), from@)),
            ) && *final(self) == *old(self),
            balance_of(old(self).accounts(), from@) >= (amount as i64) ==> {
                &&& r is Ok
                &&& final(self).accounts().dom() == old(self).accounts().dom().insert(from@).insert(to@)
                &&& forall|k: Seq<char>| k != from@ && k != to@ && #[trigger] old(self).accounts().contains_key(k)
                    ==> final(self).accounts()[k] == old(self).accounts()[k]
                &&& from@ != to@ ==> (exists|b1: CausalToken, b2: CausalToken| #![trigger is_debited(b1, final(self).accounts()[from@], amount), is_credited(b2, final(self).accounts()[to@], amount)]
                    old(self).base_ok(from@, b1) && old(self).base_ok(to@, b2)
                    && is_debited(b1, final(self).accounts()[from@], amount)
                    && is_credited(b2, final(self).accounts()[to@], amount))
                &&& from@ != to@ ==> balance_of(final(self).accounts(), from@) == balance_of(old(self).accounts(), from@) - amount
                    && balance_of(final(self).accounts(), to@) == balance_of(old(self).accounts(), to@) + amount
                &&& from@ == to@ ==> (exists|b: CausalToken, mid: CausalToken| #![trigger is_debited(b, mid, amount), is_credited(mid, final(self).accounts()[from@], amount)]
                    old(self).base_ok(from@, b)
                    && is_debited(b, mid, amount) && is_credited(mid, final(self).accounts()[from@], amount))
                    && balance_of(final(self).accounts(), from@) == balance_of(old(self).accounts(), from@)
                &&& total_balance(final(self).accounts()) == total_balance(old(self).accounts())
                &&& final(self).version() == old(self).version().insert(
                    old(self).node(),
                    (vv_count(old(self).version(), old(self).node()) + 1) as u64,
                )
                &&& final(self).node() == old(self).node()
            },
            all_fit(old(self).accounts()) && debit_fits(old(self).accounts(), from@, amount) && credit_fits(
                old(self).accounts(),
                to@,
                amount,
            ) ==> all_fit(final(self).accounts()),
    {
        let bal = self.balance(from);
        if bal < amount as i64 {
            let available: u64 = if bal > 0 { bal as u64 } else { 0 };
            return Err(InsufficientBalance { required: amount, available });
        }
        proof {
            use_type_invariant(&*self);
            self.accounts.lemma_len();
        }
        let ghost pre = *self;
        let t = self.account(from);
        let ghost b1 = *t;
        proof {
            if !pre.accounts().contains_key(from@) {
                crate::assoc::lemma_map_sum_empty::<Seq<char>>();
                crate::assoc::lemma_map_sum_insert(Map::<Seq<char>, u64>::empty(), pre.node(), 0);
            }
        }
        let r = t.debit(amount);
        match r {
            Err(e) => {
                return Err(e);
            },
            Ok(()) => {},
        }
        let ghost mid = *self;
        proof {
            assert(is_debited(b1, mid.accounts()[from@], amount));
            lemma_total_set(pre.accounts(), from@, mid.accounts()[from@]);
            assert(mid.accounts().dom().finite());
        }
        let t2 = self.account(to);
        let ghost b2 = *t2;
        proof {
            if !mid.accounts().contains_key(to@) {
                assert(vv_count(b2.positive(), b2.node()) == 0);
            }
            if from@ == to@ {
                assert(vv_count(b1.positive(), b1.node()) == vv_count(b2.positive(), b2.node()));
            }
        }
        t2.credit(amount);
        proof {
            assert(is_credited(b2, self.accounts()[to@], amount));
            if all_fit(pre.accounts()) && debit_fits(pre.accounts(), from@, amount) && credit_fits(
                pre.accounts(),
                to@,
                amount,
            ) {
                if !pre.accounts().contains_key(from@) {
                    lemma_fresh_balance(b1, pre.node());
                }
                if !mid.accounts().contains_key(to@) {
                    lemma_fresh_balance(b2, pre.node());
                }
                assert forall|k: Seq<char>| #[trigger] self.accounts().contains_key(k) implies self.accounts()[k].fits() by {
                    if k != from@ && k != to@ {
                        assert(pre.accounts().contains_key(k));
                    }
                }
            }
            lemma_total_set(mid.accounts(), to@, self.accounts()[to@]);
            if from@ != to@ {
                assert(self.accounts()[from@] == mid.accounts()[from@]);
                assert(pre.base_ok(to@, b2));
            }
        }
        self.bump_version();
        Ok(())
    }

    /// Merge with another balance tracker: tokens of shared accounts merge,
    /// the other's new accounts are copied, and the versions merge.
    pub fn merge(&mut self, other: &TokenBalance)
        ensures
            accounts_merged(old(self).accounts(), other.accounts(), final(self).accounts()),
            final(self).version() == vv_merge(old(self).version(), other.version()),
            final(self).node() == old(self).node(),
    {
        proof {
            use_type_invariant(&*self);
            use_type_invariant(other);
        }
        let ghost base = self.accounts@;
        let mut accounts = StrMap::new();
        std::mem::swap(&mut accounts, &mut self.accounts);
        let n = other.accounts.len();
        let mut i: usize = 0;
        proof { other.accounts.lemma_prefix_ends(); }
        while i < n
            invariant
                other.accounts.wf(),
                accounts.wf(),
                n == other.accounts.entries().len(),
                i <= n,
                accounts@.dom() == base.dom().union(other.accounts.prefix_view(i as int).dom()),
                forall|k: Seq<char>| #[trigger] accounts@.contains_key(k) ==> {
                    let t = accounts@[k];
                    let p = other.accounts.prefix_view(i as int);
                    if base.contains_key(k) && p.contains_key(k) {
                        is_merged(base[k], p[k], t)
                    } else if base.contains_key(k) {
                        t == base[k]
                    } else {
                        is_copy(p[k], t)
                    }
                },
            decreases n - i,
        {
            let key = other.accounts.key_at(i);
            let tok = other.accounts.value_at(i);
            proof { other.accounts.lemma_prefix_step(i as int); }
            let ghost before = accounts@;
            match accounts.find_str(key.as_str()) {
                Some(p) => {
                    let t = accounts.value_at_mut(p);
                    t.merge(tok);
                },
                None => {
                    accounts.push_new(key.clone(), tok.clone());
                },
            }
            proof {
                let p1 = other.accounts.prefix_view(i + 1);
                assert(accounts@.dom() =~= base.dom().union(p1.dom()));
            }
            i = i + 1;
        }
        proof {
            other.accounts.lemma_prefix_ends();
        }
        self.accounts = accounts;
        let merged = self.version.merge(&other.version);
        self.version = merged;
    }

    /// Get total supply across all accounts: the sum of the balances.
    pub fn total_supply(&self) -> (s: i64)
        requires
            forall|k: Seq<char>| #[trigger] self.accounts().contains_key(k) ==> self.accounts()[k].fits(),
            i64::MIN <= map_total(self.accounts(), balance_fn()) <= i64::MAX,
        ensures
            s == map_total(self.accounts(), balance_fn()),
    {
        proof { use_type_invariant(self); }
        let ghost f = balance_fn();
        proof {
            self.accounts.lemma_total(f);
        }
        let n = self.accounts.len_raw();
        let mut acc: i128 = 0;
        let mut i: usize = 0;
        while i < n
            invariant
                self.accounts.wf(),
                forall|k: Seq<char>| #[trigger] self.accounts@.contains_key(k) ==> self.accounts@[k].fits(),
                n == self.accounts.entries().len(),
                i <= n,
                f == balance_fn(),
                acc == entries_total(self.accounts.entries().subrange(0, i as int), f),
                -(i as int) * 0x8000_0000_0000_0000 <= acc <= (i as int) * 0x8000_0000_0000_0000,
            decreases n - i,
        {
            proof {
                self.accounts.lemma_entry_in_view(i as int);
                let e = self.accounts.entries();
                assert(e.subrange(0, i + 1).drop_last() =~= e.subrange(0, i as int));
            }
            let b = self.accounts.value_at(i).balance();
            acc = acc + b as i128;
            i = i + 1;
        }
        proof { assert(self.accounts.entries().subrange(0, n as int) =~= self.accounts.entries()); }
        acc as i64
    }

    /// Get number of accounts.
    pub fn account_count(&self) -> (n: usize)
        ensures
            n == self.accounts().dom().len(),
    {
        proof { use_type_invariant(self); }
        self.accounts.len()
    }
}

/// `r` is the merge of account maps `a` and `b`: shared accounts merge,
/// the others are kept as they are.
pub open spec fn accounts_merged(
    a: Map<Seq<char>, CausalToken>,
    b: Map<Seq<char>, CausalToken>,
    r: Map<Seq<char>, CausalToken>,
) -> bool {
    &&& r.dom() == a.dom().union(b.dom())
    &&& forall|k: Seq<char>| #[trigger] r.contains_key(k) ==> {
        let t = r[k];
        if a.contains_key(k) && b.contains_key(k) {
            is_merged(a[k], b[k], t)
        } else if a.contains_key(k) {
            t == a[k]
        } else {
            is_copy(b[k], t)
        }
    }
}

/// `t` is the CRDT merge of tokens `a` and `b`, kept under `a`'s node.
pub open spec fn is_merged(a: CausalToken, b: CausalToken, t: CausalToken) -> bool {
    &&& t.node() == a.node()
    &&& t.meta() == a.meta()
    &&& t.positive() == vv_merge(a.positive(), b.positive())
    &&& t.negative() == vv_merge(a.negative(), b.negative())
}

/// `t` has the same counters, node and metadata as `a`.
pub open spec fn is_copy(a: CausalToken, t: CausalToken) -> bool {
    &&& t.node() == a.node()
    &&& t.meta() == a.meta()
    &&& t.positive() == a.positive()
    &&& t.negative() == a.negative()
}

} // verus!
