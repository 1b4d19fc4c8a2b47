//! Economy ledger: balances plus a causal history of transactions, for
//! audit trails and dispute resolution.

use vstd::prelude::*;
use vstd::string::StringSliceAdditionalSpecFns;
use vstd::utf8::encode_utf8;
use crate::assoc::{StrMap, str_eq};
use crate::clock::unix_micros;
use crate::digest::{le_bytes, push_le_bytes, push_str_bytes, sha256_hex, sha256_hex_of};
use crate::economy::token::{
    all_fit, credit_fits, debit_fits,
    InsufficientBalance, TokenBalance, CausalToken, balance_of, total_balance, shortfall, balance_fn,
    is_debited, is_credited, accounts_merged, shortfall_text,
};
use crate::text::{debug_str, decimal, push_decimal, str_debug_of, string_push_str};
use crate::version_vector::{VersionVector, vv_count, vv_merge};
use crate::assoc::{map_total, map_sum};

verus! {

/// The kind of a transaction.
#[derive(Debug, Clone, PartialEq, Eq)]
pub enum TransactionType {
    /// Initial token allocation.
    Mint { amount: u64 },
    /// Token destruction.
    Burn { amount: u64 },
    /// Transfer between accounts.
    Transfer { from: String, to: String, amount: u64 },
    /// Payment for an operation.
    OperationFee { operation_id: String, amount: u64 },
    /// Reward for providing a service.
    ServiceReward { service_type: String, amount: u64 },
    /// Stake tokens (lock for participation).
    Stake { amount: u64 },
    /// Unstake tokens.
    Unstake { amount: u64 },
}

/// A transaction kind, with its strings as character sequences.
pub enum TxKind {
    Mint { amount: u64 },
    Burn { amount: u64 },
    Transfer { from: Seq<char>, to: Seq<char>, amount: u64 },
    OperationFee { operation_id: Seq<char>, amount: u64 },
    ServiceReward { service_type: Seq<char>, amount: u64 },
    Stake { amount: u64 },
    Unstake { amount: u64 },
}

impl View for TransactionType {
    type V = TxKind;

    open spec fn view(&self) -> TxKind {
        match *self {
            TransactionType::Mint { amount } => TxKind::Mint { amount },
            TransactionType::Burn { amount } => TxKind::Burn { amount },
            TransactionType::Transfer { from, to, amount } => TxKind::Transfer { from: from@, to: to@, amount },
            TransactionType::OperationFee { operation_id, amount } => TxKind::OperationFee {
                operation_id: operation_id@,
                amount,
            },
            TransactionType::ServiceReward { service_type, amount } => TxKind::ServiceReward {
                service_type: service_type@,
                amount,
            },
            TransactionType::Stake { amount } => TxKind::Stake { amount },
            TransactionType::Unstake { amount } => TxKind::Unstake { amount },
        }
    }
}

/// The amount a transaction of this kind moves.
pub open spec fn tx_amount(t: TxKind) -> u64 {
    match t {
        TxKind::Mint { amount } => amount,
        TxKind::Burn { amount } => amount,
        TxKind::Transfer { amount, .. } => amount,
        TxKind::OperationFee { amount, .. } => amount,
        TxKind::ServiceReward { amount, .. } => amount,
        TxKind::Stake { amount } => amount,
        TxKind::Unstake { amount } => amount,
    }
}

/// The `Debug` text of a transaction kind, as `derive(Debug)` writes it.
pub open spec fn tx_type_debug(t: TxKind) -> Seq<char> {
    match t {
        TxKind::Mint { amount } => "Mint { amount: "@ + decimal(amount as nat) + " }"@,
        TxKind::Burn { amount } => "Burn { amount: "@ + decimal(amount as nat) + " }"@,
        TxKind::Transfer { from, to, amount } => "Transfer { from: "@ + str_debug_of(from) + ", to: "@
            + str_debug_of(to) + ", amount: "@ + decimal(amount as nat) + " }"@,
        TxKind::OperationFee { operation_id, amount } => "OperationFee { operation_id: "@ + str_debug_of(
            operation_id,
        ) + ", amount: "@ + decimal(amount as nat) + " }"@,
        TxKind::ServiceReward { service_type, amount } => "ServiceReward { service_type: "@ + str_debug_of(
            service_type,
        ) + ", amount: "@ + decimal(amount as nat) + " }"@,
        TxKind::Stake { amount } => "Stake { amount: "@ + decimal(amount as nat) + " }"@,
        TxKind::Unstake { amount } => "Unstake { amount: "@ + decimal(amount as nat) + " }"@,
    }
}

/// The bytes a transaction ID is hashed from: the kind's `Debug` text, the
/// initiator, and the timestamp's little-endian bytes.
pub open spec fn tx_id_preimage(t: TxKind, initiator: Seq<char>, timestamp: u64) -> Seq<u8> {
    encode_utf8(tx_type_debug(t)) + encode_utf8(initiator) + le_bytes(timestamp)
}

/// A transaction ID: `tx_` and the first 16 hex digits of the SHA-256 of
/// the preimage.
pub open spec fn tx_id_for(t: TxKind, initiator: Seq<char>, timestamp: u64) -> Seq<char> {
    "tx_"@ + sha256_hex_of(tx_id_preimage(t, initiator, timestamp)).subrange(0, 16)
}

impl TransactionType {
    /// A field-for-field copy.
    pub fn copy(&self) -> (r: Self)
        ensures
            r@ == self@,
    {
        match self {
            TransactionType::Mint { amount } => TransactionType::Mint { amount: *amount },
            TransactionType::Burn { amount } => TransactionType::Burn { amount: *amount },
            TransactionType::Transfer { from, to, amount } => TransactionType::Transfer {
                from: from.clone(),
                to: to.clone(),
                amount: *amount,
            },
            TransactionType::OperationFee { operation_id, amount } => TransactionType::OperationFee {
                operation_id: operation_id.clone(),
                amount: *amount,
            },
            TransactionType::ServiceReward { service_type, amount } => TransactionType::ServiceReward {
                service_type: service_type.clone(),
                amount: *amount,
            },
            TransactionType::Stake { amount } => TransactionType::Stake { amount: *amount },
            TransactionType::Unstake { amount } => TransactionType::Unstake { amount: *amount },
        }
    }

    /// The `Debug` text of this kind.
    pub fn debug_text(&self) -> (s: String)
        ensures
            s@ == tx_type_debug(self@),
    {
        let mut s = String::new();
        match self {
            TransactionType::Mint { amount } => {
                string_push_str(&mut s, "Mint { amount: ");
                push_decimal(&mut s, *amount);
            },
            TransactionType::Burn { amount } => {
                string_push_str(&mut s, "Burn { amount: ");
                push_decimal(&mut s, *amount);
            },
            TransactionType::Transfer { from, to, amount } => {
                string_push_str(&mut s, "Transfer { from: ");
                let f = debug_str(from.as_str());
                string_push_str(&mut s, f.as_str());
                string_push_str(&mut s, ", to: ");
                let t = debug_str(to.as_str());
                string_push_str(&mut s, t.as_str());
                string_push_str(&mut s, ", amount: ");
                push_decimal(&mut s, *amount);
            },
            TransactionType::OperationFee { operation_id, amount } => {
                string_push_str(&mut s, "OperationFee { operation_id: ");
                let o = debug_str(operation_id.as_str());
                string_push_str(&mut s, o.as_str());
                string_push_str(&mut s, ", amount: ");
                push_decimal(&mut s, *amount);
            },
            TransactionType::ServiceReward { service_type, amount } => {
                string_push_str(&mut s, "ServiceReward { service_type: ");
                let o = debug_str(service_type.as_str());
                string_push_str(&mut s, o.as_str());
                string_push_str(&mut s, ", amount: ");
                push_decimal(&mut s, *amount);
            },
            TransactionType::Stake { amount } => {
                string_push_str(&mut s, "Stake { amount: ");
                push_decimal(&mut s, *amount);
            },
            TransactionType::Unstake { amount } => {
                string_push_str(&mut s, "Unstake { amount: ");
                push_decimal(&mut s, *amount);
            },
        }
        string_push_str(&mut s, " }");
        proof {
            assert(s@ =~= tx_type_debug(self@));
        }
        s
    }
}

/// What a transaction is, as values.
pub struct TxView {
    pub id: Seq<char>,
    pub tx_type: TxKind,
    pub initiator: Seq<char>,
    pub timestamp: u64,
    pub version: Map<Seq<char>, u64>,
    pub dependencies: Seq<Seq<char>>,
    pub signature: Seq<u8>,
}

/// A single transaction in the ledger.
#[derive(Debug)]
pub struct Transaction {
    /// Unique transaction ID.
    pub id: String,
    /// Transaction kind.
    pub tx_type: TransactionType,
    /// Account initiating the transaction.
    pub initiator: String,
    /// Microseconds since the Unix epoch.
    pub timestamp: u64,
    /// Version vector at creation.
    pub version: VersionVector,
    /// Dependencies (previous transactions), without repeats.
    pub dependencies: Vec<String>,
    /// Signature for verification (empty until signed).
    pub signature: Vec<u8>,
}

/// The views of a list of strings.
pub open spec fn str_views(v: Seq<String>) -> Seq<Seq<char>> {
    v.map_values(|s: String| s@)
}

impl View for Transaction {
    type V = TxView;

    open spec fn view(&self) -> TxView {
        TxView {
            id: self.id@,
            tx_type: self.tx_type@,
            initiator: self.initiator@,
            timestamp: self.timestamp,
            version: self.version@,
            dependencies: str_views(self.dependencies@),
            signature: self.signature@,
        }
    }
}

/// A copy of a list of strings.
fn copy_strings(v: &Vec<String>) -> (r: Vec<String>)
    ensures
        r@ == v@,
{
    let mut r: Vec<String> = Vec::new();
    let mut i: usize = 0;
    while i < v.len()
        invariant
            i <= v@.len(),
            r@ == v@.subrange(0, i as int),
        decreases v@.len() - i,
    {
        r.push(v[i].clone());
        i = i + 1;
        assert(r@ =~= v@.subrange(0, i as int));
    }
    assert(v@.subrange(0, v@.len() as int) =~= v@);
    r
}

/// A copy of a byte string.
fn copy_bytes(v: &Vec<u8>) -> (r: Vec<u8>)
    ensures
        r@ == v@,
{
    let mut r: Vec<u8> = Vec::new();
    let mut i: usize = 0;
    while i < v.len()
        invariant
            i <= v@.len(),
            r@ == v@.subrange(0, i as int),
        decreases v@.len() - i,
    {
        r.push(v[i]);
        i = i + 1;
        assert(r@ =~= v@.subrange(0, i as int));
    }
    assert(v@.subrange(0, v@.len() as int) =~= v@);
    r
}

impl Transaction {
    /// A new unsigned transaction stamped with the current time, its ID
    /// derived from its kind, initiator and timestamp.
    pub fn new(tx_type: TransactionType, initiator: String, version: VersionVector, dependencies: Vec<String>) -> (t:
        Self)
        ensures
            t.tx_type@ == tx_type@,
            t.initiator@ == initiator@,
            t.version@ == version@,
            t.dependencies@ == dependencies@,
            t.signature@.len() == 0,
            t.id@ == tx_id_for(tx_type@, initiator@, t.timestamp),
    {
        let timestamp = unix_micros();
        let id = Self::compute_id(&tx_type, initiator.as_str(), timestamp);
        Transaction { id, tx_type, initiator, timestamp, version, dependencies, signature: Vec::new() }
    }

    fn compute_id(tx_type: &TransactionType, initiator: &str, timestamp: u64) -> (id: String)
        ensures
            id@ == tx_id_for(tx_type@, initiator@, timestamp),
    {
        let text = tx_type.debug_text();
        let mut bytes: Vec<u8> = Vec::new();
        push_str_bytes(&mut bytes, text.as_str());
        push_str_bytes(&mut bytes, initiator);
        push_le_bytes(&mut bytes, timestamp);
        let ghost pre = tx_id_preimage(tx_type@, initiator@, timestamp);
        assert(bytes@ =~= pre);
        let hex = sha256_hex(bytes.as_slice());
        let short = hex.as_str().substring_char(0, 16);
        let mut id = String::from_str("tx_");
        string_push_str(&mut id, short);
        id
    }

    /// The amount this transaction moves.
    pub fn amount(&self) -> (a: u64)
        ensures
            a == tx_amount(self.tx_type@),
    {
        match &self.tx_type {
            TransactionType::Mint { amount } => *amount,
            TransactionType::Burn { amount } => *amount,
            TransactionType::Transfer { amount, .. } => *amount,
            TransactionType::OperationFee { amount, .. } => *amount,
            TransactionType::ServiceReward { amount, .. } => *amount,
            TransactionType::Stake { amount } => *amount,
            TransactionType::Unstake { amount } => *amount,
        }
    }

    /// A copy of this transaction.
    pub fn copy(&self) -> (t: Self)
        ensures
            t@ == self@,
    {
        Transaction {
            id: self.id.clone(),
            tx_type: self.tx_type.copy(),
            initiator: self.initiator.clone(),
            timestamp: self.timestamp,
            version: self.version.clone(),
            dependencies: copy_strings(&self.dependencies),
            signature: copy_bytes(&self.signature),
        }
    }
}

/// The treasury account of a node: its ID followed by `_treasury`.
pub open spec fn treasury_name(node: Seq<char>) -> Seq<char> {
    node + "_treasury"@
}

/// The ledger's fee rate, in basis points (10 = 0.1%).
pub open spec fn fee_bps() -> u64 {
    10
}

/// The fee taken from a transfer of `amount`: 0.1%, rounded down.
pub open spec fn fee_for(amount: u64) -> u64 {
    (amount * fee_bps() / 10000) as u64
}

/// The dependencies of a new transaction: the latest one recorded, if any.
pub open spec fn latest_deps(order: Seq<Seq<char>>) -> Seq<Seq<char>> {
    if order.len() == 0 { Seq::empty() } else { seq![order.last()] }
}

/// `t` is a transaction just made of kind `kind` by `initiator`, at version
/// `version`, depending on `deps`: unsigned, its ID derived from its kind,
/// initiator and (clock-given) timestamp.
pub open spec fn is_new_tx(
    t: TxView,
    kind: TxKind,
    initiator: Seq<char>,
    version: Map<Seq<char>, u64>,
    deps: Seq<Seq<char>>,
) -> bool {
    &&& t.tx_type == kind
    &&& t.initiator == initiator
    &&& t.version == version
    &&& t.dependencies == deps
    &&& t.signature.len() == 0
    &&& t.id == tx_id_for(kind, initiator, t.timestamp)
}

/// The balance of `k` after moving `amount` from `from` to `to`.
pub open spec fn moved(m: Map<Seq<char>, CausalToken>, k: Seq<char>, from: Seq<char>, to: Seq<char>, amount: u64) -> int {
    balance_of(m, k) - (if k == from { amount as int } else { 0 }) + (if k == to { amount as int } else { 0 })
}

/// Balances after a transfer from `from` to `to` of `amount`, as the
/// balance tracker states it, expressed key by key.
proof fn lemma_moved(
    m1: Map<Seq<char>, CausalToken>,
    m2: Map<Seq<char>, CausalToken>,
    from: Seq<char>,
    to: Seq<char>,
    amount: u64,
)
    requires
        m2.dom() == m1.dom().insert(from).insert(to),
        forall|k: Seq<char>| k != from && k != to && #[trigger] m1.contains_key(k) ==> m2[k] == m1[k],
        from != to ==> balance_of(m2, from) == balance_of(m1, from) - amount && balance_of(m2, to) == balance_of(
            m1,
            to,
        ) + amount,
        from == to ==> balance_of(m2, from) == balance_of(m1, from),
    ensures
        forall|k: Seq<char>| #[trigger] balance_of(m2, k) == moved(m1, k, from, to, amount),
{
    assert forall|k: Seq<char>| #[trigger] balance_of(m2, k) == moved(m1, k, from, to, amount) by {
        if k != from && k != to && !m1.contains_key(k) {
            assert(!m2.contains_key(k));
        }
    }
}

/// The timestamp of transaction `id`, 0 when unknown.
pub open spec fn tx_time(m: Map<Seq<char>, TxView>, id: Seq<char>) -> u64 {
    if m.contains_key(id) { m[id].timestamp } else { 0 }
}

/// The timestamp of stored transaction `id`, 0 when unknown.
pub open spec fn stored_time(m: Map<Seq<char>, Transaction>, id: Seq<char>) -> u64 {
    if m.contains_key(id) { m[id].timestamp } else { 0 }
}

/// The IDs are in timestamp order.
pub open spec fn time_sorted(m: Map<Seq<char>, TxView>, s: Seq<Seq<char>>) -> bool {
    forall|a: int, b: int| 0 <= a < b < s.len() ==> tx_time(m, #[trigger] s[a]) <= tx_time(m, #[trigger] s[b])
}

/// Inserting into a sequence adds one occurrence of the value.
proof fn lemma_insert_multiset<A>(s: Seq<A>, j: int, v: A)
    requires
        0 <= j <= s.len(),
    ensures
        s.insert(j, v).to_multiset() == s.to_multiset().insert(v),
{
    broadcast use vstd::seq_lib::group_to_multiset_ensures;

    let t = s.insert(j, v);
    assert(t.remove(j) =~= s);
    assert(t[j] == v);
    assert(t.contains(v));
    assert(t.to_multiset() =~= s.to_multiset().insert(v));
}

fn time_in(txs: &StrMap<Transaction>, id: &str) -> (t: u64)
    requires
        txs.wf(),
    ensures
        t == stored_time(txs@, id@),
{
    match txs.get_str(id) {
        Some(tx) => tx.timestamp,
        None => 0,
    }
}

/// A stable insertion sort of transaction IDs by timestamp.
fn sort_by_time(txs: &StrMap<Transaction>, order: Vec<String>) -> (out: Vec<String>)
    requires
        txs.wf(),
    ensures
        str_views(out@).to_multiset() == str_views(order@).to_multiset(),
        forall|a: int, b: int| 0 <= a < b < out@.len() ==> stored_time(txs@, (#[trigger] out@[a])@) <= stored_time(
            txs@,
            (#[trigger] out@[b])@,
        ),
{
    broadcast use vstd::seq_lib::group_to_multiset_ensures;

    let mut out: Vec<String> = Vec::new();
    let mut i: usize = 0;
    while i < order.len()
        invariant
            txs.wf(),
            i <= order@.len(),
            str_views(out@).to_multiset() == str_views(order@.subrange(0, i as int)).to_multiset(),
            forall|a: int, b: int| 0 <= a < b < out@.len() ==> stored_time(txs@, (#[trigger] out@[a])@) <= stored_time(
                txs@,
                (#[trigger] out@[b])@,
            ),
        decreases order@.len() - i,
    {
        let x = order[i].clone();
        let key = time_in(txs, x.as_str());
        let mut j: usize = out.len();
        while j > 0 && time_in(txs, out[j - 1].as_str()) > key
            invariant
                txs.wf(),
                j <= out@.len(),
                forall|q: int| j <= q < out@.len() ==> stored_time(txs@, (#[trigger] out@[q])@) > key,
                key == stored_time(txs@, x@),
            decreases j,
        {
            j = j - 1;
        }
        let ghost before = out@;
        out.insert(j, x);
        proof {
            assert(out@ == before.insert(j as int, x));
            assert forall|a: int, b: int| 0 <= a < b < out@.len() implies stored_time(txs@, (#[trigger] out@[a])@)
                <= stored_time(txs@, (#[trigger] out@[b])@) by {
                if a < j && b < j {
                    assert(out@[a] == before[a] && out@[b] == before[b]);
                } else if a < j && b == j {
                    assert(out@[a] == before[a]);
                    if a < j - 1 {
                        assert(stored_time(txs@, before[a]@) <= stored_time(txs@, before[j - 1]@));
                    }
                } else if a < j {
                    assert(out@[a] == before[a] && out@[b] == before[b - 1]);
                } else if a == j {
                    assert(out@[b] == before[b - 1]);
                } else {
                    assert(out@[a] == before[a - 1] && out@[b] == before[b - 1]);
                }
            }
            assert(str_views(out@) =~= str_views(before).insert(j as int, x@));
            lemma_insert_multiset(str_views(before), j as int, x@);
            let pre_i = str_views(order@.subrange(0, i as int));
            assert(str_views(order@.subrange(0, i + 1)) =~= pre_i.push(x@));
            vstd::seq_lib::to_multiset_build(pre_i, x@);
            assert(str_views(out@).to_multiset() == str_views(before).to_multiset().insert(x@));
        }
        i = i + 1;
    }
    proof { assert(order@.subrange(0, order@.len() as int) =~= order@); }
    out
}

/// The transaction concerns `account`: it initiated it, or it is a
/// transfer from or to it.
pub open spec fn involves(t: TxView, account: Seq<char>) -> bool {
    t.initiator == account || match t.tx_type {
        TxKind::Transfer { from, to, .. } => from == account || to == account,
        _ => false,
    }
}

/// The known transactions of `order` that concern `account`, in order.
pub open spec fn history(order: Seq<Seq<char>>, txs: Map<Seq<char>, TxView>, account: Seq<char>) -> Seq<TxView>
    decreases order.len(),
{
    if order.len() == 0 {
        Seq::empty()
    } else {
        let h = history(order.drop_last(), txs, account);
        let id = order.last();
        if txs.contains_key(id) && involves(txs[id], account) { h.push(txs[id]) } else { h }
    }
}

/// Economy ledger: token balances and the history of transactions.
#[derive(Debug)]
pub struct EconomyLedger {
    balances: TokenBalance,
    transactions: StrMap<Transaction>,
    tx_order: Vec<String>,
    version: VersionVector,
    node_id: String,
    treasury: String,
    fee_bps: u64,
}

/// Ledger errors.
#[derive(Debug, Clone)]
pub enum LedgerError {
    InsufficientBalance(InsufficientBalance),
    TreasuryDepleted,
    InvalidTransaction(String),
}

/// The text of a ledger error.
pub open spec fn ledger_error_text(e: LedgerError) -> Seq<char> {
    match e {
        LedgerError::InsufficientBalance(b) => shortfall_text(b),
        LedgerError::TreasuryDepleted => "Treasury depleted"@,
        LedgerError::InvalidTransaction(msg) => "Invalid transaction: "@ + msg@,
    }
}

impl LedgerError {
    /// The error's text.
    pub fn message(&self) -> (s: String)
        ensures
            s@ == ledger_error_text(*self),
    {
        match self {
            LedgerError::InsufficientBalance(b) => b.message(),
            LedgerError::TreasuryDepleted => String::from_str("Treasury depleted"),
            LedgerError::InvalidTransaction(msg) => {
                let mut s = String::from_str("Invalid transaction: ");
                string_push_str(&mut s, msg.as_str());
                s
            },
        }
    }
}

/// Ledger statistics.
#[derive(Debug, Clone, Copy)]
pub struct LedgerStats {
    pub total_accounts: usize,
    pub total_transactions: usize,
    pub total_supply: i64,
    pub treasury_balance: i64,
}

impl EconomyLedger {
    #[verifier::type_invariant]
    closed spec fn inv(self) -> bool {
        &&& self.transactions.wf()
        &&& self.fee_bps == fee_bps()
        &&& self.treasury@ == treasury_name(self.node_id@)
        &&& forall|i: int| 0 <= i < self.tx_order@.len() ==> self.transactions@.contains_key(
            #[trigger] self.tx_order@[i]@,
        )
    }

    /// Account ID → token.
    pub closed spec fn accounts(self) -> Map<Seq<char>, CausalToken> {
        self.balances.accounts()
    }

    /// The balance tracker's version vector.
    pub closed spec fn token_version(self) -> Map<Seq<char>, u64> {
        self.balances.version()
    }

    /// The node the balance tracker counts under.
    pub closed spec fn token_node(self) -> Seq<char> {
        self.balances.node()
    }

    /// Transaction ID → transaction.
    pub closed spec fn transactions(self) -> Map<Seq<char>, TxView> {
        self.transactions@.map_values(|t: Transaction| t@)
    }

    /// Transaction IDs in replay order.
    pub closed spec fn tx_order(self) -> Seq<Seq<char>> {
        str_views(self.tx_order@)
    }

    /// The ledger's version vector.
    pub closed spec fn version(self) -> Map<Seq<char>, u64> {
        self.version@
    }

    /// This ledger's node ID.
    pub closed spec fn node(self) -> Seq<char> {
        self.node_id@
    }

    /// The treasury account, which collects fees.
    pub open spec fn treasury(self) -> Seq<char> {
        treasury_name(self.node())
    }

    /// The account's balance can be read: its credits and debits each fit
    /// in an `i64`.
    pub open spec fn readable(self, id: Seq<char>) -> bool {
        self.accounts().contains_key(id) ==> self.accounts()[id].fits()
    }

    /// `amount` can be credited to the account without overflow.
    pub open spec fn credit_room(self, id: Seq<char>, amount: u64) -> bool {
        self.accounts().contains_key(id) ==> {
            let t = self.accounts()[id];
            &&& map_sum(t.positive()) + amount <= i64::MAX
            &&& vv_count(t.positive(), t.node()) + amount <= u64::MAX
        }
    }

    /// The account is readable and `amount` can be debited from it without
    /// overflow.
    pub open spec fn debit_room(self, id: Seq<char>, amount: u64) -> bool {
        self.accounts().contains_key(id) ==> {
            let t = self.accounts()[id];
            &&& t.fits()
            &&& map_sum(t.negative()) + amount <= i64::MAX
            &&& vv_count(t.negative(), t.node()) + amount <= u64::MAX
        }
    }

    /// `n` more balance updates and one more recorded transaction fit in
    /// the version counters.
    pub open spec fn version_room(self, n: nat) -> bool {
        &&& vv_count(self.token_version(), self.token_node()) + n <= u64::MAX
        &&& vv_count(self.version(), self.node()) < u64::MAX
    }

    proof fn lemma_views(self)
        requires
            self.transactions.wf(),
        ensures
            self.transactions().dom() == self.transactions@.dom(),
            self.transactions().dom().finite(),
            self.tx_order().len() == self.tx_order@.len(),
    {
        self.transactions.lemma_len();
        assert(self.transactions().dom() =~= self.transactions@.dom());
    }

    /// Create a ledger whose treasury holds `initial_supply`.
    pub fn new(node_id: String, initial_supply: u64) -> (l: Self)
        ensures
            initial_supply <= i64::MAX ==> all_fit(l.accounts()),
            l.node() == node_id@,
            l.accounts().dom() == set![l.treasury()],
            balance_of(l.accounts(), l.treasury()) == initial_supply,
            total_balance(l.accounts()) == initial_supply,
            l.transactions() == Map::<Seq<char>, TxView>::empty(),
            l.tx_order() == Seq::<Seq<char>>::empty(),
            l.version() == Map::<Seq<char>, u64>::empty(),
            l.token_node() == node_id@,
            l.token_version() == Map::<Seq<char>, u64>::empty().insert(node_id@, 1),
    {
        let mut treasury = node_id.clone();
        string_push_str(&mut treasury, "_treasury");
        let mut balances = TokenBalance::new(node_id.clone());
        proof { crate::assoc::lemma_map_total_empty::<Seq<char>, CausalToken>(balance_fn()); }
        balances.credit(treasury.as_str(), initial_supply);
        let l = EconomyLedger {
            balances,
            transactions: StrMap::new(),
            tx_order: Vec::new(),
            version: VersionVector::new(),
            node_id,
            treasury,
            fee_bps: 10,
        };
        proof {
            assert(l.accounts().dom() =~= set![l.treasury()]);
            assert(l.transactions() =~= Map::<Seq<char>, TxView>::empty());
            assert(l.tx_order() =~= Seq::<Seq<char>>::empty());
            assert(vv_count(Map::<Seq<char>, u64>::empty(), node_id@) == 0);
        }
        l
    }

    /// Balance of an account (0 for an unknown one).
    pub fn balance(&self, account: &str) -> (b: i64)
        requires
            self.readable(account@),
        ensures
            b == balance_of(self.accounts(), account@),
    {
        self.balances.balance(account)
    }

    /// Balance of the treasury.
    pub fn treasury_balance(&self) -> (b: i64)
        requires
            self.readable(self.treasury()),
        ensures
            b == balance_of(self.accounts(), self.treasury()),
    {
        proof { use_type_invariant(self); }
        self.balances.balance(self.treasury.as_str())
    }

    fn latest_tx_deps(&self) -> (d: Vec<String>)
        ensures
            str_views(d@) == latest_deps(self.tx_order()),
    {
        let n = self.tx_order.len();
        if n == 0 {
            let d: Vec<String> = Vec::new();
            assert(str_views(d@) =~= latest_deps(self.tx_order()));
            d
        } else {
            let mut d: Vec<String> = Vec::new();
            d.push(self.tx_order[n - 1].clone());
            assert(str_views(d@) =~= latest_deps(self.tx_order()));
            d
        }
    }

    fn take(&mut self) -> (l: Self)
        ensures
            l == *old(self),
    {
        let mut l = EconomyLedger {
            balances: TokenBalance::new(String::new()),
            transactions: StrMap::new(),
            tx_order: Vec::new(),
            version: VersionVector::new(),
            node_id: String::new(),
            treasury: String::from_str("_treasury"),
            fee_bps: 10,
        };
        std::mem::swap(&mut l, self);
        l
    }

    fn record_tx(&mut self, tx: Transaction)
        requires
            vv_count(old(self).version(), old(self).node()) < u64::MAX,
        ensures
            final(self).transactions() == old(self).transactions().insert(tx.id@, tx@),
            final(self).tx_order() == old(self).tx_order().push(tx.id@),
            final(self).version() == old(self).version().insert(
                old(self).node(),
                (vv_count(old(self).version(), old(self).node()) + 1) as u64,
            ),
            final(self).accounts() == old(self).accounts(),
            final(self).token_version() == old(self).token_version(),
            final(self).token_node() == old(self).token_node(),
            final(self).node() == old(self).node(),
    {
        let ghost pre = *self;
        let l = self.take();
        proof { use_type_invariant(&l); }
        let EconomyLedger { balances, mut transactions, mut tx_order, mut version, node_id, treasury, fee_bps } = l;
        let tx_id = tx.id.clone();
        transactions.insert(tx_id.clone(), tx);
        tx_order.push(tx_id);
        version.increment(node_id.as_str());
        proof {
            assert forall|i: int| 0 <= i < tx_order@.len() implies transactions@.contains_key(
                #[trigger] tx_order@[i]@,
            ) by {
                if i < tx_order@.len() - 1 {
                    assert(pre.tx_order@[i] == tx_order@[i]);
                }
            }
        }
        *self = EconomyLedger { balances, transactions, tx_order, version, node_id, treasury, fee_bps };
        proof {
            assert(self.transactions() =~= pre.transactions().insert(tx.id@, tx@));
            assert(self.tx_order() =~= pre.tx_order().push(tx.id@));
        }
    }

    /// `next` is this ledger with one more transaction, `id`, of kind `kind`
    /// by `initiator` recorded: made at this ledger's version on top of its
    /// latest transaction, appended to the replay order, and counted in the
    /// ledger's version vector.
    pub open spec fn records(self, next: Self, id: Seq<char>, kind: TxKind, initiator: Seq<char>) -> bool {
        &&& next.transactions().contains_key(id)
        &&& is_new_tx(next.transactions()[id], kind, initiator, self.version(), latest_deps(self.tx_order()))
        &&& next.transactions() == self.transactions().insert(id, next.transactions()[id])
        &&& next.tx_order() == self.tx_order().push(id)
        &&& next.version() == self.version().insert(self.node(), (vv_count(self.version(), self.node()) + 1) as u64)
        &&& next.node() == self.node()
        &&& next.token_node() == self.token_node()
    }

    /// `next`'s balance tracker has counted `n` more updates than this one's.
    pub open spec fn bumped(self, next: Self, n: nat) -> bool {
        next.token_version() == self.token_version().insert(
            self.token_node(),
            (vv_count(self.token_version(), self.token_node()) + n) as u64,
        )
    }

    /// Mint `amount` new tokens to `to`.
    pub fn mint(&mut self, to: &str, amount: u64) -> (r: Result<String, LedgerError>)
        requires
            old(self).version_room(1),
            old(self).credit_room(to@, amount),
        ensures
            all_fit(old(self).accounts()) && amount <= i64::MAX ==> all_fit(final(self).accounts()),
            match r {
                Ok(id) => {
                    &&& old(self).records(*final(self), id@, TxKind::Mint { amount }, old(self).node())
                    &&& old(self).bumped(*final(self), 1)
                    &&& final(self).accounts().dom() == old(self).accounts().dom().insert(to@)
                    &&& forall|k: Seq<char>| #[trigger] balance_of(final(self).accounts(), k) == balance_of(
                        old(self).accounts(),
                        k,
                    ) + (if k == to@ { amount as int } else { 0 })
                    &&& total_balance(final(self).accounts()) == total_balance(old(self).accounts()) + amount
                },
                Err(_) => false,
            },
    {
        let ghost pre = *self;
        let tx = Transaction::new(
            TransactionType::Mint { amount },
            self.node_id.clone(),
            self.version.clone(),
            self.latest_tx_deps(),
        );
        let l = self.take();
        proof { use_type_invariant(&l); }
        let EconomyLedger { mut balances, transactions, tx_order, version, node_id, treasury, fee_bps } = l;
        balances.credit(to, amount);
        *self = EconomyLedger { balances, transactions, tx_order, version, node_id, treasury, fee_bps };
        proof {
            assert forall|k: Seq<char>| #[trigger] balance_of(self.accounts(), k) == balance_of(pre.accounts(), k) + (
            if k == to@ { amount as int } else { 0 }) by {
                if k != to@ && !pre.accounts().contains_key(k) {
                    assert(!self.accounts().contains_key(k));
                }
            }
        }
        let id = tx.id.clone();
        self.record_tx(tx);
        Ok(id)
    }

    /// Transfer `amount` from `from` to `to`, keeping a 0.1% fee for the
    /// treasury: refused, with nothing changed, when `from` holds less than
    /// `amount`.
    pub fn transfer(&mut self, from: &str, to: &str, amount: u64) -> (r: Result<String, LedgerError>)
        requires
            amount * fee_bps() <= u64::MAX,
            old(self).version_room(2),
            old(self).debit_room(from@, amount),
            old(self).credit_room(to@, amount),
            old(self).credit_room(old(self).treasury(), amount),
        ensures
            all_fit(old(self).accounts()) && amount <= i64::MAX ==> all_fit(final(self).accounts()),
            balance_of(old(self).accounts(), from@) < amount ==> r == Err::<String, LedgerError>(
                LedgerError::InsufficientBalance(shortfall(amount, balance_of(old(self).accounts(), from@))),
            ) && *final(self) == *old(self),
            balance_of(old(self).accounts(), from@) >= amount ==> match r {
                Ok(id) => {
                    &&& old(self).records(
                        *final(self),
                        id@,
                        TxKind::Transfer { from: from@, to: to@, amount },
                        from@,
                    )
                    &&& old(self).bumped(*final(self), if fee_for(amount) > 0 { 2 } else { 1 })
                    &&& final(self).accounts().dom() == if fee_for(amount) > 0 {
                        old(self).accounts().dom().insert(from@).insert(to@).insert(old(self).treasury())
                    } else {
                        old(self).accounts().dom().insert(from@).insert(to@)
                    }
                    &&& forall|k: Seq<char>| #[trigger] balance_of(final(self).accounts(), k) == balance_of(
                        old(self).accounts(),
                        k,
                    ) - (if k == from@ { amount as int } else { 0 }) + (if k == to@ {
                        amount - fee_for(amount)
                    } else {
                        0
                    }) + (if k == old(self).treasury() { fee_for(amount) as int } else { 0 })
                    &&& total_balance(final(self).accounts()) == total_balance(old(self).accounts())
                },
                Err(_) => false,
            },
    {
        proof { use_type_invariant(&*self); }
        let ghost pre = *self;
        let fee = amount * self.fee_bps / 10000;
        let net = amount - fee;
        let bal = self.balance(from);
        if bal < amount as i64 {
            let available: u64 = if bal > 0 { bal as u64 } else { 0 };
            return Err(LedgerError::InsufficientBalance(InsufficientBalance { required: amount, available }));
        }
        let tx = Transaction::new(
            TransactionType::Transfer { from: String::from_str(from), to: String::from_str(to), amount },
            String::from_str(from),
            self.version.clone(),
            self.latest_tx_deps(),
        );
        let l = self.take();
        proof { use_type_invariant(&l); }
        let EconomyLedger { mut balances, transactions, tx_order, version, node_id, treasury, fee_bps } = l;
        let ghost b0 = balances;
        let ghost fit0 = all_fit(pre.accounts()) && amount <= i64::MAX;
        proof {
            if fit0 {
                assert(debit_fits(b0.accounts(), from@, net));
                assert(credit_fits(b0.accounts(), to@, net));
            }
        }
        let r1 = balances.transfer(from, to, net);
        match r1 {
            Err(e) => {
                *self = EconomyLedger { balances, transactions, tx_order, version, node_id, treasury, fee_bps };
                return Err(LedgerError::InsufficientBalance(e));
            },
            Ok(()) => {},
        }
        let ghost b1 = balances;
        proof {
            lemma_moved(b0.accounts(), b1.accounts(), from@, to@, net);
        }
        if fee > 0 {
            proof {
                assert(b0.accounts().contains_key(from@));
                let tf = b1.accounts()[from@];
                let tr = treasury@;
                if from@ != to@ {
                    let (w1, w2) = choose|w1: CausalToken, w2: CausalToken| b0.base_ok(from@, w1) && b0.base_ok(to@, w2)
                        && is_debited(w1, b1.accounts()[from@], net) && is_credited(w2, b1.accounts()[to@], net);
                    assert(w1 == b0.accounts()[from@]);
                    if fit0 {
                        if !b0.accounts().contains_key(to@) {
                            crate::economy::token::lemma_fresh_balance(w2, b0.node());
                        }
                        assert(debit_fits(b1.accounts(), from@, fee));
                        if tr != from@ && tr != to@ && b0.accounts().contains_key(tr) {
                            assert(b1.accounts()[tr] == b0.accounts()[tr]);
                        }
                        assert(credit_fits(b1.accounts(), tr, fee));
                    }
                } else {
                    let (w, mid) = choose|w: CausalToken, mid: CausalToken| b0.base_ok(from@, w)
                        && is_debited(w, mid, net) && is_credited(mid, b1.accounts()[from@], net);
                    assert(w == b0.accounts()[from@]);
                    if fit0 {
                        assert(debit_fits(b1.accounts(), from@, fee));
                        if tr != from@ && b0.accounts().contains_key(tr) {
                            assert(b1.accounts()[tr] == b0.accounts()[tr]);
                        }
                        assert(credit_fits(b1.accounts(), tr, fee));
                    }
                }
                assert(tf.fits());
            }
            let r2 = balances.transfer(from, treasury.as_str(), fee);
            match r2 {
                Err(e) => {
                    *self = EconomyLedger { balances, transactions, tx_order, version, node_id, treasury, fee_bps };
                    return Err(LedgerError::InsufficientBalance(e));
                },
                Ok(()) => {},
            }
            proof {
                lemma_moved(b1.accounts(), balances.accounts(), from@, treasury@, fee);
                assert(balances.version() =~= b0.version().insert(
                    b0.node(),
                    (vv_count(b0.version(), b0.node()) + 2) as u64,
                ));
            }
        }
        *self = EconomyLedger { balances, transactions, tx_order, version, node_id, treasury, fee_bps };
        let id = tx.id.clone();
        self.record_tx(tx);
        Ok(id)
    }

    /// Charge `account` `amount` for an operation, paid to the treasury:
    /// refused, with nothing changed, when the account holds less.
    pub fn charge_operation(&mut self, account: &str, operation_id: &str, amount: u64) -> (r: Result<
        String,
        LedgerError,
    >)
        requires
            old(self).version_room(1),
            old(self).debit_room(account@, amount),
            old(self).credit_room(old(self).treasury(), amount),
        ensures
            all_fit(old(self).accounts()) && amount <= i64::MAX ==> all_fit(final(self).accounts()),
            balance_of(old(self).accounts(), account@) < (amount as i64) ==> r == Err::<String, LedgerError>(
                LedgerError::InsufficientBalance(shortfall(amount, balance_of(old(self).accounts(), account@))),
            ) && *final(self) == *old(self),
            balance_of(old(self).accounts(), account@) >= (amount as i64) ==> match r {
                Ok(id) => {
                    &&& old(self).records(
                        *final(self),
                        id@,
                        TxKind::OperationFee { operation_id: operation_id@, amount },
                        account@,
                    )
                    &&& old(self).bumped(*final(self), 1)
                    &&& final(self).accounts().dom() == old(self).accounts().dom().insert(account@).insert(
                        old(self).treasury(),
                    )
                    &&& forall|k: Seq<char>| #[trigger] balance_of(final(self).accounts(), k) == moved(
                        old(self).accounts(),
                        k,
                        account@,
                        old(self).treasury(),
                        amount,
                    )
                    &&& total_balance(final(self).accounts()) == total_balance(old(self).accounts())
                },
                Err(_) => false,
            },
    {
        proof { use_type_invariant(&*self); }
        let bal = self.balance(account);
        if bal < amount as i64 {
            let available: u64 = if bal > 0 { bal as u64 } else { 0 };
            return Err(LedgerError::InsufficientBalance(InsufficientBalance { required: amount, available }));
        }
        let tx = Transaction::new(
            TransactionType::OperationFee { operation_id: String::from_str(operation_id), amount },
            String::from_str(account),
            self.version.clone(),
            self.latest_tx_deps(),
        );
        let l = self.take();
        proof { use_type_invariant(&l); }
        let EconomyLedger { mut balances, transactions, tx_order, version, node_id, treasury, fee_bps } = l;
        let ghost b0 = balances;
        let r1 = balances.transfer(account, treasury.as_str(), amount);
        match r1 {
            Err(e) => {
                *self = EconomyLedger { balances, transactions, tx_order, version, node_id, treasury, fee_bps };
                return Err(LedgerError::InsufficientBalance(e));
            },
            Ok(()) => {},
        }
        proof { lemma_moved(b0.accounts(), balances.accounts(), account@, treasury@, amount); }
        *self = EconomyLedger { balances, transactions, tx_order, version, node_id, treasury, fee_bps };
        let id = tx.id.clone();
        self.record_tx(tx);
        Ok(id)
    }

    /// Reward `account` with `amount` from the treasury for a service:
    /// refused, with nothing changed, when the treasury holds less.
    pub fn reward_service(&mut self, account: &str, service_type: &str, amount: u64) -> (r: Result<
        String,
        LedgerError,
    >)
        requires
            old(self).version_room(1),
            old(self).debit_room(old(self).treasury(), amount),
            old(self).credit_room(account@, amount),
        ensures
            all_fit(old(self).accounts()) && amount <= i64::MAX ==> all_fit(final(self).accounts()),
            balance_of(old(self).accounts(), old(self).treasury()) < (amount as i64) ==> r == Err::<String, LedgerError>(
                LedgerError::TreasuryDepleted,
            ) && *final(self) == *old(self),
            balance_of(old(self).accounts(), old(self).treasury()) >= (amount as i64) ==> match r {
                Ok(id) => {
                    &&& old(self).records(
                        *final(self),
                        id@,
                        TxKind::ServiceReward { service_type: service_type@, amount },
                        old(self).node(),
                    )
                    &&& old(self).bumped(*final(self), 1)
                    &&& final(self).accounts().dom() == old(self).accounts().dom().insert(old(self).treasury()).insert(
                        account@,
                    )
                    &&& forall|k: Seq<char>| #[trigger] balance_of(final(self).accounts(), k) == moved(
                        old(self).accounts(),
                        k,
                        old(self).treasury(),
                        account@,
                        amount,
                    )
                    &&& total_balance(final(self).accounts()) == total_balance(old(self).accounts())
                },
                Err(_) => false,
            },
    {
        proof { use_type_invariant(&*self); }
        if self.treasury_balance() < amount as i64 {
            return Err(LedgerError::TreasuryDepleted);
        }
        let tx = Transaction::new(
            TransactionType::ServiceReward { service_type: String::from_str(service_type), amount },
            self.node_id.clone(),
            self.version.clone(),
            self.latest_tx_deps(),
        );
        let l = self.take();
        proof { use_type_invariant(&l); }
        let EconomyLedger { mut balances, transactions, tx_order, version, node_id, treasury, fee_bps } = l;
        let ghost b0 = balances;
        let r1 = balances.transfer(treasury.as_str(), account, amount);
        match r1 {
            Err(e) => {
                *self = EconomyLedger { balances, transactions, tx_order, version, node_id, treasury, fee_bps };
                return Err(LedgerError::InsufficientBalance(e));
            },
            Ok(()) => {},
        }
        proof { lemma_moved(b0.accounts(), balances.accounts(), treasury@, account@, amount); }
        *self = EconomyLedger { balances, transactions, tx_order, version, node_id, treasury, fee_bps };
        let id = tx.id.clone();
        self.record_tx(tx);
        Ok(id)
    }

    /// Merge another ledger (a CRDT merge): balances merge, the other's
    /// unknown transactions are added, the replay order is re-sorted by
    /// timestamp, and the version vectors merge.
    pub fn merge(&mut self, other: &EconomyLedger)
        ensures
            all_fit(old(self).accounts()) && all_fit(other.accounts()) ==> forall|k: Seq<char>|
                #[trigger] final(self).accounts().contains_key(k) && !(old(self).accounts().contains_key(k)
                    && other.accounts().contains_key(k)) ==> final(self).accounts()[k].fits(),
            accounts_merged(old(self).accounts(), other.accounts(), final(self).accounts()),
            final(self).token_version() == vv_merge(old(self).token_version(), other.token_version()),
            final(self).token_node() == old(self).token_node(),
            final(self).transactions() == other.transactions().union_prefer_right(old(self).transactions()),
            time_sorted(final(self).transactions(), final(self).tx_order()),
            forall|x: Seq<char>| #[trigger] final(self).tx_order().to_multiset().count(x) == old(
                self,
            ).tx_order().to_multiset().count(x) + (if other.transactions().contains_key(x)
                && !old(self).transactions().contains_key(x) {
                1int
            } else {
                0int
            }),
            final(self).version() == vv_merge(old(self).version(), other.version()),
            final(self).node() == old(self).node(),
    {
        broadcast use vstd::seq_lib::group_to_multiset_ensures;

        proof { use_type_invariant(other); }
        let ghost pre = *self;
        let l = self.take();
        proof { use_type_invariant(&l); }
        let EconomyLedger { mut balances, mut transactions, tx_order, version, node_id, treasury, fee_bps } = l;
        balances.merge(&other.balances);
        let ghost base = transactions@;
        let ghost base_order = str_views(tx_order@);
        let ghost theirs = other.transactions;
        let mut order = tx_order;
        let n = other.transactions.len_raw();
        let mut i: usize = 0;
        proof { theirs.lemma_prefix_ends(); }
        while i < n
            invariant
                transactions.wf(),
                theirs.wf(),
                theirs == other.transactions,
                n == theirs.entries().len(),
                i <= n,
                forall|k: Seq<char>| #[trigger] transactions@.contains_key(k) <==> base.contains_key(k)
                    || theirs.prefix_view(i as int).contains_key(k),
                forall|k: Seq<char>| #[trigger] transactions@.contains_key(k) ==> transactions@[k]@ == (
                if base.contains_key(k) {
                    base[k]@
                } else {
                    theirs.prefix_view(i as int)[k]@
                }),
                forall|k: Seq<char>| base.contains_key(k) ==> #[trigger] transactions@[k] == base[k],
                forall|x: Seq<char>| #[trigger] str_views(order@).to_multiset().count(x) == base_order.to_multiset().count(
                    x,
                ) + (if theirs.prefix_view(i as int).contains_key(x) && !base.contains_key(x) {
                    1int
                } else {
                    0int
                }),
            decreases n - i,
        {
            proof { theirs.lemma_prefix_step(i as int); }
            let key = other.transactions.key_at(i);
            let ghost before = str_views(order@);
            if !transactions.contains_str(key.as_str()) {
                let tx = other.transactions.value_at(i).copy();
                transactions.push_new(key.clone(), tx);
                order.push(key.clone());
                proof {
                    assert(str_views(order@) =~= before.push(key@));
                    vstd::seq_lib::to_multiset_build(before, key@);
                }
            }
            i = i + 1;
        }
        let sorted = sort_by_time(&transactions, order);
        let merged = version.merge(&other.version);
        proof {
            let txs = transactions@;
            assert forall|j: int| 0 <= j < sorted@.len() implies txs.contains_key(#[trigger] sorted@[j]@) by {
                let x = sorted@[j]@;
                assert(str_views(sorted@)[j] == x);
                assert(str_views(sorted@).contains(x));
                assert(str_views(sorted@).to_multiset().count(x) > 0);
                if !(theirs.prefix_view(n as int).contains_key(x) && !base.contains_key(x)) {
                    assert(base_order.to_multiset().count(x) > 0);
                    assert(base_order.contains(x));
                    let q = choose|q: int| 0 <= q < base_order.len() && base_order[q] == x;
                    assert(pre.tx_order@[q]@ == x);
                }
            }
        }
        *self = EconomyLedger {
            balances,
            transactions,
            tx_order: sorted,
            version: merged,
            node_id,
            treasury,
            fee_bps,
        };
        proof {
            assert(self.transactions() =~= other.transactions().union_prefer_right(pre.transactions()));
            assert forall|a: int, b: int| 0 <= a < b < self.tx_order().len() implies tx_time(
                self.transactions(),
                #[trigger] self.tx_order()[a],
            ) <= tx_time(self.transactions(), #[trigger] self.tx_order()[b]) by {
                assert(self.tx_order()[a] == self.tx_order@[a]@);
                assert(self.tx_order()[b] == self.tx_order@[b]@);
            }
        }
    }

    fn tx_involves(&self, tx: &Transaction, account: &str) -> (b: bool)
        ensures
            b == (tx@.tx_type matches TxKind::Transfer { from, to, .. } && (from == account@ || to == account@)),
    {
        match &tx.tx_type {
            TransactionType::Transfer { from, to, .. } => str_eq(from.as_str(), account) || str_eq(
                to.as_str(),
                account,
            ),
            _ => false,
        }
    }

    /// The transactions concerning `account`, in replay order.
    pub fn account_history(&self, account: &str) -> (v: Vec<&Transaction>)
        ensures
            v@.len() == history(self.tx_order(), self.transactions(), account@).len(),
            forall|i: int| 0 <= i < v@.len() ==> (#[trigger] v@[i])@ == history(
                self.tx_order(),
                self.transactions(),
                account@,
            )[i],
    {
        proof { use_type_invariant(self); }
        let ghost order = self.tx_order();
        let ghost txs = self.transactions();
        let mut v: Vec<&Transaction> = Vec::new();
        let mut i: usize = 0;
        while i < self.tx_order.len()
            invariant
                self.transactions.wf(),
                order == self.tx_order(),
                txs == self.transactions(),
                i <= self.tx_order@.len(),
                v@.len() == history(order.subrange(0, i as int), txs, account@).len(),
                forall|j: int| 0 <= j < v@.len() ==> (#[trigger] v@[j])@ == history(
                    order.subrange(0, i as int),
                    txs,
                    account@,
                )[j],
            decreases self.tx_order@.len() - i,
        {
            proof {
                assert(order.subrange(0, i + 1).drop_last() =~= order.subrange(0, i as int));
                assert(order[i as int] == self.tx_order@[i as int]@);
            }
            match self.transactions.get_str(self.tx_order[i].as_str()) {
                Some(tx) => {
                    if str_eq(tx.initiator.as_str(), account) || self.tx_involves(tx, account) {
                        v.push(tx);
                    }
                },
                None => {},
            }
            i = i + 1;
        }
        proof { assert(order.subrange(0, order.len() as int) =~= order); }
        v
    }

    /// Ledger statistics.
    pub fn stats(&self) -> (s: LedgerStats)
        requires
            forall|k: Seq<char>| #[trigger] self.accounts().contains_key(k) ==> self.accounts()[k].fits(),
            i64::MIN <= total_balance(self.accounts()) <= i64::MAX,
        ensures
            s.total_accounts == self.accounts().dom().len(),
            s.total_transactions == self.transactions().dom().len(),
            s.total_supply == total_balance(self.accounts()),
            s.treasury_balance == balance_of(self.accounts(), self.treasury()),
    {
        LedgerStats {
            total_accounts: self.balances.account_count(),
            total_transactions: self.transaction_count(),
            total_supply: self.balances.total_supply(),
            treasury_balance: self.treasury_balance(),
        }
    }

    /// Look up a transaction by ID.
    pub fn get_transaction(&self, tx_id: &str) -> (r: Option<&Transaction>)
        ensures
            match r {
                Some(t) => self.transactions().contains_key(tx_id@) && t@ == self.transactions()[tx_id@],
                None => !self.transactions().contains_key(tx_id@),
            },
    {
        proof { use_type_invariant(self); }
        self.transactions.get_str(tx_id)
    }

    /// Number of distinct transactions recorded.
    pub fn transaction_count(&self) -> (n: usize)
        ensures
            n == self.transactions().dom().len(),
    {
        proof {
            use_type_invariant(self);
            self.lemma_views();
        }
        self.transactions.len()
    }
}

} // verus!
