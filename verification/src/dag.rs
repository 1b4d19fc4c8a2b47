//! The causal DAG of operations: dependency checks, conflict resolution,
//! the application state, snapshots and garbage collection.

use vstd::prelude::*;
use vstd::utf8::encode_utf8;
use crate::assoc::{StrMap, str_eq};
use crate::causal_op::CausalOp;
use crate::conflict::{ConflictPolicy, ConflictResolver, ConflictResolution, ResKind, kind_of, json_int};
use crate::json::{json_get, json_set, json_as_i64};
use crate::digest::{push_str_bytes, sha256_hex, sha256_hex_of};
use crate::json::{Json, JsonV};
use crate::order::{strictly_sorted, string_views, text_lt, str_lt, sorted_insert, strings_contain, sorted_set_insert, strings_remove};
use crate::snapshot::{Snapshot, SnapshotManager};
use crate::text::string_push_str;
use crate::version_vector::{VersionVector, vv_merge};

verus! {

/// Errors of DAG operations.
#[derive(Debug, Clone)]
pub enum DagError {
    MissingDependency(String),
    ConflictRejected { winner_id: String },
    ManualResolutionRequired { op_a: String, op_b: String },
    InvalidSignature,
    CausalityViolation,
}

/// The text of a DAG error.
pub open spec fn dag_error_text(e: DagError) -> Seq<char> {
    match e {
        DagError::MissingDependency(id) => "Missing dependency: "@ + id@,
        DagError::ConflictRejected { winner_id } => "Conflict resolved: "@ + winner_id@ + " won"@,
        DagError::ManualResolutionRequired { op_a, op_b } => "Manual resolution needed: "@ + op_a@ + " vs "@
            + op_b@,
        DagError::InvalidSignature => "Invalid operation signature"@,
        DagError::CausalityViolation => "Causality violation detected"@,
    }
}

impl DagError {
    /// The error's text.
    pub fn message(&self) -> (s: String)
        ensures
            s@ == dag_error_text(*self),
    {
        match self {
            DagError::MissingDependency(id) => {
                let mut s = String::from_str("Missing dependency: ");
                string_push_str(&mut s, id.as_str());
                s
            },
            DagError::ConflictRejected { winner_id } => {
                let mut s = String::from_str("Conflict resolved: ");
                string_push_str(&mut s, winner_id.as_str());
                string_push_str(&mut s, " won");
                s
            },
            DagError::ManualResolutionRequired { op_a, op_b } => {
                let mut s = String::from_str("Manual resolution needed: ");
                string_push_str(&mut s, op_a.as_str());
                string_push_str(&mut s, " vs ");
                string_push_str(&mut s, op_b.as_str());
                s
            },
            DagError::InvalidSignature => String::from_str("Invalid operation signature"),
            DagError::CausalityViolation => String::from_str("Causality violation detected"),
        }
    }
}

/// The IDs of a list of operations.
pub open spec fn op_ids(ops: Seq<CausalOp>) -> Seq<Seq<char>> {
    ops.map_values(|o: CausalOp| o.id@)
}

/// The dependencies of an operation, as text.
pub open spec fn deps_view(o: CausalOp) -> Seq<Seq<char>> {
    string_views(o.dependencies@)
}

/// The operations of `ops` with ID `id` have these dependencies (none when
/// there is no such operation).
pub open spec fn deps_of(ops: Seq<CausalOp>, id: Seq<char>) -> Seq<Seq<char>> {
    if exists|i: int| 0 <= i < ops.len() && ops[i].id@ == id {
        deps_view(ops[choose|i: int| 0 <= i < ops.len() && ops[i].id@ == id])
    } else {
        Seq::empty()
    }
}

/// The list under `k`, or the empty list.
pub open spec fn list_at(m: Map<Seq<char>, Seq<Seq<char>>>, k: Seq<char>) -> Seq<Seq<char>> {
    if m.contains_key(k) { m[k] } else { Seq::empty() }
}

/// Whether `d` is listed among the dependents of `x` in the index `m`.
pub open spec fn linked(m: Map<Seq<char>, Seq<Seq<char>>>, x: Seq<char>, d: Seq<char>) -> bool {
    list_at(m, x).contains(d)
}

/// How many of `deps` occur in `s` and list `d` as their dependent in `m`.
pub open spec fn count_in(deps: Seq<Seq<char>>, s: Seq<Seq<char>>, d: Seq<char>, m: Map<Seq<char>, Seq<Seq<char>>>) -> nat
    decreases deps.len(),
{
    if deps.len() == 0 {
        0
    } else {
        count_in(deps.drop_last(), s, d, m) + (if s.contains(deps.last()) && linked(m, deps.last(), d) {
            1nat
        } else {
            0nat
        })
    }
}

proof fn lemma_count_in(deps: Seq<Seq<char>>, s: Seq<Seq<char>>, d: Seq<char>, m: Map<Seq<char>, Seq<Seq<char>>>)
    ensures
        count_in(deps, s, d, m) <= deps.len(),
        count_in(deps, s, d, m) == deps.len() <==> forall|k: int| 0 <= k < deps.len() ==> s.contains(#[trigger] deps[k])
            && linked(m, deps[k], d),
    decreases deps.len(),
{
    if deps.len() > 0 {
        lemma_count_in(deps.drop_last(), s, d, m);
        let dl = deps.drop_last();
        if count_in(deps, s, d, m) == deps.len() {
            assert forall|k: int| 0 <= k < deps.len() implies s.contains(#[trigger] deps[k]) && linked(m, deps[k], d) by {
                if k < dl.len() {
                    assert(dl[k] == deps[k]);
                }
            }
        }
        if forall|k: int| 0 <= k < deps.len() ==> s.contains(#[trigger] deps[k]) && linked(m, deps[k], d) {
            assert forall|k: int| 0 <= k < dl.len() implies s.contains(#[trigger] dl[k]) && linked(m, dl[k], d) by {
                assert(dl[k] == deps[k]);
            }
            assert(s.contains(deps[deps.len() - 1]));
        }
    }
}

proof fn lemma_count_push(deps: Seq<Seq<char>>, s: Seq<Seq<char>>, x: Seq<char>, d: Seq<char>, m: Map<Seq<char>, Seq<Seq<char>>>)
    requires
        deps.no_duplicates(),
        !s.contains(x),
    ensures
        count_in(deps, s.push(x), d, m) == count_in(deps, s, d, m) + (if deps.contains(x) && linked(m, x, d) {
            1nat
        } else {
            0nat
        }),
    decreases deps.len(),
{
    if deps.len() > 0 {
        let dl = deps.drop_last();
        assert(dl.no_duplicates()) by {
            assert forall|a: int, b: int| 0 <= a < dl.len() && 0 <= b < dl.len() && a != b implies dl[a] != dl[b] by {
                assert(dl[a] == deps[a] && dl[b] == deps[b]);
            }
        }
        lemma_count_push(dl, s, x, d, m);
        assert forall|y: Seq<char>| s.push(x).contains(y) <==> s.contains(y) || y == x by {
            if s.push(x).contains(y) {
                let k = choose|k: int| 0 <= k < s.push(x).len() && s.push(x)[k] == y;
                if k < s.len() {
                    assert(s[k] == y);
                }
            }
            if s.contains(y) {
                let k = choose|k: int| 0 <= k < s.len() && s[k] == y;
                assert(s.push(x)[k] == y);
            }
            if y == x {
                assert(s.push(x)[s.len() as int] == y);
            }
        }
        if deps.last() == x {
            assert(!dl.contains(x)) by {
                if dl.contains(x) {
                    let k = choose|k: int| 0 <= k < dl.len() && dl[k] == x;
                    assert(deps[k] == deps[deps.len() - 1]);
                }
            }
            assert(deps.contains(x)) by {
                assert(deps[deps.len() - 1] == x);
            }
        } else {
            assert(deps.contains(x) <==> dl.contains(x)) by {
                if deps.contains(x) {
                    let k = choose|k: int| 0 <= k < deps.len() && deps[k] == x;
                    assert(k < dl.len());
                    assert(dl[k] == x);
                }
                if dl.contains(x) {
                    let k = choose|k: int| 0 <= k < dl.len() && dl[k] == x;
                    assert(deps[k] == x);
                }
            }
        }
    }
}

proof fn lemma_count_empty(deps: Seq<Seq<char>>, s: Seq<Seq<char>>, d: Seq<char>, m: Map<Seq<char>, Seq<Seq<char>>>)
    requires
        s.len() == 0,
    ensures
        count_in(deps, s, d, m) == 0,
    decreases deps.len(),
{
    if deps.len() > 0 {
        lemma_count_empty(deps.drop_last(), s, d, m);
    }
}

/// A strictly increasing list has no repeats.
proof fn lemma_sorted_distinct(s: Seq<Seq<char>>)
    requires
        strictly_sorted(s),
    ensures
        s.no_duplicates(),
{
    assert forall|a: int, b: int| 0 <= a < s.len() && 0 <= b < s.len() && a != b implies s[a] != s[b] by {
        crate::order::lemma_text_lt_order(s[a], s[b], s[a]);
    }
}

/// A list of distinct members of `p` is no longer than `p`.
proof fn lemma_distinct_subset_len(o: Seq<Seq<char>>, p: Seq<Seq<char>>)
    requires
        o.no_duplicates(),
        forall|k: int| 0 <= k < o.len() ==> p.contains(#[trigger] o[k]),
    ensures
        o.len() <= p.len(),
{
    assert forall|y: Seq<char>| o.to_set().contains(y) implies p.to_set().contains(y) by {}
    o.unique_seq_to_set();
    p.lemma_cardinality_of_set();
    vstd::set_lib::lemma_len_subset(o.to_set(), p.to_set());
}

/// `q` is a causal order of `ops` under the dependents index `m`: each
/// operation once, after all its dependencies, and every operation whose
/// dependencies are all in `q` and list it as a dependent in it.
pub open spec fn is_causal_order(ops: Seq<CausalOp>, m: Map<Seq<char>, Seq<Seq<char>>>, q: Seq<Seq<char>>) -> bool {
    &&& q.no_duplicates()
    &&& forall|k: int| 0 <= k < q.len() ==> op_ids(ops).contains(#[trigger] q[k])
    &&& forall|k: int, i: int, x: Seq<char>|
        #![trigger q[k], ops[i], deps_view(ops[i]).contains(x)]
        0 <= k < q.len() && 0 <= i < ops.len() && q[k] == ops[i].id@ && deps_view(ops[i]).contains(x)
            ==> exists|m: int| 0 <= m < k && q[m] == x
    &&& forall|i: int|
        0 <= i < ops.len() && (forall|k: int| 0 <= k < deps_view(ops[i]).len() ==> q.contains(
            #[trigger] deps_view(ops[i])[k],
        ) && linked(m, deps_view(ops[i])[k], ops[i].id@)) ==> q.contains(#[trigger] ops[i].id@)
}

/// The outcome of checking a new operation against the stored ones.
pub enum ScanOutcome {
    /// Accepted, with the merge results to apply, in order.
    Accept(Seq<JsonV>),
    /// Rejected: another operation won.
    Reject(Seq<char>),
    /// Rejected: the user must choose between these two.
    Manual(Seq<char>, Seq<char>),
}

/// The outcome of checking `op` against `es`, in order: the first
/// rejection stops the check.
pub open spec fn scan(r: ConflictResolver, op: CausalOp, es: Seq<CausalOp>) -> ScanOutcome
    decreases es.len(),
{
    if es.len() == 0 {
        ScanOutcome::Accept(Seq::empty())
    } else {
        match scan(r, op, es.drop_last()) {
            ScanOutcome::Accept(ms) => match r.resolution(op, es.last()) {
                ResKind::NoConflict => ScanOutcome::Accept(ms),
                ResKind::Winner(w) => if w == op.id@ {
                    ScanOutcome::Accept(ms)
                } else {
                    ScanOutcome::Reject(w)
                },
                ResKind::Manual => ScanOutcome::Manual(op.id@, es.last().id@),
                ResKind::Merged(v) => ScanOutcome::Accept(ms.push(v)),
            },
            other => other,
        }
    }
}

/// The first dependency that is not among `ids`.
pub open spec fn first_missing(deps: Seq<Seq<char>>, ids: Seq<Seq<char>>) -> Option<Seq<char>>
    decreases deps.len(),
{
    if deps.len() == 0 {
        None
    } else if !ids.contains(deps[0]) {
        Some(deps[0])
    } else {
        first_missing(deps.drop_first(), ids)
    }
}

/// `state` with the members `ms` set in order.
pub open spec fn set_all(state: JsonV, ms: Seq<(Seq<char>, JsonV)>) -> JsonV
    decreases ms.len(),
{
    if ms.len() == 0 {
        state
    } else {
        json_set(set_all(state, ms.drop_last()), ms.last().0, ms.last().1)
    }
}

/// `state` with the members of each object among `rs` set, in order.
pub open spec fn merged_into(state: JsonV, rs: Seq<JsonV>) -> JsonV
    decreases rs.len(),
{
    if rs.len() == 0 {
        state
    } else {
        let s1 = merged_into(state, rs.drop_last());
        match rs.last() {
            JsonV::Object(ms) => set_all(s1, ms),
            _ => s1,
        }
    }
}

/// The integer under `k` in the state, 0 when none.
pub open spec fn current_int(state: JsonV, k: Seq<char>) -> int {
    match json_get(state, k) {
        Some(v) => match json_as_i64(v) {
            Some(n) => n as int,
            None => 0,
        },
        None => 0,
    }
}

/// The increment an operation's input asks for: `value`, 1 when none.
pub open spec fn increment_delta(input: JsonV) -> int {
    match json_get(input, "value"@) {
        Some(v) => match json_as_i64(v) {
            Some(n) => n as int,
            None => 1,
        },
        None => 1,
    }
}

/// The state after applying an operation: `set` stores `value` under
/// `key`; `increment` adds `value` (1 by default) to the integer under
/// `key` (0 by default); other kinds leave the state alone.
pub open spec fn applied(state: JsonV, op: CausalOp) -> JsonV {
    if op.operation@ == "set"@ {
        match json_get(op.input@, "key"@) {
            Some(JsonV::Str(k)) => match json_get(op.input@, "value"@) {
                Some(v) => json_set(state, k, v),
                None => state,
            },
            _ => state,
        }
    } else if op.operation@ == "increment"@ {
        match json_get(op.input@, "key"@) {
            Some(JsonV::Str(k)) => json_set(state, k, json_int(current_int(state, k) + increment_delta(op.input@))),
            _ => state,
        }
    } else {
        state
    }
}

/// An `increment` adds to the integer under its key (0 when there is
/// none) the integer its input carries under `value`, and exactly 1 when
/// the input carries no integer `value`.
pub proof fn lemma_increment_adds(state: JsonV, op: CausalOp, k: Seq<char>)
    requires
        op.operation@ == "increment"@,
        json_get(op.input@, "key"@) == Some(JsonV::Str(k)),
    ensures
        json_get(op.input@, "value"@) is None && current_int(state, k) < i64::MAX ==> current_int(
            applied(state, op),
            k,
        ) == current_int(state, k) + 1,
        json_get(op.input@, "value"@) matches Some(v) && json_as_i64(v) is None && current_int(state, k)
            < i64::MAX ==> current_int(applied(state, op), k) == current_int(state, k) + 1,
        match json_get(op.input@, "value"@) {
            Some(v) => match json_as_i64(v) {
                Some(n) => i64::MIN <= current_int(state, k) + n <= i64::MAX ==> current_int(applied(state, op), k)
                    == current_int(state, k) + n,
                None => true,
            },
            None => true,
        },
{
    reveal_strlit("increment");
    reveal_strlit("set");
    assert("increment"@ != "set"@) by {
        assert("increment"@[0] != "set"@[0]);
    }
    let d = increment_delta(op.input@);
    let total = current_int(state, k) + d;
    crate::json::lemma_get_after_set(state, k, json_int(total));
}

/// Applying the operation stays within `i64` arithmetic.
pub open spec fn apply_fits(state: JsonV, op: CausalOp) -> bool {
    op.operation@ == "increment"@ ==> match json_get(op.input@, "key"@) {
        Some(JsonV::Str(k)) => i64::MIN <= current_int(state, k) + increment_delta(op.input@) <= i64::MAX,
        _ => true,
    }
}

/// Where an operation with ID `id` goes among operations in ID order.
pub open spec fn op_pos(ops: Seq<CausalOp>, id: Seq<char>, i: int) -> int
    decreases ops.len() - i,
{
    if i < 0 || i >= ops.len() {
        ops.len() as int
    } else if text_lt(ops[i].id@, id) {
        op_pos(ops, id, i + 1)
    } else {
        i
    }
}

/// The operations kept by garbage collection: all of them without a
/// threshold, otherwise those whose Lamport clock reaches it.
pub open spec fn kept(ops: Seq<CausalOp>, t: Option<u64>) -> Seq<CausalOp>
    decreases ops.len(),
{
    if ops.len() == 0 {
        ops
    } else {
        let rest = kept(ops.drop_last(), t);
        match t {
            Some(th) => if ops.last().lamport_clock < th { rest } else { rest.push(ops.last()) },
            None => rest.push(ops.last()),
        }
    }
}

/// The trimming threshold of a snapshot manager: the operation count of
/// the second most recent snapshot.
pub open spec fn threshold_of(m: SnapshotManager) -> Option<u64> {
    if m.snapshots().len() >= 2 {
        Some(m.snapshots()[m.snapshots().len() - 2].operation_count)
    } else {
        None
    }
}

/// The index with `id` added to the dependents of each of `deps`.
pub open spec fn dependents_with(m: Map<Seq<char>, Seq<Seq<char>>>, deps: Seq<Seq<char>>, id: Seq<char>) -> Map<
    Seq<char>,
    Seq<Seq<char>>,
>
    decreases deps.len(),
{
    if deps.len() == 0 {
        m
    } else {
        let m1 = dependents_with(m, deps.drop_last(), id);
        m1.insert(deps.last(), sorted_set_insert(list_at(m1, deps.last()), id))
    }
}

proof fn lemma_str_pos_bound(s: Seq<Seq<char>>, x: Seq<char>, i: int)
    requires
        0 <= i <= s.len(),
    ensures
        i <= crate::order::str_pos(s, x, i) <= s.len(),
    decreases s.len() - i,
{
    if i < s.len() && text_lt(s[i], x) {
        lemma_str_pos_bound(s, x, i + 1);
    }
}

/// Adding to a sorted set adds exactly that element.
pub proof fn lemma_set_insert_contains(l: Seq<Seq<char>>, x: Seq<char>, y: Seq<char>)
    ensures
        sorted_set_insert(l, x).contains(y) <==> l.contains(y) || y == x,
{
    lemma_str_pos_bound(l, x, 0);
    let p = crate::order::str_pos(l, x, 0);
    if p < l.len() && l[p] == x {
        if y == x {
            assert(l[p] == y);
        }
    } else {
        let r = l.insert(p, x);
        if r.contains(y) {
            let k = choose|k: int| 0 <= k < r.len() && r[k] == y;
            if k < p {
                assert(l[k] == y);
            } else if k > p {
                assert(l[k - 1] == y);
            }
        }
        if l.contains(y) {
            let k = choose|k: int| 0 <= k < l.len() && l[k] == y;
            if k < p {
                assert(r[k] == y);
            } else {
                assert(r[k + 1] == y);
            }
        }
        if y == x {
            assert(r[p] == y);
        }
    }
}

/// Indexing an operation under its dependencies adds exactly those links.
pub proof fn lemma_dependents_with(m: Map<Seq<char>, Seq<Seq<char>>>, deps: Seq<Seq<char>>, id: Seq<char>)
    ensures
        forall|x: Seq<char>, d: Seq<char>|
            #![trigger linked(dependents_with(m, deps, id), x, d)]
            linked(dependents_with(m, deps, id), x, d) <==> linked(m, x, d) || (deps.contains(x) && d == id),
        forall|x: Seq<char>| #[trigger] dependents_with(m, deps, id).contains_key(x) <==> m.contains_key(x) || deps.contains(x),
    decreases deps.len(),
{
    if deps.len() > 0 {
        let dl = deps.drop_last();
        lemma_dependents_with(m, dl, id);
        let m1 = dependents_with(m, dl, id);
        let z = deps.last();
        assert forall|x: Seq<char>| deps.contains(x) <==> dl.contains(x) || x == z by {
            if deps.contains(x) {
                let k = choose|k: int| 0 <= k < deps.len() && deps[k] == x;
                if k < dl.len() {
                    assert(dl[k] == x);
                }
            }
            if dl.contains(x) {
                let k = choose|k: int| 0 <= k < dl.len() && dl[k] == x;
                assert(deps[k] == x);
            }
            if x == z {
                assert(deps[deps.len() - 1] == x);
            }
        }
        assert forall|x: Seq<char>, d: Seq<char>|
            #![trigger linked(dependents_with(m, deps, id), x, d)]
            linked(dependents_with(m, deps, id), x, d) <==> linked(m, x, d) || (deps.contains(x) && d == id) by {
            if x == z {
                lemma_set_insert_contains(list_at(m1, z), id, d);
                assert(linked(m1, x, d) == list_at(m1, z).contains(d));
            } else {
                assert(list_at(dependents_with(m, deps, id), x) == list_at(m1, x));
                assert(linked(m1, x, d) <==> linked(m, x, d) || (dl.contains(x) && d == id));
            }
        }
    }
}

/// The operations garbage collection keeps are those of `ops` at or over
/// the threshold, in their order.
pub proof fn lemma_kept(ops: Seq<CausalOp>, t: Option<u64>)
    ensures
        forall|o: CausalOp| #[trigger] kept(ops, t).contains(o) <==> ops.contains(o) && match t {
            Some(th) => o.lamport_clock >= th,
            None => true,
        },
        strictly_sorted(op_ids(ops)) ==> strictly_sorted(op_ids(kept(ops, t))),
        kept(ops, t).len() <= ops.len(),
    decreases ops.len(),
{
    if ops.len() > 0 {
        let dl = ops.drop_last();
        lemma_kept(dl, t);
        let last = ops.last();
        assert forall|o: CausalOp| ops.contains(o) <==> dl.contains(o) || o == last by {
            if ops.contains(o) {
                let k = choose|k: int| 0 <= k < ops.len() && ops[k] == o;
                if k < dl.len() {
                    assert(dl[k] == o);
                }
            }
            if dl.contains(o) {
                let k = choose|k: int| 0 <= k < dl.len() && dl[k] == o;
                assert(ops[k] == o);
            }
            if o == last {
                assert(ops[ops.len() - 1] == o);
            }
        }
        let rest = kept(dl, t);
        assert forall|o: CausalOp| rest.push(last).contains(o) <==> rest.contains(o) || o == last by {
            if rest.push(last).contains(o) {
                let k = choose|k: int| 0 <= k < rest.push(last).len() && rest.push(last)[k] == o;
                if k < rest.len() {
                    assert(rest[k] == o);
                }
            }
            if rest.contains(o) {
                let k = choose|k: int| 0 <= k < rest.len() && rest[k] == o;
                assert(rest.push(last)[k] == o);
            }
            if o == last {
                assert(rest.push(last)[rest.len() as int] == o);
            }
        }
        assert forall|o: CausalOp| #[trigger] kept(ops, t).contains(o) <==> ops.contains(o) && match t {
            Some(th) => o.lamport_clock >= th,
            None => true,
        } by {
            let keep_last = match t {
                Some(th) => last.lamport_clock >= th,
                None => true,
            };
            assert(rest.contains(o) <==> dl.contains(o) && match t {
                Some(th) => o.lamport_clock >= th,
                None => true,
            });
            assert(ops.contains(o) <==> dl.contains(o) || o == last);
            if keep_last {
                assert(kept(ops, t) == rest.push(last));
                assert(rest.push(last).contains(o) <==> rest.contains(o) || o == last);
            } else {
                assert(kept(ops, t) == rest);
            }
        }
        if strictly_sorted(op_ids(ops)) {
            assert(strictly_sorted(op_ids(dl))) by {
                assert forall|a: int, b: int| 0 <= a < b < op_ids(dl).len() implies text_lt(
                    #[trigger] op_ids(dl)[a],
                    #[trigger] op_ids(dl)[b],
                ) by {
                    assert(op_ids(dl)[a] == op_ids(ops)[a] && op_ids(dl)[b] == op_ids(ops)[b]);
                }
            }
            let r2 = rest.push(last);
            assert forall|a: int, b: int| 0 <= a < b < op_ids(r2).len() implies text_lt(
                #[trigger] op_ids(r2)[a],
                #[trigger] op_ids(r2)[b],
            ) by {
                if b < rest.len() {
                    assert(op_ids(r2)[a] == op_ids(rest)[a] && op_ids(r2)[b] == op_ids(rest)[b]);
                } else {
                    assert(rest.contains(rest[a]));
                    assert(dl.contains(rest[a]));
                    let k = choose|k: int| 0 <= k < dl.len() && dl[k] == rest[a];
                    assert(op_ids(ops)[k] == rest[a].id@);
                    assert(op_ids(ops)[ops.len() - 1] == last.id@);
                }
            }
        }
    }
}

/// Garbage collection with threshold `t` removes the operation with ID
/// `y` from `ops`.
pub open spec fn is_removed(ops: Seq<CausalOp>, t: Option<u64>, y: Seq<char>) -> bool {
    exists|i: int| 0 <= i < ops.len() && ops[i].id@ == y && match t {
        Some(th) => ops[i].lamport_clock < th,
        None => false,
    }
}

proof fn lemma_kept_all(ops: Seq<CausalOp>)
    ensures
        kept(ops, None) == ops,
    decreases ops.len(),
{
    if ops.len() > 0 {
        lemma_kept_all(ops.drop_last());
        assert(ops.drop_last().push(ops.last()) =~= ops);
    }
}

proof fn lemma_filter_contains(s: Seq<Seq<char>>, p: spec_fn(Seq<char>) -> bool, y: Seq<char>)
    ensures
        s.filter(p).contains(y) <==> s.contains(y) && p(y),
    decreases s.len(),
{
    reveal(Seq::filter);
    if s.len() > 0 {
        lemma_filter_contains(s.drop_last(), p, y);
        let d = s.drop_last();
        assert(s.contains(y) <==> d.contains(y) || y == s.last()) by {
            if s.contains(y) {
                let k = choose|k: int| 0 <= k < s.len() && s[k] == y;
                if k < d.len() {
                    assert(d[k] == y);
                }
            }
            if d.contains(y) {
                let k = choose|k: int| 0 <= k < d.len() && d[k] == y;
                assert(s[k] == y);
            }
            if y == s.last() {
                assert(s[s.len() - 1] == y);
            }
        }
        let f = d.filter(p);
        if p(s.last()) {
            assert(f.push(s.last()).contains(y) <==> f.contains(y) || y == s.last()) by {
                if f.push(s.last()).contains(y) {
                    let k = choose|k: int| 0 <= k < f.push(s.last()).len() && f.push(s.last())[k] == y;
                    if k < f.len() {
                        assert(f[k] == y);
                    }
                }
                if f.contains(y) {
                    let k = choose|k: int| 0 <= k < f.len() && f[k] == y;
                    assert(f.push(s.last())[k] == y);
                }
                if y == s.last() {
                    assert(f.push(s.last())[f.len() as int] == y);
                }
            }
        }
    }
}

proof fn lemma_filter_sorted(s: Seq<Seq<char>>, p: spec_fn(Seq<char>) -> bool)
    requires
        strictly_sorted(s),
    ensures
        strictly_sorted(s.filter(p)),
    decreases s.len(),
{
    reveal(Seq::filter);
    if s.len() > 0 {
        let d = s.drop_last();
        assert(strictly_sorted(d)) by {
            assert forall|a: int, b: int| 0 <= a < b < d.len() implies text_lt(#[trigger] d[a], #[trigger] d[b]) by {
                assert(d[a] == s[a] && d[b] == s[b]);
            }
        }
        lemma_filter_sorted(d, p);
        let f = d.filter(p);
        if p(s.last()) {
            let g = f.push(s.last());
            assert forall|a: int, b: int| 0 <= a < b < g.len() implies text_lt(#[trigger] g[a], #[trigger] g[b]) by {
                if b < f.len() {
                    assert(g[a] == f[a] && g[b] == f[b]);
                } else {
                    assert(g[a] == f[a]);
                    lemma_filter_contains(d, p, f[a]);
                    assert(f.contains(f[a]));
                    let k = choose|k: int| 0 <= k < d.len() && d[k] == f[a];
                    assert(s[k] == f[a]);
                }
            }
        }
    }
}

/// Once the check stops with a rejection, checking more operations does
/// not change the outcome.
proof fn lemma_scan_stops(r: ConflictResolver, op: CausalOp, es: Seq<CausalOp>, i: int)
    requires
        0 <= i <= es.len(),
        !(scan(r, op, es.subrange(0, i)) is Accept),
    ensures
        scan(r, op, es) == scan(r, op, es.subrange(0, i)),
    decreases es.len() - i,
{
    if i < es.len() {
        assert(es.subrange(0, i + 1).drop_last() =~= es.subrange(0, i));
        lemma_scan_stops(r, op, es, i + 1);
    } else {
        assert(es.subrange(0, i) =~= es);
    }
}

/// The views of merge results.
pub open spec fn json_views(v: Seq<Json>) -> Seq<JsonV> {
    v.map_values(|j: Json| j@)
}

/// Inserting an operation with a new ID in its place keeps the IDs in
/// strictly increasing order.
proof fn lemma_insert_op_sorted(ops: Seq<CausalOp>, op: CausalOp)
    requires
        strictly_sorted(op_ids(ops)),
        !op_ids(ops).contains(op.id@),
    ensures
        0 <= op_pos(ops, op.id@, 0) <= ops.len(),
        strictly_sorted(op_ids(ops.insert(op_pos(ops, op.id@, 0), op))),
{
    lemma_op_pos(ops, op.id@, 0);
    let p = op_pos(ops, op.id@, 0);
    let r = ops.insert(p, op);
    let ids = op_ids(ops);
    let rid = op_ids(r);
    assert(rid =~= ids.insert(p, op.id@));
    if p < ops.len() {
        crate::order::lemma_text_lt_order(ids[p], op.id@, op.id@);
        assert(ids[p] != op.id@) by {
            assert(ids.contains(ids[p]));
        }
        assert(text_lt(op.id@, ids[p]));
    }
    assert forall|a: int, b: int| 0 <= a < b < rid.len() implies text_lt(#[trigger] rid[a], #[trigger] rid[b]) by {
        if b < p {
        } else if b == p {
        } else if a < p {
            assert(rid[b] == ids[b - 1]);
            crate::order::lemma_text_lt_order(ids[a], op.id@, ids[p]);
            if b - 1 > p {
                crate::order::lemma_text_lt_order(ids[a], ids[p], ids[b - 1]);
            }
        } else if a == p {
            assert(rid[b] == ids[b - 1]);
            if b - 1 > p {
                crate::order::lemma_text_lt_order(op.id@, ids[p], ids[b - 1]);
            }
        } else {
            assert(rid[a] == ids[a - 1] && rid[b] == ids[b - 1]);
        }
    }
}

proof fn lemma_op_pos(ops: Seq<CausalOp>, id: Seq<char>, i: int)
    requires
        0 <= i <= ops.len(),
        forall|k: int| 0 <= k < i ==> text_lt(#[trigger] ops[k].id@, id),
    ensures
        i <= op_pos(ops, id, i) <= ops.len(),
        forall|k: int| 0 <= k < op_pos(ops, id, i) ==> text_lt(#[trigger] ops[k].id@, id),
        op_pos(ops, id, i) < ops.len() ==> !text_lt(ops[op_pos(ops, id, i)].id@, id),
    decreases ops.len() - i,
{
    if i < ops.len() && text_lt(ops[i].id@, id) {
        lemma_op_pos(ops, id, i + 1);
    }
}

/// The bytes of the IDs, one after the other.
pub open spec fn ids_bytes(q: Seq<Seq<char>>) -> Seq<u8>
    decreases q.len(),
{
    if q.len() == 0 { Seq::empty() } else { ids_bytes(q.drop_last()) + encode_utf8(q.last()) }
}

/// Set every member of an object result into the state.
fn apply_merged_result(state: &mut Json, result: &Json)
    requires
        old(state)@ is Object,
    ensures
        final(state)@ is Object,
        final(state)@ == match result@ {
            JsonV::Object(ms) => set_all(old(state)@, ms),
            _ => old(state)@,
        },
{
    match result {
        Json::Object(m) => {
            let ghost s0 = state@;
            let ghost ms = crate::json::members_view(m@, m@.len() as int);
            proof { crate::json::lemma_members_view_pub(m@, m@.len() as int); }
            let mut i: usize = 0;
            while i < m.len()
                invariant
                    *result == Json::Object(*m),
                    ms == crate::json::members_view(m@, m@.len() as int),
                    ms.len() == m@.len(),
                    forall|k: int| 0 <= k < m@.len() ==> #[trigger] ms[k] == (m@[k].0@, m@[k].1@),
                    i <= m@.len(),
                    state@ is Object,
                    state@ == set_all(s0, ms.subrange(0, i as int)),
                decreases m@.len() - i,
            {
                proof { assert(ms.subrange(0, i + 1).drop_last() =~= ms.subrange(0, i as int)); }
                state.set_member(m[i].0.clone(), m[i].1.copy());
                i = i + 1;
            }
            proof { assert(ms.subrange(0, ms.len() as int) =~= ms); }
        },
        _ => {},
    }
}

/// Apply an operation to the state.
fn apply_operation(state: &mut Json, op: &CausalOp)
    requires
        old(state)@ is Object,
        apply_fits(old(state)@, *op),
    ensures
        final(state)@ is Object,
        final(state)@ == applied(old(state)@, *op),
{
    let kind = op.operation.as_str();
    if str_eq(kind, "set") {
        match op.input.get("key") {
            Some(k) => match k.as_str() {
                Some(key) => match op.input.get("value") {
                    Some(v) => {
                        state.set_member(String::from_str(key), v.copy());
                    },
                    None => {},
                },
                None => {},
            },
            None => {},
        }
    } else if str_eq(kind, "increment") {
        match op.input.get("key") {
            Some(k) => match k.as_str() {
                Some(key) => {
                    let delta: i64 = match op.input.get("value") {
                        Some(v) => match v.as_i64() {
                            Some(n) => n,
                            None => 1,
                        },
                        None => 1,
                    };
                    let current: i64 = match state.get(key) {
                        Some(v) => match v.as_i64() {
                            Some(n) => n,
                            None => 0,
                        },
                        None => 0,
                    };
                    let sum = current + delta;
                    let number = if sum >= 0 {
                        crate::json::JsonNumber::PosInt(sum as u64)
                    } else {
                        crate::json::JsonNumber::NegInt(sum)
                    };
                    state.set_member(String::from_str(key), Json::Number(number));
                },
                None => {},
            },
            None => {},
        }
    }
}

/// Causal DAG of operations with snapshot management and conflict
/// resolution.
pub struct CausalDAG {
    operations: Vec<CausalOp>,
    dependents: StrMap<Vec<String>>,
    roots: Vec<String>,
    snapshot_manager: SnapshotManager,
    conflict_resolver: ConflictResolver,
    node_id: String,
    version_vector: VersionVector,
    state: Json,
}

impl CausalDAG {
    #[verifier::type_invariant]
    closed spec fn inv(self) -> bool {
        &&& strictly_sorted(op_ids(self.operations@))
        &&& forall|i: int| 0 <= i < self.operations@.len() ==> strictly_sorted(
            #[trigger] deps_view(self.operations@[i]),
        )
        &&& strictly_sorted(string_views(self.roots@))
        &&& forall|y: Seq<char>| #[trigger] string_views(self.roots@).contains(y) <==> exists|i: int|
            0 <= i < self.operations@.len() && self.operations@[i].id@ == y && self.operations@[i].dependencies@.len()
                == 0
        &&& self.dependents.wf()
        &&& forall|k: Seq<char>| #[trigger] self.dependents@.contains_key(k) ==> strictly_sorted(
            string_views(self.dependents@[k]@),
        )
        &&& forall|x: Seq<char>, j: int|
            #![trigger string_views(self.dependents@[x]@).contains(self.operations@[j].id@)]
            0 <= j < self.operations@.len() && self.dependents@.contains_key(x) && string_views(
                self.dependents@[x]@,
            ).contains(self.operations@[j].id@) ==> deps_view(self.operations@[j]).contains(x)
        &&& self.state@ is Object
        &&& self.snapshot_manager.max_snapshots() > 0
    }

    /// The operations, in ID order.
    pub closed spec fn ops(self) -> Seq<CausalOp> {
        self.operations@
    }

    /// Operation ID → IDs of the operations that named it as a dependency.
    pub closed spec fn dependents(self) -> Map<Seq<char>, Seq<Seq<char>>> {
        self.dependents@.map_values(|v: Vec<String>| string_views(v@))
    }

    /// IDs of the operations without dependencies, in order.
    pub closed spec fn roots(self) -> Seq<Seq<char>> {
        string_views(self.roots@)
    }

    /// The snapshot manager.
    pub closed spec fn manager(self) -> SnapshotManager {
        self.snapshot_manager
    }

    /// The conflict resolver.
    pub closed spec fn resolver(self) -> ConflictResolver {
        self.conflict_resolver
    }

    /// This node's ID.
    pub closed spec fn node(self) -> Seq<char> {
        self.node_id@
    }

    /// The merged version vector of the operations inserted.
    pub closed spec fn version(self) -> Map<Seq<char>, u64> {
        self.version_vector@
    }

    /// The application state.
    pub closed spec fn state(self) -> JsonV {
        self.state@
    }

    /// `self` is `old` after accepting `op` with merge results `ms`.
    pub open spec fn inserted(self, old: Self, op: CausalOp, ms: Seq<JsonV>) -> bool {
        let ops1 = old.ops().insert(op_pos(old.ops(), op.id@, 0), op);
        let deps1 = dependents_with(old.dependents(), deps_view(op), op.id@);
        let roots1 = if op.dependencies@.len() == 0 { sorted_set_insert(old.roots(), op.id@) } else { old.roots() };
        let total1 = old.manager().total() + 1;
        let t = threshold_of(self.manager());
        &&& self.state() == applied(merged_into(old.state(), ms), op)
        &&& self.version() == vv_merge(old.version(), op.version_vector@)
        &&& self.manager().total() == total1
        &&& self.manager().interval() == old.manager().interval()
        &&& self.manager().max_snapshots() == old.manager().max_snapshots()
        &&& if total1 % (old.manager().interval() as int) == 0 {
            &&& self.manager().snapshots().len() > 0
            &&& self.manager().snapshots().last().operation_count == total1
            &&& self.manager().snapshots().last().state@ == self.state()
            &&& self.manager().snapshots().last().version_vector@ == self.version()
            &&& exists|q: Seq<Seq<char>>| is_causal_order(ops1, deps1, q)
                && self.manager().snapshots().last().merkle_root@ == sha256_hex_of(ids_bytes(q))
        } else {
            self.manager().snapshots() == old.manager().snapshots()
        }
        &&& self.ops() == kept(ops1, t)
        &&& forall|y: Seq<char>| #[trigger] self.roots().contains(y) <==> roots1.contains(y) && !is_removed(ops1, t, y)
        &&& self.dependents() == deps1.remove_keys(Set::new(|y: Seq<char>| is_removed(ops1, t, y)))
        &&& self.resolver() == old.resolver()
        &&& self.node() == old.node()
    }

    /// Whether every operation recorded as depending on `op`'s ID is one
    /// of `op`'s own dependencies: the index holds no link to `op`'s ID
    /// from anything `op` does not depend on (such links remain from an
    /// operation with the same ID that garbage collection trimmed).
    pub fn links_agree(&self, op: &CausalOp) -> (b: bool)
        ensures
            b == (forall|y: Seq<char>| linked(self.dependents(), y, op.id@) ==> deps_view(*op).contains(y)),
    {
        proof { use_type_invariant(self); }
        let n = self.dependents.len_raw();
        let mut i: usize = 0;
        while i < n
            invariant
                self.dependents.wf(),
                n == self.dependents.entries().len(),
                i <= n,
                forall|j: int| 0 <= j < i ==> string_views((#[trigger] self.dependents.entries()[j]).1@).contains(op.id@)
                    ==> deps_view(*op).contains(self.dependents.entries()[j].0@),
            decreases n - i,
        {
            let key = self.dependents.key_at(i);
            if strings_contain(self.dependents.value_at(i), op.id.as_str()) && !strings_contain(
                &op.dependencies,
                key.as_str(),
            ) {
                proof {
                    self.dependents.lemma_entry_in_view(i as int);
                    assert(self.dependents().contains_key(key@));
                    assert(self.dependents()[key@] == string_views(self.dependents.entries()[i as int].1@));
                    assert(list_at(self.dependents(), key@).contains(op.id@));
                    assert(linked(self.dependents(), key@, op.id@));
                    assert(!deps_view(*op).contains(key@));
                }
                return false;
            }
            i = i + 1;
        }
        proof {
            assert forall|y: Seq<char>| linked(self.dependents(), y, op.id@) implies deps_view(*op).contains(y) by {
                if self.dependents@.contains_key(y) {
                    let j = self.dependents.lemma_key_in_entries(y);
                }
            }
        }
        true
    }

    /// Whether an operation with this ID is stored.
    pub open spec fn has_op(self, id: Seq<char>) -> bool {
        op_ids(self.ops()).contains(id)
    }

    /// A DAG with no operations, an empty object as state, snapshots every
    /// `snapshot_interval` operations (the last 100 kept) and the given
    /// default conflict policy.
    pub fn new(node_id: String, snapshot_interval: usize, conflict_policy: ConflictPolicy) -> (d: Self)
        ensures
            d.ops().len() == 0,
            d.roots().len() == 0,
            d.dependents() == Map::<Seq<char>, Seq<Seq<char>>>::empty(),
            d.manager().snapshots().len() == 0,
            d.manager().max_snapshots() == 100,
            d.manager().interval() == snapshot_interval,
            d.manager().total() == 0,
            d.resolver().default_policy() == conflict_policy,
            d.resolver().operation_policies() == Map::<Seq<char>, ConflictPolicy>::empty(),
            d.resolver().node_priorities() == Map::<Seq<char>, u8>::empty(),
            d.node() == node_id@,
            d.version() == Map::<Seq<char>, u64>::empty(),
            d.state() == JsonV::Object(Seq::empty()),
    {
        let state = Json::Object(Vec::new());
        proof {
            crate::json::lemma_members_view_pub(Seq::<(String, Json)>::empty(), 0);
        }
        let d = CausalDAG {
            operations: Vec::new(),
            dependents: StrMap::new(),
            roots: Vec::new(),
            snapshot_manager: SnapshotManager::new(100, snapshot_interval),
            conflict_resolver: ConflictResolver::new(conflict_policy),
            node_id,
            version_vector: VersionVector::new(),
            state,
        };
        assert(d.dependents() =~= Map::<Seq<char>, Seq<Seq<char>>>::empty());
        assert(d.state@ =~= JsonV::Object(Seq::empty()));
        d
    }

    fn find_op(&self, id: &str) -> (r: Option<usize>)
        ensures
            match r {
                Some(i) => i < self.ops().len() && self.ops()[i as int].id@ == id@ && self.has_op(id@),
                None => !self.has_op(id@),
            },
    {
        let mut i: usize = 0;
        while i < self.operations.len()
            invariant
                i <= self.operations@.len(),
                forall|j: int| 0 <= j < i ==> self.operations@[j].id@ != id@,
            decreases self.operations@.len() - i,
        {
            if str_eq(self.operations[i].id.as_str(), id) {
                proof { assert(op_ids(self.ops())[i as int] == id@); }
                return Some(i);
            }
            i = i + 1;
        }
        proof {
            if op_ids(self.ops()).contains(id@) {
                let j = choose|j: int| 0 <= j < op_ids(self.ops()).len() && op_ids(self.ops())[j] == id@;
                assert(self.operations@[j].id@ == id@);
            }
        }
        None
    }

    /// The operation with an ID.
    pub fn get_operation(&self, id: &str) -> (r: Option<&CausalOp>)
        ensures
            match r {
                Some(o) => self.has_op(id@) && o.id@ == id@ && self.ops().contains(*o),
                None => !self.has_op(id@),
            },
    {
        match self.find_op(id) {
            Some(i) => {
                proof { assert(op_ids(self.ops())[i as int] == id@); }
                Some(&self.operations[i])
            },
            None => None,
        }
    }

    /// The operations with a Lamport clock above `after_lamport`, in ID
    /// order.
    pub fn get_operations_after(&self, after_lamport: u64) -> (v: Vec<&CausalOp>)
        ensures
            v@.map_values(|o: &CausalOp| *o) == self.ops().filter(|o: CausalOp| o.lamport_clock > after_lamport),
    {
        let ghost ops = self.ops();
        let mut v: Vec<&CausalOp> = Vec::new();
        let mut i: usize = 0;
        while i < self.operations.len()
            invariant
                ops == self.ops(),
                i <= ops.len(),
                v@.map_values(|o: &CausalOp| *o) == ops.subrange(0, i as int).filter(
                    |o: CausalOp| o.lamport_clock > after_lamport,
                ),
            decreases ops.len() - i,
        {
            proof {
                reveal(Seq::filter);
                assert(ops.subrange(0, i + 1).drop_last() =~= ops.subrange(0, i as int));
            }
            let o = &self.operations[i];
            if o.lamport_clock > after_lamport {
                v.push(o);
            }
            assert(v@.map_values(|o: &CausalOp| *o) =~= ops.subrange(0, i + 1).filter(
                |o: CausalOp| o.lamport_clock > after_lamport,
            ));
            i = i + 1;
        }
        assert(ops.subrange(0, ops.len() as int) =~= ops);
        v
    }

    /// The number of stored operations.
    pub fn operation_count(&self) -> (n: usize)
        ensures
            n == self.ops().len(),
    {
        self.operations.len()
    }

    /// The application state.
    pub fn get_state(&self) -> (s: &Json)
        ensures
            s@ == self.state(),
    {
        &self.state
    }

    /// This node's ID.
    pub fn node_id(&self) -> (s: &str)
        ensures
            s@ == self.node(),
    {
        self.node_id.as_str()
    }

    /// The merged version vector.
    pub fn get_version_vector(&self) -> (v: &VersionVector)
        ensures
            v@ == self.version(),
    {
        &self.version_vector
    }

    /// The latest snapshot.
    pub fn get_latest_snapshot(&self) -> (s: Option<&Snapshot>)
        ensures
            s == (if self.manager().snapshots().len() > 0 {
                Some(&self.manager().snapshots()[self.manager().snapshots().len() - 1])
            } else {
                None::<&Snapshot>
            }),
    {
        self.snapshot_manager.get_latest()
    }

    /// The IDs of the kept snapshots, oldest first, for sync negotiation.
    pub fn get_snapshot_ids(&self) -> (v: Vec<String>)
        ensures
            v@.map_values(|s: String| s@) == self.manager().snapshots().map_values(|x: Snapshot| x.id@),
    {
        self.snapshot_manager.get_snapshot_ids()
    }

    /// The most recent kept snapshot that the peer also has.
    pub fn find_common_snapshot(&self, peer_ids: &[String]) -> (s: Option<&Snapshot>)
        ensures
            match s {
                Some(x) => exists|i: int| 0 <= i < self.manager().snapshots().len() && self.manager().snapshots()[i] == *x
                    && peer_ids@.map_values(|p: String| p@).contains(x.id@) && forall|j: int| i < j
                    < self.manager().snapshots().len() ==> !peer_ids@.map_values(|p: String| p@).contains(
                    self.manager().snapshots()[j].id@,
                ),
                None => forall|j: int| 0 <= j < self.manager().snapshots().len() ==> !peer_ids@.map_values(
                    |p: String| p@,
                ).contains(self.manager().snapshots()[j].id@),
            },
    {
        self.snapshot_manager.find_common_snapshot(peer_ids)
    }

    /// The operations in causal order: from the roots, each operation as
    /// soon as its last dependency is placed (first in, first out; roots
    /// and dependents in increasing ID order).
    pub fn causal_order(&self) -> (order: Vec<String>)
        ensures
            is_causal_order(self.ops(), self.dependents(), string_views(order@)),
    {
        proof {
            use_type_invariant(self);
            lemma_sorted_distinct(op_ids(self.ops()));
        }
        let ghost ops = self.ops();
        let ghost ids = op_ids(ops);
        let ghost mm = self.dependents();
        let n = self.operations.len();
        // In-degrees: the number of dependencies not yet placed.
        let mut deg: StrMap<usize> = StrMap::new();
        let mut i: usize = 0;
        while i < n
            invariant
                ops == self.ops(),
                ids == op_ids(ops),
                ids.no_duplicates(),
                n == ops.len(),
                i <= n,
                deg.wf(),
                deg@.dom() == ids.subrange(0, i as int).to_set(),
                forall|j: int| 0 <= j < i ==> deg@[#[trigger] ids[j]] == deps_view(ops[j]).len(),
            decreases n - i,
        {
            proof {
                assert(!deg@.contains_key(ids[i as int])) by {
                    if ids.subrange(0, i as int).contains(ids[i as int]) {
                        let k = choose|k: int| 0 <= k < i && ids.subrange(0, i as int)[k] == ids[i as int];
                        assert(ids[k] == ids[i as int]);
                    }
                }
                ids.subrange(0, i as int).lemma_push_to_set_commute(ids[i as int]);
                assert(ids.subrange(0, i + 1) =~= ids.subrange(0, i as int).push(ids[i as int]));
            }
            deg.push_new(self.operations[i].id.clone(), self.operations[i].dependencies.len());
            i = i + 1;
        }
        proof { assert(ids.subrange(0, n as int) =~= ids); }
        let mut queue: Vec<String> = Vec::new();
        let mut r: usize = 0;
        while r < self.roots.len()
            invariant
                r <= self.roots@.len(),
                queue@.len() == r,
                string_views(queue@) == string_views(self.roots@).subrange(0, r as int),
            decreases self.roots@.len() - r,
        {
            let ghost before = string_views(queue@);
            queue.push(self.roots[r].clone());
            assert(string_views(queue@) =~= before.push(string_views(self.roots@)[r as int]));
            assert(string_views(queue@) =~= string_views(self.roots@).subrange(0, r + 1));
            r = r + 1;
        }
        proof {
            assert(string_views(self.roots@).subrange(0, self.roots@.len() as int) =~= string_views(self.roots@));
            lemma_sorted_distinct(string_views(self.roots@));
            let q = string_views(queue@);
            assert forall|j: int| 0 <= j < n implies (q.contains(#[trigger] ids[j]) <==> deg@[ids[j]] == 0) by {
                assert(ids[j] == ops[j].id@);
                if q.contains(ids[j]) {
                    assert(string_views(self.roots@).contains(ids[j]));
                    let k = choose|k: int| 0 <= k < ops.len() && ops[k].id@ == ids[j] && ops[k].dependencies@.len() == 0;
                    assert(ids[k] == ids[j]);
                }
                if deg@[ids[j]] == 0 {
                    assert(string_views(self.roots@).contains(ids[j]));
                }
            }
            assert forall|k: int| 0 <= k < q.len() implies ids.contains(#[trigger] q[k]) by {
                assert(string_views(self.roots@).contains(q[k]));
                let m = choose|m: int| 0 <= m < ops.len() && ops[m].id@ == q[k] && ops[m].dependencies@.len() == 0;
                assert(ids[m] == q[k]);
            }
            assert forall|k: int, j: int, x: Seq<char>|
                0 <= k < q.len() && 0 <= j < ops.len() && q[k] == ops[j].id@ && deps_view(ops[j]).contains(x)
                implies exists|m: int| 0 <= m < k && q[m] == x by {
                assert(string_views(self.roots@).contains(q[k]));
                let m = choose|m: int| 0 <= m < ops.len() && ops[m].id@ == q[k] && ops[m].dependencies@.len() == 0;
                assert(ids[m] == ids[j]);
            }
            assert forall|j: int| 0 <= j < n implies deg@[#[trigger] ids[j]] == deps_view(ops[j]).len() - count_in(
                deps_view(ops[j]),
                q.subrange(0, 0),
                ids[j],
                mm,
            ) by {
                lemma_count_empty(deps_view(ops[j]), q.subrange(0, 0), ids[j], mm);
            }
        }
        let mut head: usize = 0;
        while head < queue.len()
            invariant
                self.inv(),
                ops == self.ops(),
                mm == self.dependents(),
                ids == op_ids(ops),
                ids.no_duplicates(),
                n == ops.len(),
                deg.wf(),
                deg@.dom() == ids.to_set(),
                head <= queue@.len(),
                string_views(queue@).no_duplicates(),
                forall|k: int| 0 <= k < queue@.len() ==> ids.contains(#[trigger] string_views(queue@)[k]),
                forall|j: int| 0 <= j < n ==> deg@[#[trigger] ids[j]] == deps_view(ops[j]).len() - count_in(
                    deps_view(ops[j]),
                    string_views(queue@).subrange(0, head as int),
                    ids[j],
                    mm,
                ),
                forall|j: int| 0 <= j < n ==> (string_views(queue@).contains(#[trigger] ids[j]) <==> deg@[ids[j]] == 0),
                forall|k: int, j: int, x: Seq<char>|
                    #![trigger string_views(queue@)[k], ops[j], deps_view(ops[j]).contains(x)]
                    0 <= k < queue@.len() && 0 <= j < ops.len() && string_views(queue@)[k] == ops[j].id@
                        && deps_view(ops[j]).contains(x) ==> exists|m: int| 0 <= m < k && string_views(queue@)[m] == x
                        && m < head + (queue@.len() - head),
            decreases n - head,
        {
            proof {
                lemma_distinct_subset_len(string_views(queue@), ids);
            }
            let x = queue[head].clone();
            head = head + 1;
            let ghost q0 = string_views(queue@);
            let ghost s_old = q0.subrange(0, head - 1);
            let ghost s_new = q0.subrange(0, head as int);
            proof {
                assert(s_new =~= s_old.push(x@));
                assert(!s_old.contains(x@)) by {
                    if s_old.contains(x@) {
                        let k = choose|k: int| 0 <= k < s_old.len() && s_old[k] == x@;
                        assert(q0[k] == q0[head - 1]);
                    }
                }
                assert(ids.contains(x@)) by {
                    assert(q0[head - 1] == x@);
                }
            }
            match self.dependents.get_str(x.as_str()) {
                Some(list) => {
                    let ghost l = string_views(list@);
                    proof {
                        lemma_sorted_distinct(l);
                        assert forall|i2: int| 0 <= i2 < n implies deg@[#[trigger] ids[i2]] == deps_view(ops[i2]).len()
                            - count_in(
                            deps_view(ops[i2]),
                            if !l.contains(ids[i2]) || l.subrange(0, 0).contains(ids[i2]) {
                                s_new
                            } else {
                                s_old
                            },
                            ids[i2],
                            mm,
                        ) by {
                            lemma_sorted_distinct(deps_view(ops[i2]));
                            lemma_count_push(deps_view(ops[i2]), s_old, x@, ids[i2], mm);
                            assert(list_at(mm, x@) == l);
                        }
                    }
                    let mut j: usize = 0;
                    while j < list.len()
                        invariant
                            self.inv(),
                            ops == self.ops(),
                            mm == self.dependents(),
                            ids == op_ids(ops),
                            ids.no_duplicates(),
                            n == ops.len(),
                            deg.wf(),
                            deg@.dom() == ids.to_set(),
                            l == string_views(list@),
                            l.no_duplicates(),
                            self.dependents@.contains_key(x@),
                            *list == self.dependents@[x@],
                            1 <= head <= q0.len(),
                            j <= l.len(),
                            s_new == q0.subrange(0, head as int),
                            s_old == q0.subrange(0, head - 1),
                            s_new == s_old.push(x@),
                            !s_old.contains(x@),
                            string_views(queue@).subrange(0, q0.len() as int) == q0,
                            q0.len() <= queue@.len(),
                            string_views(queue@).no_duplicates(),
                            forall|k: int| 0 <= k < queue@.len() ==> ids.contains(#[trigger] string_views(queue@)[k]),
                            forall|i2: int| 0 <= i2 < n ==> deg@[#[trigger] ids[i2]] == deps_view(ops[i2]).len()
                                - count_in(
                                deps_view(ops[i2]),
                                if !l.contains(ids[i2]) || l.subrange(0, j as int).contains(ids[i2]) {
                                    s_new
                                } else {
                                    s_old
                                },
                                ids[i2],
                                mm,
                            ),
                            forall|i2: int| 0 <= i2 < n ==> (string_views(queue@).contains(#[trigger] ids[i2])
                                <==> deg@[ids[i2]] == 0),
                            forall|k: int, i2: int, y: Seq<char>|
                                #![trigger string_views(queue@)[k], ops[i2], deps_view(ops[i2]).contains(y)]
                                0 <= k < queue@.len() && 0 <= i2 < ops.len() && string_views(queue@)[k] == ops[i2].id@
                                    && deps_view(ops[i2]).contains(y) ==> exists|m: int| 0 <= m < k && string_views(
                                    queue@,
                                )[m] == y && m < head + (queue@.len() - head),
                        decreases l.len() - j,
                    {
                        let d = &list[j];
                        let ghost dv = d@;
                        let ghost lj = l.subrange(0, j as int);
                        let ghost lj1 = l.subrange(0, j + 1);
                        proof {
                            assert(lj1 =~= lj.push(dv));
                            assert forall|y: Seq<char>| lj1.contains(y) <==> lj.contains(y) || y == dv by {
                                if lj1.contains(y) {
                                    let k = choose|k: int| 0 <= k < lj1.len() && lj1[k] == y;
                                    if k < j {
                                        assert(lj[k] == y);
                                    }
                                }
                                if lj.contains(y) {
                                    let k = choose|k: int| 0 <= k < lj.len() && lj[k] == y;
                                    assert(lj1[k] == y);
                                }
                                if y == dv {
                                    assert(lj1[j as int] == y);
                                }
                            }
                        }
                        match deg.find_str(d.as_str()) {
                            Some(p) => {
                                proof {
                                    deg.lemma_entry_in_view(p as int);
                                }
                                let v = *deg.value_at(p);
                                let ghost i2 = choose|i2: int| 0 <= i2 < ids.len() && ids[i2] == dv;
                                proof {
                                    assert(deg@.contains_key(dv));
                                    assert(ids.to_set().contains(dv));
                                    assert(ops[i2].id@ == dv);
                                    assert(string_views(self.dependents@[x@]@).contains(ops[i2].id@)) by {
                                        assert(l[j as int] == dv);
                                    }
                                    assert(deps_view(ops[i2]).contains(x@));
                                    assert(!lj.contains(dv)) by {
                                        if lj.contains(dv) {
                                            let k = choose|k: int| 0 <= k < j && lj[k] == dv;
                                            assert(l[k] == l[j as int]);
                                        }
                                    }
                                    lemma_sorted_distinct(deps_view(ops[i2]));
                                    lemma_count_push(deps_view(ops[i2]), s_old, x@, dv, mm);
                                    lemma_count_in(deps_view(ops[i2]), s_new, dv, mm);
                                    assert(list_at(mm, x@) == l);
                                    assert(l.contains(dv)) by {
                                        assert(l[j as int] == dv);
                                    }
                                    assert(v == deps_view(ops[i2]).len() - count_in(deps_view(ops[i2]), s_old, dv, mm));
                                    assert(v >= 1);
                                }
                                let ghost before_deg = deg@;
                                let ghost before_q = string_views(queue@);
                                let ghost old_deg_map = deg;
                                *deg.value_at_mut(p) = v - 1;
                                proof {
                                    StrMap::lemma_value_updated(old_deg_map, deg, p as int, (v - 1) as usize);
                                    assert(deg@ == before_deg.insert(dv, (v - 1) as usize));
                                    assert(before_q.contains(dv) <==> v == 0);
                                }
                                if v - 1 == 0 {
                                    queue.push(d.clone());
                                    proof {
                                        assert(string_views(queue@) =~= before_q.push(dv));
                                        lemma_count_in(deps_view(ops[i2]), s_new, dv, mm);
                                        assert forall|y: Seq<char>| string_views(queue@).contains(y) <==> before_q.contains(y)
                                            || y == dv by {
                                            let nq = string_views(queue@);
                                            if nq.contains(y) {
                                                let k = choose|k: int| 0 <= k < nq.len() && nq[k] == y;
                                                if k < before_q.len() {
                                                    assert(before_q[k] == y);
                                                }
                                            }
                                            if before_q.contains(y) {
                                                let k = choose|k: int| 0 <= k < before_q.len() && before_q[k] == y;
                                                assert(nq[k] == y);
                                            }
                                            if y == dv {
                                                assert(nq[before_q.len() as int] == y);
                                            }
                                        }
                                        let nq = string_views(queue@);
                                        assert forall|a: int, b: int| 0 <= a < nq.len() && 0 <= b < nq.len() && a != b
                                            implies nq[a] != nq[b] by {
                                            if a < before_q.len() && b < before_q.len() {
                                                assert(nq[a] == before_q[a] && nq[b] == before_q[b]);
                                            } else if a < before_q.len() {
                                                assert(nq[a] == before_q[a]);
                                                assert(before_q.contains(nq[a]));
                                            } else if b < before_q.len() {
                                                assert(nq[b] == before_q[b]);
                                                assert(before_q.contains(nq[b]));
                                            }
                                        }
                                        assert forall|k: int| 0 <= k < nq.len() implies ids.contains(#[trigger] nq[k]) by {
                                            if k < before_q.len() {
                                                assert(nq[k] == before_q[k]);
                                            } else {
                                                assert(ids[i2] == nq[k]);
                                            }
                                        }
                                        assert forall|k: int, i3: int, y: Seq<char>|
                                            #![trigger nq[k], ops[i3], deps_view(ops[i3]).contains(y)]
                                            0 <= k < nq.len() && 0 <= i3 < ops.len() && nq[k] == ops[i3].id@
                                                && deps_view(ops[i3]).contains(y) implies exists|m: int| 0 <= m < k
                                            && nq[m] == y && m < head + (nq.len() - head) by {
                                            if k < before_q.len() {
                                                assert(nq[k] == before_q[k]);
                                                assert(before_q[k] == ops[i3].id@);
                                                let m = choose|m: int| 0 <= m < k && before_q[m] == y && m < head + (
                                                before_q.len() - head);
                                                assert(nq[m] == y);
                                            } else {
                                                assert(ids[i3] == ids[i2]);
                                                assert(i3 == i2);
                                                let dd = deps_view(ops[i2]);
                                                let q = choose|q: int| 0 <= q < dd.len() && dd[q] == y;
                                                assert(s_new.contains(dd[q]));
                                                let m = choose|m: int| 0 <= m < s_new.len() && s_new[m] == y;
                                                assert(q0[m] == y);
                                                assert(before_q.subrange(0, q0.len() as int) == q0);
                                                assert(before_q[m] == y);
                                                assert(nq[m] == y);
                                            }
                                        }
                                    }
                                }
                                proof {
                                    let nq = string_views(queue@);
                                    assert forall|i3: int| 0 <= i3 < n implies deg@[#[trigger] ids[i3]] == deps_view(
                                        ops[i3],
                                    ).len() - count_in(
                                        deps_view(ops[i3]),
                                        if !l.contains(ids[i3]) || lj1.contains(ids[i3]) {
                                            s_new
                                        } else {
                                            s_old
                                        },
                                        ids[i3],
                                        mm,
                                    ) by {
                                        if ids[i3] == dv {
                                            assert(i3 == i2);
                                        } else {
                                            assert(deg@[ids[i3]] == before_deg[ids[i3]]);
                                        }
                                    }
                                    assert forall|i3: int| 0 <= i3 < n implies (nq.contains(#[trigger] ids[i3])
                                        <==> deg@[ids[i3]] == 0) by {
                                        if ids[i3] == dv {
                                            assert(i3 == i2);
                                        } else {
                                            assert(deg@[ids[i3]] == before_deg[ids[i3]]);
                                        }
                                    }
                                    assert(nq.subrange(0, q0.len() as int) == q0);
                                }
                            },
                            None => {
                                proof {
                                    assert(!ids.contains(dv)) by {
                                        if ids.contains(dv) {
                                            let k = choose|k: int| 0 <= k < ids.len() && ids[k] == dv;
                                            assert(ids.to_set().contains(dv));
                                        }
                                    }
                                    assert forall|i3: int| 0 <= i3 < n implies deg@[#[trigger] ids[i3]] == deps_view(
                                        ops[i3],
                                    ).len() - count_in(
                                        deps_view(ops[i3]),
                                        if !l.contains(ids[i3]) || lj1.contains(ids[i3]) {
                                            s_new
                                        } else {
                                            s_old
                                        },
                                        ids[i3],
                                        mm,
                                    ) by {
                                        assert(ids[i3] != dv);
                                    }
                                }
                            },
                        }
                        j = j + 1;
                    }
                    proof {
                        assert(l.subrange(0, l.len() as int) =~= l);
                        assert forall|i2: int| 0 <= i2 < n implies deg@[#[trigger] ids[i2]] == deps_view(ops[i2]).len()
                            - count_in(deps_view(ops[i2]), s_new, ids[i2], mm) by {}
                    }
                },
                None => {
                    proof {
                        assert forall|i2: int| 0 <= i2 < n implies deg@[#[trigger] ids[i2]] == deps_view(ops[i2]).len()
                            - count_in(deps_view(ops[i2]), s_new, ids[i2], mm) by {
                            lemma_sorted_distinct(deps_view(ops[i2]));
                            lemma_count_push(deps_view(ops[i2]), s_old, x@, ids[i2], mm);
                            assert(!mm.contains_key(x@));
                        }
                    }
                },
            }
            proof {
                let nq = string_views(queue@);
                assert(nq.subrange(0, head as int) =~= q0.subrange(0, head as int)) by {
                    assert(nq.subrange(0, q0.len() as int) == q0);
                    assert forall|k: int| 0 <= k < head implies nq[k] == q0[k] by {
                        assert(nq.subrange(0, q0.len() as int)[k] == nq[k]);
                    }
                }
            }
        }
        proof {
            let q = string_views(queue@);
            assert(q.subrange(0, head as int) =~= q);
            assert forall|i2: int|
                0 <= i2 < ops.len() && (forall|k: int| 0 <= k < deps_view(ops[i2]).len() ==> q.contains(
                    #[trigger] deps_view(ops[i2])[k],
                ) && linked(mm, deps_view(ops[i2])[k], ops[i2].id@)) implies q.contains(#[trigger] ops[i2].id@) by {
                lemma_count_in(deps_view(ops[i2]), q, ids[i2], mm);
                assert(ids[i2] == ops[i2].id@);
            }
            assert forall|k: int, i2: int, y: Seq<char>|
                #![trigger q[k], ops[i2], deps_view(ops[i2]).contains(y)]
                0 <= k < q.len() && 0 <= i2 < ops.len() && q[k] == ops[i2].id@ && deps_view(ops[i2]).contains(y)
                implies exists|m: int| 0 <= m < k && q[m] == y by {
                let m = choose|m: int| 0 <= m < k && q[m] == y && m < head + (q.len() - head);
            }
        }
        queue
    }

    /// The hex SHA-256 of the IDs in causal order, one after the other.
    pub fn compute_merkle_root(&self) -> (r: String)
        ensures
            exists|q: Seq<Seq<char>>| is_causal_order(self.ops(), self.dependents(), q) && r@ == sha256_hex_of(
                ids_bytes(q),
            ),
    {
        let order = self.causal_order();
        let ghost q = string_views(order@);
        let mut bytes: Vec<u8> = Vec::new();
        let mut i: usize = 0;
        while i < order.len()
            invariant
                q == string_views(order@),
                i <= order@.len(),
                bytes@ == ids_bytes(q.subrange(0, i as int)),
            decreases order@.len() - i,
        {
            proof {
                assert(q.subrange(0, i + 1).drop_last() =~= q.subrange(0, i as int));
                assert(q.subrange(0, i + 1).last() == order@[i as int]@);
            }
            push_str_bytes(&mut bytes, order[i].as_str());
            i = i + 1;
        }
        proof { assert(q.subrange(0, q.len() as int) =~= q); }
        sha256_hex(bytes.as_slice())
    }

    fn create_snapshot(&mut self)
        ensures
            final(self).ops() == old(self).ops(),
            final(self).dependents() == old(self).dependents(),
            final(self).roots() == old(self).roots(),
            final(self).state() == old(self).state(),
            final(self).version() == old(self).version(),
            final(self).resolver() == old(self).resolver(),
            final(self).node() == old(self).node(),
            final(self).manager().total() == old(self).manager().total(),
            final(self).manager().interval() == old(self).manager().interval(),
            final(self).manager().max_snapshots() == old(self).manager().max_snapshots(),
            final(self).manager().snapshots().len() > 0,
            ({
                let s = final(self).manager().snapshots().last();
                &&& s.operation_count == old(self).manager().total()
                &&& s.state@ == old(self).state()
                &&& s.version_vector@ == old(self).version()
                &&& exists|q: Seq<Seq<char>>| is_causal_order(old(self).ops(), old(self).dependents(), q)
                    && s.merkle_root@ == sha256_hex_of(ids_bytes(q))
            }),
    {
        proof { use_type_invariant(&*self); }
        let root = self.compute_merkle_root();
        let state_copy = self.state.copy();
        let vv_copy = self.version_vector.clone();
        let mut tmp = CausalDAG::new(String::new(), 1, ConflictPolicy::LastWriterWins);
        std::mem::swap(self, &mut tmp);
        proof { use_type_invariant(&tmp); }
        let CausalDAG {
            operations,
            dependents,
            roots,
            mut snapshot_manager,
            conflict_resolver,
            node_id,
            version_vector,
            state,
        } = tmp;
        let ghost m0 = snapshot_manager;
        let snap = snapshot_manager.create_snapshot(state_copy, root, vv_copy);
        let ghost sv = *snap;
        proof {
            let all = m0.snapshots().push(sv);
            let cut = if all.len() > m0.max_snapshots() { all.len() - m0.max_snapshots() } else { 0 };
            assert(snapshot_manager.snapshots() == all.subrange(cut as int, all.len() as int));
            assert(snapshot_manager.snapshots().last() == sv);
        }
        *self = CausalDAG {
            operations,
            dependents,
            roots,
            snapshot_manager,
            conflict_resolver,
            node_id,
            version_vector,
            state,
        };
    }

    #[verifier::rlimit(60)]
    fn garbage_collect(&mut self)
        ensures
            final(self).ops() == kept(old(self).ops(), threshold_of(old(self).manager())),
            forall|y: Seq<char>| #[trigger] final(self).roots().contains(y) <==> old(self).roots().contains(y) && !is_removed(
                old(self).ops(),
                threshold_of(old(self).manager()),
                y,
            ),
            final(self).dependents() == old(self).dependents().remove_keys(
                Set::new(|y: Seq<char>| is_removed(old(self).ops(), threshold_of(old(self).manager()), y)),
            ),
            final(self).state() == old(self).state(),
            final(self).version() == old(self).version(),
            final(self).manager() == old(self).manager(),
            final(self).resolver() == old(self).resolver(),
            final(self).node() == old(self).node(),
    {
        proof { use_type_invariant(&*self); }
        let ghost pre = *self;
        let t = self.snapshot_manager.get_trimable_threshold();
        let ghost gone = Set::new(|y: Seq<char>| is_removed(pre.ops(), t, y));
        match t {
            None => {
                proof {
                    assert(kept(pre.ops(), t) == pre.ops()) by {
                        lemma_kept_all(pre.ops());
                    }
                    assert(pre.dependents().remove_keys(gone) =~= pre.dependents());
                }
            },
            Some(th) => {
                let mut tmp = CausalDAG::new(String::new(), 1, ConflictPolicy::LastWriterWins);
                std::mem::swap(self, &mut tmp);
                proof { use_type_invariant(&tmp); }
                let CausalDAG {
                    mut operations,
                    mut dependents,
                    roots,
                    snapshot_manager,
                    conflict_resolver,
                    node_id,
                    version_vector,
                    state,
                } = tmp;
                let ghost ops0 = pre.ops();
                let mut keep: Vec<CausalOp> = Vec::new();
                let mut removed: Vec<String> = Vec::new();
                let ghost mut done: int = 0;
                while operations.len() > 0
                    invariant
                        ops0 == pre.ops(),
                        0 <= done <= ops0.len(),
                        operations@ == ops0.subrange(done, ops0.len() as int),
                        keep@ == kept(ops0.subrange(0, done), t),
                        forall|y: Seq<char>| string_views(removed@).contains(y) <==> is_removed(
                            ops0.subrange(0, done),
                            t,
                            y,
                        ),
                        t == Some(th),
                    decreases operations@.len(),
                {
                    let o = operations.remove(0);
                    proof {
                        assert(ops0[done] == o);
                        assert(ops0.subrange(0, done + 1).drop_last() =~= ops0.subrange(0, done));
                        assert(ops0.subrange(0, done + 1).last() == o);
                    }
                    let ghost before_removed = string_views(removed@);
                    if o.lamport_clock < th {
                        removed.push(o.id.clone());
                        assert(string_views(removed@) =~= before_removed.push(o.id@));
                    } else {
                        keep.push(o);
                        assert(string_views(removed@) == before_removed);
                    }
                    proof {
                        let sub0 = ops0.subrange(0, done);
                        let sub1 = ops0.subrange(0, done + 1);
                        assert forall|y: Seq<char>| string_views(removed@).contains(y) <==> is_removed(sub1, t, y) by {
                            if is_removed(sub1, t, y) {
                                let i = choose|i: int| 0 <= i < sub1.len() && sub1[i].id@ == y && sub1[i].lamport_clock < th;
                                if i < done {
                                    assert(sub0[i] == sub1[i]);
                                    assert(is_removed(sub0, t, y));
                                    assert(before_removed.contains(y));
                                    let k = choose|k: int| 0 <= k < before_removed.len() && before_removed[k] == y;
                                    assert(string_views(removed@)[k] == y);
                                } else {
                                    assert(string_views(removed@)[string_views(removed@).len() - 1] == y);
                                }
                            }
                            if string_views(removed@).contains(y) {
                                let k = choose|k: int| 0 <= k < string_views(removed@).len() && string_views(removed@)[k] == y;
                                if k < before_removed.len() {
                                    assert(before_removed[k] == y);
                                    assert(before_removed.contains(y));
                                    assert(is_removed(sub0, t, y));
                                    let i = choose|i: int| 0 <= i < sub0.len() && sub0[i].id@ == y && sub0[i].lamport_clock < th;
                                    assert(sub1[i] == sub0[i]);
                                } else {
                                    assert(o.lamport_clock < th);
                                    assert(sub1[done] == o);
                                    assert(sub1[done].id@ == y);
                                }
                            }
                        }
                        done = done + 1;
                        assert(operations@ =~= ops0.subrange(done, ops0.len() as int));
                    }
                }
                proof {
                    assert(ops0.subrange(0, done) =~= ops0);
                    lemma_kept(ops0, t);
                }
                // Roots: keep those not removed.
                let mut new_roots: Vec<String> = Vec::new();
                let mut i: usize = 0;
                while i < roots.len()
                    invariant
                        i <= roots@.len(),
                        string_views(new_roots@) == string_views(roots@).subrange(0, i as int).filter(
                            |y: Seq<char>| !gone.contains(y),
                        ),
                        forall|y: Seq<char>| string_views(removed@).contains(y) <==> gone.contains(y),
                    decreases roots@.len() - i,
                {
                    proof {
                        reveal(Seq::filter);
                        assert(string_views(roots@).subrange(0, i + 1).drop_last() =~= string_views(roots@).subrange(
                            0,
                            i as int,
                        ));
                    }
                    if !strings_contain(&removed, roots[i].as_str()) {
                        new_roots.push(roots[i].clone());
                    }
                    assert(string_views(new_roots@) =~= string_views(roots@).subrange(0, i + 1).filter(
                        |y: Seq<char>| !gone.contains(y),
                    ));
                    i = i + 1;
                }
                proof { assert(string_views(roots@).subrange(0, roots@.len() as int) =~= string_views(roots@)); }
                // Dependents: drop the lists of removed operations.
                let mut j: usize = 0;
                while j < removed.len()
                    invariant
                        j <= removed@.len(),
                        dependents.wf(),
                        forall|key: Seq<char>| #[trigger] dependents@.contains_key(key) ==> strictly_sorted(
                            string_views(dependents@[key]@),
                        ),
                        dependents@.map_values(|v: Vec<String>| string_views(v@)) == pre.dependents().remove_keys(
                            string_views(removed@).subrange(0, j as int).to_set(),
                        ),
                    decreases removed@.len() - j,
                {
                    let ghost before = dependents@;
                    let ghost before_v = dependents@.map_values(|v: Vec<String>| string_views(v@));
                    dependents.remove_str(removed[j].as_str());
                    proof {
                        let r = string_views(removed@);
                        assert(dependents@ == before.remove(r[j as int]));
                        assert(dependents@.map_values(|v: Vec<String>| string_views(v@)) =~= before_v.remove(r[j as int]));
                        r.subrange(0, j as int).lemma_push_to_set_commute(r[j as int]);
                        assert(r.subrange(0, j + 1) =~= r.subrange(0, j as int).push(r[j as int]));
                        assert(dependents@.map_values(|v: Vec<String>| string_views(v@)) =~= pre.dependents().remove_keys(
                            r.subrange(0, j + 1).to_set(),
                        ));
                    }
                    j = j + 1;
                }
                proof {
                    let r = string_views(removed@);
                    assert(r.subrange(0, r.len() as int) =~= r);
                    assert(r.to_set() =~= gone);
                }
                proof {
                    let ops1 = keep@;
                    assert forall|y: Seq<char>| #[trigger] string_views(new_roots@).contains(y) <==> pre.roots().contains(y)
                        && !gone.contains(y) by {
                        reveal(Seq::filter);
                        lemma_filter_contains(string_views(roots@), |z: Seq<char>| !gone.contains(z), y);
                    }
                    assert(strictly_sorted(string_views(new_roots@))) by {
                        lemma_filter_sorted(string_views(roots@), |z: Seq<char>| !gone.contains(z));
                    }
                    assert forall|i2: int| 0 <= i2 < ops1.len() implies strictly_sorted(#[trigger] deps_view(ops1[i2])) by {
                        assert(ops1.contains(ops1[i2]));
                        let k = choose|k: int| 0 <= k < ops0.len() && ops0[k] == ops1[i2];
                    }
                    assert forall|y: Seq<char>| #[trigger] string_views(new_roots@).contains(y) <==> exists|i2: int|
                        0 <= i2 < ops1.len() && ops1[i2].id@ == y && ops1[i2].dependencies@.len() == 0 by {
                        if string_views(new_roots@).contains(y) {
                            let k = choose|k: int| 0 <= k < ops0.len() && ops0[k].id@ == y && ops0[k].dependencies@.len() == 0;
                            assert(!is_removed(ops0, t, y));
                            assert(ops0[k].lamport_clock >= th);
                            assert(ops0.contains(ops0[k]));
                            assert(ops1.contains(ops0[k]));
                        }
                        if exists|i2: int| 0 <= i2 < ops1.len() && ops1[i2].id@ == y && ops1[i2].dependencies@.len() == 0 {
                            let i2 = choose|i2: int| 0 <= i2 < ops1.len() && ops1[i2].id@ == y && ops1[i2].dependencies@.len() == 0;
                            assert(ops1.contains(ops1[i2]));
                            let k = choose|k: int| 0 <= k < ops0.len() && ops0[k] == ops1[i2];
                            assert(pre.roots().contains(y));
                            assert(!gone.contains(y)) by {
                                if is_removed(ops0, t, y) {
                                    let k2 = choose|k2: int| 0 <= k2 < ops0.len() && ops0[k2].id@ == y && ops0[k2].lamport_clock < th;
                                    lemma_sorted_distinct(op_ids(ops0));
                                    assert(op_ids(ops0)[k] == op_ids(ops0)[k2]);
                                }
                            }
                        }
                    }
                    assert forall|x: Seq<char>, j2: int|
                        0 <= j2 < ops1.len() && dependents@.contains_key(x) && string_views(dependents@[x]@).contains(ops1[j2].id@)
                        implies #[trigger] deps_view(ops1[j2]).contains(x) by {
                        assert(ops1.contains(ops1[j2]));
                        let k = choose|k: int| 0 <= k < ops0.len() && ops0[k] == ops1[j2];
                        let mv = dependents@.map_values(|v: Vec<String>| string_views(v@));
                        assert(mv.contains_key(x));
                        assert(pre.dependents().contains_key(x));
                        assert(mv[x] == pre.dependents()[x]);
                        assert(pre.dependents@.contains_key(x));
                        assert(string_views(pre.dependents@[x]@) == string_views(dependents@[x]@));
                        assert(deps_view(ops0[k]).contains(x));
                    }
                }
                *self = CausalDAG {
                    operations: keep,
                    dependents,
                    roots: new_roots,
                    snapshot_manager,
                    conflict_resolver,
                    node_id,
                    version_vector,
                    state,
                };
            },
        }
    }

    fn add_accepted(&mut self, op: CausalOp, merged: Vec<Json>)
        requires
            !old(self).has_op(op.id@),
            strictly_sorted(deps_view(op)),
            forall|y: Seq<char>| linked(old(self).dependents(), y, op.id@) ==> deps_view(op).contains(y),
            old(self).manager().total() < u64::MAX,
            apply_fits(merged_into(old(self).state(), json_views(merged@)), op),
        ensures
            final(self).ops() == old(self).ops().insert(op_pos(old(self).ops(), op.id@, 0), op),
            final(self).dependents() == dependents_with(old(self).dependents(), deps_view(op), op.id@),
            final(self).roots() == (if op.dependencies@.len() == 0 {
                sorted_set_insert(old(self).roots(), op.id@)
            } else {
                old(self).roots()
            }),
            final(self).state() == applied(merged_into(old(self).state(), json_views(merged@)), op),
            final(self).version() == vv_merge(old(self).version(), op.version_vector@),
            final(self).manager().total() == old(self).manager().total() + 1,
            final(self).manager().snapshots() == old(self).manager().snapshots(),
            final(self).manager().max_snapshots() == old(self).manager().max_snapshots(),
            final(self).manager().interval() == old(self).manager().interval(),
            final(self).manager().archived() == old(self).manager().archived(),
            final(self).resolver() == old(self).resolver(),
            final(self).node() == old(self).node(),
    {
        proof { use_type_invariant(&*self); }
        let ghost pre = *self;
        let mut tmp = CausalDAG::new(String::new(), 1, ConflictPolicy::LastWriterWins);
        std::mem::swap(self, &mut tmp);
        proof { use_type_invariant(&tmp); }
        let CausalDAG {
            mut operations,
            mut dependents,
            mut roots,
            mut snapshot_manager,
            conflict_resolver,
            node_id,
            version_vector,
            mut state,
        } = tmp;
        // Merge results first.
        let ghost s0 = state@;
        let ghost mv = json_views(merged@);
        let mut i: usize = 0;
        while i < merged.len()
            invariant
                mv == json_views(merged@),
                i <= merged@.len(),
                state@ is Object,
                state@ == merged_into(s0, mv.subrange(0, i as int)),
            decreases merged@.len() - i,
        {
            proof { assert(mv.subrange(0, i + 1).drop_last() =~= mv.subrange(0, i as int)); }
            apply_merged_result(&mut state, &merged[i]);
            i = i + 1;
        }
        proof { assert(mv.subrange(0, mv.len() as int) =~= mv); }
        // Index the new operation under each dependency.
        let ghost m0 = pre.dependents();
        let ghost dv = deps_view(op);
        let ghost idv = op.id@;
        let mut k: usize = 0;
        while k < op.dependencies.len()
            invariant
                dv == deps_view(op),
                idv == op.id@,
                k <= dv.len(),
                dependents.wf(),
                forall|key: Seq<char>| #[trigger] dependents@.contains_key(key) ==> strictly_sorted(
                    string_views(dependents@[key]@),
                ),
                dependents@.map_values(|v: Vec<String>| string_views(v@)) == dependents_with(
                    m0,
                    dv.subrange(0, k as int),
                    idv,
                ),
            decreases dv.len() - k,
        {
            let ghost before = dependents@.map_values(|v: Vec<String>| string_views(v@));
            let dep = &op.dependencies[k];
            proof {
                assert(dv.subrange(0, k + 1).drop_last() =~= dv.subrange(0, k as int));
                assert(dv.subrange(0, k + 1).last() == dep@);
            }
            match dependents.find_str(dep.as_str()) {
                Some(p) => {
                    proof { dependents.lemma_entry_in_view(p as int); }
                    let ghost old_map = dependents;
                    let list = dependents.value_at_mut(p);
                    sorted_insert(list, op.id.clone());
                    proof {
                        assert(dependents@ == old_map@.insert(dep@, *list));
                        assert(dependents@.map_values(|v: Vec<String>| string_views(v@)) =~= before.insert(
                            dep@,
                            sorted_set_insert(list_at(before, dep@), idv),
                        ));
                    }
                },
                None => {
                    let mut list: Vec<String> = Vec::new();
                    list.push(op.id.clone());
                    dependents.push_new(dep.clone(), list);
                    proof {
                        assert(string_views(list@) =~= seq![idv]);
                        assert(list_at(before, dep@) =~= Seq::<Seq<char>>::empty());
                        assert(sorted_set_insert(Seq::<Seq<char>>::empty(), idv) =~= seq![idv]);
                        assert(dependents@.map_values(|v: Vec<String>| string_views(v@)) =~= before.insert(
                            dep@,
                            sorted_set_insert(list_at(before, dep@), idv),
                        ));
                    }
                },
            }
            k = k + 1;
        }
        proof { assert(dv.subrange(0, dv.len() as int) =~= dv); }
        if op.dependencies.len() == 0 {
            sorted_insert(&mut roots, op.id.clone());
        }
        let merged_vv = version_vector.merge(&op.version_vector);
        apply_operation(&mut state, &op);
        let mut p: usize = 0;
        while p < operations.len() && str_lt(operations[p].id.as_str(), op.id.as_str())
            invariant
                p <= operations@.len(),
                operations@ == pre.ops(),
                op_pos(pre.ops(), op.id@, 0) == op_pos(pre.ops(), op.id@, p as int),
            decreases operations@.len() - p,
        {
            p = p + 1;
        }
        proof { lemma_insert_op_sorted(pre.ops(), op); }
        operations.insert(p, op);
        snapshot_manager.increment_operation_count();
        proof {
            let ops0 = pre.ops();
            let ops1 = operations@;
            let pp = op_pos(ops0, idv, 0);
            assert(ops1 == ops0.insert(pp, op));
            let m1 = dependents@.map_values(|v: Vec<String>| string_views(v@));
            lemma_dependents_with(m0, dv, idv);
            assert forall|i: int| 0 <= i < ops1.len() implies strictly_sorted(#[trigger] deps_view(ops1[i])) by {
                if i < pp {
                    assert(ops1[i] == ops0[i]);
                } else if i > pp {
                    assert(ops1[i] == ops0[i - 1]);
                }
            }
            assert forall|y: Seq<char>| #[trigger] string_views(roots@).contains(y) <==> exists|i: int|
                0 <= i < ops1.len() && ops1[i].id@ == y && ops1[i].dependencies@.len() == 0 by {
                if op.dependencies@.len() == 0 {
                    lemma_set_insert_contains(pre.roots(), idv, y);
                }
                if string_views(roots@).contains(y) {
                    if pre.roots().contains(y) {
                        let i = choose|i: int| 0 <= i < ops0.len() && ops0[i].id@ == y && ops0[i].dependencies@.len() == 0;
                        if i < pp {
                            assert(ops1[i] == ops0[i]);
                        } else {
                            assert(ops1[i + 1] == ops0[i]);
                        }
                    } else {
                        assert(ops1[pp] == op);
                    }
                }
                if exists|i: int| 0 <= i < ops1.len() && ops1[i].id@ == y && ops1[i].dependencies@.len() == 0 {
                    let i = choose|i: int| 0 <= i < ops1.len() && ops1[i].id@ == y && ops1[i].dependencies@.len() == 0;
                    if i < pp {
                        assert(ops1[i] == ops0[i]);
                    } else if i > pp {
                        assert(ops1[i] == ops0[i - 1]);
                    } else {
                        assert(ops1[i] == op);
                    }
                }
            }
            assert forall|x: Seq<char>, j: int|
                0 <= j < ops1.len() && dependents@.contains_key(x) && string_views(dependents@[x]@).contains(ops1[j].id@)
                implies #[trigger] deps_view(ops1[j]).contains(x) by {
                assert(linked(m1, x, ops1[j].id@));
                if j == pp {
                    assert(ops1[j] == op);
                } else {
                    let jj = if j < pp { j } else { j - 1 };
                    assert(ops1[j] == ops0[jj]);
                    assert(op_ids(ops0).contains(ops0[jj].id@)) by {
                        assert(op_ids(ops0)[jj] == ops0[jj].id@);
                    }
                    assert(ops0[jj].id@ != idv);
                    assert(linked(m0, x, ops0[jj].id@));
                    assert(pre.dependents@.contains_key(x));
                    assert(string_views(pre.dependents@[x]@).contains(ops0[jj].id@));
                }
            }
        }
        *self = CausalDAG {
            operations,
            dependents,
            roots,
            snapshot_manager,
            conflict_resolver,
            node_id,
            version_vector: merged_vv,
            state,
        };
    }

    /// Insert an operation. An operation already stored is accepted and
    /// changes nothing. Otherwise it is refused, with nothing changed, when
    /// a dependency is missing (the first one in order is named) or when
    /// resolving it against a concurrent stored operation (in ID order)
    /// gives another winner or asks for a manual choice. Once accepted:
    /// merge results and the operation are applied to the state, it is
    /// indexed and stored, the version vectors merge, the operation count
    /// goes up, a snapshot is taken when one is due, and operations older
    /// than the second latest snapshot are trimmed.
    pub fn insert(&mut self, op: CausalOp) -> (r: Result<(), DagError>)
        requires
            strictly_sorted(deps_view(op)),
            forall|y: Seq<char>| linked(old(self).dependents(), y, op.id@) ==> deps_view(op).contains(y),
            forall|i: int| 0 <= i < old(self).ops().len() ==> old(self).resolver().resolve_fits(op, old(self).ops()[i]),
            !old(self).has_op(op.id@) && first_missing(deps_view(op), op_ids(old(self).ops())) is None ==> match scan(
                old(self).resolver(),
                op,
                old(self).ops(),
            ) {
                ScanOutcome::Accept(ms) => {
                    &&& old(self).manager().total() < u64::MAX
                    &&& old(self).manager().interval() > 0
                    &&& apply_fits(merged_into(old(self).state(), ms), op)
                },
                _ => true,
            },
        ensures
            old(self).has_op(op.id@) ==> r is Ok && *final(self) == *old(self),
            !old(self).has_op(op.id@) && first_missing(deps_view(op), op_ids(old(self).ops())) is Some ==> (r matches Err(
                DagError::MissingDependency(d),
            ) && Some(d@) == first_missing(deps_view(op), op_ids(old(self).ops()))) && *final(self) == *old(self),
            !old(self).has_op(op.id@) && first_missing(deps_view(op), op_ids(old(self).ops())) is None ==> match scan(
                old(self).resolver(),
                op,
                old(self).ops(),
            ) {
                ScanOutcome::Reject(w) => (r matches Err(DagError::ConflictRejected { winner_id }) && winner_id@ == w)
                    && *final(self) == *old(self),
                ScanOutcome::Manual(a, b) => (r matches Err(DagError::ManualResolutionRequired { op_a, op_b }) && op_a@
                    == a && op_b@ == b) && *final(self) == *old(self),
                ScanOutcome::Accept(ms) => r is Ok && final(self).inserted(*old(self), op, ms),
            },
    {
        if self.find_op(op.id.as_str()).is_some() {
            return Ok(());
        }
        let ghost ids = op_ids(self.ops());
        let ghost dv = deps_view(op);
        proof { assert(dv.subrange(0, dv.len() as int) =~= dv); }
        let mut k: usize = 0;
        while k < op.dependencies.len()
            invariant
                *self == *old(self),
                !self.has_op(op.id@),
                ids == op_ids(self.ops()),
                dv == deps_view(op),
                k <= dv.len(),
                first_missing(dv, ids) == first_missing(dv.subrange(k as int, dv.len() as int), ids),
            decreases dv.len() - k,
        {
            proof {
                let rest = dv.subrange(k as int, dv.len() as int);
                assert(rest[0] == dv[k as int]);
                assert(rest.drop_first() =~= dv.subrange(k + 1, dv.len() as int));
            }
            match self.find_op(op.dependencies[k].as_str()) {
                None => {
                    return Err(DagError::MissingDependency(op.dependencies[k].clone()));
                },
                Some(idx) => {
                    proof {
                        assert(ids[idx as int] == dv[k as int]);
                        assert(ids.contains(dv[k as int]));
                    }
                },
            }
            k = k + 1;
        }
        proof { assert(dv.subrange(dv.len() as int, dv.len() as int).len() == 0); }
        let ghost ops = self.ops();
        let mut merged: Vec<Json> = Vec::new();
        proof {
            assert(ops.subrange(0, 0) =~= Seq::<CausalOp>::empty());
            assert(json_views(merged@) =~= Seq::<JsonV>::empty());
        }
        let mut i: usize = 0;
        while i < self.operations.len()
            invariant
                *self == *old(self),
                !self.has_op(op.id@),
                first_missing(deps_view(op), op_ids(self.ops())) is None,
                ops == self.ops(),
                i <= ops.len(),
                scan(self.resolver(), op, ops.subrange(0, i as int)) == ScanOutcome::Accept(json_views(merged@)),
                forall|j: int| 0 <= j < ops.len() ==> self.resolver().resolve_fits(op, ops[j]),
            decreases ops.len() - i,
        {
            proof { assert(ops.subrange(0, i + 1).drop_last() =~= ops.subrange(0, i as int)); }
            let e = &self.operations[i];
            let ghost before = json_views(merged@);
            if op.conflicts_with(e) {
                match self.conflict_resolver.resolve(&op, e) {
                    ConflictResolution::NoConflict => {},
                    ConflictResolution::Winner(w) => {
                        if !str_eq(w.as_str(), op.id.as_str()) {
                            proof {
                                lemma_scan_stops(self.resolver(), op, ops, i as int + 1);
                            }
                            return Err(DagError::ConflictRejected { winner_id: w });
                        }
                    },
                    ConflictResolution::Manual { option_a, option_b } => {
                        proof {
                            lemma_scan_stops(self.resolver(), op, ops, i as int + 1);
                        }
                        return Err(DagError::ManualResolutionRequired { op_a: option_a.id, op_b: option_b.id });
                    },
                    ConflictResolution::Merged { result } => {
                        merged.push(result);
                        proof { assert(json_views(merged@) =~= before.push(merged@.last()@)); }
                    },
                }
            }
            i = i + 1;
        }
        proof { assert(ops.subrange(0, ops.len() as int) =~= ops); }
        self.add_accepted(op, merged);
        if self.snapshot_manager.should_snapshot() {
            self.create_snapshot();
        }
        self.garbage_collect();
        Ok(())
    }

    /// Set a node's priority in the conflict resolver.
    pub fn set_node_priority(&mut self, node_id: String, priority: u8)
        ensures
            final(self).resolver().node_priorities() == old(self).resolver().node_priorities().insert(
                node_id@,
                priority,
            ),
            final(self).resolver().operation_policies() == old(self).resolver().operation_policies(),
            final(self).resolver().default_policy() == old(self).resolver().default_policy(),
            final(self).ops() == old(self).ops(),
            final(self).state() == old(self).state(),
    {
        let mut tmp = CausalDAG::new(String::new(), 1, ConflictPolicy::LastWriterWins);
        std::mem::swap(self, &mut tmp);
        proof { use_type_invariant(&tmp); }
        let CausalDAG {
            operations,
            dependents,
            roots,
            snapshot_manager,
            mut conflict_resolver,
            node_id: n,
            version_vector,
            state,
        } = tmp;
        conflict_resolver.set_node_priority(node_id, priority);
        *self = CausalDAG {
            operations,
            dependents,
            roots,
            snapshot_manager,
            conflict_resolver,
            node_id: n,
            version_vector,
            state,
        };
    }
}

} // verus!
