//! Model shards, addressed by content, and the registry that places them
//! on nodes and orders their layers for execution.

use vstd::prelude::*;
use vstd::string::StringSliceAdditionalSpecFns;
use vstd::utf8::encode_utf8;
use crate::assoc::{StrMap, str_eq};
use crate::digest::{le_bytes, push_le_bytes, push_str_bytes, sha256_hex, sha256_hex_of};
use crate::version_vector::{VersionVector, vv_count, vv_merge};
use crate::assoc::map_sum;

verus! {

/// A shard, as values.
pub struct ShardView {
    pub content_id: Seq<char>,
    pub layer_id: Seq<char>,
    pub shard_idx: usize,
    pub total_shards: usize,
    pub weights_hash: Seq<char>,
    pub version: Map<Seq<char>, u64>,
    pub owner_node: Seq<char>,
    pub dependencies: Seq<Seq<char>>,
}

/// A shard of model weights. The weights themselves are held by the
/// caller; the shard records their content hash.
#[derive(Debug, Clone)]
pub struct ModelShard {
    /// Content address: derived from the layer, index and weights.
    pub content_id: String,
    /// Layer name.
    pub layer_id: String,
    /// Index of this shard within its layer.
    pub shard_idx: usize,
    /// Number of shards of the layer.
    pub total_shards: usize,
    /// Content hash of the weight tensor.
    pub weights_hash: String,
    /// Version at creation, bumped on each weight update.
    pub version: VersionVector,
    /// Node that owns the shard.
    pub owner_node: String,
    /// Layers that must run before this one.
    pub dependencies: Vec<String>,
}

/// The views of a list of strings.
pub open spec fn views_of(v: Seq<String>) -> Seq<Seq<char>> {
    v.map_values(|s: String| s@)
}

impl View for ModelShard {
    type V = ShardView;

    open spec fn view(&self) -> ShardView {
        ShardView {
            content_id: self.content_id@,
            layer_id: self.layer_id@,
            shard_idx: self.shard_idx,
            total_shards: self.total_shards,
            weights_hash: self.weights_hash@,
            version: self.version@,
            owner_node: self.owner_node@,
            dependencies: views_of(self.dependencies@),
        }
    }
}

/// A shard's content ID: the first 16 hex digits of the SHA-256 of the
/// layer name, the index's eight little-endian bytes and the weights hash.
pub open spec fn shard_content_id(layer_id: Seq<char>, shard_idx: usize, weights_hash: Seq<char>) -> Seq<char> {
    sha256_hex_of(encode_utf8(layer_id) + le_bytes(shard_idx as u64) + encode_utf8(weights_hash)).subrange(0, 16)
}

fn copy_strings(v: &Vec<String>) -> (r: Vec<String>)
    ensures
        r@ == v@,
{
    let mut r: Vec<String> = Vec::new();
    let mut i: usize = 0;
    while i < v.len()
        invariant
            i <= v@.len(),
            r@ == v@.subrange(0, i as int),
        decreases v@.len() - i,
    {
        r.push(v[i].clone());
        i = i + 1;
        assert(r@ =~= v@.subrange(0, i as int));
    }
    assert(v@.subrange(0, v@.len() as int) =~= v@);
    r
}

impl ModelShard {
    fn compute_content_id(layer_id: &str, shard_idx: usize, weights_hash: &str) -> (id: String)
        ensures
            id@ == shard_content_id(layer_id@, shard_idx, weights_hash@),
    {
        let mut bytes: Vec<u8> = Vec::new();
        push_str_bytes(&mut bytes, layer_id);
        push_le_bytes(&mut bytes, shard_idx as u64);
        push_str_bytes(&mut bytes, weights_hash);
        let hex = sha256_hex(bytes.as_slice());
        String::from_str(hex.as_str().substring_char(0, 16))
    }

    /// A shard at version zero.
    pub fn new(
        layer_id: String,
        shard_idx: usize,
        total_shards: usize,
        weights_hash: String,
        owner_node: String,
        dependencies: Vec<String>,
    ) -> (s: Self)
        ensures
            s.content_id@ == shard_content_id(layer_id@, shard_idx, weights_hash@),
            s.layer_id == layer_id,
            s.shard_idx == shard_idx,
            s.total_shards == total_shards,
            s.weights_hash == weights_hash,
            s.version@ == Map::<Seq<char>, u64>::empty(),
            s.owner_node == owner_node,
            s.dependencies == dependencies,
    {
        let content_id = Self::compute_content_id(layer_id.as_str(), shard_idx, weights_hash.as_str());
        ModelShard {
            content_id,
            layer_id,
            shard_idx,
            total_shards,
            weights_hash,
            version: VersionVector::new(),
            owner_node,
            dependencies,
        }
    }

    /// Replace the weights (by their hash): the content ID follows and the
    /// owner's version count goes up.
    pub fn update_weights(&mut self, new_weights_hash: String)
        requires
            vv_count(old(self).version@, old(self).owner_node@) < u64::MAX,
        ensures
            final(self).content_id@ == shard_content_id(old(self).layer_id@, old(self).shard_idx, new_weights_hash@),
            final(self).weights_hash == new_weights_hash,
            final(self).version@ == old(self).version@.insert(
                old(self).owner_node@,
                (vv_count(old(self).version@, old(self).owner_node@) + 1) as u64,
            ),
            final(self).layer_id == old(self).layer_id,
            final(self).shard_idx == old(self).shard_idx,
            final(self).total_shards == old(self).total_shards,
            final(self).owner_node == old(self).owner_node,
            final(self).dependencies == old(self).dependencies,
    {
        self.content_id = Self::compute_content_id(self.layer_id.as_str(), self.shard_idx, new_weights_hash.as_str());
        self.weights_hash = new_weights_hash;
        self.version.increment(self.owner_node.as_str());
    }

    /// A copy of this shard.
    pub fn copy(&self) -> (s: Self)
        ensures
            s@ == self@,
    {
        ModelShard {
            content_id: self.content_id.clone(),
            layer_id: self.layer_id.clone(),
            shard_idx: self.shard_idx,
            total_shards: self.total_shards,
            weights_hash: self.weights_hash.clone(),
            version: self.version.clone(),
            owner_node: self.owner_node.clone(),
            dependencies: copy_strings(&self.dependencies),
        }
    }
}

/// Every shard of layer `l` in `s` has all its dependencies in `o`.
pub open spec fn layer_ready(s: Seq<ShardView>, l: Seq<char>, o: Seq<Seq<char>>) -> bool {
    forall|j: int, d: Seq<char>| 0 <= j < s.len() && s[j].layer_id == l && #[trigger] s[j].dependencies.contains(d)
        ==> o.contains(d)
}

/// `o` is an execution order of the layers of `s`: each layer once, every
/// dependency of a layer's shards before it, and every layer whose
/// dependencies are all in `o` in it too (so exactly the layers that do
/// not wait, directly or not, on a missing layer or a cycle).
pub open spec fn is_execution_order(s: Seq<ShardView>, o: Seq<Seq<char>>) -> bool {
    &&& partial_execution_order(s, o)
    &&& forall|j: int| 0 <= j < s.len() && layer_ready(s, #[trigger] s[j].layer_id, o) ==> o.contains(s[j].layer_id)
}

/// `o` is an execution order of some of the layers of `s`: each once,
/// every dependency before it.
pub open spec fn partial_execution_order(s: Seq<ShardView>, o: Seq<Seq<char>>) -> bool {
    &&& o.no_duplicates()
    &&& forall|i: int| 0 <= i < o.len() ==> exists|j: int| 0 <= j < s.len() && s[j].layer_id == #[trigger] o[i]
    &&& forall|i: int, j: int, d: Seq<char>|
        #![trigger o[i], s[j].dependencies.contains(d)]
        0 <= i < o.len() && 0 <= j < s.len() && s[j].layer_id == o[i] && s[j].dependencies.contains(d)
            ==> exists|k: int| 0 <= k < i && #[trigger] o[k] == d
}

/// Appending a ready layer that is not yet in the order keeps it an
/// execution order.
proof fn lemma_push_partial(s: Seq<ShardView>, o: Seq<Seq<char>>, i: int)
    requires
        partial_execution_order(s, o),
        0 <= i < s.len(),
        !o.contains(s[i].layer_id),
        layer_ready(s, s[i].layer_id, o),
    ensures
        partial_execution_order(s, o.push(s[i].layer_id)),
{
    let p = o.push(s[i].layer_id);
    assert forall|a: int, b: int| 0 <= a < p.len() && 0 <= b < p.len() && a != b implies p[a] != p[b] by {
        if a < o.len() && b < o.len() {
        } else if a < o.len() {
            assert(o.contains(o[a]));
        } else {
            assert(o.contains(o[b]));
        }
    }
    assert forall|a: int| 0 <= a < p.len() implies exists|j: int| 0 <= j < s.len() && s[j].layer_id == #[trigger] p[a] by {
        if a < o.len() {
            assert(p[a] == o[a]);
        } else {
            assert(s[i].layer_id == p[a]);
        }
    }
    assert forall|a: int, j: int, d: Seq<char>|
        #![trigger p[a], s[j].dependencies.contains(d)]
        0 <= a < p.len() && 0 <= j < s.len() && s[j].layer_id == p[a] && s[j].dependencies.contains(d)
            implies exists|k: int| 0 <= k < a && #[trigger] p[k] == d by {
        if a < o.len() {
            assert(p[a] == o[a]);
            let k = choose|k: int| 0 <= k < a && #[trigger] o[k] == d;
            assert(p[k] == d);
        } else {
            assert(o.contains(d));
            let k = choose|k: int| 0 <= k < o.len() && o[k] == d;
            assert(p[k] == d);
        }
    }
}

/// An order of distinct layers of `s` is no longer than `s`.
proof fn lemma_order_len_bound(s: Seq<ShardView>, o: Seq<Seq<char>>)
    requires
        o.no_duplicates(),
        forall|i: int| 0 <= i < o.len() ==> exists|j: int| 0 <= j < s.len() && s[j].layer_id == #[trigger] o[i],
    ensures
        o.len() <= s.len(),
{
    let layers = Seq::new(s.len(), |j: int| s[j].layer_id);
    assert forall|x: Seq<char>| o.to_set().contains(x) implies layers.to_set().contains(x) by {
        let i = choose|i: int| 0 <= i < o.len() && o[i] == x;
        let j = choose|j: int| 0 <= j < s.len() && s[j].layer_id == o[i];
        assert(layers[j] == x);
    }
    o.unique_seq_to_set();
    layers.lemma_cardinality_of_set();
    vstd::set_lib::lemma_len_subset(o.to_set(), layers.to_set());
}

/// Whether a list of strings holds `x`.
fn contains_str(v: &Vec<String>, x: &str) -> (b: bool)
    ensures
        b == views_of(v@).contains(x@),
{
    let mut i: usize = 0;
    while i < v.len()
        invariant
            i <= v@.len(),
            forall|j: int| 0 <= j < i ==> views_of(v@)[j] != x@,
        decreases v@.len() - i,
    {
        if str_eq(v[i].as_str(), x) {
            assert(views_of(v@)[i as int] == x@);
            return true;
        }
        i = i + 1;
    }
    false
}

/// A shard registry, as values.
pub struct RegistryView {
    /// Content ID → shard.
    pub shards: Map<Seq<char>, ShardView>,
    /// Layer → content IDs registered for it, in order.
    pub layers: Map<Seq<char>, Seq<Seq<char>>>,
    /// Node → content IDs registered for it, in order.
    pub nodes: Map<Seq<char>, Seq<Seq<char>>>,
    /// The registry's version vector.
    pub version: Map<Seq<char>, u64>,
    /// The registry's node ID.
    pub node: Seq<char>,
}

/// The list under `k`, or the empty list.
pub open spec fn list_at(m: Map<Seq<char>, Seq<Seq<char>>>, k: Seq<char>) -> Seq<Seq<char>> {
    if m.contains_key(k) { m[k] } else { Seq::empty() }
}

/// The registry after registering shard `s`.
pub open spec fn registered(v: RegistryView, s: ShardView) -> RegistryView {
    RegistryView {
        shards: v.shards.insert(s.content_id, s),
        layers: v.layers.insert(s.layer_id, list_at(v.layers, s.layer_id).push(s.content_id)),
        nodes: v.nodes.insert(s.owner_node, list_at(v.nodes, s.owner_node).push(s.content_id)),
        version: v.version.insert(v.node, (vv_count(v.version, v.node) + 1) as u64),
        node: v.node,
    }
}

/// The registry after registering the shards of `s` in order.
pub open spec fn registered_all(v: RegistryView, s: Seq<ShardView>) -> RegistryView
    decreases s.len(),
{
    if s.len() == 0 { v } else { registered(registered_all(v, s.drop_last()), s.last()) }
}

/// The registry after taking in shard `s` from another registry: a new
/// shard is registered; a known one is replaced when `s` has seen more
/// operations.
pub open spec fn merged_shard(v: RegistryView, s: ShardView) -> RegistryView {
    if v.shards.contains_key(s.content_id) {
        if map_sum(s.version) > map_sum(v.shards[s.content_id].version) {
            RegistryView { shards: v.shards.insert(s.content_id, s), ..v }
        } else {
            v
        }
    } else {
        registered(v, s)
    }
}

/// The registry after taking in the shards of `s` in order.
pub open spec fn merged_all(v: RegistryView, s: Seq<ShardView>) -> RegistryView
    decreases s.len(),
{
    if s.len() == 0 { v } else { merged_shard(merged_all(v, s.drop_last()), s.last()) }
}

/// The stored shards of a list of content IDs, skipping unknown ones.
pub open spec fn resolve_ids(ids: Seq<Seq<char>>, shards: Map<Seq<char>, ShardView>) -> Seq<ShardView>
    decreases ids.len(),
{
    if ids.len() == 0 {
        Seq::empty()
    } else {
        let r = resolve_ids(ids.drop_last(), shards);
        if shards.contains_key(ids.last()) { r.push(shards[ids.last()]) } else { r }
    }
}

/// Registry of model shards across the network.
#[derive(Debug)]
pub struct ShardRegistry {
    shards: StrMap<ModelShard>,
    layer_shards: StrMap<Vec<String>>,
    node_shards: StrMap<Vec<String>>,
    node_id: String,
    version: VersionVector,
}

/// The views of a list of lists of strings, key by key.
pub open spec fn index_view(m: Map<Seq<char>, Vec<String>>) -> Map<Seq<char>, Seq<Seq<char>>> {
    m.map_values(|v: Vec<String>| views_of(v@))
}

impl ShardRegistry {
    #[verifier::type_invariant]
    closed spec fn inv(self) -> bool {
        &&& self.shards.wf()
        &&& self.layer_shards.wf()
        &&& self.node_shards.wf()
        &&& forall|k: Seq<char>| #[trigger] self.shards@.contains_key(k) ==> self.shards@[k].content_id@ == k
    }

    /// The registry as values.
    pub closed spec fn view(self) -> RegistryView {
        RegistryView {
            shards: self.shards@.map_values(|s: ModelShard| s@),
            layers: index_view(self.layer_shards@),
            nodes: index_view(self.node_shards@),
            version: self.version@,
            node: self.node_id@,
        }
    }

    /// The stored shards in storage order.
    pub closed spec fn shard_list(self) -> Seq<ShardView> {
        self.shards.entries().map_values(|e: (String, ModelShard)| e.1@)
    }

    /// An empty registry.
    pub fn new(node_id: String) -> (r: Self)
        ensures
            r@.shards == Map::<Seq<char>, ShardView>::empty(),
            r@.layers == Map::<Seq<char>, Seq<Seq<char>>>::empty(),
            r@.nodes == Map::<Seq<char>, Seq<Seq<char>>>::empty(),
            r@.version == Map::<Seq<char>, u64>::empty(),
            r@.node == node_id@,
    {
        let r = ShardRegistry {
            shards: StrMap::new(),
            layer_shards: StrMap::new(),
            node_shards: StrMap::new(),
            node_id,
            version: VersionVector::new(),
        };
        assert(r@.shards =~= Map::<Seq<char>, ShardView>::empty());
        assert(r@.layers =~= Map::<Seq<char>, Seq<Seq<char>>>::empty());
        assert(r@.nodes =~= Map::<Seq<char>, Seq<Seq<char>>>::empty());
        r
    }

    fn append_id(index: &mut StrMap<Vec<String>>, key: &String, id: &String)
        requires
            old(index).wf(),
        ensures
            final(index).wf(),
            index_view(final(index)@) == index_view(old(index)@).insert(
                key@,
                list_at(index_view(old(index)@), key@).push(id@),
            ),
    {
        let ghost m = index_view(index@);
        match index.find_str(key.as_str()) {
            Some(i) => {
                proof { index.lemma_entry_in_view(i as int); }
                let ghost old_list = index@[key@];
                let list = index.value_at_mut(i);
                list.push(id.clone());
                proof {
                    assert(views_of(list@) =~= views_of(old_list@).push(id@));
                }
            },
            None => {
                let mut list: Vec<String> = Vec::new();
                list.push(id.clone());
                index.push_new(key.clone(), list);
                proof {
                    assert(views_of(list@) =~= Seq::<Seq<char>>::empty().push(id@));
                }
            },
        }
        assert(index_view(index@) =~= m.insert(key@, list_at(m, key@).push(id@)));
    }

    /// Register a shard under its content ID (replacing one with the same
    /// ID), indexed by layer and owner; the registry's version goes up.
    pub fn register(&mut self, shard: ModelShard)
        requires
            vv_count(old(self)@.version, old(self)@.node) < u64::MAX,
        ensures
            final(self)@ == registered(old(self)@, shard@),
    {
        proof { use_type_invariant(&*self); }
        let ghost pre = self@;
        let content_id = shard.content_id.clone();
        let layer_id = shard.layer_id.clone();
        let owner_node = shard.owner_node.clone();
        let mut tmp = ShardRegistry {
            shards: StrMap::new(),
            layer_shards: StrMap::new(),
            node_shards: StrMap::new(),
            node_id: String::new(),
            version: VersionVector::new(),
        };
        std::mem::swap(self, &mut tmp);
        proof { use_type_invariant(&tmp); }
        let ShardRegistry { mut shards, mut layer_shards, mut node_shards, node_id, mut version } = tmp;
        Self::append_id(&mut layer_shards, &layer_id, &content_id);
        Self::append_id(&mut node_shards, &owner_node, &content_id);
        let ghost sv = shard@;
        shards.insert(content_id, shard);
        version.increment(node_id.as_str());
        *self = ShardRegistry { shards, layer_shards, node_shards, node_id, version };
        assert(self@.shards =~= pre.shards.insert(sv.content_id, sv));
    }

    /// The shard with a content ID.
    pub fn get(&self, content_id: &str) -> (r: Option<&ModelShard>)
        ensures
            match r {
                Some(s) => self@.shards.contains_key(content_id@) && s@ == self@.shards[content_id@],
                None => !self@.shards.contains_key(content_id@),
            },
    {
        proof { use_type_invariant(self); }
        self.shards.get_str(content_id)
    }

    fn resolve(&self, ids: &Vec<String>) -> (v: Vec<&ModelShard>)
        ensures
            v@.len() == resolve_ids(views_of(ids@), self@.shards).len(),
            forall|i: int| 0 <= i < v@.len() ==> (#[trigger] v@[i])@ == resolve_ids(views_of(ids@), self@.shards)[i],
    {
        proof { use_type_invariant(self); }
        let ghost w = views_of(ids@);
        let mut v: Vec<&ModelShard> = Vec::new();
        let mut i: usize = 0;
        while i < ids.len()
            invariant
                self.shards.wf(),
                w == views_of(ids@),
                i <= ids@.len(),
                v@.len() == resolve_ids(w.subrange(0, i as int), self@.shards).len(),
                forall|j: int| 0 <= j < v@.len() ==> (#[trigger] v@[j])@ == resolve_ids(
                    w.subrange(0, i as int),
                    self@.shards,
                )[j],
            decreases ids@.len() - i,
        {
            proof { assert(w.subrange(0, i + 1).drop_last() =~= w.subrange(0, i as int)); }
            match self.shards.get_str(ids[i].as_str()) {
                Some(s) => {
                    v.push(s);
                },
                None => {},
            }
            i = i + 1;
        }
        assert(w.subrange(0, w.len() as int) =~= w);
        v
    }

    /// The stored shards registered for a layer, in registration order.
    pub fn get_layer_shards(&self, layer_id: &str) -> (v: Vec<&ModelShard>)
        ensures
            v@.len() == resolve_ids(list_at(self@.layers, layer_id@), self@.shards).len(),
            forall|i: int| 0 <= i < v@.len() ==> (#[trigger] v@[i])@ == resolve_ids(
                list_at(self@.layers, layer_id@),
                self@.shards,
            )[i],
    {
        proof { use_type_invariant(self); }
        match self.layer_shards.get_str(layer_id) {
            Some(ids) => self.resolve(ids),
            None => {
                assert(list_at(self@.layers, layer_id@) =~= Seq::<Seq<char>>::empty());
                Vec::new()
            },
        }
    }

    /// The stored shards registered for an owner node, in registration
    /// order.
    pub fn get_node_shards(&self, node_id: &str) -> (v: Vec<&ModelShard>)
        ensures
            v@.len() == resolve_ids(list_at(self@.nodes, node_id@), self@.shards).len(),
            forall|i: int| 0 <= i < v@.len() ==> (#[trigger] v@[i])@ == resolve_ids(
                list_at(self@.nodes, node_id@),
                self@.shards,
            )[i],
    {
        proof { use_type_invariant(self); }
        match self.node_shards.get_str(node_id) {
            Some(ids) => self.resolve(ids),
            None => {
                assert(list_at(self@.nodes, node_id@) =~= Seq::<Seq<char>>::empty());
                Vec::new()
            },
        }
    }

    /// The shards this node owns.
    pub fn my_shards(&self) -> (v: Vec<&ModelShard>)
        ensures
            v@.len() == resolve_ids(list_at(self@.nodes, self@.node), self@.shards).len(),
            forall|i: int| 0 <= i < v@.len() ==> (#[trigger] v@[i])@ == resolve_ids(
                list_at(self@.nodes, self@.node),
                self@.shards,
            )[i],
    {
        self.get_node_shards(self.node_id.as_str())
    }

    fn layer_is_ready(&self, l: &str, order: &Vec<String>) -> (b: bool)
        ensures
            b == layer_ready(self.shard_list(), l@, views_of(order@)),
    {
        let ghost s = self.shard_list();
        let ghost o = views_of(order@);
        let n = self.shards.len_raw();
        let mut j: usize = 0;
        while j < n
            invariant
                s == self.shard_list(),
                o == views_of(order@),
                n == s.len(),
                j <= n,
                forall|q: int, d: Seq<char>| 0 <= q < j && s[q].layer_id == l@ && #[trigger] s[q].dependencies.contains(
                    d,
                ) ==> o.contains(d),
            decreases n - j,
        {
            let sh = self.shards.value_at(j);
            proof { assert(s[j as int] == sh@); }
            if str_eq(sh.layer_id.as_str(), l) {
                let mut k: usize = 0;
                while k < sh.dependencies.len()
                    invariant
                        s == self.shard_list(),
                        o == views_of(order@),
                        n == s.len(),
                        j < n,
                        s[j as int] == sh@,
                        s[j as int].layer_id == l@,
                        k <= sh.dependencies@.len(),
                        forall|q: int| 0 <= q < k ==> o.contains(#[trigger] s[j as int].dependencies[q]),
                    decreases sh.dependencies@.len() - k,
                {
                    if !contains_str(order, sh.dependencies[k].as_str()) {
                        proof {
                            assert(s[j as int].dependencies[k as int] == sh.dependencies@[k as int]@);
                            assert(s[j as int].dependencies.contains(sh.dependencies@[k as int]@));
                            assert(!layer_ready(s, l@, o));
                        }
                        return false;
                    }
                    k = k + 1;
                }
                proof {
                    assert forall|d: Seq<char>| #[trigger] s[j as int].dependencies.contains(d) implies o.contains(d) by {
                        let q = choose|q: int| 0 <= q < s[j as int].dependencies.len() && s[j as int].dependencies[q] == d;
                        assert(o.contains(s[j as int].dependencies[q]));
                    }
                }
            }
            j = j + 1;
        }
        true
    }

    /// The layers in an order they can run in: each once, after every
    /// dependency of its shards; a layer waiting, directly or not, on a
    /// missing layer or on a cycle is left out.
    pub fn execution_order(&self) -> (order: Vec<String>)
        ensures
            is_execution_order(self.shard_list(), views_of(order@)),
    {
        let ghost s = self.shard_list();
        let n = self.shards.len_raw();
        let mut order: Vec<String> = Vec::new();
        loop
            invariant
                s == self.shard_list(),
                n == s.len(),
                partial_execution_order(s, views_of(order@)),
                order@.len() <= n,
            ensures
                is_execution_order(s, views_of(order@)),
            decreases n - order@.len(),
        {
            let mut progress = false;
            let ghost start = views_of(order@);
            let mut i: usize = 0;
            while i < n
                invariant
                    s == self.shard_list(),
                    n == s.len(),
                    i <= n,
                    partial_execution_order(s, views_of(order@)),
                    order@.len() <= n,
                    !progress ==> views_of(order@) == start,
                    progress ==> views_of(order@).len() > start.len(),
                    views_of(order@).len() >= start.len(),
                    !progress ==> forall|j: int| 0 <= j < i ==> views_of(order@).contains(#[trigger] s[j].layer_id)
                        || !layer_ready(s, s[j].layer_id, views_of(order@)),
                decreases n - i,
            {
                let sh = self.shards.value_at(i);
                proof { assert(s[i as int] == sh@); }
                if !contains_str(&order, sh.layer_id.as_str()) && self.layer_is_ready(sh.layer_id.as_str(), &order) {
                    let ghost before = views_of(order@);
                    order.push(sh.layer_id.clone());
                    proof {
                        let o = views_of(order@);
                        assert(o =~= before.push(sh.layer_id@));
                        lemma_push_partial(s, before, i as int);
                        lemma_order_len_bound(s, o);
                    }
                    progress = true;
                }
                i = i + 1;
            }
            if !progress {
                proof {
                    assert(views_of(order@) == start);
                    assert forall|j: int| 0 <= j < s.len() && layer_ready(
                        s,
                        #[trigger] s[j].layer_id,
                        views_of(order@),
                    ) implies views_of(order@).contains(s[j].layer_id) by {}
                }
                break;
            }
        }
        order
    }

    /// Make a shard for each layer, owned round-robin by `nodes`, and
    /// register them in order.
    pub fn shard_model(&mut self, layers: Vec<(String, String, Vec<String>)>, nodes: &[String]) -> (r: Vec<
        ModelShard,
    >)
        requires
            layers@.len() > 0 ==> nodes@.len() > 0,
            vv_count(old(self)@.version, old(self)@.node) + layers@.len() <= u64::MAX,
        ensures
            r@.len() == layers@.len(),
            forall|i: int| 0 <= i < r@.len() ==> (#[trigger] r@[i])@ == (ShardView {
                content_id: shard_content_id(layers@[i].0@, 0, layers@[i].1@),
                layer_id: layers@[i].0@,
                shard_idx: 0,
                total_shards: 1,
                weights_hash: layers@[i].1@,
                version: Map::<Seq<char>, u64>::empty(),
                owner_node: nodes@[i % nodes@.len() as int]@,
                dependencies: views_of(layers@[i].2@),
            }),
            final(self)@ == registered_all(old(self)@, r@.map_values(|s: ModelShard| s@)),
    {
        let ghost start = self@;
        let mut result: Vec<ModelShard> = Vec::new();
        let mut i: usize = 0;
        while i < layers.len()
            invariant
                i <= layers@.len(),
                layers@.len() > 0 ==> nodes@.len() > 0,
                result@.len() == i,
                self@.node == start.node,
                vv_count(self@.version, self@.node) == vv_count(start.version, start.node) + i,
                vv_count(start.version, start.node) + layers@.len() <= u64::MAX,
                forall|q: int| 0 <= q < i ==> (#[trigger] result@[q])@ == (ShardView {
                    content_id: shard_content_id(layers@[q].0@, 0, layers@[q].1@),
                    layer_id: layers@[q].0@,
                    shard_idx: 0,
                    total_shards: 1,
                    weights_hash: layers@[q].1@,
                    version: Map::<Seq<char>, u64>::empty(),
                    owner_node: nodes@[q % nodes@.len() as int]@,
                    dependencies: views_of(layers@[q].2@),
                }),
                self@ == registered_all(start, result@.map_values(|s: ModelShard| s@)),
            decreases layers@.len() - i,
        {
            let owner = nodes[i % nodes.len()].clone();
            let shard = ModelShard::new(
                layers[i].0.clone(),
                0,
                1,
                layers[i].1.clone(),
                owner,
                copy_strings(&layers[i].2),
            );
            let ghost before = result@;
            self.register(shard.copy());
            result.push(shard);
            proof {
                assert(result@.map_values(|s: ModelShard| s@).drop_last() =~= before.map_values(|s: ModelShard| s@));
            }
            i = i + 1;
        }
        result
    }

    fn replace_shard(&mut self, shard: ModelShard)
        requires
            old(self)@.shards.contains_key(shard.content_id@),
        ensures
            final(self)@ == (RegistryView { shards: old(self)@.shards.insert(shard.content_id@, shard@), ..old(self)@ }),
    {
        proof { use_type_invariant(&*self); }
        let ghost pre = self@;
        let mut tmp = ShardRegistry {
            shards: StrMap::new(),
            layer_shards: StrMap::new(),
            node_shards: StrMap::new(),
            node_id: String::new(),
            version: VersionVector::new(),
        };
        std::mem::swap(self, &mut tmp);
        proof { use_type_invariant(&tmp); }
        let ShardRegistry { mut shards, layer_shards, node_shards, node_id, version } = tmp;
        let ghost sv = shard@;
        let key = shard.content_id.clone();
        shards.insert(key, shard);
        *self = ShardRegistry { shards, layer_shards, node_shards, node_id, version };
        assert(self@.shards =~= pre.shards.insert(sv.content_id, sv));
    }

    /// Merge another registry: its new shards are registered in order, a
    /// known shard is replaced by the other's when that one has seen more
    /// operations, and the version vectors merge.
    pub fn merge(&mut self, other: &ShardRegistry)
        requires
            vv_count(old(self)@.version, old(self)@.node) + other.shard_list().len() <= u64::MAX,
            forall|k: Seq<char>| #[trigger] old(self)@.shards.contains_key(k) ==> map_sum(
                old(self)@.shards[k].version,
            ) <= u64::MAX,
            forall|j: int| 0 <= j < other.shard_list().len() ==> map_sum(
                (#[trigger] other.shard_list()[j]).version,
            ) <= u64::MAX,
        ensures
            final(self)@ == (RegistryView {
                version: vv_merge(merged_all(old(self)@, other.shard_list()).version, other@.version),
                ..merged_all(old(self)@, other.shard_list())
            }),
    {
        proof { use_type_invariant(other); }
        let ghost start = self@;
        let ghost theirs = other.shard_list();
        let n = other.shards.len_raw();
        let mut i: usize = 0;
        while i < n
            invariant
                theirs == other.shard_list(),
                n == theirs.len(),
                other.shards.wf(),
                forall|k: Seq<char>| #[trigger] other.shards@.contains_key(k) ==> other.shards@[k].content_id@ == k,
                i <= n,
                self@ == merged_all(start, theirs.subrange(0, i as int)),
                self@.node == start.node,
                vv_count(self@.version, self@.node) <= vv_count(start.version, start.node) + i,
                vv_count(start.version, start.node) + n <= u64::MAX,
                forall|k: Seq<char>| #[trigger] self@.shards.contains_key(k) ==> map_sum(self@.shards[k].version)
                    <= u64::MAX,
                forall|j: int| 0 <= j < theirs.len() ==> map_sum((#[trigger] theirs[j]).version) <= u64::MAX,
            decreases n - i,
        {
            proof {
                assert(theirs.subrange(0, i + 1).drop_last() =~= theirs.subrange(0, i as int));
                other.shards.lemma_entry_in_view(i as int);
                use_type_invariant(&*self);
            }
            let shard = other.shards.value_at(i);
            proof { assert(theirs[i as int] == shard@); }
            match self.shards.get_str(shard.content_id.as_str()) {
                None => {
                    self.register(shard.copy());
                },
                Some(existing) => {
                    proof {
                        assert(self@.shards.contains_key(shard.content_id@));
                        assert(self@.shards[shard.content_id@] == existing@);
                    }
                    if shard.version.total_operations() > existing.version.total_operations() {
                        self.replace_shard(shard.copy());
                    }
                },
            }
            i = i + 1;
        }
        proof { assert(theirs.subrange(0, n as int) =~= theirs); }
        let merged = self.version.merge(&other.version);
        let mut tmp = ShardRegistry {
            shards: StrMap::new(),
            layer_shards: StrMap::new(),
            node_shards: StrMap::new(),
            node_id: String::new(),
            version: VersionVector::new(),
        };
        std::mem::swap(self, &mut tmp);
        proof { use_type_invariant(&tmp); }
        let ShardRegistry { shards, layer_shards, node_shards, node_id, version: _ } = tmp;
        *self = ShardRegistry { shards, layer_shards, node_shards, node_id, version: merged };
    }

    /// The number of layers with registered shards.
    pub fn layer_count(&self) -> (n: usize)
        ensures
            n == self@.layers.dom().len(),
    {
        proof {
            use_type_invariant(self);
            self.layer_shards.lemma_len();
            assert(self@.layers.dom() =~= self.layer_shards@.dom());
        }
        self.layer_shards.len()
    }

    /// The number of stored shards.
    pub fn shard_count(&self) -> (n: usize)
        ensures
            n == self@.shards.dom().len(),
    {
        proof {
            use_type_invariant(self);
            self.shards.lemma_len();
            assert(self@.shards.dom() =~= self.shards@.dom());
        }
        self.shards.len()
    }
}

} // verus!
