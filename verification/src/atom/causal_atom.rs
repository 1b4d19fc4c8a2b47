//! The causal atom: a value with metadata (identity, version, provenance),
//! from which documents, counters and composites are built.

use vstd::prelude::*;
use vstd::string::StringSliceAdditionalSpecFns;
use vstd::utf8::encode_utf8;
use crate::assoc::str_eq;
use crate::atom::meta::{AtomMeta, MetaV};
use crate::digest::{le_bytes, push_le_bytes, push_str_bytes, sha256_hex, sha256_hex_of};
use crate::json::{bytes_json, int_text, json_quote, json_string_of, push_bytes, push_strs, strs_json};
use crate::order::{strictly_sorted, lemma_sorted_seq_exists, lemma_sorted_seq_of, sorted_seq_of, sorted_unique, string_views};
use crate::version_vector::{lemma_vv_merge_commutative, lemma_vv_merge_idempotent, lemma_vv_merge_least_upper_bound, vv_count, vv_happens_before, vv_merge};
use crate::assoc::map_sum;
use crate::atom::meta::copy_strings;
use crate::text::{decimal, push_decimal, string_push_str};
use crate::version_vector::entries_json;

verus! {

/// The value an atom holds. A floating-point number is kept as its
/// shortest decimal text.
#[derive(Debug)]
pub enum AtomValue {
    Null,
    Bool(bool),
    Int(i64),
    Float(String),
    String(String),
    Bytes(Vec<u8>),
    List(Vec<CausalAtom>),
    Dict(Vec<(String, CausalAtom)>),
    Ref(String),
}

/// A value and its metadata.
#[derive(Debug)]
pub struct CausalAtom {
    pub value: AtomValue,
    pub meta: AtomMeta,
}

/// An atom's value, as values.
pub enum ValueV {
    Null,
    Bool(bool),
    Int(i64),
    Float(Seq<char>),
    Str(Seq<char>),
    Bytes(Seq<u8>),
    List(Seq<AtomV>),
    Dict(Seq<(Seq<char>, AtomV)>),
    Ref(Seq<char>),
}

/// An atom, as values.
pub struct AtomV {
    pub value: ValueV,
    pub meta: MetaV,
}

/// The value of an atom value.
pub open spec fn value_view(v: AtomValue) -> ValueV
    decreases v,
{
    match v {
        AtomValue::Null => ValueV::Null,
        AtomValue::Bool(b) => ValueV::Bool(b),
        AtomValue::Int(i) => ValueV::Int(i),
        AtomValue::Float(t) => ValueV::Float(t@),
        AtomValue::String(s) => ValueV::Str(s@),
        AtomValue::Bytes(b) => ValueV::Bytes(b@),
        AtomValue::List(l) => ValueV::List(list_view(l@, l@.len() as int)),
        AtomValue::Dict(m) => ValueV::Dict(map_view(m@, m@.len() as int)),
        AtomValue::Ref(r) => ValueV::Ref(r@),
    }
}

/// The value of an atom.
pub open spec fn atom_view(a: CausalAtom) -> AtomV
    decreases a,
{
    AtomV { value: value_view(a.value), meta: a.meta@ }
}

/// The values of the first `i` atoms of a list.
pub open spec fn list_view(s: Seq<CausalAtom>, i: int) -> Seq<AtomV>
    decreases s, i,
{
    if i <= 0 || i > s.len() { Seq::empty() } else { list_view(s, i - 1).push(atom_view(s[i - 1])) }
}

/// The values of the first `i` entries of a map.
pub open spec fn map_view(s: Seq<(String, CausalAtom)>, i: int) -> Seq<(Seq<char>, AtomV)>
    decreases s, i,
{
    if i <= 0 || i > s.len() { Seq::empty() } else { map_view(s, i - 1).push((s[i - 1].0@, atom_view(s[i - 1].1))) }
}

impl View for AtomValue {
    type V = ValueV;

    open spec fn view(&self) -> ValueV {
        value_view(*self)
    }
}

impl View for CausalAtom {
    type V = AtomV;

    open spec fn view(&self) -> AtomV {
        atom_view(*self)
    }
}

pub proof fn lemma_list_view(s: Seq<CausalAtom>, i: int)
    requires
        0 <= i <= s.len(),
    ensures
        list_view(s, i).len() == i,
        forall|k: int| 0 <= k < i ==> #[trigger] list_view(s, i)[k] == atom_view(s[k]),
    decreases i,
{
    if i > 0 {
        lemma_list_view(s, i - 1);
    }
}

pub proof fn lemma_map_view(s: Seq<(String, CausalAtom)>, i: int)
    requires
        0 <= i <= s.len(),
    ensures
        map_view(s, i).len() == i,
        forall|k: int| 0 <= k < i ==> #[trigger] map_view(s, i)[k] == (s[k].0@, atom_view(s[k].1)),
    decreases i,
{
    if i > 0 {
        lemma_map_view(s, i - 1);
    }
}

/// The JSON text of atom metadata, fields in declaration order.
pub open spec fn meta_json(m: AtomMeta) -> Seq<char> {
    "{\"id\":"@ + json_string_of(m.id@) + ",\"version\":{\"versions\":{"@ + entries_json(m.version.entries())
        + "}},\"creator\":"@ + json_string_of(m.creator@) + ",\"created_at\":"@ + decimal(m.created_at as nat)
        + ",\"modified_at\":"@ + decimal(m.modified_at as nat) + ",\"dependencies\":["@ + strs_json(
        string_views(m.dependencies@),
    ) + "],\"tags\":["@ + strs_json(string_views(m.tags@)) + "]}"@
}

/// The JSON text of an atom value, each variant tagged by its name.
pub open spec fn value_json(v: AtomValue) -> Seq<char>
    decreases v,
{
    match v {
        AtomValue::Null => "\"Null\""@,
        AtomValue::Bool(b) => "{\"Bool\":"@ + (if b { "true"@ } else { "false"@ }) + "}"@,
        AtomValue::Int(i) => "{\"Int\":"@ + int_text(i as int) + "}"@,
        AtomValue::Float(t) => "{\"Float\":"@ + t@ + "}"@,
        AtomValue::String(s) => "{\"String\":"@ + json_string_of(s@) + "}"@,
        AtomValue::Bytes(b) => "{\"Bytes\":["@ + bytes_json(b@) + "]}"@,
        AtomValue::List(l) => "{\"List\":["@ + list_json(l@, l@.len() as int) + "]}"@,
        AtomValue::Dict(m) => "{\"Map\":["@ + dict_json(m@, m@.len() as int) + "]}"@,
        AtomValue::Ref(r) => "{\"Ref\":"@ + json_string_of(r@) + "}"@,
    }
}

/// The JSON text of an atom: its value and its metadata.
pub open spec fn atom_json(a: CausalAtom) -> Seq<char>
    decreases a,
{
    "{\"value\":"@ + value_json(a.value) + ",\"meta\":"@ + meta_json(a.meta) + "}"@
}

/// The first `i` atoms of a list in JSON, separated by commas.
pub open spec fn list_json(s: Seq<CausalAtom>, i: int) -> Seq<char>
    decreases s, i,
{
    if i <= 0 || i > s.len() {
        Seq::empty()
    } else if i == 1 {
        atom_json(s[0])
    } else {
        list_json(s, i - 1) + ","@ + atom_json(s[i - 1])
    }
}

/// The first `i` entries of a map in JSON, each as a two-element array.
pub open spec fn dict_json(s: Seq<(String, CausalAtom)>, i: int) -> Seq<char>
    decreases s, i,
{
    if i <= 0 || i > s.len() {
        Seq::empty()
    } else if i == 1 {
        "["@ + json_string_of(s[0].0@) + ","@ + atom_json(s[0].1) + "]"@
    } else {
        dict_json(s, i - 1) + ",["@ + json_string_of(s[i - 1].0@) + ","@ + atom_json(s[i - 1].1) + "]"@
    }
}

/// An atom's ID: `atom_` and the first 16 hex digits of the SHA-256 of the
/// value's JSON text, the creator and the creation time.
pub open spec fn atom_id_for(value: AtomValue, creator: Seq<char>, created_at: u64) -> Seq<char> {
    "atom_"@ + sha256_hex_of(encode_utf8(value_json(value)) + encode_utf8(creator) + le_bytes(created_at)).subrange(
        0,
        16,
    )
}

fn push_meta(out: &mut String, m: &AtomMeta)
    ensures
        final(out)@ == old(out)@ + meta_json(*m),
{
    let ghost o0 = out@;
    string_push_str(out, "{\"id\":");
    let q = json_quote(m.id.as_str());
    string_push_str(out, q.as_str());
    string_push_str(out, ",\"version\":{\"versions\":");
    let v = m.version.versions_json();
    string_push_str(out, v.as_str());
    string_push_str(out, "},\"creator\":");
    let ghost o1 = out@;
    proof {
        reveal_strlit(",\"version\":{\"versions\":");
        reveal_strlit(",\"version\":{\"versions\":{");
        reveal_strlit("{");
        reveal_strlit("}");
        reveal_strlit("},\"creator\":");
        reveal_strlit("}},\"creator\":");
    }
    assert(o1 =~= o0 + "{\"id\":"@ + json_string_of(m.id@) + ",\"version\":{\"versions\":{"@ + entries_json(
        m.version.entries(),
    ) + "}},\"creator\":"@);
    let c = json_quote(m.creator.as_str());
    string_push_str(out, c.as_str());
    string_push_str(out, ",\"created_at\":");
    push_decimal(out, m.created_at);
    string_push_str(out, ",\"modified_at\":");
    push_decimal(out, m.modified_at);
    string_push_str(out, ",\"dependencies\":[");
    let ghost o2 = out@;
    assert(o2 =~= o1 + json_string_of(m.creator@) + ",\"created_at\":"@ + decimal(m.created_at as nat)
        + ",\"modified_at\":"@ + decimal(m.modified_at as nat) + ",\"dependencies\":["@);
    push_strs(out, &m.dependencies);
    string_push_str(out, "],\"tags\":[");
    push_strs(out, &m.tags);
    string_push_str(out, "]}");
    assert(out@ =~= o2 + strs_json(string_views(m.dependencies@)) + "],\"tags\":["@ + strs_json(
        string_views(m.tags@),
    ) + "]}"@);
    assert(out@ =~= o0 + meta_json(*m));
}

#[verifier::rlimit(50)]
fn push_value(out: &mut String, v: &AtomValue)
    ensures
        final(out)@ == old(out)@ + value_json(*v),
    decreases v,
{
    let ghost o0 = out@;
    match v {
        AtomValue::Null => string_push_str(out, "\"Null\""),
        AtomValue::Bool(b) => {
            string_push_str(out, "{\"Bool\":");
            if *b {
                string_push_str(out, "true");
            } else {
                string_push_str(out, "false");
            }
            string_push_str(out, "}");
            assert(out@ =~= o0 + value_json(*v));
        },
        AtomValue::Int(i) => {
            string_push_str(out, "{\"Int\":");
            if *i < 0 {
                string_push_str(out, "-");
                let m: u64 = (0i128 - (*i as i128)) as u64;
                push_decimal(out, m);
                proof {
                    reveal_strlit("-");
                    assert(m as int == -(*i as int));
                }
            } else {
                push_decimal(out, *i as u64);
            }
            string_push_str(out, "}");
            assert(out@ =~= o0 + value_json(*v));
        },
        AtomValue::Float(t) => {
            string_push_str(out, "{\"Float\":");
            string_push_str(out, t.as_str());
            string_push_str(out, "}");
            assert(out@ =~= o0 + value_json(*v));
        },
        AtomValue::String(s) => {
            string_push_str(out, "{\"String\":");
            let q = json_quote(s.as_str());
            string_push_str(out, q.as_str());
            string_push_str(out, "}");
            assert(out@ =~= o0 + value_json(*v));
        },
        AtomValue::Bytes(b) => {
            string_push_str(out, "{\"Bytes\":[");
            push_bytes(out, b);
            string_push_str(out, "]}");
            assert(out@ =~= o0 + value_json(*v));
        },
        AtomValue::List(l) => {
            string_push_str(out, "{\"List\":[");
            let mut i: usize = 0;
            while i < l.len()
                invariant
                    *v == AtomValue::List(*l),
                    i <= l@.len(),
                    out@ == o0 + "{\"List\":["@ + list_json(l@, i as int),
                decreases l@.len() - i,
            {
                if i > 0 {
                    string_push_str(out, ",");
                }
                proof {
                    let ghost w = v->List_0;
                    assert(decreases_to!(*v => w));
                    assert(decreases_to!(w => w@));
                    assert(decreases_to!(w@ => w@[i as int]));
                }
                push_atom(out, &l[i]);
                proof { assert(out@ =~= o0 + "{\"List\":["@ + list_json(l@, i + 1)); }
                i = i + 1;
            }
            string_push_str(out, "]}");
            assert(out@ =~= o0 + value_json(*v));
        },
        AtomValue::Dict(m) => {
            string_push_str(out, "{\"Map\":[");
            let mut i: usize = 0;
            while i < m.len()
                invariant
                    *v == AtomValue::Dict(*m),
                    i <= m@.len(),
                    out@ == o0 + "{\"Map\":["@ + dict_json(m@, i as int),
                decreases m@.len() - i,
            {
                if i > 0 {
                    string_push_str(out, ",[");
                } else {
                    string_push_str(out, "[");
                }
                let q = json_quote(m[i].0.as_str());
                string_push_str(out, q.as_str());
                string_push_str(out, ",");
                proof {
                    let ghost w = v->Dict_0;
                    assert(decreases_to!(*v => w));
                    assert(decreases_to!(w => w@));
                    assert(decreases_to!(w@ => w@[i as int]));
                    assert(decreases_to!(w@[i as int] => w@[i as int].1));
                }
                push_atom(out, &m[i].1);
                string_push_str(out, "]");
                proof { assert(out@ =~= o0 + "{\"Map\":["@ + dict_json(m@, i + 1)); }
                i = i + 1;
            }
            string_push_str(out, "]}");
            assert(out@ =~= o0 + value_json(*v));
        },
        AtomValue::Ref(r) => {
            string_push_str(out, "{\"Ref\":");
            let q = json_quote(r.as_str());
            string_push_str(out, q.as_str());
            string_push_str(out, "}");
            assert(out@ =~= o0 + value_json(*v));
        },
    }
}

fn push_atom(out: &mut String, a: &CausalAtom)
    ensures
        final(out)@ == old(out)@ + atom_json(*a),
    decreases a,
{
    let ghost o0 = out@;
    string_push_str(out, "{\"value\":");
    proof { assert(decreases_to!(*a => a.value)); }
    push_value(out, &a.value);
    string_push_str(out, ",\"meta\":");
    push_meta(out, &a.meta);
    string_push_str(out, "}");
    assert(out@ =~= o0 + atom_json(*a));
}

impl AtomValue {
    /// A deep copy.
    pub fn copy(&self) -> (r: AtomValue)
        ensures
            r@ == self@,
        decreases self,
    {
        match self {
            AtomValue::Null => AtomValue::Null,
            AtomValue::Bool(b) => AtomValue::Bool(*b),
            AtomValue::Int(i) => AtomValue::Int(*i),
            AtomValue::Float(t) => AtomValue::Float(t.clone()),
            AtomValue::String(s) => AtomValue::String(s.clone()),
            AtomValue::Bytes(b) => {
                let mut r: Vec<u8> = Vec::new();
                let mut i: usize = 0;
                while i < b.len()
                    invariant
                        i <= b@.len(),
                        r@ == b@.subrange(0, i as int),
                    decreases b@.len() - i,
                {
                    r.push(b[i]);
                    i = i + 1;
                    assert(r@ =~= b@.subrange(0, i as int));
                }
                assert(b@.subrange(0, b@.len() as int) =~= b@);
                AtomValue::Bytes(r)
            },
            AtomValue::List(l) => {
                let mut r: Vec<CausalAtom> = Vec::new();
                let mut i: usize = 0;
                while i < l.len()
                    invariant
                        *self == AtomValue::List(*l),
                        i <= l@.len(),
                        r@.len() == i,
                        forall|k: int| 0 <= k < i ==> (#[trigger] r@[k])@ == l@[k]@,
                    decreases l@.len() - i,
                {
                    proof {
                        let ghost w = self->List_0;
                        assert(decreases_to!(*self => w));
                        assert(decreases_to!(w => w@));
                        assert(decreases_to!(w@ => w@[i as int]));
                    }
                    r.push(l[i].copy());
                    i = i + 1;
                }
                proof {
                    lemma_list_view(r@, r@.len() as int);
                    lemma_list_view(l@, l@.len() as int);
                    assert(list_view(r@, r@.len() as int) =~= list_view(l@, l@.len() as int));
                }
                AtomValue::List(r)
            },
            AtomValue::Dict(m) => {
                let mut r: Vec<(String, CausalAtom)> = Vec::new();
                let mut i: usize = 0;
                while i < m.len()
                    invariant
                        *self == AtomValue::Dict(*m),
                        i <= m@.len(),
                        r@.len() == i,
                        forall|k: int| 0 <= k < i ==> (#[trigger] r@[k]).0@ == m@[k].0@ && r@[k].1@ == m@[k].1@,
                    decreases m@.len() - i,
                {
                    proof {
                        let ghost w = self->Dict_0;
                        assert(decreases_to!(*self => w));
                        assert(decreases_to!(w => w@));
                        assert(decreases_to!(w@ => w@[i as int]));
                        assert(decreases_to!(w@[i as int] => w@[i as int].1));
                    }
                    let a = m[i].1.copy();
                    r.push((m[i].0.clone(), a));
                    i = i + 1;
                }
                proof {
                    lemma_map_view(r@, r@.len() as int);
                    lemma_map_view(m@, m@.len() as int);
                    assert(map_view(r@, r@.len() as int) =~= map_view(m@, m@.len() as int));
                }
                AtomValue::Dict(r)
            },
            AtomValue::Ref(s) => AtomValue::Ref(s.clone()),
        }
    }
}

/// The name of a value's type.
pub open spec fn type_name_of(v: ValueV) -> Seq<char> {
    match v {
        ValueV::Null => "null"@,
        ValueV::Bool(_) => "bool"@,
        ValueV::Int(_) => "int"@,
        ValueV::Float(_) => "float"@,
        ValueV::Str(_) => "string"@,
        ValueV::Bytes(_) => "bytes"@,
        ValueV::List(_) => "list"@,
        ValueV::Dict(_) => "map"@,
        ValueV::Ref(_) => "ref"@,
    }
}

impl AtomValue {
    /// The name of the value's type: `null`, `bool`, `int`, `float`,
    /// `string`, `bytes`, `list`, `map` or `ref`.
    pub fn type_label(&self) -> (r: &str)
        ensures
            r@ == type_name_of(self@),
    {
        match self {
            AtomValue::Null => "null",
            AtomValue::Bool(_) => "bool",
            AtomValue::Int(_) => "int",
            AtomValue::Float(_) => "float",
            AtomValue::String(_) => "string",
            AtomValue::Bytes(_) => "bytes",
            AtomValue::List(_) => "list",
            AtomValue::Dict(_) => "map",
            AtomValue::Ref(_) => "ref",
        }
    }

    /// Whether the value is null.
    pub fn is_null(&self) -> (b: bool)
        ensures
            b == (self@ is Null),
    {
        match self {
            AtomValue::Null => true,
            _ => false,
        }
    }

    /// The text of a string value; `None` for any other value.
    pub fn as_string(&self) -> (r: Option<&str>)
        ensures
            match self@ {
                ValueV::Str(t) => r is Some && r->Some_0@ == t,
                _ => r is None,
            },
    {
        match self {
            AtomValue::String(s) => Some(s.as_str()),
            _ => None,
        }
    }

    /// The integer of an integer value; `None` for any other value.
    pub fn as_int(&self) -> (r: Option<i64>)
        ensures
            match self@ {
                ValueV::Int(i) => r == Some(i),
                _ => r is None,
            },
    {
        match self {
            AtomValue::Int(i) => Some(*i),
            _ => None,
        }
    }
}

/// A newly made atom: the value, the creator, version 1 at the creator,
/// made and modified at one time, no dependencies or tags, and the ID
/// that the value, creator and creation time give.
pub open spec fn is_new_atom(a: CausalAtom, value: AtomValue, creator: Seq<char>) -> bool {
    &&& a.value == value
    &&& a.meta.creator@ == creator
    &&& a.meta.version@ == Map::<Seq<char>, u64>::empty().insert(creator, 1u64)
    &&& a.meta.created_at == a.meta.modified_at
    &&& a.meta.dependencies@.len() == 0
    &&& a.meta.tags@.len() == 0
    &&& a.meta.id@ == atom_id_for(value, creator, a.meta.created_at)
}

/// The later of two atoms by modification time (the first on a tie).
pub open spec fn lww_winner(a: AtomV, b: AtomV) -> AtomV {
    if a.meta.modified_at >= b.meta.modified_at { a } else { b }
}

/// What replacing the value of atom `o` by `value` gives: the value, one
/// more operation of the creator, and the ID of the new value; creator,
/// creation time, dependencies and tags unchanged.
pub open spec fn is_value_set(n: AtomV, o: AtomV, value: AtomValue) -> bool {
    &&& n.value == value@
    &&& n.meta.version == o.meta.version.insert(o.meta.creator, (vv_count(o.meta.version, o.meta.creator) + 1) as u64)
    &&& n.meta.id == atom_id_for(value, o.meta.creator, o.meta.created_at)
    &&& n.meta.creator == o.meta.creator
    &&& n.meta.created_at == o.meta.created_at
    &&& n.meta.dependencies == o.meta.dependencies
    &&& n.meta.tags == o.meta.tags
}

/// Last-writer-wins merge of two atoms: the later one's value and
/// metadata, with the join of both versions and the union of both
/// dependency sets.
pub open spec fn lww_merge(a: AtomV, b: AtomV) -> AtomV {
    let w = lww_winner(a, b);
    AtomV {
        value: w.value,
        meta: MetaV {
            id: w.meta.id,
            version: vv_merge(a.meta.version, b.meta.version),
            creator: w.meta.creator,
            created_at: w.meta.created_at,
            modified_at: w.meta.modified_at,
            dependencies: sorted_seq_of(a.meta.dependencies.to_set() + b.meta.dependencies.to_set()),
            tags: w.meta.tags,
        },
    }
}

impl CausalAtom {
    fn update_id(&mut self)
        ensures
            final(self).value == old(self).value,
            final(self).meta.id@ == atom_id_for(old(self).value, old(self).meta.creator@, old(self).meta.created_at),
            final(self).meta.version == old(self).meta.version,
            final(self).meta.creator == old(self).meta.creator,
            final(self).meta.created_at == old(self).meta.created_at,
            final(self).meta.modified_at == old(self).meta.modified_at,
            final(self).meta.dependencies == old(self).meta.dependencies,
            final(self).meta.tags == old(self).meta.tags,
    {
        let mut text = String::new();
        push_value(&mut text, &self.value);
        let mut bytes: Vec<u8> = Vec::new();
        push_str_bytes(&mut bytes, text.as_str());
        push_str_bytes(&mut bytes, self.meta.creator.as_str());
        push_le_bytes(&mut bytes, self.meta.created_at);
        let hex = sha256_hex(bytes.as_slice());
        let mut id = String::from_str("atom_");
        string_push_str(&mut id, hex.as_str().substring_char(0, 16));
        self.meta.id = id;
    }

    /// A new atom holding `value`, made now by `creator`.
    pub fn new(value: AtomValue, creator: String) -> (a: Self)
        ensures
            is_new_atom(a, value, creator@),
    {
        let mut meta = AtomMeta::new(creator.clone());
        meta.version.increment(creator.as_str());
        let mut atom = CausalAtom { value, meta };
        atom.update_id();
        atom
    }

    /// A new null atom.
    pub fn null(creator: String) -> (a: Self)
        ensures
            is_new_atom(a, AtomValue::Null, creator@),
    {
        Self::new(AtomValue::Null, creator)
    }

    /// A new boolean atom.
    pub fn bool(value: bool, creator: String) -> (a: Self)
        ensures
            is_new_atom(a, AtomValue::Bool(value), creator@),
    {
        Self::new(AtomValue::Bool(value), creator)
    }

    /// A new integer atom.
    pub fn integer(value: i64, creator: String) -> (a: Self)
        ensures
            is_new_atom(a, AtomValue::Int(value), creator@),
    {
        Self::new(AtomValue::Int(value), creator)
    }

    /// A new string atom.
    pub fn string(value: String, creator: String) -> (a: Self)
        ensures
            is_new_atom(a, AtomValue::String(value), creator@),
    {
        Self::new(AtomValue::String(value), creator)
    }

    /// A new bytes atom.
    pub fn bytes(value: Vec<u8>, creator: String) -> (a: Self)
        ensures
            is_new_atom(a, AtomValue::Bytes(value), creator@),
    {
        Self::new(AtomValue::Bytes(value), creator)
    }

    /// A new list atom.
    pub fn list(values: Vec<CausalAtom>, creator: String) -> (a: Self)
        ensures
            is_new_atom(a, AtomValue::List(values), creator@),
    {
        Self::new(AtomValue::List(values), creator)
    }

    /// A new map atom, its entries in the given order.
    pub fn map(entries: Vec<(String, CausalAtom)>, creator: String) -> (a: Self)
        ensures
            is_new_atom(a, AtomValue::Dict(entries), creator@),
    {
        Self::new(AtomValue::Dict(entries), creator)
    }

    /// A new atom referring to the atom with ID `target_id`.
    pub fn reference(target_id: String, creator: String) -> (a: Self)
        ensures
            is_new_atom(a, AtomValue::Ref(target_id), creator@),
    {
        Self::new(AtomValue::Ref(target_id), creator)
    }

    /// The atom's ID.
    pub fn id(&self) -> (r: &str)
        ensures
            r@ == self.meta.id@,
    {
        self.meta.id.as_str()
    }

    /// The atom's value.
    pub fn value(&self) -> (r: &AtomValue)
        ensures
            *r == self.value,
    {
        &self.value
    }

    /// The name of the type of the atom's value.
    pub fn value_type(&self) -> (r: &str)
        ensures
            r@ == type_name_of(self.value@),
    {
        self.value.type_label()
    }

    /// Replaces the value: the modification time is now, the creator's
    /// count goes up by one, and the ID is that of the new value.
    pub fn set_value(&mut self, value: AtomValue)
        requires
            old(self).meta.version.count(old(self).meta.creator@) < u64::MAX,
        ensures
            final(self).value == value,
            final(self).meta.version@ == old(self).meta.version@.insert(
                old(self).meta.creator@,
                (old(self).meta.version.count(old(self).meta.creator@) + 1) as u64,
            ),
            final(self).meta.id@ == atom_id_for(value, old(self).meta.creator@, old(self).meta.created_at),
            final(self).meta.creator == old(self).meta.creator,
            final(self).meta.created_at == old(self).meta.created_at,
            final(self).meta.dependencies == old(self).meta.dependencies,
            final(self).meta.tags == old(self).meta.tags,
            is_value_set(final(self)@, old(self)@, value),
    {
        self.value = value;
        self.meta.touch();
        self.meta.version.increment(self.meta.creator.as_str());
        self.update_id();
    }

    /// Adds a dependency: the dependencies are then the old ones and
    /// `atom_id`, in increasing order, each once.
    pub fn add_dependency(&mut self, atom_id: String)
        ensures
            final(self).value == old(self).value,
            final(self).meta.id == old(self).meta.id,
            final(self).meta.version == old(self).meta.version,
            final(self).meta.creator == old(self).meta.creator,
            final(self).meta.created_at == old(self).meta.created_at,
            final(self).meta.modified_at == old(self).meta.modified_at,
            final(self).meta.tags == old(self).meta.tags,
            final(self)@.meta.dependencies == sorted_seq_of(old(self)@.meta.dependencies.to_set().insert(atom_id@)),
    {
        let ghost x = atom_id@;
        let ghost d0 = string_views(self.meta.dependencies@);
        self.meta.dependencies.push(atom_id);
        let deps = sorted_unique(&self.meta.dependencies);
        proof {
            let d1 = string_views(self.meta.dependencies@);
            assert(d1 =~= d0.push(x));
            d0.lemma_push_to_set_commute(x);
            lemma_sorted_seq_of(string_views(deps@));
        }
        self.meta.dependencies = deps;
    }

    /// Appends a tag.
    pub fn add_tag(&mut self, tag: String)
        ensures
            final(self).value == old(self).value,
            final(self).meta.id == old(self).meta.id,
            final(self).meta.version == old(self).meta.version,
            final(self).meta.creator == old(self).meta.creator,
            final(self).meta.created_at == old(self).meta.created_at,
            final(self).meta.modified_at == old(self).meta.modified_at,
            final(self).meta.dependencies == old(self).meta.dependencies,
            final(self)@.meta.tags == old(self)@.meta.tags.push(tag@),
    {
        let ghost t0 = self.meta.tags@;
        self.meta.tags.push(tag);
        assert(string_views(self.meta.tags@) =~= string_views(t0).push(self.meta.tags@.last()@));
    }

    /// Whether this atom has seen more operations than `other`, counted over
    /// all nodes of the versions.
    pub fn is_newer_than(&self, other: &CausalAtom) -> (b: bool)
        requires
            map_sum(self.meta.version@) <= u64::MAX,
            map_sum(other.meta.version@) <= u64::MAX,
        ensures
            b == (map_sum(self.meta.version@) > map_sum(other.meta.version@)),
    {
        self.meta.version.total_operations() > other.meta.version.total_operations()
    }

    /// A deep copy.
    pub fn copy(&self) -> (r: CausalAtom)
        ensures
            r@ == self@,
        decreases self,
    {
        proof {
            assert(decreases_to!(*self => self.value));
        }
        CausalAtom { value: self.value.copy(), meta: self.meta.copy() }
    }

    /// Last-writer-wins merge: the atom modified later (this one on a tie),
    /// with the join of both versions and the union of both dependency
    /// sets.
    pub fn merge(&self, other: &CausalAtom) -> (r: CausalAtom)
        ensures
            r@ == lww_merge(self@, other@),
    {
        let version = self.meta.version.merge(&other.meta.version);
        let mut all = copy_strings(&self.meta.dependencies);
        let mut i: usize = 0;
        while i < other.meta.dependencies.len()
            invariant
                i <= other.meta.dependencies@.len(),
                string_views(all@) == string_views(self.meta.dependencies@) + string_views(
                    other.meta.dependencies@.subrange(0, i as int),
                ),
            decreases other.meta.dependencies@.len() - i,
        {
            let d = other.meta.dependencies[i].clone();
            assert(d@ == other.meta.dependencies@[i as int]@);
            let ghost a0 = all@;
            all.push(d);
            proof {
                assert(string_views(all@) =~= string_views(a0).push(d@));
                assert(string_views(other.meta.dependencies@.subrange(0, i + 1)) =~= string_views(
                    other.meta.dependencies@.subrange(0, i as int),
                ).push(d@));
            }
            i = i + 1;
            assert(string_views(all@) =~= string_views(self.meta.dependencies@) + string_views(
                other.meta.dependencies@.subrange(0, i as int),
            ));
        }
        let deps = sorted_unique(&all);
        proof {
            let (a, b) = (string_views(self.meta.dependencies@), string_views(other.meta.dependencies@));
            assert(other.meta.dependencies@.subrange(0, i as int) =~= other.meta.dependencies@);
            vstd::seq_lib::seq_to_set_distributes_over_add(a, b);
            assert((a + b).to_set() == a.to_set() + b.to_set());
            lemma_sorted_seq_of(string_views(deps@));
        }
        let mut result = if self.meta.modified_at >= other.meta.modified_at {
            self.copy()
        } else {
            other.copy()
        };
        result.meta.version = version;
        result.meta.dependencies = deps;
        proof {
            let w = lww_winner(self@, other@);
            assert(result@.meta =~= lww_merge(self@, other@).meta);
        }
        result
    }

    /// A new counter atom: an integer atom.
    pub fn counter(initial: i64, creator: String) -> (a: Self)
        ensures
            is_new_atom(a, AtomValue::Int(initial), creator@),
    {
        Self::integer(initial, creator)
    }

    /// A new counter atom made by `creator`, holding this atom's integer
    /// (0 for another value) plus `amount`, and depending on this atom.
    pub fn increment(&self, amount: i64, creator: &str) -> (a: Self)
        requires
            match self.value@ {
                ValueV::Int(i) => i64::MIN <= i + amount <= i64::MAX,
                _ => true,
            },
        ensures
            a.value@ == ValueV::Int(
                match self.value@ {
                    ValueV::Int(i) => (i + amount) as i64,
                    _ => amount,
                },
            ),
            a.meta.creator@ == creator@,
            a.meta.version@ == Map::<Seq<char>, u64>::empty().insert(creator@, 1u64),
            a.meta.created_at == a.meta.modified_at,
            a.meta.id@ == atom_id_for(a.value, creator@, a.meta.created_at),
            a.meta.tags@.len() == 0,
            a@.meta.dependencies == seq![self.meta.id@],
    {
        let current: i64 = match self.value.as_int() {
            Some(i) => i,
            None => 0,
        };
        let mut atom = Self::integer(current + amount, creator.to_string());
        let ghost d0 = atom.meta.dependencies@;
        let id = self.meta.id.clone();
        assert(id@ == self.meta.id@);
        atom.add_dependency(id);
        proof {
            assert(string_views(d0) =~= Seq::<Seq<char>>::empty());
            let q = seq![self.meta.id@];
            assert(q[0] == self.meta.id@);
            assert forall|y: Seq<char>| q.to_set().contains(y) <==> y == self.meta.id@ by {
                if q.to_set().contains(y) {
                    let k = choose|k: int| 0 <= k < q.len() && q[k] == y;
                    assert(k == 0);
                }
            }
            assert(q.to_set() =~= Set::<Seq<char>>::empty().insert(self.meta.id@));
            assert(string_views(d0).to_set() =~= Set::<Seq<char>>::empty());
            assert(strictly_sorted(q));
            lemma_sorted_seq_of(q);
            assert(sorted_seq_of(string_views(d0).to_set().insert(id@)) == q);
        }
        atom
    }
}

/// The values of a list of atoms.
pub open spec fn atom_views(s: Seq<CausalAtom>) -> Seq<AtomV> {
    list_view(s, s.len() as int)
}

/// The values of a list of keyed atoms.
pub open spec fn dict_views(s: Seq<(String, CausalAtom)>) -> Seq<(Seq<char>, AtomV)> {
    map_view(s, s.len() as int)
}

/// Whether some atom of a list has the ID `id`.
pub open spec fn has_id(m: Seq<AtomV>, id: Seq<char>) -> bool {
    exists|k: int| 0 <= k < m.len() && m[k].meta.id == id
}

/// The first position from `i` on whose key is `key`; the length if none.
pub open spec fn key_pos(m: Seq<(Seq<char>, AtomV)>, key: Seq<char>, i: int) -> int
    decreases m.len() - i,
{
    if i < 0 || i >= m.len() {
        m.len() as int
    } else if m[i].0 == key {
        i
    } else {
        key_pos(m, key, i + 1)
    }
}

/// Deep merge of two atoms. Two lists: the first list, then each item of
/// the second in turn is merged into every item with its ID, or appended
/// where none has it. Two maps: the first map, then each entry of the
/// second in turn is merged into the first entry with its key, or
/// appended where none has it. Lists and maps keep the first atom's
/// metadata. Any other pair: last-writer-wins merge.
pub open spec fn deep_merge_v(a: AtomV, b: AtomV) -> AtomV
    decreases b,
{
    match b.value {
        ValueV::List(y) => match a.value {
            ValueV::List(x) => AtomV { value: ValueV::List(merge_lists(x, y, y.len() as int)), meta: a.meta },
            _ => lww_merge(a, b),
        },
        ValueV::Dict(y) => match a.value {
            ValueV::Dict(x) => AtomV { value: ValueV::Dict(merge_dicts(x, y, y.len() as int)), meta: a.meta },
            _ => lww_merge(a, b),
        },
        _ => lww_merge(a, b),
    }
}

/// `x` with the first `n` items of `y` merged in by ID.
pub open spec fn merge_lists(x: Seq<AtomV>, y: Seq<AtomV>, n: int) -> Seq<AtomV>
    decreases y, n,
{
    if n <= 0 || n > y.len() {
        x
    } else {
        let m = merge_lists(x, y, n - 1);
        if has_id(m, y[n - 1].meta.id) {
            update_matches(m, y, n - 1, 0)
        } else {
            m.push(y[n - 1])
        }
    }
}

/// `m` with each item from position `k` on that has the ID of `y[j]`
/// deep-merged with `y[j]`.
pub open spec fn update_matches(m: Seq<AtomV>, y: Seq<AtomV>, j: int, k: int) -> Seq<AtomV>
    decreases y, j, m.len() - k,
{
    if k < 0 || k >= m.len() || j < 0 || j >= y.len() {
        m
    } else if m[k].meta.id == y[j].meta.id {
        update_matches(m.update(k, deep_merge_v(m[k], y[j])), y, j, k + 1)
    } else {
        update_matches(m, y, j, k + 1)
    }
}

/// `x` with the first `n` entries of `y` merged in by key.
pub open spec fn merge_dicts(x: Seq<(Seq<char>, AtomV)>, y: Seq<(Seq<char>, AtomV)>, n: int) -> Seq<
    (Seq<char>, AtomV),
>
    decreases y, n,
{
    if n <= 0 || n > y.len() {
        x
    } else {
        let m = merge_dicts(x, y, n - 1);
        let (key, val) = y[n - 1];
        let p = key_pos(m, key, 0);
        if p < m.len() {
            m.update(p, (m[p].0, deep_merge_v(m[p].1, val)))
        } else {
            m.push((key, val))
        }
    }
}

proof fn lemma_atom_views_push(s: Seq<CausalAtom>, a: CausalAtom)
    ensures
        atom_views(s.push(a)) == atom_views(s).push(a@),
{
    lemma_list_view(s.push(a), s.len() + 1int);
    lemma_list_view(s, s.len() as int);
    assert(atom_views(s.push(a)) =~= atom_views(s).push(a@));
}

proof fn lemma_atom_views_update(s: Seq<CausalAtom>, j: int, a: CausalAtom)
    requires
        0 <= j < s.len(),
    ensures
        atom_views(s.update(j, a)) == atom_views(s).update(j, a@),
{
    lemma_list_view(s.update(j, a), s.len() as int);
    lemma_list_view(s, s.len() as int);
    assert(atom_views(s.update(j, a)) =~= atom_views(s).update(j, a@));
}

proof fn lemma_dict_views_push(s: Seq<(String, CausalAtom)>, e: (String, CausalAtom))
    ensures
        dict_views(s.push(e)) == dict_views(s).push((e.0@, e.1@)),
{
    lemma_map_view(s.push(e), s.len() + 1int);
    lemma_map_view(s, s.len() as int);
    assert(dict_views(s.push(e)) =~= dict_views(s).push((e.0@, e.1@)));
}

proof fn lemma_dict_views_update(s: Seq<(String, CausalAtom)>, j: int, e: (String, CausalAtom))
    requires
        0 <= j < s.len(),
    ensures
        dict_views(s.update(j, e)) == dict_views(s).update(j, (e.0@, e.1@)),
{
    lemma_map_view(s.update(j, e), s.len() as int);
    lemma_map_view(s, s.len() as int);
    assert(dict_views(s.update(j, e)) =~= dict_views(s).update(j, (e.0@, e.1@)));
}

proof fn lemma_key_pos(m: Seq<(Seq<char>, AtomV)>, key: Seq<char>, i: int, j: int)
    requires
        0 <= i <= j <= m.len(),
        forall|k: int| i <= k < j ==> m[k].0 != key,
        j == m.len() || m[j].0 == key,
    ensures
        key_pos(m, key, i) == j,
    decreases j - i,
{
    if i < j {
        lemma_key_pos(m, key, i + 1, j);
    }
}

fn contains_id(m: &Vec<CausalAtom>, id: &str) -> (b: bool)
    ensures
        b == has_id(atom_views(m@), id@),
{
    proof { lemma_list_view(m@, m@.len() as int); }
    let mut k: usize = 0;
    while k < m.len()
        invariant
            k <= m@.len(),
            forall|l: int| 0 <= l < k ==> (#[trigger] atom_views(m@)[l]).meta.id != id@,
            forall|l: int| 0 <= l < m@.len() ==> #[trigger] atom_views(m@)[l] == atom_view(m@[l]),
            atom_views(m@).len() == m@.len(),
        decreases m@.len() - k,
    {
        if str_eq(m[k].meta.id.as_str(), id) {
            assert(atom_views(m@)[k as int].meta.id == id@);
            return true;
        }
        k = k + 1;
    }
    false
}

fn find_key(m: &Vec<(String, CausalAtom)>, key: &str) -> (p: usize)
    ensures
        p == key_pos(dict_views(m@), key@, 0),
{
    proof { lemma_map_view(m@, m@.len() as int); }
    let mut k: usize = 0;
    while k < m.len()
        invariant
            k <= m@.len(),
            forall|l: int| 0 <= l < k ==> (#[trigger] dict_views(m@)[l]).0 != key@,
            forall|l: int| 0 <= l < m@.len() ==> #[trigger] dict_views(m@)[l] == (m@[l].0@, atom_view(m@[l].1)),
            dict_views(m@).len() == m@.len(),
        decreases m@.len() - k,
    {
        if str_eq(m[k].0.as_str(), key) {
            proof { lemma_key_pos(dict_views(m@), key@, 0, k as int); }
            return k;
        }
        k = k + 1;
    }
    proof { lemma_key_pos(dict_views(m@), key@, 0, k as int); }
    k
}

impl CausalAtom {
    /// Deep merge (see `deep_merge_v`): lists merge item by item by ID,
    /// maps entry by entry by key, anything else last-writer-wins.
    pub fn deep_merge(&self, other: &CausalAtom) -> (r: CausalAtom)
        ensures
            r@ == deep_merge_v(self@, other@),
        decreases other,
    {
        match &other.value {
            AtomValue::List(b) => {
                let is_list = match &self.value {
                    AtomValue::List(_) => true,
                    _ => false,
                };
                if !is_list {
                    return self.merge(other);
                }
                let copied = self.value.copy();
                let mut merged: Vec<CausalAtom> = match copied {
                    AtomValue::List(v) => v,
                    _ => Vec::new(),
                };
                let ghost x = atom_views(merged@);
                let ghost y = atom_views(b@);
                proof { lemma_list_view(b@, b@.len() as int); }
                let mut i: usize = 0;
                while i < b.len()
                    invariant
                        other.value == AtomValue::List(*b),
                        i <= b@.len(),
                        y == atom_views(b@),
                        y.len() == b@.len(),
                        forall|l: int| 0 <= l < b@.len() ==> #[trigger] y[l] == atom_view(b@[l]),
                        atom_views(merged@) == merge_lists(x, y, i as int),
                    decreases b@.len() - i,
                {
                    let item = &b[i];
                    proof {
                        let ghost w = other.value->List_0;
                        assert(decreases_to!(*other => other.value));
                        assert(decreases_to!(other.value => w));
                        assert(decreases_to!(w => w@));
                        assert(decreases_to!(w@ => w@[i as int]));
                        assert(y[i as int] == atom_view(*item));
                        assert(y[i as int].meta.id == item.meta.id@);
                    }
                    if !contains_id(&merged, item.meta.id.as_str()) {
                        let c = item.copy();
                        proof { lemma_atom_views_push(merged@, c); }
                        merged.push(c);
                        assert(atom_views(merged@) == merge_lists(x, y, i + 1));
                    } else {
                        let ghost target = merge_lists(x, y, i + 1);
                        let mut j: usize = 0;
                        while j < merged.len()
                            invariant
                                other.value == AtomValue::List(*b),
                                i < b@.len(),
                                *item == b@[i as int],
                                y.len() == b@.len(),
                                y[i as int] == atom_view(*item),
                                y[i as int].meta.id == item.meta.id@,
                                decreases_to!(*other => *item),
                                j <= merged@.len(),
                                update_matches(atom_views(merged@), y, i as int, j as int) == target,
                            decreases merged@.len() - j,
                        {
                            proof { lemma_list_view(merged@, merged@.len() as int); }
                            let ghost cur = atom_views(merged@);
                            assert(cur[j as int] == atom_view(merged@[j as int]));
                            if str_eq(merged[j].meta.id.as_str(), item.meta.id.as_str()) {
                                let nm = merged[j].deep_merge(item);
                                proof { lemma_atom_views_update(merged@, j as int, nm); }
                                merged[j] = nm;
                                assert(atom_views(merged@) == cur.update(j as int, deep_merge_v(cur[j as int], y[i as int])));
                            } else {
                                assert(cur[j as int].meta.id != y[i as int].meta.id);
                            }
                            j = j + 1;
                        }
                        proof { lemma_list_view(merged@, merged@.len() as int); }
                        assert(update_matches(atom_views(merged@), y, i as int, j as int) == atom_views(merged@));
                        assert(atom_views(merged@) == merge_lists(x, y, i + 1));
                    }
                    i = i + 1;
                }
                proof { lemma_list_view(merged@, merged@.len() as int); }
                CausalAtom { value: AtomValue::List(merged), meta: self.meta.copy() }
            },
            AtomValue::Dict(b) => {
                let is_dict = match &self.value {
                    AtomValue::Dict(_) => true,
                    _ => false,
                };
                if !is_dict {
                    return self.merge(other);
                }
                let copied = self.value.copy();
                let mut merged: Vec<(String, CausalAtom)> = match copied {
                    AtomValue::Dict(v) => v,
                    _ => Vec::new(),
                };
                let ghost x = dict_views(merged@);
                let ghost y = dict_views(b@);
                proof { lemma_map_view(b@, b@.len() as int); }
                let mut i: usize = 0;
                while i < b.len()
                    invariant
                        other.value == AtomValue::Dict(*b),
                        i <= b@.len(),
                        y == dict_views(b@),
                        y.len() == b@.len(),
                        forall|l: int| 0 <= l < b@.len() ==> #[trigger] y[l] == (b@[l].0@, atom_view(b@[l].1)),
                        dict_views(merged@) == merge_dicts(x, y, i as int),
                    decreases b@.len() - i,
                {
                    let entry = &b[i];
                    proof {
                        let ghost w = other.value->Dict_0;
                        assert(decreases_to!(*other => other.value));
                        assert(decreases_to!(other.value => w));
                        assert(decreases_to!(w => w@));
                        assert(decreases_to!(w@ => w@[i as int]));
                        assert(decreases_to!(w@[i as int] => w@[i as int].1));
                        lemma_map_view(merged@, merged@.len() as int);
                    }
                    let p = find_key(&merged, entry.0.as_str());
                    if p < merged.len() {
                        let nm = merged[p].1.deep_merge(&entry.1);
                        let k = merged[p].0.clone();
                        let e = (k, nm);
                        proof { lemma_dict_views_update(merged@, p as int, e); }
                        merged[p] = e;
                    } else {
                        let e = (entry.0.clone(), entry.1.copy());
                        proof { lemma_dict_views_push(merged@, e); }
                        merged.push(e);
                    }
                    i = i + 1;
                }
                CausalAtom { value: AtomValue::Dict(merged), meta: self.meta.copy() }
            },
            _ => self.merge(other),
        }
    }
}

/// Merging atoms modified at different times does not depend on the
/// order of the arguments: the later one wins either way, and versions and
/// dependencies are joined.
pub proof fn lemma_atom_merge_commutes(a: AtomV, b: AtomV)
    requires
        a.meta.modified_at != b.meta.modified_at,
    ensures
        lww_merge(a, b) == lww_merge(b, a),
{
    lemma_vv_merge_commutative(a.meta.version, b.meta.version);
    assert(a.meta.dependencies.to_set() + b.meta.dependencies.to_set() =~= b.meta.dependencies.to_set()
        + a.meta.dependencies.to_set());
}

/// Merging an atom with itself changes nothing, once its dependencies are
/// in increasing order, each once (as every operation leaves them).
pub proof fn lemma_atom_merge_idempotent(a: AtomV)
    requires
        strictly_sorted(a.meta.dependencies),
    ensures
        lww_merge(a, a) == a,
{
    lemma_vv_merge_idempotent(a.meta.version);
    assert(a.meta.dependencies.to_set() + a.meta.dependencies.to_set() =~= a.meta.dependencies.to_set());
    lemma_sorted_seq_of(a.meta.dependencies);
}

/// The result of a merge has seen everything both atoms have seen: its
/// version is at least each of theirs, and it depends on every atom
/// either of them depends on.
pub proof fn lemma_atom_merge_covers(a: AtomV, b: AtomV)
    ensures
        vv_happens_before(a.meta.version, lww_merge(a, b).meta.version),
        vv_happens_before(b.meta.version, lww_merge(a, b).meta.version),
        lww_merge(a, b).meta.dependencies.to_set() == a.meta.dependencies.to_set() + b.meta.dependencies.to_set(),
{
    let u = a.meta.dependencies.to_set() + b.meta.dependencies.to_set();
    vstd::seq_lib::seq_to_set_distributes_over_add(a.meta.dependencies, b.meta.dependencies);
    lemma_sorted_seq_exists(a.meta.dependencies + b.meta.dependencies);
    lemma_vv_merge_least_upper_bound(a.meta.version, b.meta.version, vv_merge(a.meta.version, b.meta.version));
}

} // verus!
