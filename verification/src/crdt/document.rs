//! A collaborative document made of CRDTs: title, text, metadata,
//! collaborators and an edit counter.

use vstd::prelude::*;
use crate::crdt::counter::GCounter;
use crate::crdt::lww::{LWWMap, LWWRegister, lww_map_merged, lww_merged, live_entries};
use crate::crdt::orset::{merged_tags, ORSet};
use crate::crdt::rga::{RGAText, CharView, IdView, chars_put, lookup, remote_pos, visible_text, char_views, ids_sorted};
use crate::json::{Json, JsonNumber, JsonV, json_get};
use crate::version_vector::{vv_count, vv_merge};

verus! {

/// A collaborative document.
#[derive(Debug)]
pub struct CRDTDocument {
    pub id: String,
    pub title: LWWRegister<String>,
    pub content: RGAText,
    pub metadata: LWWMap<String, String>,
    pub collaborators: ORSet<String>,
    pub version_count: GCounter,
    pub node_id: String,
}

/// The metadata entries as a JSON object: each live `(key, value)` set in
/// order, keys kept sorted.
pub open spec fn metadata_json(live: Seq<(String, String)>) -> JsonV
    decreases live.len(),
{
    if live.len() == 0 {
        JsonV::Object(Seq::empty())
    } else {
        crate::json::json_set(metadata_json(live.drop_last()), live.last().0@, JsonV::Str(live.last().1@))
    }
}

/// The JSON strings of a list of texts.
pub open spec fn str_items(hs: Seq<Seq<char>>) -> Seq<JsonV> {
    hs.map_values(|h: Seq<char>| JsonV::Str(h))
}

/// The characters and order of a text after the first `n` characters of
/// `incoming` have been received in turn: a character already known is
/// skipped, any other is stored and placed where a remote insertion goes.
pub open spec fn content_merged(
    chars: Seq<CharView>,
    order: Seq<IdView>,
    incoming: Seq<CharView>,
    n: int,
) -> (Seq<CharView>, Seq<IdView>)
    decreases n,
{
    if n <= 0 || n > incoming.len() {
        (chars, order)
    } else {
        let (c0, o0) = content_merged(chars, order, incoming, n - 1);
        let c = incoming[n - 1];
        if lookup(c0, c.id) is Some {
            (c0, o0)
        } else {
            (chars_put(c0, c), o0.insert(remote_pos(o0, c), c.id))
        }
    }
}

impl CRDTDocument {
    /// An empty document.
    pub fn new(id: String, node_id: String) -> (d: Self)
        ensures
            d.id == id,
            d.node_id == node_id,
            d.title@.value@.len() == 0,
            d.title@.timestamp == 0,
            d.content.wf(),
            d.content.order().len() == 0,
            d.content.node() == node_id@,
            d.content.counter() == 0,
            d.version_count@ == Map::<Seq<char>, u64>::empty().insert(node_id@, 0),
            d.version_count.node() == node_id@,
    {
        CRDTDocument {
            id,
            title: LWWRegister::new(String::new(), node_id.clone()),
            content: RGAText::new(node_id.clone()),
            metadata: LWWMap::new(node_id.clone()),
            collaborators: ORSet::new(node_id.clone()),
            version_count: GCounter::new(node_id.clone()),
            node_id,
        }
    }

    /// Set the title (a new write) and count one edit.
    pub fn set_title(&mut self, title: String)
        requires
            vv_count(old(self).version_count@, old(self).version_count.node()) < u64::MAX,
        ensures
            final(self).title@.value == title,
            final(self).version_count@ == old(self).version_count@.insert(
                old(self).version_count.node(),
                (vv_count(old(self).version_count@, old(self).version_count.node()) + 1) as u64,
            ),
            final(self).version_count.node() == old(self).version_count.node(),
            final(self).content == old(self).content,
            final(self).id == old(self).id,
    {
        self.title.set(title);
        self.version_count.increment(1);
    }

    /// Insert text at a position of the order, character by character, and
    /// count one edit.
    pub fn insert_text(&mut self, position: usize, text: &str)
        requires
            old(self).content.wf(),
            position + text@.len() <= usize::MAX,
            old(self).content.counter() + text@.len() <= u64::MAX,
            vv_count(old(self).version_count@, old(self).version_count.node()) < u64::MAX,
        ensures
            final(self).content.wf(),
            final(self).content.node() == old(self).content.node(),
            final(self).content.counter() == old(self).content.counter() + text@.len(),
            final(self).content.order().len() == old(self).content.order().len() + text@.len(),
            final(self).version_count@ == old(self).version_count@.insert(
                old(self).version_count.node(),
                (vv_count(old(self).version_count@, old(self).version_count.node()) + 1) as u64,
            ),
            final(self).version_count.node() == old(self).version_count.node(),
            final(self).id == old(self).id,
    {
        let n = text.unicode_len();
        let mut i: usize = 0;
        while i < n
            invariant
                n == text@.len(),
                i <= n,
                position + n <= usize::MAX,
                self.content.wf(),
                self.content.node() == old(self).content.node(),
                self.content.counter() == old(self).content.counter() + i,
                old(self).content.counter() + n <= u64::MAX,
                self.content.order().len() == old(self).content.order().len() + i,
                self.version_count == old(self).version_count,
                self.id == old(self).id,
            decreases n - i,
        {
            let ch = text.get_char(i);
            self.content.insert(position + i, ch);
            i = i + 1;
        }
        self.version_count.increment(1);
    }

    /// Delete `length` characters at a position of the order (fewer when
    /// the order runs out), and count one edit.
    pub fn delete_text(&mut self, position: usize, length: usize)
        requires
            old(self).content.wf(),
            vv_count(old(self).version_count@, old(self).version_count.node()) < u64::MAX,
        ensures
            final(self).content.wf(),
            final(self).content.node() == old(self).content.node(),
            final(self).content.counter() == old(self).content.counter(),
            final(self).content.order() == if position < old(self).content.order().len() {
                old(self).content.order().subrange(0, position as int) + old(self).content.order().subrange(
                    if position + length <= old(self).content.order().len() {
                        position + length
                    } else {
                        old(self).content.order().len() as int
                    },
                    old(self).content.order().len() as int,
                )
            } else {
                old(self).content.order()
            },
            final(self).version_count@ == old(self).version_count@.insert(
                old(self).version_count.node(),
                (vv_count(old(self).version_count@, old(self).version_count.node()) + 1) as u64,
            ),
            final(self).version_count.node() == old(self).version_count.node(),
            final(self).id == old(self).id,
    {
        let ghost o = self.content.order();
        let mut i: usize = 0;
        while i < length
            invariant
                i <= length,
                self.content.wf(),
                self.content.node() == old(self).content.node(),
                self.content.counter() == old(self).content.counter(),
                o == old(self).content.order(),
                self.content.order() == if position < o.len() {
                    o.subrange(0, position as int) + o.subrange(
                        if position + i <= o.len() { position + i } else { o.len() as int },
                        o.len() as int,
                    )
                } else {
                    o
                },
                self.version_count == old(self).version_count,
                self.id == old(self).id,
            decreases length - i,
        {
            let ghost before = self.content.order();
            self.content.delete(position);
            proof {
                if position < o.len() {
                    if position + i < o.len() {
                        assert(before.remove(position as int) =~= o.subrange(0, position as int) + o.subrange(
                            position + i + 1,
                            o.len() as int,
                        ));
                    } else {
                        assert(before =~= o.subrange(0, position as int));
                    }
                } else {
                    assert(before == o);
                }
            }
            i = i + 1;
        }
        proof {
            if position < o.len() && position + length > o.len() {
                assert(o.subrange(o.len() as int, o.len() as int).len() == 0);
            }
        }
        self.version_count.increment(1);
    }

    /// Add a collaborator.
    pub fn add_collaborator(&mut self, collaborator: String)
        ensures
            final(self).content == old(self).content,
            final(self).collaborators.node() == old(self).collaborators.node(),
            final(self).collaborators.removed() == old(self).collaborators.removed(),
            final(self).version_count == old(self).version_count,
    {
        self.collaborators.add(collaborator);
    }

    /// Set a metadata entry (a new write).
    pub fn set_metadata(&mut self, key: String, value: String)
        ensures
            final(self).metadata.registers().dom() == old(self).metadata.registers().dom().insert(key@),
            final(self).metadata.registers()[key@].value == Some(value),
            final(self).content == old(self).content,
            final(self).version_count == old(self).version_count,
    {
        self.metadata.insert(key, value);
    }

    /// The document as JSON: collaborators (the hashes of the present
    /// ones), visible text, ID, metadata, title and edit count, keys in
    /// order.
    pub fn to_json(&self) -> (j: Json)
        requires
            self.content.wf(),
            self.version_count.spec_value() <= u64::MAX,
        ensures
            exists|hs: Seq<Seq<char>>| {
                &&& hs.no_duplicates()
                &&& (forall|i: int| 0 <= i < hs.len() ==> self.collaborators.live(#[trigger] hs[i]))
                &&& (forall|h: Seq<char>| self.collaborators.live(h) ==> hs.contains(h))
                &&& j@ == JsonV::Object(
                    seq![
                        ("collaborators"@, JsonV::Array(str_items(hs))),
                        ("content"@, JsonV::Str(visible_text(self.content.order(), self.content.chars()))),
                        ("id"@, JsonV::Str(self.id@)),
                        ("metadata"@, metadata_json(live_entries(self.metadata.entries()))),
                        ("title"@, JsonV::Str(self.title@.value@)),
                        ("version"@, JsonV::PosInt(self.version_count.spec_value() as u64)),
                    ],
                )
            },
    {
        let hashes = self.collaborators.elements();
        let ghost hs = hashes@.map_values(|s: String| s@);
        let mut items: Vec<Json> = Vec::new();
        let mut i: usize = 0;
        while i < hashes.len()
            invariant
                hs == hashes@.map_values(|s: String| s@),
                i <= hashes@.len(),
                items@.len() == i,
                forall|k: int| 0 <= k < i ==> (#[trigger] items@[k])@ == JsonV::Str(hs[k]),
            decreases hashes@.len() - i,
        {
            items.push(Json::String(hashes[i].clone()));
            i = i + 1;
        }
        proof {
            crate::json::lemma_items_view_pub(items@, items@.len() as int);
            assert(crate::json::items_view(items@, items@.len() as int) =~= str_items(hs));
        }
        let pairs = self.metadata.iter();
        let ghost live = live_entries(self.metadata.entries());
        let mut meta = Json::Object(Vec::new());
        proof { crate::json::lemma_members_view_pub(Seq::<(String, Json)>::empty(), 0); }
        let mut k: usize = 0;
        while k < pairs.len()
            invariant
                live == live_entries(self.metadata.entries()),
                pairs@.len() == live.len(),
                forall|q: int| 0 <= q < pairs@.len() ==> *(#[trigger] pairs@[q]).0 == live[q].0 && *pairs@[q].1 == live[q].1,
                k <= pairs@.len(),
                meta@ == metadata_json(live.subrange(0, k as int)),
                meta@ is Object,
            decreases pairs@.len() - k,
        {
            proof { assert(live.subrange(0, k + 1).drop_last() =~= live.subrange(0, k as int)); }
            let (key, value) = pairs[k];
            meta.set_member(key.clone(), Json::String(value.clone()));
            k = k + 1;
        }
        proof { assert(live.subrange(0, live.len() as int) =~= live); }
        let mut m: Vec<(String, Json)> = Vec::new();
        m.push((String::from_str("collaborators"), Json::Array(items)));
        m.push((String::from_str("content"), Json::String(self.content.to_string())));
        m.push((String::from_str("id"), Json::String(self.id.clone())));
        m.push((String::from_str("metadata"), meta));
        m.push((String::from_str("title"), Json::String(self.title.get().clone())));
        m.push((String::from_str("version"), Json::Number(JsonNumber::PosInt(self.version_count.value()))));
        let j = Json::Object(m);
        proof {
            crate::json::lemma_members_view_pub(m@, 6);
            assert(crate::json::members_view(m@, 6) =~= seq![
                ("collaborators"@, JsonV::Array(str_items(hs))),
                ("content"@, JsonV::Str(visible_text(self.content.order(), self.content.chars()))),
                ("id"@, JsonV::Str(self.id@)),
                ("metadata"@, metadata_json(live)),
                ("title"@, JsonV::Str(self.title@.value@)),
                ("version"@, JsonV::PosInt(self.version_count.spec_value() as u64)),
            ]);
        }
        j
    }

    /// Merge another replica of the document: title by last write, the
    /// characters it has that this one lacks, metadata, collaborators and
    /// the edit counter.
    pub fn merge(&mut self, other: &CRDTDocument)
        requires
            old(self).content.wf(),
            other.content.wf(),
        ensures
            lww_merged(old(self).title@, other.title@, final(self).title@),
            final(self).content.wf(),
            final(self).content.node() == old(self).content.node(),
            forall|id: IdView| #[trigger] lookup(other.content.chars(), id) is Some ==> lookup(
                final(self).content.chars(),
                id,
            ) is Some,
            (final(self).content.chars(), final(self).content.order()) == content_merged(
                old(self).content.chars(),
                old(self).content.order(),
                other.content.chars(),
                other.content.chars().len() as int,
            ),
            lww_map_merged(
                old(self).metadata.registers(),
                old(self).metadata.node(),
                other.metadata.registers(),
                final(self).metadata.registers(),
            ),
            final(self).metadata.node() == old(self).metadata.node(),
            final(self).collaborators.tags() == merged_tags(old(self).collaborators.tags(), other.collaborators.tags()),
            final(self).collaborators.removed() == old(self).collaborators.removed().union(other.collaborators.removed()),
            final(self).collaborators.node() == old(self).collaborators.node(),
            final(self).version_count@ == vv_merge(old(self).version_count@, other.version_count@),
            final(self).version_count.node() == old(self).version_count.node(),
            final(self).id == old(self).id,
            final(self).node_id == old(self).node_id,
    {
        self.title.merge(&other.title);
        let ghost title_after = self.title;
        proof { self.content.lemma_wf_sorted(); }
        let chars = other.content.get_all_characters();
        let ghost cs = char_views(chars@);
        let mut i: usize = 0;
        while i < chars.len()
            invariant
                cs == char_views(chars@),
                cs == other.content.chars(),
                i <= chars@.len(),
                self.content.wf(),
                ids_sorted(self.content.chars()),
                self.content.node() == old(self).content.node(),
                forall|k: int| 0 <= k < i ==> lookup(self.content.chars(), #[trigger] cs[k].id) is Some,
                (self.content.chars(), self.content.order()) == content_merged(
                    old(self).content.chars(),
                    old(self).content.order(),
                    cs,
                    i as int,
                ),
                self.version_count == old(self).version_count,
                self.metadata == old(self).metadata,
                self.collaborators == old(self).collaborators,
                self.id == old(self).id,
                self.node_id == old(self).node_id,
                self.title == title_after,
            decreases chars@.len() - i,
        {
            proof { self.content.lemma_wf_sorted(); }
            let c = chars[i].copy();
            let ghost before = self.content.chars();
            let ghost cv = c@;
            if !self.content.contains_character(&c.id) {
                self.content.insert_remote(c);
                proof {
                    crate::crdt::rga::lemma_put_sorted(before, cv);
                    assert forall|k: int| 0 <= k < i implies lookup(self.content.chars(), #[trigger] cs[k].id) is Some by {
                        crate::crdt::rga::lemma_put_keeps(before, cv, cs[k].id);
                    }
                }
            }
            proof {
                assert(cs[i as int] == chars@[i as int]@);
                self.content.lemma_wf_sorted();
            }
            i = i + 1;
        }
        proof {
            assert(cs.len() == chars@.len());
            assert forall|id: IdView| #[trigger] lookup(other.content.chars(), id) is Some implies lookup(
                self.content.chars(),
                id,
            ) is Some by {
                let p = crate::crdt::rga::lower_pos(cs, id);
                assert(0 <= p < cs.len()) by {
                    other.content.lemma_wf_sorted();
                    crate::crdt::rga::lemma_lower_pos(cs, id);
                }
                assert(cs[p].id == id);
            }
        }
        self.metadata.merge(&other.metadata);
        self.collaborators.merge(&other.collaborators);
        self.version_count.merge(&other.version_count);
    }
}

} // verus!
