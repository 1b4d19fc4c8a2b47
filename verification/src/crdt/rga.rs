//! RGA text: a replicated growable array of characters for collaborative
//! editing, with tombstones for deletions.

use vstd::prelude::*;
use crate::assoc::str_eq;
use crate::clock::unix_micros;
use crate::order::{str_lt, text_lt, lemma_text_lt_order};
use crate::text::string_push;

verus! {

/// A character ID, as values.
pub struct IdView {
    pub timestamp: u64,
    pub node: Seq<char>,
    pub sequence: u64,
}

/// Unique identifier of a character: ordered by timestamp, then node ID,
/// then sequence number.
#[derive(Clone, Debug, PartialEq, Eq, Hash, PartialOrd, Ord)]
pub struct CharacterId {
    pub timestamp: u64,
    pub node_id: String,
    pub sequence: u64,
}

impl View for CharacterId {
    type V = IdView;

    open spec fn view(&self) -> IdView {
        IdView { timestamp: self.timestamp, node: self.node_id@, sequence: self.sequence }
    }
}

/// The order of character IDs: by timestamp, then node ID, then sequence.
pub open spec fn id_lt(a: IdView, b: IdView) -> bool {
    a.timestamp < b.timestamp || (a.timestamp == b.timestamp && (text_lt(a.node, b.node) || (a.node == b.node
        && a.sequence < b.sequence)))
}

/// Character IDs are strictly and totally ordered.
pub proof fn lemma_id_order(a: IdView, b: IdView, c: IdView)
    ensures
        !id_lt(a, a),
        id_lt(a, b) && id_lt(b, c) ==> id_lt(a, c),
        a != b ==> id_lt(a, b) || id_lt(b, a),
        id_lt(a, b) ==> !id_lt(b, a),
{
    lemma_text_lt_order(a.node, b.node, c.node);
    lemma_text_lt_order(b.node, c.node, a.node);
    lemma_text_lt_order(a.node, c.node, b.node);
}

impl CharacterId {
    /// A character ID.
    pub fn new(timestamp: u64, node_id: String, sequence: u64) -> (c: Self)
        ensures
            c.timestamp == timestamp,
            c.node_id == node_id,
            c.sequence == sequence,
    {
        CharacterId { timestamp, node_id, sequence }
    }

    /// A copy of this ID.
    pub fn copy(&self) -> (c: Self)
        ensures
            c == *self,
    {
        CharacterId { timestamp: self.timestamp, node_id: self.node_id.clone(), sequence: self.sequence }
    }

    /// Whether this ID sorts before `other`.
    pub fn less_than(&self, other: &CharacterId) -> (b: bool)
        ensures
            b == id_lt(self@, other@),
    {
        if self.timestamp != other.timestamp {
            self.timestamp < other.timestamp
        } else if str_lt(self.node_id.as_str(), other.node_id.as_str()) {
            true
        } else if str_eq(self.node_id.as_str(), other.node_id.as_str()) {
            self.sequence < other.sequence
        } else {
            false
        }
    }

    /// Whether this ID equals `other`.
    pub fn same(&self, other: &CharacterId) -> (b: bool)
        ensures
            b == (self@ == other@),
    {
        self.timestamp == other.timestamp && self.sequence == other.sequence && str_eq(
            self.node_id.as_str(),
            other.node_id.as_str(),
        )
    }
}

/// A character of the array, as values.
pub struct CharView {
    pub id: IdView,
    pub value: char,
    pub deleted: bool,
    pub after: Option<IdView>,
}

/// The view of an optional ID.
pub open spec fn opt_id(o: Option<CharacterId>) -> Option<IdView> {
    match o {
        Some(c) => Some(c@),
        None => None,
    }
}

/// A character in the array, with a tombstone for deletion.
#[derive(Clone, Debug)]
pub struct RGACharacter {
    pub id: CharacterId,
    pub value: char,
    pub deleted: bool,
    pub inserted_after: Option<CharacterId>,
}

impl View for RGACharacter {
    type V = CharView;

    open spec fn view(&self) -> CharView {
        CharView { id: self.id@, value: self.value, deleted: self.deleted, after: opt_id(self.inserted_after) }
    }
}

impl RGACharacter {
    /// A copy of this character.
    pub fn copy(&self) -> (c: Self)
        ensures
            c@ == self@,
    {
        RGACharacter {
            id: self.id.copy(),
            value: self.value,
            deleted: self.deleted,
            inserted_after: match &self.inserted_after {
                Some(a) => Some(a.copy()),
                None => None,
            },
        }
    }
}

/// The characters are in strictly increasing ID order.
pub open spec fn ids_sorted(s: Seq<CharView>) -> bool {
    forall|i: int, j: int| 0 <= i < j < s.len() ==> id_lt(#[trigger] s[i].id, #[trigger] s[j].id)
}

/// The first position from `i` on whose ID is not below `id`.
pub open spec fn pos_from(s: Seq<CharView>, id: IdView, i: int) -> int
    decreases s.len() - i,
{
    if i < 0 || i >= s.len() {
        s.len() as int
    } else if id_lt(s[i].id, id) {
        pos_from(s, id, i + 1)
    } else {
        i
    }
}

/// Where `id` stands, or would stand, in a sorted list of characters.
pub open spec fn lower_pos(s: Seq<CharView>, id: IdView) -> int {
    pos_from(s, id, 0)
}

/// The character with ID `id`, if there is one.
pub open spec fn lookup(s: Seq<CharView>, id: IdView) -> Option<CharView> {
    let p = lower_pos(s, id);
    if p < s.len() && s[p].id == id { Some(s[p]) } else { None }
}

/// The list with `c` stored under its ID: replacing a character with that
/// ID, or inserted in ID order.
pub open spec fn chars_put(s: Seq<CharView>, c: CharView) -> Seq<CharView> {
    let p = lower_pos(s, c.id);
    if p < s.len() && s[p].id == c.id { s.update(p, c) } else { s.insert(p, c) }
}

/// The list with the character of ID `id`, if any, marked deleted.
pub open spec fn chars_mark(s: Seq<CharView>, id: IdView) -> Seq<CharView> {
    let p = lower_pos(s, id);
    if p < s.len() && s[p].id == id { s.update(p, CharView { deleted: true, ..s[p] }) } else { s }
}

proof fn lemma_pos_from(s: Seq<CharView>, id: IdView, i: int)
    requires
        ids_sorted(s),
        0 <= i <= s.len(),
        forall|k: int| 0 <= k < i ==> id_lt(#[trigger] s[k].id, id),
    ensures
        i <= pos_from(s, id, i) <= s.len(),
        forall|k: int| 0 <= k < pos_from(s, id, i) ==> id_lt(#[trigger] s[k].id, id),
        forall|k: int| pos_from(s, id, i) <= k < s.len() ==> !id_lt(#[trigger] s[k].id, id),
    decreases s.len() - i,
{
    if i < s.len() {
        if id_lt(s[i].id, id) {
            lemma_pos_from(s, id, i + 1);
        } else {
            assert forall|k: int| i <= k < s.len() implies !id_lt(#[trigger] s[k].id, id) by {
                if k > i {
                    lemma_id_order(s[k].id, id, s[i].id);
                    lemma_id_order(s[i].id, s[k].id, id);
                }
            }
        }
    }
}

/// In a sorted list, the characters before `lower_pos` have smaller IDs and
/// those from it on do not.
pub proof fn lemma_lower_pos(s: Seq<CharView>, id: IdView)
    requires
        ids_sorted(s),
    ensures
        0 <= lower_pos(s, id) <= s.len(),
        forall|k: int| 0 <= k < lower_pos(s, id) ==> id_lt(#[trigger] s[k].id, id),
        forall|k: int| lower_pos(s, id) <= k < s.len() ==> !id_lt(#[trigger] s[k].id, id),
        forall|k: int| 0 <= k < s.len() && #[trigger] s[k].id == id ==> k == lower_pos(s, id),
{
    lemma_pos_from(s, id, 0);
    assert forall|k: int| 0 <= k < s.len() && #[trigger] s[k].id == id implies k == lower_pos(s, id) by {
        lemma_id_order(id, id, id);
        let p = lower_pos(s, id);
        if k > p {
            lemma_id_order(s[p].id, id, id);
        }
    }
}

/// Storing a character keeps the list sorted.
pub proof fn lemma_put_sorted(s: Seq<CharView>, c: CharView)
    requires
        ids_sorted(s),
    ensures
        ids_sorted(chars_put(s, c)),
        lookup(chars_put(s, c), c.id) == Some(c),
{
    lemma_lower_pos(s, c.id);
    let p = lower_pos(s, c.id);
    let r = chars_put(s, c);
    if p < s.len() && s[p].id == c.id {
        assert forall|i: int, j: int| 0 <= i < j < r.len() implies id_lt(#[trigger] r[i].id, #[trigger] r[j].id) by {
            assert(s[i].id == r[i].id && s[j].id == r[j].id);
        }
    } else {
        assert forall|i: int, j: int| 0 <= i < j < r.len() implies id_lt(#[trigger] r[i].id, #[trigger] r[j].id) by {
            if j < p {
                assert(r[i] == s[i] && r[j] == s[j]);
            } else if j == p {
                assert(r[i] == s[i]);
            } else if i < p {
                assert(r[i] == s[i] && r[j] == s[j - 1]);
            } else if i == p {
                assert(r[j] == s[j - 1]);
                lemma_id_order(s[p].id, c.id, c.id);
                if j - 1 > p {
                    lemma_id_order(c.id, s[p].id, s[j - 1].id);
                    lemma_id_order(s[p].id, c.id, s[j - 1].id);
                } else {
                    lemma_id_order(c.id, s[p].id, s[p].id);
                }
            } else {
                assert(r[i] == s[i - 1] && r[j] == s[j - 1]);
            }
        }
    }
    lemma_lower_pos(r, c.id);
    assert(r[p] == c);
    lemma_id_order(c.id, c.id, c.id);
}

/// A character present before another is stored stays present.
pub proof fn lemma_put_keeps(s: Seq<CharView>, c: CharView, id: IdView)
    requires
        ids_sorted(s),
        lookup(s, id) is Some,
    ensures
        lookup(chars_put(s, c), id) is Some,
{
    lemma_put_sorted(s, c);
    lemma_lower_pos(s, id);
    lemma_lower_pos(s, c.id);
    let r = chars_put(s, c);
    lemma_lower_pos(r, id);
    let k = lower_pos(s, id);
    let p = lower_pos(s, c.id);
    if c.id == id {
    } else if p < s.len() && s[p].id == c.id {
        assert(r[k].id == id);
    } else {
        if k < p {
            assert(r[k].id == id);
        } else {
            assert(r[k + 1].id == id);
        }
    }
}

/// Marking a character deleted keeps the list sorted.
pub proof fn lemma_mark_sorted(s: Seq<CharView>, id: IdView)
    requires
        ids_sorted(s),
    ensures
        ids_sorted(chars_mark(s, id)),
{
    lemma_lower_pos(s, id);
    let p = lower_pos(s, id);
    let r = chars_mark(s, id);
    if p < s.len() && s[p].id == id {
        assert(r.len() == s.len());
        assert forall|i: int, j: int| 0 <= i < j < r.len() implies id_lt(#[trigger] r[i].id, #[trigger] r[j].id) by {
            assert(s[i].id == r[i].id && s[j].id == r[j].id);
        }
    }
}

/// The views of a list of characters.
pub open spec fn char_views(v: Seq<RGACharacter>) -> Seq<CharView> {
    v.map_values(|c: RGACharacter| c@)
}

/// The views of a list of IDs.
pub open spec fn id_views(v: Seq<CharacterId>) -> Seq<IdView> {
    v.map_values(|c: CharacterId| c@)
}

/// The first position from `i` on holding `id`, or -1.
pub open spec fn index_from(o: Seq<IdView>, id: IdView, i: int) -> int
    decreases o.len() - i,
{
    if i < 0 || i >= o.len() {
        -1
    } else if o[i] == id {
        i
    } else {
        index_from(o, id, i + 1)
    }
}

/// From position `p` on, the first position whose ID sorts after `id`.
pub open spec fn skip_pos(o: Seq<IdView>, id: IdView, p: int) -> int
    decreases o.len() - p,
{
    if p < 0 || p >= o.len() {
        o.len() as int
    } else if id_lt(id, o[p]) {
        p
    } else {
        skip_pos(o, id, p + 1)
    }
}

/// Where a remote character goes: just after the character it was
/// inserted after (at the front when that is unknown), then past the
/// characters whose IDs do not sort after its own.
pub open spec fn remote_pos(o: Seq<IdView>, c: CharView) -> int {
    let start = match c.after {
        Some(a) => if index_from(o, a, 0) >= 0 { index_from(o, a, 0) + 1 } else { 0 },
        None => 0,
    };
    skip_pos(o, c.id, start)
}

/// The order with every occurrence of `id` taken out.
pub open spec fn without(o: Seq<IdView>, id: IdView) -> Seq<IdView>
    decreases o.len(),
{
    if o.len() == 0 {
        o
    } else if o.last() == id {
        without(o.drop_last(), id)
    } else {
        without(o.drop_last(), id).push(o.last())
    }
}

/// The visible text: the characters of the order that are known and not
/// deleted, in order.
pub open spec fn visible_text(o: Seq<IdView>, chars: Seq<CharView>) -> Seq<char>
    decreases o.len(),
{
    if o.len() == 0 {
        Seq::empty()
    } else {
        let t = visible_text(o.drop_last(), chars);
        match lookup(chars, o.last()) {
            Some(c) => if !c.deleted { t.push(c.value) } else { t },
            None => t,
        }
    }
}

/// RGA (replicated growable array) text.
#[derive(Clone, Debug)]
pub struct RGAText {
    /// Every character ever seen, deleted ones included, in ID order.
    pub characters: Vec<RGACharacter>,
    order: Vec<CharacterId>,
    node_id: String,
    sequence_counter: u64,
}

fn find_pos(chars: &Vec<RGACharacter>, id: &CharacterId) -> (p: usize)
    ensures
        p == lower_pos(char_views(chars@), id@),
{
    let ghost s = char_views(chars@);
    let mut i: usize = 0;
    while i < chars.len() && chars[i].id.less_than(id)
        invariant
            s == char_views(chars@),
            i <= chars@.len(),
            lower_pos(s, id@) == pos_from(s, id@, i as int),
        decreases chars@.len() - i,
    {
        i = i + 1;
    }
    i
}

fn put_char(chars: &mut Vec<RGACharacter>, c: RGACharacter)
    requires
        ids_sorted(char_views(old(chars)@)),
    ensures
        char_views(final(chars)@) == chars_put(char_views(old(chars)@), c@),
        ids_sorted(char_views(final(chars)@)),
{
    let ghost s = char_views(chars@);
    proof {
        lemma_put_sorted(s, c@);
        lemma_lower_pos(s, c@.id);
    }
    let p = find_pos(chars, &c.id);
    if p < chars.len() && chars[p].id.same(&c.id) {
        chars.set(p, c);
        assert(char_views(chars@) =~= chars_put(s, c@));
    } else {
        chars.insert(p, c);
        assert(char_views(chars@) =~= chars_put(s, c@));
    }
}

fn mark_char(chars: &mut Vec<RGACharacter>, id: &CharacterId)
    requires
        ids_sorted(char_views(old(chars)@)),
    ensures
        char_views(final(chars)@) == chars_mark(char_views(old(chars)@), id@),
        ids_sorted(char_views(final(chars)@)),
{
    let ghost s = char_views(chars@);
    proof { lemma_mark_sorted(s, id@); }
    let p = find_pos(chars, id);
    if p < chars.len() && chars[p].id.same(id) {
        let mut c = chars[p].copy();
        c.deleted = true;
        chars.set(p, c);
        assert(char_views(chars@) =~= chars_mark(s, id@));
    } else {
        assert(char_views(chars@) =~= chars_mark(s, id@));
    }
}

impl RGAText {
    /// The characters in ID order, as values.
    pub closed spec fn chars(self) -> Seq<CharView> {
        char_views(self.characters@)
    }

    /// The characters are in strictly increasing ID order.
    pub closed spec fn wf(self) -> bool {
        ids_sorted(self.chars())
    }

    /// The IDs of the text in document order.
    pub closed spec fn order(self) -> Seq<IdView> {
        id_views(self.order@)
    }

    /// This replica's node ID.
    pub closed spec fn node(self) -> Seq<char> {
        self.node_id@
    }

    /// The last sequence number used by this replica.
    pub closed spec fn counter(self) -> u64 {
        self.sequence_counter
    }

    /// A well-formed text keeps its characters in ID order.
    pub proof fn lemma_wf_sorted(self)
        requires
            self.wf(),
        ensures
            ids_sorted(self.chars()),
    {
    }

    /// An empty text.
    pub fn new(node_id: String) -> (t: Self)
        ensures
            t.wf(),
            t.chars() == Seq::<CharView>::empty(),
            t.order() == Seq::<IdView>::empty(),
            t.node() == node_id@,
            t.counter() == 0,
    {
        let t = RGAText { characters: Vec::new(), order: Vec::new(), node_id, sequence_counter: 0 };
        assert(t.chars() =~= Seq::<CharView>::empty());
        assert(t.order() =~= Seq::<IdView>::empty());
        t
    }

    /// Insert a character at a position of the order (at the end when the
    /// position is past it), recording the character before it.
    pub fn insert(&mut self, position: usize, character: char) -> (id: CharacterId)
        requires
            old(self).wf(),
            old(self).counter() < u64::MAX,
        ensures
            final(self).wf(),
            id@.node == old(self).node(),
            id@.sequence == old(self).counter() + 1,
            final(self).counter() == old(self).counter() + 1,
            final(self).node() == old(self).node(),
            final(self).chars() == chars_put(
                old(self).chars(),
                CharView {
                    id: id@,
                    value: character,
                    deleted: false,
                    after: if 0 < position <= old(self).order().len() {
                        Some(old(self).order()[position - 1])
                    } else {
                        None
                    },
                },
            ),
            final(self).order() == old(self).order().insert(
                if position <= old(self).order().len() { position as int } else { old(self).order().len() as int },
                id@,
            ),
    {
        let timestamp = unix_micros();
        self.sequence_counter = self.sequence_counter + 1;
        let id = CharacterId::new(timestamp, self.node_id.clone(), self.sequence_counter);
        let inserted_after = if position > 0 && self.order.len() > 0 && position - 1 < self.order.len() {
            Some(self.order[position - 1].copy())
        } else {
            None
        };
        let c = RGACharacter { id: id.copy(), value: character, deleted: false, inserted_after };
        let ghost o = self.order();
        put_char(&mut self.characters, c);
        let insert_pos = if position < self.order.len() { position } else { self.order.len() };
        self.order.insert(insert_pos, id.copy());
        assert(self.order() =~= o.insert(insert_pos as int, id@));
        id
    }

    /// Delete the character at a position of the order: it leaves the
    /// order and is kept as a tombstone. `None` past the end.
    pub fn delete(&mut self, position: usize) -> (r: Option<CharacterId>)
        requires
            old(self).wf(),
        ensures
            final(self).wf(),
            final(self).node() == old(self).node(),
            final(self).counter() == old(self).counter(),
            position >= old(self).order().len() ==> r is None && final(self).chars() == old(self).chars()
                && final(self).order() == old(self).order(),
            position < old(self).order().len() ==> (r matches Some(id) && id@ == old(self).order()[position as int]
                && final(self).chars() == chars_mark(old(self).chars(), id@) && final(self).order() == old(
                self,
            ).order().remove(position as int)),
    {
        if position >= self.order.len() {
            return None;
        }
        let id = self.order[position].copy();
        let ghost o = self.order();
        mark_char(&mut self.characters, &id);
        self.order.remove(position);
        assert(self.order() =~= o.remove(position as int));
        Some(id)
    }

    /// Insert a character received from another replica; one already known
    /// is ignored.
    pub fn insert_remote(&mut self, char_obj: RGACharacter)
        requires
            old(self).wf(),
        ensures
            final(self).wf(),
            final(self).node() == old(self).node(),
            final(self).counter() == old(self).counter(),
            lookup(old(self).chars(), char_obj.id@) is Some ==> final(self).chars() == old(self).chars()
                && final(self).order() == old(self).order(),
            lookup(old(self).chars(), char_obj.id@) is None ==> final(self).chars() == chars_put(
                old(self).chars(),
                char_obj@,
            ) && final(self).order() == old(self).order().insert(
                remote_pos(old(self).order(), char_obj@),
                char_obj.id@,
            ),
    {
        let p = find_pos(&self.characters, &char_obj.id);
        if p < self.characters.len() && self.characters[p].id.same(&char_obj.id) {
            return;
        }
        let ghost o = self.order();
        let n = self.order.len();
        let mut start: usize = 0;
        match &char_obj.inserted_after {
            Some(after) => {
                let mut k: usize = 0;
                while k < n && !self.order[k].same(after)
                    invariant
                        n == self.order@.len(),
                        o == self.order(),
                        k <= n,
                        index_from(o, after@, 0) == index_from(o, after@, k as int),
                    decreases n - k,
                {
                    k = k + 1;
                }
                if k < n {
                    start = k + 1;
                }
            },
            None => {},
        }
        let mut pos = start;
        while pos < n && !char_obj.id.less_than(&self.order[pos])
            invariant
                n == self.order@.len(),
                o == self.order(),
                start <= pos <= n,
                skip_pos(o, char_obj.id@, start as int) == skip_pos(o, char_obj.id@, pos as int),
            decreases n - pos,
        {
            pos = pos + 1;
        }
        let id = char_obj.id.copy();
        put_char(&mut self.characters, char_obj);
        self.order.insert(pos, id);
        assert(self.order() =~= o.insert(pos as int, id@));
    }

    /// Delete a character received from another replica: it is marked
    /// deleted and leaves the order.
    pub fn delete_remote(&mut self, char_id: &CharacterId)
        requires
            old(self).wf(),
        ensures
            final(self).wf(),
            final(self).node() == old(self).node(),
            final(self).counter() == old(self).counter(),
            final(self).chars() == chars_mark(old(self).chars(), char_id@),
            final(self).order() == without(old(self).order(), char_id@),
    {
        mark_char(&mut self.characters, char_id);
        let ghost o = self.order();
        let mut kept: Vec<CharacterId> = Vec::new();
        let mut i: usize = 0;
        while i < self.order.len()
            invariant
                o == self.order(),
                i <= self.order@.len(),
                id_views(kept@) == without(o.subrange(0, i as int), char_id@),
            decreases self.order@.len() - i,
        {
            proof { assert(o.subrange(0, i + 1).drop_last() =~= o.subrange(0, i as int)); }
            if !self.order[i].same(char_id) {
                kept.push(self.order[i].copy());
            }
            assert(id_views(kept@) =~= without(o.subrange(0, i + 1), char_id@));
            i = i + 1;
        }
        assert(o.subrange(0, o.len() as int) =~= o);
        self.order = kept;
    }

    /// Whether a character with this ID is known (deleted ones included).
    pub fn contains_character(&self, id: &CharacterId) -> (b: bool)
        requires
            self.wf(),
        ensures
            b == (lookup(self.chars(), id@) is Some),
    {
        let p = find_pos(&self.characters, id);
        p < self.characters.len() && self.characters[p].id.same(id)
    }

    /// The visible text.
    pub fn to_string(&self) -> (s: String)
        ensures
            s@ == visible_text(self.order(), self.chars()),
    {
        let ghost o = self.order();
        let mut s = String::new();
        let mut i: usize = 0;
        while i < self.order.len()
            invariant
                o == self.order(),
                i <= self.order@.len(),
                s@ == visible_text(o.subrange(0, i as int), self.chars()),
            decreases self.order@.len() - i,
        {
            proof { assert(o.subrange(0, i + 1).drop_last() =~= o.subrange(0, i as int)); }
            let id = &self.order[i];
            let p = find_pos(&self.characters, id);
            if p < self.characters.len() && self.characters[p].id.same(id) && !self.characters[p].deleted {
                string_push(&mut s, self.characters[p].value);
            }
            i = i + 1;
        }
        assert(o.subrange(0, o.len() as int) =~= o);
        s
    }

    /// The number of characters in the order.
    pub fn len(&self) -> (n: usize)
        ensures
            n == self.order().len(),
    {
        self.order.len()
    }

    /// Whether the order is empty.
    pub fn is_empty(&self) -> (b: bool)
        ensures
            b == (self.order().len() == 0),
    {
        self.order.len() == 0
    }

    /// Copies of every character, deleted ones included, in ID order.
    pub fn get_all_characters(&self) -> (v: Vec<RGACharacter>)
        ensures
            char_views(v@) == self.chars(),
    {
        let mut v: Vec<RGACharacter> = Vec::new();
        let mut i: usize = 0;
        while i < self.characters.len()
            invariant
                i <= self.characters@.len(),
                v@.len() == i,
                char_views(v@) == self.chars().subrange(0, i as int),
            decreases self.characters@.len() - i,
        {
            let ghost before = v@;
            v.push(self.characters[i].copy());
            proof {
                assert(char_views(before) == self.chars().subrange(0, i as int));
                assert(v@[i as int]@ == self.characters@[i as int]@);
                assert(char_views(v@) =~= self.chars().subrange(0, i + 1));
            }
            i = i + 1;
        }
        assert(self.chars().subrange(0, self.chars().len() as int) =~= self.chars());
        v
    }
}


proof fn lemma_without_twice(o: Seq<IdView>, id: IdView)
    ensures
        without(without(o, id), id) == without(o, id),
        !without(o, id).contains(id),
    decreases o.len(),
{
    if o.len() > 0 {
        lemma_without_twice(o.drop_last(), id);
        let w = without(o.drop_last(), id);
        if o.last() != id {
            let wp = w.push(o.last());
            assert(wp.drop_last() =~= w);
            assert forall|j: int| 0 <= j < wp.len() implies wp[j] != id by {
                if j < w.len() {
                    assert(wp[j] == w[j]);
                }
            }
        }
    }
}

/// Deleting a character remotely twice is deleting it once: the second
/// deletion changes neither the characters nor the order, and the deleted
/// ID is out of the order.
pub proof fn lemma_delete_remote_idempotent(s: Seq<CharView>, o: Seq<IdView>, id: IdView)
    ensures
        chars_mark(chars_mark(s, id), id) == chars_mark(s, id),
        without(without(o, id), id) == without(o, id),
        !without(o, id).contains(id),
{
    lemma_without_twice(o, id);
    lemma_pos_range(s, id, 0);
    let p = lower_pos(s, id);
    if p < s.len() && s[p].id == id {
        let s1 = chars_mark(s, id);
        assert(s1 == s.update(p, CharView { deleted: true, ..s[p] }));
        assert forall|j: int| 0 <= j < s.len() implies #[trigger] s[j].id == s1[j].id by {}
        lemma_pos_same_ids(s, s1, id, 0);
        assert(s1.update(p, CharView { deleted: true, ..s1[p] }) =~= s1);
    }
}

proof fn lemma_pos_range(s: Seq<CharView>, id: IdView, i: int)
    requires
        0 <= i <= s.len(),
    ensures
        i <= pos_from(s, id, i) <= s.len(),
    decreases s.len() - i,
{
    if i < s.len() {
        lemma_pos_range(s, id, i + 1);
    }
}

proof fn lemma_pos_same_ids(s: Seq<CharView>, t: Seq<CharView>, id: IdView, i: int)
    requires
        s.len() == t.len(),
        forall|j: int| 0 <= j < s.len() ==> #[trigger] s[j].id == t[j].id,
    ensures
        pos_from(s, id, i) == pos_from(t, id, i),
    decreases s.len() - i,
{
    if 0 <= i < s.len() {
        lemma_pos_same_ids(s, t, id, i + 1);
    }
}

} // verus!
