//! Presence: who is in a collaborative session, and where their cursors
//! are, by content address.

use vstd::prelude::*;
use std::time::Duration;
use crate::assoc::{StrMap, str_eq};
use crate::crdt::orset::{ORSet, TagView, value_hash};
use crate::clock::duration_from_secs;
use crate::clock::{unix_micros, unix_secs};
use crate::content_address::{ContentAddress, address_id};
use crate::crdt::lww::{LWWRegister, lww_merged};
use crate::order::{str_lt, text_lt};

verus! {

/// A user's presence status.
#[derive(Clone, Copy, Debug, PartialEq, Eq, Structural)]
pub enum PresenceStatus {
    /// Actively editing.
    Active,
    /// Viewing, not editing.
    Viewing,
    /// Typing (show an indicator).
    Typing,
    /// No activity for over five minutes.
    Idle,
    /// Offline.
    Offline,
}

/// Seconds without activity after which a user counts as idle.
pub open spec fn idle_threshold() -> u64 {
    300
}

/// A user's presence.
#[derive(Clone, Debug)]
pub struct UserPresence {
    pub user_id: String,
    pub display_name: String,
    /// Current status, last write wins.
    pub status: LWWRegister<PresenceStatus>,
    /// Seconds since the Unix epoch of the last activity.
    pub last_activity: u64,
    /// Cursor colour.
    pub color: String,
}

impl UserPresence {
    /// A user who is active now.
    pub fn new(user_id: String, display_name: String, color: String, node_id: String) -> (p: Self)
        ensures
            p.user_id == user_id,
            p.display_name == display_name,
            p.color == color,
            p.status@.value == PresenceStatus::Active,
            p.status@.timestamp == 0,
            p.status@.node == node_id@,
    {
        UserPresence {
            user_id,
            display_name,
            status: LWWRegister::new(PresenceStatus::Active, node_id),
            last_activity: unix_secs(),
            color,
        }
    }

    /// Record activity now (the clock gives the time).
    pub fn touch(&mut self)
        ensures
            final(self).user_id == old(self).user_id,
            final(self).display_name == old(self).display_name,
            final(self).color == old(self).color,
            final(self).status == old(self).status,
    {
        self.last_activity = unix_secs();
    }

    /// Set the status (a new write) and record activity.
    pub fn set_status(&mut self, status: PresenceStatus)
        ensures
            final(self).status@.value == status,
            final(self).status@.node == old(self).status@.node,
            final(self).user_id == old(self).user_id,
            final(self).display_name == old(self).display_name,
            final(self).color == old(self).color,
    {
        self.status.set(status);
        self.touch();
    }

    /// Whether the user is idle at time `now` (seconds): more than five
    /// minutes after the last activity. A last activity later than `now`
    /// is not idle.
    pub fn idle_at(&self, now: u64) -> (b: bool)
        ensures
            b == (now >= self.last_activity && now - self.last_activity > idle_threshold()),
    {
        now >= self.last_activity && now - self.last_activity > 300
    }

    /// Whether the user is idle now (the clock gives the time; see
    /// `idle_at`).
    pub fn is_idle(&self) -> (b: bool)
        ensures
            exists|now: u64| b == #[trigger] idle_spec(*self, now),
    {
        let now = unix_secs();
        let b = self.idle_at(now);
        assert(b == idle_spec(*self, now));
        b
    }

    /// Merge another replica of this presence: the status by last write,
    /// the later activity time.
    pub fn merge(&mut self, other: &UserPresence)
        ensures
            lww_merged(old(self).status@, other.status@, final(self).status@),
            final(self).last_activity == if other.last_activity > old(self).last_activity {
                other.last_activity
            } else {
                old(self).last_activity
            },
            final(self).user_id == old(self).user_id,
            final(self).display_name == old(self).display_name,
            final(self).color == old(self).color,
    {
        self.status.merge(&other.status);
        if other.last_activity > self.last_activity {
            self.last_activity = other.last_activity;
        }
    }
}

/// `b` is a copy of presence `a`.
pub open spec fn presence_copy(a: UserPresence, b: UserPresence) -> bool {
    &&& b.user_id == a.user_id
    &&& b.display_name == a.display_name
    &&& b.status@ == a.status@
    &&& b.last_activity == a.last_activity
    &&& b.color == a.color
}

impl UserPresence {
    /// A copy of this presence.
    pub fn copy(&self) -> (p: Self)
        ensures
            presence_copy(*self, p),
    {
        UserPresence {
            user_id: self.user_id.clone(),
            display_name: self.display_name.clone(),
            status: self.status.copy(),
            last_activity: self.last_activity,
            color: self.color.clone(),
        }
    }
}

/// A copy of an optional address.
fn copy_address(a: &Option<ContentAddress>) -> (r: Option<ContentAddress>)
    ensures
        r == *a,
{
    match a {
        Some(x) => Some(x.copy()),
        None => None,
    }
}

/// A cursor position by content address, so it stays valid when others
/// edit around it.
#[derive(Clone, Debug)]
pub struct CausalCursor {
    /// The cursor's owner.
    pub user_id: String,
    /// Address of the character before the cursor; `None` at the start.
    pub anchor: Option<ContentAddress>,
    /// Address of the other end of a selection (the anchor when none).
    pub focus: Option<ContentAddress>,
    /// Microseconds since the Unix epoch of the last update.
    pub timestamp: u64,
    /// The node that last updated this cursor.
    pub node_id: String,
}

/// `r` is what merging cursor `b` into `a` leaves: `b`'s position when it
/// is newer, or equally new from a larger node ID; otherwise `a`.
pub open spec fn cursor_merged(a: CausalCursor, b: CausalCursor, r: CausalCursor) -> bool {
    if b.timestamp > a.timestamp || (b.timestamp == a.timestamp && text_lt(a.node_id@, b.node_id@)) {
        r == CausalCursor { anchor: b.anchor, focus: b.focus, timestamp: b.timestamp, node_id: b.node_id, ..a }
    } else {
        r == a
    }
}

/// Merging the same cursor in twice is merging it once, and the user
/// never changes.
pub proof fn lemma_cursor_merge_idempotent(a: CausalCursor, b: CausalCursor, r: CausalCursor, r2: CausalCursor)
    requires
        cursor_merged(a, b, r),
        cursor_merged(r, b, r2),
    ensures
        r2 == r,
        r.user_id == a.user_id,
{
    if b.timestamp > a.timestamp || (b.timestamp == a.timestamp && text_lt(a.node_id@, b.node_id@)) {
        crate::order::lemma_text_lt_order(b.node_id@, b.node_id@, b.node_id@);
    }
}

impl CausalCursor {
    /// A cursor at the document start, stamped now.
    pub fn at_start(user_id: String, node_id: String) -> (c: Self)
        ensures
            c.user_id == user_id,
            c.anchor is None,
            c.focus is None,
            c.node_id == node_id,
    {
        CausalCursor { user_id, anchor: None, focus: None, timestamp: unix_micros(), node_id }
    }

    /// A cursor just after the given character, stamped now.
    pub fn at_position(user_id: String, after_char: ContentAddress, node_id: String) -> (c: Self)
        ensures
            c.user_id == user_id,
            c.anchor == Some(after_char),
            c.focus == Some(after_char),
            c.node_id == node_id,
    {
        CausalCursor {
            user_id,
            anchor: Some(after_char.copy()),
            focus: Some(after_char),
            timestamp: unix_micros(),
            node_id,
        }
    }

    /// A cursor with a selection from `anchor` to `focus`, stamped now.
    pub fn with_selection(user_id: String, anchor: ContentAddress, focus: ContentAddress, node_id: String) -> (c:
        Self)
        ensures
            c.user_id == user_id,
            c.anchor == Some(anchor),
            c.focus == Some(focus),
            c.node_id == node_id,
    {
        CausalCursor { user_id, anchor: Some(anchor), focus: Some(focus), timestamp: unix_micros(), node_id }
    }

    /// Whether the cursor selects something: both ends are set and their
    /// identifiers differ.
    pub fn has_selection(&self) -> (b: bool)
        ensures
            b == (self.anchor is Some && self.focus is Some && address_id(
                self.anchor->Some_0.content_hash@,
                self.anchor->Some_0.offset,
            ) != address_id(self.focus->Some_0.content_hash@, self.focus->Some_0.offset)),
    {
        match (&self.anchor, &self.focus) {
            (Some(a), Some(f)) => {
                let x = a.id();
                let y = f.id();
                !str_eq(x.as_str(), y.as_str())
            },
            _ => false,
        }
    }

    /// Move the cursor (no selection), stamped now.
    pub fn move_to(&mut self, after_char: Option<ContentAddress>)
        ensures
            final(self).anchor == after_char,
            final(self).focus == after_char,
            final(self).user_id == old(self).user_id,
            final(self).node_id == old(self).node_id,
    {
        self.anchor = copy_address(&after_char);
        self.focus = after_char;
        self.timestamp = unix_micros();
    }

    /// Extend the selection to a new end, stamped now.
    pub fn extend_to(&mut self, to_char: Option<ContentAddress>)
        ensures
            final(self).anchor == old(self).anchor,
            final(self).focus == to_char,
            final(self).user_id == old(self).user_id,
            final(self).node_id == old(self).node_id,
    {
        self.focus = to_char;
        self.timestamp = unix_micros();
    }

    /// A copy of this cursor.
    pub fn copy(&self) -> (c: Self)
        ensures
            c == *self,
    {
        CausalCursor {
            user_id: self.user_id.clone(),
            anchor: copy_address(&self.anchor),
            focus: copy_address(&self.focus),
            timestamp: self.timestamp,
            node_id: self.node_id.clone(),
        }
    }

    /// Merge another replica of this cursor: the later update wins, ties
    /// going to the larger node ID.
    pub fn merge(&mut self, other: &CausalCursor)
        ensures
            cursor_merged(*old(self), *other, *final(self)),
    {
        if other.timestamp > self.timestamp {
            self.anchor = copy_address(&other.anchor);
            self.focus = copy_address(&other.focus);
            self.timestamp = other.timestamp;
            self.node_id = other.node_id.clone();
        } else if other.timestamp == self.timestamp && str_lt(self.node_id.as_str(), other.node_id.as_str()) {
            self.anchor = copy_address(&other.anchor);
            self.focus = copy_address(&other.focus);
            self.node_id = other.node_id.clone();
        }
    }
}

/// Presence and cursors of all users in a session.
#[derive(Debug)]
pub struct PresenceManager {
    presences: StrMap<UserPresence>,
    cursors: StrMap<CausalCursor>,
    active_users: ORSet<String>,
    node_id: String,
    idle_timeout: Duration,
}

/// Whether a presence is idle at time `now`: more than the threshold
/// after its last activity.
pub open spec fn idle_spec(p: UserPresence, now: u64) -> bool {
    now >= p.last_activity && now - p.last_activity > idle_threshold()
}

/// A user is idle at every time more than five minutes (300 seconds) after
/// the last activity, and at no time up to five minutes after it; so once
/// idle, a user stays idle at every later time.
pub proof fn lemma_idle_after_five_minutes(p: UserPresence, now: u64, later: u64)
    ensures
        now > p.last_activity + 300 ==> idle_spec(p, now),
        now <= p.last_activity + 300 ==> !idle_spec(p, now),
        idle_spec(p, now) && now <= later ==> idle_spec(p, later),
{
}

/// What marking idle users at `now` does to presence `a`, giving `b`: a user
/// not offline and idle becomes idle (same user, name, colour and status
/// node); any other user is unchanged.
pub open spec fn idle_step(a: UserPresence, b: UserPresence, now: u64) -> bool {
    if a.status@.value != PresenceStatus::Offline && idle_spec(a, now) {
        &&& b.status@.value == PresenceStatus::Idle
        &&& b.status@.node == a.status@.node
        &&& b.user_id == a.user_id
        &&& b.display_name == a.display_name
        &&& b.color == a.color
    } else {
        b == a
    }
}

/// Marking idle users at `now` takes presences `a` to `b`, user by user.
pub open spec fn idle_marked(a: Map<Seq<char>, UserPresence>, b: Map<Seq<char>, UserPresence>, now: u64) -> bool {
    forall|k: Seq<char>| #[trigger] a.contains_key(k) ==> b.contains_key(k) && idle_step(a[k], b[k], now)
}

/// The (presence, cursor) pairs of the first `n` entries: each user not
/// offline who has a cursor, with that cursor, in entry order.
pub open spec fn cursor_pairs(
    es: Seq<(String, UserPresence)>,
    cursors: Map<Seq<char>, CausalCursor>,
    n: int,
) -> Seq<(UserPresence, CausalCursor)>
    decreases n,
{
    if n <= 0 || n > es.len() {
        Seq::empty()
    } else {
        let rest = cursor_pairs(es, cursors, n - 1);
        let e = es[n - 1];
        if cursors.contains_key(e.0@) && e.1.status@.value != PresenceStatus::Offline {
            rest.push((e.1, cursors[e.0@]))
        } else {
            rest
        }
    }
}

/// The pairs of a list of reference pairs.
pub open spec fn pair_values(v: Seq<(&UserPresence, &CausalCursor)>) -> Seq<(UserPresence, CausalCursor)> {
    v.map_values(|pc: (&UserPresence, &CausalCursor)| (*pc.0, *pc.1))
}

impl PresenceManager {
    /// The maps are well formed.
    pub closed spec fn wf(self) -> bool {
        self.presences.wf() && self.cursors.wf()
    }

    /// This node's ID.
    pub closed spec fn node(self) -> Seq<char> {
        self.node_id@
    }

    /// User ID → presence.
    pub closed spec fn presences_map(self) -> Map<Seq<char>, UserPresence> {
        self.presences@
    }

    /// The presences in storage order.
    pub closed spec fn presence_entries(self) -> Seq<(String, UserPresence)> {
        self.presences.entries()
    }

    /// User ID → cursor.
    pub closed spec fn cursors_map(self) -> Map<Seq<char>, CausalCursor> {
        self.cursors@
    }

    /// The tags of the active-user set.
    pub closed spec fn active_tags(self) -> Map<Seq<char>, Set<TagView>> {
        self.active_users.tags()
    }

    /// The removed tags of the active-user set.
    pub closed spec fn active_removed(self) -> Set<TagView> {
        self.active_users.removed()
    }

    /// Whether the value with this hash is in the active-user set.
    pub closed spec fn active_live(self, h: Seq<char>) -> bool {
        self.active_users.live(h)
    }

    /// A user's presence.
    pub fn presence(&self, user_id: &str) -> (r: Option<&UserPresence>)
        requires
            self.wf(),
        ensures
            match r {
                Some(p) => self.presences_map().contains_key(user_id@) && *p == self.presences_map()[user_id@],
                None => !self.presences_map().contains_key(user_id@),
            },
    {
        self.presences.get_str(user_id)
    }

    /// The number of users with a presence.
    pub fn presence_count(&self) -> (n: usize)
        requires
            self.wf(),
        ensures
            n == self.presences_map().dom().len(),
    {
        self.presences.len()
    }

    /// Whether a user is in the active-user set.
    pub fn is_active_user(&self, user_id: &String) -> (b: bool)
        ensures
            b == self.active_live(value_hash(user_id@)),
    {
        self.active_users.contains(user_id)
    }

    /// An empty session.
    pub fn new(node_id: String) -> (m: Self)
        ensures
            m.wf(),
            m.presences_map() == Map::<Seq<char>, UserPresence>::empty(),
            m.cursors_map() == Map::<Seq<char>, CausalCursor>::empty(),
            m.node() == node_id@,
    {
        PresenceManager {
            presences: StrMap::new(),
            cursors: StrMap::new(),
            active_users: ORSet::new(node_id.clone()),
            node_id,
            idle_timeout: duration_from_secs(300),
        }
    }

    /// A user joins: active, cursor at the start, in the active set.
    pub fn join(&mut self, user_id: String, display_name: String, color: String)
        requires
            old(self).wf(),
        ensures
            final(self).wf(),
            final(self).presences_map().dom() == old(self).presences_map().dom().insert(user_id@),
            final(self).presences_map()[user_id@].status@.value == PresenceStatus::Active,
            final(self).presences_map()[user_id@].display_name == display_name,
            final(self).cursors_map().dom() == old(self).cursors_map().dom().insert(user_id@),
            final(self).cursors_map()[user_id@].anchor is None,
            forall|k: Seq<char>| k != user_id@ && #[trigger] old(self).presences_map().contains_key(k)
                ==> final(self).presences_map()[k] == old(self).presences_map()[k],
            forall|k: Seq<char>| k != user_id@ && #[trigger] old(self).cursors_map().contains_key(k)
                ==> final(self).cursors_map()[k] == old(self).cursors_map()[k],
            final(self).node() == old(self).node(),
    {
        let presence = UserPresence::new(user_id.clone(), display_name, color, self.node_id.clone());
        self.presences.insert(user_id.clone(), presence);
        let cursor = CausalCursor::at_start(user_id.clone(), self.node_id.clone());
        self.cursors.insert(user_id.clone(), cursor);
        self.active_users.add(user_id);
    }

    /// A user leaves: offline, and out of the active set.
    pub fn leave(&mut self, user_id: &str)
        requires
            old(self).wf(),
        ensures
            final(self).wf(),
            final(self).presences_map().dom() == old(self).presences_map().dom(),
            old(self).presences_map().contains_key(user_id@) ==> final(self).presences_map()[user_id@].status@.value
                == PresenceStatus::Offline,
            forall|k: Seq<char>| k != user_id@ && #[trigger] old(self).presences_map().contains_key(k)
                ==> final(self).presences_map()[k] == old(self).presences_map()[k],
            final(self).cursors_map() == old(self).cursors_map(),
            final(self).active_tags() == old(self).active_tags(),
            final(self).active_removed() == old(self).active_removed().union(
                if old(self).active_tags().contains_key(value_hash(user_id@)) {
                    old(self).active_tags()[value_hash(user_id@)]
                } else {
                    Set::<TagView>::empty()
                },
            ),
    {
        match self.presences.find_str(user_id) {
            Some(i) => {
                proof { self.presences.lemma_entry_in_view(i as int); }
                self.presences.value_at_mut(i).set_status(PresenceStatus::Offline);
            },
            None => {},
        }
        self.active_users.remove(&String::from_str(user_id));
    }

    /// Move a user's cursor; the user becomes active.
    pub fn update_cursor(&mut self, user_id: &str, after_char: Option<ContentAddress>)
        requires
            old(self).wf(),
        ensures
            final(self).wf(),
            final(self).cursors_map().dom() == old(self).cursors_map().dom(),
            old(self).cursors_map().contains_key(user_id@) ==> final(self).cursors_map()[user_id@].anchor == after_char
                && final(self).cursors_map()[user_id@].focus == after_char,
            final(self).presences_map().dom() == old(self).presences_map().dom(),
            old(self).presences_map().contains_key(user_id@) ==> final(self).presences_map()[user_id@].status@.value
                == PresenceStatus::Active,
    {
        match self.cursors.find_str(user_id) {
            Some(i) => {
                proof { self.cursors.lemma_entry_in_view(i as int); }
                self.cursors.value_at_mut(i).move_to(after_char);
            },
            None => {},
        }
        match self.presences.find_str(user_id) {
            Some(i) => {
                proof { self.presences.lemma_entry_in_view(i as int); }
                let p = self.presences.value_at_mut(i);
                p.touch();
                p.set_status(PresenceStatus::Active);
            },
            None => {},
        }
    }

    /// Replace a user's cursor by a selection.
    pub fn update_selection(&mut self, user_id: &str, anchor: ContentAddress, focus: ContentAddress)
        requires
            old(self).wf(),
        ensures
            final(self).wf(),
            final(self).cursors_map().dom() == old(self).cursors_map().dom(),
            old(self).cursors_map().contains_key(user_id@) ==> final(self).cursors_map()[user_id@].anchor == Some(anchor)
                && final(self).cursors_map()[user_id@].focus == Some(focus) && final(self).cursors_map()[user_id@].user_id@
                == user_id@ && final(self).cursors_map()[user_id@].node_id@ == old(self).node(),
            final(self).presences_map() == old(self).presences_map(),
    {
        match self.cursors.find_str(user_id) {
            Some(i) => {
                proof { self.cursors.lemma_entry_in_view(i as int); }
                let c = CausalCursor::with_selection(String::from_str(user_id), anchor, focus, self.node_id.clone());
                *self.cursors.value_at_mut(i) = c;
            },
            None => {},
        }
    }

    /// Mark a user as typing.
    pub fn set_typing(&mut self, user_id: &str)
        requires
            old(self).wf(),
        ensures
            final(self).wf(),
            final(self).presences_map().dom() == old(self).presences_map().dom(),
            old(self).presences_map().contains_key(user_id@) ==> final(self).presences_map()[user_id@].status@.value
                == PresenceStatus::Typing,
            forall|k: Seq<char>| k != user_id@ && #[trigger] old(self).presences_map().contains_key(k)
                ==> final(self).presences_map()[k] == old(self).presences_map()[k],
            final(self).cursors_map() == old(self).cursors_map(),
    {
        match self.presences.find_str(user_id) {
            Some(i) => {
                proof { self.presences.lemma_entry_in_view(i as int); }
                self.presences.value_at_mut(i).set_status(PresenceStatus::Typing);
            },
            None => {},
        }
    }

    /// Mark idle users at time `now` (seconds): each user that is not
    /// offline and idle at `now` (see `idle_at`) becomes idle, with a new
    /// activity time; every other user stays as they were.
    pub fn check_idle_at(&mut self, now: u64)
        requires
            old(self).wf(),
        ensures
            final(self).wf(),
            final(self).presences_map().dom() == old(self).presences_map().dom(),
            idle_marked(old(self).presences_map(), final(self).presences_map(), now),
            final(self).cursors_map() == old(self).cursors_map(),
    {
        let ghost es0 = self.presences.entries();
        let ghost m0 = self.presences;
        let n = self.presences.len_raw();
        let mut i: usize = 0;
        while i < n
            invariant
                self.presences.wf(),
                self.cursors == old(self).cursors,
                m0 == old(self).presences,
                es0 == m0.entries(),
                n == es0.len(),
                n == self.presences.entries().len(),
                i <= n,
                forall|j: int| 0 <= j < n ==> (#[trigger] self.presences.entries()[j]).0 == es0[j].0,
                forall|j: int| 0 <= j < i ==> idle_step(es0[j].1, (#[trigger] self.presences.entries()[j]).1, now),
                forall|j: int| i <= j < n ==> (#[trigger] self.presences.entries()[j]).1 == es0[j].1,
            decreases n - i,
        {
            let p = self.presences.value_at(i);
            if p.idle_at(now) && *p.status.get() != PresenceStatus::Offline {
                let ghost before = self.presences;
                self.presences.value_at_mut(i).set_status(PresenceStatus::Idle);
                proof {
                    assert(self.presences.entries()[i as int].0 == before.entries()[i as int].0);
                }
            }
            i = i + 1;
        }
        proof {
            assert forall|k: Seq<char>| #[trigger] old(self).presences_map().contains_key(k) implies idle_step(
                old(self).presences_map()[k],
                self.presences@[k],
                now,
            ) by {
                let j = m0.lemma_key_in_entries(k);
                self.presences.lemma_entry_in_view(j);
            }
            assert forall|k: Seq<char>| self.presences@.dom().contains(k) <==> old(self).presences_map().dom().contains(k) by {
                if old(self).presences_map().contains_key(k) {
                    let j = m0.lemma_key_in_entries(k);
                    self.presences.lemma_entry_in_view(j);
                }
                if self.presences@.contains_key(k) {
                    let j = self.presences.lemma_key_in_entries(k);
                    m0.lemma_entry_in_view(j);
                }
            }
            assert(self.presences@.dom() =~= old(self).presences_map().dom());
        }
    }

    /// Mark idle users now (the clock gives the time; see `check_idle_at`).
    pub fn check_idle(&mut self)
        requires
            old(self).wf(),
        ensures
            final(self).wf(),
            final(self).presences_map().dom() == old(self).presences_map().dom(),
            exists|now: u64| idle_marked(old(self).presences_map(), final(self).presences_map(), now),
            final(self).cursors_map() == old(self).cursors_map(),
    {
        let now = unix_secs();
        self.check_idle_at(now);
    }

    /// The users that are not offline, in storage order.
    pub fn get_active_users(&self) -> (v: Vec<&UserPresence>)
        requires
            self.wf(),
        ensures
            forall|i: int| 0 <= i < v@.len() ==> (#[trigger] v@[i]).status@.value != PresenceStatus::Offline
                && self.presence_entries().map_values(|e: (String, UserPresence)| e.1).contains(*v@[i]),
            v@.len() == self.presence_entries().filter(
                |e: (String, UserPresence)| e.1.status@.value != PresenceStatus::Offline,
            ).len(),
    {
        let ghost es = self.presences.entries();
        let n = self.presences.len_raw();
        let mut v: Vec<&UserPresence> = Vec::new();
        let mut i: usize = 0;
        while i < n
            invariant
                es == self.presences.entries(),
                n == es.len(),
                i <= n,
                forall|j: int| 0 <= j < v@.len() ==> (#[trigger] v@[j]).status@.value != PresenceStatus::Offline
                    && es.map_values(|e: (String, UserPresence)| e.1).contains(*v@[j]),
                v@.len() == es.subrange(0, i as int).filter(
                    |e: (String, UserPresence)| e.1.status@.value != PresenceStatus::Offline,
                ).len(),
            decreases n - i,
        {
            proof {
                reveal(Seq::filter);
                assert(es.subrange(0, i + 1).drop_last() =~= es.subrange(0, i as int));
            }
            let p = self.presences.value_at(i);
            if *p.status.get() != PresenceStatus::Offline {
                proof { assert(es.map_values(|e: (String, UserPresence)| e.1)[i as int] == *p); }
                v.push(p);
            }
            i = i + 1;
        }
        proof { assert(es.subrange(0, n as int) =~= es); }
        v
    }

    /// The users that are not offline and have a cursor, with the cursor,
    /// in storage order.
    pub fn get_all_cursors(&self) -> (v: Vec<(&UserPresence, &CausalCursor)>)
        requires
            self.wf(),
        ensures
            forall|i: int| 0 <= i < v@.len() ==> {
                let (p, c) = #[trigger] v@[i];
                &&& p.status@.value != PresenceStatus::Offline
                &&& self.presence_entries().map_values(|e: (String, UserPresence)| e.1).contains(*p)
                &&& exists|j: int| 0 <= j < self.presence_entries().len() && self.presence_entries()[j].1 == *p
                    && self.cursors_map().contains_key(self.presence_entries()[j].0@) && self.cursors_map()[self.presence_entries()[j].0@]
                    == *c
            },
            pair_values(v@) == cursor_pairs(
                self.presence_entries(),
                self.cursors_map(),
                self.presence_entries().len() as int,
            ),
    {
        let ghost es = self.presences.entries();
        let n = self.presences.len_raw();
        let mut v: Vec<(&UserPresence, &CausalCursor)> = Vec::new();
        let mut i: usize = 0;
        while i < n
            invariant
                self.wf(),
                es == self.presences.entries(),
                n == es.len(),
                i <= n,
                forall|q: int| 0 <= q < v@.len() ==> {
                    let (p, c) = #[trigger] v@[q];
                    &&& p.status@.value != PresenceStatus::Offline
                    &&& es.map_values(|e: (String, UserPresence)| e.1).contains(*p)
                    &&& exists|j: int| 0 <= j < es.len() && es[j].1 == *p && self.cursors@.contains_key(es[j].0@)
                        && self.cursors@[es[j].0@] == *c
                },
                pair_values(v@) == cursor_pairs(es, self.cursors@, i as int),
            decreases n - i,
        {
            let key = self.presences.key_at(i);
            let p = self.presences.value_at(i);
            match self.cursors.get_str(key.as_str()) {
                Some(c) => {
                    if *p.status.get() != PresenceStatus::Offline {
                        proof { assert(es.map_values(|e: (String, UserPresence)| e.1)[i as int] == *p); }
                        let ghost v0 = v@;
                        v.push((p, c));
                        proof {
                            assert(pair_values(v@) =~= pair_values(v0).push((*p, *c)));
                        }
                    }
                },
                None => {},
            }
            i = i + 1;
        }
        proof {
            assert(es == self.presence_entries());
            assert(self.cursors@ == self.cursors_map());
        }
        v
    }

    /// A user's cursor.
    pub fn get_cursor(&self, user_id: &str) -> (r: Option<&CausalCursor>)
        requires
            self.wf(),
        ensures
            match r {
                Some(c) => self.cursors_map().contains_key(user_id@) && *c == self.cursors_map()[user_id@],
                None => !self.cursors_map().contains_key(user_id@),
            },
    {
        self.cursors.get_str(user_id)
    }

    /// Merge another replica of the session: presences and cursors merge
    /// user by user (a user only the other knows is copied), and so do the
    /// active users.
    pub fn merge(&mut self, other: &PresenceManager)
        requires
            old(self).wf(),
            other.wf(),
        ensures
            final(self).wf(),
            final(self).presences_map().dom() == old(self).presences_map().dom().union(other.presences_map().dom()),
            final(self).cursors_map().dom() == old(self).cursors_map().dom().union(other.cursors_map().dom()),
            forall|k: Seq<char>| #[trigger] final(self).cursors_map().contains_key(k) ==> if old(self).cursors_map().contains_key(k)
                && other.cursors_map().contains_key(k) {
                cursor_merged(old(self).cursors_map()[k], other.cursors_map()[k], final(self).cursors_map()[k])
            } else if old(self).cursors_map().contains_key(k) {
                final(self).cursors_map()[k] == old(self).cursors_map()[k]
            } else {
                final(self).cursors_map()[k] == other.cursors_map()[k]
            },
            final(self).active_tags() == crate::crdt::orset::merged_tags(
                old(self).active_tags(),
                other.active_tags(),
            ),
            final(self).active_removed() == old(self).active_removed().union(
                other.active_removed(),
            ),
    {
        let ghost base_p = self.presences@;
        let n = other.presences.len_raw();
        let mut i: usize = 0;
        proof { other.presences.lemma_prefix_ends(); }
        while i < n
            invariant
                other.wf(),
                n == other.presences.entries().len(),
                i <= n,
                self.presences.wf(),
                self.cursors == old(self).cursors,
                self.active_users == old(self).active_users,
                self.presences@.dom() == base_p.dom().union(other.presences.prefix_view(i as int).dom()),
            decreases n - i,
        {
            proof { other.presences.lemma_prefix_step(i as int); }
            let key = other.presences.key_at(i);
            let theirs = other.presences.value_at(i);
            match self.presences.find_str(key.as_str()) {
                Some(p) => {
                    proof { self.presences.lemma_entry_in_view(p as int); }
                    self.presences.value_at_mut(p).merge(theirs);
                },
                None => {
                    self.presences.push_new(key.clone(), theirs.copy());
                },
            }
            proof {
                assert(self.presences@.dom() =~= base_p.dom().union(other.presences.prefix_view(i + 1).dom()));
            }
            i = i + 1;
        }
        proof { other.presences.lemma_prefix_ends(); }
        let ghost base_c = self.cursors@;
        let m = other.cursors.len_raw();
        let mut j: usize = 0;
        proof { other.cursors.lemma_prefix_ends(); }
        while j < m
            invariant
                other.wf(),
                m == other.cursors.entries().len(),
                j <= m,
                self.cursors.wf(),
                self.presences.wf(),
                self.active_users == old(self).active_users,
                base_c == old(self).cursors_map(),
                self.presences@.dom() == old(self).presences_map().dom().union(other.presences_map().dom()),
                self.cursors@.dom() == base_c.dom().union(other.cursors.prefix_view(j as int).dom()),
                forall|k: Seq<char>| #[trigger] self.cursors@.contains_key(k) ==> if base_c.contains_key(k)
                    && other.cursors.prefix_view(j as int).contains_key(k) {
                    cursor_merged(base_c[k], other.cursors.prefix_view(j as int)[k], self.cursors@[k])
                } else if base_c.contains_key(k) {
                    self.cursors@[k] == base_c[k]
                } else {
                    self.cursors@[k] == other.cursors.prefix_view(j as int)[k]
                },
            decreases m - j,
        {
            proof { other.cursors.lemma_prefix_step(j as int); }
            let key = other.cursors.key_at(j);
            let theirs = other.cursors.value_at(j);
            let ghost before = self.cursors@;
            match self.cursors.find_str(key.as_str()) {
                Some(p) => {
                    proof { self.cursors.lemma_entry_in_view(p as int); }
                    self.cursors.value_at_mut(p).merge(theirs);
                },
                None => {
                    self.cursors.push_new(key.clone(), theirs.copy());
                },
            }
            proof {
                assert(self.cursors@.dom() =~= base_c.dom().union(other.cursors.prefix_view(j + 1).dom()));
            }
            j = j + 1;
        }
        proof { other.cursors.lemma_prefix_ends(); }
        self.active_users.merge(&other.active_users);
    }
}

} // verus!
