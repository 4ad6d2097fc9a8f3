//! The room registry: the single owner of all room state.
//!
//! A `Registry` maps room identifiers to rooms; each room has a display
//! name and a duplicate-free list of member identities.  Every mutating
//! operation returns the deliveries it caused as a vector of `Delivery`
//! values, which the transport layer performs; the registry itself never
//! blocks on I/O.
//!
//! The behaviour of each operation is captured by a pure transition
//! function on the registry's mathematical value (a map from identifier
//! to `RoomModel`), and each executable operation is proved to follow its
//! transition function exactly.

use vstd::prelude::*;
use vstd::string::StrSliceExecFns;
use vstd::string::StringExecFns;
use crate::envelope::Delivery;
use crate::envelope::DeliveryModel;
use crate::envelope::Envelope;
use crate::envelope::EnvelopeModel;
use crate::envelope::Kind;
use crate::envelope::count_to;
use crate::envelope::devs;
use crate::envelope::fanout;
use crate::envelope::lemma_fanout_count;
use crate::ids::fresh_uuid;
use crate::ids::is_hex_digit;
use crate::ids::is_room_name;
use crate::ids::is_uuid_like;
use crate::strutil::str_eq;

verus! {

/// One chat room: its identifier, display name and current members.
pub struct Room {
    pub id: String,
    pub name: String,
    pub members: Vec<String>,
}

/// The mathematical value of a room: display name and member list, in
/// join order.
pub ghost struct RoomModel {
    pub name: Seq<char>,
    pub members: Seq<Seq<char>>,
}

impl View for Room {
    type V = RoomModel;

    open spec fn view(&self) -> RoomModel {
        RoomModel { name: self.name@, members: self.members.deep_view() }
    }
}

impl Room {
    /// A room is well formed when no member identity appears twice.
    pub open spec fn wf(self) -> bool {
        self@.members.no_duplicates()
    }
}

/// The mathematical value of a registry: a map from room identifier to
/// room.
pub type RegistryModel = Map<Seq<char>, RoomModel>;

/// The map a sequence of rooms denotes; a later room with the same
/// identifier overrides an earlier one.
pub open spec fn rooms_map(rooms: Seq<Room>) -> RegistryModel
    decreases rooms.len(),
{
    if rooms.len() == 0 {
        Map::empty()
    } else {
        rooms_map(rooms.drop_last()).insert(rooms.last().id@, rooms.last()@)
    }
}

/// The registry: the sole owner of the room map.
pub struct Registry {
    pub rooms: Vec<Room>,
}

impl View for Registry {
    type V = RegistryModel;

    open spec fn view(&self) -> RegistryModel {
        rooms_map(self.rooms@)
    }
}

/// No two rooms of the sequence share an identifier.
pub open spec fn ids_unique(rooms: Seq<Room>) -> bool {
    forall|i: int, j: int|
        0 <= i < j < rooms.len() ==> rooms[i].id@ != rooms[j].id@
}

/// A registry model is well formed when every room's member list is
/// duplicate free.
pub open spec fn model_wf(m: RegistryModel) -> bool {
    forall|rid: Seq<char>|
        m.dom().contains(rid) ==> (#[trigger] m[rid]).members.no_duplicates()
}

proof fn lemma_rooms_map_contains(rooms: Seq<Room>, rid: Seq<char>)
    ensures
        rooms_map(rooms).dom().contains(rid) <==> exists|i: int|
            0 <= i < rooms.len() && rooms[i].id@ == rid,
    decreases rooms.len(),
{
    if rooms.len() == 0 {
    } else {
        let prefix = rooms.drop_last();
        lemma_rooms_map_contains(prefix, rid);
        if rid == rooms.last().id@ {
            assert(rooms[rooms.len() - 1].id@ == rid);
        } else {
            if rooms_map(rooms).dom().contains(rid) {
                let i = choose|i: int| 0 <= i < prefix.len() && prefix[i].id@ == rid;
                assert(rooms[i].id@ == rid);
            }
            if exists|i: int| 0 <= i < rooms.len() && rooms[i].id@ == rid {
                let i = choose|i: int| 0 <= i < rooms.len() && rooms[i].id@ == rid;
                assert(i != rooms.len() - 1);
                assert(prefix[i].id@ == rid);
            }
        }
    }
}

proof fn lemma_rooms_map_index(rooms: Seq<Room>, i: int)
    requires
        ids_unique(rooms),
        0 <= i < rooms.len(),
    ensures
        rooms_map(rooms).dom().contains(rooms[i].id@),
        rooms_map(rooms)[rooms[i].id@] == rooms[i]@,
    decreases rooms.len(),
{
    if i == rooms.len() - 1 {
    } else {
        let prefix = rooms.drop_last();
        assert(prefix[i] == rooms[i]);
        lemma_rooms_map_index(prefix, i);
        assert(rooms[i].id@ != rooms.last().id@);
    }
}

proof fn lemma_rooms_map_update(rooms: Seq<Room>, i: int, r: Room)
    requires
        ids_unique(rooms),
        0 <= i < rooms.len(),
        r.id@ == rooms[i].id@,
    ensures
        rooms_map(rooms.update(i, r)) == rooms_map(rooms).insert(r.id@, r@),
        ids_unique(rooms.update(i, r)),
    decreases rooms.len(),
{
    let s2 = rooms.update(i, r);
    assert(forall|a: int, b: int| 0 <= a < b < s2.len() ==> s2[a].id@ != s2[b].id@);
    if i == rooms.len() - 1 {
        assert(s2.drop_last() =~= rooms.drop_last());
        assert(s2.last() == r);
        assert(rooms_map(s2) =~= rooms_map(rooms).insert(r.id@, r@));
    } else {
        assert(s2.drop_last() =~= rooms.drop_last().update(i, r));
        assert(s2.last() == rooms.last());
        assert(rooms.drop_last()[i] == rooms[i]);
        lemma_rooms_map_update(rooms.drop_last(), i, r);
        assert(rooms[i].id@ != rooms.last().id@);
        assert(rooms_map(s2) =~= rooms_map(rooms).insert(r.id@, r@));
    }
}

proof fn lemma_rooms_map_push(rooms: Seq<Room>, r: Room)
    ensures
        rooms_map(rooms.push(r)) == rooms_map(rooms).insert(r.id@, r@),
{
    assert(rooms.push(r).drop_last() =~= rooms);
    assert(rooms.push(r).last() == r);
    assert(rooms_map(rooms.push(r)) =~= rooms_map(rooms).insert(r.id@, r@));
}

/// The text of the notification announcing that `user` joined.
pub open spec fn join_note(user: Seq<char>) -> Seq<char> {
    user + " has joined the chat"@
}

/// The text of the notification announcing that `user` left.
pub open spec fn leave_note(user: Seq<char>) -> Seq<char> {
    user + " has left the chat"@
}

/// A notification envelope synthesized by the registry itself.
pub open spec fn notification(rid: Seq<char>, user: Seq<char>, message: Seq<char>) -> EnvelopeModel {
    EnvelopeModel { room_id: rid, user: user, message: message, kind: Kind::Notification }
}

/// The member list with every occurrence of `user` taken out; order of
/// the others is kept.
pub open spec fn remove_member(members: Seq<Seq<char>>, user: Seq<char>) -> Seq<Seq<char>>
    decreases members.len(),
{
    if members.len() == 0 {
        Seq::empty()
    } else {
        let rest = remove_member(members.drop_last(), user);
        if members.last() == user {
            rest
        } else {
            rest.push(members.last())
        }
    }
}

/// What taking a member out does to a duplicate-free member list: the
/// user is gone, everyone else stays, order and multiplicity are kept.
pub proof fn lemma_remove_member(members: Seq<Seq<char>>, user: Seq<char>)
    requires
        members.no_duplicates(),
    ensures
        remove_member(members, user).no_duplicates(),
        !remove_member(members, user).contains(user),
        forall|u: Seq<char>|
            u != user ==> (remove_member(members, user).contains(u) <==> members.contains(u)),
        !members.contains(user) ==> remove_member(members, user) == members,
        members.contains(user) ==> remove_member(members, user).len() == members.len() - 1,
    decreases members.len(),
{
    if members.len() == 0 {
        assert(remove_member(members, user) =~= members);
    } else {
        let prefix = members.drop_last();
        let last = members.last();
        assert(prefix.no_duplicates());
        lemma_remove_member(prefix, user);
        let rest = remove_member(prefix, user);
        assert(forall|u: Seq<char>|
            prefix.contains(u) ==> members.contains(u)) by {
            assert forall|u: Seq<char>| prefix.contains(u) implies members.contains(u) by {
                let i = choose|i: int| 0 <= i < prefix.len() && prefix[i] == u;
                assert(members[i] == u);
            }
        }
        assert(members[members.len() - 1] == last);
        assert(members.contains(last));
        if !prefix.contains(last) {
        } else {
            let i = choose|i: int| 0 <= i < prefix.len() && prefix[i] == last;
            assert(members[i] == last);
            assert(false);
        }
        if last == user {
            assert(remove_member(members, user) == rest);
            assert(!members.contains(user) ==> !prefix.contains(user) && last != user);
            assert(forall|u: Seq<char>| u != user && members.contains(u) ==> prefix.contains(u)) by {
                assert forall|u: Seq<char>| u != user && members.contains(u) implies prefix.contains(
                    u,
                ) by {
                    let i = choose|i: int| 0 <= i < members.len() && members[i] == u;
                    assert(i != members.len() - 1);
                    assert(prefix[i] == u);
                }
            }
            if prefix.contains(user) {
                assert(members.contains(user));
                assert(rest.len() == prefix.len() - 1);
                assert(false) by {
                    let i = choose|i: int| 0 <= i < prefix.len() && prefix[i] == user;
                    assert(members[i] == user);
                    assert(members[members.len() - 1] == user);
                }
            }
            assert(rest.len() == prefix.len());
            assert(remove_member(members, user) =~= rest);
        } else {
            let out = rest.push(last);
            assert(remove_member(members, user) == out);
            if rest.contains(last) {
                assert(prefix.contains(last));
                assert(false);
            }
            assert(out.no_duplicates()) by {
                assert(forall|i: int| 0 <= i < rest.len() ==> out[i] == rest[i]);
                assert(out[out.len() - 1] == last);
            }
            assert(out[out.len() - 1] == last);
            assert(forall|u: Seq<char>|
                u != user && members.contains(u) ==> out.contains(u)) by {
                assert forall|u: Seq<char>| u != user && members.contains(u) implies out.contains(
                    u,
                ) by {
                    let i = choose|i: int| 0 <= i < members.len() && members[i] == u;
                    if i == members.len() - 1 {
                        assert(out[out.len() - 1] == u);
                    } else {
                        assert(prefix[i] == u);
                        assert(prefix.contains(u));
                        assert(rest.contains(u));
                        let j = choose|j: int| 0 <= j < rest.len() && rest[j] == u;
                        assert(out[j] == u);
                    }
                }
            }
            assert(forall|u: Seq<char>|
                u != user && out.contains(u) ==> members.contains(u)) by {
                assert forall|u: Seq<char>| u != user && out.contains(u) implies members.contains(
                    u,
                ) by {
                    let i = choose|i: int| 0 <= i < out.len() && out[i] == u;
                    if i == out.len() - 1 {
                        assert(members.contains(last));
                    } else {
                        assert(rest[i] == u);
                        assert(rest.contains(u));
                    }
                }
            }
            if !members.contains(user) {
                assert(!prefix.contains(user));
                assert(rest == prefix);
                assert(out =~= members);
            }
            if members.contains(user) {
                assert(prefix.contains(user)) by {
                    let i = choose|i: int| 0 <= i < members.len() && members[i] == user;
                    assert(i != members.len() - 1);
                    assert(prefix[i] == user);
                }
            }
        }
    }
}

/// What `join` does to the registry: a fresh member is appended to an
/// existing room; a rejoin and a missing room change nothing.
pub open spec fn join_next(m: RegistryModel, rid: Seq<char>, user: Seq<char>) -> RegistryModel {
    if m.dom().contains(rid) && !m[rid].members.contains(user) {
        m.insert(rid, RoomModel { name: m[rid].name, members: m[rid].members.push(user) })
    } else {
        m
    }
}

/// What `join` sends out: the join notification, fanned out over the
/// members present before the join; nothing for a missing room.
pub open spec fn join_out(m: RegistryModel, rid: Seq<char>, user: Seq<char>) -> Seq<
    DeliveryModel,
> {
    if m.dom().contains(rid) {
        fanout(m[rid].members, notification(rid, user, join_note(user)))
    } else {
        Seq::empty()
    }
}

/// What `leave` does to the registry: a present member is taken out of
/// an existing room; otherwise nothing changes.
pub open spec fn leave_next(m: RegistryModel, rid: Seq<char>, user: Seq<char>) -> RegistryModel {
    if m.dom().contains(rid) && m[rid].members.contains(user) {
        m.insert(rid, RoomModel {
            name: m[rid].name,
            members: remove_member(m[rid].members, user),
        })
    } else {
        m
    }
}

/// What `leave` sends out: the leave notification, fanned out over the
/// members that remain; nothing when the room or the member is absent.
pub open spec fn leave_out(m: RegistryModel, rid: Seq<char>, user: Seq<char>) -> Seq<
    DeliveryModel,
> {
    if m.dom().contains(rid) && m[rid].members.contains(user) {
        fanout(remove_member(m[rid].members, user), notification(rid, user, leave_note(user)))
    } else {
        Seq::empty()
    }
}

/// What `publish` sends out: the envelope, fanned out over all current
/// members, the author included; nothing for a missing room.
pub open spec fn publish_out(
    m: RegistryModel,
    rid: Seq<char>,
    user: Seq<char>,
    body: Seq<char>,
    kind: Kind,
) -> Seq<DeliveryModel> {
    if m.dom().contains(rid) {
        fanout(m[rid].members, EnvelopeModel { room_id: rid, user: user, message: body, kind: kind })
    } else {
        Seq::empty()
    }
}

/// The join announcement for `user`, as a fresh string.
fn join_message(user: &str) -> (r: String)
    ensures
        r@ == join_note(user@),
{
    user.to_owned().concat(" has joined the chat")
}

/// The leave announcement for `user`, as a fresh string.
fn leave_message(user: &str) -> (r: String)
    ensures
        r@ == leave_note(user@),
{
    user.to_owned().concat(" has left the chat")
}

/// One delivery of `env` to each listed member, in order.
fn fanout_exec(members: &Vec<String>, env: &Envelope) -> (out: Vec<Delivery>)
    ensures
        devs(out@) == fanout(members.deep_view(), env@),
{
    let mut out: Vec<Delivery> = Vec::new();
    let n = members.len();
    let mut k: usize = 0;
    proof {
        assert(devs(out@) =~= fanout(members.deep_view().take(0), env@));
    }
    while k < n
        invariant
            n == members@.len(),
            k <= n,
            devs(out@) == fanout(members.deep_view().take(k as int), env@),
        decreases n - k,
    {
        let ghost old_out = out@;
        out.push(Delivery { to: members[k].clone(), envelope: env.duplicate() });
        k = k + 1;
        proof {
            let mdv = members.deep_view();
            let f = fanout(mdv.take(k as int), env@);
            let d = devs(out@);
            assert(old_out.len() == fanout(mdv.take(k as int - 1), env@).len()) by {
                assert(devs(old_out).len() == old_out.len());
            }
            assert(d.len() == f.len());
            assert forall|l: int| 0 <= l < d.len() implies d[l] == f[l] by {
                assert(d[l] == out@[l]@);
                assert(f[l] == (DeliveryModel { to: mdv.take(k as int)[l], envelope: env@ }));
                if l < k as int - 1 {
                    assert(out@[l] == old_out[l]);
                    assert(devs(old_out)[l] == old_out[l]@);
                    assert(devs(old_out)[l] == fanout(mdv.take(k as int - 1), env@)[l]);
                } else {
                    assert(out@[l].to@ == mdv[l]);
                }
            }
            assert(d =~= f);
        }
    }
    proof {
        assert(members.deep_view().take(n as int) =~= members.deep_view());
    }
    out
}

/// Whether `user` is among the listed members.
fn contains_member(members: &Vec<String>, user: &str) -> (r: bool)
    ensures
        r == members.deep_view().contains(user@),
{
    let n = members.len();
    let mut k: usize = 0;
    while k < n
        invariant
            n == members@.len(),
            k <= n,
            forall|j: int| 0 <= j < k ==> members.deep_view()[j] != user@,
        decreases n - k,
    {
        if str_eq(members[k].as_str(), user) {
            proof {
                assert(members.deep_view()[k as int] == user@);
            }
            return true;
        }
        k = k + 1;
    }
    proof {
        if members.deep_view().contains(user@) {
            let j = choose|j: int| 0 <= j < members.deep_view().len() && members.deep_view()[j] == user@;
            assert(false);
        }
    }
    false
}

/// The member list with `user` filtered out, as a fresh vector.
fn remove_member_exec(members: &Vec<String>, user: &str) -> (out: Vec<String>)
    ensures
        out.deep_view() == remove_member(members.deep_view(), user@),
{
    let mut out: Vec<String> = Vec::new();
    let n = members.len();
    let mut k: usize = 0;
    proof {
        assert(out.deep_view() =~= remove_member(members.deep_view().take(0), user@));
    }
    while k < n
        invariant
            n == members@.len(),
            k <= n,
            out.deep_view() == remove_member(members.deep_view().take(k as int), user@),
        decreases n - k,
    {
        proof {
            assert(members.deep_view().take(k as int + 1).drop_last() =~= members.deep_view().take(
                k as int,
            ));
            assert(members.deep_view().take(k as int + 1).last() == members.deep_view()[k as int]);
        }
        if str_eq(members[k].as_str(), user) {
            proof {
                assert(members.deep_view()[k as int] == user@);
            }
        } else {
            out.push(members[k].clone());
        }
        k = k + 1;
        proof {
            assert(out.deep_view() =~= remove_member(members.deep_view().take(k as int), user@));
        }
    }
    proof {
        assert(members.deep_view().take(n as int) =~= members.deep_view());
    }
    out
}

/// A room's identifier and display name, as returned by an info lookup.
pub struct RoomSummary {
    pub room_id: String,
    pub room_name: String,
}

impl Registry {
    /// The registry is well formed when room identifiers are unique and
    /// every room is well formed.
    pub open spec fn wf(self) -> bool {
        &&& ids_unique(self.rooms@)
        &&& forall|i: int| 0 <= i < self.rooms@.len() ==> (#[trigger] self.rooms@[i]).wf()
    }

    /// An empty registry: no rooms at all.
    pub fn new() -> (r: Registry)
        ensures
            r.wf(),
            r@ == Map::<Seq<char>, RoomModel>::empty(),
    {
        Registry { rooms: Vec::new() }
    }

    /// The index of the room with identifier `rid`, if any.
    fn find_room_idx(&self, rid: &str) -> (r: Option<usize>)
        requires
            self.wf(),
        ensures
            match r {
                Some(i) => {
                    &&& i < self.rooms@.len()
                    &&& self.rooms@[i as int].id@ == rid@
                    &&& self@.dom().contains(rid@)
                    &&& self@[rid@] == self.rooms@[i as int]@
                },
                None => !self@.dom().contains(rid@),
            },
    {
        let n = self.rooms.len();
        let mut i: usize = 0;
        while i < n
            invariant
                n == self.rooms@.len(),
                i <= n,
                self.wf(),
                forall|j: int| 0 <= j < i ==> self.rooms@[j].id@ != rid@,
            decreases n - i,
        {
            if str_eq(self.rooms[i].id.as_str(), rid) {
                proof {
                    lemma_rooms_map_index(self.rooms@, i as int);
                }
                return Some(i);
            }
            i = i + 1;
        }
        proof {
            lemma_rooms_map_contains(self.rooms@, rid@);
        }
        None
    }

    /// Inserts a room under the given identifier with an empty member
    /// list, replacing any room already stored under it.
    pub fn insert_room(&mut self, room_id: String, room_name: String)
        requires
            old(self).wf(),
        ensures
            final(self).wf(),
            final(self)@ == old(self)@.insert(room_id@, RoomModel {
                name: room_name@,
                members: Seq::empty(),
            }),
    {
        let idx = self.find_room_idx(room_id.as_str());
        let room = Room { id: room_id, name: room_name, members: Vec::new() };
        proof {
            assert(room@.members =~= Seq::<Seq<char>>::empty());
        }
        match idx {
            Some(i) => {
                proof {
                    lemma_rooms_map_update(self.rooms@, i as int, room);
                }
                self.rooms[i] = room;
            },
            None => {
                proof {
                    lemma_rooms_map_push(self.rooms@, room);
                    lemma_rooms_map_contains(self.rooms@, room.id@);
                }
                self.rooms.push(room);
            },
        }
    }

    /// Creates a room under a fresh random identifier, with a generated
    /// display name, inserts it with no members, and returns both.
    /// Collision-resistant random identifiers stand in for uniqueness.
    pub fn create_room(&mut self) -> (r: (String, String))
        requires
            old(self).wf(),
        ensures
            final(self).wf(),
            is_uuid_like(r.0@),
            is_room_name(r.1@),
            final(self)@ == old(self)@.insert(r.0@, RoomModel {
                name: r.1@,
                members: Seq::empty(),
            }),
    {
        let id = fresh_uuid();
        let token_src = fresh_uuid();
        let token = token_src.as_str().substring_char(0, 8);
        let name = String::from_str("Room ").concat(token);
        proof {
            reveal_strlit("Room ");
            assert(name@.subrange(0, 5) =~= "Room "@);
            assert forall|i: int| 5 <= i < 13 implies is_hex_digit(name@[i]) by {
                assert(name@[i] == token@[i - 5]);
                assert(token@[i - 5] == token_src@[i - 5]);
            }
        }
        let out_id = id.clone();
        let out_name = name.clone();
        self.insert_room(id, name);
        (out_id, out_name)
    }

    /// Joins `user` to the room: the join notification is fanned out to
    /// the members present before the join (so a fresh member never sees
    /// its own announcement), then the member is added.  A missing room
    /// is a silent no-op.
    pub fn join(&mut self, room_id: &str, user: &str) -> (out: Vec<Delivery>)
        requires
            old(self).wf(),
        ensures
            final(self).wf(),
            final(self)@ == join_next(old(self)@, room_id@, user@),
            devs(out@) == join_out(old(self)@, room_id@, user@),
    {
        let idx = self.find_room_idx(room_id);
        match idx {
            None => Vec::new(),
            Some(i) => {
                let note = Envelope {
                    room_id: room_id.to_owned(),
                    user: user.to_owned(),
                    message: join_message(user),
                    kind: Kind::Notification,
                };
                let out = fanout_exec(&self.rooms[i].members, &note);
                let present = contains_member(&self.rooms[i].members, user);
                if !present {
                    let ghost old_rooms = self.rooms@;
                    self.rooms[i].members.push(user.to_owned());
                    proof {
                        let r_new = self.rooms@[i as int];
                        assert(self.rooms@ == old_rooms.update(i as int, r_new));
                        lemma_rooms_map_update(old_rooms, i as int, r_new);
                        assert(r_new@.members =~= old(self)@[room_id@].members.push(user@));
                        assert(r_new.wf());
                    }
                }
                out
            },
        }
    }

    /// Takes `user` out of the room and fans the leave notification out
    /// to the members that remain, so the leaver never sees it.  When the
    /// room does not exist, or the user is not a member, nothing changes
    /// and nothing is sent: leaving is idempotent.
    pub fn leave(&mut self, room_id: &str, user: &str) -> (out: Vec<Delivery>)
        requires
            old(self).wf(),
        ensures
            final(self).wf(),
            final(self)@ == leave_next(old(self)@, room_id@, user@),
            devs(out@) == leave_out(old(self)@, room_id@, user@),
    {
        let idx = self.find_room_idx(room_id);
        match idx {
            None => Vec::new(),
            Some(i) => {
                let present = contains_member(&self.rooms[i].members, user);
                if !present {
                    return Vec::new();
                }
                let kept = remove_member_exec(&self.rooms[i].members, user);
                let ghost old_rooms = self.rooms@;
                self.rooms[i].members = kept;
                proof {
                    let r_new = self.rooms@[i as int];
                    assert(self.rooms@ == old_rooms.update(i as int, r_new));
                    lemma_rooms_map_update(old_rooms, i as int, r_new);
                    lemma_remove_member(old(self)@[room_id@].members, user@);
                    assert(r_new.wf());
                }
                let note = Envelope {
                    room_id: room_id.to_owned(),
                    user: user.to_owned(),
                    message: leave_message(user),
                    kind: Kind::Notification,
                };
                fanout_exec(&self.rooms[i].members, &note)
            },
        }
    }

    /// Fans the envelope out to every current member of the room, the
    /// author included, so a client sees its own chat echoed back.  A
    /// missing room drops the message silently.
    pub fn publish(&self, room_id: &str, user: &str, body: &str, kind: Kind) -> (out: Vec<
        Delivery,
    >)
        requires
            self.wf(),
        ensures
            devs(out@) == publish_out(self@, room_id@, user@, body@, kind),
    {
        match self.find_room_idx(room_id) {
            None => Vec::new(),
            Some(i) => {
                let env = Envelope {
                    room_id: room_id.to_owned(),
                    user: user.to_owned(),
                    message: body.to_owned(),
                    kind: kind,
                };
                fanout_exec(&self.rooms[i].members, &env)
            },
        }
    }

    /// Looks a room up; returns its identifier and display name when it
    /// exists and `None` exactly when it does not.
    pub fn get_room_info(&self, room_id: &str) -> (r: Option<RoomSummary>)
        requires
            self.wf(),
        ensures
            match r {
                Some(s) => {
                    &&& self@.dom().contains(room_id@)
                    &&& s.room_id@ == room_id@
                    &&& s.room_name@ == self@[room_id@].name
                },
                None => !self@.dom().contains(room_id@),
            },
    {
        match self.find_room_idx(room_id) {
            Some(i) => Some(RoomSummary {
                room_id: self.rooms[i].id.clone(),
                room_name: self.rooms[i].name.clone(),
            }),
            None => None,
        }
    }
}

/// A well-formed registry denotes a well-formed model: every room's
/// member list is duplicate free.
pub proof fn lemma_registry_model_wf(r: Registry)
    requires
        r.wf(),
    ensures
        model_wf(r@),
{
    assert forall|rid: Seq<char>| r@.dom().contains(rid) implies (#[trigger] r@[rid]).members.no_duplicates() by {
        lemma_rooms_map_contains(r.rooms@, rid);
        let i = choose|i: int| 0 <= i < r.rooms@.len() && r.rooms@[i].id@ == rid;
        lemma_rooms_map_index(r.rooms@, i);
    }
}

/// Joining keeps the model well formed.
pub proof fn lemma_join_preserves_wf(m: RegistryModel, rid: Seq<char>, user: Seq<char>)
    requires
        model_wf(m),
    ensures
        model_wf(join_next(m, rid, user)),
{
    if m.dom().contains(rid) && !m[rid].members.contains(user) {
        let ms = m[rid].members;
        let ms2 = ms.push(user);
        assert(ms2.no_duplicates()) by {
            assert(forall|i: int| 0 <= i < ms.len() ==> ms2[i] == ms[i]);
            assert(ms2[ms2.len() - 1] == user);
            assert(forall|i: int| 0 <= i < ms.len() ==> ms[i] != user) by {
                assert forall|i: int| 0 <= i < ms.len() implies ms[i] != user by {
                    if ms[i] == user {
                        assert(ms.contains(user));
                    }
                }
            }
        }
    }
}

/// Leaving keeps the model well formed.
pub proof fn lemma_leave_preserves_wf(m: RegistryModel, rid: Seq<char>, user: Seq<char>)
    requires
        model_wf(m),
    ensures
        model_wf(leave_next(m, rid, user)),
{
    if m.dom().contains(rid) && m[rid].members.contains(user) {
        lemma_remove_member(m[rid].members, user);
    }
}

/// Creating or replacing a room keeps the model well formed.
pub proof fn lemma_insert_room_preserves_wf(m: RegistryModel, rid: Seq<char>, name: Seq<char>)
    requires
        model_wf(m),
    ensures
        model_wf(m.insert(rid, RoomModel { name: name, members: Seq::empty() })),
{
}

/// Publishing delivers exactly one envelope, holding the given author,
/// body and kind, to every current member of the room -- the author
/// included whenever it is itself a member.
pub proof fn lemma_publish_exactly_once(
    m: RegistryModel,
    rid: Seq<char>,
    author: Seq<char>,
    body: Seq<char>,
    kind: Kind,
    member: Seq<char>,
)
    requires
        model_wf(m),
        m.dom().contains(rid),
        m[rid].members.contains(member),
    ensures
        count_to(publish_out(m, rid, author, body, kind), member) == 1,
        forall|l: int|
            0 <= l < publish_out(m, rid, author, body, kind).len() ==> (#[trigger] publish_out(
                m,
                rid,
                author,
                body,
                kind,
            )[l]).envelope == (EnvelopeModel {
                room_id: rid,
                user: author,
                message: body,
                kind: kind,
            }),
{
    let e = EnvelopeModel { room_id: rid, user: author, message: body, kind: kind };
    lemma_fanout_count(m[rid].members, e, member);
}

/// After a join to an existing room the user is a member, and every
/// member from before the join still is.
pub proof fn lemma_join_adds_member(m: RegistryModel, rid: Seq<char>, user: Seq<char>)
    requires
        m.dom().contains(rid),
    ensures
        join_next(m, rid, user).dom().contains(rid),
        join_next(m, rid, user)[rid].members.contains(user),
        forall|u: Seq<char>|
            m[rid].members.contains(u) ==> join_next(m, rid, user)[rid].members.contains(u),
{
    let ms = m[rid].members;
    if !ms.contains(user) {
        let ms2 = join_next(m, rid, user)[rid].members;
        assert(ms2 == ms.push(user));
        assert(ms2[ms2.len() - 1] == user);
        assert(ms2.contains(user));
        assert forall|u: Seq<char>| ms.contains(u) implies ms2.contains(u) by {
            let i = choose|i: int| 0 <= i < ms.len() && ms[i] == u;
            assert(ms2[i] == u);
        }
    }
}

/// A fresh join notifies each existing member exactly once, never the
/// joining user itself, and every notification names the new user.
pub proof fn lemma_join_notifications(m: RegistryModel, rid: Seq<char>, user: Seq<char>)
    requires
        model_wf(m),
        m.dom().contains(rid),
        !m[rid].members.contains(user),
    ensures
        count_to(join_out(m, rid, user), user) == 0,
        forall|u: Seq<char>|
            m[rid].members.contains(u) ==> count_to(join_out(m, rid, user), u) == 1,
        forall|l: int|
            0 <= l < join_out(m, rid, user).len() ==> (#[trigger] join_out(m, rid, user)[l]).envelope
                == notification(rid, user, join_note(user)),
{
    let e = notification(rid, user, join_note(user));
    lemma_fanout_count(m[rid].members, e, user);
    assert forall|u: Seq<char>| m[rid].members.contains(u) implies count_to(
        join_out(m, rid, user),
        u,
    ) == 1 by {
        lemma_fanout_count(m[rid].members, e, u);
    }
}

/// A leave notifies each remaining member exactly once and the leaver
/// not at all; every notification names the leaving user.
pub proof fn lemma_leave_notifications(m: RegistryModel, rid: Seq<char>, user: Seq<char>)
    requires
        model_wf(m),
        m.dom().contains(rid),
        m[rid].members.contains(user),
    ensures
        count_to(leave_out(m, rid, user), user) == 0,
        forall|u: Seq<char>|
            u != user && m[rid].members.contains(u) ==> count_to(leave_out(m, rid, user), u) == 1,
        forall|l: int|
            0 <= l < leave_out(m, rid, user).len() ==> (#[trigger] leave_out(m, rid, user)[l]).envelope
                == notification(rid, user, leave_note(user)),
{
    let e = notification(rid, user, leave_note(user));
    lemma_remove_member(m[rid].members, user);
    let rem = remove_member(m[rid].members, user);
    lemma_fanout_count(rem, e, user);
    assert forall|u: Seq<char>| u != user && m[rid].members.contains(u) implies count_to(
        leave_out(m, rid, user),
        u,
    ) == 1 by {
        assert(rem.contains(u));
        lemma_fanout_count(rem, e, u);
    }
}

/// Joining, leaving and publishing against a missing room identifier
/// change nothing and deliver nothing.
pub proof fn lemma_missing_room_no_op(
    m: RegistryModel,
    rid: Seq<char>,
    user: Seq<char>,
    body: Seq<char>,
    kind: Kind,
)
    requires
        !m.dom().contains(rid),
    ensures
        join_next(m, rid, user) == m,
        join_out(m, rid, user) == Seq::<DeliveryModel>::empty(),
        leave_next(m, rid, user) == m,
        leave_out(m, rid, user) == Seq::<DeliveryModel>::empty(),
        publish_out(m, rid, user, body, kind) == Seq::<DeliveryModel>::empty(),
{
}

/// The registry after joining each listed user to the room, in order.
pub open spec fn join_all(m: RegistryModel, rid: Seq<char>, users: Seq<Seq<char>>) -> RegistryModel
    decreases users.len(),
{
    if users.len() == 0 {
        m
    } else {
        join_next(join_all(m, rid, users.drop_last()), rid, users.last())
    }
}

/// After any sequence of joins to an existing room, the room still
/// exists, stays well formed, and every joined user -- as well as every
/// user who was already a member -- is a member.
pub proof fn lemma_join_all_members(m: RegistryModel, rid: Seq<char>, users: Seq<Seq<char>>)
    requires
        model_wf(m),
        m.dom().contains(rid),
    ensures
        model_wf(join_all(m, rid, users)),
        join_all(m, rid, users).dom().contains(rid),
        forall|k: int|
            0 <= k < users.len() ==> join_all(m, rid, users)[rid].members.contains(users[k]),
        forall|u: Seq<char>|
            m[rid].members.contains(u) ==> join_all(m, rid, users)[rid].members.contains(u),
    decreases users.len(),
{
    if users.len() == 0 {
    } else {
        let prefix = users.drop_last();
        let last = users.last();
        lemma_join_all_members(m, rid, prefix);
        let m1 = join_all(m, rid, prefix);
        lemma_join_preserves_wf(m1, rid, last);
        lemma_join_adds_member(m1, rid, last);
        assert(join_all(m, rid, users) == join_next(m1, rid, last));
        assert forall|k: int| 0 <= k < users.len() implies join_all(m, rid, users)[rid].members.contains(
            users[k],
        ) by {
            if k < users.len() - 1 {
                assert(prefix[k] == users[k]);
                assert(m1[rid].members.contains(users[k]));
            }
        }
    }
}

/// For any sequence of joins to an existing room followed by a publish
/// by one of the joined users, every joined user -- the author included
/// -- is delivered exactly one envelope, and every delivered envelope
/// carries exactly the given author, body and kind.
pub proof fn lemma_join_sequence_then_publish(
    m: RegistryModel,
    rid: Seq<char>,
    users: Seq<Seq<char>>,
    k: int,
    body: Seq<char>,
    kind: Kind,
)
    requires
        model_wf(m),
        m.dom().contains(rid),
        0 <= k < users.len(),
    ensures
        forall|j: int|
            0 <= j < users.len() ==> count_to(
                publish_out(join_all(m, rid, users), rid, users[k], body, kind),
                users[j],
            ) == 1,
        forall|l: int|
            0 <= l < publish_out(join_all(m, rid, users), rid, users[k], body, kind).len()
                ==> (#[trigger] publish_out(join_all(m, rid, users), rid, users[k], body, kind)[l]).envelope
                == (EnvelopeModel { room_id: rid, user: users[k], message: body, kind: kind }),
{
    lemma_join_all_members(m, rid, users);
    let m2 = join_all(m, rid, users);
    assert forall|j: int| 0 <= j < users.len() implies count_to(
        publish_out(m2, rid, users[k], body, kind),
        users[j],
    ) == 1 by {
        lemma_publish_exactly_once(m2, rid, users[k], body, kind, users[j]);
    }
    lemma_publish_exactly_once(m2, rid, users[k], body, kind, users[k]);
}

/// Leaving twice looks exactly like leaving once: the second leave
/// changes nothing and notifies nobody.
pub proof fn lemma_leave_idempotent(m: RegistryModel, rid: Seq<char>, user: Seq<char>)
    requires
        model_wf(m),
    ensures
        leave_next(leave_next(m, rid, user), rid, user) == leave_next(m, rid, user),
        leave_out(leave_next(m, rid, user), rid, user) == Seq::<DeliveryModel>::empty(),
{
    if m.dom().contains(rid) && m[rid].members.contains(user) {
        lemma_remove_member(m[rid].members, user);
        let m1 = leave_next(m, rid, user);
        assert(m1[rid].members == remove_member(m[rid].members, user));
        assert(!m1[rid].members.contains(user));
    }
}

} // verus!
