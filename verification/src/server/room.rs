//! Rooms of the signaling server: each holds at most one Host and one
//! Remote peer, and a room disappears when its last peer leaves.

use vstd::prelude::*;
use vstd::string::StringExecFns;

verus! {

#[verifier::external_type_specification]
#[verifier::external_body]
#[verifier::reject_recursive_types(K)]
#[verifier::reject_recursive_types(V)]
#[verifier::reject_recursive_types(S)]
pub struct ExDashMap<K, V, S>(dashmap::DashMap<K, V, S>);

/// The role a peer joins a room in.
#[derive(Debug, Clone, Copy, PartialEq, Eq, Structural)]
pub enum PeerRole {
    Host,
    Remote,
}

/// Why a peer could not join a room.
#[derive(Debug, Clone, Copy, PartialEq, Eq, Structural)]
pub enum RoomError {
    /// The slot for the peer's role is already taken.
    RoomFull,
}

/// A room with at most one Host and one Remote peer.
#[derive(Debug)]
pub struct Room {
    pub id: String,
    pub host: Option<String>,
    pub remote: Option<String>,
    pub created_at: std::time::Instant,
}

/// The map from room id to room.
pub type RoomMap = dashmap::DashMap<String, Room>;

/// The text of an optional string.
pub open spec fn opt_view(o: Option<String>) -> Option<Seq<char>> {
    match o {
        Some(s) => Some(s@),
        None => None,
    }
}

/// The peers of a room: its host and its remote, if any.
pub type Slots = (Option<Seq<char>>, Option<Seq<char>>);

/// No rooms.
pub open spec fn empty_table() -> Map<Seq<char>, Slots> {
    Map::empty()
}

/// The rooms a map holds, each room id with the peers in the room.
pub uninterp spec fn room_table(m: RoomMap) -> Map<Seq<char>, Slots>;

/// `std::time::Instant::now()`: the current instant, of which nothing is stated.
#[verifier::external_body]
fn instant_now() -> std::time::Instant {
    std::time::Instant::now()
}

/// `DashMap::new()`: an empty map.
#[verifier::external_body]
fn rooms_new() -> (m: RoomMap)
    ensures
        room_table(m) == empty_table(),
{
    dashmap::DashMap::new()
}

/// `DashMap::get`: the peers of the room `id`, if the map holds it.
#[verifier::external_body]
fn rooms_slots(m: &RoomMap, id: &str) -> (r: Option<(Option<String>, Option<String>)>)
    ensures
        r is Some <==> room_table(*m).contains_key(id@),
        r matches Some(s) ==> (opt_view(s.0), opt_view(s.1)) == room_table(*m)[id@],
{
    match m.get(id) {
        Some(room) => Some((room.host.clone(), room.remote.clone())),
        None => None,
    }
}

/// `DashMap::get_mut`: sets the peers of the room `id`, if the map holds it.
#[verifier::external_body]
fn rooms_set_slots(m: &mut RoomMap, id: &str, host: Option<String>, remote: Option<String>)
    ensures
        room_table(*final(m)) == if room_table(*old(m)).contains_key(id@) {
            room_table(*old(m)).insert(id@, (opt_view(host), opt_view(remote)))
        } else {
            room_table(*old(m))
        },
{
    if let Some(mut room) = m.get_mut(id) {
        room.host = host;
        room.remote = remote;
    }
}

/// `DashMap::insert`: the map with `room` under `id`.
#[verifier::external_body]
fn rooms_insert(m: &mut RoomMap, id: String, room: Room)
    ensures
        room_table(*final(m)) == room_table(*old(m)).insert(id@, (opt_view(room.host), opt_view(room.remote))),
{
    m.insert(id, room);
}

/// Whether a room has a peer.
pub open spec fn occupied(s: Slots) -> bool {
    s.0 is Some || s.1 is Some
}

/// The rooms of `t` that have a peer.
pub open spec fn occupied_rooms(t: Map<Seq<char>, Slots>) -> Map<Seq<char>, Slots> {
    t.restrict(t.dom().filter(|k: Seq<char>| occupied(t[k])))
}

/// Whether a room has a peer.
pub fn room_is_occupied(room: &Room) -> (b: bool)
    ensures
        b == occupied((opt_view(room.host), opt_view(room.remote))),
{
    room.host.is_some() || room.remote.is_some()
}

/// `DashMap::retain` with `room_is_occupied`: keeps the rooms with a peer.
#[verifier::external_body]
fn rooms_retain_occupied(m: &mut RoomMap)
    ensures
        room_table(*final(m)) == occupied_rooms(room_table(*old(m))),
{
    m.retain(|_, room| room_is_occupied(room));
}

/// `DashMap::len`: the number of rooms.
#[verifier::external_body]
fn rooms_len(m: &RoomMap) -> (n: usize)
    ensures
        n == room_table(*m).len(),
{
    m.len()
}

/// `DashMap::iter`, each entry mapped to a copy of its key: every room id
/// once, in the map's own order, which is not stated.
#[verifier::external_body]
fn rooms_keys(m: &RoomMap) -> (keys: Vec<String>)
    ensures
        keys@.map_values(|k: String| k@).no_duplicates(),
        keys@.map_values(|k: String| k@).to_set() == room_table(*m).dom(),
{
    m.iter().map(|entry| entry.key().clone()).collect()
}

/// In-memory room state of the signaling server.
#[derive(Debug)]
pub struct RoomManager {
    rooms: RoomMap,
}

/// The rooms after `peer` joins room `id` as `role`, when that succeeds:
/// the slot of the role set in an existing room, or a new room with the
/// peer alone.
pub open spec fn joined(t: Map<Seq<char>, Slots>, id: Seq<char>, peer: Seq<char>, role: PeerRole) -> Map<Seq<char>, Slots> {
    if t.contains_key(id) {
        match role {
            PeerRole::Host => t.insert(id, (Some(peer), t[id].1)),
            PeerRole::Remote => t.insert(id, (t[id].0, Some(peer))),
        }
    } else {
        match role {
            PeerRole::Host => t.insert(id, (Some(peer), None)),
            PeerRole::Remote => t.insert(id, (None, Some(peer))),
        }
    }
}

/// Joining fails exactly when the room exists and the role's slot is taken.
pub open spec fn join_refused(t: Map<Seq<char>, Slots>, id: Seq<char>, role: PeerRole) -> bool {
    t.contains_key(id) && match role {
        PeerRole::Host => t[id].0 is Some,
        PeerRole::Remote => t[id].1 is Some,
    }
}

/// The rooms after `peer` leaves room `id`: its slots there cleared, then
/// every room without a peer removed.
pub open spec fn left(t: Map<Seq<char>, Slots>, id: Seq<char>, peer: Seq<char>) -> Map<Seq<char>, Slots> {
    let cleared = if t.contains_key(id) {
        let (h, r) = t[id];
        t.insert(id, (if h == Some(peer) { None } else { h }, if r == Some(peer) { None } else { r }))
    } else {
        t
    };
    occupied_rooms(cleared)
}

/// The peer on the other side of `peer` in room `id`: the remote when
/// `peer` is the host, the host when `peer` is the remote; none when the
/// room does not exist or `peer` holds no slot in it.
pub open spec fn other_peer(t: Map<Seq<char>, Slots>, id: Seq<char>, peer: Seq<char>) -> Option<Seq<char>> {
    if !t.contains_key(id) {
        None
    } else if t[id].0 == Some(peer) {
        t[id].1
    } else if t[id].1 == Some(peer) {
        t[id].0
    } else {
        None
    }
}

/// Number of rooms of `t` whose slots satisfy `p`.
pub open spec fn count_rooms(t: Map<Seq<char>, Slots>, p: spec_fn(Slots) -> bool) -> nat {
    t.dom().filter(|k: Seq<char>| p(t[k])).len()
}

/// A prefix has no more items satisfying `q` than the whole sequence.
proof fn lemma_filter_prefix_le(s: Seq<Seq<char>>, q: spec_fn(Seq<char>) -> bool, i: int)
    requires
        0 <= i <= s.len(),
    ensures
        s.take(i).filter(q).len() <= s.filter(q).len(),
    decreases s.len() - i,
{
    if i == s.len() {
        assert(s.take(i) =~= s);
    } else {
        lemma_filter_prefix_le(s, q, i + 1);
        assert(s.take(i + 1) =~= s.take(i).push(s[i]));
        s.take(i).lemma_filter_push(s[i], q);
    }
}

/// Counting the items of a sequence without duplicates that satisfy `q`
/// counts the members of its set that do.
proof fn lemma_filter_count(ks: Seq<Seq<char>>, q: spec_fn(Seq<char>) -> bool)
    requires
        ks.no_duplicates(),
    ensures
        ks.filter(q).len() == ks.to_set().filter(q).len(),
    decreases ks.len(),
{
    broadcast use vstd::seq_lib::seq_to_set_is_finite;
    if ks.len() == 0 {
        assert(ks.to_set().filter(q) =~= Set::empty());
        assert(ks.filter(q) =~= Seq::empty());
    } else {
        let pre = ks.drop_last();
        let x = ks.last();
        assert(ks =~= pre.push(x));
        assert(pre.no_duplicates());
        lemma_filter_count(pre, q);
        pre.lemma_filter_push(x, q);
        pre.lemma_push_to_set_commute(x);
        assert(!pre.to_set().contains(x)) by {
            if pre.to_set().contains(x) {
                let j = choose|j: int| 0 <= j < pre.len() && pre[j] == x;
                assert(ks[j] == ks[ks.len() - 1]);
            }
        }
        pre.to_set().lemma_len_filter(q);
        if q(x) {
            assert(ks.to_set().filter(q) =~= pre.to_set().filter(q).insert(x));
        } else {
            assert(ks.to_set().filter(q) =~= pre.to_set().filter(q));
        }
    }
}

impl RoomManager {
    /// The rooms, each id with its peers.
    pub closed spec fn table(&self) -> Map<Seq<char>, Slots> {
        room_table(self.rooms)
    }

    /// An empty manager.
    pub fn new() -> (m: Self)
        ensures
            m.table() == empty_table(),
    {
        RoomManager { rooms: rooms_new() }
    }

    /// Join a room as Host or Remote. Fails with `RoomFull` if the slot
    /// of the role is already taken; a room that does not exist is created.
    pub fn join_room(&mut self, room_id: &str, peer_id: &str, role: &PeerRole) -> (r: Result<(), RoomError>)
        ensures
            join_refused(old(self).table(), room_id@, *role) ==> r == Err::<(), RoomError>(RoomError::RoomFull)
                && final(self).table() == old(self).table(),
            !join_refused(old(self).table(), room_id@, *role) ==> r is Ok && final(self).table() == joined(
                old(self).table(),
                room_id@,
                peer_id@,
                *role,
            ),
    {
        let pid = String::from_str(peer_id);
        match rooms_slots(&self.rooms, room_id) {
            Some((host, remote)) => {
                match role {
                    PeerRole::Host => {
                        if host.is_some() {
                            return Err(RoomError::RoomFull);
                        }
                        rooms_set_slots(&mut self.rooms, room_id, Some(pid), remote);
                    },
                    PeerRole::Remote => {
                        if remote.is_some() {
                            return Err(RoomError::RoomFull);
                        }
                        rooms_set_slots(&mut self.rooms, room_id, host, Some(pid));
                    },
                }
            },
            None => {
                let (h, r) = match role {
                    PeerRole::Host => (Some(pid), None),
                    PeerRole::Remote => (None, Some(pid)),
                };
                let id = String::from_str(room_id);
                let room = Room { id: id.clone(), host: h, remote: r, created_at: instant_now() };
                rooms_insert(&mut self.rooms, id, room);
            },
        }
        Ok(())
    }

    /// Leave a room: clear the peer's slots in it, then remove every room
    /// left without a peer.
    pub fn leave_room(&mut self, room_id: &str, peer_id: &str)
        ensures
            final(self).table() == left(old(self).table(), room_id@, peer_id@),
    {
        let pid = String::from_str(peer_id);
        match rooms_slots(&self.rooms, room_id) {
            Some((host, remote)) => {
                let new_host = match host {
                    Some(h) => if h == pid { None } else { Some(h) },
                    None => None,
                };
                let new_remote = match remote {
                    Some(r) => if r == pid { None } else { Some(r) },
                    None => None,
                };
                rooms_set_slots(&mut self.rooms, room_id, new_host, new_remote);
            },
            None => {},
        }
        rooms_retain_occupied(&mut self.rooms);
    }

    /// The peer to relay messages to from `peer_id` in room `room_id`: the
    /// remote for the host, the host for the remote. None when the room does
    /// not exist, when `peer_id` holds no slot in it, or when the other slot
    /// is empty.
    pub fn get_other_peer(&self, room_id: &str, peer_id: &str) -> (r: Option<String>)
        ensures
            opt_view(r) == other_peer(self.table(), room_id@, peer_id@),
    {
        let pid = String::from_str(peer_id);
        match rooms_slots(&self.rooms, room_id) {
            Some((host, remote)) => {
                let is_host = match &host {
                    Some(h) => *h == pid,
                    None => false,
                };
                if is_host {
                    return remote;
                }
                let is_remote = match &remote {
                    Some(m) => *m == pid,
                    None => false,
                };
                if is_remote {
                    host
                } else {
                    None
                }
            },
            None => None,
        }
    }

    /// Number of rooms.
    pub fn active_rooms(&self) -> (n: usize)
        ensures
            n == self.table().len(),
    {
        rooms_len(&self.rooms)
    }

    /// Number of rooms with at least one peer.
    pub fn connected_peers(&self) -> (n: usize)
        ensures
            n == count_rooms(self.table(), |s: Slots| occupied(s)),
    {
        let keys = rooms_keys(&self.rooms);
        let ghost ks = keys@.map_values(|k: String| k@);
        let ghost t = self.table();
        let ghost q = |k: Seq<char>| occupied(t[k]);
        let mut count: usize = 0;
        let mut i: usize = 0;
        while i < keys.len()
            invariant
                i <= keys@.len(),
                ks == keys@.map_values(|k: String| k@),
                ks.to_set() == t.dom(),
                t == self.table(),
                q == (|k: Seq<char>| occupied(t[k])),
                count == ks.take(i as int).filter(q).len(),
                count <= i,
            decreases keys@.len() - i,
        {
            proof {
                assert(ks.take(i + 1) =~= ks.take(i as int).push(ks[i as int]));
                ks.take(i as int).lemma_filter_push(ks[i as int], q);
                assert(t.dom().contains(ks[i as int]));
            }
            match rooms_slots(&self.rooms, keys[i].as_str()) {
                Some((host, remote)) => {
                    if host.is_some() || remote.is_some() {
                        count = count + 1;
                    }
                },
                None => {},
            }
            i = i + 1;
        }
        proof {
            assert(ks.take(keys@.len() as int) =~= ks);
            lemma_filter_count(ks, q);
            assert(t.dom().filter(q) =~= t.dom().filter(|k: Seq<char>| (|s: Slots| occupied(s))(t[k])));
        }
        count
    }

    /// Number of peers in all rooms: hosts plus remotes. The count must fit
    /// in a `usize`.
    pub fn get_peer_count(&self) -> (n: usize)
        requires
            count_rooms(self.table(), |s: Slots| s.0 is Some) + count_rooms(self.table(), |s: Slots| s.1 is Some)
                <= usize::MAX,
        ensures
            n == count_rooms(self.table(), |s: Slots| s.0 is Some) + count_rooms(self.table(), |s: Slots| s.1 is Some),
    {
        let keys = rooms_keys(&self.rooms);
        let ghost ks = keys@.map_values(|k: String| k@);
        let ghost t = self.table();
        let ghost qh = |k: Seq<char>| t[k].0 is Some;
        let ghost qr = |k: Seq<char>| t[k].1 is Some;
        proof {
            ks.unique_seq_to_set();
            lemma_filter_count(ks, qh);
            lemma_filter_count(ks, qr);
            assert(t.dom().filter(qh) =~= t.dom().filter(|k: Seq<char>| (|s: Slots| s.0 is Some)(t[k])));
            assert(t.dom().filter(qr) =~= t.dom().filter(|k: Seq<char>| (|s: Slots| s.1 is Some)(t[k])));
        }
        let mut total: usize = 0;
        let mut i: usize = 0;
        while i < keys.len()
            invariant
                i <= keys@.len(),
                ks == keys@.map_values(|k: String| k@),
                ks.to_set() == t.dom(),
                ks.len() == t.dom().len(),
                ks.filter(qh).len() + ks.filter(qr).len() <= usize::MAX,
                t == self.table(),
                qh == (|k: Seq<char>| t[k].0 is Some),
                qr == (|k: Seq<char>| t[k].1 is Some),
                total == ks.take(i as int).filter(qh).len() + ks.take(i as int).filter(qr).len(),
            decreases keys@.len() - i,
        {
            proof {
                assert(ks.take(i + 1) =~= ks.take(i as int).push(ks[i as int]));
                ks.take(i as int).lemma_filter_push(ks[i as int], qh);
                ks.take(i as int).lemma_filter_push(ks[i as int], qr);
                lemma_filter_prefix_le(ks, qh, i as int + 1);
                lemma_filter_prefix_le(ks, qr, i as int + 1);
                assert(t.dom().contains(ks[i as int]));
            }
            match rooms_slots(&self.rooms, keys[i].as_str()) {
                Some((host, remote)) => {
                    if host.is_some() {
                        total = total + 1;
                    }
                    if remote.is_some() {
                        total = total + 1;
                    }
                },
                None => {},
            }
            i = i + 1;
        }
        proof {
            assert(ks.take(keys@.len() as int) =~= ks);
        }
        total
    }

    /// Clean up rooms whose last peer left long ago: nothing to do, as a
    /// room is removed when its last peer leaves.
    pub fn cleanup_stale(&self, _timeout_secs: u64) {
    }
}

/// Every room of `t` has a peer.
pub open spec fn all_occupied(t: Map<Seq<char>, Slots>) -> bool {
    forall|k: Seq<char>| #[trigger] t.contains_key(k) ==> occupied(t[k])
}

/// Leaving leaves no room without a peer.
pub proof fn law_leave_removes_empty_rooms(t: Map<Seq<char>, Slots>, id: Seq<char>, peer: Seq<char>)
    ensures
        all_occupied(left(t, id, peer)),
{
}

/// A slot taken by a join refuses the next join in the same role.
pub proof fn law_second_join_refused(t: Map<Seq<char>, Slots>, id: Seq<char>, p1: Seq<char>, role: PeerRole)
    requires
        !join_refused(t, id, role),
    ensures
        join_refused(joined(t, id, p1, role), id, role),
{
}

/// A peer that joins and then leaves the same room restores the rooms,
/// when every room had a peer and the peer was not already in the room
/// in the other role.
pub proof fn law_join_then_leave_restores(t: Map<Seq<char>, Slots>, id: Seq<char>, peer: Seq<char>, role: PeerRole)
    requires
        all_occupied(t),
        !join_refused(t, id, role),
        t.contains_key(id) ==> match role {
            PeerRole::Host => t[id].1 != Some(peer),
            PeerRole::Remote => t[id].0 != Some(peer),
        },
    ensures
        left(joined(t, id, peer, role), id, peer) == t,
{
    let j = joined(t, id, peer, role);
    let (h, r) = j[id];
    let cleared = j.insert(id, (if h == Some(peer) { None } else { h }, if r == Some(peer) { None } else { r }));
    assert forall|k: Seq<char>| cleared.contains_key(k) && k != id implies cleared[k] == t[k] && occupied(t[k]) by {
    }
    if t.contains_key(id) {
        assert(cleared[id] == t[id]);
        assert(occupied_rooms(cleared) =~= t);
    } else {
        assert(!occupied(cleared[id]));
        assert(occupied_rooms(cleared) =~= t);
    }
}

/// When every room has a peer, the rooms with a peer are all the rooms.
pub proof fn law_connected_rooms_are_all_rooms(t: Map<Seq<char>, Slots>)
    requires
        all_occupied(t),
        t.dom().finite(),
    ensures
        count_rooms(t, |s: Slots| occupied(s)) == t.len(),
{
    assert(t.dom().filter(|k: Seq<char>| (|s: Slots| occupied(s))(t[k])) =~= t.dom());
}

} // verus!
