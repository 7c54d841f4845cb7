//! The server's state as mathematics, and what each operation does to it.
//!
//! Every handler of the engine is proved to produce exactly the state and the
//! deliveries that the functions of this module give; the lemmas here prove
//! that those functions keep the state valid.

use vstd::prelude::*;
use crate::clients::ClientView;
use crate::message::MessageView;
use crate::rooms::RoomView;
use crate::text::room_full_text;

verus! {

/// The whole state of the server: clients and rooms by identifier.
pub struct ServerView {
    pub clients: Map<u64, ClientView>,
    pub rooms: Map<Seq<char>, RoomView>,
}

/// A room's capacity is at least two, its members fit in it, and none of them
/// appears twice.
pub open spec fn room_valid(room: RoomView) -> bool {
    &&& 2 <= room.capacity
    &&& room.members.len() <= room.capacity
    &&& room.members.no_duplicates()
}

/// Every member of a room is a connected client whose current room is that room.
pub open spec fn members_registered(v: ServerView) -> bool {
    forall|k: Seq<char>, m: u64|
        v.rooms.contains_key(k) && #[trigger] v.rooms[k].members.contains(m) ==> {
            &&& v.clients.contains_key(m)
            &&& v.clients[m].room == Some(k)
        }
}

/// Every client that is in a room is listed among that room's members.
pub open spec fn clients_seated(v: ServerView) -> bool {
    forall|c: u64|
        #[trigger] v.clients.contains_key(c) && v.clients[c].room is Some ==> {
            &&& v.rooms.contains_key(v.clients[c].room->0)
            &&& v.rooms[v.clients[c].room->0].members.contains(c)
        }
}

/// The invariant that every operation of the server keeps.
pub open spec fn valid(v: ServerView) -> bool {
    &&& forall|k: Seq<char>| v.rooms.contains_key(k) ==> room_valid(#[trigger] v.rooms[k])
    &&& members_registered(v)
    &&& clients_seated(v)
}

/// One frame to each of `members` in order, skipping `exclude`.
pub open spec fn fanout(members: Seq<u64>, m: MessageView, exclude: Option<u64>) -> Seq<
    (u64, MessageView),
> {
    members.filter(|x: u64| exclude != Some(x)).map_values(|x: u64| (x, m))
}

/// A single frame to one client.
pub open spec fn reply(to: u64, m: MessageView) -> Seq<(u64, MessageView)> {
    seq![(to, m)]
}

/// An error frame to one client.
pub open spec fn error_reply(to: u64, text: Seq<char>) -> Seq<(u64, MessageView)> {
    reply(to, MessageView::Error { message: text })
}

/// Some room is named `name`.
pub open spec fn name_taken(rooms: Map<Seq<char>, RoomView>, name: Seq<char>) -> bool {
    exists|k: Seq<char>| #[trigger] rooms.contains_key(k) && rooms[k].name == name
}

/// The members of a room that are left once `c` has gone.
pub open spec fn members_without(members: Seq<u64>, c: u64) -> Seq<u64> {
    members.remove(members.index_of(c))
}

/// The test that keeps every identifier but `c`.
pub open spec fn other_than(c: u64) -> spec_fn(u64) -> bool {
    |x: u64| x != c
}

/// Client `c`, named `username`, leaves room `r`: the room disappears if that
/// empties it, and otherwise its remaining members are told who left.
pub open spec fn leave(
    rooms: Map<Seq<char>, RoomView>,
    r: Seq<char>,
    c: u64,
    username: Seq<char>,
) -> (Map<Seq<char>, RoomView>, Seq<(u64, MessageView)>) {
    let room = rooms[r];
    let rest = members_without(room.members, c);
    if rest.len() == 0 {
        (rooms.remove(r), Seq::empty())
    } else {
        (
            rooms.insert(r, RoomView { name: room.name, capacity: room.capacity, members: rest }),
            fanout(rest, MessageView::UserLeft { username }, None),
        )
    }
}

/// A `CreateRoom` from `from` for a room named `name` with `max` places, the
/// new room to be keyed `id`.
pub open spec fn after_create(
    v: ServerView,
    from: u64,
    name: Seq<char>,
    max: usize,
    id: Seq<char>,
) -> (ServerView, Seq<(u64, MessageView)>) {
    if !v.clients.contains_key(from) {
        (v, Seq::empty())
    } else if name_taken(v.rooms, name) {
        (v, error_reply(from, "Room name already exists"@))
    } else if max < 2 {
        (v, error_reply(from, "Room must allow at least 2 users"@))
    } else if v.rooms.contains_key(id) {
        (v, error_reply(from, "Room ID already exists"@))
    } else {
        (
            ServerView {
                clients: v.clients,
                rooms: v.rooms.insert(
                    id,
                    RoomView { name, capacity: max, members: Seq::empty() },
                ),
            },
            reply(from, MessageView::RoomCreated { room_name: name, room_id: id, max_users: max }),
        )
    }
}

/// A `JoinRoom` from `from` for room `target` under the name `username`.
///
/// A client that is already in `target` only takes the new name. A client in
/// another room leaves it first, once the join is known to succeed. Every
/// member of the joined room, the joiner included, is told of the join.
pub open spec fn after_join(v: ServerView, from: u64, target: Seq<char>, username: Seq<char>) -> (
    ServerView,
    Seq<(u64, MessageView)>,
) {
    if !v.clients.contains_key(from) {
        (v, Seq::empty())
    } else if !v.rooms.contains_key(target) {
        (v, error_reply(from, "Invalid room ID"@))
    } else {
        let room = v.rooms[target];
        let client = v.clients[from];
        let joined = MessageView::JoinedRoom { room_name: room.name, username };
        let clients = v.clients.insert(from, ClientView { username, room: Some(target) });
        if client.room == Some(target) {
            (ServerView { clients, rooms: v.rooms }, fanout(room.members, joined, None))
        } else if room.members.len() >= room.capacity {
            (
                v,
                error_reply(
                    from,
                    room_full_text(room.members.len(), room.capacity as nat),
                ),
            )
        } else {
            let (rooms, left) = match client.room {
                Some(r) => leave(v.rooms, r, from, client.username),
                None => (v.rooms, Seq::empty()),
            };
            let members = room.members.push(from);
            (
                ServerView {
                    clients,
                    rooms: rooms.insert(
                        target,
                        RoomView { name: room.name, capacity: room.capacity, members },
                    ),
                },
                left + fanout(members, joined, None),
            )
        }
    }
}

/// The frames for a `Chat` from `from`: one to each member of its room, the
/// sender included, or none for a client outside any room.
pub open spec fn chat_out(v: ServerView, from: u64, content: Seq<char>) -> Seq<
    (u64, MessageView),
> {
    if v.clients.contains_key(from) && v.clients[from].room is Some {
        let client = v.clients[from];
        fanout(
            v.rooms[client.room->0].members,
            MessageView::UserMessage { username: client.username, content },
            None,
        )
    } else {
        Seq::empty()
    }
}

/// The names of the clients `members`, in that order.
pub open spec fn usernames(clients: Map<u64, ClientView>, members: Seq<u64>) -> Seq<Seq<char>> {
    members.map_values(|m: u64| clients[m].username)
}

/// What the server knows of a room, as told to a client in it.
pub open spec fn room_info(v: ServerView, k: Seq<char>) -> MessageView {
    let room = v.rooms[k];
    MessageView::RoomInfo {
        room_name: room.name,
        users: usernames(v.clients, room.members),
        current_count: room.members.len() as usize,
        max_users: room.capacity,
    }
}

/// The frames for a `GetRoomInfo` from `from`: the state of its room, to it
/// alone, or none for a client outside any room.
pub open spec fn room_info_out(v: ServerView, from: u64) -> Seq<(u64, MessageView)> {
    if v.clients.contains_key(from) && v.clients[from].room is Some {
        reply(from, room_info(v, v.clients[from].room->0))
    } else {
        Seq::empty()
    }
}

/// Client `c` is gone: it leaves the registry and, if it was in a room, that
/// room.
pub open spec fn after_disconnect(v: ServerView, c: u64) -> (ServerView, Seq<(u64, MessageView)>) {
    if !v.clients.contains_key(c) {
        (v, Seq::empty())
    } else {
        let client = v.clients[c];
        let clients = v.clients.remove(c);
        match client.room {
            None => (ServerView { clients, rooms: v.rooms }, Seq::empty()),
            Some(r) => {
                let (rooms, out) = leave(v.rooms, r, c, client.username);
                (ServerView { clients, rooms }, out)
            },
        }
    }
}

/// Any decoded frame from `from`; `id` keys the room that a `CreateRoom` makes.
/// Kinds that only the server sends are ignored.
pub open spec fn dispatch(v: ServerView, from: u64, m: MessageView, id: Seq<char>) -> (
    ServerView,
    Seq<(u64, MessageView)>,
) {
    match m {
        MessageView::CreateRoom { room_name, max_users } => after_create(
            v,
            from,
            room_name,
            max_users,
            id,
        ),
        MessageView::JoinRoom { room_id, username } => after_join(v, from, room_id, username),
        MessageView::Chat { content } => (v, chat_out(v, from, content)),
        MessageView::GetRoomInfo => (v, room_info_out(v, from)),
        _ => (v, Seq::empty()),
    }
}

/// Removing `c` from a list without duplicates that holds it drops exactly `c`.
pub proof fn lemma_members_without(members: Seq<u64>, c: u64)
    requires
        members.no_duplicates(),
        members.contains(c),
    ensures
        members_without(members, c).len() == members.len() - 1,
        members_without(members, c).no_duplicates(),
        forall|x: u64| #[trigger]
            members_without(members, c).contains(x) <==> (members.contains(x) && x != c),
{
    let i = members.index_of(c);
    let rest = members_without(members, c);
    assert(rest =~= members.remove(i));
    assert forall|j: int| 0 <= j < rest.len() implies #[trigger] rest[j] == members[if j < i {
        j
    } else {
        j + 1
    }] by {}
    assert forall|a: int, b: int| 0 <= a < rest.len() && 0 <= b < rest.len() && a != b implies rest[a]
        != rest[b] by {
        let oa = if a < i { a } else { a + 1 };
        let ob = if b < i { b } else { b + 1 };
        assert(rest[a] == members[oa]);
        assert(rest[b] == members[ob]);
    }
    assert forall|x: u64| #[trigger] rest.contains(x) <==> (members.contains(x) && x != c) by {
        if rest.contains(x) {
            let j = choose|j: int| 0 <= j < rest.len() && rest[j] == x;
            let oj = if j < i { j } else { j + 1 };
            assert(rest[j] == members[oj]);
        }
        if members.contains(x) && x != c {
            let oj = choose|j: int| 0 <= j < members.len() && members[j] == x;
            let j = if oj < i { oj } else { oj - 1 };
            assert(rest[j] == members[oj]);
        }
    }
}

/// A list without `c` keeps all of its elements under the test `other_than(c)`.
proof fn lemma_filter_keeps_all(s: Seq<u64>, c: u64)
    requires
        !s.contains(c),
    ensures
        s.filter(other_than(c)) == s,
    decreases s.len(),
{
    reveal(Seq::filter);
    if s.len() > 0 {
        let d = s.drop_last();
        assert(!d.contains(c)) by {
            if d.contains(c) {
                let j = choose|j: int| 0 <= j < d.len() && d[j] == c;
                assert(s[j] == c);
            }
        }
        lemma_filter_keeps_all(d, c);
        assert(s.last() != c) by {
            assert(s[s.len() - 1] == s.last());
        }
        assert(d.push(s.last()) =~= s);
    }
}

/// In a list without duplicates, removing `c` from its position is the same
/// as keeping every other element in order.
pub proof fn lemma_members_without_is_filter(members: Seq<u64>, c: u64)
    requires
        members.no_duplicates(),
        members.contains(c),
    ensures
        members_without(members, c) == members.filter(other_than(c)),
    decreases members.len(),
{
    reveal(Seq::filter);
    let i = members.index_of(c);
    let n = members.len() as int;
    let d = members.drop_last();
    let l = members.last();
    assert(members[n - 1] == l);
    if l == c {
        assert(i == n - 1);
        assert(!d.contains(c)) by {
            if d.contains(c) {
                let j = choose|j: int| 0 <= j < d.len() && d[j] == c;
                assert(members[j] == c);
            }
        }
        lemma_filter_keeps_all(d, c);
        assert(members.remove(i) =~= d);
    } else {
        assert(i < n - 1);
        assert(d[i] == c);
        assert(d.no_duplicates()) by {
            assert forall|a: int, b: int| 0 <= a < d.len() && 0 <= b < d.len() && a != b implies d[a]
                != d[b] by {
                assert(d[a] == members[a] && d[b] == members[b]);
            }
        }
        let j = d.index_of(c);
        assert(d[j] == c);
        assert(members[j] == c);
        assert(j == i);
        lemma_members_without_is_filter(d, c);
        assert(d.remove(i).push(l) =~= members.remove(i));
    }
}

/// A client leaving its room keeps the state valid once the client itself is
/// either gone or registered elsewhere: the rooms other than `r` are untouched,
/// and `r` either vanishes or keeps its other members.
pub proof fn lemma_leave(rooms: Map<Seq<char>, RoomView>, r: Seq<char>, c: u64, username: Seq<char>)
    requires
        rooms.contains_key(r),
        room_valid(rooms[r]),
        rooms[r].members.contains(c),
    ensures
        ({
            let after = leave(rooms, r, c, username).0;
            &&& forall|k: Seq<char>|
                k != r ==> (#[trigger] after.contains_key(k) == rooms.contains_key(k) && (
                rooms.contains_key(k) ==> after[k] == rooms[k]))
            &&& after.contains_key(r) ==> {
                &&& room_valid(after[r])
                &&& after[r].name == rooms[r].name
                &&& after[r].capacity == rooms[r].capacity
                &&& after[r].members == members_without(rooms[r].members, c)
            }
            &&& forall|x: u64|
                #[trigger] rooms[r].members.contains(x) && x != c ==> after.contains_key(r)
                    && after[r].members.contains(x)
            &&& !(after.contains_key(r) && after[r].members.contains(c))
        }),
{
    lemma_members_without(rooms[r].members, c);
    let rest = members_without(rooms[r].members, c);
    assert forall|x: u64| #[trigger] rooms[r].members.contains(x) && x != c implies rest.len() > 0
        by {
        assert(rest.contains(x));
    }
}

/// Leaving the current room and then dropping the client from the registry
/// keeps the state valid.
pub proof fn lemma_disconnect_valid(v: ServerView, c: u64)
    requires
        valid(v),
    ensures
        valid(after_disconnect(v, c).0),
{
    if v.clients.contains_key(c) {
        let client = v.clients[c];
        if let Some(r) = client.room {
            lemma_leave(v.rooms, r, c, client.username);
            let w = after_disconnect(v, c).0;
            assert forall|k: Seq<char>, m: u64|
                w.rooms.contains_key(k) && #[trigger] w.rooms[k].members.contains(m) implies {
                &&& w.clients.contains_key(m)
                &&& w.clients[m].room == Some(k)
            } by {
                if k == r {
                    lemma_members_without(v.rooms[r].members, c);
                }
                assert(v.rooms[k].members.contains(m));
            }
            assert forall|d: u64|
                #[trigger] w.clients.contains_key(d) && w.clients[d].room is Some implies {
                &&& w.rooms.contains_key(w.clients[d].room->0)
                &&& w.rooms[w.clients[d].room->0].members.contains(d)
            } by {
                assert(v.clients.contains_key(d));
                let k = v.clients[d].room->0;
                assert(v.rooms[k].members.contains(d));
            }
            assert forall|k: Seq<char>| w.rooms.contains_key(k) implies room_valid(
                #[trigger] w.rooms[k],
            ) by {
                if k != r {
                    assert(v.rooms.contains_key(k));
                }
            }
        }
    }
}

/// A join keeps the state valid.
pub proof fn lemma_join_valid(v: ServerView, from: u64, target: Seq<char>, username: Seq<char>)
    requires
        valid(v),
    ensures
        valid(after_join(v, from, target, username).0),
{
    if v.clients.contains_key(from) && v.rooms.contains_key(target) {
        let room = v.rooms[target];
        let client = v.clients[from];
        let w = after_join(v, from, target, username).0;
        if client.room == Some(target) {
            assert forall|k: Seq<char>, m: u64|
                w.rooms.contains_key(k) && #[trigger] w.rooms[k].members.contains(m) implies {
                &&& w.clients.contains_key(m)
                &&& w.clients[m].room == Some(k)
            } by {
                assert(v.rooms[k].members.contains(m));
            }
            assert forall|d: u64|
                #[trigger] w.clients.contains_key(d) && w.clients[d].room is Some implies {
                &&& w.rooms.contains_key(w.clients[d].room->0)
                &&& w.rooms[w.clients[d].room->0].members.contains(d)
            } by {
                if d != from {
                    assert(v.clients.contains_key(d));
                    assert(v.rooms[v.clients[d].room->0].members.contains(d));
                } else {
                    assert(v.rooms[target].members.contains(from));
                }
            }
        } else if room.members.len() < room.capacity {
            let rooms1 = match client.room {
                Some(r) => leave(v.rooms, r, from, client.username).0,
                None => v.rooms,
            };
            if let Some(r) = client.room {
                assert(v.rooms[r].members.contains(from));
                lemma_leave(v.rooms, r, from, client.username);
            }
            assert(rooms1[target] == room);
            assert(!room.members.contains(from)) by {
                if room.members.contains(from) {
                    assert(v.clients[from].room == Some(target));
                }
            }
            let members = room.members.push(from);
            assert forall|x: u64| #[trigger] members.contains(x) <==> (room.members.contains(x) || x
                == from) by {
                if members.contains(x) {
                    let j = choose|j: int| 0 <= j < members.len() && members[j] == x;
                    if j < room.members.len() {
                        assert(room.members[j] == x);
                    }
                }
                if room.members.contains(x) {
                    let j = choose|j: int| 0 <= j < room.members.len() && room.members[j] == x;
                    assert(members[j] == x);
                }
                if x == from {
                    assert(members[room.members.len() as int] == x);
                }
            }
            assert(members.no_duplicates()) by {
                assert forall|a: int, b: int|
                    0 <= a < members.len() && 0 <= b < members.len() && a != b implies members[a]
                    != members[b] by {
                    if a < room.members.len() && b < room.members.len() {
                    } else if a < room.members.len() {
                        assert(room.members.contains(members[a]));
                    } else {
                        assert(room.members.contains(members[b]));
                    }
                }
            }
            assert forall|k: Seq<char>, m: u64|
                w.rooms.contains_key(k) && #[trigger] w.rooms[k].members.contains(m) implies {
                &&& w.clients.contains_key(m)
                &&& w.clients[m].room == Some(k)
            } by {
                if k == target {
                    if m != from {
                        assert(room.members.contains(m));
                    }
                } else if client.room == Some(k) {
                    lemma_members_without(v.rooms[k].members, from);
                    assert(v.rooms[k].members.contains(m));
                } else {
                    assert(v.rooms[k].members.contains(m));
                }
            }
            assert forall|d: u64|
                #[trigger] w.clients.contains_key(d) && w.clients[d].room is Some implies {
                &&& w.rooms.contains_key(w.clients[d].room->0)
                &&& w.rooms[w.clients[d].room->0].members.contains(d)
            } by {
                if d != from {
                    assert(v.clients.contains_key(d));
                    let k = v.clients[d].room->0;
                    assert(v.rooms[k].members.contains(d));
                }
            }
            assert forall|k: Seq<char>| w.rooms.contains_key(k) implies room_valid(
                #[trigger] w.rooms[k],
            ) by {
                if k != target && client.room != Some(k) {
                    assert(v.rooms.contains_key(k));
                }
            }
        }
    }
}

/// Creating a room keeps the state valid.
pub proof fn lemma_create_valid(
    v: ServerView,
    from: u64,
    name: Seq<char>,
    max: usize,
    id: Seq<char>,
)
    requires
        valid(v),
    ensures
        valid(after_create(v, from, name, max, id).0),
{
    let w = after_create(v, from, name, max, id).0;
    assert forall|k: Seq<char>, m: u64|
        w.rooms.contains_key(k) && #[trigger] w.rooms[k].members.contains(m) implies {
        &&& w.clients.contains_key(m)
        &&& w.clients[m].room == Some(k)
    } by {
        if k != id || v.rooms.contains_key(id) {
            assert(v.rooms[k].members.contains(m));
        }
    }
    assert forall|d: u64|
        #[trigger] w.clients.contains_key(d) && w.clients[d].room is Some implies {
        &&& w.rooms.contains_key(w.clients[d].room->0)
        &&& w.rooms[w.clients[d].room->0].members.contains(d)
    } by {
        assert(v.rooms[v.clients[d].room->0].members.contains(d));
    }
}

/// Registering a client under a new identifier keeps the state valid.
pub proof fn lemma_connect_valid(v: ServerView, id: u64, clients: Map<u64, ClientView>)
    requires
        valid(v),
        !v.clients.contains_key(id),
        clients == v.clients.insert(id, crate::clients::fresh_client()),
    ensures
        valid(ServerView { clients, rooms: v.rooms }),
{
    let w = ServerView { clients, rooms: v.rooms };
    assert forall|k: Seq<char>, m: u64|
        w.rooms.contains_key(k) && #[trigger] w.rooms[k].members.contains(m) implies {
        &&& w.clients.contains_key(m)
        &&& w.clients[m].room == Some(k)
    } by {
        assert(v.rooms[k].members.contains(m));
    }
    assert forall|d: u64|
        #[trigger] w.clients.contains_key(d) && w.clients[d].room is Some implies {
        &&& w.rooms.contains_key(w.clients[d].room->0)
        &&& w.rooms[w.clients[d].room->0].members.contains(d)
    } by {
        assert(v.rooms[v.clients[d].room->0].members.contains(d));
    }
}

/// Every frame keeps the state valid.
pub proof fn lemma_dispatch_valid(v: ServerView, from: u64, m: MessageView, id: Seq<char>)
    requires
        valid(v),
    ensures
        valid(dispatch(v, from, m, id).0),
{
    match m {
        MessageView::CreateRoom { room_name, max_users } => {
            lemma_create_valid(v, from, room_name, max_users, id);
        },
        MessageView::JoinRoom { room_id, username } => {
            lemma_join_valid(v, from, room_id, username);
        },
        _ => {},
    }
}

} // verus!
