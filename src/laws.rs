//! Properties that hold of every run of the server.

use vstd::prelude::*;
use crate::message::MessageView;
use crate::model::{
    after_disconnect, dispatch, error_reply, lemma_disconnect_valid, lemma_dispatch_valid,
    lemma_leave, lemma_members_without_is_filter, members_registered, clients_seated, name_taken,
    other_than, reply, room_info_out, room_valid, valid, ServerView,
};
use crate::rooms::RoomView;

verus! {

/// Every room holds at most as many members as its capacity.
pub open spec fn within_capacity(v: ServerView) -> bool {
    forall|k: Seq<char>| #[trigger]
        v.rooms.contains_key(k) ==> v.rooms[k].members.len() <= v.rooms[k].capacity
}

/// Every room of `w` that has no members was already open and empty in `v`.
pub open spec fn no_new_empty_room(v: ServerView, w: ServerView) -> bool {
    forall|k: Seq<char>| #[trigger]
        w.rooms.contains_key(k) && w.rooms[k].members.len() == 0 ==> v.rooms.contains_key(k)
            && v.rooms[k].members.len() == 0
}

/// No room ever exceeds its capacity: from a valid state, whatever frame
/// arrives from any client and whichever client disconnects, every room still
/// fits its members.
pub proof fn law_rooms_within_capacity(
    v: ServerView,
    from: u64,
    m: MessageView,
    id: Seq<char>,
    gone: u64,
)
    requires
        valid(v),
    ensures
        within_capacity(v),
        within_capacity(dispatch(v, from, m, id).0),
        within_capacity(after_disconnect(v, gone).0),
{
    lemma_dispatch_valid(v, from, m, id);
    lemma_disconnect_valid(v, gone);
}

/// Clients and rooms agree on membership: a client whose current room is `r`
/// is listed in `r`, and every member listed in `r` has `r` as its current
/// room. This holds before and after any frame and any disconnection.
pub proof fn law_membership_consistent(
    v: ServerView,
    from: u64,
    m: MessageView,
    id: Seq<char>,
    gone: u64,
)
    requires
        valid(v),
    ensures
        members_registered(dispatch(v, from, m, id).0),
        clients_seated(dispatch(v, from, m, id).0),
        members_registered(after_disconnect(v, gone).0),
        clients_seated(after_disconnect(v, gone).0),
{
    lemma_dispatch_valid(v, from, m, id);
    lemma_disconnect_valid(v, gone);
}

/// No operation leaves behind a room that it emptied: a departure that takes
/// the last member deletes the room. The one empty room an operation may add
/// is the one that a `CreateRoom` has just opened, which nobody has joined yet.
pub proof fn law_no_room_left_empty(
    v: ServerView,
    from: u64,
    m: MessageView,
    id: Seq<char>,
    gone: u64,
)
    requires
        valid(v),
    ensures
        no_new_empty_room(v, after_disconnect(v, gone).0),
        !(m is CreateRoom) ==> no_new_empty_room(v, dispatch(v, from, m, id).0),
        m is CreateRoom ==> forall|k: Seq<char>| #[trigger]
            dispatch(v, from, m, id).0.rooms.contains_key(k) && dispatch(
                v,
                from,
                m,
                id,
            ).0.rooms[k].members.len() == 0 ==> k == id || (v.rooms.contains_key(k)
                && v.rooms[k].members.len() == 0),
{
    if v.clients.contains_key(gone) {
        let client = v.clients[gone];
        if let Some(r) = client.room {
            lemma_leave(v.rooms, r, gone, client.username);
        }
    }
    if let MessageView::JoinRoom { room_id, username } = m {
        if v.clients.contains_key(from) {
            let client = v.clients[from];
            if let Some(r) = client.room {
                if r != room_id {
                    lemma_leave(v.rooms, r, from, client.username);
                }
            }
        }
    }
}

/// The answer to `GetRoomInfo` describes the live member list: its count is
/// the number of members, and its names are those of the members, one for
/// each, in the order in which they joined.
pub proof fn law_room_info_matches_members(v: ServerView, from: u64)
    requires
        valid(v),
        v.clients.contains_key(from),
        v.clients[from].room is Some,
    ensures
        ({
            let r = v.clients[from].room->0;
            let members = v.rooms[r].members;
            let out = room_info_out(v, from);
            &&& out.len() == 1
            &&& out[0].0 == from
            &&& match out[0].1 {
                MessageView::RoomInfo { room_name, users, current_count, max_users } => {
                    &&& current_count == members.len()
                    &&& users.len() == members.len()
                    &&& forall|i: int|
                        0 <= i < members.len() ==> #[trigger] users[i]
                            == v.clients[members[i]].username
                    &&& room_name == v.rooms[r].name
                    &&& max_users == v.rooms[r].capacity
                },
                _ => false,
            }
        }),
{
    let r = v.clients[from].room->0;
    assert(v.rooms.contains_key(r));
    assert(room_valid(v.rooms[r]));
}

/// Room capacity follows one policy: a request for fewer than two places is
/// always refused with the same error and changes nothing, and a request for
/// `n` places, `n` at least two, opens an empty room of exactly `n` places.
/// This is for a registered sender, a name no open room has, and an
/// identifier no open room has.
pub proof fn law_create_capacity(
    v: ServerView,
    from: u64,
    name: Seq<char>,
    n: usize,
    id: Seq<char>,
)
    requires
        valid(v),
        v.clients.contains_key(from),
        !name_taken(v.rooms, name),
        !v.rooms.contains_key(id),
    ensures
        ({
            let request = MessageView::CreateRoom { room_name: name, max_users: n };
            let (w, out) = dispatch(v, from, request, id);
            &&& n < 2 ==> w == v && out == error_reply(from, "Room must allow at least 2 users"@)
            &&& n >= 2 ==> {
                &&& w.clients == v.clients
                &&& w.rooms == v.rooms.insert(
                    id,
                    RoomView { name, capacity: n, members: Seq::empty() },
                )
                &&& w.rooms[id].capacity == n
                &&& out == reply(
                    from,
                    MessageView::RoomCreated { room_name: name, room_id: id, max_users: n },
                )
            }
        }),
{
}

/// A departure keeps the other members of the room in join order: once
/// client `gone` disconnects, its room holds exactly its former members other
/// than `gone`, in the same order, or is deleted if none is left.
pub proof fn law_departure_keeps_others_in_order(v: ServerView, gone: u64)
    requires
        valid(v),
        v.clients.contains_key(gone),
        v.clients[gone].room is Some,
    ensures
        ({
            let r = v.clients[gone].room->0;
            let rest = v.rooms[r].members.filter(other_than(gone));
            let w = after_disconnect(v, gone).0;
            &&& rest.len() > 0 ==> w.rooms.contains_key(r) && w.rooms[r].members == rest
            &&& rest.len() == 0 ==> !w.rooms.contains_key(r)
        }),
{
    let r = v.clients[gone].room->0;
    assert(v.rooms[r].members.contains(gone));
    lemma_members_without_is_filter(v.rooms[r].members, gone);
}

} // verus!
