//! The engine: both registries together, and the handlers that turn frames
//! into state changes and deliveries.

use vstd::prelude::*;
use crate::clients::{Client, ClientRegistry, fresh_client};
use crate::message::{Delivery, Message, MessageView, deliveries_view, texts_view};
use crate::model::{
    after_create, after_disconnect, after_join, chat_out, dispatch, error_reply, fanout, leave,
    lemma_connect_valid, lemma_create_valid, lemma_disconnect_valid,
    lemma_join_valid, lemma_leave, members_without, reply, room_info_out, room_valid, usernames, valid,
    ServerView,
};
use crate::rooms::{Room, RoomRegistry};
use crate::text::{
    capacity_too_small_message, duplicate_id_message, duplicate_name_message,
    invalid_room_message, is_hyphenated_uuid, room_full_message,
};

verus! {

/// Relies on uuid's `Uuid::new_v4`, written out through its `Display` impl,
/// which formats the hyphenated lowercase form: a random identifier for a new
/// room. Nothing is promised of its value; a clash with an open room is caught
/// by the caller. `new_v4` panics when the operating system's random source
/// fails, a condition no argument controls.
#[verifier::external_body]
fn new_room_id() -> (r: String)
    ensures
        is_hyphenated_uuid(r@),
{
    uuid::Uuid::new_v4().to_string()
}

/// Adding one more member to a list extends the fan-out by one frame, unless
/// that member is the one left out.
proof fn lemma_fanout_push(s: Seq<u64>, x: u64, m: MessageView, exclude: Option<u64>)
    ensures
        fanout(s.push(x), m, exclude) == if exclude == Some(x) {
            fanout(s, m, exclude)
        } else {
            fanout(s, m, exclude).push((x, m))
        },
{
    reveal(Seq::filter);
    assert(s.push(x).drop_last() =~= s);
    let pred = |y: u64| exclude != Some(y);
    let kept = s.filter(pred);
    if exclude != Some(x) {
        assert(s.push(x).filter(pred) == kept.push(x));
        assert(kept.push(x).map_values(|y: u64| (y, m)) =~= kept.map_values(|y: u64| (y, m)).push(
            (x, m),
        ));
    }
}

/// The deliveries of two lists, one after the other.
proof fn lemma_deliveries_append(a: Seq<Delivery>, b: Seq<Delivery>)
    ensures
        deliveries_view(a + b) == deliveries_view(a) + deliveries_view(b),
{
    assert(deliveries_view(a + b) =~= deliveries_view(a) + deliveries_view(b));
}

/// A single error frame for `to`.
fn error_to(to: u64, text: String) -> (r: Vec<Delivery>)
    ensures
        deliveries_view(r@) == error_reply(to, text@),
{
    let r = vec![Delivery { to, message: Message::Error { message: text } }];
    assert(deliveries_view(r@) =~= error_reply(to, text@));
    r
}

/// The position of `c` in a list that holds it.
fn position(members: &Vec<u64>, c: u64) -> (r: usize)
    requires
        members@.contains(c),
    ensures
        r < members@.len(),
        members@[r as int] == c,
{
    let mut i: usize = 0;
    while i < members.len()
        invariant
            i <= members@.len(),
            members@.contains(c),
            forall|j: int| 0 <= j < i ==> members@[j] != c,
        decreases members@.len() - i,
    {
        if members[i] == c {
            return i;
        }
        i = i + 1;
    }
    i
}

/// The two registries of a chat server.
pub struct ChatServer {
    clients: ClientRegistry,
    rooms: RoomRegistry,
}

impl View for ChatServer {
    type V = ServerView;

    closed spec fn view(&self) -> ServerView {
        ServerView { clients: self.clients@, rooms: self.rooms@ }
    }
}

/// What a connection's session loop hands to the engine.
pub enum SessionEvent {
    /// A line that decoded to a frame.
    Frame(Message),
    /// A line that did not decode.
    Garbled,
    /// The stream ended, or reading or writing failed.
    Closed,
}

impl ChatServer {
    /// Both registries are well formed and the state is valid.
    pub open spec fn wf(&self) -> bool {
        &&& self.clients_wf()
        &&& self.rooms_wf()
        &&& valid(self@)
    }

    /// The client registry is well formed: identifiers are never reused.
    pub closed spec fn clients_wf(&self) -> bool {
        self.clients.wf()
    }

    /// The room registry is well formed: no two rooms share an identifier.
    pub closed spec fn rooms_wf(&self) -> bool {
        self.rooms.wf()
    }

    /// How many client identifiers have been handed out so far.
    pub closed spec fn issued(&self) -> nat {
        self.clients.issued()
    }

    /// Every client identifier has been handed out: no connection can be
    /// registered any more.
    pub open spec fn exhausted(&self) -> bool {
        self.issued() == u64::MAX
    }

    /// A server with no clients and no rooms.
    pub fn new() -> (r: ChatServer)
        ensures
            r.wf(),
            r.issued() == 0,
            r@.clients == Map::<u64, crate::clients::ClientView>::empty(),
            r@.rooms == Map::<Seq<char>, crate::rooms::RoomView>::empty(),
    {
        ChatServer { clients: ClientRegistry::new(), rooms: RoomRegistry::new() }
    }

    /// Registers a newly accepted connection under a fresh identifier and
    /// greets it with `Connected`; `None` once identifiers have run out.
    pub fn connect(&mut self) -> (r: Option<(u64, Vec<Delivery>)>)
        requires
            old(self).wf(),
        ensures
            final(self).wf(),
            r is None <==> old(self).exhausted(),
            r is None ==> final(self)@ == old(self)@ && final(self).issued() == old(self).issued(),
            r matches Some((id, out)) ==> {
                &&& id == old(self).issued()
                &&& final(self).issued() == old(self).issued() + 1
                &&& !old(self)@.clients.contains_key(id)
                &&& final(self)@.clients == old(self)@.clients.insert(id, fresh_client())
                &&& final(self)@.rooms == old(self)@.rooms
                &&& deliveries_view(out@) == reply(id, MessageView::Connected)
            },
    {
        match self.clients.register() {
            None => None,
            Some(id) => {
                proof {
                    lemma_connect_valid(old(self)@, id, self.clients@);
                }
                let out = vec![Delivery { to: id, message: Message::Connected }];
                assert(deliveries_view(out@) =~= reply(id, MessageView::Connected));
                Some((id, out))
            },
        }
    }

    /// One copy of `message` for each member of room `room_id`, in the order
    /// in which they joined, skipping `exclude`; nothing if no such room is open.
    pub fn broadcast(&self, room_id: &String, message: &Message, exclude: Option<u64>) -> (r: Vec<
        Delivery,
    >)
        requires
            self.rooms_wf(),
        ensures
            deliveries_view(r@) == if self@.rooms.contains_key(room_id@) {
                fanout(self@.rooms[room_id@].members, message@, exclude)
            } else {
                Seq::empty()
            },
    {
        let mut out: Vec<Delivery> = Vec::new();
        match self.rooms.get(room_id) {
            None => {
                assert(deliveries_view(out@) =~= Seq::empty());
                out
            },
            Some(room) => {
                let mut i: usize = 0;
                proof {
                    reveal(Seq::filter);
                    assert(room.members@.subrange(0, 0) =~= Seq::<u64>::empty());
                    assert(deliveries_view(out@) =~= fanout(Seq::<u64>::empty(), message@, exclude));
                }
                while i < room.members.len()
                    invariant
                        i <= room.members@.len(),
                        deliveries_view(out@) == fanout(
                            room.members@.subrange(0, i as int),
                            message@,
                            exclude,
                        ),
                    decreases room.members@.len() - i,
                {
                    let m = room.members[i];
                    let skip = match exclude {
                        Some(x) => x == m,
                        None => false,
                    };
                    proof {
                        lemma_fanout_push(room.members@.subrange(0, i as int), m, message@, exclude);
                        assert(room.members@.subrange(0, i + 1) =~= room.members@.subrange(
                            0,
                            i as int,
                        ).push(m));
                    }
                    if !skip {
                        let ghost before = out@;
                        out.push(Delivery { to: m, message: message.duplicate() });
                        assert(deliveries_view(out@) =~= deliveries_view(before).push((m, message@)));
                    }
                    i = i + 1;
                }
                assert(room.members@.subrange(0, room.members@.len() as int) =~= room.members@);
                out
            },
        }
    }

    /// Client `c`, named `username`, leaves room `r`.
    fn leave_room(&mut self, r: &String, c: u64, username: &String) -> (out: Vec<Delivery>)
        requires
            old(self).rooms.wf(),
            old(self)@.rooms.contains_key(r@),
            room_valid(old(self)@.rooms[r@]),
            old(self)@.rooms[r@].members.contains(c),
        ensures
            final(self).rooms.wf(),
            final(self).clients == old(self).clients,
            (final(self)@.rooms, deliveries_view(out@)) == leave(
                old(self)@.rooms,
                r@,
                c,
                username@,
            ),
    {
        let ghost rooms0 = self@.rooms;
        let mut room = self.rooms.remove(r).unwrap();
        let i = position(&room.members, c);
        let ghost members0 = room.members@;
        proof {
            let j = members0.index_of(c);
            assert(members0[j] == c);
            assert(j == i as int);
        }
        room.members.remove(i);
        assert(room.members@ == members_without(members0, c));
        if room.members.len() == 0 {
            assert(self@.rooms == leave(rooms0, r@, c, username@).0);
            let out: Vec<Delivery> = Vec::new();
            assert(deliveries_view(out@) =~= Seq::empty());
            out
        } else {
            let ghost left = room@;
            self.rooms.insert(room);
            assert(self@.rooms =~= rooms0.insert(r@, left));
            let notice = Message::UserLeft { username: username.clone() };
            self.broadcast(r, &notice, None)
        }
    }

    /// A `CreateRoom` from `from`, the new room to be keyed `room_id`.
    ///
    /// A name already in use and a capacity below two are refused with an
    /// error frame, as is an identifier that an open room already has. The
    /// creator is not made a member.
    pub fn create_room_with_id(
        &mut self,
        from: u64,
        room_name: String,
        max_users: usize,
        room_id: String,
    ) -> (out: Vec<Delivery>)
        requires
            old(self).wf(),
        ensures
            final(self).wf(),
            final(self).issued() == old(self).issued(),
            (final(self)@, deliveries_view(out@)) == after_create(
                old(self)@,
                from,
                room_name@,
                max_users,
                room_id@,
            ),
    {
        proof {
            lemma_create_valid(self@, from, room_name@, max_users, room_id@);
        }
        if self.clients.get(from).is_none() {
            let out: Vec<Delivery> = Vec::new();
            assert(deliveries_view(out@) =~= Seq::empty());
            return out;
        }
        if self.rooms.name_taken(&room_name) {
            return error_to(from, duplicate_name_message());
        }
        if max_users < 2 {
            return error_to(from, capacity_too_small_message());
        }
        if self.rooms.contains(&room_id) {
            return error_to(from, duplicate_id_message());
        }
        let created = Message::RoomCreated {
            room_name: room_name.clone(),
            room_id: room_id.clone(),
            max_users,
        };
        self.rooms.insert(Room { id: room_id, name: room_name, capacity: max_users, members: Vec::new() });
        let out = vec![Delivery { to: from, message: created }];
        assert(deliveries_view(out@) =~= reply(from, created@));
        out
    }

    /// A `CreateRoom` from `from`, under a freshly drawn random identifier.
    pub fn create_room(&mut self, from: u64, room_name: String, max_users: usize) -> (out: Vec<
        Delivery,
    >)
        requires
            old(self).wf(),
        ensures
            final(self).wf(),
            final(self).issued() == old(self).issued(),
            exists|id: Seq<char>|
                is_hyphenated_uuid(id) && (final(self)@, deliveries_view(out@))
                    == #[trigger] after_create(old(self)@, from, room_name@, max_users, id),
    {
        let id = new_room_id();
        let out = self.create_room_with_id(from, room_name, max_users, id);
        assert((self@, deliveries_view(out@)) == after_create(
            old(self)@,
            from,
            room_name@,
            max_users,
            id@,
        ));
        out
    }

    /// A `JoinRoom` from `from` for room `room_id` under the name `username`.
    ///
    /// An unknown room and a full room are refused with an error frame and no
    /// change. On success every member, the joiner included, gets `JoinedRoom`;
    /// a joiner coming from another room leaves it first.
    pub fn join_room(&mut self, from: u64, room_id: String, username: String) -> (out: Vec<
        Delivery,
    >)
        requires
            old(self).wf(),
        ensures
            final(self).wf(),
            final(self).issued() == old(self).issued(),
            (final(self)@, deliveries_view(out@)) == after_join(
                old(self)@,
                from,
                room_id@,
                username@,
            ),
    {
        proof {
            lemma_join_valid(self@, from, room_id@, username@);
        }
        let ghost v = self@;
        let (current, old_name) = match self.clients.get(from) {
            None => {
                let out: Vec<Delivery> = Vec::new();
                assert(deliveries_view(out@) =~= Seq::empty());
                return out;
            },
            Some(c) => {
                let current: Option<String> = match &c.room {
                    Some(r) => Some(r.clone()),
                    None => None,
                };
                (current, c.username.clone())
            },
        };
        assert(crate::clients::opt_text(current) == v.clients[from].room);
        let (name, capacity, count) = match self.rooms.get(&room_id) {
            None => {
                return error_to(from, invalid_room_message());
            },
            Some(room) => (room.name.clone(), room.capacity, room.members.len()),
        };
        let already = match &current {
            Some(r) => *r == room_id,
            None => false,
        };
        if already {
            self.clients.set(from, Client { username: username.clone(), room: Some(room_id.clone()) });
            let joined = Message::JoinedRoom { room_name: name, username };
            return self.broadcast(&room_id, &joined, None);
        }
        if count >= capacity {
            return error_to(from, room_full_message(count, capacity));
        }
        let mut out: Vec<Delivery> = match current {
            Some(r) => {
                proof {
                    assert(v.rooms[r@].members.contains(from));
                    lemma_leave(v.rooms, r@, from, old_name@);
                }
                self.leave_room(&r, from, &old_name)
            },
            None => {
                let out: Vec<Delivery> = Vec::new();
                assert(deliveries_view(out@) =~= Seq::empty());
                out
            },
        };
        let ghost rooms1 = self@.rooms;
        assert(rooms1.contains_key(room_id@) && rooms1[room_id@] == v.rooms[room_id@]);
        let mut room = self.rooms.remove(&room_id).unwrap();
        room.members.push(from);
        let ghost target = room@;
        self.rooms.insert(room);
        assert(self@.rooms =~= rooms1.insert(room_id@, target));
        self.clients.set(from, Client { username: username.clone(), room: Some(room_id.clone()) });
        let joined = Message::JoinedRoom { room_name: name, username };
        let ghost first = out@;
        let mut more = self.broadcast(&room_id, &joined, None);
        out.append(&mut more);
        proof {
            lemma_deliveries_append(first, more@);
            let a = after_join(v, from, room_id@, username@);
            assert(self@.clients =~= a.0.clients);
            assert(self@.rooms =~= a.0.rooms);
            assert(deliveries_view(out@) =~= a.1);
        }
        out
    }

    /// A `Chat` from `from`: one `UserMessage` to each member of its room, the
    /// sender included; nothing for a client outside any room.
    pub fn chat(&self, from: u64, content: String) -> (out: Vec<Delivery>)
        requires
            self.wf(),
        ensures
            deliveries_view(out@) == chat_out(self@, from, content@),
    {
        match self.clients.get(from) {
            None => {
                let out: Vec<Delivery> = Vec::new();
                assert(deliveries_view(out@) =~= Seq::empty());
                out
            },
            Some(c) => match &c.room {
                None => {
                    let out: Vec<Delivery> = Vec::new();
                    assert(deliveries_view(out@) =~= Seq::empty());
                    out
                },
                Some(r) => {
                    let said = Message::UserMessage { username: c.username.clone(), content };
                    self.broadcast(r, &said, None)
                },
            },
        }
    }

    /// A `GetRoomInfo` from `from`: the name, member names in join order,
    /// member count and capacity of its room, to it alone; nothing for a
    /// client outside any room.
    pub fn room_info(&self, from: u64) -> (out: Vec<Delivery>)
        requires
            self.wf(),
        ensures
            deliveries_view(out@) == room_info_out(self@, from),
    {
        let c = match self.clients.get(from) {
            None => {
                let out: Vec<Delivery> = Vec::new();
                assert(deliveries_view(out@) =~= Seq::empty());
                return out;
            },
            Some(c) => c,
        };
        let r = match &c.room {
            None => {
                let out: Vec<Delivery> = Vec::new();
                assert(deliveries_view(out@) =~= Seq::empty());
                return out;
            },
            Some(r) => r,
        };
        let room = self.rooms.get(r).unwrap();
        let ghost members = room.members@;
        let mut users: Vec<String> = Vec::new();
        let mut i: usize = 0;
        while i < room.members.len()
            invariant
                self.wf(),
                room@ == self@.rooms[r@],
                self@.rooms.contains_key(r@),
                members == room.members@,
                i <= members.len(),
                texts_view(users@) == usernames(self@.clients, members.subrange(0, i as int)),
            decreases members.len() - i,
        {
            let m = room.members[i];
            assert(self@.rooms[r@].members.contains(m)) by {
                assert(members[i as int] == m);
            }
            let member = self.clients.get(m).unwrap();
            let ghost before = users@;
            users.push(member.username.clone());
            assert(members.subrange(0, i + 1) =~= members.subrange(0, i as int).push(m));
            assert(texts_view(users@) =~= texts_view(before).push(self@.clients[m].username));
            assert(usernames(self@.clients, members.subrange(0, i as int).push(m)) =~= usernames(
                self@.clients,
                members.subrange(0, i as int),
            ).push(self@.clients[m].username));
            i = i + 1;
        }
        assert(members.subrange(0, members.len() as int) =~= members);
        let info = Message::RoomInfo {
            room_name: room.name.clone(),
            users,
            current_count: room.members.len(),
            max_users: room.capacity,
        };
        let out = vec![Delivery { to: from, message: info }];
        assert(deliveries_view(out@) =~= room_info_out(self@, from));
        out
    }

    /// The connection of client `c` is gone: the client leaves the registry
    /// and its room; the room is deleted if that empties it, and otherwise its
    /// remaining members get `UserLeft`. Unknown identifiers change nothing,
    /// so running this twice for one connection does no harm.
    pub fn disconnect(&mut self, c: u64) -> (out: Vec<Delivery>)
        requires
            old(self).wf(),
        ensures
            final(self).wf(),
            final(self).issued() == old(self).issued(),
            (final(self)@, deliveries_view(out@)) == after_disconnect(old(self)@, c),
    {
        proof {
            lemma_disconnect_valid(self@, c);
        }
        let ghost v = self@;
        match self.clients.remove(c) {
            None => {
                let out: Vec<Delivery> = Vec::new();
                assert(deliveries_view(out@) =~= Seq::empty());
                assert(self@.clients =~= v.clients);
                out
            },
            Some(client) => match client.room {
                None => {
                    let out: Vec<Delivery> = Vec::new();
                    assert(deliveries_view(out@) =~= Seq::empty());
                    assert(self@ == after_disconnect(v, c).0);
                    out
                },
                Some(r) => {
                    assert(v.clients[c].room == Some(r@));
                    assert(v.rooms[r@].members.contains(c));
                    let out = self.leave_room(&r, c, &client.username);
                    assert(self@.clients == after_disconnect(v, c).0.clients);
                    assert(self@.rooms == after_disconnect(v, c).0.rooms);
                    assert(deliveries_view(out@) == after_disconnect(v, c).1);
                    out
                },
            },
        }
    }

    /// Any decoded frame from client `from`. Kinds that only the server sends
    /// are ignored.
    pub fn handle(&mut self, from: u64, message: Message) -> (out: Vec<Delivery>)
        requires
            old(self).wf(),
        ensures
            final(self).wf(),
            final(self).issued() == old(self).issued(),
            exists|id: Seq<char>|
                (final(self)@, deliveries_view(out@)) == #[trigger] dispatch(
                    old(self)@,
                    from,
                    message@,
                    id,
                ),
            message@ is CreateRoom ==> exists|id: Seq<char>|
                is_hyphenated_uuid(id) && (final(self)@, deliveries_view(out@))
                    == #[trigger] dispatch(old(self)@, from, message@, id),
            !(message@ is CreateRoom) ==> (final(self)@, deliveries_view(out@)) == dispatch(
                old(self)@,
                from,
                message@,
                Seq::empty(),
            ),
    {
        let ghost m = message@;
        match message {
            Message::CreateRoom { room_name, max_users } => {
                let out = self.create_room(from, room_name, max_users);
                let ghost id = choose|id: Seq<char>|
                    is_hyphenated_uuid(id) && (self@, deliveries_view(out@))
                        == #[trigger] after_create(old(self)@, from, room_name@, max_users, id);
                assert((self@, deliveries_view(out@)) == dispatch(old(self)@, from, m, id));
                out
            },
            Message::JoinRoom { room_id, username } => {
                let out = self.join_room(from, room_id, username);
                assert((self@, deliveries_view(out@)) == dispatch(old(self)@, from, m, Seq::empty()));
                out
            },
            Message::Chat { content } => {
                let out = self.chat(from, content);
                assert((self@, deliveries_view(out@)) == dispatch(old(self)@, from, m, Seq::empty()));
                out
            },
            Message::GetRoomInfo => {
                let out = self.room_info(from);
                assert((self@, deliveries_view(out@)) == dispatch(old(self)@, from, m, Seq::empty()));
                out
            },
            _ => {
                let out: Vec<Delivery> = Vec::new();
                assert(deliveries_view(out@) =~= Seq::empty());
                assert((self@, deliveries_view(out@)) == dispatch(old(self)@, from, m, Seq::empty()));
                out
            },
        }
    }

    /// One event of a connection's session: a decoded frame is handled, a line
    /// that did not decode is dropped, and the end of the stream runs the
    /// cleanup.
    pub fn step(&mut self, client: u64, event: SessionEvent) -> (out: Vec<Delivery>)
        requires
            old(self).wf(),
        ensures
            final(self).wf(),
            final(self).issued() == old(self).issued(),
            match event {
                SessionEvent::Frame(m) => exists|id: Seq<char>|
                    (final(self)@, deliveries_view(out@)) == #[trigger] dispatch(
                        old(self)@,
                        client,
                        m@,
                        id,
                    ),
                SessionEvent::Garbled => final(self)@ == old(self)@ && out@.len() == 0,
                SessionEvent::Closed => (final(self)@, deliveries_view(out@)) == after_disconnect(
                    old(self)@,
                    client,
                ),
            },
    {
        match event {
            SessionEvent::Frame(m) => self.handle(client, m),
            SessionEvent::Garbled => Vec::new(),
            SessionEvent::Closed => self.disconnect(client),
        }
    }

    /// The client registered under `id`, if any.
    pub fn client(&self, id: u64) -> (r: Option<&Client>)
        ensures
            r is Some <==> self@.clients.contains_key(id),
            r matches Some(c) ==> c@ == self@.clients[id],
    {
        self.clients.get(id)
    }

    /// The open room with identifier `id`, if any.
    pub fn room(&self, id: &String) -> (r: Option<&Room>)
        requires
            self.rooms_wf(),
        ensures
            r is Some <==> self@.rooms.contains_key(id@),
            r matches Some(room) ==> room.id@ == id@ && room@ == self@.rooms[id@],
    {
        self.rooms.get(id)
    }
}

} // verus!
