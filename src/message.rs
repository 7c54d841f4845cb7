//! The protocol's messages, in both directions, and the deliveries that the
//! engine hands back to the transport.

use vstd::prelude::*;

verus! {

/// One frame of the protocol. The first four kinds (and `GetRoomInfo`) travel
/// from a client to the server, the others from the server to a client.
#[derive(Clone, Debug, PartialEq, Eq)]
pub enum Message {
    CreateRoom { room_name: String, max_users: usize },
    JoinRoom { room_id: String, username: String },
    Chat { content: String },
    RoomCreated { room_name: String, room_id: String, max_users: usize },
    JoinedRoom { room_name: String, username: String },
    UserMessage { username: String, content: String },
    Error { message: String },
    Connected,
    GetRoomInfo,
    RoomInfo { room_name: String, users: Vec<String>, current_count: usize, max_users: usize },
    UserLeft { username: String },
}

/// The mathematical value of a [`Message`]: each text as its characters.
pub enum MessageView {
    CreateRoom { room_name: Seq<char>, max_users: usize },
    JoinRoom { room_id: Seq<char>, username: Seq<char> },
    Chat { content: Seq<char> },
    RoomCreated { room_name: Seq<char>, room_id: Seq<char>, max_users: usize },
    JoinedRoom { room_name: Seq<char>, username: Seq<char> },
    UserMessage { username: Seq<char>, content: Seq<char> },
    Error { message: Seq<char> },
    Connected,
    GetRoomInfo,
    RoomInfo {
        room_name: Seq<char>,
        users: Seq<Seq<char>>,
        current_count: usize,
        max_users: usize,
    },
    UserLeft { username: Seq<char> },
}

/// The characters of each text in a list of texts.
pub open spec fn texts_view(v: Seq<String>) -> Seq<Seq<char>> {
    v.map_values(|s: String| s@)
}

impl View for Message {
    type V = MessageView;

    open spec fn view(&self) -> MessageView {
        match self {
            Message::CreateRoom { room_name, max_users } => MessageView::CreateRoom {
                room_name: room_name@,
                max_users: *max_users,
            },
            Message::JoinRoom { room_id, username } => MessageView::JoinRoom {
                room_id: room_id@,
                username: username@,
            },
            Message::Chat { content } => MessageView::Chat { content: content@ },
            Message::RoomCreated { room_name, room_id, max_users } => MessageView::RoomCreated {
                room_name: room_name@,
                room_id: room_id@,
                max_users: *max_users,
            },
            Message::JoinedRoom { room_name, username } => MessageView::JoinedRoom {
                room_name: room_name@,
                username: username@,
            },
            Message::UserMessage { username, content } => MessageView::UserMessage {
                username: username@,
                content: content@,
            },
            Message::Error { message } => MessageView::Error { message: message@ },
            Message::Connected => MessageView::Connected,
            Message::GetRoomInfo => MessageView::GetRoomInfo,
            Message::RoomInfo { room_name, users, current_count, max_users } =>
                MessageView::RoomInfo {
                room_name: room_name@,
                users: texts_view(users@),
                current_count: *current_count,
                max_users: *max_users,
            },
            Message::UserLeft { username } => MessageView::UserLeft { username: username@ },
        }
    }
}

/// Copies a list of texts.
pub fn copy_texts(v: &Vec<String>) -> (r: Vec<String>)
    ensures
        texts_view(r@) == texts_view(v@),
{
    let mut r: Vec<String> = Vec::new();
    let mut i: usize = 0;
    while i < v.len()
        invariant
            i <= v@.len(),
            r@.len() == i,
            forall|j: int| 0 <= j < i ==> #[trigger] r@[j]@ == v@[j]@,
        decreases v@.len() - i,
    {
        r.push(v[i].clone());
        i = i + 1;
    }
    assert(texts_view(r@) =~= texts_view(v@));
    r
}

impl Message {
    /// A copy of this message with the same contents.
    pub fn duplicate(&self) -> (r: Message)
        ensures
            r@ == self@,
    {
        match self {
            Message::CreateRoom { room_name, max_users } => Message::CreateRoom {
                room_name: room_name.clone(),
                max_users: *max_users,
            },
            Message::JoinRoom { room_id, username } => Message::JoinRoom {
                room_id: room_id.clone(),
                username: username.clone(),
            },
            Message::Chat { content } => Message::Chat { content: content.clone() },
            Message::RoomCreated { room_name, room_id, max_users } => Message::RoomCreated {
                room_name: room_name.clone(),
                room_id: room_id.clone(),
                max_users: *max_users,
            },
            Message::JoinedRoom { room_name, username } => Message::JoinedRoom {
                room_name: room_name.clone(),
                username: username.clone(),
            },
            Message::UserMessage { username, content } => Message::UserMessage {
                username: username.clone(),
                content: content.clone(),
            },
            Message::Error { message } => Message::Error { message: message.clone() },
            Message::Connected => Message::Connected,
            Message::GetRoomInfo => Message::GetRoomInfo,
            Message::RoomInfo { room_name, users, current_count, max_users } =>
                Message::RoomInfo {
                room_name: room_name.clone(),
                users: copy_texts(users),
                current_count: *current_count,
                max_users: *max_users,
            },
            Message::UserLeft { username } => Message::UserLeft { username: username.clone() },
        }
    }
}

/// One frame addressed to one connected client.
#[derive(Clone, Debug, PartialEq, Eq)]
pub struct Delivery {
    pub to: u64,
    pub message: Message,
}

impl View for Delivery {
    type V = (u64, MessageView);

    open spec fn view(&self) -> (u64, MessageView) {
        (self.to, self.message@)
    }
}

/// The addressee and contents of each delivery in a list.
pub open spec fn deliveries_view(v: Seq<Delivery>) -> Seq<(u64, MessageView)> {
    v.map_values(|d: Delivery| d@)
}

} // verus!
