use rust_chat::{ChatServer, Delivery, Message, SessionEvent};

fn s(text: &str) -> String {
    text.to_string()
}

fn connect(server: &mut ChatServer) -> u64 {
    let (id, greeting) = server.connect().expect("identifiers left");
    assert_eq!(greeting, vec![Delivery { to: id, message: Message::Connected }]);
    id
}

fn created_id(out: &[Delivery]) -> String {
    assert_eq!(out.len(), 1);
    match &out[0].message {
        Message::RoomCreated { room_id, .. } => room_id.clone(),
        other => panic!("expected RoomCreated, got {:?}", other),
    }
}

fn error(to: u64, text: &str) -> Vec<Delivery> {
    vec![Delivery { to, message: Message::Error { message: s(text) } }]
}

fn members(server: &ChatServer, room: &String) -> Vec<u64> {
    server.room(room).expect("room is open").members.clone()
}

fn current_room(server: &ChatServer, client: u64) -> Option<String> {
    server.client(client).expect("client is registered").room.clone()
}

#[test]
fn connect_hands_out_distinct_ids_and_greets() {
    let mut server = ChatServer::new();
    let a = connect(&mut server);
    let b = connect(&mut server);
    assert_ne!(a, b);
    let client = server.client(a).unwrap();
    assert_eq!(client.username, "");
    assert_eq!(client.room, None);
}

#[test]
fn create_room_with_one_place_is_rejected() {
    let mut server = ChatServer::new();
    let a = connect(&mut server);
    let out = server.create_room_with_id(a, s("Tiny"), 1, s("r-1"));
    assert_eq!(out, error(a, "Room must allow at least 2 users"));
    assert!(server.room(&s("r-1")).is_none());
    let out = server.create_room(a, s("Tiny"), 0);
    assert_eq!(out, error(a, "Room must allow at least 2 users"));
}

#[test]
fn create_room_with_five_places_stores_five() {
    let mut server = ChatServer::new();
    let a = connect(&mut server);
    let out = server.create_room(a, s("Five"), 5);
    let id = created_id(&out);
    assert_eq!(
        out,
        vec![Delivery {
            to: a,
            message: Message::RoomCreated { room_name: s("Five"), room_id: id.clone(), max_users: 5 },
        }]
    );
    let room = server.room(&id).unwrap();
    assert_eq!(room.capacity, 5);
    assert_eq!(room.name, "Five");
    assert!(room.members.is_empty());
    // the creator is not made a member
    assert_eq!(current_room(&server, a), None);
}

#[test]
fn drawn_room_ids_are_hyphenated_and_distinct() {
    let mut server = ChatServer::new();
    let a = connect(&mut server);
    let first = created_id(&server.create_room(a, s("One"), 2));
    let second = created_id(&server.create_room(a, s("Two"), 2));
    assert_ne!(first, second);
    assert_eq!(first.len(), 36);
    assert_eq!(first.matches('-').count(), 4);
}

#[test]
fn duplicate_room_name_is_rejected() {
    let mut server = ChatServer::new();
    let a = connect(&mut server);
    created_id(&server.create_room(a, s("Alpha"), 3));
    let out = server.create_room_with_id(a, s("Alpha"), 4, s("other"));
    assert_eq!(out, error(a, "Room name already exists"));
    assert!(server.room(&s("other")).is_none());
}

#[test]
fn duplicate_room_id_is_rejected() {
    let mut server = ChatServer::new();
    let a = connect(&mut server);
    server.create_room_with_id(a, s("Alpha"), 3, s("same"));
    let out = server.create_room_with_id(a, s("Beta"), 3, s("same"));
    assert_eq!(out, error(a, "Room ID already exists"));
    assert_eq!(server.room(&s("same")).unwrap().name, "Alpha");
}

#[test]
fn name_check_comes_before_capacity_check() {
    let mut server = ChatServer::new();
    let a = connect(&mut server);
    server.create_room_with_id(a, s("Alpha"), 3, s("r"));
    let out = server.create_room_with_id(a, s("Alpha"), 1, s("q"));
    assert_eq!(out, error(a, "Room name already exists"));
}

#[test]
fn unknown_sender_changes_nothing() {
    let mut server = ChatServer::new();
    let out = server.create_room_with_id(99, s("Ghost"), 3, s("g"));
    assert!(out.is_empty());
    assert!(server.room(&s("g")).is_none());
    assert!(server.join_room(99, s("g"), s("x")).is_empty());
    assert!(server.chat(99, s("hi")).is_empty());
    assert!(server.room_info(99).is_empty());
    assert!(server.disconnect(99).is_empty());
}

#[test]
fn join_sequence_fills_room_then_refuses() {
    let mut server = ChatServer::new();
    let a = connect(&mut server);
    let b = connect(&mut server);
    let c = connect(&mut server);
    let room = created_id(&server.create_room(a, s("Alpha"), 2));

    let out = server.join_room(a, room.clone(), s("A"));
    let joined_a = Message::JoinedRoom { room_name: s("Alpha"), username: s("A") };
    assert_eq!(out, vec![Delivery { to: a, message: joined_a }]);

    let out = server.join_room(b, room.clone(), s("B"));
    let joined_b = Message::JoinedRoom { room_name: s("Alpha"), username: s("B") };
    assert_eq!(
        out,
        vec![
            Delivery { to: a, message: joined_b.clone() },
            Delivery { to: b, message: joined_b },
        ]
    );

    let out = server.join_room(c, room.clone(), s("C"));
    assert_eq!(out, error(c, "Room is full (2/2 users)"));

    assert_eq!(members(&server, &room), vec![a, b]);
    assert_eq!(current_room(&server, a), Some(room.clone()));
    assert_eq!(current_room(&server, b), Some(room.clone()));
    assert_eq!(current_room(&server, c), None);
    assert_eq!(server.client(a).unwrap().username, "A");
    assert_eq!(server.client(b).unwrap().username, "B");
    assert_eq!(server.client(c).unwrap().username, "");
}

#[test]
fn join_with_unknown_room_id_is_rejected_without_change() {
    let mut server = ChatServer::new();
    let a = connect(&mut server);
    let room = created_id(&server.create_room(a, s("Alpha"), 2));
    server.join_room(a, room.clone(), s("A"));
    let b = connect(&mut server);
    let out = server.join_room(b, s("no-such-room"), s("B"));
    assert_eq!(out, error(b, "Invalid room ID"));
    assert_eq!(current_room(&server, b), None);
    assert_eq!(server.client(b).unwrap().username, "");
    assert_eq!(members(&server, &room), vec![a]);
}

#[test]
fn chat_reaches_every_member_including_sender() {
    let mut server = ChatServer::new();
    let a = connect(&mut server);
    let b = connect(&mut server);
    let outsider = connect(&mut server);
    let room = created_id(&server.create_room(a, s("R"), 3));
    server.join_room(a, room.clone(), s("A"));
    server.join_room(b, room.clone(), s("B"));
    let out = server.handle(a, Message::Chat { content: s("hi") });
    let said = Message::UserMessage { username: s("A"), content: s("hi") };
    assert_eq!(
        out,
        vec![Delivery { to: a, message: said.clone() }, Delivery { to: b, message: said }]
    );
    assert!(out.iter().all(|d| d.to != outsider));
}

#[test]
fn chat_outside_any_room_is_ignored() {
    let mut server = ChatServer::new();
    let a = connect(&mut server);
    assert!(server.handle(a, Message::Chat { content: s("anyone?") }).is_empty());
}

#[test]
fn disconnect_notifies_the_rest_and_removes_empty_room() {
    let mut server = ChatServer::new();
    let a = connect(&mut server);
    let b = connect(&mut server);
    let room = created_id(&server.create_room(a, s("R"), 2));
    server.join_room(a, room.clone(), s("A"));
    server.join_room(b, room.clone(), s("B"));

    let out = server.step(a, SessionEvent::Closed);
    assert_eq!(out, vec![Delivery { to: b, message: Message::UserLeft { username: s("A") } }]);
    assert!(server.client(a).is_none());
    assert_eq!(members(&server, &room), vec![b]);

    let out = server.disconnect(b);
    assert!(out.is_empty());
    assert!(server.room(&room).is_none());
    assert!(server.client(b).is_none());
}

#[test]
fn disconnect_twice_is_harmless() {
    let mut server = ChatServer::new();
    let a = connect(&mut server);
    let b = connect(&mut server);
    let room = created_id(&server.create_room(a, s("R"), 2));
    server.join_room(a, room.clone(), s("A"));
    server.join_room(b, room.clone(), s("B"));
    assert_eq!(server.disconnect(a).len(), 1);
    assert!(server.disconnect(a).is_empty());
    assert_eq!(members(&server, &room), vec![b]);
}

#[test]
fn disconnect_outside_any_room_only_unregisters() {
    let mut server = ChatServer::new();
    let a = connect(&mut server);
    assert!(server.disconnect(a).is_empty());
    assert!(server.client(a).is_none());
}

#[test]
fn room_info_lists_members_in_join_order() {
    let mut server = ChatServer::new();
    let a = connect(&mut server);
    let b = connect(&mut server);
    let c = connect(&mut server);
    let room = created_id(&server.create_room(a, s("Lounge"), 4));
    server.join_room(c, room.clone(), s("carol"));
    server.join_room(a, room.clone(), s("alice"));
    server.join_room(b, room.clone(), s("bob"));
    let out = server.handle(b, Message::GetRoomInfo);
    assert_eq!(
        out,
        vec![Delivery {
            to: b,
            message: Message::RoomInfo {
                room_name: s("Lounge"),
                users: vec![s("carol"), s("alice"), s("bob")],
                current_count: 3,
                max_users: 4,
            },
        }]
    );
    server.disconnect(a);
    let out = server.room_info(c);
    match &out[0].message {
        Message::RoomInfo { users, current_count, .. } => {
            assert_eq!(*users, vec![s("carol"), s("bob")]);
            assert_eq!(*current_count, members(&server, &room).len());
        }
        other => panic!("expected RoomInfo, got {:?}", other),
    }
}

#[test]
fn room_info_outside_any_room_is_ignored() {
    let mut server = ChatServer::new();
    let a = connect(&mut server);
    assert!(server.handle(a, Message::GetRoomInfo).is_empty());
}

#[test]
fn joining_another_room_leaves_the_first() {
    let mut server = ChatServer::new();
    let a = connect(&mut server);
    let b = connect(&mut server);
    let first = created_id(&server.create_room(a, s("First"), 2));
    let second = created_id(&server.create_room(a, s("Second"), 2));
    server.join_room(a, first.clone(), s("A"));
    server.join_room(b, first.clone(), s("B"));

    let out = server.join_room(a, second.clone(), s("A2"));
    assert_eq!(
        out,
        vec![
            Delivery { to: b, message: Message::UserLeft { username: s("A") } },
            Delivery {
                to: a,
                message: Message::JoinedRoom { room_name: s("Second"), username: s("A2") },
            },
        ]
    );
    assert_eq!(members(&server, &first), vec![b]);
    assert_eq!(members(&server, &second), vec![a]);
    assert_eq!(current_room(&server, a), Some(second.clone()));

    // the last member moving on closes the room it leaves
    server.join_room(b, second.clone(), s("B"));
    assert!(server.room(&first).is_none());
    assert_eq!(members(&server, &second), vec![a, b]);
}

#[test]
fn rejoining_the_same_room_only_renames() {
    let mut server = ChatServer::new();
    let a = connect(&mut server);
    let b = connect(&mut server);
    let room = created_id(&server.create_room(a, s("R"), 2));
    server.join_room(a, room.clone(), s("A"));
    server.join_room(b, room.clone(), s("B"));
    let out = server.join_room(a, room.clone(), s("Ann"));
    let joined = Message::JoinedRoom { room_name: s("R"), username: s("Ann") };
    assert_eq!(
        out,
        vec![Delivery { to: a, message: joined.clone() }, Delivery { to: b, message: joined }]
    );
    assert_eq!(members(&server, &room), vec![a, b]);
    assert_eq!(server.client(a).unwrap().username, "Ann");
}

#[test]
fn server_only_frames_and_garbled_lines_are_ignored() {
    let mut server = ChatServer::new();
    let a = connect(&mut server);
    assert!(server.handle(a, Message::Connected).is_empty());
    assert!(server.handle(a, Message::UserLeft { username: s("x") }).is_empty());
    assert!(server.step(a, SessionEvent::Garbled).is_empty());
    assert!(server.client(a).is_some());
}

#[test]
fn frames_dispatch_through_step() {
    let mut server = ChatServer::new();
    let a = connect(&mut server);
    let out = server.step(a, SessionEvent::Frame(Message::CreateRoom { room_name: s("S"), max_users: 2 }));
    let room = created_id(&out);
    let out = server.step(a, SessionEvent::Frame(Message::JoinRoom { room_id: room.clone(), username: s("A") }));
    assert_eq!(out.len(), 1);
    assert_eq!(members(&server, &room), vec![a]);
}

#[test]
fn broadcast_skips_the_excluded_member() {
    let mut server = ChatServer::new();
    let a = connect(&mut server);
    let b = connect(&mut server);
    let c = connect(&mut server);
    let room = created_id(&server.create_room(a, s("R"), 3));
    server.join_room(a, room.clone(), s("A"));
    server.join_room(b, room.clone(), s("B"));
    server.join_room(c, room.clone(), s("C"));
    let note = Message::UserMessage { username: s("A"), content: s("x") };
    let out = server.broadcast(&room, &note, Some(b));
    assert_eq!(
        out,
        vec![Delivery { to: a, message: note.clone() }, Delivery { to: c, message: note.clone() }]
    );
    assert_eq!(server.broadcast(&room, &note, None).len(), 3);
    assert!(server.broadcast(&s("none"), &note, None).is_empty());
}

#[test]
fn membership_stays_consistent_over_a_session() {
    let mut server = ChatServer::new();
    let ids: Vec<u64> = (0..4).map(|_| connect(&mut server)).collect();
    let r1 = created_id(&server.create_room(ids[0], s("One"), 2));
    let r2 = created_id(&server.create_room(ids[0], s("Two"), 3));
    server.join_room(ids[0], r1.clone(), s("a"));
    server.join_room(ids[1], r1.clone(), s("b"));
    server.join_room(ids[2], r1.clone(), s("c"));
    server.join_room(ids[2], r2.clone(), s("c"));
    server.join_room(ids[1], r2.clone(), s("b"));
    server.disconnect(ids[0]);
    for room in [&r1, &r2] {
        if let Some(open) = server.room(room) {
            assert!(!open.members.is_empty());
            assert!(open.members.len() <= open.capacity);
            for m in &open.members {
                assert_eq!(current_room(&server, *m), Some(room.clone()));
            }
        }
    }
    for id in &ids[1..] {
        if let Some(r) = current_room(&server, *id) {
            assert!(members(&server, &r).contains(id));
        }
    }
    assert!(server.room(&r1).is_none());
    assert_eq!(members(&server, &r2), vec![ids[2], ids[1]]);
}
