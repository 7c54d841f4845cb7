//! The registry of connected clients.

use std::collections::HashMap;
use vstd::prelude::*;

verus! {

/// What the server knows of one connected client.
pub struct Client {
    /// The name given at the last successful join; empty before any join.
    pub username: String,
    /// The identifier of the room the client is in, if any.
    pub room: Option<String>,
}

/// The mathematical value of a [`Client`].
pub struct ClientView {
    pub username: Seq<char>,
    pub room: Option<Seq<char>>,
}

/// The characters of an optional text.
pub open spec fn opt_text(o: Option<String>) -> Option<Seq<char>> {
    match o {
        Some(s) => Some(s@),
        None => None,
    }
}

impl View for Client {
    type V = ClientView;

    open spec fn view(&self) -> ClientView {
        ClientView { username: self.username@, room: opt_text(self.room) }
    }
}

/// The state of a client that has just connected: no name and no room.
pub open spec fn fresh_client() -> ClientView {
    ClientView { username: Seq::empty(), room: None }
}

/// Connected clients by identifier. Identifiers are handed out in increasing
/// order and never reused.
pub struct ClientRegistry {
    clients: HashMap<u64, Client>,
    next_id: u64,
}

impl View for ClientRegistry {
    type V = Map<u64, ClientView>;

    closed spec fn view(&self) -> Map<u64, ClientView> {
        self.clients@.map_values(|c: Client| c@)
    }
}

impl ClientRegistry {
    /// Every registered identifier lies below the next one to be handed out.
    pub closed spec fn wf(&self) -> bool {
        forall|id: u64| #[trigger] self.clients@.contains_key(id) ==> id < self.next_id
    }

    /// How many identifiers have been handed out so far.
    pub closed spec fn issued(&self) -> nat {
        self.next_id as nat
    }

    /// Every identifier has been handed out: no client can register any more.
    pub open spec fn exhausted(&self) -> bool {
        self.issued() == u64::MAX
    }

    /// An empty registry.
    pub fn new() -> (r: ClientRegistry)
        ensures
            r.wf(),
            r@ == Map::<u64, ClientView>::empty(),
            r.issued() == 0,
    {
        let r = ClientRegistry { clients: HashMap::new(), next_id: 0 };
        assert(r@ =~= Map::<u64, ClientView>::empty());
        r
    }

    /// Registers a new client under an identifier never used before, or
    /// returns `None` once every identifier has been handed out.
    pub fn register(&mut self) -> (r: Option<u64>)
        requires
            old(self).wf(),
        ensures
            final(self).wf(),
            r is None <==> old(self).exhausted(),
            r is None ==> final(self)@ == old(self)@ && final(self).issued() == old(self).issued(),
            r matches Some(id) ==> {
                &&& id == old(self).issued()
                &&& final(self).issued() == old(self).issued() + 1
                &&& !old(self)@.contains_key(id)
                &&& final(self)@ == old(self)@.insert(id, fresh_client())
            },
    {
        if self.next_id == u64::MAX {
            return None;
        }
        let id = self.next_id;
        let client = Client { username: String::new(), room: None };
        assert(client@ == fresh_client());
        self.clients.insert(id, client);
        self.next_id = self.next_id + 1;
        assert(self@ =~= old(self)@.insert(id, fresh_client()));
        Some(id)
    }

    /// The client registered under `id`, if any.
    pub fn get(&self, id: u64) -> (r: Option<&Client>)
        ensures
            r is Some <==> self@.contains_key(id),
            r matches Some(c) ==> c@ == self@[id],
    {
        self.clients.get(&id)
    }

    /// Replaces the state of the client registered under `id`.
    pub fn set(&mut self, id: u64, client: Client)
        requires
            old(self).wf(),
            old(self)@.contains_key(id),
        ensures
            final(self).wf(),
            final(self)@ == old(self)@.insert(id, client@),
            final(self).issued() == old(self).issued(),
    {
        let ghost c = client;
        self.clients.insert(id, client);
        assert(self@ =~= old(self)@.insert(id, c@));
    }

    /// Removes the client registered under `id`, handing back its state.
    pub fn remove(&mut self, id: u64) -> (r: Option<Client>)
        requires
            old(self).wf(),
        ensures
            final(self).wf(),
            final(self)@ == old(self)@.remove(id),
            final(self).issued() == old(self).issued(),
            r is Some <==> old(self)@.contains_key(id),
            r matches Some(c) ==> c@ == old(self)@[id],
    {
        let r = self.clients.remove(&id);
        assert(self@ =~= old(self)@.remove(id));
        r
    }
}

} // verus!
