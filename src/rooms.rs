//! The registry of open rooms.

use vstd::prelude::*;

verus! {

/// One room: its identifier, its name, how many clients it admits, and the
/// identifiers of its members in the order in which they joined.
pub struct Room {
    pub id: String,
    pub name: String,
    pub capacity: usize,
    pub members: Vec<u64>,
}

/// The mathematical value of a [`Room`], less the identifier that keys it.
pub struct RoomView {
    pub name: Seq<char>,
    pub capacity: usize,
    pub members: Seq<u64>,
}

impl View for Room {
    type V = RoomView;

    open spec fn view(&self) -> RoomView {
        RoomView { name: self.name@, capacity: self.capacity, members: self.members@ }
    }
}

/// No two rooms of the list share an identifier.
pub open spec fn ids_unique(rooms: Seq<Room>) -> bool {
    forall|i: int, j: int|
        0 <= i < rooms.len() && 0 <= j < rooms.len() && i != j ==> #[trigger] rooms[i].id@
            != #[trigger] rooms[j].id@
}

/// Some room of the list has the identifier `k`.
pub open spec fn has_id(rooms: Seq<Room>, k: Seq<char>) -> bool {
    exists|i: int| 0 <= i < rooms.len() && #[trigger] rooms[i].id@ == k
}

/// The rooms of a list, keyed by identifier.
pub open spec fn rooms_map(rooms: Seq<Room>) -> Map<Seq<char>, RoomView> {
    Map::new(
        |k: Seq<char>| has_id(rooms, k),
        |k: Seq<char>| rooms[choose|i: int| 0 <= i < rooms.len() && #[trigger] rooms[i].id@ == k]@,
    )
}

/// Each room of a list with distinct identifiers stands in the keyed map.
proof fn lemma_rooms_map_at(rooms: Seq<Room>, i: int)
    requires
        ids_unique(rooms),
        0 <= i < rooms.len(),
    ensures
        rooms_map(rooms).contains_key(rooms[i].id@),
        rooms_map(rooms)[rooms[i].id@] == rooms[i]@,
{
    let k = rooms[i].id@;
    assert(has_id(rooms, k));
    let j = choose|j: int| 0 <= j < rooms.len() && #[trigger] rooms[j].id@ == k;
    assert(j == i);
}

/// Open rooms by identifier.
pub struct RoomRegistry {
    rooms: Vec<Room>,
}

impl View for RoomRegistry {
    type V = Map<Seq<char>, RoomView>;

    closed spec fn view(&self) -> Map<Seq<char>, RoomView> {
        rooms_map(self.rooms@)
    }
}

impl RoomRegistry {
    /// No two rooms share an identifier.
    pub closed spec fn wf(&self) -> bool {
        ids_unique(self.rooms@)
    }

    /// An empty registry.
    pub fn new() -> (r: RoomRegistry)
        ensures
            r.wf(),
            r@ == Map::<Seq<char>, RoomView>::empty(),
    {
        let r = RoomRegistry { rooms: Vec::new() };
        assert(r@ =~= Map::<Seq<char>, RoomView>::empty());
        r
    }

    /// The position of the room with identifier `id`, if any.
    fn find(&self, id: &String) -> (r: Option<usize>)
        requires
            self.wf(),
        ensures
            r is Some <==> self@.contains_key(id@),
            r matches Some(i) ==> i < self.rooms@.len() && self.rooms@[i as int].id@ == id@,
    {
        let mut i: usize = 0;
        while i < self.rooms.len()
            invariant
                i <= self.rooms@.len(),
                forall|j: int| 0 <= j < i ==> #[trigger] self.rooms@[j].id@ != id@,
            decreases self.rooms@.len() - i,
        {
            if self.rooms[i].id == *id {
                return Some(i);
            }
            i = i + 1;
        }
        None
    }

    /// Whether a room has the identifier `id`.
    pub fn contains(&self, id: &String) -> (r: bool)
        requires
            self.wf(),
        ensures
            r == self@.contains_key(id@),
    {
        self.find(id).is_some()
    }

    /// The room with identifier `id`, if any.
    pub fn get(&self, id: &String) -> (r: Option<&Room>)
        requires
            self.wf(),
        ensures
            r is Some <==> self@.contains_key(id@),
            r matches Some(room) ==> room.id@ == id@ && room@ == self@[id@],
    {
        match self.find(id) {
            Some(i) => {
                proof {
                    lemma_rooms_map_at(self.rooms@, i as int);
                }
                Some(&self.rooms[i])
            },
            None => None,
        }
    }

    /// Whether some room is named `name`.
    pub fn name_taken(&self, name: &String) -> (r: bool)
        requires
            self.wf(),
        ensures
            r == exists|k: Seq<char>| #[trigger] self@.contains_key(k) && self@[k].name == name@,
    {
        let mut i: usize = 0;
        while i < self.rooms.len()
            invariant
                self.wf(),
                i <= self.rooms@.len(),
                forall|j: int| 0 <= j < i ==> #[trigger] self.rooms@[j].name@ != name@,
            decreases self.rooms@.len() - i,
        {
            if self.rooms[i].name == *name {
                proof {
                    lemma_rooms_map_at(self.rooms@, i as int);
                    assert(self@.contains_key(self.rooms@[i as int].id@));
                }
                return true;
            }
            i = i + 1;
        }
        proof {
            assert forall|k: Seq<char>| #[trigger] self@.contains_key(k) implies self@[k].name
                != name@ by {
                let j = choose|j: int| 0 <= j < self.rooms@.len() && #[trigger] self.rooms@[j].id@ == k;
                lemma_rooms_map_at(self.rooms@, j);
            }
        }
        false
    }

    /// Adds a room under an identifier that no open room has.
    pub fn insert(&mut self, room: Room)
        requires
            old(self).wf(),
            !old(self)@.contains_key(room.id@),
        ensures
            final(self).wf(),
            final(self)@ == old(self)@.insert(room.id@, room@),
    {
        let ghost k = room.id@;
        let ghost v = room@;
        let ghost before = self.rooms@;
        self.rooms.push(room);
        let ghost after = self.rooms@;
        proof {
            assert forall|i: int| 0 <= i < before.len() implies #[trigger] before[i].id@ != k by {
                assert(has_id(before, before[i].id@));
            }
            assert(ids_unique(after));
            assert forall|i: int| 0 <= i < before.len() implies #[trigger] rooms_map(after).contains_key(before[i].id@) && rooms_map(after)[before[i].id@] == rooms_map(before)[before[i].id@] by {
                lemma_rooms_map_at(before, i);
                assert(after[i] == before[i]);
                lemma_rooms_map_at(after, i);
            }
            lemma_rooms_map_at(after, before.len() as int);
            assert forall|key: Seq<char>| #[trigger] rooms_map(after).contains_key(key) implies key == k || rooms_map(before).contains_key(key) by {
                let j = choose|j: int| 0 <= j < after.len() && #[trigger] after[j].id@ == key;
                if j < before.len() {
                    assert(before[j] == after[j]);
                    assert(has_id(before, key));
                }
            }
            assert forall|key: Seq<char>| #[trigger] rooms_map(before).contains_key(key) implies rooms_map(after).contains_key(key) && rooms_map(after)[key] == rooms_map(before)[key] by {
                let j = choose|j: int| 0 <= j < before.len() && #[trigger] before[j].id@ == key;
                assert(before[j].id@ == key);
            }
            assert(rooms_map(after) =~= rooms_map(before).insert(k, v));
        }
    }

    /// Removes the room with identifier `id`, handing it back.
    pub fn remove(&mut self, id: &String) -> (r: Option<Room>)
        requires
            old(self).wf(),
        ensures
            final(self).wf(),
            final(self)@ == old(self)@.remove(id@),
            r is Some <==> old(self)@.contains_key(id@),
            r matches Some(room) ==> room.id@ == id@ && room@ == old(self)@[id@],
    {
        match self.find(id) {
            None => {
                assert(self@ =~= old(self)@.remove(id@));
                None
            },
            Some(i) => {
                let ghost before = self.rooms@;
                proof {
                    lemma_rooms_map_at(before, i as int);
                }
                let room = self.rooms.remove(i);
                let ghost after = self.rooms@;
                proof {
                    assert(after =~= before.remove(i as int));
                    assert forall|a: int, b: int|
                        0 <= a < after.len() && 0 <= b < after.len() && a != b
                        implies #[trigger] after[a].id@ != #[trigger] after[b].id@ by {
                        let oa = if a < i { a } else { a + 1 };
                        let ob = if b < i { b } else { b + 1 };
                        assert(after[a] == before[oa]);
                        assert(after[b] == before[ob]);
                    }
                    assert forall|key: Seq<char>| #[trigger] rooms_map(after).contains_key(key) implies key != id@ && rooms_map(before).contains_key(key) && rooms_map(after)[key] == rooms_map(before)[key] by {
                        let j = choose|j: int| 0 <= j < after.len() && #[trigger] after[j].id@ == key;
                        let oj = if j < i { j } else { j + 1 };
                        assert(after[j] == before[oj]);
                        lemma_rooms_map_at(after, j);
                        lemma_rooms_map_at(before, oj);
                    }
                    assert forall|key: Seq<char>| #[trigger] rooms_map(before).contains_key(key) && key != id@ implies rooms_map(after).contains_key(key) by {
                        let oj = choose|j: int| 0 <= j < before.len() && #[trigger] before[j].id@ == key;
                        let j = if oj < i { oj } else { oj - 1 };
                        assert(after[j] == before[oj]);
                        assert(has_id(after, key));
                    }
                    assert(rooms_map(after) =~= rooms_map(before).remove(id@));
                }
                Some(room)
            },
        }
    }
}

} // verus!
