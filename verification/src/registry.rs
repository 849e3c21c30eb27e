//! The keyed store of rooms: get, get-all, save and delete with
//! last-writer-wins semantics on save. Callers that share the store wrap it
//! in one mutual-exclusion domain; every operation here is a whole value
//! exchange, so a reader never observes a half-written room.

use vstd::prelude::*;
use crate::domain::{Room, RoomId, RoomModel};

verus! {

/// A failure reported by a room store. The in-memory store never produces
/// one; the type keeps the interface open for stores that can fail.
#[derive(Debug)]
pub struct InfrastructureError {
    pub message: String,
}

impl Clone for InfrastructureError {
    fn clone(&self) -> (res: Self)
        ensures
            res.message@ == self.message@,
    {
        InfrastructureError { message: self.message.clone() }
    }
}

/// First match in a sequence of rooms, by room id.
pub open spec fn seq_find(rooms: Seq<Room>, id: RoomId) -> Option<Room>
    decreases rooms.len(),
{
    if rooms.len() == 0 {
        None
    } else if rooms[0].id == id {
        Some(rooms[0])
    } else {
        seq_find(rooms.drop_first(), id)
    }
}

/// Each room id occurs at most once.
pub open spec fn unique_ids(rooms: Seq<Room>) -> bool {
    forall|i: int, j: int| 0 <= i < j < rooms.len() ==> rooms[i].id != rooms[j].id
}

proof fn lemma_find_prefix(s: Seq<Room>, id: RoomId, k: int)
    requires
        0 <= k < s.len(),
        s[k].id == id,
        forall|j: int| 0 <= j < k ==> s[j].id != id,
    ensures
        seq_find(s, id) == Some(s[k]),
    decreases k,
{
    if k > 0 {
        lemma_find_prefix(s.drop_first(), id, k - 1);
    }
}

proof fn lemma_find_at(s: Seq<Room>, k: int)
    requires
        unique_ids(s),
        0 <= k < s.len(),
    ensures
        seq_find(s, s[k].id) == Some(s[k]),
{
    lemma_find_prefix(s, s[k].id, k);
}

proof fn lemma_find_absent(s: Seq<Room>, id: RoomId)
    requires
        forall|j: int| 0 <= j < s.len() ==> s[j].id != id,
    ensures
        seq_find(s, id) is None,
    decreases s.len(),
{
    if s.len() > 0 {
        lemma_find_absent(s.drop_first(), id);
    }
}

proof fn lemma_absent_of_find_none(s: Seq<Room>, id: RoomId)
    requires
        seq_find(s, id) is None,
    ensures
        forall|j: int| 0 <= j < s.len() ==> s[j].id != id,
    decreases s.len(),
{
    if s.len() > 0 {
        lemma_absent_of_find_none(s.drop_first(), id);
        assert forall|j: int| 0 <= j < s.len() implies s[j].id != id by {
            if j > 0 {
                assert(s.drop_first()[j - 1] == s[j]);
            }
        }
    }
}

proof fn lemma_find_is_some(s: Seq<Room>, id: RoomId)
    requires
        seq_find(s, id) is Some,
    ensures
        exists|k: int|
            0 <= k < s.len() && s[k] == seq_find(s, id)->Some_0 && (#[trigger] s[k]).id == id,
    decreases s.len(),
{
    if s.len() > 0 {
        if s[0].id == id {
            assert(s[0] == seq_find(s, id)->Some_0 && s[0].id == id);
        } else {
            lemma_find_is_some(s.drop_first(), id);
            let k = choose|k: int|
                0 <= k < s.drop_first().len() && s.drop_first()[k] == seq_find(
                    s.drop_first(),
                    id,
                )->Some_0 && (#[trigger] s.drop_first()[k]).id == id;
            assert(s[k + 1] == s.drop_first()[k]);
        }
    }
}

proof fn lemma_find_push(s: Seq<Room>, r: Room, id: RoomId)
    ensures
        seq_find(s.push(r), id) == (match seq_find(s, id) {
            Some(x) => Some(x),
            None => if r.id == id {
                Some(r)
            } else {
                None
            },
        }),
    decreases s.len(),
{
    if s.len() == 0 {
        assert(s.push(r)[0] == r);
        assert(s.push(r).drop_first() =~= Seq::<Room>::empty());
        assert(seq_find(Seq::<Room>::empty(), id) is None);
    } else {
        assert(s.push(r).drop_first() =~= s.drop_first().push(r));
        lemma_find_push(s.drop_first(), r, id);
    }
}

/// The in-memory keyed store of rooms.
pub struct InMemoryRoomRepo {
    rooms: Vec<Room>,
}

impl InMemoryRoomRepo {
    /// The store invariant: one entry per room id, every entry within its
    /// capacity.
    pub closed spec fn wf(self) -> bool {
        unique_ids(self.rooms@) && forall|i: int|
            0 <= i < self.rooms@.len() ==> (#[trigger] self.rooms@[i])@.wf()
    }

    /// What the store holds under one id.
    pub closed spec fn spec_get(self, id: RoomId) -> Option<RoomModel> {
        match seq_find(self.rooms@, id) {
            Some(r) => Some(r@),
            None => None,
        }
    }

    /// Everything the store holds, oldest entry first.
    pub closed spec fn spec_rooms(self) -> Seq<RoomModel> {
        self.rooms@.map_values(|r: Room| r@)
    }

    pub fn new() -> (repo: InMemoryRoomRepo)
        ensures
            repo.wf(),
            forall|id: RoomId| repo.spec_get(id) is None,
            repo.spec_rooms() == Seq::<RoomModel>::empty(),
    {
        let repo = InMemoryRoomRepo { rooms: Vec::new() };
        proof {
            assert(repo.spec_rooms() =~= Seq::<RoomModel>::empty());
        }
        repo
    }

    fn find_index(&self, room_id: RoomId) -> (r: Option<usize>)
        ensures
            match r {
                Some(i) => i < self.rooms@.len() && self.rooms@[i as int].id == room_id && (
                forall|j: int| 0 <= j < i ==> self.rooms@[j].id != room_id),
                None => forall|j: int| 0 <= j < self.rooms@.len() ==> self.rooms@[j].id != room_id,
            },
    {
        let n = self.rooms.len();
        for i in 0..n
            invariant
                n == self.rooms.len(),
                forall|j: int| 0 <= j < i ==> self.rooms@[j].id != room_id,
        {
            if self.rooms[i].id == room_id {
                return Some(i);
            }
        }
        None
    }

    /// Returns a snapshot of the room under the id, if any.
    pub fn get(&self, room_id: RoomId) -> (r: Option<Room>)
        requires
            self.wf(),
        ensures
            match r {
                Some(room) => self.spec_get(room_id) == Some(room@) && room@.id == room_id
                    && room@.wf(),
                None => self.spec_get(room_id) is None,
            },
    {
        match self.find_index(room_id) {
            Some(i) => {
                proof {
                    lemma_find_prefix(self.rooms@, room_id, i as int);
                }
                Some(self.rooms[i].clone())
            },
            None => {
                proof {
                    lemma_find_absent(self.rooms@, room_id);
                }
                None
            },
        }
    }

    /// Returns a snapshot of every room.
    pub fn get_all(&self) -> (r: Vec<Room>)
        ensures
            r@.len() == self.spec_rooms().len(),
            forall|i: int| 0 <= i < r@.len() ==> (#[trigger] r@[i])@ == self.spec_rooms()[i],
    {
        let n = self.rooms.len();
        let mut out: Vec<Room> = Vec::new();
        for i in 0..n
            invariant
                n == self.rooms.len(),
                out@.len() == i,
                forall|j: int| 0 <= j < i ==> (#[trigger] out@[j])@ == self.rooms@[j]@,
        {
            out.push(self.rooms[i].clone());
        }
        out
    }

    /// Upserts the room under its id and returns the stored value:
    /// last writer wins, with no optimistic-concurrency check.
    pub fn save(&mut self, room: Room) -> (stored: Room)
        requires
            old(self).wf(),
            room@.wf(),
        ensures
            final(self).wf(),
            final(self).spec_get(room@.id) == Some(room@),
            forall|other: RoomId|
                other != room@.id ==> final(self).spec_get(other) == old(self).spec_get(other),
            stored@ == room@,
    {
        self.delete(room.id);
        let stored = room.clone();
        proof {
            let s = self.rooms@;
            lemma_absent_of_find_none(s, room.id);
            lemma_find_push(s, room, room.id);
            assert forall|other: RoomId| other != room@.id implies seq_find(s.push(room), other)
                == seq_find(s, other) by {
                lemma_find_push(s, room, other);
            }
            assert forall|i: int, j: int|
                0 <= i < j < s.push(room).len() implies s.push(room)[i].id != s.push(
                room,
            )[j].id by {}
        }
        self.rooms.push(room);
        stored
    }

    /// Removes the room under the id; a no-op if absent.
    pub fn delete(&mut self, room_id: RoomId)
        requires
            old(self).wf(),
        ensures
            final(self).wf(),
            final(self).spec_get(room_id) is None,
            forall|other: RoomId|
                other != room_id ==> final(self).spec_get(other) == old(self).spec_get(other),
    {
        match self.find_index(room_id) {
            Some(i) => {
                proof {
                    let s = self.rooms@;
                    let t = s.remove(i as int);
                    assert(forall|j: int| 0 <= j < i ==> t[j] == s[j]);
                    assert(forall|j: int| i <= j < t.len() ==> t[j] == s[j + 1]);
                    assert forall|j: int| 0 <= j < t.len() implies (#[trigger] t[j]).id
                        != room_id by {}
                    lemma_find_absent(t, room_id);
                    assert forall|other: RoomId| other != room_id implies seq_find(t, other)
                        == seq_find(s, other) by {
                        lemma_delete_preserves_other(s, t, i as int, room_id, other);
                    }
                }
                self.rooms.remove(i);
            },
            None => {
                proof {
                    lemma_find_absent(self.rooms@, room_id);
                }
            },
        }
    }
}

proof fn lemma_delete_preserves_other(s: Seq<Room>, t: Seq<Room>, i: int, room_id: RoomId, other: RoomId)
    requires
        unique_ids(s),
        0 <= i < s.len(),
        s[i].id == room_id,
        t == s.remove(i),
        other != room_id,
    ensures
        seq_find(t, other) == seq_find(s, other),
{
    assert(forall|j: int| 0 <= j < i ==> t[j] == s[j]);
    assert(forall|j: int| i <= j < t.len() ==> t[j] == s[j + 1]);
    assert forall|a: int, b: int| 0 <= a < b < t.len() implies t[a].id != t[b].id by {}
    if seq_find(s, other) is Some {
        lemma_find_is_some(s, other);
        let k = choose|k: int|
            0 <= k < s.len() && s[k] == seq_find(s, other)->Some_0 && (#[trigger] s[k]).id
                == other;
        if k < i {
            lemma_find_at(t, k);
        } else {
            lemma_find_at(t, k - 1);
        }
    } else {
        lemma_absent_of_find_none(s, other);
        lemma_find_absent(t, other);
    }
}

} // verus!
