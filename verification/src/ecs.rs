//! The per-world entity store.
//!
//! Entities are numbered, hold a position, a rotation and optional
//! display components, and can be asked for by the chunk they stand in,
//! so the server can tell who must hear about events in a chunk.

use vstd::prelude::*;

use crate::entities::{EntitySkinComponent, EntityTagComponent};
use crate::positions::{position_in_bounds, ChunkPosition, Position, Rotation};

verus! {

/// One live entity.
pub struct EntityRecord {
    pub id: u64,
    pub position: Position,
    pub rotation: Rotation,
    pub client_id: Option<u64>,
    pub tag: Option<EntityTagComponent>,
    pub skin: Option<EntitySkinComponent>,
}

/// The entity store of one world.
pub struct Ecs {
    pub entities: Vec<EntityRecord>,
    pub next_id: u64,
}

impl Ecs {
    /// Validity: ids are unique, below the next free id, and every
    /// position is representable.
    pub open spec fn wf(self) -> bool {
        &&& forall|i: int, j: int|
            0 <= i < j < self.entities@.len() ==> (#[trigger] self.entities@[i]).id != (
            #[trigger] self.entities@[j]).id
        &&& forall|i: int|
            0 <= i < self.entities@.len() ==> (#[trigger] self.entities@[i]).id < self.next_id
        &&& forall|i: int|
            0 <= i < self.entities@.len() ==> position_in_bounds(
                (#[trigger] self.entities@[i]).position,
            )
    }

    /// Whether an entity with this id is alive.
    pub open spec fn has_entity(self, id: u64) -> bool {
        exists|i: int| 0 <= i < self.entities@.len() && (#[trigger] self.entities@[i]).id == id
    }

    /// The record of the entity with this id.
    pub open spec fn spec_record(self, id: u64) -> EntityRecord {
        self.entities@[choose|i: int|
            0 <= i < self.entities@.len() && (#[trigger] self.entities@[i]).id == id]
    }

    /// An empty store.
    pub fn new() -> (r: Ecs)
        ensures
            r.wf(),
            r.entities@.len() == 0,
    {
        Ecs { entities: Vec::new(), next_id: 0 }
    }

    /// The next id that `spawn` would hand out.
    pub fn peek_next_id(&self) -> (r: u64)
        ensures
            r == self.next_id,
    {
        self.next_id
    }

    /// The index of the entity with the given id, if alive.
    pub fn find(&self, id: u64) -> (r: Option<usize>)
        ensures
            match r {
                Some(i) => i < self.entities@.len() && self.entities@[i as int].id == id
                    && self.has_entity(id),
                None => !self.has_entity(id),
            },
    {
        let n = self.entities.len();
        let mut i: usize = 0;
        while i < n
            invariant
                n == self.entities@.len(),
                i <= n,
                forall|j: int| 0 <= j < i ==> (#[trigger] self.entities@[j]).id != id,
            decreases n - i,
        {
            if self.entities[i].id == id {
                return Some(i);
            }
            i = i + 1;
        }
        None
    }

    /// Creates an entity at a position; returns its fresh id.
    pub fn spawn(
        &mut self,
        position: Position,
        rotation: Rotation,
        client_id: Option<u64>,
        tag: Option<EntityTagComponent>,
        skin: Option<EntitySkinComponent>,
    ) -> (r: u64)
        requires
            old(self).wf(),
            old(self).next_id < u64::MAX,
            position_in_bounds(position),
        ensures
            final(self).wf(),
            !old(self).has_entity(r),
            final(self).has_entity(r),
            final(self).entities@ == old(self).entities@.push(final(self).entities@.last()),
            final(self).entities@.last() == (EntityRecord {
                id: r,
                position,
                rotation,
                client_id,
                tag,
                skin,
            }),
            forall|e: u64| e != r ==> final(self).has_entity(e) == old(self).has_entity(e),
    {
        let id = self.next_id;
        self.next_id = self.next_id + 1;
        self.entities.push(EntityRecord { id, position, rotation, client_id, tag, skin });
        proof {
            assert(!old(self).has_entity(id)) by {
                if old(self).has_entity(id) {
                    let k = choose|k: int|
                        0 <= k < old(self).entities@.len() && (#[trigger] old(
                            self,
                        ).entities@[k]).id == id;
                }
            };
            assert(self.entities@.last().id == id);
            assert forall|e: u64| e != id implies self.has_entity(e) == old(self).has_entity(
                e,
            ) by {
                if old(self).has_entity(e) {
                    let k = choose|k: int|
                        0 <= k < old(self).entities@.len() && (#[trigger] old(
                            self,
                        ).entities@[k]).id == e;
                    assert(self.entities@[k].id == e);
                }
                if self.has_entity(e) {
                    let k = choose|k: int|
                        0 <= k < self.entities@.len() && (#[trigger] self.entities@[k]).id == e;
                    assert(k < old(self).entities@.len());
                    assert(old(self).entities@[k].id == e);
                }
            }
        }
        id
    }

    /// Removes the entity with this id, if alive.
    pub fn despawn(&mut self, id: u64)
        requires
            old(self).wf(),
        ensures
            final(self).wf(),
            !final(self).has_entity(id),
            forall|e: u64| e != id ==> final(self).has_entity(e) == old(self).has_entity(e),
            forall|i: int|
                0 <= i < final(self).entities@.len() ==> old(self).entities@.contains(
                    #[trigger] final(self).entities@[i],
                ),
    {
        match self.find(id) {
            Some(i) => {
                self.entities.remove(i);
                proof {
                    let oldp = old(self).entities@;
                    let newp = self.entities@;
                    assert forall|e: u64| e != id && old(self).has_entity(e) implies
                        self.has_entity(e) by {
                        let k = choose|k: int|
                            0 <= k < oldp.len() && (#[trigger] oldp[k]).id == e;
                        if k < i {
                            assert(newp[k] == oldp[k]);
                        } else {
                            assert(newp[k - 1] == oldp[k]);
                        }
                    }
                    assert forall|k: int| 0 <= k < newp.len() implies oldp.contains(
                        #[trigger] newp[k],
                    ) by {
                        if k < i {
                            assert(newp[k] == oldp[k]);
                        } else {
                            assert(newp[k] == oldp[k + 1]);
                        }
                    }
                    assert forall|k: int| 0 <= k < newp.len() implies (#[trigger] newp[k]).id
                        != id by {
                        if k < i {
                            assert(newp[k] == oldp[k]);
                        } else {
                            assert(newp[k] == oldp[k + 1]);
                        }
                    }
                    assert forall|a: int, b: int| 0 <= a < b < newp.len() implies (
                    #[trigger] newp[a]).id != (#[trigger] newp[b]).id by {
                        let a2: int = if a < i {
                            a
                        } else {
                            a + 1
                        };
                        let b2: int = if b < i {
                            b
                        } else {
                            b + 1
                        };
                        assert(newp[a] == oldp[a2] && newp[b] == oldp[b2]);
                    }
                }
            },
            None => {},
        }
    }

    /// Reads the record of an entity.
    pub fn get_entity(&self, id: u64) -> (r: Option<&EntityRecord>)
        requires
            self.wf(),
        ensures
            match r {
                Some(rec) => self.has_entity(id) && *rec == self.spec_record(id) && rec.id == id,
                None => !self.has_entity(id),
            },
    {
        match self.find(id) {
            Some(i) => {
                proof {
                    lemma_record_at(*self, i as int);
                }
                Some(&self.entities[i])
            },
            None => None,
        }
    }

    /// Updates an entity's position and rotation.
    pub fn set_transform(&mut self, id: u64, position: Position, rotation: Rotation)
        requires
            old(self).wf(),
            position_in_bounds(position),
        ensures
            final(self).wf(),
            forall|e: u64| final(self).has_entity(e) == old(self).has_entity(e),
            old(self).has_entity(id) ==> final(self).spec_record(id) == (EntityRecord {
                position,
                rotation,
                ..old(self).spec_record(id)
            }),
            forall|e: u64|
                e != id && old(self).has_entity(e) ==> final(self).spec_record(e) == old(
                    self,
                ).spec_record(e),
    {
        match self.find(id) {
            Some(i) => {
                proof {
                    lemma_record_at(*old(self), i as int);
                }
                let ghost mid = *self;
                let rec = &mut self.entities[i];
                rec.position = position;
                rec.rotation = rotation;
                proof {
                    assert forall|a: int, b: int|
                        0 <= a < b < self.entities@.len() implies (
                    #[trigger] self.entities@[a]).id != (#[trigger] self.entities@[b]).id by {
                        assert(self.entities@[a].id == mid.entities@[a].id);
                        assert(self.entities@[b].id == mid.entities@[b].id);
                    }
                    lemma_record_at(*self, i as int);
                    assert forall|e: u64| self.has_entity(e) == old(self).has_entity(e) by {
                        if old(self).has_entity(e) {
                            let k = choose|k: int|
                                0 <= k < mid.entities@.len() && (#[trigger] mid.entities@[k]).id
                                    == e;
                            assert(self.entities@[k].id == e);
                        }
                        if self.has_entity(e) {
                            let k = choose|k: int|
                                0 <= k < self.entities@.len() && (#[trigger] self.entities@[k]).id
                                    == e;
                            assert(mid.entities@[k].id == e);
                        }
                    }
                    assert forall|e: u64|
                        e != id && old(self).has_entity(e) implies self.spec_record(e) == old(
                        self,
                    ).spec_record(e) by {
                        let k = choose|k: int|
                            0 <= k < mid.entities@.len() && (#[trigger] mid.entities@[k]).id == e;
                        assert(k != i);
                        assert(self.entities@[k] == mid.entities@[k]);
                        lemma_record_at(mid, k);
                        lemma_record_at(*self, k);
                    }
                }
            },
            None => {},
        }
    }

    /// The ids of the entities standing in the given chunk, each once.
    pub fn get_chunk_entities(&self, chunk: &ChunkPosition) -> (r: Vec<u64>)
        requires
            self.wf(),
        ensures
            forall|e: u64|
                r@.contains(e) == (self.has_entity(e) && self.spec_record(
                    e,
                ).position.spec_chunk_position() == *chunk),
            r@.no_duplicates(),
    {
        let n = self.entities.len();
        let mut out: Vec<u64> = Vec::new();
        let mut i: usize = 0;
        while i < n
            invariant
                self.wf(),
                n == self.entities@.len(),
                i <= n,
                forall|e: u64|
                    out@.contains(e) == exists|j: int|
                        0 <= j < i && (#[trigger] self.entities@[j]).id == e && self.entities@[
                            j
                        ].position.spec_chunk_position() == *chunk,
                out@.no_duplicates(),
            decreases n - i,
        {
            let here = self.entities[i].position.get_chunk_position();
            let matches_chunk = here.x == chunk.x && here.z == chunk.z;
            proof {
                broadcast use vstd::seq_lib::lemma_seq_contains_after_push;

                if matches_chunk {
                    let e = self.entities@[i as int].id;
                    assert(!out@.contains(e)) by {
                        if out@.contains(e) {
                            let j = choose|j: int|
                                0 <= j < i && (#[trigger] self.entities@[j]).id == e
                                    && self.entities@[j].position.spec_chunk_position() == *chunk;
                            assert(self.entities@[j].id != self.entities@[i as int].id);
                        }
                    };
                }
            }
            if matches_chunk {
                out.push(self.entities[i].id);
            }
            i = i + 1;
        }
        proof {
            assert forall|e: u64|
                out@.contains(e) == (self.has_entity(e) && self.spec_record(
                    e,
                ).position.spec_chunk_position() == *chunk) by {
                if out@.contains(e) {
                    let j = choose|j: int|
                        0 <= j < n && (#[trigger] self.entities@[j]).id == e && self.entities@[
                            j
                        ].position.spec_chunk_position() == *chunk;
                    lemma_record_at(*self, j);
                }
                if self.has_entity(e) && self.spec_record(e).position.spec_chunk_position()
                    == *chunk {
                    let j = choose|j: int|
                        0 <= j < self.entities@.len() && (#[trigger] self.entities@[j]).id == e;
                    lemma_record_at(*self, j);
                }
            }
        }
        out
    }
}

/// With unique ids, the record at a known index is the record looked up.
pub proof fn lemma_record_at(ecs: Ecs, i: int)
    requires
        forall|a: int, b: int|
            0 <= a < b < ecs.entities@.len() ==> (#[trigger] ecs.entities@[a]).id != (
            #[trigger] ecs.entities@[b]).id,
        0 <= i < ecs.entities@.len(),
    ensures
        ecs.has_entity(ecs.entities@[i].id),
        ecs.spec_record(ecs.entities@[i].id) == ecs.entities@[i],
{
    let id = ecs.entities@[i].id;
    assert(ecs.has_entity(id));
    let j = choose|j: int| 0 <= j < ecs.entities@.len() && (#[trigger] ecs.entities@[j]).id == id;
    if i != j {
        if i < j {
            assert(ecs.entities@[i].id != ecs.entities@[j].id);
        } else {
            assert(ecs.entities@[j].id != ecs.entities@[i].id);
        }
    }
}

} // verus!
