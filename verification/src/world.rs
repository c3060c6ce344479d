//! One named world — its entity store paired with its chunk map — and the
//! registry of all worlds by slug.

use vstd::prelude::*;

use crate::chunk_map::{ChunkChanged, ChunkMap};
use crate::client::WorldEntity;
use crate::clients::clone_string;
use crate::column::spec_frame_bytes;
use crate::ecs::Ecs;
use crate::entities::{EntityComponent, EntitySkinComponent, EntityTagComponent};
use crate::generator::{GeneratorService, WorldGeneratorSettings};
use crate::messages::ServerMessage;
use crate::positions::{
    chunk_in_bounds, position_in_bounds, ChunkPosition, Position, Rotation, COORD_LIMIT,
};
use crate::runtime::Runtime;
use crate::CHUNKS_DISTANCE;

verus! {

/// The chunk of a representable position is itself representable.
pub proof fn lemma_chunk_of_bounded_position(p: Position)
    requires
        position_in_bounds(p),
    ensures
        chunk_in_bounds(p.spec_chunk_position()),
{
    crate::positions::lemma_floor_div_range(p.x_milli as int, 16000);
    crate::positions::lemma_floor_div_range(p.z_milli as int, 16000);
}

/// One world: a slug, its entities, and its chunk map.
pub struct WorldManager {
    pub slug: String,
    pub ecs: Ecs,
    pub chunks_map: ChunkMap,
}

impl WorldManager {
    /// Validity: both halves are valid and the chunk map carries this
    /// world's slug.
    pub open spec fn wf(self) -> bool {
        &&& self.ecs.wf()
        &&& self.chunks_map.wf()
        &&& self.chunks_map.world_slug@ == self.slug@
    }

    /// A fresh world with no entities and no chunks.
    pub fn new(slug: String, world_generator_settings: WorldGeneratorSettings) -> (r: WorldManager)
        ensures
            r.wf(),
            r.slug@ == slug@,
            r.ecs.entities@.len() == 0,
            r.chunks_map.entries@.len() == 0,
            r.chunks_map.storage@.len() == 0,
            r.chunks_map.generator_settings == world_generator_settings,
    {
        let map_slug = clone_string(&slug);
        WorldManager { slug, ecs: Ecs::new(), chunks_map: ChunkMap::new(map_slug, world_generator_settings) }
    }

    /// The generator method this world was created with.
    pub fn get_world_generator(&self) -> (r: &String)
        ensures
            r == self.chunks_map.generator_settings.method,
    {
        self.chunks_map.get_world_generator_settings().get_method()
    }

    pub fn get_ecs(&self) -> (r: &Ecs)
        ensures
            r == self.ecs,
    {
        &self.ecs
    }

    pub fn get_ecs_mut(&mut self) -> (r: &mut Ecs)
        ensures
            *r == old(self).ecs,
            *final(self) == (WorldManager { ecs: *final(r), ..*old(self) }),
    {
        &mut self.ecs
    }

    pub fn get_chunks_map(&self) -> (r: &ChunkMap)
        ensures
            r == self.chunks_map,
    {
        &self.chunks_map
    }

    pub fn get_chunks_map_mut(&mut self) -> (r: &mut ChunkMap)
        ensures
            *r == old(self).chunks_map,
            *final(self) == (WorldManager { chunks_map: *final(r), ..*old(self) }),
    {
        &mut self.chunks_map
    }

    pub fn get_slug(&self) -> (r: &String)
        ensures
            r == self.slug,
    {
        &self.slug
    }

    /// How many chunk columns are resident.
    pub fn get_chunks_count(&self) -> (r: usize)
        ensures
            r == self.chunks_map.entries@.len(),
    {
        self.chunks_map.count()
    }

    /// Spawns a player entity at a position and starts streaming the
    /// chunk window around it.
    pub fn spawn_player(
        &mut self,
        position: Position,
        rotation: Rotation,
        client_id: Option<u64>,
        components: Vec<EntityComponent>,
    ) -> (r: WorldEntity)
        requires
            old(self).wf(),
            old(self).ecs.next_id < u64::MAX,
            position_in_bounds(position),
        ensures
            final(self).wf(),
            r.spec_world_slug() == old(self).slug@,
            final(self).ecs.has_entity(r.spec_entity_id()),
            !old(self).ecs.has_entity(r.spec_entity_id()),
            final(self).ecs.spec_record(r.spec_entity_id()).position == position,
            final(self).ecs.spec_record(r.spec_entity_id()).rotation == rotation,
            final(self).ecs.spec_record(r.spec_entity_id()).client_id == client_id,
            final(self).ecs.spec_record(r.spec_entity_id()).tag == crate::entities::spec_last_tag(
                components@,
            ),
            final(self).ecs.spec_record(r.spec_entity_id()).skin
                == crate::entities::spec_last_skin(components@),
            forall|q: ChunkPosition|
                final(self).chunks_map.watches(r.spec_entity_id(), q) == (old(
                    self,
                ).chunks_map.watches(r.spec_entity_id(), q) || crate::positions::in_window(
                    q,
                    position.spec_chunk_position(),
                    CHUNKS_DISTANCE as int,
                )),
            final(self).slug == old(self).slug,
    {
        let ghost all_c = components@;
        let mut tag: Option<EntityTagComponent> = None;
        let mut skin: Option<EntitySkinComponent> = None;
        let mut components = components;
        let ghost mut done: int = 0;
        proof {
            assert(components@ =~= all_c.skip(0));
            assert(all_c.take(0) =~= Seq::<EntityComponent>::empty());
        }
        while components.len() > 0
            invariant
                0 <= done <= all_c.len(),
                components@ == all_c.skip(done),
                tag == crate::entities::spec_last_tag(all_c.take(done)),
                skin == crate::entities::spec_last_skin(all_c.take(done)),
            decreases components@.len(),
        {
            let c = components.remove(0);
            proof {
                assert(c == all_c[done]);
                assert(components@ =~= all_c.skip(done + 1));
                assert(all_c.take(done + 1).drop_last() =~= all_c.take(done));
                assert(all_c.take(done + 1).last() == all_c[done]);
            }
            match c {
                EntityComponent::Tag(t) => {
                    tag = t;
                },
                EntityComponent::Skin(s) => {
                    skin = s;
                },
            }
            proof {
                done = done + 1;
            }
        }
        proof {
            assert(all_c.take(done) =~= all_c);
        }
        let entity = self.ecs.spawn(position, rotation, client_id, tag, skin);
        let center = position.get_chunk_position();
        proof {
            lemma_chunk_of_bounded_position(position);
        }
        self.chunks_map.start_watching(entity, &center, CHUNKS_DISTANCE);
        WorldEntity::new(clone_string(&self.slug), entity)
    }

    /// Records a player's movement: updates its transform, and when the
    /// move crosses a chunk border, shifts the watched window and reports
    /// what was abandoned and acquired.
    pub fn player_move(
        &mut self,
        world_entity: &WorldEntity,
        position: Position,
        rotation: Rotation,
    ) -> (r: Option<ChunkChanged>)
        requires
            old(self).wf(),
            position_in_bounds(position),
            old(self).ecs.has_entity(world_entity.spec_entity_id()),
        ensures
            final(self).wf(),
            final(self).slug == old(self).slug,
            final(self).ecs.spec_record(world_entity.spec_entity_id()) == (
            crate::ecs::EntityRecord {
                position,
                rotation,
                ..old(self).ecs.spec_record(world_entity.spec_entity_id())
            }),
            forall|e2: u64| final(self).ecs.has_entity(e2) == old(self).ecs.has_entity(e2),
            forall|e2: u64|
                e2 != world_entity.spec_entity_id() && old(self).ecs.has_entity(e2)
                    ==> final(self).ecs.spec_record(e2) == old(self).ecs.spec_record(e2),
            forall|q: ChunkPosition|
                #[trigger] crate::chunk_map::chunk_loaded_at(final(self).chunks_map, q)
                    == crate::chunk_map::chunk_loaded_at(old(self).chunks_map, q),
            ({
                let e = world_entity.spec_entity_id();
                let old_chunk = old(self).ecs.spec_record(e).position.spec_chunk_position();
                let new_chunk = position.spec_chunk_position();
                match r {
                    None => old_chunk == new_chunk && final(self).chunks_map == old(
                        self,
                    ).chunks_map,
                    Some(ch) => {
                        &&& old_chunk != new_chunk
                        &&& ch.old_chunk == old_chunk
                        &&& ch.new_chunk == new_chunk
                        &&& ch.abandoned_chunks@.no_duplicates()
                        &&& ch.new_chunks@.no_duplicates()
                        &&& forall|q: ChunkPosition|
                            ch.abandoned_chunks@.contains(q) == (crate::positions::in_window(
                                q,
                                old_chunk,
                                CHUNKS_DISTANCE as int,
                            ) && !crate::positions::in_window(
                                q,
                                new_chunk,
                                CHUNKS_DISTANCE as int,
                            ))
                        &&& forall|q: ChunkPosition|
                            ch.new_chunks@.contains(q) == (crate::positions::in_window(
                                q,
                                new_chunk,
                                CHUNKS_DISTANCE as int,
                            ) && !crate::positions::in_window(
                                q,
                                old_chunk,
                                CHUNKS_DISTANCE as int,
                            ))
                        &&& forall|q: ChunkPosition|
                            final(self).chunks_map.watches(world_entity.spec_entity_id(), q) == ((
                            old(self).chunks_map.watches(world_entity.spec_entity_id(), q)
                                && !ch.abandoned_chunks@.contains(q)) || ch.new_chunks@.contains(
                                q,
                            ))
                    },
                }
            }),
    {
        let entity = world_entity.get_entity();
        let old_position = match self.ecs.get_entity(entity) {
            Some(rec) => rec.position,
            None => {
                proof {
                    assert(false);
                }
                position
            },
        };
        let old_chunk = old_position.get_chunk_position();
        let new_chunk = position.get_chunk_position();
        proof {
            lemma_chunk_of_bounded_position(old_position);
            lemma_chunk_of_bounded_position(position);
        }
        let chunk_changed = !(old_chunk.x == new_chunk.x && old_chunk.z == new_chunk.z);
        let changed: Option<ChunkChanged> = if chunk_changed {
            let ch = self.chunks_map.update_watching(
                entity,
                &old_chunk,
                &new_chunk,
                CHUNKS_DISTANCE,
            );
            Some(ch)
        } else {
            None
        };
        self.ecs.set_transform(entity, position, rotation);
        changed
    }

    /// Writes every loaded dirty column back to storage, returning the
    /// blobs for outside persistence.
    pub fn save(&mut self) -> (r: Vec<(ChunkPosition, Vec<u8>)>)
        requires
            old(self).wf(),
        ensures
            final(self).wf(),
            final(self).slug == old(self).slug,
            final(self).ecs == old(self).ecs,
            forall|p: ChunkPosition|
                crate::chunk_map::blob_keys(r@).contains(p) == (old(self).chunks_map.has_column(p)
                    && old(self).chunks_map.spec_entry(p).column.loaded && old(
                    self,
                ).chunks_map.spec_entry(p).column.dirty),
            forall|k: int|
                0 <= k < r@.len() ==> (#[trigger] r@[k]).1@ == crate::codec::chunk_bytes(
                    old(self).chunks_map.spec_entry(r@[k].0).column.sections,
                ),
            forall|p: ChunkPosition|
                final(self).chunks_map.has_column(p) == old(self).chunks_map.has_column(p),
            forall|p: ChunkPosition|
                old(self).chunks_map.has_column(p) ==> {
                    let e_new = final(self).chunks_map.spec_entry(p);
                    let e_old = old(self).chunks_map.spec_entry(p);
                    &&& e_new.position == p
                    &&& e_new.watchers == e_old.watchers
                    &&& e_new.load_state == e_old.load_state
                    &&& e_new.column == (crate::column::ChunkColumn {
                        dirty: false,
                        ..e_old.column
                    }) || e_new.column == e_old.column
                },
            forall|q: ChunkPosition|
                #[trigger] final(self).chunks_map.spec_storage_blob(q) == if old(
                    self,
                ).chunks_map.has_column(q) && old(self).chunks_map.spec_entry(q).column.loaded
                    && old(self).chunks_map.spec_entry(q).column.dirty {
                    Some(crate::codec::chunk_bytes(old(self).chunks_map.spec_entry(q).column.sections))
                } else {
                    old(self).chunks_map.spec_storage_blob(q)
                },
    {
        self.chunks_map.save()
    }

    /// Removes a player: its watched chunks are released and its entity
    /// despawned.
    pub fn despawn_player(&mut self, world_entity: &WorldEntity)
        requires
            old(self).wf(),
        ensures
            final(self).wf(),
            final(self).slug == old(self).slug,
            !final(self).ecs.has_entity(world_entity.spec_entity_id()),
            forall|q: ChunkPosition|
                !final(self).chunks_map.watches(world_entity.spec_entity_id(), q),
            forall|e2: u64, q: ChunkPosition|
                e2 != world_entity.spec_entity_id() ==> final(self).chunks_map.watches(e2, q)
                    == old(self).chunks_map.watches(e2, q),
            forall|q: ChunkPosition|
                final(self).chunks_map.has_column(q) == old(self).chunks_map.has_column(q),
            forall|q: ChunkPosition|
                old(self).chunks_map.has_column(q) ==> {
                    let e_new = final(self).chunks_map.spec_entry(q);
                    let e_old = old(self).chunks_map.spec_entry(q);
                    &&& e_new.position == q
                    &&& e_new.column == e_old.column
                    &&& e_new.load_state == e_old.load_state
                    &&& forall|e2: u64|
                        e_new.watchers@.contains(e2) == (e_old.watchers@.contains(e2) && e2
                            != world_entity.spec_entity_id())
                },
            forall|e: u64|
                e != world_entity.spec_entity_id() ==> final(self).ecs.has_entity(e) == old(
                    self,
                ).ecs.has_entity(e),
    {
        self.chunks_map.stop_watching(world_entity.get_entity());
        self.ecs.despawn(world_entity.get_entity());
    }

    /// One chunk-state update: ages, evicts and load-dispatches, running
    /// the dispatched jobs against the generator.
    pub fn update_chunks_state<G: GeneratorService>(
        &mut self,
        delta_ms: u64,
        generator: &mut G,
        runtime: &mut Runtime,
    ) -> (r: Vec<(ChunkPosition, Option<Vec<u8>>)>)
        requires
            old(self).wf(),
        ensures
            final(self).wf(),
            final(self).slug == old(self).slug,
            final(self).ecs == old(self).ecs,
            forall|p: ChunkPosition|
                crate::chunk_map::evicted_positions(r@).contains(p) == (old(
                    self,
                ).chunks_map.has_column(p) && crate::chunk_map::evict_cond(
                    old(self).chunks_map.spec_entry(p),
                )),
            forall|k: int|
                0 <= k < r@.len() ==> crate::chunk_map::evicted_blob_ok(
                    old(self).chunks_map.spec_entry((#[trigger] r@[k]).0),
                    r@[k].1,
                ),
            old(runtime).spec_is_stopped() ==> final(runtime).spec_is_stopped(),
            forall|p: ChunkPosition|
                final(self).chunks_map.has_column(p) == (old(self).chunks_map.has_column(p)
                    && !crate::chunk_map::evict_cond(old(self).chunks_map.spec_entry(p))),
            forall|p: ChunkPosition|
                #[trigger] final(self).chunks_map.has_column(p) ==> {
                    let e_mid = crate::chunk_map::ticked_entry(
                        old(self).chunks_map.spec_entry(p),
                        delta_ms,
                    );
                    let e_new = final(self).chunks_map.spec_entry(p);
                    &&& (!(old(self).chunks_map.spec_entry(p).load_state is Pending) ==> e_new
                        == e_mid)
                    &&& (old(self).chunks_map.spec_entry(p).load_state is Pending ==> ((
                    final(runtime).spec_is_stopped() && e_new == e_mid)
                        || ChunkMap::loaded_entry_ok(
                        e_mid,
                        e_new,
                        old(self).chunks_map.spec_storage_blob(p),
                    )))
                },
            forall|q: ChunkPosition|
                #[trigger] final(self).chunks_map.spec_storage_blob(q) == if old(
                    self,
                ).chunks_map.has_column(q) && crate::chunk_map::evict_cond(
                    old(self).chunks_map.spec_entry(q),
                ) && old(self).chunks_map.spec_entry(q).column.loaded && old(
                    self,
                ).chunks_map.spec_entry(q).column.dirty {
                    Some(
                        crate::codec::chunk_bytes(
                            old(self).chunks_map.spec_entry(q).column.sections,
                        ),
                    )
                } else {
                    old(self).chunks_map.spec_storage_blob(q)
                },
    {
        self.chunks_map.update_chunks_state(delta_ms, generator, runtime)
    }

    /// The wire frame of the column at `pos`, when it is resident and
    /// loaded and framing succeeds.
    pub fn get_network_chunk_bytes(&self, chunk_position: &ChunkPosition) -> (r: Option<
        ServerMessage,
    >)
        requires
            self.wf(),
        ensures
            !(self.chunks_map.has_column(*chunk_position) && self.chunks_map.spec_entry(
                *chunk_position,
            ).load_state is Loaded) ==> r is None,
            r matches Some(msg) ==> msg matches ServerMessage::ChunkSectionInfoEncoded {
                world_slug,
                encoded,
                chunk_position: mp,
            } && world_slug@ == self.slug@ && encoded@ == spec_frame_bytes(
                self.chunks_map.spec_entry(*chunk_position).column.sections,
            ) && mp == *chunk_position,
            r is Some <==> (self.chunks_map.has_column(*chunk_position)
                && self.chunks_map.spec_entry(*chunk_position).load_state is Loaded
                && crate::column::frame_accepted(
                self.chunks_map.spec_entry(*chunk_position).column.sections,
            )),
    {
        match self.chunks_map.get_chunk_column(chunk_position) {
            Some(column) => {
                proof {
                    crate::chunk_map::lemma_lookup(self.chunks_map, *chunk_position);
                }
                if !column.is_loaded() {
                    return None;
                }
                match column.build_network_format() {
                    Ok(msg) => Some(msg),
                    Err(_e) => None,
                }
            },
            None => None,
        }
    }
}

/// All worlds of the server, by slug.
pub struct WorldsManager {
    pub worlds: Vec<WorldManager>,
}

impl WorldsManager {
    /// Validity: slugs are unique and every world is valid.
    pub open spec fn wf(self) -> bool {
        &&& forall|i: int, j: int|
            0 <= i < j < self.worlds@.len() ==> (#[trigger] self.worlds@[i]).slug@ != (
            #[trigger] self.worlds@[j]).slug@
        &&& forall|i: int| 0 <= i < self.worlds@.len() ==> (#[trigger] self.worlds@[i]).wf()
    }

    /// Whether a world with this slug is registered.
    pub open spec fn spec_has_world(self, slug: Seq<char>) -> bool {
        exists|i: int| 0 <= i < self.worlds@.len() && (#[trigger] self.worlds@[i]).slug@ == slug
    }

    /// An empty registry.
    pub fn new() -> (r: WorldsManager)
        ensures
            r.wf(),
            r.worlds@.len() == 0,
    {
        WorldsManager { worlds: Vec::new() }
    }

    pub fn count(&self) -> (r: usize)
        ensures
            r == self.worlds@.len(),
    {
        self.worlds.len()
    }

    pub fn index(&self, i: usize) -> (r: &WorldManager)
        requires
            i < self.worlds@.len(),
        ensures
            r == self.worlds@[i as int],
    {
        &self.worlds[i]
    }

    pub fn index_mut(&mut self, i: usize) -> (r: &mut WorldManager)
        requires
            i < old(self).worlds@.len(),
        ensures
            *r == old(self).worlds@[i as int],
            final(self).worlds@ == old(self).worlds@.update(i as int, *final(r)),
    {
        &mut self.worlds[i]
    }

    /// The index of the world with this slug, if registered.
    pub fn find_world(&self, slug: &String) -> (r: Option<usize>)
        ensures
            match r {
                Some(i) => i < self.worlds@.len() && self.worlds@[i as int].slug@ == slug@
                    && self.spec_has_world(slug@),
                None => !self.spec_has_world(slug@),
            },
    {
        let n = self.worlds.len();
        let mut i: usize = 0;
        while i < n
            invariant
                n == self.worlds@.len(),
                i <= n,
                forall|j: int| 0 <= j < i ==> (#[trigger] self.worlds@[j]).slug@ != slug@,
            decreases n - i,
        {
            if crate::strutil::string_eq(&self.worlds[i].slug, slug) {
                return Some(i);
            }
            i = i + 1;
        }
        None
    }

    pub fn has_world_with_slug(&self, slug: &String) -> (r: bool)
        ensures
            r == self.spec_has_world(slug@),
    {
        self.find_world(slug).is_some()
    }

    /// Registers a fresh world under a slug; a taken slug is refused and
    /// nothing changes.
    pub fn create_world(
        &mut self,
        slug: String,
        world_generator_settings: WorldGeneratorSettings,
    ) -> (r: Result<(), String>)
        requires
            old(self).wf(),
        ensures
            final(self).wf(),
            r is Ok <==> !old(self).spec_has_world(slug@),
            r is Err ==> *final(self) == *old(self),
            r is Ok ==> {
                &&& final(self).worlds@ == old(self).worlds@.push(final(self).worlds@.last())
                &&& final(self).worlds@.last().slug@ == slug@
                &&& final(self).worlds@.last().ecs.entities@.len() == 0
                &&& final(self).worlds@.last().chunks_map.entries@.len() == 0
                &&& final(self).worlds@.last().chunks_map.generator_settings
                    == world_generator_settings
            },
    {
        if self.has_world_with_slug(&slug) {
            return Err(String::from_str("a world with this slug already exists"));
        }
        let world = WorldManager::new(slug, world_generator_settings);
        self.worlds.push(world);
        proof {
            let oldp = old(self).worlds@;
            let newp = self.worlds@;
            assert forall|i: int, j: int| 0 <= i < j < newp.len() implies (
            #[trigger] newp[i]).slug@ != (#[trigger] newp[j]).slug@ by {
                if j < oldp.len() {
                    assert(oldp[i].slug@ != oldp[j].slug@);
                } else {
                    assert(newp[i] == oldp[i]);
                    if oldp[i].slug@ == newp[j].slug@ {
                        assert(old(self).spec_has_world(newp[j].slug@));
                    }
                }
            }
            assert forall|i: int| 0 <= i < newp.len() implies (#[trigger] newp[i]).wf() by {
                if i < oldp.len() {
                    assert(newp[i] == oldp[i]);
                    assert(oldp[i].wf());
                }
            }
        }
        Ok(())
    }

    /// What saving leaves of one world against the blobs it reported:
    /// the report pairs hold exactly the loaded dirty columns with their
    /// encodings, those columns are written back to storage and cleaned,
    /// and nothing else of the world changes.
    pub open spec fn saved_world_ok(
        w_old: WorldManager,
        w_new: WorldManager,
        blobs: Seq<(ChunkPosition, Vec<u8>)>,
    ) -> bool {
        &&& w_new.slug == w_old.slug
        &&& w_new.ecs == w_old.ecs
        &&& forall|p: ChunkPosition|
            crate::chunk_map::blob_keys(blobs).contains(p) == (w_old.chunks_map.has_column(p)
                && w_old.chunks_map.spec_entry(p).column.loaded && w_old.chunks_map.spec_entry(
                p,
            ).column.dirty)
        &&& forall|k: int|
            0 <= k < blobs.len() ==> (#[trigger] blobs[k]).1@ == crate::codec::chunk_bytes(
                w_old.chunks_map.spec_entry(blobs[k].0).column.sections,
            )
        &&& forall|p: ChunkPosition|
            w_new.chunks_map.has_column(p) == w_old.chunks_map.has_column(p)
        &&& forall|p: ChunkPosition|
            w_old.chunks_map.has_column(p) ==> {
                let e_new = w_new.chunks_map.spec_entry(p);
                let e_old = w_old.chunks_map.spec_entry(p);
                &&& e_new.position == p
                &&& e_new.watchers == e_old.watchers
                &&& e_new.load_state == e_old.load_state
                &&& (e_new.column == (crate::column::ChunkColumn {
                    dirty: false,
                    ..e_old.column
                }) || e_new.column == e_old.column)
            }
        &&& forall|q: ChunkPosition|
            #[trigger] w_new.chunks_map.spec_storage_blob(q) == if w_old.chunks_map.has_column(q)
                && w_old.chunks_map.spec_entry(q).column.loaded && w_old.chunks_map.spec_entry(
                q,
            ).column.dirty {
                Some(crate::codec::chunk_bytes(w_old.chunks_map.spec_entry(q).column.sections))
            } else {
                w_old.chunks_map.spec_storage_blob(q)
            }
    }

    /// Saves every world: the result pairs each world's slug, in registry
    /// order, with exactly the blobs that world's save wrote back.
    pub fn save_all(&mut self) -> (r: Vec<(String, Vec<(ChunkPosition, Vec<u8>)>)>)
        requires
            old(self).wf(),
        ensures
            final(self).wf(),
            final(self).worlds@.len() == old(self).worlds@.len(),
            r@.len() == old(self).worlds@.len(),
            forall|i: int|
                0 <= i < final(self).worlds@.len() ==> (#[trigger] final(self).worlds@[i]).slug
                    == old(self).worlds@[i].slug,
            forall|i: int|
                0 <= i < r@.len() ==> (#[trigger] r@[i]).0@ == old(self).worlds@[i].slug@
                    && WorldsManager::saved_world_ok(
                    old(self).worlds@[i],
                    final(self).worlds@[i],
                    r@[i].1@,
                ),
    {
        let mut out: Vec<(String, Vec<(ChunkPosition, Vec<u8>)>)> = Vec::new();
        let n = self.worlds.len();
        let mut i: usize = 0;
        while i < n
            invariant
                old(self).wf(),
                n == self.worlds@.len(),
                n == old(self).worlds@.len(),
                i <= n,
                self.wf(),
                out@.len() == i,
                forall|j: int|
                    i <= j < n ==> #[trigger] self.worlds@[j] == old(self).worlds@[j],
                forall|j: int|
                    0 <= j < i ==> (#[trigger] out@[j]).0@ == old(self).worlds@[j].slug@
                        && WorldsManager::saved_world_ok(
                        old(self).worlds@[j],
                        self.worlds@[j],
                        out@[j].1@,
                    ),
            decreases n - i,
        {
            let ghost mid = *self;
            let slug = clone_string(&self.worlds[i].slug);
            let blobs = self.worlds[i].save();
            proof {
                assert forall|a: int, b: int| 0 <= a < b < self.worlds@.len() implies (
                #[trigger] self.worlds@[a]).slug@ != (#[trigger] self.worlds@[b]).slug@ by {
                    assert(self.worlds@[a].slug == mid.worlds@[a].slug);
                    assert(self.worlds@[b].slug == mid.worlds@[b].slug);
                }
                assert forall|k: int| 0 <= k < self.worlds@.len() implies (
                #[trigger] self.worlds@[k]).wf() by {
                    if k != i {
                        assert(self.worlds@[k] == mid.worlds@[k]);
                    }
                }
                assert forall|j: int|
                    i + 1 <= j < n implies #[trigger] self.worlds@[j] == old(
                    self,
                ).worlds@[j] by {
                    assert(self.worlds@[j] == mid.worlds@[j]);
                }
            }
            out.push((slug, blobs));
            i = i + 1;
        }
        proof {
            assert forall|j: int|
                0 <= j < n implies (#[trigger] self.worlds@[j]).slug == old(
                self,
            ).worlds@[j].slug by {
                assert((#[trigger] out@[j]).0@ == old(self).worlds@[j].slug@
                    && WorldsManager::saved_world_ok(
                    old(self).worlds@[j],
                    self.worlds@[j],
                    out@[j].1@,
                ));
            }
        }
        out
    }
}

} // verus!
