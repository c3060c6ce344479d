//! The per-world chunk map: every chunk column keyed by position, the
//! watcher sets that keep columns alive, the load pipeline and eviction.
//!
//! Invariants kept throughout: each position has at most one column; a
//! column with at least one watcher has a zeroed despawn timer; the
//! loaded-chunk notification queue names only loaded columns, each once;
//! and a position's load is dispatched at most once while it is resident.

use vstd::prelude::*;

use crate::chunkdata::{BlockDataInfo, ChunkData};
use crate::codec::{chunk_bytes, encode_chunk, parse_chunk};
use crate::column::ChunkColumn;
use crate::generator::{GeneratorService, WorldGeneratorSettings};
use crate::positions::{chunk_in_bounds, in_window, BlockPosition, ChunkPosition};
use crate::runtime::Runtime;

verus! {

broadcast use vstd::seq_lib::lemma_seq_contains_after_push;

/// Where a column stands in the load pipeline.
#[derive(Clone, Copy, PartialEq, Eq, Structural, Debug)]
pub enum ChunkLoadState {
    /// Created, no load dispatched yet.
    Pending,
    /// A load job is out for this position.
    Loading,
    /// Contents installed.
    Loaded,
}

/// One resident column with its watcher set and pipeline state.
pub struct ChunkMapEntry {
    pub position: ChunkPosition,
    pub column: ChunkColumn,
    pub watchers: Vec<u64>,
    pub load_state: ChunkLoadState,
}

/// Validity of one entry: a sound column standing at its key, watchers
/// listed once each, the load state in step with the column, and a zeroed
/// timer while anyone watches.
pub open spec fn entry_wf(e: ChunkMapEntry) -> bool {
    &&& e.column.wf()
    &&& e.column.chunk_position == e.position
    &&& e.watchers@.no_duplicates()
    &&& (e.load_state is Loaded) == e.column.loaded
    &&& e.watchers@.len() > 0 ==> e.column.despawn_timer_ms == 0
}

/// Whether a loaded column stands at this position.
pub open spec fn chunk_loaded_at(m: ChunkMap, q: ChunkPosition) -> bool {
    m.has_column(q) && m.spec_entry(q).load_state is Loaded
}

/// What a player-move across a chunk border changed: the windows' border
/// positions left behind and newly acquired.
pub struct ChunkChanged {
    pub old_chunk: ChunkPosition,
    pub new_chunk: ChunkPosition,
    pub abandoned_chunks: Vec<ChunkPosition>,
    pub new_chunks: Vec<ChunkPosition>,
}

/// What one map tick did: the columns evicted (with the blob written back
/// for each that was loaded and dirty) and the load jobs dispatched.
pub struct TickReport {
    pub evicted: Vec<(ChunkPosition, Option<Vec<u8>>)>,
    pub load_jobs: Vec<ChunkPosition>,
}

/// The chunk columns of one world.
pub struct ChunkMap {
    pub entries: Vec<ChunkMapEntry>,
    pub loaded_queue: Vec<ChunkPosition>,
    pub storage: Vec<(ChunkPosition, Vec<u8>)>,
    pub world_slug: String,
    pub generator_settings: WorldGeneratorSettings,
}

impl ChunkMap {
    /// The resident positions, in entry order.
    pub open spec fn spec_positions(self) -> Seq<ChunkPosition> {
        self.entries@.map_values(|e: ChunkMapEntry| e.position)
    }

    /// The stored blob keys, in order.
    pub open spec fn spec_storage_positions(self) -> Seq<ChunkPosition> {
        self.storage@.map_values(|e: (ChunkPosition, Vec<u8>)| e.0)
    }

    /// Whether a column is resident at `p`.
    pub open spec fn has_column(self, p: ChunkPosition) -> bool {
        self.spec_positions().contains(p)
    }

    /// The index of the column at `p`.
    pub open spec fn index_of(self, p: ChunkPosition) -> int {
        choose|i: int| 0 <= i < self.spec_positions().len() && self.spec_positions()[i] == p
    }

    /// The entry of the column at `p`.
    pub open spec fn spec_entry(self, p: ChunkPosition) -> ChunkMapEntry {
        self.entries@[self.index_of(p)]
    }

    /// Whether `entity` watches the column at `p`.
    pub open spec fn watches(self, entity: u64, p: ChunkPosition) -> bool {
        self.has_column(p) && self.spec_entry(p).watchers@.contains(entity)
    }

    /// The stored blob at `p`, if any.
    pub open spec fn spec_storage_blob(self, p: ChunkPosition) -> Option<Seq<u8>> {
        blob_of(self.storage@, p)
    }

    /// Validity of the whole map.
    pub open spec fn wf(self) -> bool {
        &&& self.spec_positions().no_duplicates()
        &&& forall|i: int| 0 <= i < self.entries@.len() ==> entry_wf(#[trigger] self.entries@[i])
        &&& forall|i: int|
            0 <= i < self.entries@.len() ==> (#[trigger] self.entries@[i]).column.world_slug@
                == self.world_slug@
        &&& self.loaded_queue@.no_duplicates()
        &&& forall|k: int|
            0 <= k < self.loaded_queue@.len() ==> self.has_column(#[trigger] self.loaded_queue@[k])
                && self.spec_entry(self.loaded_queue@[k]).load_state is Loaded
        &&& self.spec_storage_positions().no_duplicates()
    }

    /// A fresh map with no columns, an empty queue and empty storage.
    pub fn new(world_slug: String, generator_settings: WorldGeneratorSettings) -> (r: ChunkMap)
        ensures
            r.wf(),
            r.entries@.len() == 0,
            r.loaded_queue@.len() == 0,
            r.storage@.len() == 0,
            r.world_slug@ == world_slug@,
            r.generator_settings == generator_settings,
    {
        ChunkMap {
            entries: Vec::new(),
            loaded_queue: Vec::new(),
            storage: Vec::new(),
            world_slug,
            generator_settings,
        }
    }

    pub fn get_world_generator_settings(&self) -> (r: &WorldGeneratorSettings)
        ensures
            r == self.generator_settings,
    {
        &self.generator_settings
    }

    /// How many columns are resident.
    pub fn count(&self) -> (r: usize)
        ensures
            r == self.entries@.len(),
    {
        self.entries.len()
    }

    /// The index of the entry at `pos`, if resident.
    fn find_entry(&self, pos: &ChunkPosition) -> (r: Option<usize>)
        requires
            self.wf(),
        ensures
            match r {
                Some(i) => i < self.entries@.len() && self.entries@[i as int].position == *pos
                    && self.has_column(*pos) && self.index_of(*pos) == i,
                None => !self.has_column(*pos),
            },
    {
        let n = self.entries.len();
        let mut i: usize = 0;
        while i < n
            invariant
                self.wf(),
                n == self.entries@.len(),
                i <= n,
                forall|j: int| 0 <= j < i ==> (#[trigger] self.entries@[j]).position != *pos,
            decreases n - i,
        {
            let e = &self.entries[i];
            if e.position.x == pos.x && e.position.z == pos.z {
                proof {
                    assert(self.spec_positions()[i as int] == *pos);
                    lemma_lookup_unique(*self, *pos, i as int);
                }
                return Some(i);
            }
            i = i + 1;
        }
        proof {
            if self.has_column(*pos) {
                let k = choose|k: int|
                    0 <= k < self.spec_positions().len() && self.spec_positions()[k] == *pos;
                assert(self.entries@[k].position == *pos);
            }
        }
        None
    }

    /// The column at `pos`, if resident.
    pub fn get_chunk_column(&self, pos: &ChunkPosition) -> (r: Option<&ChunkColumn>)
        requires
            self.wf(),
        ensures
            match r {
                Some(c) => self.has_column(*pos) && *c == self.spec_entry(*pos).column,
                None => !self.has_column(*pos),
            },
    {
        match self.find_entry(pos) {
            Some(i) => Some(&self.entries[i].column),
            None => None,
        }
    }

    /// Whether the column at `pos` is resident and loaded.
    pub fn is_chunk_loaded(&self, pos: &ChunkPosition) -> (r: bool)
        requires
            self.wf(),
        ensures
            r == (self.has_column(*pos) && self.spec_entry(*pos).load_state is Loaded),
    {
        match self.find_entry(pos) {
            Some(i) => self.entries[i].column.is_loaded(),
            None => false,
        }
    }

    /// Whether `entity` watches the column at `pos` and it is loaded.
    pub fn is_watched_loaded(&self, entity: u64, pos: &ChunkPosition) -> (r: bool)
        requires
            self.wf(),
        ensures
            r == (self.watches(entity, *pos) && self.spec_entry(*pos).load_state is Loaded),
    {
        match self.find_entry(pos) {
            Some(i) => {
                let loaded = match self.entries[i].load_state {
                    ChunkLoadState::Loaded => true,
                    _ => false,
                };
                loaded && contains_u64(&self.entries[i].watchers, entity)
            },
            None => false,
        }
    }

    /// The watchers of the column at `pos`; empty when none is resident.
    pub fn get_watchers(&self, pos: &ChunkPosition) -> (r: Vec<u64>)
        requires
            self.wf(),
        ensures
            forall|e: u64| r@.contains(e) == self.watches(e, *pos),
            r@.no_duplicates(),
    {
        match self.find_entry(pos) {
            Some(i) => copy_u64_vec(&self.entries[i].watchers),
            None => Vec::new(),
        }
    }

    /// The chunk positions `entity` watches, each once.
    pub fn get_watching_chunks(&self, entity: u64) -> (r: Vec<ChunkPosition>)
        requires
            self.wf(),
        ensures
            forall|p: ChunkPosition| r@.contains(p) == self.watches(entity, p),
            r@.no_duplicates(),
    {
        let n = self.entries.len();
        let mut out: Vec<ChunkPosition> = Vec::new();
        let mut i: usize = 0;
        while i < n
            invariant
                self.wf(),
                n == self.entries@.len(),
                i <= n,
                forall|p: ChunkPosition|
                    out@.contains(p) == exists|j: int|
                        0 <= j < i && (#[trigger] self.entries@[j]).position == p && self.entries@[
                            j
                        ].watchers@.contains(entity),
                out@.no_duplicates(),
                forall|k: int|
                    0 <= k < out@.len() ==> exists|j: int|
                        0 <= j < i && (#[trigger] self.entries@[j]).position == #[trigger] out@[k],
            decreases n - i,
        {
            let has = contains_u64(&self.entries[i].watchers, entity);
            proof {
                broadcast use vstd::seq_lib::lemma_seq_contains_after_push;

                if has {
                    let p = self.entries@[i as int].position;
                    assert(!out@.contains(p)) by {
                        if out@.contains(p) {
                            let k = choose|k: int| 0 <= k < out@.len() && out@[k] == p;
                            let j = choose|j: int|
                                0 <= j < i && (#[trigger] self.entries@[j]).position == out@[k];
                            assert(self.spec_positions()[j] == p);
                            assert(self.spec_positions()[i as int] == p);
                        }
                    };
                }
            }
            if has {
                out.push(self.entries[i].position);
            }
            i = i + 1;
        }
        proof {
            assert forall|p: ChunkPosition| out@.contains(p) implies self.watches(entity, p) by {
                let j = choose|j: int|
                    0 <= j < n && (#[trigger] self.entries@[j]).position == p && self.entries@[
                        j
                    ].watchers@.contains(entity);
                assert(self.spec_positions()[j] == p);
                lemma_lookup_unique(*self, p, j);
            }
            assert forall|p: ChunkPosition| self.watches(entity, p) implies out@.contains(p) by {
                lemma_lookup(*self, p);
                let j = self.index_of(p);
                assert(self.entries@[j].position == p && self.entries@[j].watchers@.contains(
                    entity,
                ));
            }
        }
        out
    }

    /// Takes every pending loaded-chunk notice, in arrival order.
    pub fn drain_loaded_chunks(&mut self) -> (r: Vec<ChunkPosition>)
        requires
            old(self).wf(),
        ensures
            final(self).wf(),
            r@ == old(self).loaded_queue@,
            final(self).loaded_queue@.len() == 0,
            *final(self) == (ChunkMap { loaded_queue: final(self).loaded_queue, ..*old(self) }),
    {
        let mut out: Vec<ChunkPosition> = Vec::new();
        std::mem::swap(&mut out, &mut self.loaded_queue);
        out
    }
}

/// What `start_watching` leaves at one window position `q`: the entity
/// joined the watchers, the timer is zeroed, and everything else of the
/// column — or, for a fresh position, an empty pending column — stands.
pub open spec fn watched_entry_ok(
    old_m: ChunkMap,
    new_m: ChunkMap,
    entity: u64,
    q: ChunkPosition,
) -> bool {
    &&& new_m.has_column(q)
    &&& {
        let e_new = new_m.spec_entry(q);
        if old_m.has_column(q) {
            let e_old = old_m.spec_entry(q);
            &&& e_new.position == q
            &&& e_new.column == (ChunkColumn { despawn_timer_ms: 0, ..e_old.column })
            &&& e_new.load_state == e_old.load_state
            &&& forall|e2: u64|
                e_new.watchers@.contains(e2) == (e_old.watchers@.contains(e2) || e2 == entity)
        } else {
            &&& e_new.position == q
            &&& e_new.load_state is Pending
            &&& !e_new.column.loaded
            &&& e_new.column.despawn_timer_ms == 0
            &&& e_new.column.sections@.len() == 0
            &&& forall|e2: u64| e_new.watchers@.contains(e2) == (e2 == entity)
        }
    }
}

impl ChunkMap {
    /// Adds `entity` to the watchers of the column at `pos`, creating an
    /// empty pending column if none is resident, and zeroes the timer.
    fn ensure_watched(&mut self, entity: u64, pos: ChunkPosition)
        requires
            old(self).wf(),
        ensures
            final(self).wf(),
            final(self).loaded_queue == old(self).loaded_queue,
            final(self).storage == old(self).storage,
            final(self).world_slug == old(self).world_slug,
            final(self).generator_settings == old(self).generator_settings,
            forall|q: ChunkPosition|
                final(self).has_column(q) == (old(self).has_column(q) || q == pos),
            forall|q: ChunkPosition|
                q != pos && old(self).has_column(q) ==> final(self).spec_entry(q) == old(
                    self,
                ).spec_entry(q),
            watched_entry_ok(*old(self), *final(self), entity, pos),
            forall|e2: u64, q: ChunkPosition|
                e2 != entity ==> final(self).watches(e2, q) == old(self).watches(e2, q),
            forall|q: ChunkPosition|
                final(self).watches(entity, q) == (old(self).watches(entity, q) || q == pos),
    {
        let found = self.find_entry(&pos);
        match found {
            Some(i) => {
                let ghost old_m = *self;
                let entry = &mut self.entries[i];
                entry.column.set_despawn_timer(0);
                let already = contains_u64(&entry.watchers, entity);
                if !already {
                    entry.watchers.push(entity);
                }
                proof {
                    broadcast use vstd::seq_lib::lemma_seq_contains_after_push;

                    let e_new = self.entries@[i as int];
                    let e_old = old_m.entries@[i as int];
                    assert(e_new.watchers@.no_duplicates()) by {
                        if !already {
                            let s = e_old.watchers@;
                            let t = e_new.watchers@;
                            assert(t == s.push(entity));
                            assert forall|a: int, b: int|
                                0 <= a < t.len() && 0 <= b < t.len() && a != b implies t[a]
                                != t[b] by {
                                if a < s.len() && b < s.len() {
                                    assert(s[a] != s[b]);
                                } else if a == s.len() {
                                    assert(t[a] == entity && t[b] == s[b]);
                                } else {
                                    assert(t[b] == entity && t[a] == s[a]);
                                }
                            }
                        }
                    };
                    lemma_frame_update(old_m, *self, i as int);
                    assert(entry_wf(e_new));
                    assert forall|k: int| 0 <= k < self.entries@.len() implies entry_wf(
                        #[trigger] self.entries@[k],
                    ) && self.entries@[k].column.world_slug@ == self.world_slug@ by {
                        if k != i {
                            assert(self.entries@[k] == old_m.entries@[k]);
                        }
                    }
                    assert forall|k: int| 0 <= k < self.loaded_queue@.len() implies self.has_column(
                        #[trigger] self.loaded_queue@[k],
                    ) && self.spec_entry(self.loaded_queue@[k]).load_state is Loaded by {
                        let q = self.loaded_queue@[k];
                        if q == pos {
                            assert(self.spec_entry(q) == e_new);
                            assert(old_m.spec_entry(q).load_state is Loaded);
                        }
                    }
                    assert(self.wf());
                    assert forall|e2: u64, q: ChunkPosition| e2 != entity implies self.watches(
                        e2,
                        q,
                    ) == old_m.watches(e2, q) by {
                        if q != pos && old_m.has_column(q) {
                            assert(self.spec_entry(q) == old_m.spec_entry(q));
                        }
                    }
                }
            },
            None => {
                let ghost old_m = *self;
                let column = ChunkColumn::new(pos, crate::clients::clone_string(&self.world_slug));
                let mut watchers: Vec<u64> = Vec::new();
                watchers.push(entity);
                let entry = ChunkMapEntry {
                    position: pos,
                    column,
                    watchers,
                    load_state: ChunkLoadState::Pending,
                };
                self.entries.push(entry);
                proof {
                    broadcast use vstd::seq_lib::lemma_seq_contains_after_push;

                    lemma_frame_push(old_m, *self);
                    let e_new = self.entries@.last();
                    assert(entry_wf(e_new));
                    assert forall|k: int| 0 <= k < self.entries@.len() implies entry_wf(
                        #[trigger] self.entries@[k],
                    ) && self.entries@[k].column.world_slug@ == self.world_slug@ by {
                        if k < old_m.entries@.len() {
                            assert(self.entries@[k] == old_m.entries@[k]);
                        }
                    }
                    assert forall|k: int| 0 <= k < self.loaded_queue@.len() implies self.has_column(
                        #[trigger] self.loaded_queue@[k],
                    ) && self.spec_entry(self.loaded_queue@[k]).load_state is Loaded by {
                        let q = self.loaded_queue@[k];
                        assert(old_m.has_column(q));
                        assert(q != pos);
                        assert(self.spec_entry(q) == old_m.spec_entry(q));
                    }
                    assert(self.wf());
                    assert forall|e2: u64, q: ChunkPosition| e2 != entity implies self.watches(
                        e2,
                        q,
                    ) == old_m.watches(e2, q) by {
                        if q != pos && old_m.has_column(q) {
                            assert(self.spec_entry(q) == old_m.spec_entry(q));
                        }
                        if q == pos {
                            assert(self.spec_entry(q).watchers@ == seq![entity]);
                            if self.spec_entry(q).watchers@.contains(e2) {
                                assert(seq![entity][0] == entity);
                            }
                        }
                    }
                }
            },
        }
    }

    /// Removes `entity` from the watchers of the column at `pos`, if both
    /// are there; the column itself stays and keeps its state.
    fn remove_watcher(&mut self, entity: u64, pos: ChunkPosition)
        requires
            old(self).wf(),
        ensures
            final(self).wf(),
            final(self).loaded_queue == old(self).loaded_queue,
            final(self).storage == old(self).storage,
            final(self).world_slug == old(self).world_slug,
            final(self).generator_settings == old(self).generator_settings,
            forall|q: ChunkPosition| final(self).has_column(q) == old(self).has_column(q),
            forall|q: ChunkPosition|
                q != pos && old(self).has_column(q) ==> final(self).spec_entry(q) == old(
                    self,
                ).spec_entry(q),
            old(self).has_column(pos) ==> {
                let e_new = final(self).spec_entry(pos);
                let e_old = old(self).spec_entry(pos);
                &&& e_new.position == pos
                &&& e_new.column == e_old.column
                &&& e_new.load_state == e_old.load_state
                &&& forall|e2: u64|
                    e_new.watchers@.contains(e2) == (e_old.watchers@.contains(e2) && e2 != entity)
            },
            forall|e2: u64, q: ChunkPosition|
                e2 != entity ==> final(self).watches(e2, q) == old(self).watches(e2, q),
            forall|q: ChunkPosition|
                final(self).watches(entity, q) == (old(self).watches(entity, q) && q != pos),
    {
        let found = self.find_entry(&pos);
        match found {
            Some(i) => {
                let ghost old_m = *self;
                let entry = &mut self.entries[i];
                remove_u64(&mut entry.watchers, entity);
                proof {
                    let e_new = self.entries@[i as int];
                    let e_old = old_m.entries@[i as int];
                    lemma_frame_update(old_m, *self, i as int);
                    assert(entry_wf(e_new)) by {
                        assert(e_new.watchers@.len() > 0 ==> e_old.watchers@.len() > 0);
                    };
                    assert forall|k: int| 0 <= k < self.entries@.len() implies entry_wf(
                        #[trigger] self.entries@[k],
                    ) && self.entries@[k].column.world_slug@ == self.world_slug@ by {
                        if k != i {
                            assert(self.entries@[k] == old_m.entries@[k]);
                        }
                    }
                    assert forall|k: int| 0 <= k < self.loaded_queue@.len() implies self.has_column(
                        #[trigger] self.loaded_queue@[k],
                    ) && self.spec_entry(self.loaded_queue@[k]).load_state is Loaded by {
                        let q = self.loaded_queue@[k];
                        if q == pos {
                            assert(self.spec_entry(q) == e_new);
                            assert(old_m.spec_entry(q).load_state is Loaded);
                        }
                    }
                    assert(self.wf());
                    assert forall|e2: u64, q: ChunkPosition| e2 != entity implies self.watches(
                        e2,
                        q,
                    ) == old_m.watches(e2, q) by {
                        if q != pos && old_m.has_column(q) {
                            assert(self.spec_entry(q) == old_m.spec_entry(q));
                        }
                    }
                }
            },
            None => {},
        }
    }
}

/// Whether `q` lies in the square of `side` cells from `(base_x, base_z)`
/// and was already visited by a row-major scan standing at row `dz`,
/// column `dx`.
pub open spec fn scanned(
    q: ChunkPosition,
    base_x: int,
    base_z: int,
    side: int,
    dz: int,
    dx: int,
) -> bool {
    &&& base_x <= q.x < base_x + side
    &&& base_z <= q.z < base_z + side
    &&& (q.z - base_z < dz || (q.z - base_z == dz && q.x - base_x < dx))
}

/// Window membership is box membership.
pub proof fn lemma_window_box(q: ChunkPosition, center: ChunkPosition, radius: int)
    requires
        radius >= 0,
    ensures
        in_window(q, center, radius) == (center.x - radius <= q.x <= center.x + radius
            && center.z - radius <= q.z <= center.z + radius),
{
}

impl ChunkMap {
    /// Makes `entity` watch every position within Chebyshev distance
    /// `radius` of `center`: missing columns are created empty and
    /// pending, watched columns get their timer zeroed, and no other
    /// entity's view changes.
    pub fn start_watching(&mut self, entity: u64, center: &ChunkPosition, radius: u16)
        requires
            old(self).wf(),
            chunk_in_bounds(*center),
        ensures
            final(self).wf(),
            final(self).loaded_queue == old(self).loaded_queue,
            final(self).storage == old(self).storage,
            final(self).world_slug == old(self).world_slug,
            final(self).generator_settings == old(self).generator_settings,
            forall|q: ChunkPosition|
                final(self).has_column(q) == (old(self).has_column(q) || in_window(
                    q,
                    *center,
                    radius as int,
                )),
            forall|e2: u64, q: ChunkPosition|
                e2 != entity ==> final(self).watches(e2, q) == old(self).watches(e2, q),
            forall|q: ChunkPosition|
                final(self).watches(entity, q) == (old(self).watches(entity, q) || in_window(
                    q,
                    *center,
                    radius as int,
                )),
            forall|q: ChunkPosition|
                in_window(q, *center, radius as int) ==> watched_entry_ok(
                    *old(self),
                    *final(self),
                    entity,
                    q,
                ),
            forall|q: ChunkPosition|
                !in_window(q, *center, radius as int) && old(self).has_column(q)
                    ==> final(self).spec_entry(q) == old(self).spec_entry(q),
    {
        let side: u32 = 2 * (radius as u32) + 1;
        let base_x: i64 = center.x - (radius as i64);
        let base_z: i64 = center.z - (radius as i64);
        let ghost old_m = *self;
        let mut dz: u32 = 0;
        while dz < side
            invariant
                old_m.wf(),
                self.wf(),
                chunk_in_bounds(*center),
                side == 2 * (radius as int) + 1,
                base_x == center.x - radius as int,
                base_z == center.z - radius as int,
                dz <= side,
                self.loaded_queue == old_m.loaded_queue,
                self.storage == old_m.storage,
                self.world_slug == old_m.world_slug,
                self.generator_settings == old_m.generator_settings,
                forall|q: ChunkPosition|
                    self.has_column(q) == (old_m.has_column(q) || scanned(
                        q,
                        base_x as int,
                        base_z as int,
                        side as int,
                        dz as int,
                        0,
                    )),
                forall|e2: u64, q: ChunkPosition|
                    e2 != entity ==> self.watches(e2, q) == old_m.watches(e2, q),
                forall|q: ChunkPosition|
                    self.watches(entity, q) == (old_m.watches(entity, q) || scanned(
                        q,
                        base_x as int,
                        base_z as int,
                        side as int,
                        dz as int,
                        0,
                    )),
                forall|q: ChunkPosition|
                    scanned(q, base_x as int, base_z as int, side as int, dz as int, 0)
                        ==> watched_entry_ok(old_m, *self, entity, q),
                forall|q: ChunkPosition|
                    !scanned(q, base_x as int, base_z as int, side as int, dz as int, 0)
                        && old_m.has_column(q) ==> self.spec_entry(q) == old_m.spec_entry(q),
            decreases side as int - dz as int,
        {
            let z: i64 = base_z + (dz as i64);
            let mut dx: u32 = 0;
            while dx < side
                invariant
                    old_m.wf(),
                    self.wf(),
                    chunk_in_bounds(*center),
                    side == 2 * (radius as int) + 1,
                    base_x == center.x - radius as int,
                    base_z == center.z - radius as int,
                    dz < side,
                    z == base_z + dz as int,
                    dx <= side,
                    self.loaded_queue == old_m.loaded_queue,
                    self.storage == old_m.storage,
                    self.world_slug == old_m.world_slug,
                    self.generator_settings == old_m.generator_settings,
                    forall|q: ChunkPosition|
                        self.has_column(q) == (old_m.has_column(q) || scanned(
                            q,
                            base_x as int,
                            base_z as int,
                            side as int,
                            dz as int,
                            dx as int,
                        )),
                    forall|e2: u64, q: ChunkPosition|
                        e2 != entity ==> self.watches(e2, q) == old_m.watches(e2, q),
                    forall|q: ChunkPosition|
                        self.watches(entity, q) == (old_m.watches(entity, q) || scanned(
                            q,
                            base_x as int,
                            base_z as int,
                            side as int,
                            dz as int,
                            dx as int,
                        )),
                    forall|q: ChunkPosition|
                        scanned(q, base_x as int, base_z as int, side as int, dz as int, dx as int)
                            ==> watched_entry_ok(old_m, *self, entity, q),
                    forall|q: ChunkPosition|
                        !scanned(
                            q,
                            base_x as int,
                            base_z as int,
                            side as int,
                            dz as int,
                            dx as int,
                        ) && old_m.has_column(q) ==> self.spec_entry(q) == old_m.spec_entry(q),
                decreases side as int - dx as int,
            {
                let x: i64 = base_x + (dx as i64);
                let p = ChunkPosition { x, z };
                let ghost mid = *self;
                self.ensure_watched(entity, p);
                proof {
                    lemma_watch_scan_step(
                        old_m,
                        mid,
                        *self,
                        entity,
                        p,
                        base_x as int,
                        base_z as int,
                        side as int,
                        dz as int,
                        dx as int,
                    );
                }
                dx = dx + 1;
            }
            dz = dz + 1;
        }
        proof {
            assert forall|q: ChunkPosition|
                in_window(q, *center, radius as int) == scanned(
                    q,
                    base_x as int,
                    base_z as int,
                    side as int,
                    side as int,
                    0,
                ) by {
                lemma_window_box(q, *center, radius as int);
            }
        }
    }

    /// Removes `entity` from every watcher set. Columns stay resident;
    /// each that loses its last watcher now ages towards despawn.
    pub fn stop_watching(&mut self, entity: u64)
        requires
            old(self).wf(),
        ensures
            final(self).wf(),
            final(self).loaded_queue == old(self).loaded_queue,
            final(self).storage == old(self).storage,
            final(self).world_slug == old(self).world_slug,
            final(self).generator_settings == old(self).generator_settings,
            forall|q: ChunkPosition| final(self).has_column(q) == old(self).has_column(q),
            forall|q: ChunkPosition| !final(self).watches(entity, q),
            forall|e2: u64, q: ChunkPosition|
                e2 != entity ==> final(self).watches(e2, q) == old(self).watches(e2, q),
            forall|q: ChunkPosition|
                old(self).has_column(q) ==> {
                    let e_new = final(self).spec_entry(q);
                    let e_old = old(self).spec_entry(q);
                    &&& e_new.position == q
                    &&& e_new.column == e_old.column
                    &&& e_new.load_state == e_old.load_state
                    &&& forall|e2: u64|
                        e_new.watchers@.contains(e2) == (e_old.watchers@.contains(e2) && e2
                            != entity)
                },
    {
        let ghost old_m = *self;
        let n = self.entries.len();
        let mut i: usize = 0;
        while i < n
            invariant
                old_m.wf(),
                self.wf(),
                n == self.entries@.len(),
                n == old_m.entries@.len(),
                i <= n,
                self.loaded_queue == old_m.loaded_queue,
                self.storage == old_m.storage,
                self.world_slug == old_m.world_slug,
                self.generator_settings == old_m.generator_settings,
                self.spec_positions() == old_m.spec_positions(),
                forall|j: int|
                    0 <= j < n ==> (#[trigger] self.entries@[j]).position == old_m.entries@[
                        j
                    ].position && self.entries@[j].column == old_m.entries@[j].column
                        && self.entries@[j].load_state == old_m.entries@[j].load_state,
                forall|j: int, e2: u64|
                    0 <= j < i ==> #[trigger] self.entries@[j].watchers@.contains(e2) == (
                    old_m.entries@[j].watchers@.contains(e2) && e2 != entity),
                forall|j: int| i <= j < n ==> #[trigger] self.entries@[j] == old_m.entries@[j],
            decreases n - i,
        {
            let ghost mid = *self;
            let entry = &mut self.entries[i];
            remove_u64(&mut entry.watchers, entity);
            proof {
                lemma_frame_update(mid, *self, i as int);
                let e_new = self.entries@[i as int];
                let e_old = mid.entries@[i as int];
                assert(entry_wf(e_new)) by {
                    assert(e_new.watchers@.len() > 0 ==> e_old.watchers@.len() > 0);
                };
                assert forall|k: int| 0 <= k < self.entries@.len() implies entry_wf(
                    #[trigger] self.entries@[k],
                ) && self.entries@[k].column.world_slug@ == self.world_slug@ by {
                    if k != i {
                        assert(self.entries@[k] == mid.entries@[k]);
                    }
                }
                assert forall|k: int| 0 <= k < self.loaded_queue@.len() implies self.has_column(
                    #[trigger] self.loaded_queue@[k],
                ) && self.spec_entry(self.loaded_queue@[k]).load_state is Loaded by {
                    let q = self.loaded_queue@[k];
                    assert(mid.has_column(q) && mid.spec_entry(q).load_state is Loaded);
                    if q == mid.entries@[i as int].position {
                        lemma_lookup_unique(mid, q, i as int);
                        assert(self.spec_entry(q) == e_new);
                    } else {
                        assert(self.spec_entry(q) == mid.spec_entry(q));
                    }
                }
                assert(self.wf());
            }
            i = i + 1;
        }
        proof {
            assert forall|q: ChunkPosition| old_m.has_column(q) implies {
                let e_new = self.spec_entry(q);
                let e_old = old_m.spec_entry(q);
                &&& e_new.position == q
                &&& e_new.column == e_old.column
                &&& e_new.load_state == e_old.load_state
                &&& forall|e2: u64|
                    e_new.watchers@.contains(e2) == (e_old.watchers@.contains(e2) && e2 != entity)
            } by {
                lemma_lookup(old_m, q);
                let j = old_m.index_of(q);
                lemma_lookup_unique(*self, q, j);
            }
            assert forall|q: ChunkPosition| !self.watches(entity, q) by {
                if self.has_column(q) {
                    assert(old_m.has_column(q));
                }
            }
            assert forall|e2: u64, q: ChunkPosition| e2 != entity implies self.watches(e2, q)
                == old_m.watches(e2, q) by {
                if old_m.has_column(q) {
                    lemma_lookup(old_m, q);
                    lemma_lookup_unique(*self, q, old_m.index_of(q));
                }
            }
        }
    }
}

/// What leaving one position behind does to its entry: the column and its
/// pipeline state stand, only the entity is gone from the watchers.
pub open spec fn unwatched_entry_ok(
    old_m: ChunkMap,
    new_m: ChunkMap,
    entity: u64,
    q: ChunkPosition,
) -> bool {
    &&& new_m.has_column(q) == old_m.has_column(q)
    &&& old_m.has_column(q) ==> {
        let e_new = new_m.spec_entry(q);
        let e_old = old_m.spec_entry(q);
        &&& e_new.position == q
        &&& e_new.column == e_old.column
        &&& e_new.load_state == e_old.load_state
        &&& forall|e2: u64|
            e_new.watchers@.contains(e2) == (e_old.watchers@.contains(e2) && e2 != entity)
    }
}

impl ChunkMap {
    /// Moves `entity`'s watched window from around `old_center` to around
    /// `new_center`: positions only the old window covers are released,
    /// positions only the new window covers are acquired (created and
    /// load-requested as needed), and the overlap is untouched.
    pub fn update_watching(
        &mut self,
        entity: u64,
        old_center: &ChunkPosition,
        new_center: &ChunkPosition,
        radius: u16,
    ) -> (r: ChunkChanged)
        requires
            old(self).wf(),
            chunk_in_bounds(*old_center),
            chunk_in_bounds(*new_center),
        ensures
            final(self).wf(),
            final(self).loaded_queue == old(self).loaded_queue,
            final(self).storage == old(self).storage,
            final(self).world_slug == old(self).world_slug,
            final(self).generator_settings == old(self).generator_settings,
            r.old_chunk == *old_center,
            r.new_chunk == *new_center,
            forall|q: ChunkPosition|
                r.abandoned_chunks@.contains(q) == (in_window(q, *old_center, radius as int)
                    && !in_window(q, *new_center, radius as int)),
            r.abandoned_chunks@.no_duplicates(),
            forall|q: ChunkPosition|
                r.new_chunks@.contains(q) == (in_window(q, *new_center, radius as int)
                    && !in_window(q, *old_center, radius as int)),
            r.new_chunks@.no_duplicates(),
            forall|q: ChunkPosition|
                final(self).has_column(q) == (old(self).has_column(q) || (in_window(
                    q,
                    *new_center,
                    radius as int,
                ) && !in_window(q, *old_center, radius as int))),
            forall|e2: u64, q: ChunkPosition|
                e2 != entity ==> final(self).watches(e2, q) == old(self).watches(e2, q),
            forall|q: ChunkPosition|
                final(self).watches(entity, q) == ((old(self).watches(entity, q) && !(in_window(
                    q,
                    *old_center,
                    radius as int,
                ) && !in_window(q, *new_center, radius as int))) || (in_window(
                    q,
                    *new_center,
                    radius as int,
                ) && !in_window(q, *old_center, radius as int))),
            forall|q: ChunkPosition|
                in_window(q, *old_center, radius as int) && !in_window(
                    q,
                    *new_center,
                    radius as int,
                ) ==> unwatched_entry_ok(*old(self), *final(self), entity, q),
            forall|q: ChunkPosition|
                in_window(q, *new_center, radius as int) && !in_window(
                    q,
                    *old_center,
                    radius as int,
                ) ==> watched_entry_ok(*old(self), *final(self), entity, q),
            forall|q: ChunkPosition|
                !in_window(q, *old_center, radius as int) && !in_window(
                    q,
                    *new_center,
                    radius as int,
                ) && old(self).has_column(q) ==> final(self).spec_entry(q) == old(self).spec_entry(
                    q,
                ),
            forall|q: ChunkPosition|
                in_window(q, *old_center, radius as int) && in_window(
                    q,
                    *new_center,
                    radius as int,
                ) && old(self).has_column(q) ==> final(self).spec_entry(q) == old(self).spec_entry(
                    q,
                ),
            forall|q: ChunkPosition|
                #[trigger] chunk_loaded_at(*final(self), q) == chunk_loaded_at(*old(self), q),
    {
        let ghost old_m = *self;
        let abandoned_chunks = self.abandon_window(entity, old_center, new_center, radius);
        let ghost mid = *self;
        let new_chunks = self.acquire_window(entity, old_center, new_center, radius);
        proof {
            let r = radius as int;
            assert forall|q: ChunkPosition|
                in_window(q, *old_center, r) && !in_window(q, *new_center, r) implies
                unwatched_entry_ok(old_m, *self, entity, q) by {
                assert(unwatched_entry_ok(old_m, mid, entity, q));
                assert(!(in_window(q, *new_center, r) && !in_window(q, *old_center, r)));
                if mid.has_column(q) {
                    assert(self.spec_entry(q) == mid.spec_entry(q));
                }
            }
            assert forall|q: ChunkPosition|
                in_window(q, *new_center, r) && !in_window(q, *old_center, r) implies
                watched_entry_ok(old_m, *self, entity, q) by {
                assert(watched_entry_ok(mid, *self, entity, q));
                assert(!(in_window(q, *old_center, r) && !in_window(q, *new_center, r)));
                if old_m.has_column(q) {
                    assert(mid.spec_entry(q) == old_m.spec_entry(q));
                    assert(mid.has_column(q) == old_m.has_column(q));
                }
            }
            assert forall|q: ChunkPosition|
                !in_window(q, *old_center, r) && !in_window(q, *new_center, r) && old_m.has_column(
                    q,
                ) implies self.spec_entry(q) == old_m.spec_entry(q) by {
                assert(mid.spec_entry(q) == old_m.spec_entry(q));
                assert(mid.has_column(q));
            }
            assert forall|q: ChunkPosition|
                in_window(q, *old_center, r) && in_window(q, *new_center, r) && old_m.has_column(
                    q,
                ) implies self.spec_entry(q) == old_m.spec_entry(q) by {
                assert(mid.spec_entry(q) == old_m.spec_entry(q));
                assert(mid.has_column(q));
            }
            assert forall|q: ChunkPosition|
                #[trigger] chunk_loaded_at(*self, q) == chunk_loaded_at(old_m, q) by {
                if in_window(q, *old_center, r) && !in_window(q, *new_center, r) {
                    assert(unwatched_entry_ok(old_m, *self, entity, q));
                } else if in_window(q, *new_center, r) && !in_window(q, *old_center, r) {
                    assert(watched_entry_ok(old_m, *self, entity, q));
                    if !old_m.has_column(q) && self.has_column(q) {
                        assert(self.spec_entry(q).load_state is Pending);
                    }
                } else if old_m.has_column(q) {
                    assert(self.spec_entry(q) == old_m.spec_entry(q));
                }
            }
        }
        ChunkChanged {
            old_chunk: ChunkPosition { x: old_center.x, z: old_center.z },
            new_chunk: ChunkPosition { x: new_center.x, z: new_center.z },
            abandoned_chunks,
            new_chunks,
        }
    }

    /// Releases `entity`'s watch on every position the old window covers
    /// and the new one does not, returning those positions.
    fn abandon_window(
        &mut self,
        entity: u64,
        old_center: &ChunkPosition,
        new_center: &ChunkPosition,
        radius: u16,
    ) -> (r: Vec<ChunkPosition>)
        requires
            old(self).wf(),
            chunk_in_bounds(*old_center),
        ensures
            final(self).wf(),
            final(self).loaded_queue == old(self).loaded_queue,
            final(self).storage == old(self).storage,
            final(self).world_slug == old(self).world_slug,
            final(self).generator_settings == old(self).generator_settings,
            forall|q: ChunkPosition|
                r@.contains(q) == (in_window(q, *old_center, radius as int) && !in_window(
                    q,
                    *new_center,
                    radius as int,
                )),
            r@.no_duplicates(),
            forall|q: ChunkPosition| final(self).has_column(q) == old(self).has_column(q),
            forall|e2: u64, q: ChunkPosition|
                e2 != entity ==> final(self).watches(e2, q) == old(self).watches(e2, q),
            forall|q: ChunkPosition|
                final(self).watches(entity, q) == (old(self).watches(entity, q) && !(in_window(
                    q,
                    *old_center,
                    radius as int,
                ) && !in_window(q, *new_center, radius as int))),
            forall|q: ChunkPosition|
                in_window(q, *old_center, radius as int) && !in_window(
                    q,
                    *new_center,
                    radius as int,
                ) ==> unwatched_entry_ok(*old(self), *final(self), entity, q),
            forall|q: ChunkPosition|
                !(in_window(q, *old_center, radius as int) && !in_window(
                    q,
                    *new_center,
                    radius as int,
                )) && old(self).has_column(q) ==> final(self).spec_entry(q) == old(
                    self,
                ).spec_entry(q),
    {
        let side: u32 = 2 * (radius as u32) + 1;
        let base_x: i64 = old_center.x - (radius as i64);
        let base_z: i64 = old_center.z - (radius as i64);
        let ghost old_m = *self;
        let ghost rr = radius as int;
        let mut out: Vec<ChunkPosition> = Vec::new();
        let mut dz: u32 = 0;
        while dz < side
            invariant
                old_m.wf(),
                self.wf(),
                chunk_in_bounds(*old_center),
                side == 2 * rr + 1,
                rr == radius as int,
                base_x == old_center.x - rr,
                base_z == old_center.z - rr,
                dz <= side,
                self.loaded_queue == old_m.loaded_queue,
                self.storage == old_m.storage,
                self.world_slug == old_m.world_slug,
                self.generator_settings == old_m.generator_settings,
                forall|q: ChunkPosition|
                    out@.contains(q) == (scanned(
                        q,
                        base_x as int,
                        base_z as int,
                        side as int,
                        dz as int,
                        0,
                    ) && !in_window(q, *new_center, rr)),
                out@.no_duplicates(),
                forall|q: ChunkPosition| self.has_column(q) == old_m.has_column(q),
                forall|e2: u64, q: ChunkPosition|
                    e2 != entity ==> self.watches(e2, q) == old_m.watches(e2, q),
                forall|q: ChunkPosition|
                    self.watches(entity, q) == (old_m.watches(entity, q) && !(scanned(
                        q,
                        base_x as int,
                        base_z as int,
                        side as int,
                        dz as int,
                        0,
                    ) && !in_window(q, *new_center, rr))),
                forall|q: ChunkPosition|
                    scanned(q, base_x as int, base_z as int, side as int, dz as int, 0)
                        && !in_window(q, *new_center, rr) ==> unwatched_entry_ok(
                        old_m,
                        *self,
                        entity,
                        q,
                    ),
                forall|q: ChunkPosition|
                    !(scanned(q, base_x as int, base_z as int, side as int, dz as int, 0)
                        && !in_window(q, *new_center, rr)) && old_m.has_column(q)
                        ==> self.spec_entry(q) == old_m.spec_entry(q),
            decreases side as int - dz as int,
        {
            let z: i64 = base_z + (dz as i64);
            let mut dx: u32 = 0;
            while dx < side
                invariant
                    old_m.wf(),
                    self.wf(),
                    chunk_in_bounds(*old_center),
                    side == 2 * rr + 1,
                    rr == radius as int,
                    base_x == old_center.x - rr,
                    base_z == old_center.z - rr,
                    dz < side,
                    z == base_z + dz as int,
                    dx <= side,
                    self.loaded_queue == old_m.loaded_queue,
                    self.storage == old_m.storage,
                    self.world_slug == old_m.world_slug,
                    self.generator_settings == old_m.generator_settings,
                    forall|q: ChunkPosition|
                        out@.contains(q) == (scanned(
                            q,
                            base_x as int,
                            base_z as int,
                            side as int,
                            dz as int,
                            dx as int,
                        ) && !in_window(q, *new_center, rr)),
                    out@.no_duplicates(),
                    forall|q: ChunkPosition| self.has_column(q) == old_m.has_column(q),
                    forall|e2: u64, q: ChunkPosition|
                        e2 != entity ==> self.watches(e2, q) == old_m.watches(e2, q),
                    forall|q: ChunkPosition|
                        self.watches(entity, q) == (old_m.watches(entity, q) && !(scanned(
                            q,
                            base_x as int,
                            base_z as int,
                            side as int,
                            dz as int,
                            dx as int,
                        ) && !in_window(q, *new_center, rr))),
                    forall|q: ChunkPosition|
                        scanned(q, base_x as int, base_z as int, side as int, dz as int, dx as int)
                            && !in_window(q, *new_center, rr) ==> unwatched_entry_ok(
                            old_m,
                            *self,
                            entity,
                            q,
                        ),
                    forall|q: ChunkPosition|
                        !(scanned(q, base_x as int, base_z as int, side as int, dz as int, dx as int)
                            && !in_window(q, *new_center, rr)) && old_m.has_column(q)
                            ==> self.spec_entry(q) == old_m.spec_entry(q),
                decreases side as int - dx as int,
            {
                let x: i64 = base_x + (dx as i64);
                let p = ChunkPosition { x, z };
                let keep_it = in_window_exec(&p, new_center, radius);
                proof {
                    assert(!scanned(p, base_x as int, base_z as int, side as int, dz as int, dx as int));
                }
                if !keep_it {
                    let ghost mid = *self;
                    self.remove_watcher(entity, p);
                    proof {
                        broadcast use vstd::seq_lib::lemma_seq_contains_after_push;

                        assert(!out@.contains(p));
                        let t = out@.push(p);
                        assert forall|a: int, b: int|
                            0 <= a < t.len() && 0 <= b < t.len() && a != b implies t[a] != t[b] by {
                            if a < out@.len() && b < out@.len() {
                                assert(out@[a] != out@[b]);
                            } else if a == out@.len() {
                                assert(t[a] == p && t[b] == out@[b]);
                            } else {
                                assert(t[b] == p && t[a] == out@[a]);
                            }
                        }
                        assert forall|q: ChunkPosition|
                            scanned(
                                q,
                                base_x as int,
                                base_z as int,
                                side as int,
                                dz as int,
                                dx as int + 1,
                            ) && !in_window(q, *new_center, rr) implies unwatched_entry_ok(
                            old_m,
                            *self,
                            entity,
                            q,
                        ) by {
                            if q == p {
                                if old_m.has_column(p) {
                                    assert(mid.spec_entry(p) == old_m.spec_entry(p));
                                }
                            } else {
                                assert(unwatched_entry_ok(old_m, mid, entity, q));
                                if mid.has_column(q) {
                                    assert(self.spec_entry(q) == mid.spec_entry(q));
                                }
                            }
                        }
                        assert forall|q: ChunkPosition|
                            !(scanned(
                                q,
                                base_x as int,
                                base_z as int,
                                side as int,
                                dz as int,
                                dx as int + 1,
                            ) && !in_window(q, *new_center, rr)) && old_m.has_column(q) implies
                            self.spec_entry(q) == old_m.spec_entry(q) by {
                            assert(q != p);
                            assert(mid.spec_entry(q) == old_m.spec_entry(q));
                        }
                    }
                    out.push(p);
                }
                dx = dx + 1;
            }
            dz = dz + 1;
        }
        proof {
            assert forall|q: ChunkPosition|
                in_window(q, *old_center, rr) == scanned(
                    q,
                    base_x as int,
                    base_z as int,
                    side as int,
                    side as int,
                    0,
                ) by {
                lemma_window_box(q, *old_center, rr);
            }
        }
        out
    }

    /// Acquires `entity`'s watch on every position the new window covers
    /// and the old one does not, returning those positions.
    fn acquire_window(
        &mut self,
        entity: u64,
        old_center: &ChunkPosition,
        new_center: &ChunkPosition,
        radius: u16,
    ) -> (r: Vec<ChunkPosition>)
        requires
            old(self).wf(),
            chunk_in_bounds(*new_center),
        ensures
            final(self).wf(),
            final(self).loaded_queue == old(self).loaded_queue,
            final(self).storage == old(self).storage,
            final(self).world_slug == old(self).world_slug,
            final(self).generator_settings == old(self).generator_settings,
            forall|q: ChunkPosition|
                r@.contains(q) == (in_window(q, *new_center, radius as int) && !in_window(
                    q,
                    *old_center,
                    radius as int,
                )),
            r@.no_duplicates(),
            forall|q: ChunkPosition|
                final(self).has_column(q) == (old(self).has_column(q) || (in_window(
                    q,
                    *new_center,
                    radius as int,
                ) && !in_window(q, *old_center, radius as int))),
            forall|e2: u64, q: ChunkPosition|
                e2 != entity ==> final(self).watches(e2, q) == old(self).watches(e2, q),
            forall|q: ChunkPosition|
                final(self).watches(entity, q) == (old(self).watches(entity, q) || (in_window(
                    q,
                    *new_center,
                    radius as int,
                ) && !in_window(q, *old_center, radius as int))),
            forall|q: ChunkPosition|
                in_window(q, *new_center, radius as int) && !in_window(
                    q,
                    *old_center,
                    radius as int,
                ) ==> watched_entry_ok(*old(self), *final(self), entity, q),
            forall|q: ChunkPosition|
                !(in_window(q, *new_center, radius as int) && !in_window(
                    q,
                    *old_center,
                    radius as int,
                )) && old(self).has_column(q) ==> final(self).spec_entry(q) == old(
                    self,
                ).spec_entry(q),
    {
        let side: u32 = 2 * (radius as u32) + 1;
        let base_x: i64 = new_center.x - (radius as i64);
        let base_z: i64 = new_center.z - (radius as i64);
        let ghost old_m = *self;
        let ghost rr = radius as int;
        let mut out: Vec<ChunkPosition> = Vec::new();
        let mut dz: u32 = 0;
        while dz < side
            invariant
                old_m.wf(),
                self.wf(),
                chunk_in_bounds(*new_center),
                side == 2 * rr + 1,
                rr == radius as int,
                base_x == new_center.x - rr,
                base_z == new_center.z - rr,
                dz <= side,
                self.loaded_queue == old_m.loaded_queue,
                self.storage == old_m.storage,
                self.world_slug == old_m.world_slug,
                self.generator_settings == old_m.generator_settings,
                forall|q: ChunkPosition|
                    out@.contains(q) == (scanned(
                        q,
                        base_x as int,
                        base_z as int,
                        side as int,
                        dz as int,
                        0,
                    ) && !in_window(q, *old_center, rr)),
                out@.no_duplicates(),
                forall|q: ChunkPosition|
                    self.has_column(q) == (old_m.has_column(q) || (scanned(
                        q,
                        base_x as int,
                        base_z as int,
                        side as int,
                        dz as int,
                        0,
                    ) && !in_window(q, *old_center, rr))),
                forall|e2: u64, q: ChunkPosition|
                    e2 != entity ==> self.watches(e2, q) == old_m.watches(e2, q),
                forall|q: ChunkPosition|
                    self.watches(entity, q) == (old_m.watches(entity, q) || (scanned(
                        q,
                        base_x as int,
                        base_z as int,
                        side as int,
                        dz as int,
                        0,
                    ) && !in_window(q, *old_center, rr))),
                forall|q: ChunkPosition|
                    scanned(q, base_x as int, base_z as int, side as int, dz as int, 0)
                        && !in_window(q, *old_center, rr) ==> watched_entry_ok(
                        old_m,
                        *self,
                        entity,
                        q,
                    ),
                forall|q: ChunkPosition|
                    !(scanned(q, base_x as int, base_z as int, side as int, dz as int, 0)
                        && !in_window(q, *old_center, rr)) && old_m.has_column(q)
                        ==> self.spec_entry(q) == old_m.spec_entry(q),
            decreases side as int - dz as int,
        {
            let z: i64 = base_z + (dz as i64);
            let mut dx: u32 = 0;
            while dx < side
                invariant
                    old_m.wf(),
                    self.wf(),
                    chunk_in_bounds(*new_center),
                    side == 2 * rr + 1,
                    rr == radius as int,
                    base_x == new_center.x - rr,
                    base_z == new_center.z - rr,
                    dz < side,
                    z == base_z + dz as int,
                    dx <= side,
                    self.loaded_queue == old_m.loaded_queue,
                    self.storage == old_m.storage,
                    self.world_slug == old_m.world_slug,
                    self.generator_settings == old_m.generator_settings,
                    forall|q: ChunkPosition|
                        out@.contains(q) == (scanned(
                            q,
                            base_x as int,
                            base_z as int,
                            side as int,
                            dz as int,
                            dx as int,
                        ) && !in_window(q, *old_center, rr)),
                    out@.no_duplicates(),
                    forall|q: ChunkPosition|
                        self.has_column(q) == (old_m.has_column(q) || (scanned(
                            q,
                            base_x as int,
                            base_z as int,
                            side as int,
                            dz as int,
                            dx as int,
                        ) && !in_window(q, *old_center, rr))),
                    forall|e2: u64, q: ChunkPosition|
                        e2 != entity ==> self.watches(e2, q) == old_m.watches(e2, q),
                    forall|q: ChunkPosition|
                        self.watches(entity, q) == (old_m.watches(entity, q) || (scanned(
                            q,
                            base_x as int,
                            base_z as int,
                            side as int,
                            dz as int,
                            dx as int,
                        ) && !in_window(q, *old_center, rr))),
                    forall|q: ChunkPosition|
                        scanned(q, base_x as int, base_z as int, side as int, dz as int, dx as int)
                            && !in_window(q, *old_center, rr) ==> watched_entry_ok(
                            old_m,
                            *self,
                            entity,
                            q,
                        ),
                    forall|q: ChunkPosition|
                        !(scanned(q, base_x as int, base_z as int, side as int, dz as int, dx as int)
                            && !in_window(q, *old_center, rr)) && old_m.has_column(q)
                            ==> self.spec_entry(q) == old_m.spec_entry(q),
                decreases side as int - dx as int,
            {
                let x: i64 = base_x + (dx as i64);
                let p = ChunkPosition { x, z };
                let skip_it = in_window_exec(&p, old_center, radius);
                proof {
                    assert(!scanned(p, base_x as int, base_z as int, side as int, dz as int, dx as int));
                }
                if !skip_it {
                    let ghost mid = *self;
                    self.ensure_watched(entity, p);
                    proof {
                        broadcast use vstd::seq_lib::lemma_seq_contains_after_push;

                        assert(!out@.contains(p));
                        let t = out@.push(p);
                        assert forall|a: int, b: int|
                            0 <= a < t.len() && 0 <= b < t.len() && a != b implies t[a] != t[b] by {
                            if a < out@.len() && b < out@.len() {
                                assert(out@[a] != out@[b]);
                            } else if a == out@.len() {
                                assert(t[a] == p && t[b] == out@[b]);
                            } else {
                                assert(t[b] == p && t[a] == out@[a]);
                            }
                        }
                        assert forall|q: ChunkPosition|
                            scanned(
                                q,
                                base_x as int,
                                base_z as int,
                                side as int,
                                dz as int,
                                dx as int + 1,
                            ) && !in_window(q, *old_center, rr) implies watched_entry_ok(
                            old_m,
                            *self,
                            entity,
                            q,
                        ) by {
                            if q == p {
                                if old_m.has_column(p) {
                                    assert(mid.spec_entry(p) == old_m.spec_entry(p));
                                    assert(mid.has_column(p));
                                }
                            } else {
                                assert(watched_entry_ok(old_m, mid, entity, q));
                                assert(mid.has_column(q));
                                assert(self.spec_entry(q) == mid.spec_entry(q));
                            }
                        }
                        assert forall|q: ChunkPosition|
                            !(scanned(
                                q,
                                base_x as int,
                                base_z as int,
                                side as int,
                                dz as int,
                                dx as int + 1,
                            ) && !in_window(q, *old_center, rr)) && old_m.has_column(q) implies
                            self.spec_entry(q) == old_m.spec_entry(q) by {
                            assert(q != p);
                            assert(mid.spec_entry(q) == old_m.spec_entry(q));
                            assert(mid.has_column(q));
                        }
                    }
                    out.push(p);
                }
                dx = dx + 1;
            }
            dz = dz + 1;
        }
        proof {
            assert forall|q: ChunkPosition|
                in_window(q, *new_center, rr) == scanned(
                    q,
                    base_x as int,
                    base_z as int,
                    side as int,
                    side as int,
                    0,
                ) by {
                lemma_window_box(q, *new_center, rr);
            }
        }
        out
    }
}

/// Whether `p` lies in the square window of `radius` around `center`.
pub fn in_window_exec(p: &ChunkPosition, center: &ChunkPosition, radius: u16) -> (r: bool)
    ensures
        r == in_window(*p, *center, radius as int),
{
    let dx: i128 = (p.x as i128) - (center.x as i128);
    let dz: i128 = (p.z as i128) - (center.z as i128);
    let dxa: i128 = if dx >= 0 { dx } else { -dx };
    let dza: i128 = if dz >= 0 { dz } else { -dz };
    dxa <= radius as i128 && dza <= radius as i128
}

/// One scan step of `start_watching`: folding `ensure_watched` at the
/// current cell into the row-major induction.
proof fn lemma_watch_scan_step(
    old_m: ChunkMap,
    mid: ChunkMap,
    new_m: ChunkMap,
    entity: u64,
    p: ChunkPosition,
    base_x: int,
    base_z: int,
    side: int,
    dz: int,
    dx: int,
)
    requires
        0 <= dz < side,
        0 <= dx < side,
        p.x == base_x + dx,
        p.z == base_z + dz,
        // mid relative to old_m: the loop invariant before this cell
        forall|q: ChunkPosition|
            mid.has_column(q) == (old_m.has_column(q) || scanned(
                q,
                base_x,
                base_z,
                side,
                dz,
                dx,
            )),
        forall|e2: u64, q: ChunkPosition|
            e2 != entity ==> mid.watches(e2, q) == old_m.watches(e2, q),
        forall|q: ChunkPosition|
            mid.watches(entity, q) == (old_m.watches(entity, q) || scanned(
                q,
                base_x,
                base_z,
                side,
                dz,
                dx,
            )),
        forall|q: ChunkPosition|
            scanned(q, base_x, base_z, side, dz, dx) ==> watched_entry_ok(old_m, mid, entity, q),
        forall|q: ChunkPosition|
            !scanned(q, base_x, base_z, side, dz, dx) && old_m.has_column(q) ==> mid.spec_entry(q)
                == old_m.spec_entry(q),
        // new_m relative to mid: what ensure_watched(entity, p) did
        forall|q: ChunkPosition| new_m.has_column(q) == (mid.has_column(q) || q == p),
        forall|q: ChunkPosition|
            q != p && mid.has_column(q) ==> new_m.spec_entry(q) == mid.spec_entry(q),
        watched_entry_ok(mid, new_m, entity, p),
        forall|e2: u64, q: ChunkPosition|
            e2 != entity ==> new_m.watches(e2, q) == mid.watches(e2, q),
        forall|q: ChunkPosition|
            new_m.watches(entity, q) == (mid.watches(entity, q) || q == p),
    ensures
        forall|q: ChunkPosition|
            new_m.has_column(q) == (old_m.has_column(q) || scanned(
                q,
                base_x,
                base_z,
                side,
                dz,
                dx + 1,
            )),
        forall|e2: u64, q: ChunkPosition|
            e2 != entity ==> new_m.watches(e2, q) == old_m.watches(e2, q),
        forall|q: ChunkPosition|
            new_m.watches(entity, q) == (old_m.watches(entity, q) || scanned(
                q,
                base_x,
                base_z,
                side,
                dz,
                dx + 1,
            )),
        forall|q: ChunkPosition|
            scanned(q, base_x, base_z, side, dz, dx + 1) ==> watched_entry_ok(
                old_m,
                new_m,
                entity,
                q,
            ),
        forall|q: ChunkPosition|
            !scanned(q, base_x, base_z, side, dz, dx + 1) && old_m.has_column(q)
                ==> new_m.spec_entry(q) == old_m.spec_entry(q),
{
    assert(!scanned(p, base_x, base_z, side, dz, dx));
    assert forall|q: ChunkPosition|
        scanned(q, base_x, base_z, side, dz, dx + 1) implies watched_entry_ok(
        old_m,
        new_m,
        entity,
        q,
    ) by {
        if q == p {
            assert(!scanned(p, base_x, base_z, side, dz, dx));
            if old_m.has_column(p) {
                assert(mid.spec_entry(p) == old_m.spec_entry(p));
            }
        } else {
            assert(scanned(q, base_x, base_z, side, dz, dx));
            assert(watched_entry_ok(old_m, mid, entity, q));
            assert(mid.has_column(q));
            assert(new_m.spec_entry(q) == mid.spec_entry(q));
        }
    }
}

/// After an in-place update that keeps an entry's position, every lookup
/// stands: the position sequence is unchanged, other entries keep their
/// lookups, and the updated entry is found at its index.
pub proof fn lemma_frame_update(old_m: ChunkMap, new_m: ChunkMap, i: int)
    requires
        0 <= i < old_m.entries@.len(),
        new_m.entries@ == old_m.entries@.update(i, new_m.entries@[i]),
        new_m.entries@[i].position == old_m.entries@[i].position,
        old_m.spec_positions().no_duplicates(),
    ensures
        new_m.spec_positions() == old_m.spec_positions(),
        new_m.spec_positions().no_duplicates(),
        forall|q: ChunkPosition| new_m.has_column(q) == old_m.has_column(q),
        forall|q: ChunkPosition|
            q != old_m.entries@[i].position && old_m.has_column(q) ==> new_m.index_of(q)
                == old_m.index_of(q) && new_m.spec_entry(q) == old_m.spec_entry(q),
        new_m.has_column(old_m.entries@[i].position),
        new_m.index_of(old_m.entries@[i].position) == i,
        new_m.spec_entry(old_m.entries@[i].position) == new_m.entries@[i],
{
    assert(new_m.spec_positions() =~= old_m.spec_positions());
    let p = old_m.entries@[i].position;
    lemma_lookup_unique(new_m, p, i);
    assert forall|q: ChunkPosition|
        q != p && old_m.has_column(q) implies new_m.index_of(q) == old_m.index_of(q)
        && new_m.spec_entry(q) == old_m.spec_entry(q) by {
        lemma_lookup(old_m, q);
        let j = old_m.index_of(q);
        assert(j != i);
        assert(new_m.entries@[j] == old_m.entries@[j]);
        lemma_lookup_unique(new_m, q, j);
    }
}

/// After pushing an entry at a fresh position, every lookup stands: old
/// entries keep theirs, and the new entry is found at the end.
pub proof fn lemma_frame_push(old_m: ChunkMap, new_m: ChunkMap)
    requires
        old_m.spec_positions().no_duplicates(),
        new_m.entries@.len() == old_m.entries@.len() + 1,
        new_m.entries@ == old_m.entries@.push(new_m.entries@.last()),
        !old_m.has_column(new_m.entries@.last().position),
    ensures
        new_m.spec_positions() == old_m.spec_positions().push(new_m.entries@.last().position),
        new_m.spec_positions().no_duplicates(),
        forall|q: ChunkPosition|
            new_m.has_column(q) == (old_m.has_column(q) || q == new_m.entries@.last().position),
        forall|q: ChunkPosition|
            q != new_m.entries@.last().position && old_m.has_column(q) ==> new_m.index_of(q)
                == old_m.index_of(q) && new_m.spec_entry(q) == old_m.spec_entry(q),
        new_m.has_column(new_m.entries@.last().position),
        new_m.index_of(new_m.entries@.last().position) == old_m.entries@.len(),
        new_m.spec_entry(new_m.entries@.last().position) == new_m.entries@.last(),
{
    broadcast use vstd::seq_lib::lemma_seq_contains_after_push;

    let p = new_m.entries@.last().position;
    let n = old_m.entries@.len();
    assert(new_m.spec_positions() =~= old_m.spec_positions().push(p));
    assert(new_m.spec_positions().no_duplicates()) by {
        let s = old_m.spec_positions();
        let t = new_m.spec_positions();
        assert forall|a: int, b: int|
            0 <= a < t.len() && 0 <= b < t.len() && a != b implies t[a] != t[b] by {
            if a < s.len() && b < s.len() {
                assert(s[a] != s[b]);
            } else if a == s.len() {
                assert(t[a] == p && t[b] == s[b]);
                if t[b] == p {
                    assert(s.contains(p));
                }
            } else {
                assert(t[b] == p && t[a] == s[a]);
                if t[a] == p {
                    assert(s.contains(p));
                }
            }
        }
    };
    lemma_lookup_unique(new_m, p, n as int);
    assert forall|q: ChunkPosition|
        q != p && old_m.has_column(q) implies new_m.index_of(q) == old_m.index_of(q)
        && new_m.spec_entry(q) == old_m.spec_entry(q) by {
        lemma_lookup(old_m, q);
        let j = old_m.index_of(q);
        assert(new_m.entries@[j] == old_m.entries@[j]);
        lemma_lookup_unique(new_m, q, j);
    }
    assert forall|q: ChunkPosition|
        new_m.has_column(q) implies (old_m.has_column(q) || q == p) by {
        lemma_lookup(new_m, q);
        let j = new_m.index_of(q);
        if j < n {
            assert(old_m.spec_positions()[j] == q);
        }
    }
}

/// Removes one entity id from a list, preserving order and uniqueness.
fn remove_u64(list: &mut Vec<u64>, x: u64)
    requires
        old(list)@.no_duplicates(),
    ensures
        final(list)@.no_duplicates(),
        forall|e: u64| final(list)@.contains(e) == (old(list)@.contains(e) && e != x),
        final(list)@.len() > 0 ==> old(list)@.len() > 0,
{
    let mut kept: Vec<u64> = Vec::new();
    let n = list.len();
    let mut i: usize = 0;
    while i < n
        invariant
            old(list)@.no_duplicates(),
            *list == *old(list),
            n == list@.len(),
            i <= n,
            forall|e: u64|
                kept@.contains(e) == (old(list)@.take(i as int).contains(e) && e != x),
            kept@.no_duplicates(),
        decreases n - i,
    {
        let v = list[i];
        proof {
            broadcast use vstd::seq_lib::lemma_seq_contains_after_push;

            let s = old(list)@;
            let taken = s.take(i as int);
            assert(taken.push(v) =~= s.take(i as int + 1));
            assert(!taken.contains(v)) by {
                if taken.contains(v) {
                    let k = choose|k: int| 0 <= k < taken.len() && taken[k] == v;
                    assert(s[k] == v && s[i as int] == v);
                    assert(s[k] != s[i as int]);
                }
            };
            assert(!kept@.contains(v));
            if v != x {
                let t = kept@.push(v);
                assert forall|a: int, b: int|
                    0 <= a < t.len() && 0 <= b < t.len() && a != b implies t[a] != t[b] by {
                    if a < kept@.len() && b < kept@.len() {
                        assert(kept@[a] != kept@[b]);
                    } else if a == kept@.len() {
                        assert(t[a] == v && t[b] == kept@[b]);
                    } else {
                        assert(t[b] == v && t[a] == kept@[a]);
                    }
                }
            }
        }
        if v != x {
            kept.push(v);
        }
        i = i + 1;
    }
    proof {
        assert(old(list)@.take(n as int) =~= old(list)@);
        if kept@.len() > 0 {
            assert(kept@.contains(kept@[0]));
        }
    }
    *list = kept;
}

/// A resident position's index is unique: looking its position up yields
/// exactly this index.
pub proof fn lemma_lookup_unique(m: ChunkMap, p: ChunkPosition, i: int)
    requires
        m.spec_positions().no_duplicates(),
        0 <= i < m.entries@.len(),
        m.entries@[i].position == p,
    ensures
        m.has_column(p),
        m.index_of(p) == i,
        m.spec_entry(p) == m.entries@[i],
{
    assert(m.spec_positions()[i] == p);
    let j = m.index_of(p);
    assert(m.spec_positions()[j] == p);
    if i != j {
        assert(m.spec_positions()[i] != m.spec_positions()[j]);
    }
}

/// A resident position's lookup lands on an entry bearing it.
pub proof fn lemma_lookup(m: ChunkMap, p: ChunkPosition)
    requires
        m.has_column(p),
    ensures
        0 <= m.index_of(p) < m.entries@.len(),
        m.entries@[m.index_of(p)].position == p,
{
    let k = choose|k: int|
        0 <= k < m.spec_positions().len() && m.spec_positions()[k] == p;
    assert(m.spec_positions()[k] == p);
    assert(0 <= m.index_of(p) < m.spec_positions().len() && m.spec_positions()[m.index_of(p)]
        == p);
}

/// Whether a tick evicts this entry: nobody watches it and its idle
/// timer has reached the despawn threshold.
pub open spec fn evict_cond(e: ChunkMapEntry) -> bool {
    e.watchers@.len() == 0 && e.column.despawn_timer_ms >= crate::CHUNKS_DESPAWN_TIMER_MS
}

/// The positions named in an eviction report, in order.
pub open spec fn evicted_positions(s: Seq<(ChunkPosition, Option<Vec<u8>>)>) -> Seq<
    ChunkPosition,
> {
    s.map_values(|e: (ChunkPosition, Option<Vec<u8>>)| e.0)
}

/// Whether an eviction report entry carries the right write-back: the
/// encoded sections for a loaded dirty column, nothing otherwise.
pub open spec fn evicted_blob_ok(e_old: ChunkMapEntry, blob: Option<Vec<u8>>) -> bool {
    if e_old.column.loaded && e_old.column.dirty {
        blob matches Some(b) && b@ == chunk_bytes(e_old.column.sections)
    } else {
        blob is None
    }
}

impl ChunkMap {
    /// Evicts every column whose idle timer has reached the threshold,
    /// writing loaded dirty ones back to storage first, and drops evicted
    /// positions from the loaded-chunk queue.
    #[verifier::rlimit(100)]
    fn evict_phase(&mut self) -> (r: Vec<(ChunkPosition, Option<Vec<u8>>)>)
        requires
            old(self).wf(),
        ensures
            final(self).wf(),
            final(self).world_slug == old(self).world_slug,
            final(self).generator_settings == old(self).generator_settings,
            forall|p: ChunkPosition|
                evicted_positions(r@).contains(p) == (old(self).has_column(p) && evict_cond(
                    old(self).spec_entry(p),
                )),
            evicted_positions(r@).no_duplicates(),
            forall|k: int|
                0 <= k < r@.len() ==> evicted_blob_ok(
                    old(self).spec_entry((#[trigger] r@[k]).0),
                    r@[k].1,
                ),
            forall|p: ChunkPosition|
                final(self).has_column(p) == (old(self).has_column(p) && !evict_cond(
                    old(self).spec_entry(p),
                )),
            forall|p: ChunkPosition|
                final(self).has_column(p) ==> final(self).spec_entry(p) == old(self).spec_entry(
                    p,
                ),
            forall|q: ChunkPosition|
                final(self).loaded_queue@.contains(q) == (old(self).loaded_queue@.contains(q)
                    && final(self).has_column(q)),
            forall|q: ChunkPosition|
                #[trigger] final(self).spec_storage_blob(q) == if old(self).has_column(q)
                    && evict_cond(old(self).spec_entry(q)) && old(self).spec_entry(
                    q,
                ).column.loaded && old(self).spec_entry(q).column.dirty {
                    Some(chunk_bytes(old(self).spec_entry(q).column.sections))
                } else {
                    old(self).spec_storage_blob(q)
                },
    {
        let ghost old_m = *self;
        let mut rest: Vec<ChunkMapEntry> = Vec::new();
        std::mem::swap(&mut rest, &mut self.entries);
        let ghost orig = rest@;
        let mut evicted: Vec<(ChunkPosition, Option<Vec<u8>>)> = Vec::new();
        let n = rest.len();
        let mut c: usize = 0;
        while c < n
            invariant
                old_m.wf(),
                orig == old_m.entries@,
                n == orig.len(),
                c <= n,
                rest@ == orig.skip(c as int),
                self.loaded_queue == old_m.loaded_queue,
                self.world_slug == old_m.world_slug,
                self.generator_settings == old_m.generator_settings,
                blob_keys(self.storage@).no_duplicates(),
                forall|k: int|
                    0 <= k < self.entries@.len() ==> #[trigger] self.entries@[k] == old_m.spec_entry(
                        self.entries@[k].position,
                    ) && old_m.has_column(self.entries@[k].position) && !evict_cond(
                        self.entries@[k],
                    ) && old_m.index_of(self.entries@[k].position) < c,
                forall|p: ChunkPosition|
                    (old_m.has_column(p) && old_m.index_of(p) < c && !evict_cond(
                        old_m.spec_entry(p),
                    )) ==> self.spec_positions().contains(p),
                self.spec_positions().no_duplicates(),
                forall|k: int|
                    0 <= k < evicted@.len() ==> old_m.has_column((#[trigger] evicted@[k]).0)
                        && evict_cond(old_m.spec_entry(evicted@[k].0)) && old_m.index_of(
                        evicted@[k].0,
                    ) < c && evicted_blob_ok(old_m.spec_entry(evicted@[k].0), evicted@[k].1),
                forall|p: ChunkPosition|
                    (old_m.has_column(p) && old_m.index_of(p) < c && evict_cond(
                        old_m.spec_entry(p),
                    )) ==> evicted_positions(evicted@).contains(p),
                evicted_positions(evicted@).no_duplicates(),
                forall|q: ChunkPosition|
                    #[trigger] blob_of(self.storage@, q) == if old_m.has_column(q)
                        && old_m.index_of(q) < c && evict_cond(old_m.spec_entry(q))
                        && old_m.spec_entry(q).column.loaded && old_m.spec_entry(
                        q,
                    ).column.dirty {
                        Some(chunk_bytes(old_m.spec_entry(q).column.sections))
                    } else {
                        blob_of(old_m.storage@, q)
                    },
            decreases n - c,
        {
            let e = rest.remove(0);
            proof {
                assert(e == orig[c as int]);
                assert(rest@ =~= orig.skip(c as int + 1));
                lemma_lookup_unique(old_m, e.position, c as int);
            }
            let ghost p = e.position;
            let cond = e.watchers.len() == 0 && e.column.is_for_despawn(
                crate::CHUNKS_DESPAWN_TIMER_MS,
            );
            if cond {
                let blob_opt: Option<Vec<u8>> = if e.column.is_loaded() && e.column.dirty {
                    let bytes = encode_chunk(e.column.get_sections());
                    let bytes_again = encode_chunk(e.column.get_sections());
                    storage_put(&mut self.storage, e.position, bytes);
                    Some(bytes_again)
                } else {
                    None
                };
                proof {
                    broadcast use vstd::seq_lib::lemma_seq_contains_after_push;

                    assert(!evicted_positions(evicted@).contains(p)) by {
                        if evicted_positions(evicted@).contains(p) {
                            let k = choose|k: int|
                                0 <= k < evicted@.len() && evicted_positions(evicted@)[k] == p;
                            assert(evicted@[k].0 == p);
                            assert(old_m.index_of(p) < c);
                        }
                    };
                }
                let ghost old_ev = evicted@;
                evicted.push((e.position, blob_opt));
                proof {
                    assert(evicted_positions(evicted@) =~= evicted_positions(old_ev).push(p));
                    let t = evicted_positions(evicted@);
                    let s = evicted_positions(old_ev);
                    assert forall|a: int, b: int|
                        0 <= a < t.len() && 0 <= b < t.len() && a != b implies t[a] != t[b] by {
                        if a < s.len() && b < s.len() {
                            assert(s[a] != s[b]);
                        } else if a == s.len() {
                            assert(t[a] == p && t[b] == s[b]);
                            if t[b] == p {
                                assert(s.contains(p));
                            }
                        } else {
                            assert(t[b] == p && t[a] == s[a]);
                            if t[a] == p {
                                assert(s.contains(p));
                            }
                        }
                    }
                    assert forall|q: ChunkPosition|
                        (old_m.has_column(q) && old_m.index_of(q) < c + 1 && evict_cond(
                            old_m.spec_entry(q),
                        )) implies evicted_positions(evicted@).contains(q) by {
                        if old_m.index_of(q) < c {
                            assert(evicted_positions(old_ev).contains(q));
                            let k = choose|k: int|
                                0 <= k < old_ev.len() && evicted_positions(old_ev)[k] == q;
                            assert(evicted_positions(evicted@)[k] == q);
                        } else {
                            lemma_lookup(old_m, q);
                            assert(old_m.index_of(q) == c);
                            assert(old_m.entries@[c as int].position == q);
                            assert(q == p);
                            assert(t.last() == p);
                        }
                    }
                }
            } else {
                proof {
                    assert(!self.spec_positions().contains(p)) by {
                        if self.spec_positions().contains(p) {
                            let k = choose|k: int|
                                0 <= k < self.spec_positions().len() && self.spec_positions()[k]
                                    == p;
                            assert(self.entries@[k].position == p);
                            assert(old_m.index_of(p) < c);
                        }
                    };
                }
                let ghost old_kept = self.entries@;
                self.entries.push(e);
                proof {
                    broadcast use vstd::seq_lib::lemma_seq_contains_after_push;

                    assert(self.spec_positions() =~= old_kept.map_values(
                        |en: ChunkMapEntry| en.position,
                    ).push(p));
                    let t = self.spec_positions();
                    let s = old_kept.map_values(|en: ChunkMapEntry| en.position);
                    assert forall|a: int, b: int|
                        0 <= a < t.len() && 0 <= b < t.len() && a != b implies t[a] != t[b] by {
                        if a < s.len() && b < s.len() {
                            assert(s[a] != s[b]);
                        } else if a == s.len() {
                            assert(t[a] == p && t[b] == s[b]);
                            if t[b] == p {
                                assert(s.contains(p));
                            }
                        } else {
                            assert(t[b] == p && t[a] == s[a]);
                            if t[a] == p {
                                assert(s.contains(p));
                            }
                        }
                    }
                    assert forall|q: ChunkPosition|
                        (old_m.has_column(q) && old_m.index_of(q) < c + 1 && !evict_cond(
                            old_m.spec_entry(q),
                        )) implies self.spec_positions().contains(q) by {
                        if old_m.index_of(q) < c {
                            assert(s.contains(q));
                            let k = choose|k: int| 0 <= k < s.len() && s[k] == q;
                            assert(t[k] == q);
                        } else {
                            lemma_lookup(old_m, q);
                            assert(old_m.index_of(q) == c);
                            assert(q == p);
                            assert(t.last() == p);
                        }
                    }
                }
            }
            proof {
                assert forall|q: ChunkPosition|
                    blob_of(self.storage@, q) == (if old_m.has_column(q) && old_m.index_of(q) < c
                        + 1 && evict_cond(old_m.spec_entry(q)) && old_m.spec_entry(
                        q,
                    ).column.loaded && old_m.spec_entry(q).column.dirty {
                        Some(chunk_bytes(old_m.spec_entry(q).column.sections))
                    } else {
                        blob_of(old_m.storage@, q)
                    }) by {
                    if q != p {
                        assert(old_m.has_column(q) && old_m.index_of(q) < c + 1
                            ==> old_m.index_of(q) < c) by {
                            if old_m.has_column(q) {
                                lemma_lookup(old_m, q);
                                if old_m.index_of(q) == c {
                                    assert(old_m.entries@[c as int].position == q);
                                }
                            }
                        };
                    }
                }
            }
            c = c + 1;
        }
        proof {
            assert forall|p: ChunkPosition| old_m.has_column(p) implies old_m.index_of(p)
                < n by {
                lemma_lookup(old_m, p);
            }
        }
        self.prune_queue();
        proof {
            assert forall|p: ChunkPosition| old_m.has_column(p) && !evict_cond(
                old_m.spec_entry(p),
            ) implies self.spec_entry(p) == old_m.spec_entry(p) && self.has_column(p) by {
                let k = choose|k: int|
                    0 <= k < self.spec_positions().len() && self.spec_positions()[k] == p;
                assert(self.entries@[k].position == p);
                assert(self.entries@[k] == old_m.spec_entry(p));
                lemma_lookup_unique(*self, p, k);
            }
            assert forall|p: ChunkPosition| self.has_column(p) implies old_m.has_column(p)
                && !evict_cond(old_m.spec_entry(p)) by {
                let k = choose|k: int|
                    0 <= k < self.spec_positions().len() && self.spec_positions()[k] == p;
                assert(self.entries@[k].position == p);
            }
            assert forall|k: int| 0 <= k < self.entries@.len() implies entry_wf(
                #[trigger] self.entries@[k],
            ) && self.entries@[k].column.world_slug@ == self.world_slug@ by {
                let p = self.entries@[k].position;
                lemma_lookup(old_m, p);
                assert(old_m.entries@[old_m.index_of(p)] == old_m.spec_entry(p));
            }
            assert forall|k: int| 0 <= k < self.loaded_queue@.len() implies self.has_column(
                #[trigger] self.loaded_queue@[k],
            ) && self.spec_entry(self.loaded_queue@[k]).load_state is Loaded by {
                let q = self.loaded_queue@[k];
                assert(self.loaded_queue@.contains(q));
                assert(old_m.loaded_queue@.contains(q));
                assert(old_m.spec_entry(q).load_state is Loaded);
            }
            assert(self.wf());
        }
        evicted
    }

    /// Drops every loaded-chunk notice whose column is no longer
    /// resident; the rest keep their order.
    fn prune_queue(&mut self)
        requires
            old(self).loaded_queue@.no_duplicates(),
        ensures
            *final(self) == (ChunkMap { loaded_queue: final(self).loaded_queue, ..*old(self) }),
            forall|q: ChunkPosition|
                #[trigger] final(self).loaded_queue@.contains(q) == (old(
                    self,
                ).loaded_queue@.contains(q) && final(self).has_column(q)),
            final(self).loaded_queue@.no_duplicates(),
    {
        let mut old_queue: Vec<ChunkPosition> = Vec::new();
        std::mem::swap(&mut old_queue, &mut self.loaded_queue);
        let qn = old_queue.len();
        let mut qi: usize = 0;
        while qi < qn
            invariant
                qn == old_queue@.len(),
                old_queue@ == old(self).loaded_queue@,
                old_queue@.no_duplicates(),
                qi <= qn,
                *self == (ChunkMap { loaded_queue: self.loaded_queue, ..*old(self) }),
                forall|q: ChunkPosition|
                    #[trigger] self.loaded_queue@.contains(q) == (old_queue@.take(
                        qi as int,
                    ).contains(q) && self.has_column(q)),
                self.loaded_queue@.no_duplicates(),
            decreases qn - qi,
        {
            let q = old_queue[qi];
            let resident = has_entry_at(&self.entries, &q);
            proof {
                broadcast use vstd::seq_lib::lemma_seq_contains_after_push;

                let taken = old_queue@.take(qi as int);
                assert(taken.push(q) =~= old_queue@.take(qi as int + 1));
                assert(!taken.contains(q)) by {
                    if taken.contains(q) {
                        let k = choose|k: int| 0 <= k < taken.len() && taken[k] == q;
                        assert(old_queue@[k] == q && old_queue@[qi as int] == q);
                        assert(old_queue@[k] != old_queue@[qi as int]);
                    }
                };
                assert(!self.loaded_queue@.contains(q));
                assert(resident == self.has_column(q)) by {
                    if resident {
                        let j = choose|j: int|
                            0 <= j < self.entries@.len() && (#[trigger] self.entries@[j]).position
                                == q;
                        assert(self.spec_positions()[j] == q);
                    }
                    if self.has_column(q) {
                        let j = choose|j: int|
                            0 <= j < self.spec_positions().len() && self.spec_positions()[j] == q;
                        assert(self.entries@[j].position == q);
                    }
                };
                if resident {
                    let t = self.loaded_queue@.push(q);
                    assert forall|a: int, b: int|
                        0 <= a < t.len() && 0 <= b < t.len() && a != b implies t[a] != t[b] by {
                        if a < self.loaded_queue@.len() && b < self.loaded_queue@.len() {
                            assert(self.loaded_queue@[a] != self.loaded_queue@[b]);
                        } else if a == self.loaded_queue@.len() {
                            assert(t[a] == q && t[b] == self.loaded_queue@[b]);
                        } else {
                            assert(t[b] == q && t[a] == self.loaded_queue@[a]);
                        }
                    }
                }
            }
            if resident {
                self.loaded_queue.push(q);
            }
            qi = qi + 1;
        }
        proof {
            assert(old_queue@.take(qn as int) =~= old_queue@);
        }
    }
}

/// Whether some entry of the list stands at the given position.
fn has_entry_at(entries: &Vec<ChunkMapEntry>, pos: &ChunkPosition) -> (r: bool)
    ensures
        r == exists|j: int|
            0 <= j < entries@.len() && (#[trigger] entries@[j]).position == *pos,
{
    let n = entries.len();
    let mut i: usize = 0;
    while i < n
        invariant
            n == entries@.len(),
            i <= n,
            forall|j: int| 0 <= j < i ==> (#[trigger] entries@[j]).position != *pos,
        decreases n - i,
    {
        if entries[i].position.x == pos.x && entries[i].position.z == pos.z {
            return true;
        }
        i = i + 1;
    }
    false
}

/// Addition on timers, stuck at the maximum.
pub open spec fn sat_add(a: u64, b: u64) -> u64 {
    if a + b <= u64::MAX {
        (a + b) as u64
    } else {
        u64::MAX
    }
}

/// The entry a tick makes of a surviving one: the watcher set and the
/// contents stand, an unwatched column's timer advances by the tick, and
/// a pending column's load is dispatched.
pub open spec fn ticked_entry(e: ChunkMapEntry, delta_ms: u64) -> ChunkMapEntry {
    ChunkMapEntry {
        load_state: if e.load_state is Pending {
            ChunkLoadState::Loading
        } else {
            e.load_state
        },
        column: ChunkColumn {
            despawn_timer_ms: if e.watchers@.len() == 0 {
                sat_add(e.column.despawn_timer_ms, delta_ms)
            } else {
                e.column.despawn_timer_ms
            },
            ..e.column
        },
        ..e
    }
}

/// What a tick leaves of one surviving entry: the watcher set and the
/// contents stand; an unwatched column's timer advances by the tick; a
/// pending column's load is dispatched.
pub open spec fn ticked_entry_ok(
    e_old: ChunkMapEntry,
    e_new: ChunkMapEntry,
    delta_ms: u64,
) -> bool {
    &&& e_new.position == e_old.position
    &&& e_new.watchers == e_old.watchers
    &&& e_new.load_state == (if e_old.load_state is Pending {
        ChunkLoadState::Loading
    } else {
        e_old.load_state
    })
    &&& e_new.column == (ChunkColumn {
        despawn_timer_ms: if e_old.watchers@.len() == 0 {
            sat_add(e_old.column.despawn_timer_ms, delta_ms)
        } else {
            e_old.column.despawn_timer_ms
        },
        ..e_old.column
    })
}

impl ChunkMap {
    /// Ages every unwatched column by the tick and dispatches a load job
    /// for every column still pending, marking it loading.
    fn age_and_dispatch(&mut self, delta_ms: u64) -> (jobs: Vec<ChunkPosition>)
        requires
            old(self).wf(),
        ensures
            final(self).wf(),
            final(self).loaded_queue == old(self).loaded_queue,
            final(self).storage == old(self).storage,
            final(self).world_slug == old(self).world_slug,
            final(self).generator_settings == old(self).generator_settings,
            forall|p: ChunkPosition| final(self).has_column(p) == old(self).has_column(p),
            jobs@.no_duplicates(),
            forall|p: ChunkPosition|
                #[trigger] jobs@.contains(p) == (old(self).has_column(p) && old(self).spec_entry(
                    p,
                ).load_state is Pending),
            forall|p: ChunkPosition|
                old(self).has_column(p) ==> ticked_entry_ok(
                    old(self).spec_entry(p),
                    final(self).spec_entry(p),
                    delta_ms,
                ),
    {
        let ghost old_m = *self;
        let mut jobs: Vec<ChunkPosition> = Vec::new();
        let n = self.entries.len();
        let mut i: usize = 0;
        while i < n
            invariant
                old_m.wf(),
                self.wf(),
                n == self.entries@.len(),
                n == old_m.entries@.len(),
                i <= n,
                self.loaded_queue == old_m.loaded_queue,
                self.storage == old_m.storage,
                self.world_slug == old_m.world_slug,
                self.generator_settings == old_m.generator_settings,
                self.spec_positions() == old_m.spec_positions(),
                jobs@.no_duplicates(),
                forall|p: ChunkPosition|
                    #[trigger] jobs@.contains(p) == (old_m.has_column(p) && old_m.index_of(p) < i
                        && old_m.spec_entry(p).load_state is Pending),
                forall|j: int|
                    0 <= j < i ==> ticked_entry_ok(
                        old_m.entries@[j],
                        #[trigger] self.entries@[j],
                        delta_ms,
                    ),
                forall|j: int| i <= j < n ==> #[trigger] self.entries@[j] == old_m.entries@[j],
            decreases n - i,
        {
            let ghost mid = *self;
            let pos_i = self.entries[i].position;
            let was_pending = match self.entries[i].load_state {
                ChunkLoadState::Pending => true,
                _ => false,
            };
            let entry = &mut self.entries[i];
            if entry.watchers.len() == 0 {
                entry.column.increase_despawn_timer(delta_ms);
            }
            if was_pending {
                entry.load_state = ChunkLoadState::Loading;
            }
            proof {
                lemma_frame_update(mid, *self, i as int);
                lemma_lookup_unique(old_m, pos_i, i as int);
                let e_new = self.entries@[i as int];
                let e_old = old_m.entries@[i as int];
                assert(entry_wf(e_new)) by {
                    assert(entry_wf(e_old));
                };
                assert forall|k: int| 0 <= k < self.entries@.len() implies entry_wf(
                    #[trigger] self.entries@[k],
                ) && self.entries@[k].column.world_slug@ == self.world_slug@ by {
                    if k != i {
                        assert(self.entries@[k] == mid.entries@[k]);
                    }
                }
                assert forall|k: int| 0 <= k < self.loaded_queue@.len() implies self.has_column(
                    #[trigger] self.loaded_queue@[k],
                ) && self.spec_entry(self.loaded_queue@[k]).load_state is Loaded by {
                    let q = self.loaded_queue@[k];
                    assert(mid.has_column(q) && mid.spec_entry(q).load_state is Loaded);
                    if q == pos_i {
                        lemma_lookup_unique(mid, q, i as int);
                        assert(self.spec_entry(q) == e_new);
                        assert(mid.spec_entry(q) == mid.entries@[i as int]);
                    } else {
                        assert(self.spec_entry(q) == mid.spec_entry(q));
                    }
                }
                assert(self.wf());
            }
            if was_pending {
                let ghost old_jobs = jobs@;
                jobs.push(pos_i);
                proof {
                    assert(!old_jobs.contains(pos_i)) by {
                        if old_jobs.contains(pos_i) {
                            assert(old_m.index_of(pos_i) < i);
                        }
                    };
                    let t = jobs@;
                    assert forall|a: int, b: int|
                        0 <= a < t.len() && 0 <= b < t.len() && a != b implies t[a] != t[b] by {
                        if a < old_jobs.len() && b < old_jobs.len() {
                            assert(old_jobs[a] != old_jobs[b]);
                        } else if a == old_jobs.len() {
                            assert(t[a] == pos_i && t[b] == old_jobs[b]);
                        } else {
                            assert(t[b] == pos_i && t[a] == old_jobs[a]);
                        }
                    }
                    assert forall|p: ChunkPosition|
                        #[trigger] jobs@.contains(p) == (old_m.has_column(p) && old_m.index_of(p)
                            < i + 1 && old_m.spec_entry(p).load_state is Pending) by {
                        assert(jobs@.contains(p) == (old_jobs.contains(p) || p == pos_i));
                        if p == pos_i {
                            assert(jobs@.last() == pos_i);
                        } else if old_m.has_column(p) && old_m.index_of(p) == i {
                            lemma_lookup(old_m, p);
                            assert(old_m.entries@[i as int].position == p);
                        }
                    }
                }
            } else {
                proof {
                    assert forall|p: ChunkPosition|
                        #[trigger] jobs@.contains(p) == (old_m.has_column(p) && old_m.index_of(p)
                            < i + 1 && old_m.spec_entry(p).load_state is Pending) by {
                        if old_m.has_column(p) && old_m.index_of(p) == i {
                            lemma_lookup(old_m, p);
                            assert(old_m.entries@[i as int].position == p);
                            assert(p == pos_i);
                        }
                    }
                }
            }
            i = i + 1;
        }
        proof {
            assert forall|p: ChunkPosition| old_m.has_column(p) implies old_m.index_of(p) < n
                && ticked_entry_ok(
                old_m.spec_entry(p),
                self.spec_entry(p),
                delta_ms,
            ) by {
                lemma_lookup(old_m, p);
                let j = old_m.index_of(p);
                lemma_lookup_unique(*self, p, j);
            }
        }
        jobs
    }

    /// One map tick: columns nobody watches age; those at the despawn
    /// threshold are evicted, loaded dirty ones written back to storage
    /// first; every pending column's load job is dispatched.
    pub fn tick(&mut self, delta_ms: u64) -> (r: TickReport)
        requires
            old(self).wf(),
        ensures
            final(self).wf(),
            final(self).world_slug == old(self).world_slug,
            final(self).generator_settings == old(self).generator_settings,
            forall|p: ChunkPosition|
                evicted_positions(r.evicted@).contains(p) == (old(self).has_column(p)
                    && evict_cond(old(self).spec_entry(p))),
            evicted_positions(r.evicted@).no_duplicates(),
            forall|k: int|
                0 <= k < r.evicted@.len() ==> evicted_blob_ok(
                    old(self).spec_entry((#[trigger] r.evicted@[k]).0),
                    r.evicted@[k].1,
                ),
            forall|p: ChunkPosition|
                final(self).has_column(p) == (old(self).has_column(p) && !evict_cond(
                    old(self).spec_entry(p),
                )),
            r.load_jobs@.no_duplicates(),
            forall|p: ChunkPosition|
                #[trigger] r.load_jobs@.contains(p) == (final(self).has_column(p) && old(
                    self,
                ).spec_entry(p).load_state is Pending),
            forall|p: ChunkPosition|
                final(self).has_column(p) ==> ticked_entry_ok(
                    old(self).spec_entry(p),
                    final(self).spec_entry(p),
                    delta_ms,
                ),
            forall|q: ChunkPosition|
                final(self).loaded_queue@.contains(q) == (old(self).loaded_queue@.contains(q)
                    && final(self).has_column(q)),
            forall|q: ChunkPosition|
                #[trigger] final(self).spec_storage_blob(q) == if old(self).has_column(q)
                    && evict_cond(old(self).spec_entry(q)) && old(self).spec_entry(
                    q,
                ).column.loaded && old(self).spec_entry(q).column.dirty {
                    Some(chunk_bytes(old(self).spec_entry(q).column.sections))
                } else {
                    old(self).spec_storage_blob(q)
                },
    {
        let ghost old_m = *self;
        let evicted = self.evict_phase();
        let ghost mid = *self;
        let load_jobs = self.age_and_dispatch(delta_ms);
        proof {
            assert forall|p: ChunkPosition| self.has_column(p) implies ticked_entry_ok(
                old_m.spec_entry(p),
                self.spec_entry(p),
                delta_ms,
            ) by {
                assert(mid.has_column(p));
                assert(mid.spec_entry(p) == old_m.spec_entry(p));
            }
            assert forall|p: ChunkPosition|
                #[trigger] load_jobs@.contains(p) == (self.has_column(p) && old_m.spec_entry(
                    p,
                ).load_state is Pending) by {
                assert(load_jobs@.contains(p) == (mid.has_column(p) && mid.spec_entry(
                    p,
                ).load_state is Pending));
                if mid.has_column(p) {
                    assert(mid.spec_entry(p) == old_m.spec_entry(p));
                }
            }
            assert forall|q: ChunkPosition|
                #[trigger] self.spec_storage_blob(q) == (if old_m.has_column(q) && evict_cond(
                    old_m.spec_entry(q),
                ) && old_m.spec_entry(q).column.loaded && old_m.spec_entry(q).column.dirty {
                    Some(chunk_bytes(old_m.spec_entry(q).column.sections))
                } else {
                    old_m.spec_storage_blob(q)
                }) by {
                assert(mid.spec_storage_blob(q) == (if old_m.has_column(q) && evict_cond(
                    old_m.spec_entry(q),
                ) && old_m.spec_entry(q).column.loaded && old_m.spec_entry(q).column.dirty {
                    Some(chunk_bytes(old_m.spec_entry(q).column.sections))
                } else {
                    old_m.spec_storage_blob(q)
                }));
                assert(self.storage == mid.storage);
            }
        }
        TickReport { evicted, load_jobs }
    }
}

/// Whether generated or decoded chunk contents are acceptable: some
/// sections, and a representable count.
pub open spec fn load_result_ok(result: Result<ChunkData, String>) -> bool {
    result matches Ok(d) && d.wf() && 0 < d@.len() <= u32::MAX
}

impl ChunkMap {
    /// Applies what a load job produced for `pos`. If the column is still
    /// resident and loading, sound contents are installed exactly once
    /// and the position is announced on the loaded-chunk queue; a failed
    /// or unsound result is fatal and stops the runtime. A result for a
    /// column that was evicted or is not loading is dropped.
    pub fn apply_load_result(
        &mut self,
        pos: &ChunkPosition,
        result: Result<ChunkData, String>,
        runtime: &mut Runtime,
    )
        requires
            old(self).wf(),
        ensures
            final(self).wf(),
            final(self).storage == old(self).storage,
            final(self).world_slug == old(self).world_slug,
            final(self).generator_settings == old(self).generator_settings,
            forall|q: ChunkPosition| final(self).has_column(q) == old(self).has_column(q),
            !(old(self).has_column(*pos) && old(self).spec_entry(*pos).load_state is Loading)
                ==> *final(self) == *old(self) && *final(runtime) == *old(runtime),
            (old(self).has_column(*pos) && old(self).spec_entry(*pos).load_state is Loading
                && load_result_ok(result)) ==> {
                &&& *final(runtime) == *old(runtime)
                &&& final(self).loaded_queue@ == old(self).loaded_queue@.push(*pos)
                &&& forall|q: ChunkPosition|
                    q != *pos && old(self).has_column(q) ==> final(self).spec_entry(q) == old(
                        self,
                    ).spec_entry(q)
                &&& {
                    let e_new = final(self).spec_entry(*pos);
                    let e_old = old(self).spec_entry(*pos);
                    &&& e_new.position == *pos
                    &&& e_new.watchers == e_old.watchers
                    &&& e_new.load_state is Loaded
                    &&& e_new.column == (ChunkColumn {
                        sections: result->Ok_0,
                        loaded: true,
                        dirty: false,
                        ..e_old.column
                    })
                }
            },
            (old(self).has_column(*pos) && old(self).spec_entry(*pos).load_state is Loading
                && !load_result_ok(result)) ==> *final(self) == *old(self)
                && final(runtime).spec_is_stopped(),
    {
        let found = self.find_entry(pos);
        let i = match found {
            Some(i) => i,
            None => {
                return ;
            },
        };
        let still_loading = match self.entries[i].load_state {
            ChunkLoadState::Loading => true,
            _ => false,
        };
        if !still_loading {
            return ;
        }
        let data = match result {
            Ok(d) => d,
            Err(_e) => {
                runtime.stop();
                return ;
            },
        };
        let len = data.len();
        if len == 0 || len > u32::MAX as usize || !data.sections_complete() {
            runtime.stop();
            return ;
        }
        let ghost old_m = *self;
        let entry = &mut self.entries[i];
        entry.column.set_sections(data);
        entry.load_state = ChunkLoadState::Loaded;
        proof {
            lemma_frame_update(old_m, *self, i as int);
            lemma_lookup_unique(old_m, *pos, i as int);
            let e_new = self.entries@[i as int];
            assert(entry_wf(e_new));
            assert forall|k: int| 0 <= k < self.entries@.len() implies entry_wf(
                #[trigger] self.entries@[k],
            ) && self.entries@[k].column.world_slug@ == self.world_slug@ by {
                if k != i {
                    assert(self.entries@[k] == old_m.entries@[k]);
                }
            }
            assert(!old_m.loaded_queue@.contains(*pos)) by {
                if old_m.loaded_queue@.contains(*pos) {
                    let k = choose|k: int|
                        0 <= k < old_m.loaded_queue@.len() && old_m.loaded_queue@[k] == *pos;
                    assert(old_m.spec_entry(*pos).load_state is Loaded);
                }
            };
        }
        let ghost old_queue = self.loaded_queue@;
        self.loaded_queue.push(ChunkPosition { x: pos.x, z: pos.z });
        proof {
            let t = self.loaded_queue@;
            assert(t =~= old_m.loaded_queue@.push(*pos));
            assert forall|a: int, b: int|
                0 <= a < t.len() && 0 <= b < t.len() && a != b implies t[a] != t[b] by {
                if a < old_queue.len() && b < old_queue.len() {
                    assert(old_queue[a] != old_queue[b]);
                } else if a == old_queue.len() {
                    assert(t[a] == *pos && t[b] == old_queue[b]);
                    if t[b] == *pos {
                        assert(old_queue.contains(*pos));
                    }
                } else {
                    assert(t[b] == *pos && t[a] == old_queue[a]);
                    if t[a] == *pos {
                        assert(old_queue.contains(*pos));
                    }
                }
            }
            assert forall|k: int| 0 <= k < self.loaded_queue@.len() implies self.has_column(
                #[trigger] self.loaded_queue@[k],
            ) && self.spec_entry(self.loaded_queue@[k]).load_state is Loaded by {
                let q = self.loaded_queue@[k];
                if k < old_queue.len() {
                    assert(old_m.has_column(q) && old_m.spec_entry(q).load_state is Loaded);
                    if q == *pos {
                        assert(old_queue.contains(*pos));
                    } else {
                        assert(self.spec_entry(q) == old_m.spec_entry(q));
                    }
                } else {
                    assert(q == *pos);
                }
            }
            assert(self.wf());
        }
    }

    /// What a completed load leaves of its column entry: the contents
    /// installed loaded and clean, the watchers and timer untouched; a
    /// stored blob decodes exactly to the installed sections.
    pub open spec fn loaded_entry_ok(
        e_old: ChunkMapEntry,
        e_new: ChunkMapEntry,
        blob: Option<Seq<u8>>,
    ) -> bool {
        &&& e_new.position == e_old.position
        &&& e_new.watchers == e_old.watchers
        &&& e_new.load_state is Loaded
        &&& e_new.column == (ChunkColumn {
            sections: e_new.column.sections,
            loaded: true,
            dirty: false,
            ..e_old.column
        })
        &&& e_new.column.sections.wf()
        &&& 0 < e_new.column.sections@.len() <= u32::MAX
        &&& match blob {
            Some(b) => chunk_bytes(e_new.column.sections) == b,
            None => true,
        }
    }

    /// Runs one load job for `pos`: nothing happens on a stopped runtime;
    /// a stored blob is decoded, a decode failure being fatal; with no
    /// blob the generator supplies the contents, a generator error being
    /// fatal. Success installs the contents and announces the position.
    pub fn load_chunk<G: GeneratorService>(
        &mut self,
        pos: &ChunkPosition,
        generator: &mut G,
        runtime: &mut Runtime,
    )
        requires
            old(self).wf(),
        ensures
            final(self).wf(),
            final(self).storage == old(self).storage,
            final(self).world_slug == old(self).world_slug,
            final(self).generator_settings == old(self).generator_settings,
            forall|q: ChunkPosition| final(self).has_column(q) == old(self).has_column(q),
            old(runtime).spec_is_stopped() ==> *final(self) == *old(self) && *final(runtime)
                == *old(runtime),
            forall|q: ChunkPosition|
                q != *pos && old(self).has_column(q) ==> final(self).spec_entry(q) == old(
                    self,
                ).spec_entry(q),
            final(self).loaded_queue@ == old(self).loaded_queue@ || final(self).loaded_queue@
                == old(self).loaded_queue@.push(*pos),
            (!old(runtime).spec_is_stopped() && old(self).has_column(*pos) && old(
                self,
            ).spec_entry(*pos).load_state is Loading) ==> {
                ||| (final(runtime).spec_is_stopped() && *final(self) == *old(self))
                ||| (*final(runtime) == *old(runtime) && final(self).loaded_queue@ == old(
                    self,
                ).loaded_queue@.push(*pos) && ChunkMap::loaded_entry_ok(
                    old(self).spec_entry(*pos),
                    final(self).spec_entry(*pos),
                    old(self).spec_storage_blob(*pos),
                ))
            },
            (!old(runtime).spec_is_stopped() && old(self).has_column(*pos) && old(
                self,
            ).spec_entry(*pos).load_state is Loading) ==> forall|d: crate::chunkdata::ChunkData|
                d.wf() && 0 < d@.len() <= u32::MAX && old(self).spec_storage_blob(*pos) == Some(
                    #[trigger] chunk_bytes(d),
                ) ==> (*final(runtime) == *old(runtime) && final(self).loaded_queue@ == old(
                    self,
                ).loaded_queue@.push(*pos) && ChunkMap::loaded_entry_ok(
                    old(self).spec_entry(*pos),
                    final(self).spec_entry(*pos),
                    old(self).spec_storage_blob(*pos),
                )),
            !(old(self).has_column(*pos) && old(self).spec_entry(*pos).load_state is Loading)
                ==> *final(self) == *old(self) && *final(runtime) == *old(runtime),
    {
        if runtime.is_stopped() {
            return ;
        }
        let has_blob = match storage_get(&self.storage, pos) {
            Some(bytes) => {
                let parsed = parse_chunk(bytes);
                Some(parsed)
            },
            None => None,
        };
        match has_blob {
            Some(parsed) => {
                self.apply_load_result(pos, parsed, runtime);
            },
            None => {
                let settings = WorldGeneratorSettings {
                    method: crate::clients::clone_string(&self.generator_settings.method),
                    seed: self.generator_settings.seed,
                };
                let generated = generator.generate(ChunkPosition { x: pos.x, z: pos.z }, &settings);
                self.apply_load_result(pos, generated, runtime);
            },
        }
    }

    /// One full update of the chunk state: ticks the map, then runs every
    /// dispatched load job. Returns the eviction report so the write-backs
    /// can be persisted.
    pub fn update_chunks_state<G: GeneratorService>(
        &mut self,
        delta_ms: u64,
        generator: &mut G,
        runtime: &mut Runtime,
    ) -> (r: Vec<(ChunkPosition, Option<Vec<u8>>)>)
        requires
            old(self).wf(),
        ensures
            final(self).wf(),
            final(self).world_slug == old(self).world_slug,
            final(self).generator_settings == old(self).generator_settings,
            forall|p: ChunkPosition|
                evicted_positions(r@).contains(p) == (old(self).has_column(p) && evict_cond(
                    old(self).spec_entry(p),
                )),
            evicted_positions(r@).no_duplicates(),
            forall|k: int|
                0 <= k < r@.len() ==> evicted_blob_ok(
                    old(self).spec_entry((#[trigger] r@[k]).0),
                    r@[k].1,
                ),
            forall|p: ChunkPosition|
                final(self).has_column(p) == (old(self).has_column(p) && !evict_cond(
                    old(self).spec_entry(p),
                )),
            old(runtime).spec_is_stopped() ==> !final(runtime).spec_is_stopped() == false,
            forall|p: ChunkPosition|
                #[trigger] final(self).has_column(p) ==> {
                    let e_mid = ticked_entry(old(self).spec_entry(p), delta_ms);
                    let e_new = final(self).spec_entry(p);
                    &&& (!(old(self).spec_entry(p).load_state is Pending) ==> e_new == e_mid)
                    &&& (old(self).spec_entry(p).load_state is Pending ==> ((
                    final(runtime).spec_is_stopped() && e_new == e_mid) || ChunkMap::loaded_entry_ok(
                        e_mid,
                        e_new,
                        old(self).spec_storage_blob(p),
                    )))
                },
            forall|q: ChunkPosition|
                #[trigger] final(self).spec_storage_blob(q) == if old(self).has_column(q)
                    && evict_cond(old(self).spec_entry(q)) && old(self).spec_entry(
                    q,
                ).column.loaded && old(self).spec_entry(q).column.dirty {
                    Some(chunk_bytes(old(self).spec_entry(q).column.sections))
                } else {
                    old(self).spec_storage_blob(q)
                },
    {
        let report = self.tick(delta_ms);
        let ghost mid = *self;
        proof {
            assert forall|p: ChunkPosition| #[trigger] mid.has_column(p) implies mid.spec_entry(p)
                == ticked_entry(old(self).spec_entry(p), delta_ms) by {
                assert(ticked_entry_ok(
                    old(self).spec_entry(p),
                    mid.spec_entry(p),
                    delta_ms,
                ));
            }
        }
        let jobs = report.load_jobs;
        let n = jobs.len();
        let mut i: usize = 0;
        while i < n
            invariant
                mid.wf(),
                self.wf(),
                n == jobs@.len(),
                i <= n,
                jobs@.no_duplicates(),
                self.world_slug == old(self).world_slug,
                self.generator_settings == old(self).generator_settings,
                self.storage == mid.storage,
                forall|p: ChunkPosition|
                    self.has_column(p) == (old(self).has_column(p) && !evict_cond(
                        old(self).spec_entry(p),
                    )),
                forall|p: ChunkPosition| self.has_column(p) == mid.has_column(p),
                forall|p: ChunkPosition|
                    #[trigger] mid.has_column(p) ==> mid.spec_entry(p) == ticked_entry(
                        old(self).spec_entry(p),
                        delta_ms,
                    ),
                forall|p: ChunkPosition|
                    #[trigger] jobs@.contains(p) == (mid.has_column(p) && old(self).spec_entry(
                        p,
                    ).load_state is Pending),
                forall|p: ChunkPosition|
                    mid.has_column(p) && !jobs@.contains(p) ==> #[trigger] self.spec_entry(p)
                        == mid.spec_entry(p),
                forall|k: int|
                    i <= k < n ==> #[trigger] self.spec_entry(jobs@[k]) == mid.spec_entry(
                        jobs@[k],
                    ),
                forall|k: int|
                    0 <= k < i ==> ((runtime.spec_is_stopped() && #[trigger] self.spec_entry(
                        jobs@[k],
                    ) == mid.spec_entry(jobs@[k])) || ChunkMap::loaded_entry_ok(
                        mid.spec_entry(jobs@[k]),
                        self.spec_entry(jobs@[k]),
                        mid.spec_storage_blob(jobs@[k]),
                    )),
                old(runtime).spec_is_stopped() ==> runtime.spec_is_stopped(),
            decreases n - i,
        {
            let pos = jobs[i];
            let ghost before = *self;
            let ghost rt_before = *runtime;
            proof {
                assert(jobs@.contains(jobs@[i as int]));
                assert(self.spec_entry(pos) == mid.spec_entry(pos));
            }
            self.load_chunk(&pos, generator, runtime);
            proof {
                assert forall|k: int|
                    i + 1 <= k < n implies #[trigger] self.spec_entry(jobs@[k])
                    == mid.spec_entry(jobs@[k]) by {
                    assert(jobs@[k] != jobs@[i as int]) by {
                        if jobs@[k] == jobs@[i as int] {
                            assert(jobs@.no_duplicates());
                        }
                    };
                    assert(jobs@.contains(jobs@[k]));
                    assert(before.has_column(jobs@[k]));
                    assert(self.spec_entry(jobs@[k]) == before.spec_entry(jobs@[k]));
                }
                assert forall|p: ChunkPosition|
                    mid.has_column(p) && !jobs@.contains(p) implies #[trigger] self.spec_entry(p)
                    == mid.spec_entry(p) by {
                    if p != pos {
                        assert(before.has_column(p));
                        assert(self.spec_entry(p) == before.spec_entry(p));
                    }
                }
                assert forall|k: int|
                    0 <= k < i + 1 implies ((runtime.spec_is_stopped()
                        && #[trigger] self.spec_entry(jobs@[k]) == mid.spec_entry(jobs@[k]))
                        || ChunkMap::loaded_entry_ok(
                        mid.spec_entry(jobs@[k]),
                        self.spec_entry(jobs@[k]),
                        mid.spec_storage_blob(jobs@[k]),
                    )) by {
                    if k < i {
                        assert(jobs@[k] != jobs@[i as int]) by {
                            if jobs@[k] == jobs@[i as int] {
                                assert(jobs@.no_duplicates());
                            }
                        };
                        assert(jobs@.contains(jobs@[k]));
                        assert(before.has_column(jobs@[k]));
                        assert(self.spec_entry(jobs@[k]) == before.spec_entry(jobs@[k]));
                    } else {
                        assert(mid.spec_entry(pos).load_state is Loading);
                        if rt_before.spec_is_stopped() {
                            assert(*self == before && *runtime == rt_before);
                        } else {
                            assert(before.spec_storage_blob(pos) == mid.spec_storage_blob(pos));
                        }
                    }
                }
            }
            i = i + 1;
        }
        proof {
            assert forall|p: ChunkPosition| #[trigger] self.has_column(p) implies {
                let e_mid = ticked_entry(old(self).spec_entry(p), delta_ms);
                let e_new = self.spec_entry(p);
                &&& (!(old(self).spec_entry(p).load_state is Pending) ==> e_new == e_mid)
                &&& (old(self).spec_entry(p).load_state is Pending ==> ((runtime.spec_is_stopped()
                    && e_new == e_mid) || ChunkMap::loaded_entry_ok(
                    e_mid,
                    e_new,
                    old(self).spec_storage_blob(p),
                )))
            } by {
                assert(mid.has_column(p));
                assert(mid.spec_entry(p) == ticked_entry(old(self).spec_entry(p), delta_ms));
                assert(mid.spec_storage_blob(p) == old(self).spec_storage_blob(p)) by {
                    assert(!evict_cond(old(self).spec_entry(p)));
                };
                if old(self).spec_entry(p).load_state is Pending {
                    assert(jobs@.contains(p));
                    let k = choose|k: int| 0 <= k < jobs@.len() && jobs@[k] == p;
                    assert(self.spec_entry(jobs@[k]) == self.spec_entry(p));
                } else {
                    assert(!jobs@.contains(p));
                    assert(self.spec_entry(p) == mid.spec_entry(p));
                }
            }
            assert forall|q: ChunkPosition|
                #[trigger] self.spec_storage_blob(q) == (if old(self).has_column(q) && evict_cond(
                    old(self).spec_entry(q),
                ) && old(self).spec_entry(q).column.loaded && old(self).spec_entry(
                    q,
                ).column.dirty {
                    Some(chunk_bytes(old(self).spec_entry(q).column.sections))
                } else {
                    old(self).spec_storage_blob(q)
                }) by {
                assert(self.spec_storage_blob(q) == mid.spec_storage_blob(q));
            }
        }
        report.evicted
    }

    /// Replaces one block. Fails, leaving everything untouched, exactly
    /// when the containing column is absent or not loaded or the height
    /// does not index one of its sections; succeeds otherwise, marking
    /// the column dirty for the next save.
    pub open spec fn edited_map_ok(
        m_old: ChunkMap,
        m_new: ChunkMap,
        position: BlockPosition,
        new_block_info: Option<BlockDataInfo>,
    ) -> bool {
        let cp = position.spec_chunk_position();
        let section = crate::positions::floor_div(position.y as int, 16);
        let cell_index = (position.y % 16) * 256 + (position.z - cp.z * 16) * 16 + (position.x
            - cp.x * 16);
        &&& m_new.loaded_queue == m_old.loaded_queue
        &&& m_new.storage == m_old.storage
        &&& m_new.world_slug == m_old.world_slug
        &&& m_new.generator_settings == m_old.generator_settings
        &&& forall|q: ChunkPosition| m_new.has_column(q) == m_old.has_column(q)
        &&& forall|q: ChunkPosition|
            q != cp && m_old.has_column(q) ==> m_new.spec_entry(q) == m_old.spec_entry(q)
        &&& {
            let e_new = m_new.spec_entry(cp);
            let e_old = m_old.spec_entry(cp);
            &&& e_new.position == cp
            &&& e_new.watchers == e_old.watchers
            &&& e_new.load_state == e_old.load_state
            &&& e_new.column == (ChunkColumn {
                sections: e_new.column.sections,
                dirty: true,
                ..e_old.column
            })
            &&& e_new.column.sections@.len() == e_old.column.sections@.len()
            &&& e_new.column.sections@[section]@ == e_old.column.sections@[section]@.update(
                cell_index,
                new_block_info,
            )
            &&& forall|s: int|
                0 <= s < e_old.column.sections@.len() && s != section ==> e_new.column.sections@[s]
                    == e_old.column.sections@[s]
        }
    }

    pub fn edit_block(
        &mut self,
        position: BlockPosition,
        new_block_info: Option<BlockDataInfo>,
    ) -> (r: Result<(), String>)
        requires
            old(self).wf(),
            crate::positions::block_in_bounds(position),
        ensures
            final(self).wf(),
            r is Err ==> *final(self) == *old(self),
            r is Ok <==> ({
                let cp = position.spec_chunk_position();
                &&& old(self).has_column(cp)
                &&& old(self).spec_entry(cp).load_state is Loaded
                &&& position.y >= 0
                &&& crate::positions::floor_div(position.y as int, 16) < old(self).spec_entry(
                    cp,
                ).column.sections@.len()
            }),
            r is Ok ==> ChunkMap::edited_map_ok(*old(self), *final(self), position, new_block_info),
    {
        let chunk_position = position.get_chunk_position();
        let found = self.find_entry(&chunk_position);
        let i = match found {
            Some(i) => i,
            None => {
                return Err(String::from_str("chunk is not found"));
            },
        };
        if !self.entries[i].column.is_loaded() {
            return Err(String::from_str("chunk is not loaded"));
        }
        let section_cell = position.section_and_cell();
        let (section, cell) = match section_cell {
            Some(sc) => sc,
            None => {
                return Err(String::from_str("block is out of the world"));
            },
        };
        let sections_len = self.entries[i].column.get_sections().len();
        if section as usize >= sections_len {
            return Err(String::from_str("block is above the chunk"));
        }
        let ghost old_m = *self;
        let entry = &mut self.entries[i];
        entry.column.change_block(section, &cell, new_block_info);
        proof {
            lemma_frame_update(old_m, *self, i as int);
            lemma_lookup_unique(old_m, position.spec_chunk_position(), i as int);
            let e_new = self.entries@[i as int];
            assert(entry_wf(e_new));
            assert forall|k: int| 0 <= k < self.entries@.len() implies entry_wf(
                #[trigger] self.entries@[k],
            ) && self.entries@[k].column.world_slug@ == self.world_slug@ by {
                if k != i {
                    assert(self.entries@[k] == old_m.entries@[k]);
                }
            }
            assert forall|k: int| 0 <= k < self.loaded_queue@.len() implies self.has_column(
                #[trigger] self.loaded_queue@[k],
            ) && self.spec_entry(self.loaded_queue@[k]).load_state is Loaded by {
                let q = self.loaded_queue@[k];
                assert(old_m.has_column(q) && old_m.spec_entry(q).load_state is Loaded);
                if q == old_m.entries@[i as int].position {
                    lemma_lookup_unique(old_m, q, i as int);
                    assert(self.spec_entry(q) == e_new);
                } else {
                    assert(self.spec_entry(q) == old_m.spec_entry(q));
                }
            }
            assert(self.wf());
        }
        Ok(())
    }

    /// Writes every loaded dirty column back to storage and marks it
    /// clean, returning the blobs written for outside persistence.
    pub fn save(&mut self) -> (r: Vec<(ChunkPosition, Vec<u8>)>)
        requires
            old(self).wf(),
        ensures
            final(self).wf(),
            final(self).world_slug == old(self).world_slug,
            final(self).generator_settings == old(self).generator_settings,
            final(self).loaded_queue == old(self).loaded_queue,
            forall|p: ChunkPosition| final(self).has_column(p) == old(self).has_column(p),
            forall|k: int|
                0 <= k < r@.len() ==> old(self).has_column((#[trigger] r@[k]).0) && old(
                    self,
                ).spec_entry(r@[k].0).column.loaded && old(self).spec_entry(
                    r@[k].0,
                ).column.dirty && r@[k].1@ == chunk_bytes(
                    old(self).spec_entry(r@[k].0).column.sections,
                ),
            forall|p: ChunkPosition|
                blob_keys(r@).contains(p) == (old(self).has_column(p) && old(self).spec_entry(
                    p,
                ).column.loaded && old(self).spec_entry(p).column.dirty),
            forall|p: ChunkPosition|
                old(self).has_column(p) ==> {
                    let e_new = final(self).spec_entry(p);
                    let e_old = old(self).spec_entry(p);
                    &&& e_new.position == p
                    &&& e_new.watchers == e_old.watchers
                    &&& e_new.load_state == e_old.load_state
                    &&& e_new.column == (ChunkColumn { dirty: false, ..e_old.column })
                        || e_new.column == e_old.column
                },
            forall|q: ChunkPosition|
                #[trigger] final(self).spec_storage_blob(q) == if old(self).has_column(q) && old(
                    self,
                ).spec_entry(q).column.loaded && old(self).spec_entry(q).column.dirty {
                    Some(chunk_bytes(old(self).spec_entry(q).column.sections))
                } else {
                    old(self).spec_storage_blob(q)
                },
    {
        let ghost old_m = *self;
        let mut written: Vec<(ChunkPosition, Vec<u8>)> = Vec::new();
        let n = self.entries.len();
        let mut i: usize = 0;
        while i < n
            invariant
                old_m.wf(),
                self.wf(),
                n == self.entries@.len(),
                n == old_m.entries@.len(),
                i <= n,
                self.loaded_queue == old_m.loaded_queue,
                self.world_slug == old_m.world_slug,
                self.generator_settings == old_m.generator_settings,
                self.spec_positions() == old_m.spec_positions(),
                forall|k: int|
                    0 <= k < written@.len() ==> old_m.has_column((#[trigger] written@[k]).0)
                        && old_m.index_of(written@[k].0) < i && old_m.spec_entry(
                        written@[k].0,
                    ).column.loaded && old_m.spec_entry(written@[k].0).column.dirty
                        && written@[k].1@ == chunk_bytes(
                        old_m.spec_entry(written@[k].0).column.sections,
                    ),
                forall|p: ChunkPosition|
                    #[trigger] blob_keys(written@).contains(p) == (old_m.has_column(p)
                        && old_m.index_of(p) < i && old_m.spec_entry(p).column.loaded
                        && old_m.spec_entry(p).column.dirty),
                forall|j: int|
                    0 <= j < i ==> {
                        let e_new = #[trigger] self.entries@[j];
                        let e_old = old_m.entries@[j];
                        &&& e_new.position == e_old.position
                        &&& e_new.watchers == e_old.watchers
                        &&& e_new.load_state == e_old.load_state
                        &&& (e_new.column == (ChunkColumn { dirty: false, ..e_old.column })
                            || e_new.column == e_old.column)
                    },
                forall|j: int| i <= j < n ==> #[trigger] self.entries@[j] == old_m.entries@[j],
                blob_keys(self.storage@).no_duplicates(),
                forall|q: ChunkPosition|
                    #[trigger] blob_of(self.storage@, q) == if old_m.has_column(q)
                        && old_m.index_of(q) < i && old_m.spec_entry(q).column.loaded
                        && old_m.spec_entry(q).column.dirty {
                        Some(chunk_bytes(old_m.spec_entry(q).column.sections))
                    } else {
                        blob_of(old_m.storage@, q)
                    },
            decreases n - i,
        {
            let ghost mid = *self;
            let pos_i = self.entries[i].position;
            proof {
                lemma_lookup_unique(old_m, pos_i, i as int);
            }
            let write_it = self.entries[i].column.is_loaded() && self.entries[i].column.dirty;
            if write_it {
                let bytes = encode_chunk(self.entries[i].column.get_sections());
                let bytes_again = encode_chunk(self.entries[i].column.get_sections());
                storage_put(&mut self.storage, pos_i, bytes);
                let entry = &mut self.entries[i];
                entry.column.dirty = false;
                proof {
                    lemma_frame_update(mid, *self, i as int);
                    let e_new = self.entries@[i as int];
                    assert(entry_wf(e_new));
                    assert forall|k: int| 0 <= k < self.entries@.len() implies entry_wf(
                        #[trigger] self.entries@[k],
                    ) && self.entries@[k].column.world_slug@ == self.world_slug@ by {
                        if k != i {
                            assert(self.entries@[k] == mid.entries@[k]);
                        }
                    }
                    assert forall|k: int|
                        0 <= k < self.loaded_queue@.len() implies self.has_column(
                        #[trigger] self.loaded_queue@[k],
                    ) && self.spec_entry(self.loaded_queue@[k]).load_state is Loaded by {
                        let q = self.loaded_queue@[k];
                        assert(mid.has_column(q) && mid.spec_entry(q).load_state is Loaded);
                        if q == pos_i {
                            lemma_lookup_unique(mid, q, i as int);
                            assert(self.spec_entry(q) == e_new);
                        } else {
                            assert(self.spec_entry(q) == mid.spec_entry(q));
                        }
                    }
                    assert(self.wf());
                    assert(!blob_keys(written@).contains(pos_i)) by {
                        if blob_keys(written@).contains(pos_i) {
                            assert(old_m.index_of(pos_i) < i);
                        }
                    };
                }
                let ghost old_written = written@;
                written.push((pos_i, bytes_again));
                proof {
                    assert(blob_keys(written@) =~= blob_keys(old_written).push(pos_i));
                    let t = blob_keys(written@);
                    assert forall|p: ChunkPosition|
                        #[trigger] blob_keys(written@).contains(p) == (old_m.has_column(p)
                            && old_m.index_of(p) < i + 1 && old_m.spec_entry(p).column.loaded
                            && old_m.spec_entry(p).column.dirty) by {
                        assert(t.contains(p) == (blob_keys(old_written).contains(p) || p
                            == pos_i));
                        if p != pos_i && old_m.has_column(p) && old_m.index_of(p) == i {
                            lemma_lookup(old_m, p);
                            assert(old_m.entries@[i as int].position == p);
                        }
                    }
                    assert forall|q: ChunkPosition|
                        #[trigger] blob_of(self.storage@, q) == (if old_m.has_column(q)
                            && old_m.index_of(q) < i + 1 && old_m.spec_entry(q).column.loaded
                            && old_m.spec_entry(q).column.dirty {
                            Some(chunk_bytes(old_m.spec_entry(q).column.sections))
                        } else {
                            blob_of(old_m.storage@, q)
                        }) by {
                        if q != pos_i {
                            if old_m.has_column(q) {
                                lemma_lookup(old_m, q);
                                if old_m.index_of(q) == i {
                                    assert(old_m.entries@[i as int].position == q);
                                }
                            }
                        }
                    }
                }
            } else {
                proof {
                    assert forall|p: ChunkPosition|
                        #[trigger] blob_keys(written@).contains(p) == (old_m.has_column(p)
                            && old_m.index_of(p) < i + 1 && old_m.spec_entry(p).column.loaded
                            && old_m.spec_entry(p).column.dirty) by {
                        if old_m.has_column(p) && old_m.index_of(p) == i {
                            lemma_lookup(old_m, p);
                            assert(old_m.entries@[i as int].position == p);
                            assert(p == pos_i);
                        }
                    }
                    assert forall|q: ChunkPosition|
                        #[trigger] blob_of(self.storage@, q) == (if old_m.has_column(q)
                            && old_m.index_of(q) < i + 1 && old_m.spec_entry(q).column.loaded
                            && old_m.spec_entry(q).column.dirty {
                            Some(chunk_bytes(old_m.spec_entry(q).column.sections))
                        } else {
                            blob_of(old_m.storage@, q)
                        }) by {
                        if old_m.has_column(q) && old_m.index_of(q) == i {
                            lemma_lookup(old_m, q);
                            assert(old_m.entries@[i as int].position == q);
                            assert(q == pos_i);
                        }
                    }
                }
            }
            i = i + 1;
        }
        proof {
            assert forall|p: ChunkPosition| old_m.has_column(p) implies old_m.index_of(p) < n by {
                lemma_lookup(old_m, p);
            }
            assert forall|p: ChunkPosition| old_m.has_column(p) implies {
                let e_new = self.spec_entry(p);
                let e_old = old_m.spec_entry(p);
                &&& e_new.position == p
                &&& e_new.watchers == e_old.watchers
                &&& e_new.load_state == e_old.load_state
                &&& (e_new.column == (ChunkColumn { dirty: false, ..e_old.column })
                    || e_new.column == e_old.column)
            } by {
                lemma_lookup(old_m, p);
                let j = old_m.index_of(p);
                lemma_lookup_unique(*self, p, j);
            }
        }
        written
    }
}

/// The keys of a blob list, in order.
pub open spec fn blob_keys(s: Seq<(ChunkPosition, Vec<u8>)>) -> Seq<ChunkPosition> {
    s.map_values(|e: (ChunkPosition, Vec<u8>)| e.0)
}

/// The bytes stored under `p` in a blob list, if any.
pub open spec fn blob_of(s: Seq<(ChunkPosition, Vec<u8>)>, p: ChunkPosition) -> Option<Seq<u8>> {
    if blob_keys(s).contains(p) {
        Some(s[choose|i: int| 0 <= i < s.len() && blob_keys(s)[i] == p].1@)
    } else {
        None
    }
}

/// With unique keys, the blob at a known index is the blob looked up.
pub proof fn lemma_blob_at(s: Seq<(ChunkPosition, Vec<u8>)>, i: int)
    requires
        blob_keys(s).no_duplicates(),
        0 <= i < s.len(),
    ensures
        blob_of(s, s[i].0) == Some(s[i].1@),
{
    assert(blob_keys(s)[i] == s[i].0);
    let j = choose|j: int| 0 <= j < s.len() && blob_keys(s)[j] == s[i].0;
    assert(blob_keys(s)[j] == s[i].0);
    if i != j {
        assert(blob_keys(s)[i] != blob_keys(s)[j]);
    }
}

/// Reads the blob stored under `pos`, if any.
pub fn storage_get<'a>(storage: &'a Vec<(ChunkPosition, Vec<u8>)>, pos: &ChunkPosition) -> (r:
    Option<&'a Vec<u8>>)
    requires
        blob_keys(storage@).no_duplicates(),
    ensures
        match r {
            Some(bytes) => blob_of(storage@, *pos) == Some(bytes@),
            None => blob_of(storage@, *pos) is None,
        },
{
    let n = storage.len();
    let mut i: usize = 0;
    while i < n
        invariant
            blob_keys(storage@).no_duplicates(),
            n == storage@.len(),
            i <= n,
            forall|j: int| 0 <= j < i ==> (#[trigger] storage@[j]).0 != *pos,
        decreases n - i,
    {
        let key = &storage[i].0;
        if key.x == pos.x && key.z == pos.z {
            proof {
                lemma_blob_at(storage@, i as int);
            }
            return Some(&storage[i].1);
        }
        i = i + 1;
    }
    proof {
        if blob_keys(storage@).contains(*pos) {
            let k = choose|k: int|
                0 <= k < blob_keys(storage@).len() && blob_keys(storage@)[k] == *pos;
            assert(storage@[k].0 == *pos);
        }
    }
    None
}

/// Stores bytes under `pos`, replacing any previous blob there.
pub fn storage_put(storage: &mut Vec<(ChunkPosition, Vec<u8>)>, pos: ChunkPosition, bytes: Vec<u8>)
    requires
        blob_keys(old(storage)@).no_duplicates(),
    ensures
        blob_keys(final(storage)@).no_duplicates(),
        blob_of(final(storage)@, pos) == Some(bytes@),
        forall|q: ChunkPosition|
            q != pos ==> blob_of(final(storage)@, q) == blob_of(old(storage)@, q),
{
    let n = storage.len();
    let mut i: usize = 0;
    while i < n
        invariant
            blob_keys(storage@).no_duplicates(),
            *storage == *old(storage),
            n == storage@.len(),
            i <= n,
            forall|j: int| 0 <= j < i ==> (#[trigger] storage@[j]).0 != pos,
        decreases n - i,
    {
        let found: bool = storage[i].0.x == pos.x && storage[i].0.z == pos.z;
        if found {
            let ghost old_s = storage@;
            let entry = &mut storage[i];
            entry.1 = bytes;
            proof {
                assert(blob_keys(storage@) =~= blob_keys(old_s));
                lemma_blob_at(storage@, i as int);
                assert forall|q: ChunkPosition| q != pos implies blob_of(storage@, q) == blob_of(
                    old_s,
                    q,
                ) by {
                    if blob_keys(old_s).contains(q) {
                        let k = choose|k: int|
                            0 <= k < blob_keys(old_s).len() && blob_keys(old_s)[k] == q;
                        assert(old_s[k].0 == q);
                        assert(k != i);
                        assert(storage@[k] == old_s[k]);
                        lemma_blob_at(old_s, k);
                        lemma_blob_at(storage@, k);
                    } else {
                        assert(blob_keys(storage@) == blob_keys(old_s));
                    }
                }
            }
            return ;
        }
        i = i + 1;
    }
    let ghost old_s = storage@;
    storage.push((pos, bytes));
    proof {
        broadcast use vstd::seq_lib::lemma_seq_contains_after_push;

        assert(blob_keys(storage@) =~= blob_keys(old_s).push(pos));
        assert(!blob_keys(old_s).contains(pos)) by {
            if blob_keys(old_s).contains(pos) {
                let k = choose|k: int|
                    0 <= k < blob_keys(old_s).len() && blob_keys(old_s)[k] == pos;
                assert(old_s[k].0 == pos);
            }
        };
        let t = blob_keys(storage@);
        let s = blob_keys(old_s);
        assert forall|a: int, b: int|
            0 <= a < t.len() && 0 <= b < t.len() && a != b implies t[a] != t[b] by {
            if a < s.len() && b < s.len() {
                assert(s[a] != s[b]);
            } else if a == s.len() {
                assert(t[a] == pos && t[b] == s[b]);
                if t[b] == pos {
                    assert(s.contains(pos));
                }
            } else {
                assert(t[b] == pos && t[a] == s[a]);
                if t[a] == pos {
                    assert(s.contains(pos));
                }
            }
        }
        lemma_blob_at(storage@, old_s.len() as int);
        assert forall|q: ChunkPosition| q != pos implies blob_of(storage@, q) == blob_of(
            old_s,
            q,
        ) by {
            if blob_keys(old_s).contains(q) {
                let k = choose|k: int|
                    0 <= k < blob_keys(old_s).len() && blob_keys(old_s)[k] == q;
                assert(old_s[k].0 == q);
                assert(storage@[k] == old_s[k]);
                lemma_blob_at(old_s, k);
                lemma_blob_at(storage@, k);
            }
        }
    }
}

/// Whether a list of entity ids holds the given one.
pub fn contains_u64(list: &Vec<u64>, x: u64) -> (r: bool)
    ensures
        r == list@.contains(x),
{
    let n = list.len();
    let mut i: usize = 0;
    while i < n
        invariant
            n == list@.len(),
            i <= n,
            forall|j: int| 0 <= j < i ==> list@[j] != x,
        decreases n - i,
    {
        if list[i] == x {
            return true;
        }
        i = i + 1;
    }
    false
}

/// A copy of a list of entity ids.
fn copy_u64_vec(list: &Vec<u64>) -> (r: Vec<u64>)
    ensures
        r@ == list@,
{
    let n = list.len();
    let mut out: Vec<u64> = Vec::new();
    let mut i: usize = 0;
    while i < n
        invariant
            n == list@.len(),
            i <= n,
            out@ == list@.take(i as int),
        decreases n - i,
    {
        out.push(list[i]);
        proof {
            assert(out@ =~= list@.take(i as int + 1));
        }
        i = i + 1;
    }
    proof {
        assert(list@.take(n as int) =~= list@);
    }
    out
}

} // verus!
