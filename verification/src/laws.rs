//! The engine's standing guarantees, stated once and proved from the
//! contracts of the functions they speak about.

use vstd::prelude::*;

use crate::chunk_map::{evict_cond, ChunkMap};
use crate::client::ClientNetwork;
use crate::positions::ChunkPosition;
use crate::sender::send_pass_post;

verus! {

/// No chunk is submitted twice for one client: two consecutive selection
/// passes over a session never pick the same position, because the first
/// pass puts every pick into the sent set and the second only picks
/// positions outside it.
pub proof fn law_no_duplicate_chunk_send(
    m1: ChunkMap,
    m2: ChunkMap,
    entity: u64,
    center1: ChunkPosition,
    center2: ChunkPosition,
    c0: ClientNetwork,
    c1: ClientNetwork,
    c2: ClientNetwork,
    jobs1: Seq<ChunkPosition>,
    jobs2: Seq<ChunkPosition>,
)
    requires
        send_pass_post(m1, entity, center1, c0, c1, jobs1),
        send_pass_post(m2, entity, center2, c1, c2, jobs2),
    ensures
        forall|p: ChunkPosition| jobs1.contains(p) ==> !jobs2.contains(p),
        forall|p: ChunkPosition| c0.spec_sent_contains(p) ==> c2.spec_sent_contains(p),
{
    assert forall|p: ChunkPosition| jobs1.contains(p) implies !jobs2.contains(p) by {
        assert(c1.spec_sent_contains(p));
        if jobs2.contains(p) {
            let k = choose|k: int| 0 <= k < jobs2.len() && jobs2[k] == p;
            assert(crate::sender::chunk_eligible(m2, c1, entity, jobs2[k]));
        }
    }
    assert forall|p: ChunkPosition| c0.spec_sent_contains(p) implies c2.spec_sent_contains(
        p,
    ) by {
        assert(c1.spec_sent_contains(p));
    }
}

/// The send queue is bounded: a valid session never holds more frames in
/// flight than its limit, and a selection pass keeps it so.
pub proof fn law_queue_bound(c: ClientNetwork)
    requires
        c.wf(),
    ensures
        c.spec_in_flight() <= c.spec_queue_limit(),
{
}

/// A selection pass over a client whose watched, loaded window was
/// already sent submits nothing: its sent set and in-flight count stand.
pub proof fn law_send_pass_all_sent(
    m: ChunkMap,
    entity: u64,
    center: ChunkPosition,
    c0: ClientNetwork,
    c1: ClientNetwork,
    jobs: Seq<ChunkPosition>,
)
    requires
        send_pass_post(m, entity, center, c0, c1, jobs),
        forall|p: ChunkPosition|
            m.watches(entity, p) && m.spec_entry(p).load_state is Loaded
                ==> c0.spec_sent_contains(p),
    ensures
        jobs.len() == 0,
        c1.spec_in_flight() == c0.spec_in_flight(),
        forall|p: ChunkPosition| c1.spec_sent_contains(p) == c0.spec_sent_contains(p),
{
    if jobs.len() > 0 {
        assert(crate::sender::chunk_eligible(m, c0, entity, jobs[0]));
    }
    assert forall|p: ChunkPosition| c1.spec_sent_contains(p) == c0.spec_sent_contains(p) by {
        assert(!jobs.contains(p));
    }
}

/// Watch/unwatch symmetry: when an entity starts watching a window and
/// then stops watching, every column that only it was keeping alive is
/// left with no watchers and a zeroed despawn timer, ready to age out.
pub proof fn law_watch_unwatch_symmetry(
    m0: ChunkMap,
    m1: ChunkMap,
    m2: ChunkMap,
    entity: u64,
    center: ChunkPosition,
    radius: u16,
    p: ChunkPosition,
)
    requires
        // what start_watching guarantees, m0 to m1
        forall|q: ChunkPosition|
            m1.has_column(q) == (m0.has_column(q) || crate::positions::in_window(
                q,
                center,
                radius as int,
            )),
        forall|q: ChunkPosition|
            crate::positions::in_window(q, center, radius as int)
                ==> crate::chunk_map::watched_entry_ok(m0, m1, entity, q),
        forall|e2: u64, q: ChunkPosition| e2 != entity ==> m1.watches(e2, q) == m0.watches(e2, q),
        // what stop_watching guarantees, m1 to m2
        forall|q: ChunkPosition| m2.has_column(q) == m1.has_column(q),
        forall|q: ChunkPosition| !m2.watches(entity, q),
        forall|e2: u64, q: ChunkPosition| e2 != entity ==> m2.watches(e2, q) == m1.watches(e2, q),
        forall|q: ChunkPosition|
            m1.has_column(q) ==> {
                let e_new = m2.spec_entry(q);
                let e_old = m1.spec_entry(q);
                &&& e_new.position == q
                &&& e_new.column == e_old.column
                &&& forall|e2: u64|
                    e_new.watchers@.contains(e2) == (e_old.watchers@.contains(e2) && e2 != entity)
            },
        // the column at p was kept alive only by this entity
        crate::positions::in_window(p, center, radius as int),
        forall|e2: u64| e2 != entity ==> !m0.watches(e2, p),
    ensures
        m2.has_column(p),
        forall|e2: u64| !m2.watches(e2, p),
        m2.spec_entry(p).column.despawn_timer_ms == 0,
{
    assert(m1.has_column(p));
    assert(crate::chunk_map::watched_entry_ok(m0, m1, entity, p));
    assert(m2.spec_entry(p).column == m1.spec_entry(p).column);
    assert(m1.spec_entry(p).column.despawn_timer_ms == 0);
    assert forall|e2: u64| !m2.watches(e2, p) by {
        if e2 != entity {
            assert(m2.watches(e2, p) == m1.watches(e2, p));
            assert(m1.watches(e2, p) == m0.watches(e2, p));
        }
    }
}

/// Despawn correctness, standing half: while anything watches a column,
/// its despawn timer is exactly zero.
pub proof fn law_despawn_watched_timer_zero(m: ChunkMap, p: ChunkPosition)
    requires
        m.wf(),
        m.has_column(p),
        m.spec_entry(p).watchers@.len() > 0,
    ensures
        m.spec_entry(p).column.despawn_timer_ms == 0,
{
    crate::chunk_map::lemma_lookup(m, p);
}

/// Despawn correctness, eviction half: a column the tick evicts had
/// stood unwatched with its timer at or past the threshold when the tick
/// began — the timer reached the threshold on an earlier tick.
pub proof fn law_despawn_eviction_ripe(
    m_old: ChunkMap,
    evicted: Seq<(ChunkPosition, Option<Vec<u8>>)>,
    p: ChunkPosition,
)
    requires
        // what tick guarantees about its eviction report
        forall|q: ChunkPosition|
            crate::chunk_map::evicted_positions(evicted).contains(q) == (m_old.has_column(q)
                && evict_cond(m_old.spec_entry(q))),
        crate::chunk_map::evicted_positions(evicted).contains(p),
    ensures
        m_old.has_column(p),
        m_old.spec_entry(p).watchers@.len() == 0,
        m_old.spec_entry(p).column.despawn_timer_ms >= crate::CHUNKS_DESPAWN_TIMER_MS,
{
}

/// The chunk pipeline feeds the loaded-chunk queue without duplicates: a
/// column still loading is never already announced, so installing its
/// contents announces it exactly once.
pub proof fn law_pipeline_single_announcement(m: ChunkMap, p: ChunkPosition)
    requires
        m.wf(),
        m.has_column(p),
        m.spec_entry(p).load_state is Loading,
    ensures
        !m.loaded_queue@.contains(p),
{
    if m.loaded_queue@.contains(p) {
        let k = choose|k: int| 0 <= k < m.loaded_queue@.len() && m.loaded_queue@[k] == p;
        assert(m.spec_entry(m.loaded_queue@[k]).load_state is Loaded);
    }
}

} // verus!
