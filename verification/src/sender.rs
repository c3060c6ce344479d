//! The chunk send pipeline: selecting missing chunks per client in spiral
//! order under the queue bound, and forwarding finished frames.
//!
//! A chunk joins the client's sent set before its compression job is
//! submitted, so no position is ever submitted twice for one client
//! within an attachment; submission stops the moment the in-flight queue
//! fills; and nearer chunks are always submitted before farther ones.

use vstd::prelude::*;

use crate::client::ClientNetwork;
use crate::clients::{clone_string, ClientsContainer};
use crate::chunk_map::ChunkMap;
use crate::messages::{NetworkMessageType, ServerMessage};
use crate::positions::{chebyshev, chunk_in_bounds, in_window, ChunkPosition};
use crate::spiral::spiral_positions;
use crate::world::WorldsManager;
use crate::CHUNKS_DISTANCE;

verus! {

broadcast use vstd::seq_lib::lemma_seq_contains_after_push;

/// One pending compression job: whose chunk frame to build, and where.
pub struct CompressJob {
    pub client_id: u64,
    pub world_slug: String,
    pub position: ChunkPosition,
}

/// A finished chunk frame on its way to one client.
pub struct PreparedChunk {
    pub client_id: u64,
    pub message: ServerMessage,
}

/// The queue of compression jobs between the selection pass and the
/// flush pass.
pub struct ChunkCompressQueue {
    pub jobs: Vec<CompressJob>,
}

impl ChunkCompressQueue {
    pub fn new() -> (r: ChunkCompressQueue)
        ensures
            r.jobs@.len() == 0,
    {
        ChunkCompressQueue { jobs: Vec::new() }
    }
}

/// Whether a chunk is due for sending to a client: watched by its entity,
/// loaded, and not yet sent.
pub open spec fn chunk_eligible(
    m: ChunkMap,
    c: ClientNetwork,
    entity: u64,
    p: ChunkPosition,
) -> bool {
    &&& m.watches(entity, p)
    &&& m.spec_entry(p).load_state is Loaded
    &&& !c.spec_sent_contains(p)
}

/// What one selection pass did to one client: every submitted position
/// was eligible and unsent, each was marked sent, the in-flight count
/// grew by exactly the submissions and respects the limit, nearer chunks
/// were submitted first, and — unless the queue filled — nothing eligible
/// in the window was left behind.
pub open spec fn send_pass_post(
    m: ChunkMap,
    entity: u64,
    center: ChunkPosition,
    c_old: ClientNetwork,
    c_new: ClientNetwork,
    jobs: Seq<ChunkPosition>,
) -> bool {
    &&& c_new == (ClientNetwork {
        already_sent: c_new.already_sent,
        in_flight: c_new.in_flight,
        ..c_old
    })
    &&& forall|k: int|
        0 <= k < jobs.len() ==> chunk_eligible(m, c_old, entity, #[trigger] jobs[k]) && in_window(
            jobs[k],
            center,
            CHUNKS_DISTANCE as int,
        )
    &&& forall|a: int, b: int| 0 <= a < b < jobs.len() ==> jobs[a] != jobs[b]
    &&& forall|a: int, b: int|
        0 <= a <= b < jobs.len() ==> chebyshev(#[trigger] jobs[a], center) <= chebyshev(
            #[trigger] jobs[b],
            center,
        )
    &&& c_new.spec_in_flight() == c_old.spec_in_flight() + jobs.len()
    &&& c_new.spec_in_flight() <= c_new.spec_queue_limit()
    &&& forall|p: ChunkPosition|
        #[trigger] c_new.spec_sent_contains(p) == (c_old.spec_sent_contains(p) || jobs.contains(
            p,
        ))
    &&& (c_new.spec_in_flight() < c_new.spec_queue_limit() ==> forall|p: ChunkPosition|
        #[trigger] chunk_eligible(m, c_old, entity, p) && in_window(
            p,
            center,
            CHUNKS_DISTANCE as int,
        ) ==> jobs.contains(p))
}

/// Selects the missing chunks for one client in spiral order around its
/// entity, marking each and submitting a compression job, until the
/// window is covered or the in-flight queue fills.
pub fn send_chunks_to_client(
    map: &ChunkMap,
    entity: u64,
    center: &ChunkPosition,
    client: &mut ClientNetwork,
    queue: &mut ChunkCompressQueue,
) -> (jobs: Ghost<Seq<ChunkPosition>>)
    requires
        map.wf(),
        old(client).wf(),
        chunk_in_bounds(*center),
    ensures
        final(client).wf(),
        send_pass_post(*map, entity, *center, *old(client), *final(client), jobs@),
        final(queue).jobs@.len() == old(queue).jobs@.len() + jobs@.len(),
        forall|k: int|
            0 <= k < old(queue).jobs@.len() ==> #[trigger] final(queue).jobs@[k] == old(
                queue,
            ).jobs@[k],
        forall|k: int|
            0 <= k < jobs@.len() ==> {
                let j = #[trigger] final(queue).jobs@[old(queue).jobs@.len() + k];
                &&& j.client_id == old(client).spec_client_id()
                &&& j.world_slug@ == map.world_slug@
                &&& j.position == jobs@[k]
            },
{
    let spiral = spiral_positions(*center, CHUNKS_DISTANCE);
    let n = spiral.len();
    let ghost mut jobs: Seq<ChunkPosition> = Seq::empty();
    let mut k: usize = 0;
    while k < n
        invariant
            map.wf(),
            client.wf(),
            chunk_in_bounds(*center),
            n == spiral@.len(),
            k <= n,
            spiral@.len() > 0,
            forall|i: int|
                0 <= i < spiral@.len() ==> in_window(
                    #[trigger] spiral@[i],
                    *center,
                    CHUNKS_DISTANCE as int,
                ),
            forall|p: ChunkPosition|
                in_window(p, *center, CHUNKS_DISTANCE as int) ==> spiral@.contains(p),
            forall|a: int, b: int|
                0 <= a <= b < spiral@.len() ==> chebyshev(spiral@[a], *center) <= chebyshev(
                    spiral@[b],
                    *center,
                ),
            *client == (ClientNetwork {
                already_sent: client.already_sent,
                in_flight: client.in_flight,
                ..*old(client)
            }),
            forall|j: int|
                0 <= j < jobs.len() ==> chunk_eligible(*map, *old(client), entity, #[trigger] jobs[j])
                    && in_window(jobs[j], *center, CHUNKS_DISTANCE as int),
            forall|j: int|
                0 <= j < jobs.len() ==> exists|i: int| 0 <= i < k && spiral@[i] == #[trigger] jobs[j],
            forall|a: int, b: int| 0 <= a < b < jobs.len() ==> jobs[a] != jobs[b],
            forall|a: int, b: int|
                0 <= a <= b < jobs.len() ==> chebyshev(#[trigger] jobs[a], *center) <= chebyshev(
                    #[trigger] jobs[b],
                    *center,
                ),
            client.spec_in_flight() == old(client).spec_in_flight() + jobs.len(),
            client.spec_in_flight() <= client.spec_queue_limit(),
            forall|p: ChunkPosition|
                #[trigger] client.spec_sent_contains(p) == (old(client).spec_sent_contains(p)
                    || jobs.contains(p)),
            client.spec_in_flight() < client.spec_queue_limit() ==> forall|p: ChunkPosition|
                #[trigger] chunk_eligible(*map, *old(client), entity, p) && (exists|i: int|
                    0 <= i < k && #[trigger] spiral@[i] == p) ==> jobs.contains(p),
            queue.jobs@.len() == old(queue).jobs@.len() + jobs.len(),
            forall|j: int|
                0 <= j < old(queue).jobs@.len() ==> #[trigger] queue.jobs@[j] == old(
                    queue,
                ).jobs@[j],
            forall|j: int|
                0 <= j < jobs.len() ==> {
                    let q = #[trigger] queue.jobs@[old(queue).jobs@.len() + j];
                    &&& q.client_id == old(client).spec_client_id()
                    &&& q.world_slug@ == map.world_slug@
                    &&& q.position == jobs[j]
                },
        decreases n - k,
    {
        if client.is_queue_limit() {
            proof {
                assert(send_pass_post(*map, entity, *center, *old(client), *client, jobs));
            }
            return Ghost(jobs);
        }
        let p = spiral[k];
        let due = map.is_watched_loaded(entity, &p) && !client.is_already_sended(&p);
        if due {
            proof {
                assert(!old(client).spec_sent_contains(p) && !jobs.contains(p));
            }
            let ghost c_before = *client;
            client.mark_chunk_sending(&p);
            queue.jobs.push(
                CompressJob {
                    client_id: client.get_client_id(),
                    world_slug: clone_string_of_map(map),
                    position: p,
                },
            );
            proof {
                let prev = jobs;
                jobs = jobs.push(p);
                assert forall|p2: ChunkPosition|
                    #[trigger] client.spec_sent_contains(p2) == (old(client).spec_sent_contains(
                        p2,
                    ) || jobs.contains(p2)) by {
                    assert(client.spec_already_sent() == c_before.spec_already_sent().push(p));
                    assert(client.spec_sent_contains(p2) == (c_before.spec_sent_contains(p2) || p2
                        == p));
                    assert(jobs.contains(p2) == (prev.contains(p2) || p2 == p));
                }
                assert forall|a: int, b: int|
                    0 <= a <= b < jobs.len() implies chebyshev(#[trigger] jobs[a], *center)
                    <= chebyshev(#[trigger] jobs[b], *center) by {
                    if b < prev.len() {
                        assert(chebyshev(prev[a], *center) <= chebyshev(prev[b], *center));
                    } else if a < prev.len() {
                        assert(jobs[b] == p);
                        let i = choose|i: int| 0 <= i < k && spiral@[i] == prev[a];
                        assert(chebyshev(spiral@[i], *center) <= chebyshev(
                            spiral@[k as int],
                            *center,
                        ));
                    }
                }
                assert forall|a: int, b: int| 0 <= a < b < jobs.len() implies jobs[a]
                    != jobs[b] by {
                    if b == prev.len() {
                        assert(jobs[b] == p && jobs[a] == prev[a]);
                        assert(!prev.contains(p));
                    } else {
                        assert(prev[a] != prev[b]);
                    }
                }
                assert forall|j: int| 0 <= j < jobs.len() implies exists|i: int|
                    0 <= i < k + 1 && spiral@[i] == #[trigger] jobs[j] by {
                    if j < prev.len() {
                        let i = choose|i: int| 0 <= i < k && spiral@[i] == prev[j];
                        assert(spiral@[i] == jobs[j]);
                    } else {
                        assert(spiral@[k as int] == jobs[j]);
                    }
                }
            }
        } else {
            proof {
                if client.spec_in_flight() < client.spec_queue_limit() {
                    assert forall|p2: ChunkPosition|
                        chunk_eligible(*map, *old(client), entity, p2) && (exists|i: int|
                            0 <= i < k + 1 && #[trigger] spiral@[i] == p2) implies jobs.contains(
                        p2,
                    ) by {
                        let i = choose|i: int| 0 <= i < k + 1 && spiral@[i] == p2;
                        if i == k {
                            assert(p2 == p);
                            if !old(client).spec_sent_contains(p) && map.watches(entity, p)
                                && map.spec_entry(p).load_state is Loaded {
                                assert(client.spec_sent_contains(p) == (old(
                                    client,
                                ).spec_sent_contains(p) || jobs.contains(p)));
                                assert(jobs.contains(p));
                            }
                        }
                    }
                }
            }
        }
        k = k + 1;
    }
    proof {
        assert forall|p: ChunkPosition|
            chunk_eligible(*map, *old(client), entity, p) && in_window(
                p,
                *center,
                CHUNKS_DISTANCE as int,
            ) && client.spec_in_flight() < client.spec_queue_limit() implies jobs.contains(p) by {
            assert(spiral@.contains(p));
            let i = choose|i: int| 0 <= i < spiral@.len() && spiral@[i] == p;
        }
        assert(send_pass_post(*map, entity, *center, *old(client), *client, jobs));
    }
    Ghost(jobs)
}

/// A copy of a chunk map's world slug.
fn clone_string_of_map(map: &ChunkMap) -> (r: String)
    ensures
        r@ == map.world_slug@,
{
    clone_string(&map.world_slug)
}

/// Whether a submitted job names a chunk newly marked sent for the
/// session, of the registered client it addresses.
pub open spec fn queue_entry_linked(
    old_c: ClientsContainer,
    new_c: ClientsContainer,
    j: CompressJob,
) -> bool {
    exists|i: int|
        0 <= i < old_c.spec_players().len() && (#[trigger] old_c.spec_players()[
            i
        ]).spec_client_id() == j.client_id && new_c.spec_players()[i].spec_sent_contains(
            j.position,
        ) && !old_c.spec_players()[i].spec_sent_contains(j.position)
}

/// Whether the selection pass owes a client a visit: its session is
/// connected, has queue room, and is attached to a registered world
/// where its entity is resident.
pub open spec fn client_send_ready(worlds: WorldsManager, c: ClientNetwork) -> bool {
    &&& c.spec_connected()
    &&& c.spec_in_flight() < c.spec_queue_limit()
    &&& c.spec_world_entity() matches Some(we) && worlds.spec_has_world(we.spec_world_slug())
        && worlds.worlds@[crate::handlers::spec_world_index(
        worlds,
        we.spec_world_slug(),
    )].ecs.has_entity(we.spec_entity_id())
}

/// Visits every connected, attached client whose queue has room and
/// submits compression jobs for its missing chunks: each such client's
/// session satisfies the selection-pass postcondition against its
/// world's chunk map, every other client is left unchanged, and every
/// submitted job names a chunk newly marked sent for its client.
pub fn send_chunks(
    worlds_manager: &WorldsManager,
    clients: &mut ClientsContainer,
    compress_queue: &mut ChunkCompressQueue,
)
    requires
        worlds_manager.wf(),
        old(clients).wf(),
    ensures
        final(clients).wf(),
        final(clients).spec_players().len() == old(clients).spec_players().len(),
        forall|i: int|
            0 <= i < final(clients).spec_players().len() ==> {
                let c_new = #[trigger] final(clients).spec_players()[i];
                let c_old = old(clients).spec_players()[i];
                if client_send_ready(*worlds_manager, c_old) {
                    let we = c_old.spec_world_entity()->0;
                    let wi = crate::handlers::spec_world_index(
                        *worlds_manager,
                        we.spec_world_slug(),
                    );
                    let w = worlds_manager.worlds@[wi];
                    let center = w.ecs.spec_record(
                        we.spec_entity_id(),
                    ).position.spec_chunk_position();
                    exists|jobs: Seq<ChunkPosition>|
                        send_pass_post(w.chunks_map, we.spec_entity_id(), center, c_old, c_new, jobs)
                } else {
                    c_new == c_old
                }
            },
        old(compress_queue).jobs@.len() <= final(compress_queue).jobs@.len(),
        forall|k: int|
            0 <= k < old(compress_queue).jobs@.len() ==> #[trigger] final(compress_queue).jobs@[k]
                == old(compress_queue).jobs@[k],
        forall|k: int|
            old(compress_queue).jobs@.len() <= k < final(compress_queue).jobs@.len()
                ==> queue_entry_linked(
                *old(clients),
                *final(clients),
                #[trigger] final(compress_queue).jobs@[k],
            ),
{
    let n = clients.len();
    let mut ci: usize = 0;
    while ci < n
        invariant
            worlds_manager.wf(),
            clients.wf(),
            n == clients.spec_players().len(),
            ci <= n,
            n == old(clients).spec_players().len(),
            forall|i: int|
                ci <= i < n ==> #[trigger] clients.spec_players()[i] == old(
                    clients,
                ).spec_players()[i],
            forall|i: int|
                0 <= i < ci ==> {
                    let c_new = #[trigger] clients.spec_players()[i];
                    let c_old = old(clients).spec_players()[i];
                    if client_send_ready(*worlds_manager, c_old) {
                        let we = c_old.spec_world_entity()->0;
                        let wi = crate::handlers::spec_world_index(
                            *worlds_manager,
                            we.spec_world_slug(),
                        );
                        let w = worlds_manager.worlds@[wi];
                        let center = w.ecs.spec_record(
                            we.spec_entity_id(),
                        ).position.spec_chunk_position();
                        exists|jobs: Seq<ChunkPosition>|
                            send_pass_post(
                                w.chunks_map,
                                we.spec_entity_id(),
                                center,
                                c_old,
                                c_new,
                                jobs,
                            )
                    } else {
                        c_new == c_old
                    }
                },
            old(compress_queue).jobs@.len() <= compress_queue.jobs@.len(),
            forall|k: int|
                0 <= k < old(compress_queue).jobs@.len() ==> #[trigger] compress_queue.jobs@[k]
                    == old(compress_queue).jobs@[k],
            forall|k: int|
                old(compress_queue).jobs@.len() <= k < compress_queue.jobs@.len()
                    ==> queue_entry_linked(
                    *old(clients),
                    *clients,
                    #[trigger] compress_queue.jobs@[k],
                ),
        decreases n - ci,
    {
        let ghost c_here = clients.spec_players()[ci as int];
        proof {
            assert(c_here == old(clients).spec_players()[ci as int]);
        }
        let connected = clients.index(ci).is_connected();
        let full = clients.index(ci).is_queue_limit();
        if connected && !full {
            let attachment: Option<(String, u64)> = match clients.index(ci).get_world_entity() {
                Some(we) => Some((clone_string(we.get_world_slug()), we.get_entity())),
                None => None,
            };
            match attachment {
                Some((slug, entity)) => {
                    match worlds_manager.find_world(&slug) {
                        Some(wi) => {
                            proof {
                                crate::handlers::lemma_world_index_is(
                                    *worlds_manager,
                                    slug@,
                                    wi as int,
                                );
                            }
                            let world = worlds_manager.index(wi);
                            let center_opt = match world.get_ecs().get_entity(entity) {
                                Some(rec) => {
                                    let pos = rec.position;
                                    proof {
                                        crate::world::lemma_chunk_of_bounded_position(pos);
                                    }
                                    Some(pos.get_chunk_position())
                                },
                                None => None,
                            };
                            match center_opt {
                                Some(center) => {
                                    let ghost before = *clients;
                                    let ghost q_before = *compress_queue;
                                    let session = clients.index_mut(ci);
                                    let jobs = send_chunks_to_client(
                                        world.get_chunks_map(),
                                        entity,
                                        &center,
                                        session,
                                        compress_queue,
                                    );
                                    proof {
                                        assert forall|i: int, j: int|
                                            0 <= i < j < clients.spec_players().len() implies
                                            clients.spec_players()[i].spec_client_id()
                                            != clients.spec_players()[j].spec_client_id() by {
                                            assert(clients.spec_players()[i].spec_client_id()
                                                == before.spec_players()[i].spec_client_id());
                                            assert(clients.spec_players()[j].spec_client_id()
                                                == before.spec_players()[j].spec_client_id());
                                        }
                                        assert forall|i: int|
                                            0 <= i < clients.spec_players().len() implies (
                                        #[trigger] clients.spec_players()[i]).wf() by {
                                            if i != ci {
                                                assert(clients.spec_players()[i]
                                                    == before.spec_players()[i]);
                                            }
                                        }
                                        assert forall|i: int|
                                            ci + 1 <= i < n implies #[trigger] clients.spec_players()[
                                            i
                                        ] == old(clients).spec_players()[i] by {
                                            assert(clients.spec_players()[i]
                                                == before.spec_players()[i]);
                                        }
                                        assert(client_send_ready(*worlds_manager, c_here));
                                        assert(send_pass_post(
                                            world.chunks_map,
                                            entity,
                                            center,
                                            c_here,
                                            clients.spec_players()[ci as int],
                                            jobs@,
                                        ));
                                        assert forall|k: int|
                                            old(compress_queue).jobs@.len() <= k
                                                < compress_queue.jobs@.len()
                                            implies queue_entry_linked(
                                            *old(clients),
                                            *clients,
                                            #[trigger] compress_queue.jobs@[k],
                                        ) by {
                                            let j = compress_queue.jobs@[k];
                                            if k < q_before.jobs@.len() {
                                                assert(compress_queue.jobs@[k]
                                                    == q_before.jobs@[k]);
                                                assert(queue_entry_linked(
                                                    *old(clients),
                                                    before,
                                                    j,
                                                ));
                                                let i = choose|i: int|
                                                    0 <= i < old(clients).spec_players().len()
                                                        && (#[trigger] old(
                                                        clients,
                                                    ).spec_players()[i]).spec_client_id()
                                                        == j.client_id && before.spec_players()[
                                                        i
                                                    ].spec_sent_contains(j.position) && !old(
                                                        clients,
                                                    ).spec_players()[i].spec_sent_contains(
                                                        j.position,
                                                    );
                                                assert(clients.spec_players()[
                                                    i
                                                ].spec_sent_contains(j.position)) by {
                                                    if i != ci {
                                                        assert(clients.spec_players()[i]
                                                            == before.spec_players()[i]);
                                                    }
                                                };
                                                assert(queue_entry_linked(
                                                    *old(clients),
                                                    *clients,
                                                    j,
                                                ));
                                            } else {
                                                let kk = k - q_before.jobs@.len();
                                                assert(compress_queue.jobs@[q_before.jobs@.len()
                                                    + kk] == j);
                                                assert(before.spec_players()[ci as int]
                                                    == c_here);
                                                assert(j.position == jobs@[kk] && j.client_id
                                                    == c_here.spec_client_id());
                                                assert(chunk_eligible(
                                                    world.chunks_map,
                                                    c_here,
                                                    entity,
                                                    jobs@[kk],
                                                ));
                                                assert(jobs@.contains(jobs@[kk]));
                                                assert(clients.spec_players()[
                                                    ci as int
                                                ].spec_sent_contains(j.position));
                                                assert(old(clients).spec_players()[
                                                    ci as int
                                                ].spec_client_id() == j.client_id);
                                                assert(queue_entry_linked(
                                                    *old(clients),
                                                    *clients,
                                                    j,
                                                ));
                                            }
                                        }
                                    }
                                },
                                None => {
                                    proof {
                                        assert(!client_send_ready(*worlds_manager, c_here));
                                    }
                                },
                            }
                        },
                        None => {
                            proof {
                                assert(!client_send_ready(*worlds_manager, c_here));
                            }
                        },
                    }
                },
                None => {
                    proof {
                        assert(!client_send_ready(*worlds_manager, c_here));
                    }
                },
            }
        } else {
            proof {
                assert(!client_send_ready(*worlds_manager, c_here));
            }
        }
        ci = ci + 1;
    }
}

/// Whether a drained job is forwarded to a session: the job addresses
/// its client id, the session is still connected, and the job's world
/// holds its chunk loaded with the zip writer accepting the frame.
pub open spec fn delivers(worlds: WorldsManager, j: CompressJob, c: ClientNetwork) -> bool {
    &&& j.client_id == c.spec_client_id()
    &&& c.spec_connected()
    &&& worlds.spec_has_world(j.world_slug@)
    &&& {
        let w = worlds.worlds@[crate::handlers::spec_world_index(worlds, j.world_slug@)];
        &&& w.chunks_map.has_column(j.position)
        &&& w.chunks_map.spec_entry(j.position).load_state is Loaded
        &&& crate::column::frame_accepted(w.chunks_map.spec_entry(j.position).column.sections)
    }
}

/// How many of the drained jobs are forwarded to this session.
pub open spec fn deliver_count(
    worlds: WorldsManager,
    jobs: Seq<CompressJob>,
    c: ClientNetwork,
) -> int
    decreases jobs.len(),
{
    if jobs.len() == 0 {
        0
    } else {
        (if delivers(worlds, jobs[0], c) {
            1int
        } else {
            0int
        }) + deliver_count(worlds, jobs.drop_first(), c)
    }
}

/// Whether an outbox envelope is the world-info chunk frame of one of
/// the drained jobs that delivers to this session.
pub open spec fn delivered_frame(
    worlds: WorldsManager,
    jobs: Seq<CompressJob>,
    c: ClientNetwork,
    m: (NetworkMessageType, ServerMessage),
) -> bool {
    &&& m.0 is WorldInfo
    &&& exists|jj: int|
        0 <= jj < jobs.len() && #[trigger] delivers(worlds, jobs[jj], c) && (m.1
            matches ServerMessage::ChunkSectionInfoEncoded {
            world_slug,
            encoded,
            chunk_position,
        } && world_slug@ == jobs[jj].world_slug@ && chunk_position == jobs[jj].position
            && encoded@ == crate::column::spec_frame_bytes(
            worlds.worlds@[crate::handlers::spec_world_index(
                worlds,
                jobs[jj].world_slug@,
            )].chunks_map.spec_entry(jobs[jj].position).column.sections,
        ))
}

/// Drains finished compression jobs: each frame is built from the column
/// as it stands and forwarded to its client at world-info reliability —
/// exactly once per job that still finds its client connected and its
/// column loaded; every other job is dropped.
pub fn flush_compressed_chunks(
    compress_queue: &mut ChunkCompressQueue,
    worlds_manager: &WorldsManager,
    clients: &mut ClientsContainer,
)
    requires
        worlds_manager.wf(),
        old(clients).wf(),
    ensures
        final(clients).wf(),
        final(compress_queue).jobs@.len() == 0,
        final(clients).spec_players().len() == old(clients).spec_players().len(),
        forall|i: int|
            0 <= i < final(clients).spec_players().len() ==> {
                let c_new = #[trigger] final(clients).spec_players()[i];
                let c_old = old(clients).spec_players()[i];
                &&& c_new == (ClientNetwork { outbox: c_new.outbox, ..c_old })
                &&& c_new.spec_outbox().len() == c_old.spec_outbox().len() + deliver_count(
                    *worlds_manager,
                    old(compress_queue).jobs@,
                    c_old,
                )
                &&& forall|k: int|
                    0 <= k < c_old.spec_outbox().len() ==> c_new.spec_outbox()[k]
                        == c_old.spec_outbox()[k]
                &&& forall|k: int|
                    c_old.spec_outbox().len() <= k < c_new.spec_outbox().len()
                        ==> delivered_frame(
                        *worlds_manager,
                        old(compress_queue).jobs@,
                        c_old,
                        #[trigger] c_new.spec_outbox()[k],
                    )
            },
{
    let mut pending: Vec<CompressJob> = Vec::new();
    std::mem::swap(&mut pending, &mut compress_queue.jobs);
    let ghost all = pending@;
    let n = pending.len();
    let mut k: usize = 0;
    proof {
        assert(all.skip(0) =~= all);
    }
    while k < n
        invariant
            worlds_manager.wf(),
            clients.wf(),
            n == pending@.len(),
            pending@ == all,
            k <= n,
            final_like_outbox(*old(clients), *clients),
            clients.spec_players().len() == old(clients).spec_players().len(),
            forall|i: int|
                0 <= i < old(clients).spec_players().len() ==> {
                    let c_new = #[trigger] clients.spec_players()[i];
                    let c_old = old(clients).spec_players()[i];
                    &&& deliver_count(*worlds_manager, all.skip(k as int), c_old)
                        <= deliver_count(*worlds_manager, all, c_old)
                    &&& c_new.spec_outbox().len() == c_old.spec_outbox().len() + deliver_count(
                        *worlds_manager,
                        all,
                        c_old,
                    ) - deliver_count(*worlds_manager, all.skip(k as int), c_old)
                    &&& forall|m: int|
                        c_old.spec_outbox().len() <= m < c_new.spec_outbox().len()
                            ==> delivered_frame(
                            *worlds_manager,
                            all,
                            c_old,
                            #[trigger] c_new.spec_outbox()[m],
                        )
                },
        decreases n - k,
    {
        let ghost rest = all.skip(k as int);
        proof {
            assert(rest.drop_first() =~= all.skip(k as int + 1));
            assert(rest[0] == all[k as int]);
            assert forall|i: int|
                0 <= i < old(clients).spec_players().len() implies #[trigger] deliver_count(
                *worlds_manager,
                rest,
                old(clients).spec_players()[i],
            ) == (if delivers(*worlds_manager, all[k as int], old(clients).spec_players()[i]) {
                1int
            } else {
                0int
            }) + deliver_count(
                *worlds_manager,
                all.skip(k as int + 1),
                old(clients).spec_players()[i],
            ) by {}
        }
        let job = &pending[k];
        match worlds_manager.find_world(&job.world_slug) {
            Some(wi) => {
                proof {
                    crate::handlers::lemma_world_index_is(
                        *worlds_manager,
                        job.world_slug@,
                        wi as int,
                    );
                }
                let world = worlds_manager.index(wi);
                match world.get_network_chunk_bytes(&job.position) {
                    Some(message) => {
                        let prepared = PreparedChunk { client_id: job.client_id, message };
                        match clients.find_index(prepared.client_id) {
                            Some(ci) => {
                                let connected = clients.index(ci).is_connected();
                                if connected {
                                    let ghost before = *clients;
                                    let session = clients.index_mut(ci);
                                    session.send_message(
                                        NetworkMessageType::WorldInfo,
                                        prepared.message,
                                    );
                                    proof {
                                        lemma_outbox_step(*old(clients), before, *clients, ci as int);
                                        assert forall|i: int|
                                            0 <= i < old(clients).spec_players().len() implies (
                                        delivers(
                                            *worlds_manager,
                                            all[k as int],
                                            #[trigger] old(clients).spec_players()[i],
                                        ) == (i == ci)) by {
                                            let c_old = old(clients).spec_players()[i];
                                            if i != ci && c_old.spec_client_id()
                                                == all[k as int].client_id {
                                                crate::handlers::lemma_index_of_is(
                                                    before,
                                                    all[k as int].client_id,
                                                    i,
                                                );
                                                crate::handlers::lemma_index_of_is(
                                                    before,
                                                    all[k as int].client_id,
                                                    ci as int,
                                                );
                                            }
                                            if i == ci {
                                                assert(c_old.spec_connected()
                                                    == before.spec_players()[
                                                    i
                                                ].spec_connected());
                                            }
                                        }
                                        assert(delivered_frame(
                                            *worlds_manager,
                                            all,
                                            old(clients).spec_players()[ci as int],
                                            clients.spec_players()[ci as int].spec_outbox().last(),
                                        )) by {
                                            assert(delivers(
                                                *worlds_manager,
                                                all[k as int],
                                                old(clients).spec_players()[ci as int],
                                            ));
                                        };
                                    }
                                } else {
                                    proof {
                                        assert forall|i: int|
                                            0 <= i < old(clients).spec_players().len() implies !delivers(
                                            *worlds_manager,
                                            all[k as int],
                                            #[trigger] old(clients).spec_players()[i],
                                        ) by {
                                            let c_old = old(clients).spec_players()[i];
                                            if c_old.spec_client_id() == all[k as int].client_id {
                                                crate::handlers::lemma_index_of_is(
                                                    *clients,
                                                    all[k as int].client_id,
                                                    i,
                                                );
                                                crate::handlers::lemma_index_of_is(
                                                    *clients,
                                                    all[k as int].client_id,
                                                    ci as int,
                                                );
                                                assert(c_old.spec_connected()
                                                    == clients.spec_players()[
                                                    ci as int
                                                ].spec_connected());
                                            }
                                        }
                                    }
                                }
                            },
                            None => {
                                proof {
                                    assert forall|i: int|
                                        0 <= i < old(clients).spec_players().len() implies !delivers(
                                        *worlds_manager,
                                        all[k as int],
                                        #[trigger] old(clients).spec_players()[i],
                                    ) by {
                                        let c_old = old(clients).spec_players()[i];
                                        if c_old.spec_client_id() == all[k as int].client_id {
                                            assert(clients.spec_players()[i].spec_client_id()
                                                == c_old.spec_client_id());
                                            assert(clients.spec_has_client(
                                                all[k as int].client_id,
                                            ));
                                        }
                                    }
                                }
                            },
                        }
                    },
                    None => {
                        proof {
                            assert forall|i: int|
                                0 <= i < old(clients).spec_players().len() implies !delivers(
                                *worlds_manager,
                                all[k as int],
                                #[trigger] old(clients).spec_players()[i],
                            ) by {}
                        }
                    },
                }
            },
            None => {
                proof {
                    assert forall|i: int|
                        0 <= i < old(clients).spec_players().len() implies !delivers(
                        *worlds_manager,
                        all[k as int],
                        #[trigger] old(clients).spec_players()[i],
                    ) by {}
                }
            },
        }
        k = k + 1;
    }
    proof {
        assert forall|i: int| 0 <= i < old(clients).spec_players().len() implies {
            let c_new = #[trigger] clients.spec_players()[i];
            let c_old = old(clients).spec_players()[i];
            c_new.spec_outbox().len() == c_old.spec_outbox().len() + deliver_count(
                *worlds_manager,
                all,
                c_old,
            )
        } by {
            let c_old = old(clients).spec_players()[i];
            assert(deliver_count(*worlds_manager, all.skip(n as int), c_old) == 0);
        }
    }
}

/// The registries agree except that sessions' outboxes may have grown.
pub open spec fn final_like_outbox(old_c: ClientsContainer, new_c: ClientsContainer) -> bool {
    &&& new_c.spec_players().len() == old_c.spec_players().len()
    &&& forall|i: int|
        0 <= i < new_c.spec_players().len() ==> {
            let c_new = #[trigger] new_c.spec_players()[i];
            let c_old = old_c.spec_players()[i];
            &&& c_new == (ClientNetwork { outbox: c_new.outbox, ..c_old })
            &&& c_old.spec_outbox().len() <= c_new.spec_outbox().len()
            &&& forall|k: int|
                0 <= k < c_old.spec_outbox().len() ==> c_new.spec_outbox()[k]
                    == c_old.spec_outbox()[k]
        }
}

/// One outbox push keeps the outbox-growth relation and registry
/// validity.
pub proof fn lemma_outbox_step(
    base: ClientsContainer,
    before: ClientsContainer,
    after: ClientsContainer,
    ci: int,
)
    requires
        before.wf(),
        final_like_outbox(base, before),
        0 <= ci < before.spec_players().len(),
        after.spec_players() == before.spec_players().update(
            ci,
            after.spec_players()[ci],
        ),
        after.spec_players()[ci] == (ClientNetwork {
            outbox: after.spec_players()[ci].outbox,
            ..before.spec_players()[ci]
        }),
        after.spec_players()[ci].spec_outbox().len() == before.spec_players()[
            ci
        ].spec_outbox().len() + 1,
        forall|k: int|
            0 <= k < before.spec_players()[ci].spec_outbox().len() ==> after.spec_players()[
                ci
            ].spec_outbox()[k] == before.spec_players()[ci].spec_outbox()[k],
    ensures
        after.wf(),
        final_like_outbox(base, after),
{
    assert forall|i: int, j: int|
        0 <= i < j < after.spec_players().len() implies after.spec_players()[i].spec_client_id()
        != after.spec_players()[j].spec_client_id() by {
        assert(after.spec_players()[i].spec_client_id() == before.spec_players()[
            i
        ].spec_client_id());
        assert(after.spec_players()[j].spec_client_id() == before.spec_players()[
            j
        ].spec_client_id());
    }
    assert forall|i: int| 0 <= i < after.spec_players().len() implies (
    #[trigger] after.spec_players()[i]).wf() by {
        if i != ci {
            assert(after.spec_players()[i] == before.spec_players()[i]);
        } else {
            assert(before.spec_players()[i].wf());
        }
    }
    assert forall|i: int| 0 <= i < after.spec_players().len() implies {
        let c_new = #[trigger] after.spec_players()[i];
        let c_old = base.spec_players()[i];
        &&& c_new == (ClientNetwork { outbox: c_new.outbox, ..c_old })
        &&& c_old.spec_outbox().len() <= c_new.spec_outbox().len()
        &&& forall|k: int|
            0 <= k < c_old.spec_outbox().len() ==> c_new.spec_outbox()[k] == c_old.spec_outbox()[
                k
            ]
    } by {
        if i != ci {
            assert(after.spec_players()[i] == before.spec_players()[i]);
        }
    }
}

} // verus!
