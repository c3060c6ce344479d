//! The chunk map lifecycle, the send pipeline and the move handlers.

use voxel_server::chunkdata::{BlockDataInfo, ChunkData};
use voxel_server::client::ClientNetwork;
use voxel_server::clients::ClientsContainer;
use voxel_server::codec::{encode_chunk, parse_chunk};
use voxel_server::events::{EditBlockEvent, PlayerMoveEvent};
use voxel_server::generator::{GeneratorService, WorldGeneratorSettings};
use voxel_server::handlers::{handle_edit_block, merge_move_events};
use voxel_server::messages::{AnimationState, ServerMessage};
use voxel_server::positions::{BlockPosition, ChunkPosition, Position, Rotation};
use voxel_server::runtime::Runtime;
use voxel_server::sender::{send_chunks_to_client, ChunkCompressQueue};
use voxel_server::spiral::spiral_positions;
use voxel_server::world::WorldManager;
use voxel_server::CHUNKS_DESPAWN_TIMER_MS;

/// A generator that always produces one all-empty section.
struct FlatGenerator;

impl GeneratorService for FlatGenerator {
    fn generate(
        &mut self,
        _position: ChunkPosition,
        _settings: &WorldGeneratorSettings,
    ) -> Result<ChunkData, String> {
        Ok(ChunkData::new_air(1))
    }
}

/// A generator that always fails.
struct BrokenGenerator;

impl GeneratorService for BrokenGenerator {
    fn generate(
        &mut self,
        _position: ChunkPosition,
        _settings: &WorldGeneratorSettings,
    ) -> Result<ChunkData, String> {
        Err("the generator refused this chunk".to_string())
    }
}

fn test_world() -> WorldManager {
    WorldManager::new(
        "default".to_string(),
        WorldGeneratorSettings::new("default".to_string(), 1),
    )
}

/// Spiral order: the window's own center first, each ring complete
/// before the next.
#[test]
fn spiral_starts_at_center_and_grows_outward() {
    let center = ChunkPosition::new(0, 0);
    let spiral = spiral_positions(center, 2);
    assert_eq!(spiral.len(), 25);
    assert_eq!((spiral[0].x, spiral[0].z), (0, 0));
    let cheb = |p: &ChunkPosition| p.x.abs().max(p.z.abs());
    for w in spiral.windows(2) {
        assert!(cheb(&w[0]) <= cheb(&w[1]));
    }
    assert!(spiral[1..9].iter().all(|p| cheb(p) == 1));
    assert!(spiral[9..].iter().all(|p| cheb(p) == 2));
}

/// The chunk pipeline: a watched chunk without a stored blob goes
/// pending, then loading, then loaded, and is announced exactly once.
#[test]
fn chunk_pipeline_loads_each_watched_chunk_once() {
    let mut world = test_world();
    let mut runtime = Runtime::new();
    let mut generator = FlatGenerator;
    world.spawn_player(
        Position::new(500, 100000, 500),
        Rotation::new(0, 0),
        Some(1),
        Vec::new(),
    );
    let origin = ChunkPosition::new(0, 0);
    {
        let entry_state = world
            .get_chunks_map()
            .get_chunk_column(&origin)
            .map(|c| c.loaded);
        assert_eq!(entry_state, Some(false));
    }
    world.update_chunks_state(16, &mut generator, &mut runtime);
    assert!(runtime.is_active());
    assert!(world.get_chunks_map().is_chunk_loaded(&origin));
    // every watched chunk is announced exactly once
    let loaded = world.get_chunks_map_mut().drain_loaded_chunks();
    assert_eq!(loaded.len(), 25 * 25);
    let mut seen = std::collections::HashSet::new();
    for p in &loaded {
        assert!(seen.insert((p.x, p.z)), "chunk announced twice: {:?}", p);
    }
    // a second pass loads nothing further
    world.update_chunks_state(16, &mut generator, &mut runtime);
    assert_eq!(world.get_chunks_map_mut().drain_loaded_chunks().len(), 0);
}

/// A fatal generator error stops the runtime and loads nothing.
#[test]
fn generator_error_stops_the_runtime() {
    let mut world = test_world();
    let mut runtime = Runtime::new();
    let mut generator = BrokenGenerator;
    world.spawn_player(
        Position::new(500, 100000, 500),
        Rotation::new(0, 0),
        Some(1),
        Vec::new(),
    );
    world.update_chunks_state(16, &mut generator, &mut runtime);
    assert!(runtime.is_stopped());
    assert!(!world.get_chunks_map().is_chunk_loaded(&ChunkPosition::new(0, 0)));
    // a stopped runtime blocks further load work
    let mut flat = FlatGenerator;
    world.update_chunks_state(16, &mut flat, &mut runtime);
    assert!(!world.get_chunks_map().is_chunk_loaded(&ChunkPosition::new(0, 0)));
}

/// Queue backpressure: with a limit of four, one pass submits exactly
/// four jobs; freeing two slots lets the next pass submit two more, and
/// nothing is ever submitted twice.
#[test]
fn send_queue_backpressure() {
    let mut world = test_world();
    let mut runtime = Runtime::new();
    let mut generator = FlatGenerator;
    let entity = {
        let we = world.spawn_player(
            Position::new(500, 100000, 500),
            Rotation::new(0, 0),
            Some(5),
            Vec::new(),
        );
        we.get_entity()
    };
    world.update_chunks_state(16, &mut generator, &mut runtime);

    let mut client = ClientNetwork::new(5, "10.1.1.1".to_string(), 4);
    let mut queue = ChunkCompressQueue::new();
    let center = ChunkPosition::new(0, 0);

    send_chunks_to_client(world.get_chunks_map(), entity, &center, &mut client, &mut queue);
    assert_eq!(queue.jobs.len(), 4);
    assert!(client.is_queue_limit());

    // nothing more while the queue is full
    send_chunks_to_client(world.get_chunks_map(), entity, &center, &mut client, &mut queue);
    assert_eq!(queue.jobs.len(), 4);

    // two receipts free two slots; the next pass submits exactly two more
    let acked: Vec<ChunkPosition> =
        queue.jobs[0..2].iter().map(|j| j.position).collect();
    client.mark_chunks_as_received(&acked);
    send_chunks_to_client(world.get_chunks_map(), entity, &center, &mut client, &mut queue);
    assert_eq!(queue.jobs.len(), 6);

    // no position appears twice among the submissions
    let mut seen = std::collections::HashSet::new();
    for job in &queue.jobs {
        assert!(seen.insert((job.position.x, job.position.z)));
    }
    // nearest first: the first job is the center chunk
    assert_eq!((queue.jobs[0].position.x, queue.jobs[0].position.z), (0, 0));
}

/// Move across a chunk border: the west column of the old window is
/// abandoned, the east column of the new window acquired, and the client
/// is told to unload the abandoned chunks.
#[test]
fn move_across_chunk_boundary() {
    let mut world = test_world();
    let mut runtime = Runtime::new();
    let mut generator = FlatGenerator;
    let we = world.spawn_player(
        Position::new(500, 100000, 500),
        Rotation::new(0, 0),
        Some(3),
        Vec::new(),
    );
    world.update_chunks_state(16, &mut generator, &mut runtime);

    let mut clients = ClientsContainer::new();
    clients.add(3, "10.3.3.3".to_string(), 64);
    {
        let ci = clients.find_index(3).unwrap();
        clients.index_mut(ci).set_world_entity(we.clone());
    }

    voxel_server::handlers::move_player(
        &mut world,
        &we,
        Position::new(16500, 100000, 500),
        Rotation::new(0, 0),
        AnimationState { label: "walk".to_string() },
        &mut clients,
    );

    // the watched window moved: the old west edge is gone, the new east
    // edge is watched
    let watched = world.get_chunks_map().get_watching_chunks(we.get_entity());
    let watched: std::collections::HashSet<(i64, i64)> =
        watched.iter().map(|p| (p.x, p.z)).collect();
    assert!(!watched.contains(&(-12, 0)));
    assert!(watched.contains(&(13, 0)));
    assert_eq!(watched.len(), 25 * 25);

    // the client was told to unload exactly the abandoned west column
    let ci = clients.find_index(3).unwrap();
    let outbox = clients.index_mut(ci).drain_outbox();
    let unloads: Vec<&ServerMessage> = outbox
        .iter()
        .map(|m| &m.1)
        .filter(|m| matches!(m, ServerMessage::UnloadChunks { .. }))
        .collect();
    assert_eq!(unloads.len(), 1);
    match unloads[0] {
        ServerMessage::UnloadChunks { world_slug, chunks } => {
            assert_eq!(world_slug.as_str(), "default");
            assert_eq!(chunks.len(), 25);
            assert!(chunks.iter().all(|p| p.x == -12));
        },
        _ => unreachable!(),
    }
}

/// Move merge: many move events for one player in a tick survive as one,
/// carrying the last position.
#[test]
fn move_events_merge_to_the_last_one() {
    let mut clients = ClientsContainer::new();
    clients.add(8, "10.8.8.8".to_string(), 64);
    {
        let ci = clients.find_index(8).unwrap();
        clients
            .index_mut(ci)
            .set_world_entity(voxel_server::client::WorldEntity::new("default".to_string(), 77));
    }
    let mk = |x: i64| {
        PlayerMoveEvent::new(
            8,
            Position::new(x, 100000, 0),
            Rotation::new(0, 0),
            AnimationState { label: "run".to_string() },
        )
    };
    let merged = merge_move_events(&clients, &vec![mk(1000), mk(2000), mk(3000)]);
    assert_eq!(merged.len(), 1);
    assert_eq!(merged[0].0, 77);
    assert_eq!(merged[0].1.position.x_milli, 3000);
}

/// Unattached senders' move events are dropped by the merge.
#[test]
fn moves_from_unattached_clients_are_dropped() {
    let mut clients = ClientsContainer::new();
    clients.add(8, "10.8.8.8".to_string(), 64);
    let ev = PlayerMoveEvent::new(
        8,
        Position::new(1000, 100000, 0),
        Rotation::new(0, 0),
        AnimationState { label: "run".to_string() },
    );
    let merged = merge_move_events(&clients, &vec![ev]);
    assert_eq!(merged.len(), 0);
}

/// Edit-block authorization: a request naming a foreign world changes
/// nothing.
#[test]
fn edit_block_in_wrong_world_changes_nothing() {
    let mut world = test_world();
    let mut runtime = Runtime::new();
    let mut generator = FlatGenerator;
    let we = world.spawn_player(
        Position::new(500, 100000, 500),
        Rotation::new(0, 0),
        Some(4),
        Vec::new(),
    );
    world.update_chunks_state(16, &mut generator, &mut runtime);

    let mut worlds = voxel_server::world::WorldsManager::new();
    worlds
        .create_world(
            "default".to_string(),
            WorldGeneratorSettings::new("default".to_string(), 1),
        )
        .unwrap();
    {
        let wi = worlds.find_world(&"default".to_string()).unwrap();
        let _ = std::mem::replace(worlds.index_mut(wi), world);
    }
    let mut clients = ClientsContainer::new();
    clients.add(4, "10.4.4.4".to_string(), 64);
    {
        let ci = clients.find_index(4).unwrap();
        clients.index_mut(ci).set_world_entity(we.clone());
    }

    let target = BlockPosition::new(1, 8, 1);
    let tampered = EditBlockEvent::new(
        4,
        "otherworld".to_string(),
        target,
        Some(BlockDataInfo { id: 9 }),
    );
    handle_edit_block(&mut clients, &mut worlds, tampered);
    {
        let wi = worlds.find_world(&"default".to_string()).unwrap();
        let column = worlds
            .index(wi)
            .get_chunks_map()
            .get_chunk_column(&ChunkPosition::new(0, 0))
            .unwrap();
        assert!(!column.dirty);
    }

    // the honest request goes through and dirties the column
    let honest = EditBlockEvent::new(
        4,
        "default".to_string(),
        target,
        Some(BlockDataInfo { id: 9 }),
    );
    handle_edit_block(&mut clients, &mut worlds, honest);
    {
        let wi = worlds.find_world(&"default".to_string()).unwrap();
        let column = worlds
            .index(wi)
            .get_chunks_map()
            .get_chunk_column(&ChunkPosition::new(0, 0))
            .unwrap();
        assert!(column.dirty);
    }
}

/// Despawn: a column that loses its watcher ages and is evicted once its
/// timer passes the threshold; a dirty one is written back first.
#[test]
fn unwatched_columns_age_and_despawn() {
    let mut world = test_world();
    let mut runtime = Runtime::new();
    let mut generator = FlatGenerator;
    let we = world.spawn_player(
        Position::new(500, 100000, 500),
        Rotation::new(0, 0),
        Some(2),
        Vec::new(),
    );
    world.update_chunks_state(16, &mut generator, &mut runtime);
    {
        let column = world
            .get_chunks_map()
            .get_chunk_column(&ChunkPosition::new(0, 0))
            .unwrap();
        assert_eq!(column.despawn_timer_ms, 0);
    }
    world
        .get_chunks_map_mut()
        .edit_block(BlockPosition::new(0, 0, 0), Some(BlockDataInfo { id: 3 }))
        .unwrap();
    world.despawn_player(&we);

    // one tick under the threshold: everything still resident, aged
    world.update_chunks_state(CHUNKS_DESPAWN_TIMER_MS - 1, &mut generator, &mut runtime);
    assert_eq!(world.get_chunks_count(), 25 * 25);
    // the next tick reaches the threshold and evicts everything
    let evicted = world.update_chunks_state(1, &mut generator, &mut runtime);
    assert_eq!(evicted.len(), 0);
    let evicted = world.update_chunks_state(1, &mut generator, &mut runtime);
    assert_eq!(evicted.len(), 25 * 25);
    assert_eq!(world.get_chunks_count(), 0);
    // only the edited column carried a write-back blob
    let with_blobs: Vec<_> = evicted.iter().filter(|e| e.1.is_some()).collect();
    assert_eq!(with_blobs.len(), 1);
    assert_eq!((with_blobs[0].0.x, with_blobs[0].0.z), (0, 0));
}

/// Freshly loaded chunks produce one spawn notice per connected player
/// standing in them.
#[test]
fn loaded_chunks_notify_players_standing_there() {
    let mut worlds = voxel_server::world::WorldsManager::new();
    worlds
        .create_world(
            "default".to_string(),
            WorldGeneratorSettings::new("default".to_string(), 1),
        )
        .unwrap();
    let mut runtime = Runtime::new();
    let mut generator = FlatGenerator;
    let wi = worlds.find_world(&"default".to_string()).unwrap();
    let we = worlds.index_mut(wi).spawn_player(
        Position::new(500, 100000, 500),
        Rotation::new(0, 0),
        Some(11),
        Vec::new(),
    );
    let mut clients = ClientsContainer::new();
    clients.add(11, "10.0.0.11".to_string(), 64);
    {
        let ci = clients.find_index(11).unwrap();
        clients.index_mut(ci).set_world_entity(we.clone());
    }
    worlds.index_mut(wi).update_chunks_state(16, &mut generator, &mut runtime);
    let notices = voxel_server::handlers::on_chunk_loaded(&mut worlds, &clients);
    // the player stands in exactly one of the loaded chunks
    assert_eq!(notices.len(), 1);
    assert_eq!(notices[0].get_entity(), we.get_entity());
    // the queue was drained: nothing more to announce
    assert!(voxel_server::handlers::on_chunk_loaded(&mut worlds, &clients).is_empty());
}

/// The chunk byte format round-trips.
#[test]
fn chunk_blob_round_trip() {
    let mut data = ChunkData::new_air(2);
    data.change_block(
        1,
        &voxel_server::positions::ChunkBlockPosition::new(3, 4, 5),
        Some(BlockDataInfo { id: 1234 }),
    );
    let blob = encode_chunk(&data);
    let parsed = parse_chunk(&blob).unwrap();
    assert_eq!(parsed.len(), 2);
    assert_eq!(
        parsed.get_block(1, &voxel_server::positions::ChunkBlockPosition::new(3, 4, 5)),
        Some(BlockDataInfo { id: 1234 })
    );
    assert_eq!(
        parsed.get_block(0, &voxel_server::positions::ChunkBlockPosition::new(3, 4, 5)),
        None
    );
    assert_eq!(encode_chunk(&parsed), blob);
}

/// Garbage bytes are rejected by the parser.
#[test]
fn chunk_blob_parser_rejects_garbage() {
    assert!(parse_chunk(&vec![1, 2, 3]).is_err());
    assert!(parse_chunk(&vec![1, 0, 0, 0, 7]).is_err());
    let mut data = encode_chunk(&ChunkData::new_air(1));
    data.push(0);
    assert!(parse_chunk(&data).is_err());
}
