//! Tests for the composed tick, the case-folded log levels and the
//! profiling span.

use voxel_server::archive::ResourcesArchive;
use voxel_server::chunkdata::ChunkData;
use voxel_server::clients::ClientsContainer;
use voxel_server::generator::{GeneratorService, WorldGeneratorSettings};
use voxel_server::handlers::{ConnectionMessage, NetworkChannels};
use voxel_server::messages::ClientMessage;
use voxel_server::positions::ChunkPosition;
use voxel_server::profiler::RuntimeSpan;
use voxel_server::runtime::Runtime;
use voxel_server::sender::ChunkCompressQueue;
use voxel_server::settings::{get_log_level, is_log_level, LogLevel, ServerSettings};
use voxel_server::tick::run_tick;
use voxel_server::world::WorldsManager;

struct AirGenerator;

impl GeneratorService for AirGenerator {
    fn generate(
        &mut self,
        _position: ChunkPosition,
        _settings: &WorldGeneratorSettings,
    ) -> Result<ChunkData, String> {
        Ok(ChunkData::new_air(4))
    }
}

fn fresh_world() -> (WorldsManager, Runtime) {
    let mut worlds = WorldsManager::new();
    let mut runtime = Runtime::new();
    voxel_server::bootstrap::plan_world_loading(
        Ok(Vec::new()),
        vec!["default".to_string()],
        7,
        &mut worlds,
        &mut runtime,
    )
    .unwrap();
    (worlds, runtime)
}

#[test]
fn run_tick_settles_a_connect_handshake() {
    let mut clients = ClientsContainer::new();
    let mut channels = NetworkChannels::new();
    let (mut worlds, mut runtime) = fresh_world();
    let mut archive = ResourcesArchive::default();
    archive.finalize().unwrap();
    let settings = ServerSettings::new();
    let mut queue = ChunkCompressQueue::new();
    let mut generator = AirGenerator;

    let connections = vec![ConnectionMessage::Connect {
        client_id: 9,
        ip: "127.0.0.1".to_string(),
    }];
    let messages = vec![
        (9, ClientMessage::ConnectionInfo {
            login: "nine".to_string(),
            version: "1".to_string(),
            architecture: "a".to_string(),
            rendering_device: "d".to_string(),
        }),
        (9, ClientMessage::SettingsLoaded),
    ];
    let outcome = run_tick(
        &mut clients,
        &mut channels,
        &mut worlds,
        &archive,
        &settings,
        &mut queue,
        &mut generator,
        &mut runtime,
        17,
        60,
        connections,
        messages,
    );
    assert!(runtime.is_active());
    assert_eq!(channels.connection.len(), 0);
    assert_eq!(channels.connection_info.len(), 0);
    assert_eq!(channels.settings_loaded.len(), 0);
    assert_eq!(outcome.evicted.len(), 1);
    assert_eq!(outcome.evicted[0].0, "default");
    // the client is registered, identified and attached
    let ci = clients.find_index(9).expect("registered");
    assert!(clients.index(ci).get_client_info().is_some());
    let we = clients.index(ci).get_world_entity().clone().expect("attached");
    // the spawned record carries the spawn transform and components
    let wi = worlds.find_world(&"default".to_string()).unwrap();
    let rec = worlds.index(wi).get_ecs().get_entity(we.get_entity()).unwrap();
    assert_eq!(rec.rotation.yaw_milli, 0);
    assert_eq!(rec.tag.as_ref().unwrap().tag.name, "nine");
    match &rec.skin.as_ref().unwrap().skin {
        voxel_server::entities::EntitySkinData::Fixed { resource } => {
            assert_eq!(resource, "test://godot_robot.glb");
        }
        other => panic!("unexpected skin {:?}", other),
    }
}

#[test]
fn every_encoded_chunk_parses_back() {
    let mut data = ChunkData::new_air(3);
    data.change_block(
        1,
        &voxel_server::positions::ChunkBlockPosition::new(2, 3, 4),
        Some(voxel_server::chunkdata::BlockDataInfo { id: 77 }),
    );
    let bytes = voxel_server::codec::encode_chunk(&data);
    let parsed = voxel_server::codec::parse_chunk(&bytes).expect("sound encodings parse");
    assert_eq!(parsed.len(), data.len());
    let cell = parsed.get_block(1, &voxel_server::positions::ChunkBlockPosition::new(2, 3, 4));
    assert_eq!(cell, Some(voxel_server::chunkdata::BlockDataInfo { id: 77 }));
}

#[test]
fn run_tick_defers_teleport_lines_and_runs_the_rest() {
    let mut clients = ClientsContainer::new();
    let mut channels = NetworkChannels::new();
    let (mut worlds, mut runtime) = fresh_world();
    let mut archive = ResourcesArchive::default();
    archive.finalize().unwrap();
    let settings = ServerSettings::new();
    let mut queue = ChunkCompressQueue::new();
    let mut generator = AirGenerator;

    let connections = vec![ConnectionMessage::Connect {
        client_id: 3,
        ip: "127.0.0.1".to_string(),
    }];
    let messages = vec![
        (3, ClientMessage::ConsoleInput { command: "tp 1.5 2 3".to_string() }),
        (3, ClientMessage::ConsoleInput { command: "tps".to_string() }),
    ];
    let outcome = run_tick(
        &mut clients,
        &mut channels,
        &mut worlds,
        &archive,
        &settings,
        &mut queue,
        &mut generator,
        &mut runtime,
        17,
        42,
        connections,
        messages,
    );
    assert_eq!(outcome.deferred_console.len(), 1);
    assert_eq!(outcome.deferred_console[0], (3, "tp 1.5 2 3".to_string()));
    // the tps line was answered in the tick: greeting plus one console line
    let ci = clients.find_index(3).unwrap();
    let out = clients.index_mut(ci).drain_outbox();
    assert!(out.iter().any(|(_, m)| matches!(
        m,
        voxel_server::messages::ServerMessage::ConsoleOutput { message } if message == "TPS: 42"
    )));
}

#[test]
fn log_levels_fold_ascii_case() {
    assert!(is_log_level(&"OFF".to_string()));
    assert!(is_log_level(&"Debug".to_string()));
    assert!(is_log_level(&"trace".to_string()));
    assert!(!is_log_level(&"verbose".to_string()));
    assert_eq!(get_log_level(&"OFF".to_string()), LogLevel::Off);
    assert_eq!(get_log_level(&"Info".to_string()), LogLevel::Info);
    assert_eq!(get_log_level(&"error".to_string()), LogLevel::Error);
}

#[test]
fn runtime_span_measures_forward_clocks() {
    let span = RuntimeSpan::new("tick", 1_000);
    assert_eq!(span.elapsed_nanos(4_500), 3_500);
    assert_eq!(span.elapsed_nanos(500), 0);
}
