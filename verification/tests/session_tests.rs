//! Client sessions, the drain mapping, the scheduler rule and small
//! helpers.

use voxel_server::channel::EventChannel;
use voxel_server::client::ClientNetwork;
use voxel_server::clients::ClientsContainer;
use voxel_server::handlers::{drain_network_system, handle_client_message, ConnectionMessage, NetworkChannels};
use voxel_server::messages::{AnimationState, ClientMessage, NetworkMessageType, ServerMessage};
use voxel_server::positions::{ChunkPosition, Position, Rotation};
use voxel_server::scheduler::{PreciseScheduleRunnerPlugin, TpsCounter, SPIN_THRESHOLD_NANOS};
use voxel_server::settings::{get_log_level, LogLevel};

#[test]
fn session_tracks_sent_chunks_and_in_flight() {
    let mut c = ClientNetwork::new(1, "127.0.0.1".to_string(), 2);
    let a = ChunkPosition::new(0, 0);
    let b = ChunkPosition::new(1, 0);
    assert!(!c.is_already_sended(&a));
    c.mark_chunk_sending(&a);
    assert!(c.is_already_sended(&a));
    assert!(!c.is_queue_limit());
    c.mark_chunk_sending(&b);
    assert!(c.is_queue_limit());

    // receipts free slots but never forget what was sent
    c.mark_chunks_as_received(&vec![a]);
    assert!(!c.is_queue_limit());
    assert!(c.is_already_sended(&a));

    // receipts past the count saturate at zero
    c.mark_chunks_as_received(&vec![a, b, ChunkPosition::new(2, 2)]);
    assert!(!c.is_queue_limit());

    // forgetting makes a chunk sendable again
    c.forget_chunks(&vec![a]);
    assert!(!c.is_already_sended(&a));
    assert!(c.is_already_sended(&b));
}

#[test]
fn detaching_clears_the_sent_set() {
    let mut c = ClientNetwork::new(1, "127.0.0.1".to_string(), 8);
    c.mark_chunk_sending(&ChunkPosition::new(0, 0));
    c.set_world_entity(voxel_server::client::WorldEntity::new("default".to_string(), 4));
    c.clear_world_entity();
    assert!(c.get_world_entity().is_none());
    assert!(!c.is_already_sended(&ChunkPosition::new(0, 0)));
}

#[test]
fn drain_maps_each_message_to_its_channel() {
    let mut clients = ClientsContainer::new();
    let mut channels = NetworkChannels::new();
    let connections = vec![
        ConnectionMessage::Connect { client_id: 1, ip: "10.0.0.1".to_string() },
        ConnectionMessage::Disconnect { client_id: 9, reason: "gone".to_string() },
    ];
    let messages = vec![
        (1u64, ClientMessage::ConnectionInfo {
            login: "zoe".to_string(),
            version: "1".to_string(),
            architecture: "arm".to_string(),
            rendering_device: "gpu".to_string(),
        }),
        (1u64, ClientMessage::SettingsLoaded),
        (1u64, ClientMessage::ConsoleInput { command: "tps".to_string() }),
        (1u64, ClientMessage::ResourcesHasCache { exists: true }),
        (1u64, ClientMessage::ResourcesLoaded { last_index: 2 }),
        (1u64, ClientMessage::PlayerMove {
            position: Position::new(1, 2, 3),
            rotation: Rotation::new(0, 0),
            animation_state: AnimationState { label: "idle".to_string() },
        }),
        (2u64, ClientMessage::SettingsLoaded),
    ];
    drain_network_system(&mut clients, &mut channels, connections, messages);

    assert!(clients.find_index(1).is_some());
    assert_eq!(channels.connection.drain().len(), 1);
    assert_eq!(channels.disconnect.drain().len(), 1);
    assert_eq!(channels.connection_info.drain().len(), 1);
    // the second settings-loaded came from an unknown client and was dropped
    assert_eq!(channels.settings_loaded.drain().len(), 1);
    assert_eq!(channels.console_input.drain(), vec![(1u64, "tps".to_string())]);
    assert_eq!(channels.resources_has_cache.drain().len(), 1);
    let media = channels.media_loaded.drain();
    assert_eq!(media.len(), 1);
    assert_eq!(media[0].last_index, Some(2));
    let moves = channels.player_move.drain();
    assert_eq!(moves.len(), 1);
    assert_eq!(moves[0].position.x_milli, 1);
}

#[test]
fn chunk_receipts_settle_in_flight_in_place() {
    let mut clients = ClientsContainer::new();
    clients.add(6, "10.0.0.6".to_string(), 8);
    {
        let ci = clients.find_index(6).unwrap();
        let session = clients.index_mut(ci);
        session.mark_chunk_sending(&ChunkPosition::new(0, 0));
        session.mark_chunk_sending(&ChunkPosition::new(1, 0));
    }
    let mut channels = NetworkChannels::new();
    handle_client_message(
        &mut clients,
        &mut channels,
        6,
        ClientMessage::ChunkReceived { chunk_positions: vec![ChunkPosition::new(0, 0)] },
    );
    let ci = clients.find_index(6).unwrap();
    assert!(!clients.index(ci).is_queue_limit());
    assert!(clients.index(ci).is_already_sended(&ChunkPosition::new(0, 0)));
}

#[test]
fn console_output_goes_reliably_ordered() {
    let mut c = ClientNetwork::new(1, "127.0.0.1".to_string(), 8);
    voxel_server::handlers::NetworkPlugin::send_console_output(&mut c, "TPS: 60".to_string());
    let outbox = c.drain_outbox();
    assert_eq!(
        outbox,
        vec![(
            NetworkMessageType::ReliableOrdered,
            ServerMessage::ConsoleOutput { message: "TPS: 60".to_string() },
        )]
    );
}

#[test]
fn log_levels_parse_exactly() {
    assert_eq!(get_log_level(&"off".to_string()), LogLevel::Off);
    assert_eq!(get_log_level(&"error".to_string()), LogLevel::Error);
    assert_eq!(get_log_level(&"warn".to_string()), LogLevel::Warn);
    assert_eq!(get_log_level(&"info".to_string()), LogLevel::Info);
    assert_eq!(get_log_level(&"debug".to_string()), LogLevel::Debug);
    assert_eq!(get_log_level(&"trace".to_string()), LogLevel::Trace);
}

#[test]
fn span_names_follow_the_message_kind() {
    assert_eq!(
        voxel_server::messages::span_name_for_client_message(&ClientMessage::SettingsLoaded),
        "server.drain_network_system::SettingsLoaded"
    );
    assert_eq!(
        voxel_server::messages::span_name_for_client_message(&ClientMessage::ConsoleInput {
            command: "tps".to_string()
        }),
        "server.drain_network_system::ConsoleInput"
    );
}

#[test]
fn wait_plan_sleeps_the_bulk_and_spins_the_tail() {
    let runner = PreciseScheduleRunnerPlugin::new(60);
    let tick = 1_000_000_000 / 60;
    assert_eq!(runner.tick_duration_nanos, tick);

    // a fast tick: sleep all but the spin threshold
    let plan = runner.plan_wait(1_000_000);
    assert_eq!(plan.sleep_nanos, tick - 1_000_000 - SPIN_THRESHOLD_NANOS);
    assert_eq!(plan.spin_until_nanos, tick);

    // a tick close to the deadline: no sleep, spin only
    let plan = runner.plan_wait(tick - 1000);
    assert_eq!(plan.sleep_nanos, 0);
    assert_eq!(plan.spin_until_nanos, tick);

    // an overrunning tick: no wait at all
    let plan = runner.plan_wait(tick + 5);
    assert_eq!(plan.sleep_nanos, 0);
    assert_eq!(plan.spin_until_nanos, tick + 5);
}

#[test]
fn tps_counter_publishes_once_a_second() {
    let mut counter = TpsCounter::new();
    for _ in 0..59 {
        counter.on_tick(16_666_667);
        assert!(!counter.tps_updated);
    }
    counter.on_tick(16_666_667);
    assert!(counter.tps_updated);
    assert_eq!(counter.get_tps(), 60);
}

#[test]
fn tps_broadcast_reaches_connected_clients_once() {
    let mut clients = ClientsContainer::new();
    clients.add(1, "10.0.0.1".to_string(), 8);
    clients.add(2, "10.0.0.2".to_string(), 8);
    {
        let ci = clients.find_index(2).unwrap();
        clients.index_mut(ci).disconnect(None);
    }
    let mut counter = TpsCounter::new();
    counter.tps = 58;
    counter.tps_updated = true;
    voxel_server::handlers::tps_broadcast(&mut clients, &mut counter, true);
    assert!(!counter.tps_updated);
    {
        let ci = clients.find_index(1).unwrap();
        let outbox = clients.index_mut(ci).drain_outbox();
        assert_eq!(
            outbox,
            vec![(NetworkMessageType::Unreliable, ServerMessage::ServerStatus { tps: 58 })]
        );
    }
    {
        let ci = clients.find_index(2).unwrap();
        assert!(clients.index_mut(ci).drain_outbox().is_empty());
    }
    // a stale counter broadcasts nothing
    voxel_server::handlers::tps_broadcast(&mut clients, &mut counter, true);
    let ci = clients.find_index(1).unwrap();
    assert!(clients.index_mut(ci).drain_outbox().is_empty());
}

#[test]
fn event_channels_drain_in_emission_order() {
    let mut channel: EventChannel<u32> = EventChannel::new();
    channel.emit_event(1);
    channel.emit_event(2);
    channel.emit_event(3);
    assert_eq!(channel.drain(), vec![1, 2, 3]);
    assert_eq!(channel.len(), 0);
}

#[test]
fn kicked_by_login_lookup() {
    let mut clients = ClientsContainer::new();
    clients.add(1, "10.0.0.1".to_string(), 64);
    {
        let ci = clients.find_index(1).unwrap();
        clients.index_mut(ci).set_client_info(voxel_server::client::ClientInfo::new(
            "mallory".to_string(),
            "1".to_string(),
            "arm".to_string(),
            "gpu".to_string(),
        ));
    }
    let found = clients.find_by_login(&"mallory".to_string());
    let ci = found.unwrap();
    clients.index_mut(ci).disconnect(Some("kicked".to_string()));
    assert!(!clients.index(ci).is_connected());
    assert!(clients.find_by_login(&"nobody".to_string()).is_none());
}
