//! The connect / resources / settings handshake, end to end.

use voxel_server::archive::{ResourcesArchive, ARCHIVE_CHUNK_SIZE};
use voxel_server::channel::EventChannel;
use voxel_server::clients::ClientsContainer;
use voxel_server::events::{
    PlayerConnectionInfoEvent, PlayerMediaLoadedEvent, PlayerSettingsLoadedEvent,
    ResourcesHasCacheEvent,
};
use voxel_server::generator::WorldGeneratorSettings;
use voxel_server::handlers::{
    handle_connection_info, handle_media_loaded, handle_resources_has_cache,
    handle_settings_loaded, on_connection,
};
use voxel_server::messages::{NetworkMessageType, ServerMessage};
use voxel_server::settings::ServerSettings;
use voxel_server::world::WorldsManager;

fn empty_archive() -> ResourcesArchive {
    let mut archive = ResourcesArchive::default();
    archive.finalize().unwrap();
    archive
}

fn info_event(client_id: u64, login: &str) -> PlayerConnectionInfoEvent {
    PlayerConnectionInfoEvent::new(
        client_id,
        login.to_string(),
        "1.0".to_string(),
        "x86_64".to_string(),
        "gpu".to_string(),
    )
}

/// Connect with no resources: the server greets the client, identifies
/// it, and sends the settings; after settings-loaded the player stands in
/// the default world at the spawn point.
#[test]
fn connect_handshake_without_resources() {
    let mut clients = ClientsContainer::new();
    clients.add(7, "127.0.0.1".to_string(), 64);
    let archive = empty_archive();
    let settings = ServerSettings::new();
    let mut media_channel: EventChannel<PlayerMediaLoadedEvent> = EventChannel::new();

    on_connection(
        &mut clients,
        vec![voxel_server::events::PlayerConnectionEvent::new(7)],
    );

    let dup = handle_connection_info(&mut clients, &archive, &mut media_channel, info_event(7, "alice"));
    assert!(!dup);
    // no resources: the client counts as media-loaded at once
    let media_events = media_channel.drain();
    assert_eq!(media_events.len(), 1);
    assert_eq!(media_events[0].client_id, 7);
    assert_eq!(media_events[0].last_index, None);

    handle_media_loaded(&mut clients, &archive, &settings, PlayerMediaLoadedEvent::new(7, None));

    let mut worlds = WorldsManager::new();
    worlds
        .create_world(
            "default".to_string(),
            WorldGeneratorSettings::new("default".to_string(), 42),
        )
        .unwrap();
    handle_settings_loaded(&mut clients, &mut worlds, PlayerSettingsLoadedEvent::new(7));

    // the outbox holds AllowConnection then ServerSettings, in order
    let ci = clients.find_index(7).unwrap();
    let outbox = clients.index_mut(ci).drain_outbox();
    assert_eq!(outbox.len(), 2);
    assert_eq!(
        outbox[0],
        (NetworkMessageType::ReliableOrdered, ServerMessage::AllowConnection)
    );
    assert!(matches!(outbox[1].1, ServerMessage::ServerSettings { .. }));

    // the player exists in the default world at (0, 100, 0)
    let we = clients.index(ci).get_world_entity().clone().unwrap();
    assert_eq!(we.get_world_slug().as_str(), "default");
    let wi = worlds.find_world(&"default".to_string()).unwrap();
    let rec = worlds.index(wi).get_ecs().get_entity(we.get_entity()).unwrap();
    assert_eq!(rec.position.x_milli, 0);
    assert_eq!(rec.position.y_milli, 100000);
    assert_eq!(rec.position.z_milli, 0);
    assert_eq!(rec.client_id, Some(7));
}

/// Streaming resources: a 2.5 MiB archive in 1 MiB parts takes three
/// parts; each confirmation pulls the next part, and the last one pulls
/// the server settings.
#[test]
fn streaming_resources_in_parts() {
    let mut archive = ResourcesArchive::default();
    archive.add_entry("bigfile".to_string(), vec![5u8; 2_621_440]);
    archive.add_resource_scheme(voxel_server::messages::ResourceScheme {
        slug: "plugin".to_string(),
        scripts: Vec::new(),
        media: vec![("hash".to_string(), "bigfile".to_string())],
    });
    archive.finalize().unwrap();
    assert_eq!(archive.get_archive_parts_count(ARCHIVE_CHUNK_SIZE), 3);

    let settings = ServerSettings::new();
    let mut clients = ClientsContainer::new();
    clients.add(9, "10.0.0.2".to_string(), 64);
    let mut media_channel: EventChannel<PlayerMediaLoadedEvent> = EventChannel::new();

    let dup = handle_connection_info(&mut clients, &archive, &mut media_channel, info_event(9, "bob"));
    assert!(!dup);
    assert_eq!(media_channel.len(), 0);
    {
        let ci = clients.find_index(9).unwrap();
        let outbox = clients.index_mut(ci).drain_outbox();
        assert_eq!(outbox.len(), 1);
        match &outbox[0].1 {
            ServerMessage::ResourcesScheme { list, archive_hash } => {
                assert_eq!(list.len(), 1);
                assert_eq!(list[0].slug, "plugin");
                assert_eq!(*archive_hash, archive.get_archive_hash());
            },
            other => panic!("expected a resources scheme, got {:?}", other),
        }
    }

    // the client has no cache: part 0 of 3 goes out
    handle_resources_has_cache(
        &mut clients,
        &archive,
        &mut media_channel,
        ResourcesHasCacheEvent::new(9, false),
    );
    let mut expected_next = 1u32;
    {
        let ci = clients.find_index(9).unwrap();
        let outbox = clients.index_mut(ci).drain_outbox();
        assert_eq!(outbox.len(), 1);
        match &outbox[0].1 {
            ServerMessage::ResourcesPart { index, total, data } => {
                assert_eq!(*index, 0);
                assert_eq!(*total, 3);
                assert_eq!(data.len(), ARCHIVE_CHUNK_SIZE);
            },
            other => panic!("expected part 0, got {:?}", other),
        }
    }

    // each confirmation brings the next part, then the settings
    for confirmed in 0..3u32 {
        handle_media_loaded(
            &mut clients,
            &archive,
            &settings,
            PlayerMediaLoadedEvent::new(9, Some(confirmed)),
        );
        let ci = clients.find_index(9).unwrap();
        let outbox = clients.index_mut(ci).drain_outbox();
        assert_eq!(outbox.len(), 1);
        if confirmed < 2 {
            match &outbox[0].1 {
                ServerMessage::ResourcesPart { index, total, .. } => {
                    assert_eq!(*index, expected_next);
                    assert_eq!(*total, 3);
                },
                other => panic!("expected part {}, got {:?}", expected_next, other),
            }
            expected_next += 1;
        } else {
            assert!(matches!(outbox[0].1, ServerMessage::ServerSettings { .. }));
        }
    }
}

/// Login uniqueness: a second session with an already-held login is
/// disconnected with the standing reason; the first stays.
#[test]
fn second_login_with_same_name_is_refused() {
    let mut clients = ClientsContainer::new();
    clients.add(1, "10.0.0.1".to_string(), 64);
    clients.add(2, "10.0.0.2".to_string(), 64);
    let archive = empty_archive();
    let mut media_channel: EventChannel<PlayerMediaLoadedEvent> = EventChannel::new();

    let dup1 = handle_connection_info(&mut clients, &archive, &mut media_channel, info_event(1, "carol"));
    assert!(!dup1);
    let dup2 = handle_connection_info(&mut clients, &archive, &mut media_channel, info_event(2, "carol"));
    assert!(dup2);

    let first = clients.index(clients.find_index(1).unwrap());
    assert!(first.is_connected());
    let second = clients.index(clients.find_index(2).unwrap());
    assert!(!second.is_connected());
    assert_eq!(
        second.get_disconnect_reason().clone().unwrap(),
        "This account is already logged in from another session."
    );
}

/// Distinct logins coexist.
#[test]
fn distinct_logins_both_stay() {
    let mut clients = ClientsContainer::new();
    clients.add(1, "10.0.0.1".to_string(), 64);
    clients.add(2, "10.0.0.2".to_string(), 64);
    let archive = empty_archive();
    let mut media_channel: EventChannel<PlayerMediaLoadedEvent> = EventChannel::new();

    assert!(!handle_connection_info(&mut clients, &archive, &mut media_channel, info_event(1, "dave")));
    assert!(!handle_connection_info(&mut clients, &archive, &mut media_channel, info_event(2, "erin")));
    assert!(clients.index(0).is_connected());
    assert!(clients.index(1).is_connected());
}
