//! Tests for the console command pipeline and the boot-time world
//! loading decision.

use voxel_server::bootstrap::{plan_world_loading, ScannedWorld};
use voxel_server::clients::ClientsContainer;
use voxel_server::console::{parse_console_command, run_console_command, ConsoleCommand};
use voxel_server::messages::{NetworkMessageType, ServerMessage};
use voxel_server::positions::Position;
use voxel_server::runtime::Runtime;
use voxel_server::world::WorldsManager;

#[test]
fn parse_tps_world_list_and_unknown() {
    assert!(matches!(parse_console_command(&"tps".to_string()), ConsoleCommand::Tps));
    assert!(matches!(
        parse_console_command(&"  tps  ".to_string()),
        ConsoleCommand::Tps
    ));
    assert!(matches!(
        parse_console_command(&"world list".to_string()),
        ConsoleCommand::WorldList
    ));
    assert!(matches!(
        parse_console_command(&"world".to_string()),
        ConsoleCommand::Unknown
    ));
    assert!(matches!(
        parse_console_command(&"tps now".to_string()),
        ConsoleCommand::Unknown
    ));
    // the parser never produces a teleport; its coordinates are parsed
    // by the caller
    assert!(matches!(
        parse_console_command(&"tp 1 2 3".to_string()),
        ConsoleCommand::Unknown
    ));
}

#[test]
fn parse_kick_joins_reason_words() {
    match parse_console_command(&"kick bob".to_string()) {
        ConsoleCommand::Kick { login, message } => {
            assert_eq!(login, "bob");
            assert_eq!(message, "-");
        }
        other => panic!("expected kick, got {:?}", kind_of(&other)),
    }
    match parse_console_command(&"kick  bob   was  spamming".to_string()) {
        ConsoleCommand::Kick { login, message } => {
            assert_eq!(login, "bob");
            assert_eq!(message, "was spamming");
        }
        other => panic!("expected kick, got {:?}", kind_of(&other)),
    }
}

fn kind_of(cmd: &ConsoleCommand) -> &'static str {
    match cmd {
        ConsoleCommand::Tps => "tps",
        ConsoleCommand::Kick { .. } => "kick",
        ConsoleCommand::WorldList => "world list",
        ConsoleCommand::Teleport { .. } => "teleport",
        ConsoleCommand::Unknown => "unknown",
    }
}

#[test]
fn run_tps_replies_to_sender_alone() {
    let mut clients = ClientsContainer::new();
    clients.add(7, "127.0.0.1".to_string(), 4);
    clients.add(8, "127.0.0.2".to_string(), 4);
    let mut worlds = WorldsManager::new();
    run_console_command(&mut clients, &mut worlds, 60, 7, ConsoleCommand::Tps);
    let sender_out = clients.index_mut(0).drain_outbox();
    assert_eq!(sender_out.len(), 1);
    match &sender_out[0] {
        (NetworkMessageType::ReliableOrdered, ServerMessage::ConsoleOutput { message }) => {
            assert_eq!(message, "TPS: 60");
        }
        _ => panic!("expected a console line"),
    }
    assert_eq!(clients.index_mut(1).drain_outbox().len(), 0);
}

#[test]
fn run_kick_disconnects_by_login() {
    let mut clients = ClientsContainer::new();
    clients.add(1, "127.0.0.1".to_string(), 4);
    clients.add(2, "127.0.0.2".to_string(), 4);
    {
        let session = clients.index_mut(1);
        session.set_client_info(voxel_server::client::ClientInfo::new(
            "bob".to_string(),
            "1".to_string(),
            "x".to_string(),
            "gpu".to_string(),
        ));
    }
    let mut worlds = WorldsManager::new();
    run_console_command(
        &mut clients,
        &mut worlds,
        60,
        1,
        ConsoleCommand::Kick { login: "bob".to_string(), message: "be nice".to_string() },
    );
    assert!(!clients.index(1).is_connected());
    assert_eq!(
        clients.index(1).get_disconnect_reason().as_ref().map(|s| s.as_str()),
        Some("be nice")
    );
    // the sender got a confirmation line
    let sender_out = clients.index_mut(0).drain_outbox();
    assert_eq!(sender_out.len(), 1);
}

#[test]
fn run_kick_unknown_login_reports_not_found() {
    let mut clients = ClientsContainer::new();
    clients.add(1, "127.0.0.1".to_string(), 4);
    let mut worlds = WorldsManager::new();
    run_console_command(
        &mut clients,
        &mut worlds,
        60,
        1,
        ConsoleCommand::Kick { login: "ghost".to_string(), message: "-".to_string() },
    );
    assert!(clients.index(0).is_connected());
    let out = clients.index_mut(0).drain_outbox();
    assert_eq!(out.len(), 1);
    match &out[0] {
        (_, ServerMessage::ConsoleOutput { message }) => {
            assert_eq!(message, "Player with login \"ghost\" not found");
        }
        _ => panic!("expected a console line"),
    }
}

#[test]
fn run_teleport_moves_the_attached_player() {
    let mut worlds = WorldsManager::new();
    worlds
        .create_world(
            "default".to_string(),
            voxel_server::generator::WorldGeneratorSettings::new("default".to_string(), 1),
        )
        .unwrap();
    let wi = worlds.find_world(&"default".to_string()).unwrap();
    let we = worlds.index_mut(wi).spawn_player(
        Position::new(0, 100_000, 0),
        voxel_server::positions::Rotation::new(0, 0),
        Some(5),
        Vec::new(),
    );
    let mut clients = ClientsContainer::new();
    clients.add(5, "127.0.0.1".to_string(), 4);
    clients.index_mut(0).set_world_entity(we.clone());
    run_console_command(
        &mut clients,
        &mut worlds,
        60,
        5,
        ConsoleCommand::Teleport { position: Position::new(20_500, 90_000, -3_000) },
    );
    let rec = worlds.index(wi).get_ecs().get_entity(we.get_entity()).unwrap();
    assert_eq!(rec.position.x_milli, 20_500);
    assert_eq!(rec.position.y_milli, 90_000);
    assert_eq!(rec.position.z_milli, -3_000);
}

#[test]
fn plan_loads_scanned_worlds_in_order() {
    let mut worlds = WorldsManager::new();
    let mut runtime = Runtime::new();
    let scan = Ok(vec![
        ScannedWorld { slug: "alpha".to_string(), seed: 11, generator: "flat".to_string() },
        ScannedWorld { slug: "beta".to_string(), seed: 22, generator: "default".to_string() },
    ]);
    let gens = vec!["default".to_string(), "flat".to_string()];
    assert!(plan_world_loading(scan, gens, 99, &mut worlds, &mut runtime).is_ok());
    assert!(runtime.is_active());
    assert_eq!(worlds.count(), 2);
    assert_eq!(worlds.index(0).get_slug(), "alpha");
    assert_eq!(worlds.index(0).get_world_generator(), "flat");
    assert_eq!(worlds.index(1).get_slug(), "beta");
}

#[test]
fn plan_unknown_generator_stops_and_loads_nothing_further() {
    let mut worlds = WorldsManager::new();
    let mut runtime = Runtime::new();
    let scan = Ok(vec![
        ScannedWorld { slug: "alpha".to_string(), seed: 11, generator: "default".to_string() },
        ScannedWorld { slug: "beta".to_string(), seed: 22, generator: "missing".to_string() },
        ScannedWorld { slug: "gamma".to_string(), seed: 33, generator: "default".to_string() },
    ]);
    let gens = vec!["default".to_string()];
    assert!(plan_world_loading(scan, gens, 99, &mut worlds, &mut runtime).is_err());
    assert!(runtime.is_stopped());
    assert_eq!(worlds.count(), 1);
    assert_eq!(worlds.index(0).get_slug(), "alpha");
}

#[test]
fn plan_empty_scan_creates_the_default_world() {
    let mut worlds = WorldsManager::new();
    let mut runtime = Runtime::new();
    let gens = vec!["default".to_string()];
    assert!(plan_world_loading(Ok(Vec::new()), gens, 4242, &mut worlds, &mut runtime).is_ok());
    assert_eq!(worlds.count(), 1);
    assert_eq!(worlds.index(0).get_slug(), "default");
    assert_eq!(
        worlds.index(0).get_chunks_map().get_world_generator_settings().get_seed(),
        4242
    );
}

#[test]
fn plan_scan_error_stops_the_runtime() {
    let mut worlds = WorldsManager::new();
    let mut runtime = Runtime::new();
    let gens = vec!["default".to_string()];
    let scan: Result<Vec<ScannedWorld>, String> = Err("storage unreadable".to_string());
    assert!(plan_world_loading(scan, gens, 1, &mut worlds, &mut runtime).is_err());
    assert!(runtime.is_stopped());
    assert_eq!(worlds.count(), 0);
}
