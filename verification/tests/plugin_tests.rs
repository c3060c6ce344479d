//! Plugin validation, resource packing, and the chunk wire frame.

use std::io::Read;

use voxel_server::archive::ResourcesArchive;
use voxel_server::chunkdata::{BlockDataInfo, ChunkData};
use voxel_server::codec::{encode_chunk, parse_chunk};
use voxel_server::generator::{GeneratorService, WorldGeneratorSettings};
use voxel_server::messages::ServerMessage;
use voxel_server::plugins::{is_media_allowed, pack_plugins, u64_to_string, BlockType, PluginContainer};
use voxel_server::positions::{ChunkPosition, Position, Rotation};
use voxel_server::runtime::Runtime;
use voxel_server::world::WorldManager;

fn sample_plugin() -> PluginContainer {
    PluginContainer {
        slug: "rocks".to_string(),
        title: "Rocks".to_string(),
        scripts: vec![("main.lua".to_string(), "return 1".to_string())],
        media: vec![("stone.png".to_string(), vec![1, 2, 3])],
        blocks: vec![BlockType { slug: "stone".to_string(), media: "stone.png".to_string() }],
    }
}

#[test]
fn media_extension_allow_list() {
    assert!(is_media_allowed("stone.png"));
    assert!(is_media_allowed("robot.glb"));
    assert!(!is_media_allowed("script.lua"));
    assert!(!is_media_allowed("png"));
}

#[test]
fn block_media_must_exist() {
    let mut plugin = sample_plugin();
    assert!(plugin.validate_blocks().is_ok());
    plugin.blocks.push(BlockType {
        slug: "ore".to_string(),
        media: "missing.png".to_string(),
    });
    assert_eq!(plugin.validate_blocks().unwrap_err(), "missing.png");
}

#[test]
fn local_paths_gain_the_plugin_namespace() {
    let plugin = sample_plugin();
    assert_eq!(
        plugin.local_to_global_path(&"stone.png".to_string()),
        "rocks://stone.png"
    );
}

#[test]
fn packing_refuses_duplicate_slugs() {
    let mut archive = ResourcesArchive::default();
    let plugins = vec![sample_plugin(), sample_plugin()];
    assert_eq!(pack_plugins(&plugins, &mut archive).unwrap_err(), "rocks");
}

#[test]
fn packing_builds_one_scheme_per_plugin() {
    let mut archive = ResourcesArchive::default();
    let plugins = vec![sample_plugin()];
    pack_plugins(&plugins, &mut archive).unwrap();
    archive.finalize().unwrap();

    let schemes = archive.get_resources_scheme();
    assert_eq!(schemes.len(), 1);
    assert_eq!(schemes[0].slug, "rocks");
    assert_eq!(schemes[0].scripts.len(), 1);
    assert_eq!(schemes[0].scripts[0].1, "main.lua");
    assert_eq!(schemes[0].media.len(), 1);
    assert_eq!(schemes[0].media[0].1, "stone.png");

    // the archive really holds both files under their hash names
    let bytes = archive.get_archive_data().clone();
    let mut zip = zip::ZipArchive::new(std::io::Cursor::new(&bytes)).unwrap();
    assert_eq!(zip.len(), 2);
    let mut media = zip.by_name(&schemes[0].media[0].0).unwrap();
    let mut data = Vec::new();
    media.read_to_end(&mut data).unwrap();
    assert_eq!(data, vec![1, 2, 3]);
}

#[test]
fn decimal_rendering_matches_the_standard_library() {
    for n in [0u64, 7, 10, 99, 1000, 431488420107704094, u64::MAX] {
        assert_eq!(u64_to_string(n), n.to_string());
    }
}

struct OneBlockGenerator;

impl GeneratorService for OneBlockGenerator {
    fn generate(
        &mut self,
        _position: ChunkPosition,
        _settings: &WorldGeneratorSettings,
    ) -> Result<ChunkData, String> {
        let mut data = ChunkData::new_air(1);
        data.change_block(
            0,
            &voxel_server::positions::ChunkBlockPosition::new(1, 2, 3),
            Some(BlockDataInfo { id: 77 }),
        );
        Ok(data)
    }
}

/// The chunk wire frame really compresses: the envelope is a zip whose
/// single deflated entry decodes back to the column's exact contents.
#[test]
fn chunk_frame_is_a_deflated_blob_of_the_sections() {
    let mut world = WorldManager::new(
        "default".to_string(),
        WorldGeneratorSettings::new("default".to_string(), 1),
    );
    let mut runtime = Runtime::new();
    let mut generator = OneBlockGenerator;
    world.spawn_player(Position::new(500, 100000, 500), Rotation::new(0, 0), Some(1), Vec::new());
    world.update_chunks_state(16, &mut generator, &mut runtime);

    let origin = ChunkPosition::new(0, 0);
    let message = world.get_network_chunk_bytes(&origin).unwrap();
    let encoded = match message {
        ServerMessage::ChunkSectionInfoEncoded { world_slug, encoded, chunk_position } => {
            assert_eq!(world_slug.as_str(), "default");
            assert_eq!((chunk_position.x, chunk_position.z), (0, 0));
            encoded
        },
        other => panic!("expected a chunk frame, got {:?}", other),
    };

    let mut zip = zip::ZipArchive::new(std::io::Cursor::new(&encoded)).unwrap();
    let mut entry = zip.by_name("sections").unwrap();
    assert!(entry.compressed_size() < entry.size());
    let mut blob = Vec::new();
    entry.read_to_end(&mut blob).unwrap();

    let parsed = parse_chunk(&blob).unwrap();
    assert_eq!(
        parsed.get_block(0, &voxel_server::positions::ChunkBlockPosition::new(1, 2, 3)),
        Some(BlockDataInfo { id: 77 })
    );
    let column = world.get_chunks_map().get_chunk_column(&origin).unwrap();
    assert_eq!(encode_chunk(&parsed), encode_chunk(column.get_sections()));

    // a missing or unloaded column yields no frame
    assert!(world.get_network_chunk_bytes(&ChunkPosition::new(999, 999)).is_none());
}
