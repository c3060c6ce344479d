//! One full server tick, in the engine's fixed order: network drain,
//! connection greetings, identification, disconnects, the resource
//! handshake, settings, movement, block edits, console commands, chunk
//! selection, frame flushing, the chunk-state update of every world, and
//! the spawn notices for freshly grounded players.
//!
//! The runner around it supplies the transport's decoded input and
//! performs what a tick cannot: persisting the returned write-back
//! blobs, parsing the fractional teleport coordinates of deferred
//! console lines, and sending the sessions' outboxes.

use vstd::prelude::*;

use crate::archive::{spec_parts_count, ResourcesArchive, ARCHIVE_CHUNK_SIZE};
use crate::client::WorldEntity;
use crate::clients::{clone_string, ClientsContainer};
use crate::console::{parse_console_command, run_console_command, split_words};
use crate::generator::GeneratorService;
use crate::handlers::{
    drain_network_system, handle_connection_info, handle_edit_block, handle_media_loaded,
    handle_resources_has_cache, handle_settings_loaded, on_chunk_loaded, on_connection,
    on_player_move, ConnectionMessage, NetworkChannels,
};
use crate::messages::ClientMessage;
use crate::positions::{ChunkPosition, COORD_LIMIT};
use crate::runtime::Runtime;
use crate::sender::{flush_compressed_chunks, send_chunks, ChunkCompressQueue};
use crate::settings::ServerSettings;
use crate::world::WorldsManager;

verus! {

/// What one tick hands back to its runner: per world, in registry
/// order, the evicted columns with their write-back blobs; the console
/// lines deferred to the runner (teleport coordinates are fractional and
/// parsed outside); and the spawn notices of freshly grounded players.
pub struct TickOutcome {
    pub evicted: Vec<(String, Vec<(ChunkPosition, Option<Vec<u8>>)>)>,
    pub deferred_console: Vec<(u64, String)>,
    pub spawn_notices: Vec<WorldEntity>,
}

/// Runs one tick in the fixed order. Every event channel is left empty
/// — the tick settles all of a frame's events — the compression queue is
/// flushed, a stopped runtime stays stopped, and the returned eviction
/// report pairs each world's slug, in registry order, with what its
/// chunk-state update evicted. What each phase does is stated on the
/// handler it calls.
pub fn run_tick<G: GeneratorService>(
    clients: &mut ClientsContainer,
    channels: &mut NetworkChannels,
    worlds: &mut WorldsManager,
    archive: &ResourcesArchive,
    server_settings: &ServerSettings,
    compress_queue: &mut ChunkCompressQueue,
    generator: &mut G,
    runtime: &mut Runtime,
    delta_ms: u64,
    tps: u32,
    connections: Vec<ConnectionMessage>,
    messages: Vec<(u64, ClientMessage)>,
) -> (r: TickOutcome)
    requires
        old(clients).wf(),
        old(worlds).wf(),
        archive.wf(),
        archive.is_finalized(),
        archive.spec_archive_data().len() + ARCHIVE_CHUNK_SIZE < usize::MAX,
        spec_parts_count(archive.spec_archive_data().len() as int, ARCHIVE_CHUNK_SIZE as int)
            <= u32::MAX,
    ensures
        final(clients).wf(),
        final(worlds).wf(),
        final(channels).connection@.len() == 0,
        final(channels).disconnect@.len() == 0,
        final(channels).connection_info@.len() == 0,
        final(channels).resources_has_cache@.len() == 0,
        final(channels).media_loaded@.len() == 0,
        final(channels).settings_loaded@.len() == 0,
        final(channels).player_move@.len() == 0,
        final(channels).edit_block@.len() == 0,
        final(channels).console_input@.len() == 0,
        final(compress_queue).jobs@.len() == 0,
        old(runtime).spec_is_stopped() ==> final(runtime).spec_is_stopped(),
        final(worlds).worlds@.len() == old(worlds).worlds@.len(),
        r.evicted@.len() == final(worlds).worlds@.len(),
        forall|wi: int|
            0 <= wi < r.evicted@.len() ==> (#[trigger] r.evicted@[wi]).0@
                == final(worlds).worlds@[wi].slug@,
{
    let _mid = drain_network_system(clients, channels, connections, messages);

    on_connection(clients, channels.connection.drain());

    let mut info_events = channels.connection_info.drain();
    while info_events.len() > 0
        invariant
            clients.wf(),
            archive.wf(),
            archive.is_finalized(),
            channels.connection@.len() == 0,
            channels.connection_info@.len() == 0,
        decreases info_events@.len(),
    {
        let event = info_events.remove(0);
        handle_connection_info(clients, archive, &mut channels.media_loaded, event);
    }

    let mut disconnect_events = channels.disconnect.drain();
    while disconnect_events.len() > 0
        invariant
            clients.wf(),
            worlds.wf(),
            channels.connection@.len() == 0,
            channels.connection_info@.len() == 0,
            channels.disconnect@.len() == 0,
            worlds.worlds@.len() == old(worlds).worlds@.len(),
        decreases disconnect_events@.len(),
    {
        let event = disconnect_events.remove(0);
        match clients.find_index(event.client_id) {
            Some(ci) => {
                let attachment: Option<WorldEntity> = match clients.index(ci).get_world_entity() {
                    Some(we) => Some(
                        WorldEntity::new(clone_string(we.get_world_slug()), we.get_entity()),
                    ),
                    None => None,
                };
                match attachment {
                    Some(we) => {
                        match worlds.find_world(we.get_world_slug()) {
                            Some(wi) => {
                                let ghost before = *worlds;
                                let world = worlds.index_mut(wi);
                                world.despawn_player(&we);
                                proof {
                                    crate::handlers::lemma_world_update_wf(
                                        before,
                                        *worlds,
                                        wi as int,
                                    );
                                }
                            },
                            None => {},
                        }
                    },
                    None => {},
                }
                clients.remove(event.client_id);
            },
            None => {},
        }
    }

    let mut cache_events = channels.resources_has_cache.drain();
    while cache_events.len() > 0
        invariant
            clients.wf(),
            archive.wf(),
            archive.is_finalized(),
            archive.spec_archive_data().len() + ARCHIVE_CHUNK_SIZE < usize::MAX,
            spec_parts_count(
                archive.spec_archive_data().len() as int,
                ARCHIVE_CHUNK_SIZE as int,
            ) <= u32::MAX,
            channels.connection@.len() == 0,
            channels.connection_info@.len() == 0,
            channels.disconnect@.len() == 0,
            channels.resources_has_cache@.len() == 0,
        decreases cache_events@.len(),
    {
        let event = cache_events.remove(0);
        handle_resources_has_cache(clients, archive, &mut channels.media_loaded, event);
    }

    let mut media_events = channels.media_loaded.drain();
    while media_events.len() > 0
        invariant
            clients.wf(),
            archive.wf(),
            archive.is_finalized(),
            archive.spec_archive_data().len() + ARCHIVE_CHUNK_SIZE < usize::MAX,
            spec_parts_count(
                archive.spec_archive_data().len() as int,
                ARCHIVE_CHUNK_SIZE as int,
            ) <= u32::MAX,
            channels.connection@.len() == 0,
            channels.connection_info@.len() == 0,
            channels.disconnect@.len() == 0,
            channels.resources_has_cache@.len() == 0,
            channels.media_loaded@.len() == 0,
        decreases media_events@.len(),
    {
        let event = media_events.remove(0);
        handle_media_loaded(clients, archive, server_settings, event);
    }

    let mut settings_events = channels.settings_loaded.drain();
    while settings_events.len() > 0
        invariant
            clients.wf(),
            worlds.wf(),
            channels.connection@.len() == 0,
            channels.connection_info@.len() == 0,
            channels.disconnect@.len() == 0,
            channels.resources_has_cache@.len() == 0,
            channels.media_loaded@.len() == 0,
            channels.settings_loaded@.len() == 0,
            worlds.worlds@.len() == old(worlds).worlds@.len(),
        decreases settings_events@.len(),
    {
        let event = settings_events.remove(0);
        handle_settings_loaded(clients, worlds, event);
    }

    let _merged = on_player_move(clients, worlds, channels.player_move.drain());

    let mut edit_events = channels.edit_block.drain();
    while edit_events.len() > 0
        invariant
            clients.wf(),
            worlds.wf(),
            channels.connection@.len() == 0,
            channels.connection_info@.len() == 0,
            channels.disconnect@.len() == 0,
            channels.resources_has_cache@.len() == 0,
            channels.media_loaded@.len() == 0,
            channels.settings_loaded@.len() == 0,
            channels.player_move@.len() == 0,
            channels.edit_block@.len() == 0,
            worlds.worlds@.len() == old(worlds).worlds@.len(),
        decreases edit_events@.len(),
    {
        let event = edit_events.remove(0);
        let in_bounds = event.position.x >= -COORD_LIMIT && event.position.x <= COORD_LIMIT
            && event.position.y >= -COORD_LIMIT && event.position.y <= COORD_LIMIT
            && event.position.z >= -COORD_LIMIT && event.position.z <= COORD_LIMIT;
        if in_bounds {
            handle_edit_block(clients, worlds, event);
        }
    }

    let mut deferred_console: Vec<(u64, String)> = Vec::new();
    let mut console_lines = channels.console_input.drain();
    while console_lines.len() > 0
        invariant
            clients.wf(),
            worlds.wf(),
            channels.connection@.len() == 0,
            channels.connection_info@.len() == 0,
            channels.disconnect@.len() == 0,
            channels.resources_has_cache@.len() == 0,
            channels.media_loaded@.len() == 0,
            channels.settings_loaded@.len() == 0,
            channels.player_move@.len() == 0,
            channels.edit_block@.len() == 0,
            channels.console_input@.len() == 0,
            worlds.worlds@.len() == old(worlds).worlds@.len(),
        decreases console_lines@.len(),
    {
        let (sender, line) = console_lines.remove(0);
        let words = split_words(line.as_str());
        let is_teleport = words.len() >= 1 && crate::strutil::str_eq(words[0].as_str(), "tp");
        if is_teleport {
            deferred_console.push((sender, line));
        } else {
            let cmd = parse_console_command(&line);
            run_console_command(clients, worlds, tps, sender, cmd);
        }
    }

    send_chunks(worlds, clients, compress_queue);
    flush_compressed_chunks(compress_queue, worlds, clients);

    let mut evicted: Vec<(String, Vec<(ChunkPosition, Option<Vec<u8>>)>)> = Vec::new();
    let ghost w0 = *worlds;
    let n = worlds.count();
    let mut wi: usize = 0;
    while wi < n
        invariant
            clients.wf(),
            worlds.wf(),
            w0.wf(),
            n == worlds.worlds@.len(),
            n == w0.worlds@.len(),
            wi <= n,
            evicted@.len() == wi,
            forall|j: int|
                0 <= j < n ==> (#[trigger] worlds.worlds@[j]).slug == w0.worlds@[j].slug,
            forall|j: int|
                0 <= j < wi ==> (#[trigger] evicted@[j]).0@ == w0.worlds@[j].slug@,
            channels.connection@.len() == 0,
            channels.connection_info@.len() == 0,
            channels.disconnect@.len() == 0,
            channels.resources_has_cache@.len() == 0,
            channels.media_loaded@.len() == 0,
            channels.settings_loaded@.len() == 0,
            channels.player_move@.len() == 0,
            channels.edit_block@.len() == 0,
            channels.console_input@.len() == 0,
            compress_queue.jobs@.len() == 0,
            old(runtime).spec_is_stopped() ==> runtime.spec_is_stopped(),
        decreases n - wi,
    {
        let ghost before = *worlds;
        let slug = clone_string(worlds.index(wi).get_slug());
        let blobs;
        {
            let world = worlds.index_mut(wi);
            blobs = world.update_chunks_state(delta_ms, generator, runtime);
            proof {
                crate::handlers::lemma_world_update_wf(before, *worlds, wi as int);
            }
        }
        evicted.push((slug, blobs));
        proof {
            assert forall|j: int|
                0 <= j < n implies (#[trigger] worlds.worlds@[j]).slug == w0.worlds@[j].slug by {
                if j != wi {
                    assert(worlds.worlds@[j] == before.worlds@[j]);
                }
            }
        }
        wi = wi + 1;
    }

    let spawn_notices = on_chunk_loaded(worlds, clients);

    TickOutcome { evicted, deferred_console, spawn_notices }
}

} // verus!
