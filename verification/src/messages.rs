//! Wire message envelopes: everything a client can send the server,
//! everything the server can send a client, and the reliability class each
//! outbound envelope travels under.

use vstd::prelude::*;

use crate::chunkdata::BlockDataInfo;
use crate::positions::{BlockPosition, ChunkPosition, Position, Rotation};

verus! {

/// The transport channel an outbound message is handed to.
#[derive(Clone, Copy, PartialEq, Eq, Structural, Debug)]
pub enum NetworkMessageType {
    Unreliable,
    ReliableUnordered,
    ReliableOrdered,
    WorldInfo,
}

/// A movement animation label, forwarded untouched between clients.
#[derive(Clone, PartialEq, Debug)]
pub struct AnimationState {
    pub label: String,
}

/// The per-plugin map from content hashes to resource slugs, sent with the
/// resources scheme so the client can name what it caches.
#[derive(Clone, PartialEq, Debug)]
pub struct ResourceScheme {
    pub slug: String,
    /// Pairs of content hash and script slug.
    pub scripts: Vec<(String, String)>,
    /// Pairs of content hash and media slug.
    pub media: Vec<(String, String)>,
}

/// A decoded message from a client.
#[derive(Clone, PartialEq, Debug)]
pub enum ClientMessage {
    ConnectionInfo { login: String, version: String, architecture: String, rendering_device: String },
    ConsoleInput { command: String },
    PlayerMove { position: Position, rotation: Rotation, animation_state: AnimationState },
    ChunkReceived { chunk_positions: Vec<ChunkPosition> },
    EditBlockRequest { world_slug: String, position: BlockPosition, new_block_info: Option<BlockDataInfo> },
    ResourcesHasCache { exists: bool },
    ResourcesLoaded { last_index: u32 },
    SettingsLoaded,
}

/// An envelope from the server to a client.
#[derive(Clone, PartialEq, Debug)]
pub enum ServerMessage {
    AllowConnection,
    ConsoleOutput { message: String },
    ResourcesScheme { list: Vec<ResourceScheme>, archive_hash: u64 },
    ResourcesPart { index: u32, total: u32, data: Vec<u8> },
    ServerSettings { block_id_map: Vec<(u32, String)> },
    ChunkSectionInfoEncoded { world_slug: String, encoded: Vec<u8>, chunk_position: ChunkPosition },
    ServerStatus { tps: u32 },
    UnloadChunks { world_slug: String, chunks: Vec<ChunkPosition> },
    EntityMove { entity_id: u64, position: Position, rotation: Rotation, animation_state: AnimationState },
    BlockChanged { world_slug: String, position: BlockPosition, new_block_info: Option<BlockDataInfo> },
}

/// The tracing label of one decoded client message.
pub fn span_name_for_client_message(msg: &ClientMessage) -> (r: &'static str)
    ensures
        msg is ConnectionInfo ==> r@ == "server.drain_network_system::ConnectionInfo"@,
        msg is ConsoleInput ==> r@ == "server.drain_network_system::ConsoleInput"@,
        msg is PlayerMove ==> r@ == "server.drain_network_system::PlayerMove"@,
        msg is ChunkReceived ==> r@ == "server.drain_network_system::ChunkReceived"@,
        msg is EditBlockRequest ==> r@ == "server.drain_network_system::EditBlockRequest"@,
        msg is ResourcesHasCache ==> r@ == "server.drain_network_system::ResourcesHasCache"@,
        msg is ResourcesLoaded ==> r@ == "server.drain_network_system::ResourcesLoaded"@,
        msg is SettingsLoaded ==> r@ == "server.drain_network_system::SettingsLoaded"@,
{
    proof {
        reveal_strlit("server.drain_network_system::ConnectionInfo");
        reveal_strlit("server.drain_network_system::ConsoleInput");
        reveal_strlit("server.drain_network_system::PlayerMove");
        reveal_strlit("server.drain_network_system::ChunkReceived");
        reveal_strlit("server.drain_network_system::EditBlockRequest");
        reveal_strlit("server.drain_network_system::ResourcesHasCache");
        reveal_strlit("server.drain_network_system::ResourcesLoaded");
        reveal_strlit("server.drain_network_system::SettingsLoaded");
    }
    match msg {
        ClientMessage::ConnectionInfo { .. } => "server.drain_network_system::ConnectionInfo",
        ClientMessage::ConsoleInput { .. } => "server.drain_network_system::ConsoleInput",
        ClientMessage::PlayerMove { .. } => "server.drain_network_system::PlayerMove",
        ClientMessage::ChunkReceived { .. } => "server.drain_network_system::ChunkReceived",
        ClientMessage::EditBlockRequest { .. } => "server.drain_network_system::EditBlockRequest",
        ClientMessage::ResourcesHasCache { .. } => "server.drain_network_system::ResourcesHasCache",
        ClientMessage::ResourcesLoaded { .. } => "server.drain_network_system::ResourcesLoaded",
        ClientMessage::SettingsLoaded => "server.drain_network_system::SettingsLoaded",
    }
}

} // verus!
