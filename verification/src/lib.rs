//! Authoritative server core for a multiplayer voxel world: the tick-driven
//! simulation and chunk streaming engine.
//!
//! The crate models the per-world chunk map (load / generate / unload
//! lifecycle), the chunk visibility sets per player, the bounded per-client
//! send queues, the network drain and event channels, and the handshake and
//! command handlers, each with a verified contract.

use vstd::prelude::*;

pub mod archive;
pub mod bootstrap;
pub mod channel;
pub mod console;
pub mod chunk_map;
pub mod client;
pub mod clients;
pub mod chunkdata;
pub mod codec;
pub mod ecs;
pub mod events;
pub mod entities;
pub mod column;
pub mod generator;
pub mod handlers;
pub mod hashing;
pub mod laws;
pub mod messages;
pub mod plugins;
pub mod positions;
pub mod profiler;
pub mod runtime;
pub mod scheduler;
pub mod sender;
pub mod settings;
pub mod spiral;
pub mod strutil;
pub mod tick;
pub mod world;
pub mod ziputil;

verus! {

/// Radius, in chunks, of the square window streamed around each player.
pub const CHUNKS_DISTANCE: u16 = 12;

/// A chunk column with no watchers is evicted once its despawn timer
/// reaches this many milliseconds.
pub const CHUNKS_DESPAWN_TIMER_MS: u64 = 5000;

/// Hard limit of chunk frames that may be in flight to a single client.
pub const SEND_CHUNK_QUEUE_LIMIT: usize = 64;

} // verus!
