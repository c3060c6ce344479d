//! The typed events the network drain emits, one kind per channel. Each
//! carries the client id it concerns plus its event-specific fields.

use vstd::prelude::*;

use crate::chunkdata::BlockDataInfo;
use crate::messages::AnimationState;
use crate::positions::{BlockPosition, Position, Rotation};

verus! {

/// A client connected.
pub struct PlayerConnectionEvent {
    pub client_id: u64,
}

impl PlayerConnectionEvent {
    pub fn new(client_id: u64) -> (r: PlayerConnectionEvent)
        ensures
            r == (PlayerConnectionEvent { client_id }),
    {
        PlayerConnectionEvent { client_id }
    }
}

/// A client reported who it is.
pub struct PlayerConnectionInfoEvent {
    pub client_id: u64,
    pub login: String,
    pub version: String,
    pub architecture: String,
    pub rendering_device: String,
}

impl PlayerConnectionInfoEvent {
    pub fn new(
        client_id: u64,
        login: String,
        version: String,
        architecture: String,
        rendering_device: String,
    ) -> (r: PlayerConnectionInfoEvent)
        ensures
            r == (PlayerConnectionInfoEvent {
                client_id,
                login,
                version,
                architecture,
                rendering_device,
            }),
    {
        PlayerConnectionInfoEvent { client_id, login, version, architecture, rendering_device }
    }
}

/// A client disconnected.
pub struct PlayerDisconnectEvent {
    pub client_id: u64,
    pub reason: String,
}

impl PlayerDisconnectEvent {
    pub fn new(client_id: u64, reason: String) -> (r: PlayerDisconnectEvent)
        ensures
            r == (PlayerDisconnectEvent { client_id, reason }),
    {
        PlayerDisconnectEvent { client_id, reason }
    }
}

/// A client finished downloading resources up to a part, or needs none.
pub struct PlayerMediaLoadedEvent {
    pub client_id: u64,
    pub last_index: Option<u32>,
}

impl PlayerMediaLoadedEvent {
    pub fn new(client_id: u64, last_index: Option<u32>) -> (r: PlayerMediaLoadedEvent)
        ensures
            r == (PlayerMediaLoadedEvent { client_id, last_index }),
    {
        PlayerMediaLoadedEvent { client_id, last_index }
    }
}

/// A client moved.
pub struct PlayerMoveEvent {
    pub client_id: u64,
    pub position: Position,
    pub rotation: Rotation,
    pub animation_state: AnimationState,
}

impl PlayerMoveEvent {
    pub fn new(
        client_id: u64,
        position: Position,
        rotation: Rotation,
        animation_state: AnimationState,
    ) -> (r: PlayerMoveEvent)
        ensures
            r == (PlayerMoveEvent { client_id, position, rotation, animation_state }),
    {
        PlayerMoveEvent { client_id, position, rotation, animation_state }
    }
}

/// A client loaded the server settings and is ready to enter the world.
pub struct PlayerSettingsLoadedEvent {
    pub client_id: u64,
}

impl PlayerSettingsLoadedEvent {
    pub fn new(client_id: u64) -> (r: PlayerSettingsLoadedEvent)
        ensures
            r == (PlayerSettingsLoadedEvent { client_id }),
    {
        PlayerSettingsLoadedEvent { client_id }
    }
}

/// A client answered whether it has the resources archive cached.
pub struct ResourcesHasCacheEvent {
    pub client_id: u64,
    pub exists: bool,
}

impl ResourcesHasCacheEvent {
    pub fn new(client_id: u64, exists: bool) -> (r: ResourcesHasCacheEvent)
        ensures
            r == (ResourcesHasCacheEvent { client_id, exists }),
    {
        ResourcesHasCacheEvent { client_id, exists }
    }
}

/// A client asked to edit a block.
pub struct EditBlockEvent {
    pub client_id: u64,
    pub world_slug: String,
    pub position: BlockPosition,
    pub new_block_info: Option<BlockDataInfo>,
}

impl EditBlockEvent {
    pub fn new(
        client_id: u64,
        world_slug: String,
        position: BlockPosition,
        new_block_info: Option<BlockDataInfo>,
    ) -> (r: EditBlockEvent)
        ensures
            r == (EditBlockEvent { client_id, world_slug, position, new_block_info }),
    {
        EditBlockEvent { client_id, world_slug, position, new_block_info }
    }
}

} // verus!
