//! One vertical chunk column: its block sections, load flag, dirty flag
//! and idle-despawn timer.
//!
//! A column is created empty when an entity starts watching its position,
//! becomes loaded when a background load finishes, ages towards despawn
//! while nothing watches it, and is framed for the wire on demand.

use vstd::prelude::*;

use crate::chunkdata::{BlockDataInfo, ChunkData};
use crate::codec::{chunk_bytes, encode_chunk};
use crate::messages::ServerMessage;
use crate::positions::{ChunkBlockPosition, ChunkPosition};
use crate::ziputil::{
    zip_archive_of, zip_entries, zip_finish, zip_finish_ok, zip_start_file_deflated,
    zip_start_ok, zip_write_data, zip_write_ok, zip_writer_new,
};

verus! {

/// The wire frame of a chunk's contents: its byte blob as the single
/// deflated entry of a zip archive.
pub open spec fn spec_frame_bytes(d: ChunkData) -> Seq<u8> {
    zip_archive_of(seq![("sections"@, chunk_bytes(d), true)])
}

/// Whether the zip writer accepts framing these contents: the one entry
/// is begun, written and finished without refusal.
pub open spec fn frame_accepted(d: ChunkData) -> bool {
    &&& zip_start_ok(seq![("sections"@, Seq::<u8>::empty(), true)])
    &&& zip_write_ok(seq![("sections"@, chunk_bytes(d), true)])
    &&& zip_finish_ok(seq![("sections"@, chunk_bytes(d), true)])
}

/// One vertical column of the world at a chunk position.
pub struct ChunkColumn {
    pub chunk_position: ChunkPosition,
    pub world_slug: String,
    pub sections: ChunkData,
    pub despawn_timer_ms: u64,
    pub loaded: bool,
    pub dirty: bool,
}

impl ChunkColumn {
    /// Validity: sections are well-formed; a loaded column has at least
    /// one section and a representable count; an unloaded one has none
    /// and cannot be dirty.
    pub open spec fn wf(self) -> bool {
        &&& self.sections.wf()
        &&& self.loaded ==> 0 < self.sections@.len() <= u32::MAX
        &&& !self.loaded ==> self.sections@.len() == 0 && !self.dirty
    }

    /// A fresh, unloaded column with a zeroed despawn timer.
    pub fn new(chunk_position: ChunkPosition, world_slug: String) -> (r: ChunkColumn)
        ensures
            r.wf(),
            r == (ChunkColumn {
                chunk_position,
                world_slug,
                sections: r.sections,
                despawn_timer_ms: 0,
                loaded: false,
                dirty: false,
            }),
            r.sections@.len() == 0,
    {
        ChunkColumn {
            chunk_position,
            world_slug,
            sections: ChunkData::new_empty(),
            despawn_timer_ms: 0,
            loaded: false,
            dirty: false,
        }
    }

    /// Installs the loaded contents: the column becomes loaded and clean.
    pub fn set_sections(&mut self, chunk_data: ChunkData)
        requires
            old(self).wf(),
            chunk_data.wf(),
            0 < chunk_data@.len() <= u32::MAX,
        ensures
            final(self).wf(),
            *final(self) == (ChunkColumn {
                sections: chunk_data,
                loaded: true,
                dirty: false,
                ..*old(self)
            }),
    {
        self.sections = chunk_data;
        self.loaded = true;
        self.dirty = false;
    }

    pub fn get_sections(&self) -> (r: &ChunkData)
        ensures
            r == self.sections,
    {
        &self.sections
    }

    pub fn get_chunk_position(&self) -> (r: &ChunkPosition)
        ensures
            r == self.chunk_position,
    {
        &self.chunk_position
    }

    pub fn is_loaded(&self) -> (r: bool)
        ensures
            r == self.loaded,
    {
        self.loaded
    }

    /// Replaces one block of one section; the column becomes dirty, so
    /// the next save writes it back.
    pub fn change_block(
        &mut self,
        section: u32,
        chunk_block: &ChunkBlockPosition,
        new_block_info: Option<BlockDataInfo>,
    )
        requires
            old(self).wf(),
            old(self).loaded,
            section < old(self).sections@.len(),
            chunk_block.wf(),
        ensures
            final(self).wf(),
            *final(self) == (ChunkColumn {
                sections: final(self).sections,
                dirty: true,
                ..*old(self)
            }),
            final(self).sections@.len() == old(self).sections@.len(),
            final(self).sections@[section as int]@ == old(self).sections@[
                section as int
            ]@.update(chunk_block.spec_index(), new_block_info),
            forall|i: int|
                0 <= i < old(self).sections@.len() && i != section ==> final(self).sections@[i]
                    == old(self).sections@[i],
    {
        self.sections.change_block(section, chunk_block, new_block_info);
        self.dirty = true;
    }

    /// Whether the idle timer has reached the despawn threshold.
    pub fn is_for_despawn(&self, duration_ms: u64) -> (r: bool)
        ensures
            r == (self.despawn_timer_ms >= duration_ms),
    {
        self.despawn_timer_ms >= duration_ms
    }

    pub fn set_despawn_timer(&mut self, new_despawn_ms: u64)
        ensures
            *final(self) == (ChunkColumn { despawn_timer_ms: new_despawn_ms, ..*old(self) }),
    {
        self.despawn_timer_ms = new_despawn_ms;
    }

    /// Advances the idle timer, saturating at the maximum.
    pub fn increase_despawn_timer(&mut self, delta_ms: u64)
        ensures
            *final(self) == (ChunkColumn {
                despawn_timer_ms: final(self).despawn_timer_ms,
                ..*old(self)
            }),
            final(self).despawn_timer_ms == if old(self).despawn_timer_ms + delta_ms <= u64::MAX {
                old(self).despawn_timer_ms + delta_ms
            } else {
                u64::MAX as int
            },
    {
        if self.despawn_timer_ms <= u64::MAX - delta_ms {
            self.despawn_timer_ms = self.despawn_timer_ms + delta_ms;
        } else {
            self.despawn_timer_ms = u64::MAX;
        }
    }

    /// Builds the wire envelope of this column's contents: the world slug,
    /// the chunk position and the compressed section bytes.
    pub fn build_network_format(&self) -> (r: Result<ServerMessage, String>)
        requires
            self.wf(),
            self.loaded,
        ensures
            r matches Ok(msg) ==> msg matches ServerMessage::ChunkSectionInfoEncoded {
                world_slug,
                encoded,
                chunk_position,
            } && world_slug@ == self.world_slug@ && encoded@ == spec_frame_bytes(self.sections)
                && chunk_position == self.chunk_position,
            r is Ok <==> frame_accepted(self.sections),
    {
        let blob = encode_chunk(&self.sections);
        let mut writer = zip_writer_new();
        let ghost started = seq![("sections"@, Seq::<u8>::empty(), true)];
        let ghost written = seq![("sections"@, chunk_bytes(self.sections), true)];
        match zip_start_file_deflated(&mut writer, "sections") {
            Ok(()) => {
                proof {
                    assert(Seq::<(Seq<char>, Seq<u8>, bool)>::empty().push(
                        ("sections"@, Seq::<u8>::empty(), true),
                    ) =~= started);
                    assert(zip_entries(writer) =~= started);
                }
            },
            Err(e) => {
                proof {
                    assert(Seq::<(Seq<char>, Seq<u8>, bool)>::empty().push(
                        ("sections"@, Seq::<u8>::empty(), true),
                    ) =~= started);
                }
                return Err(e);
            },
        }
        proof {
            assert(started.update(
                0,
                (started.last().0, started.last().1 + blob@, started.last().2),
            ) =~= written);
        }
        match zip_write_data(&mut writer, blob.as_slice()) {
            Ok(()) => {},
            Err(e) => {
                return Err(e);
            },
        }
        proof {
            assert(zip_entries(writer) =~= seq![("sections"@, chunk_bytes(self.sections), true)]);
        }
        match zip_finish(writer) {
            Ok(encoded) => Ok(
                ServerMessage::ChunkSectionInfoEncoded {
                    world_slug: crate::clients::clone_string(&self.world_slug),
                    encoded,
                    chunk_position: self.chunk_position,
                },
            ),
            Err(e) => Err(e),
        }
    }
}

} // verus!
