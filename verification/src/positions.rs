//! Coordinates of the voxel world: block positions, chunk positions and the
//! fixed-point entity positions the simulation works with.
//!
//! World space is split into vertical chunk columns of 16 x 16 blocks; a
//! chunk position is the pair of signed column indices. Entity positions are
//! kept in thousandths of a block, so that the chunk a position falls in is
//! exact integer arithmetic.

use vstd::prelude::*;

verus! {

/// Thousandths of a block per chunk side: 16 blocks of 1000 milliblocks.
pub const MILLI_PER_CHUNK: i64 = 16000;

/// Coordinates are kept inside this bound so that window arithmetic around a
/// position can never overflow an `i64`.
pub const COORD_LIMIT: i64 = 0x4000_0000_0000;

/// The 2-D index of one vertical chunk column.
#[derive(Clone, Copy, PartialEq, Eq, Structural, Debug, Hash)]
pub struct ChunkPosition {
    pub x: i64,
    pub z: i64,
}

impl ChunkPosition {
    pub fn new(x: i64, z: i64) -> (r: ChunkPosition)
        ensures
            r.x == x,
            r.z == z,
    {
        ChunkPosition { x, z }
    }
}

/// Chebyshev distance between two chunk positions: the ring index of `p`
/// in the square window around `c`.
pub open spec fn chebyshev(p: ChunkPosition, c: ChunkPosition) -> int {
    let dx = if p.x >= c.x { p.x - c.x } else { c.x - p.x };
    let dz = if p.z >= c.z { p.z - c.z } else { c.z - p.z };
    if dx >= dz {
        dx as int
    } else {
        dz as int
    }
}

/// Whether `p` lies in the square streaming window of radius `r` around `c`.
pub open spec fn in_window(p: ChunkPosition, c: ChunkPosition, r: int) -> bool {
    chebyshev(p, c) <= r
}

/// Whether a chunk position is far enough from the `i64` edges that a
/// window of any supported radius around it stays representable.
pub open spec fn chunk_in_bounds(c: ChunkPosition) -> bool {
    -COORD_LIMIT <= c.x <= COORD_LIMIT && -COORD_LIMIT <= c.z <= COORD_LIMIT
}

/// Mathematical floor of `x / d` for a positive divisor. On `int`,
/// division by a positive divisor is already the floor.
pub open spec fn floor_div(x: int, d: int) -> int
    recommends
        d > 0,
{
    x / d
}

/// Floor division of a coordinate by a positive divisor, the building block
/// of every world-to-chunk conversion.
pub fn floor_div_i64(x: i64, d: i64) -> (r: i64)
    requires
        d > 0,
        -COORD_LIMIT <= x <= COORD_LIMIT,
        d <= COORD_LIMIT,
    ensures
        r == floor_div(x as int, d as int),
{
    if x >= 0 {
        x / d
    } else {
        let n = -x;
        let q = n / d;
        let m = n % d;
        proof {
            vstd::arithmetic::div_mod::lemma_fundamental_div_mod(n as int, d as int);
            if m == 0 {
                assert(x as int == (-(q as int)) * (d as int) + 0) by (nonlinear_arith)
                    requires
                        n as int == (d as int) * (q as int) + (m as int),
                        m == 0,
                        x as int == -(n as int),
                ;
                vstd::arithmetic::div_mod::lemma_fundamental_div_mod_converse(
                    x as int,
                    d as int,
                    -(q as int),
                    0,
                );
            } else {
                assert(x as int == (-(q as int) - 1) * (d as int) + (d as int - m as int))
                    by (nonlinear_arith)
                    requires
                        n as int == (d as int) * (q as int) + (m as int),
                        x as int == -(n as int),
                ;
                vstd::arithmetic::div_mod::lemma_fundamental_div_mod_converse(
                    x as int,
                    d as int,
                    -(q as int) - 1,
                    d - m,
                );
            }
        }
        if m == 0 {
            -q
        } else {
            -q - 1
        }
    }
}

/// The position of one block in world space.
#[derive(Clone, Copy, PartialEq, Eq, Structural, Debug)]
pub struct BlockPosition {
    pub x: i64,
    pub y: i64,
    pub z: i64,
}

/// The index of one block inside a 16 x 16 x 16 chunk section.
#[derive(Clone, Copy, PartialEq, Eq, Structural, Debug)]
pub struct ChunkBlockPosition {
    pub x: u8,
    pub y: u8,
    pub z: u8,
}

impl ChunkBlockPosition {
    /// Validity: each coordinate indexes inside one section.
    pub open spec fn wf(self) -> bool {
        self.x < 16 && self.y < 16 && self.z < 16
    }

    pub fn new(x: u8, y: u8, z: u8) -> (r: ChunkBlockPosition)
        requires
            x < 16,
            y < 16,
            z < 16,
        ensures
            r == (ChunkBlockPosition { x, y, z }),
            r.wf(),
    {
        ChunkBlockPosition { x, y, z }
    }

    /// The linear index of this block inside its section's block array.
    pub open spec fn spec_index(self) -> int {
        self.y * 256 + self.z * 16 + self.x
    }

    pub fn linear_index(&self) -> (r: usize)
        requires
            self.wf(),
        ensures
            r == self.spec_index(),
            r < 4096,
    {
        (self.y as usize) * 256 + (self.z as usize) * 16 + (self.x as usize)
    }
}

/// Whether a block position is inside the coordinate bound on every axis.
pub open spec fn block_in_bounds(p: BlockPosition) -> bool {
    -COORD_LIMIT <= p.x <= COORD_LIMIT && -COORD_LIMIT <= p.y <= COORD_LIMIT && -COORD_LIMIT
        <= p.z <= COORD_LIMIT
}

impl BlockPosition {
    pub fn new(x: i64, y: i64, z: i64) -> (r: BlockPosition)
        ensures
            r == (BlockPosition { x, y, z }),
    {
        BlockPosition { x, y, z }
    }

    /// The chunk column a block position falls in.
    pub open spec fn spec_chunk_position(self) -> ChunkPosition {
        ChunkPosition { x: floor_div(self.x as int, 16) as i64, z: floor_div(self.z as int, 16) as i64 }
    }

    pub fn get_chunk_position(&self) -> (r: ChunkPosition)
        requires
            block_in_bounds(*self),
        ensures
            r == self.spec_chunk_position(),
    {
        ChunkPosition { x: floor_div_i64(self.x, 16), z: floor_div_i64(self.z, 16) }
    }

    /// The section index and in-section cell of this block, when the block
    /// lies at a representable non-negative height.
    pub fn section_and_cell(&self) -> (r: Option<(u32, ChunkBlockPosition)>)
        requires
            block_in_bounds(*self),
        ensures
            match r {
                Some((section, cell)) => {
                    &&& self.y >= 0
                    &&& section == floor_div(self.y as int, 16)
                    &&& cell.wf()
                    &&& cell.x == self.x - self.spec_chunk_position().x * 16
                    &&& cell.y == self.y % 16
                    &&& cell.z == self.z - self.spec_chunk_position().z * 16
                },
                None => self.y < 0 || floor_div(self.y as int, 16) > u32::MAX,
            },
    {
        if self.y < 0 {
            return None;
        }
        let section_wide = self.y / 16;
        if section_wide > u32::MAX as i64 {
            return None;
        }
        let section = section_wide as u32;
        let cx = floor_div_i64(self.x, 16);
        let cz = floor_div_i64(self.z, 16);
        let lx = (self.x - cx * 16) as u8;
        let ly = (self.y % 16) as u8;
        let lz = (self.z - cz * 16) as u8;
        assert(cx * 16 <= self.x < cx * 16 + 16) by {
            lemma_floor_div_range(self.x as int, 16);
        };
        assert(cz * 16 <= self.z < cz * 16 + 16) by {
            lemma_floor_div_range(self.z as int, 16);
        };
        Some((section, ChunkBlockPosition { x: lx, y: ly, z: lz }))
    }
}

/// `floor_div` really is the floor: `d * q <= x < d * q + d`.
pub proof fn lemma_floor_div_range(x: int, d: int)
    requires
        d > 0,
    ensures
        d * floor_div(x, d) <= x < d * floor_div(x, d) + d,
{
    vstd::arithmetic::div_mod::lemma_fundamental_div_mod(x, d);
    vstd::arithmetic::div_mod::lemma_mod_bound(x, d);
}

/// A fixed-point entity position: world coordinates in thousandths of a
/// block, so chunk membership is exact arithmetic.
#[derive(Clone, Copy, PartialEq, Eq, Structural, Debug)]
pub struct Position {
    pub x_milli: i64,
    pub y_milli: i64,
    pub z_milli: i64,
}

/// Whether an entity position is inside the coordinate bound on every axis.
pub open spec fn position_in_bounds(p: Position) -> bool {
    -COORD_LIMIT <= p.x_milli <= COORD_LIMIT && -COORD_LIMIT <= p.y_milli <= COORD_LIMIT
        && -COORD_LIMIT <= p.z_milli <= COORD_LIMIT
}

impl Position {
    /// Builds a position from whole-block coordinates scaled by 1000, plus a
    /// milliblock remainder on each axis.
    pub fn new(x_milli: i64, y_milli: i64, z_milli: i64) -> (r: Position)
        ensures
            r == (Position { x_milli, y_milli, z_milli }),
    {
        Position { x_milli, y_milli, z_milli }
    }

    /// The chunk column this position stands in.
    pub open spec fn spec_chunk_position(self) -> ChunkPosition {
        ChunkPosition {
            x: floor_div(self.x_milli as int, MILLI_PER_CHUNK as int) as i64,
            z: floor_div(self.z_milli as int, MILLI_PER_CHUNK as int) as i64,
        }
    }

    pub fn get_chunk_position(&self) -> (r: ChunkPosition)
        requires
            position_in_bounds(*self),
        ensures
            r == self.spec_chunk_position(),
    {
        ChunkPosition {
            x: floor_div_i64(self.x_milli, MILLI_PER_CHUNK),
            z: floor_div_i64(self.z_milli, MILLI_PER_CHUNK),
        }
    }
}

/// An entity rotation: yaw and pitch in thousandths of a degree.
#[derive(Clone, Copy, PartialEq, Eq, Structural, Debug)]
pub struct Rotation {
    pub yaw_milli: i64,
    pub pitch_milli: i64,
}

impl Rotation {
    pub fn new(yaw_milli: i64, pitch_milli: i64) -> (r: Rotation)
        ensures
            r == (Rotation { yaw_milli, pitch_milli }),
    {
        Rotation { yaw_milli, pitch_milli }
    }
}

} // verus!
