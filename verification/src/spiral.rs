//! Spiral iteration order over the square chunk window around a player.
//!
//! Chunks are streamed nearest-first: the window of radius `r` around a
//! center is walked ring by ring of growing Chebyshev distance, so the
//! player's own chunk comes first and every ring is finished before the
//! next one starts.

use vstd::prelude::*;

use crate::positions::{chebyshev, chunk_in_bounds, in_window, ChunkPosition};

verus! {

broadcast use vstd::seq_lib::lemma_seq_contains_after_push;

/// The positions of one square window in spiral order: every position of
/// the window appears, ring by ring of growing Chebyshev distance, with
/// the center first.
pub fn spiral_positions(center: ChunkPosition, radius: u16) -> (r: Vec<ChunkPosition>)
    requires
        chunk_in_bounds(center),
        radius <= 0xFFFF,
    ensures
        r@.len() > 0,
        r@[0] == center,
        forall|i: int| 0 <= i < r@.len() ==> in_window(#[trigger] r@[i], center, radius as int),
        forall|p: ChunkPosition| in_window(p, center, radius as int) ==> r@.contains(p),
        forall|i: int, j: int|
            0 <= i <= j < r@.len() ==> chebyshev(r@[i], center) <= chebyshev(r@[j], center),
{
    let mut out: Vec<ChunkPosition> = Vec::new();
    let mut d: u32 = 0;
    while d <= radius as u32
        invariant
            chunk_in_bounds(center),
            d <= radius as u32 + 1,
            forall|i: int|
                0 <= i < out@.len() ==> chebyshev(#[trigger] out@[i], center) < d as int,
            forall|p: ChunkPosition| chebyshev(p, center) < d as int ==> out@.contains(p),
            forall|i: int, j: int|
                0 <= i <= j < out@.len() ==> chebyshev(out@[i], center) <= chebyshev(
                    out@[j],
                    center,
                ),
            d == 0 ==> out@.len() == 0,
            d > 0 ==> out@.len() > 0 && out@[0] == center,
        decreases radius as int - d as int + 1,
    {
        append_ring(&mut out, center, radius, d as u16);
        d = d + 1;
    }
    proof {
        assert(chebyshev(center, center) == 0);
        assert(out@.contains(center));
    }
    out
}

/// Appends every window position whose Chebyshev distance from the center
/// is exactly `d`, by scanning the full square of radius `d`.
fn append_ring(out: &mut Vec<ChunkPosition>, center: ChunkPosition, radius: u16, d: u16)
    requires
        chunk_in_bounds(center),
        d <= radius <= 0xFFFF,
        forall|i: int|
            0 <= i < old(out)@.len() ==> chebyshev(#[trigger] old(out)@[i], center) < d as int,
        forall|p: ChunkPosition| chebyshev(p, center) < d as int ==> old(out)@.contains(p),
        forall|i: int, j: int|
            0 <= i <= j < old(out)@.len() ==> chebyshev(old(out)@[i], center) <= chebyshev(
                old(out)@[j],
                center,
            ),
    ensures
        forall|i: int|
            0 <= i < final(out)@.len() ==> chebyshev(#[trigger] final(out)@[i], center)
                <= d as int,
        forall|p: ChunkPosition| chebyshev(p, center) <= d as int ==> final(out)@.contains(p),
        forall|i: int, j: int|
            0 <= i <= j < final(out)@.len() ==> chebyshev(final(out)@[i], center) <= chebyshev(
                final(out)@[j],
                center,
            ),
        final(out)@.len() >= old(out)@.len(),
        forall|i: int| 0 <= i < old(out)@.len() ==> final(out)@[i] == old(out)@[i],
        d == 0 ==> final(out)@.len() == old(out)@.len() + 1 && final(out)@[old(out)@.len() as int]
            == center,
{
    let side: u32 = 2 * (d as u32) + 1;
    let base_x: i64 = center.x - (d as i64);
    let base_z: i64 = center.z - (d as i64);
    let mut dz: u32 = 0;
    while dz < side
        invariant
            chunk_in_bounds(center),
            d <= 0xFFFF,
            side == 2 * (d as int) + 1,
            base_x == center.x - d as int,
            base_z == center.z - d as int,
            dz <= side,
            forall|i: int|
                0 <= i < out@.len() ==> chebyshev(#[trigger] out@[i], center) <= d as int,
            forall|p: ChunkPosition|
                chebyshev(p, center) < d as int ==> out@.contains(p),
            forall|p: ChunkPosition|
                (chebyshev(p, center) == d as int && p.z - base_z < dz as int) ==> out@.contains(
                    p,
                ),
            forall|i: int, j: int|
                0 <= i <= j < out@.len() ==> chebyshev(out@[i], center) <= chebyshev(
                    out@[j],
                    center,
                ),
            out@.len() >= old(out)@.len(),
            forall|i: int| 0 <= i < old(out)@.len() ==> out@[i] == old(out)@[i],
            d == 0 && dz == 0 ==> out@.len() == old(out)@.len(),
            d == 0 && dz > 0 ==> out@.len() == old(out)@.len() + 1 && out@[old(out)@.len() as int]
                == center,
        decreases side as int - dz as int,
    {
        let z: i64 = base_z + (dz as i64);
        let mut dx: u32 = 0;
        while dx < side
            invariant
                chunk_in_bounds(center),
                d <= 0xFFFF,
                side == 2 * (d as int) + 1,
                base_x == center.x - d as int,
                base_z == center.z - d as int,
                dz < side,
                z == base_z + dz as int,
                dx <= side,
                forall|i: int|
                    0 <= i < out@.len() ==> chebyshev(#[trigger] out@[i], center) <= d as int,
                forall|p: ChunkPosition|
                    chebyshev(p, center) < d as int ==> out@.contains(p),
                forall|p: ChunkPosition|
                    (chebyshev(p, center) == d as int && p.z - base_z < dz as int)
                        ==> out@.contains(p),
                forall|p: ChunkPosition|
                    (chebyshev(p, center) == d as int && p.z == z && p.x - base_x < dx as int)
                        ==> out@.contains(p),
                forall|i: int, j: int|
                    0 <= i <= j < out@.len() ==> chebyshev(out@[i], center) <= chebyshev(
                        out@[j],
                        center,
                    ),
                out@.len() >= old(out)@.len(),
                forall|i: int| 0 <= i < old(out)@.len() ==> out@[i] == old(out)@[i],
                d == 0 && dz == 0 && dx == 0 ==> out@.len() == old(out)@.len(),
                d == 0 && (dz > 0 || dx > 0) ==> out@.len() == old(out)@.len() + 1 && out@[old(
                    out,
                )@.len() as int] == center,
            decreases side as int - dx as int,
        {
            let x: i64 = base_x + (dx as i64);
            let p = ChunkPosition { x, z };
            let cheb_is_d: bool = x == center.x - (d as i64) || x == center.x + (d as i64) || z
                == center.z - (d as i64) || z == center.z + (d as i64);
            if cheb_is_d {
                out.push(p);
            }
            proof {
                assert(chebyshev(p, center) <= d as int);
                if chebyshev(p, center) == d as int {
                    assert(cheb_is_d);
                }
            }
            dx = dx + 1;
        }
        dz = dz + 1;
    }
    proof {
        assert forall|p: ChunkPosition| chebyshev(p, center) <= d as int implies out@.contains(
            p,
        ) by {
            if chebyshev(p, center) == d as int {
                assert(p.z - base_z < side as int);
            }
        }
    }
}

} // verus!
