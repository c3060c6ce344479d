//! Content hashing for resource files and the resources archive.
//!
//! A hash names a resource file on the wire and lets the client detect a
//! stale cache. The digest is the standard library's `DefaultHasher` run
//! over the byte length (64-bit little endian) followed by the bytes, the
//! same stream that hashing a `Vec<u8>` through `std::hash::Hash` feeds it.

use std::collections::hash_map::DefaultHasher;
use std::hash::Hasher;
use vstd::prelude::*;
use vstd::std_specs::hash::DefaultHasherAdditionalSpecFns;

verus! {

/// The eight little-endian bytes of a 64-bit value.
pub open spec fn u64_le_bytes(n: u64) -> Seq<u8> {
    seq![
        (n & 0xff) as u8,
        ((n >> 8) & 0xff) as u8,
        ((n >> 16) & 0xff) as u8,
        ((n >> 24) & 0xff) as u8,
        ((n >> 32) & 0xff) as u8,
        ((n >> 40) & 0xff) as u8,
        ((n >> 48) & 0xff) as u8,
        ((n >> 56) & 0xff) as u8,
    ]
}

/// The digest of a byte string: the default hasher fed the length and then
/// the bytes, as hashing the owned byte vector would.
pub open spec fn spec_content_hash(data: Seq<u8>) -> u64 {
    DefaultHasher::spec_finish(seq![u64_le_bytes(data.len() as u64), data])
}

/// Builds the little-endian byte encoding of a 64-bit value.
fn u64_to_le_bytes(n: u64) -> (r: Vec<u8>)
    ensures
        r@ == u64_le_bytes(n),
{
    let mut out: Vec<u8> = Vec::new();
    out.push((n & 0xff) as u8);
    out.push(((n >> 8) & 0xff) as u8);
    out.push(((n >> 16) & 0xff) as u8);
    out.push(((n >> 24) & 0xff) as u8);
    out.push(((n >> 32) & 0xff) as u8);
    out.push(((n >> 40) & 0xff) as u8);
    out.push(((n >> 48) & 0xff) as u8);
    out.push(((n >> 56) & 0xff) as u8);
    proof {
        assert(out@ =~= u64_le_bytes(n));
    }
    out
}

/// The content hash of a byte vector.
pub fn calculate_hash(data: &Vec<u8>) -> (r: u64)
    ensures
        r == spec_content_hash(data@),
{
    let mut hasher = DefaultHasher::new();
    let len_bytes = u64_to_le_bytes(data.len() as u64);
    hasher.write(len_bytes.as_slice());
    hasher.write(data.as_slice());
    proof {
        assert(hasher@ =~= seq![u64_le_bytes(data@.len() as u64), data@]);
    }
    hasher.finish()
}

} // verus!
