//! The generator service: the abstract supplier of new chunk contents.
//!
//! The chunk map asks the service for the contents of a chunk that has no
//! stored blob. An implementation typically embeds a sandboxed plugin
//! runtime; the core requires only that it can be called per position
//! with the world's generator settings.

use vstd::prelude::*;

use crate::chunkdata::ChunkData;
use crate::positions::ChunkPosition;

verus! {

/// The settings a world was created with: which generator method builds
/// it and from which seed.
#[derive(Clone, PartialEq, Debug)]
pub struct WorldGeneratorSettings {
    pub method: String,
    pub seed: u64,
}

impl WorldGeneratorSettings {
    pub fn new(method: String, seed: u64) -> (r: WorldGeneratorSettings)
        ensures
            r.method@ == method@,
            r.seed == seed,
    {
        WorldGeneratorSettings { method, seed }
    }

    pub fn get_method(&self) -> (r: &String)
        ensures
            r == self.method,
    {
        &self.method
    }

    pub fn get_seed(&self) -> (r: u64)
        ensures
            r == self.seed,
    {
        self.seed
    }
}

/// A supplier of chunk contents. Nothing is promised of the result: the
/// chunk map validates whatever comes back and treats failure as fatal.
pub trait GeneratorService {
    fn generate(&mut self, position: ChunkPosition, settings: &WorldGeneratorSettings) -> Result<
        ChunkData,
        String,
    >;
}

} // verus!
