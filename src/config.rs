//! The streaming configuration: chunk size, render distance and seeds.

use vstd::prelude::*;

verus! {

/// The two noise seeds: one for the large biome field, one for tile detail.
#[derive(Clone, Copy, Debug, PartialEq, Eq, Structural)]
pub struct Seeds {
    pub biom: u32,
    pub tiles: u32,
}

impl Default for Seeds {
    fn default() -> (r: Self)
        ensures
            r.biom == 3654,
            r.tiles == 97123,
    {
        Seeds { biom: 3654, tiles: 97123 }
    }
}

/// How the world is cut and streamed: tiles per chunk edge, chunks of margin
/// kept around the viewpoint, and the terrain seeds.
#[derive(Clone, Copy, Debug, PartialEq, Eq, Structural)]
pub struct ChunkConfig {
    pub render_distance: u32,
    pub chunk_size: u32,
    pub seeds: Seeds,
}

impl ChunkConfig {
    /// A usable configuration: a positive chunk size whose square indexes a
    /// vector and whose edge fits a tile axis.
    pub open spec fn valid(self) -> bool {
        &&& 0 < self.chunk_size <= i32::MAX
        &&& self.chunk_size * self.chunk_size <= usize::MAX
    }
}

impl Default for ChunkConfig {
    fn default() -> (r: Self)
        ensures
            r.render_distance == 8,
            r.chunk_size == 16,
            r.seeds.biom == 3654,
            r.seeds.tiles == 97123,
    {
        ChunkConfig { seeds: Seeds::default(), render_distance: 8, chunk_size: 16 }
    }
}

} // verus!
