//! Tiles and chunks: generation of a chunk's tile grid, and the render
//! handles that a rendered chunk owns.

use vstd::prelude::*;

use crate::config::ChunkConfig;
use crate::coords::{origin_axis, ChunkCoordinate, TileCoordinate};
use crate::terrain::{random_variant, sprite_index, sprite_index_of, TileType, SPITE_SHEET_COLUMNS};

verus! {

/// An opaque token for one tile's visual representation, handed out and
/// taken back by the render backend.
#[derive(Clone, Copy, Debug, PartialEq, Eq, Hash, Structural)]
pub struct RenderHandle(pub u64);

/// One grid cell: its position inside the chunk, its terrain kind, and the
/// sprite variant column it is drawn with.
#[derive(Clone, Copy, Debug, PartialEq, Eq, Structural)]
pub struct Tile {
    pub x: i32,
    pub y: i32,
    pub tile_type: TileType,
    pub sprite_variant: usize,
}

/// A chunk: its coordinate, its tiles in row order (cell `(x, y)` at index
/// `x * chunk_size + y`), and one render handle per tile once rendered.
#[derive(Debug)]
pub struct Chunk {
    pub position: ChunkCoordinate,
    pub tiles: Vec<Tile>,
    pub handles: Vec<RenderHandle>,
}

/// The local `x` of the cell stored at index `i` of a chunk of edge `n`.
pub open spec fn cell_x(i: int, n: int) -> int {
    i / n
}

/// The local `y` of the cell stored at index `i` of a chunk of edge `n`.
pub open spec fn cell_y(i: int, n: int) -> int {
    i % n
}

/// A complete tile grid: exactly `n * n` tiles, one per local cell, in row
/// order, each with a variant column of the sprite sheet.
pub open spec fn tiles_wf(tiles: Seq<Tile>, n: int) -> bool {
    &&& tiles.len() == n * n
    &&& forall|i: int|
        0 <= i < tiles.len() ==> {
            &&& (#[trigger] tiles[i]).x == cell_x(i, n)
            &&& tiles[i].y == cell_y(i, n)
            &&& tiles[i].sprite_variant < SPITE_SHEET_COLUMNS
        }
}

/// The chunk's origin and every tile of it lie in the tile axis range.
pub open spec fn chunk_fits(chunk: ChunkCoordinate, n: int) -> bool {
    &&& i32::MIN <= origin_axis(chunk.x as int, n)
    &&& origin_axis(chunk.x as int, n) + n - 1 <= i32::MAX
    &&& i32::MIN <= origin_axis(chunk.y as int, n)
    &&& origin_axis(chunk.y as int, n) + n - 1 <= i32::MAX
}

impl Tile {
    /// The tile's index in the sprite sheet: kind row, variant column.
    pub fn spite_index(&self) -> (r: usize)
        requires
            self.sprite_variant < SPITE_SHEET_COLUMNS,
        ensures
            r == sprite_index_of(self.tile_type, self.sprite_variant as int),
    {
        sprite_index(self.tile_type, self.sprite_variant)
    }

    /// The global tile coordinate of a cell of a chunk: chunk origin plus the
    /// cell's offset.
    pub fn get_global_tile_position(
        tile_position_in_chunk: &TileCoordinate,
        config: &ChunkConfig,
        chunk_pos: &ChunkCoordinate,
    ) -> (r: TileCoordinate)
        requires
            0 <= tile_position_in_chunk.x < config.chunk_size,
            0 <= tile_position_in_chunk.y < config.chunk_size,
            chunk_fits(*chunk_pos, config.chunk_size as int),
        ensures
            r.x == origin_axis(chunk_pos.x as int, config.chunk_size as int) + tile_position_in_chunk.x,
            r.y == origin_axis(chunk_pos.y as int, config.chunk_size as int) + tile_position_in_chunk.y,
    {
        let n = config.chunk_size as i64;
        let gx = (chunk_pos.x as i64) * n + tile_position_in_chunk.x as i64;
        let gy = (chunk_pos.y as i64) * n + tile_position_in_chunk.y as i64;
        TileCoordinate { x: gx as i32, y: gy as i32 }
    }
}

pub(crate) proof fn lemma_cell_bounds(i: int, n: int)
    requires
        n > 0,
        0 <= i < n * n,
    ensures
        0 <= cell_x(i, n) < n,
        0 <= cell_y(i, n) < n,
        cell_x(i, n) * n + cell_y(i, n) == i,
{
    vstd::arithmetic::div_mod::lemma_fundamental_div_mod(i, n);
    vstd::arithmetic::div_mod::lemma_mod_bound(i, n);
    vstd::arithmetic::div_mod::lemma_div_pos_is_pos(i, n);
    let q = i / n;
    assert(q < n) by (nonlinear_arith)
        requires
            n > 0,
            n * q <= i,
            i < n * n,
    ;
    vstd::arithmetic::mul::lemma_mul_is_commutative(n, q);
}

impl Chunk {
    /// A chunk whose tiles form a complete grid of edge `n`.
    pub open spec fn wf(&self, n: int) -> bool {
        tiles_wf(self.tiles@, n)
    }

    /// A complete chunk holding one render handle per tile.
    pub open spec fn is_rendered(&self, n: int) -> bool {
        &&& self.wf(n)
        &&& self.handles.len() == self.tiles.len()
    }

    /// The global tile coordinates of a chunk's cells, in row order: these are
    /// the positions at which its terrain is classified.
    pub fn global_tile_positions(chunk_pos: &ChunkCoordinate, config: &ChunkConfig) -> (r: Vec<
        TileCoordinate,
    >)
        requires
            config.valid(),
            chunk_fits(*chunk_pos, config.chunk_size as int),
        ensures
            r.len() == config.chunk_size * config.chunk_size,
            forall|i: int|
                0 <= i < r.len() ==> {
                    &&& (#[trigger] r[i]).x == origin_axis(chunk_pos.x as int, config.chunk_size as int)
                        + cell_x(i, config.chunk_size as int)
                    &&& r[i].y == origin_axis(chunk_pos.y as int, config.chunk_size as int) + cell_y(
                        i,
                        config.chunk_size as int,
                    )
                },
    {
        let n = config.chunk_size as usize;
        let total = n * n;
        let mut out: Vec<TileCoordinate> = Vec::with_capacity(total);
        let mut i: usize = 0;
        while i < total
            invariant
                n == config.chunk_size,
                total == n * n,
                i <= total,
                out.len() == i,
                config.valid(),
                chunk_fits(*chunk_pos, n as int),
                forall|k: int|
                    0 <= k < i ==> {
                        &&& (#[trigger] out[k]).x == origin_axis(chunk_pos.x as int, n as int)
                            + cell_x(k, n as int)
                        &&& out[k].y == origin_axis(chunk_pos.y as int, n as int) + cell_y(k, n as int)
                    },
            decreases total - i,
        {
            proof {
                lemma_cell_bounds(i as int, n as int);
            }
            let local = TileCoordinate { x: (i / n) as i32, y: (i % n) as i32 };
            let g = Tile::get_global_tile_position(&local, config, chunk_pos);
            out.push(g);
            i = i + 1;
        }
        out
    }

    /// The tiles of a newly generated chunk, in row order: cell `i` takes the
    /// kind `tile_types[i]` classified for it and a sprite variant drawn at
    /// random.
    pub fn generate_new_chunk(config: &ChunkConfig, tile_types: &Vec<TileType>) -> (r: Vec<Tile>)
        requires
            config.valid(),
            tile_types.len() == config.chunk_size * config.chunk_size,
        ensures
            tiles_wf(r@, config.chunk_size as int),
            forall|i: int| 0 <= i < r.len() ==> (#[trigger] r[i]).tile_type == tile_types[i],
    {
        let n = config.chunk_size as usize;
        let total = n * n;
        let mut tiles: Vec<Tile> = Vec::with_capacity(total);
        let mut i: usize = 0;
        while i < total
            invariant
                n == config.chunk_size,
                total == n * n,
                total == tile_types.len(),
                i <= total,
                tiles.len() == i,
                config.valid(),
                forall|k: int|
                    0 <= k < i ==> {
                        &&& (#[trigger] tiles[k]).x == cell_x(k, n as int)
                        &&& tiles[k].y == cell_y(k, n as int)
                        &&& tiles[k].sprite_variant < SPITE_SHEET_COLUMNS
                        &&& tiles[k].tile_type == tile_types[k]
                    },
            decreases total - i,
        {
            proof {
                lemma_cell_bounds(i as int, n as int);
            }
            let variant = random_variant();
            let tile = Tile {
                x: (i / n) as i32,
                y: (i % n) as i32,
                tile_type: tile_types[i],
                sprite_variant: variant,
            };
            tiles.push(tile);
            i = i + 1;
        }
        tiles
    }

    /// A rendered chunk: its tiles together with the render handle created for
    /// each of them.
    pub fn render(chunk_pos: ChunkCoordinate, raw_data: Vec<Tile>, handles: Vec<RenderHandle>) -> (r:
        Chunk)
        requires
            handles.len() == raw_data.len(),
        ensures
            r.position == chunk_pos,
            r.tiles@ == raw_data@,
            r.handles@ == handles@,
    {
        Chunk { position: chunk_pos, tiles: raw_data, handles }
    }
}

} // verus!
