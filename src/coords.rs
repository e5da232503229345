//! Tile space and chunk space, and the exact transforms between them.

use vstd::prelude::*;

use crate::config::ChunkConfig;

verus! {

/// A global tile-space position.
#[derive(Clone, Copy, Debug, PartialEq, Eq, Hash, Structural)]
pub struct TileCoordinate {
    pub x: i32,
    pub y: i32,
}

/// A global chunk-space position.
#[derive(Clone, Copy, Debug, PartialEq, Eq, Hash, Structural)]
pub struct ChunkCoordinate {
    pub x: i32,
    pub y: i32,
}

/// The chunk axis that holds tile axis `t`: floor division, so that negative
/// tiles fall into negative chunks.
pub open spec fn chunk_axis(t: int, chunk_size: int) -> int {
    t / chunk_size
}

/// The first tile axis of chunk axis `c`.
pub open spec fn origin_axis(c: int, chunk_size: int) -> int {
    c * chunk_size
}

/// Floor division of a tile axis by a positive chunk size.
fn floor_div_axis(t: i32, chunk_size: u32) -> (r: i32)
    requires
        chunk_size > 0,
    ensures
        r as int == chunk_axis(t as int, chunk_size as int),
{
    let q = (t as i64).checked_div_euclid(chunk_size as i64);
    proof {
        let ti = t as int;
        let n = chunk_size as int;
        let q = ti / n;
        vstd::arithmetic::div_mod::lemma_fundamental_div_mod(ti, n);
        vstd::arithmetic::div_mod::lemma_mod_bound(ti, n);
        assert(ti - n < n * q <= ti);
        assert(ti >= 0 ==> 0 <= q <= ti) by (nonlinear_arith)
            requires
                n >= 1,
                ti - n < n * q <= ti,
        ;
        assert(ti < 0 ==> ti <= q < 0) by (nonlinear_arith)
            requires
                n >= 1,
                ti - n < n * q <= ti,
        ;
    }
    match q {
        Some(v) => v as i32,
        None => 0,
    }
}

/// The chunk that holds a tile: per-axis floor division by the chunk size.
pub fn tile_to_chunk(tile: TileCoordinate, chunk_size: u32) -> (r: ChunkCoordinate)
    requires
        chunk_size > 0,
    ensures
        r.x == chunk_axis(tile.x as int, chunk_size as int),
        r.y == chunk_axis(tile.y as int, chunk_size as int),
{
    ChunkCoordinate { x: floor_div_axis(tile.x, chunk_size), y: floor_div_axis(tile.y, chunk_size) }
}

/// The chunk that holds a tile, for the chunk size of `config`.
pub fn tile_to_chunk_pos(tile_pos: &TileCoordinate, config: &ChunkConfig) -> (r: ChunkCoordinate)
    requires
        config.chunk_size > 0,
    ensures
        r.x == chunk_axis(tile_pos.x as int, config.chunk_size as int),
        r.y == chunk_axis(tile_pos.y as int, config.chunk_size as int),
{
    tile_to_chunk(*tile_pos, config.chunk_size)
}

/// The tile at the origin (lowest corner) of a chunk: `chunk * chunk_size`.
pub fn chunk_to_tile_origin(chunk: ChunkCoordinate, chunk_size: u32) -> (r: TileCoordinate)
    requires
        i32::MIN <= origin_axis(chunk.x as int, chunk_size as int) <= i32::MAX,
        i32::MIN <= origin_axis(chunk.y as int, chunk_size as int) <= i32::MAX,
    ensures
        r.x == origin_axis(chunk.x as int, chunk_size as int),
        r.y == origin_axis(chunk.y as int, chunk_size as int),
{
    let ox = (chunk.x as i64) * (chunk_size as i64);
    let oy = (chunk.y as i64) * (chunk_size as i64);
    TileCoordinate { x: ox as i32, y: oy as i32 }
}

/// A tile's offset from a chunk origin: `tile - chunk_origin`.
pub fn local_tile_in_chunk(tile: TileCoordinate, chunk_origin: TileCoordinate) -> (r: TileCoordinate)
    requires
        i32::MIN <= tile.x - chunk_origin.x <= i32::MAX,
        i32::MIN <= tile.y - chunk_origin.y <= i32::MAX,
    ensures
        r.x == tile.x - chunk_origin.x,
        r.y == tile.y - chunk_origin.y,
{
    TileCoordinate { x: tile.x - chunk_origin.x, y: tile.y - chunk_origin.y }
}

/// Splitting a tile into the origin of its chunk and its offset from that
/// origin is exact: the offset lies in `[0, chunk_size)` on each axis, origin
/// plus offset is the tile again, and that sum maps back to the same chunk.
pub proof fn lemma_tile_chunk_round_trip(tile: TileCoordinate, chunk_size: u32)
    requires
        chunk_size > 0,
    ensures
        ({
            let n = chunk_size as int;
            let cx = chunk_axis(tile.x as int, n);
            let cy = chunk_axis(tile.y as int, n);
            let ox = origin_axis(cx, n);
            let oy = origin_axis(cy, n);
            &&& 0 <= tile.x - ox < n
            &&& 0 <= tile.y - oy < n
            &&& ox + (tile.x - ox) == tile.x
            &&& oy + (tile.y - oy) == tile.y
            &&& chunk_axis(ox + (tile.x - ox), n) == cx
            &&& chunk_axis(oy + (tile.y - oy), n) == cy
        }),
{
    let n = chunk_size as int;
    lemma_axis_split(tile.x as int, n);
    lemma_axis_split(tile.y as int, n);
}

/// Every tile of a chunk, origin plus an offset in `[0, chunk_size)`, maps
/// back to that chunk.
pub proof fn lemma_chunk_of_tile_in_chunk(chunk: ChunkCoordinate, local: TileCoordinate, chunk_size: u32)
    requires
        chunk_size > 0,
        0 <= local.x < chunk_size,
        0 <= local.y < chunk_size,
    ensures
        chunk_axis(origin_axis(chunk.x as int, chunk_size as int) + local.x, chunk_size as int) == chunk.x,
        chunk_axis(origin_axis(chunk.y as int, chunk_size as int) + local.y, chunk_size as int) == chunk.y,
{
    lemma_axis_of_origin_plus(chunk.x as int, local.x as int, chunk_size as int);
    lemma_axis_of_origin_plus(chunk.y as int, local.y as int, chunk_size as int);
}

proof fn lemma_axis_split(t: int, n: int)
    requires
        n > 0,
    ensures
        0 <= t - origin_axis(chunk_axis(t, n), n) < n,
{
    vstd::arithmetic::div_mod::lemma_fundamental_div_mod(t, n);
    vstd::arithmetic::div_mod::lemma_mod_bound(t, n);
    vstd::arithmetic::mul::lemma_mul_is_commutative(n, t / n);
}

proof fn lemma_axis_of_origin_plus(c: int, l: int, n: int)
    requires
        n > 0,
        0 <= l < n,
    ensures
        chunk_axis(origin_axis(c, n) + l, n) == c,
{
    vstd::arithmetic::div_mod::lemma_fundamental_div_mod_converse(c * n + l, n, c, l);
}

} // verus!
