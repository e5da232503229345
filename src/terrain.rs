//! Tile and biome kinds with their fixed ordinals, sprite-sheet indices, and
//! random draws of kinds and sprite variants.

use rand::Rng;
use vstd::prelude::*;

verus! {

/// Sprite-sheet columns: the visual variants available for each tile kind.
pub const SPITE_SHEET_COLUMNS: usize = 4;

/// Sprite-sheet rows: one per tile kind.
pub const SPITE_SHEET_ROWS: usize = 5;

/// The terrain kind of one tile.
#[derive(Clone, Copy, Debug, PartialEq, Eq, Hash, Structural)]
pub enum TileType {
    Grass,
    Water,
    DeepWater,
    Sand,
    Dirt,
}

/// The coarse biome signal used as an intermediate classification.
#[derive(Clone, Copy, Debug, PartialEq, Eq, Hash, Structural)]
pub enum BiomType {
    GrassLand,
    Ocean,
}

/// The fixed ordinal of each tile kind; it is also the kind's sprite-sheet row.
pub open spec fn tile_ordinal(t: TileType) -> nat {
    match t {
        TileType::Grass => 0,
        TileType::Water => 1,
        TileType::DeepWater => 2,
        TileType::Sand => 3,
        TileType::Dirt => 4,
    }
}

/// The tile kind with a given ordinal, if any.
pub open spec fn tile_of_ordinal(i: int) -> Option<TileType> {
    if i == 0 {
        Some(TileType::Grass)
    } else if i == 1 {
        Some(TileType::Water)
    } else if i == 2 {
        Some(TileType::DeepWater)
    } else if i == 3 {
        Some(TileType::Sand)
    } else if i == 4 {
        Some(TileType::Dirt)
    } else {
        None
    }
}

/// The fixed ordinal of each biome kind.
pub open spec fn biom_ordinal(b: BiomType) -> nat {
    match b {
        BiomType::GrassLand => 0,
        BiomType::Ocean => 1,
    }
}

/// The sprite index of a tile kind drawn in a given variant column.
pub open spec fn sprite_index_of(t: TileType, variant: int) -> int {
    tile_ordinal(t) * SPITE_SHEET_COLUMNS + variant
}

impl TileType {
    /// The kind's ordinal.
    pub fn to_usize(&self) -> (r: usize)
        ensures
            r == tile_ordinal(*self),
    {
        match self {
            TileType::Grass => 0,
            TileType::Water => 1,
            TileType::DeepWater => 2,
            TileType::Sand => 3,
            TileType::Dirt => 4,
        }
    }

    /// The kind with ordinal `i`, or `None` past the last kind.
    pub fn from_usize(i: usize) -> (r: Option<TileType>)
        ensures
            r == tile_of_ordinal(i as int),
    {
        if i == 0 {
            Some(TileType::Grass)
        } else if i == 1 {
            Some(TileType::Water)
        } else if i == 2 {
            Some(TileType::DeepWater)
        } else if i == 3 {
            Some(TileType::Sand)
        } else if i == 4 {
            Some(TileType::Dirt)
        } else {
            None
        }
    }

    /// The kind that a uniform draw in `0..5` stands for.
    pub fn for_draw(draw: usize) -> (r: Option<TileType>)
        ensures
            r == (if draw == 0 {
                Some(TileType::Grass)
            } else if draw == 1 {
                Some(TileType::Water)
            } else if draw == 2 {
                Some(TileType::Dirt)
            } else if draw == 3 {
                Some(TileType::DeepWater)
            } else if draw == 4 {
                Some(TileType::Sand)
            } else {
                None
            }),
    {
        match draw {
            0 => Some(TileType::Grass),
            1 => Some(TileType::Water),
            3 => Some(TileType::DeepWater),
            4 => Some(TileType::Sand),
            2 => Some(TileType::Dirt),
            _ => None,
        }
    }

    /// A tile kind drawn at random.
    pub fn sample() -> (r: TileType) {
        let draw = random_below(SPITE_SHEET_ROWS);
        match TileType::for_draw(draw) {
            Some(t) => t,
            None => TileType::Grass,
        }
    }
}

impl BiomType {
    /// The biome's ordinal.
    pub fn to_usize(&self) -> (r: usize)
        ensures
            r == biom_ordinal(*self),
    {
        match self {
            BiomType::GrassLand => 0,
            BiomType::Ocean => 1,
        }
    }

    /// The biome that a uniform draw in `0..2` stands for.
    pub fn for_draw(draw: usize) -> (r: Option<BiomType>)
        ensures
            r == (if draw == 0 {
                Some(BiomType::GrassLand)
            } else if draw == 1 {
                Some(BiomType::Ocean)
            } else {
                None
            }),
    {
        match draw {
            0 => Some(BiomType::GrassLand),
            1 => Some(BiomType::Ocean),
            _ => None,
        }
    }

    /// A biome drawn at random.
    pub fn sample() -> (r: BiomType) {
        let draw = random_below(2);
        match BiomType::for_draw(draw) {
            Some(b) => b,
            None => BiomType::GrassLand,
        }
    }
}

/// The sprite index of `tile_type` in variant column `variant`.
pub fn sprite_index(tile_type: TileType, variant: usize) -> (r: usize)
    requires
        variant < SPITE_SHEET_COLUMNS,
    ensures
        r == sprite_index_of(tile_type, variant as int),
{
    tile_type.to_usize() * SPITE_SHEET_COLUMNS + variant
}

/// Splits a sprite index into its tile kind and variant column; `None` when
/// the index lies past the last row.
pub fn split_sprite_index(index: usize) -> (r: Option<(TileType, usize)>)
    ensures
        r == (match tile_of_ordinal(index as int / SPITE_SHEET_COLUMNS as int) {
            Some(t) => Some((t, (index as int % SPITE_SHEET_COLUMNS as int) as usize)),
            None => None::<(TileType, usize)>,
        }),
{
    match TileType::from_usize(index / SPITE_SHEET_COLUMNS) {
        Some(t) => Some((t, index % SPITE_SHEET_COLUMNS)),
        None => None,
    }
}

/// A sprite variant column drawn at random.
pub fn random_variant() -> (r: usize)
    ensures
        r < SPITE_SHEET_COLUMNS,
{
    random_below(SPITE_SHEET_COLUMNS)
}

/// Relies on rand::Rng::gen_range, drawing from rand::thread_rng: the value
/// lies in `0..bound`; the range is never empty, on which gen_range panics.
#[verifier::external_body]
fn random_below(bound: usize) -> (r: usize)
    requires
        bound > 0,
    ensures
        r < bound,
{
    rand::thread_rng().gen_range(0..bound)
}

/// Sprite index and split are inverse: a kind and variant column come back
/// unchanged from the index they make.
pub proof fn lemma_sprite_index_round_trip(tile_type: TileType, variant: usize)
    requires
        variant < SPITE_SHEET_COLUMNS,
    ensures
        tile_of_ordinal(sprite_index_of(tile_type, variant as int) / SPITE_SHEET_COLUMNS as int)
            == Some(tile_type),
        sprite_index_of(tile_type, variant as int) % SPITE_SHEET_COLUMNS as int == variant,
{
    let i = sprite_index_of(tile_type, variant as int);
    vstd::arithmetic::div_mod::lemma_fundamental_div_mod_converse(
        i,
        SPITE_SHEET_COLUMNS as int,
        tile_ordinal(tile_type) as int,
        variant as int,
    );
}

} // verus!
