//! The persisted form of a chunk: the file that holds it, and the records it
//! is written as and checked from. Reading and writing the bytes is the
//! caller's part.

use vstd::prelude::*;

use crate::chunk::{cell_x, cell_y, lemma_cell_bounds, tiles_wf, Chunk, Tile};
use crate::config::ChunkConfig;
use crate::coords::ChunkCoordinate;
use crate::terrain::{
    lemma_sprite_index_round_trip, sprite_index_of, split_sprite_index, tile_of_ordinal, SPITE_SHEET_COLUMNS,
};

verus! {

/// One tile as stored: the local cell it is filed under, the tile's position
/// `(x, y, z)`, and its sprite index.
#[derive(Clone, Copy, Debug, PartialEq, Eq, Structural)]
pub struct TileRecord {
    pub key_x: i32,
    pub key_y: i32,
    pub x: i32,
    pub y: i32,
    pub z: i32,
    pub spite_index: usize,
}

/// Why stored records do not make a chunk.
#[derive(Clone, Copy, Debug, PartialEq, Eq, Structural)]
pub enum ChunkDataError {
    /// A record is filed under a cell outside the chunk.
    TileOutOfBounds,
    /// A record's position is not the cell it is filed under.
    PositionMismatch,
    /// A record's sprite index names no tile kind.
    UnknownSprite,
    /// Two records are filed under the same cell.
    DuplicateTile,
    /// Some cell of the chunk has no record.
    MissingTile,
}

/// The record a tile is stored as.
pub open spec fn record_of(t: Tile) -> TileRecord {
    TileRecord {
        key_x: t.x,
        key_y: t.y,
        x: t.x,
        y: t.y,
        z: 0,
        spite_index: sprite_index_of(t.tile_type, t.sprite_variant as int) as usize,
    }
}

/// What is wrong with a record on its own, for chunks of edge `n`.
pub open spec fn record_fault(r: TileRecord, n: int) -> Option<ChunkDataError> {
    if !(0 <= r.key_x < n && 0 <= r.key_y < n) {
        Some(ChunkDataError::TileOutOfBounds)
    } else if r.x != r.key_x || r.y != r.key_y || r.z != 0 {
        Some(ChunkDataError::PositionMismatch)
    } else if tile_of_ordinal(r.spite_index as int / SPITE_SHEET_COLUMNS as int) is None {
        Some(ChunkDataError::UnknownSprite)
    } else {
        None
    }
}

/// The index of the cell a record is filed under.
pub open spec fn key_index(r: TileRecord, n: int) -> int {
    r.key_x * n + r.key_y
}

/// The tile a sound record stands for.
pub open spec fn tile_of_record(r: TileRecord) -> Tile {
    Tile {
        x: r.key_x,
        y: r.key_y,
        tile_type: tile_of_ordinal(r.spite_index as int / SPITE_SHEET_COLUMNS as int)->Some_0,
        sprite_variant: (r.spite_index as int % SPITE_SHEET_COLUMNS as int) as usize,
    }
}

/// Record `i` is sound and filed under a cell that no earlier record uses.
pub open spec fn record_ok_at(rs: Seq<TileRecord>, i: int, n: int) -> bool {
    &&& record_fault(rs[i], n) is None
    &&& forall|j: int|
        0 <= j < i ==> !((#[trigger] rs[j]).key_x == rs[i].key_x && rs[j].key_y == rs[i].key_y)
}

/// Record `i` is the first one that is not sound or repeats a cell.
pub open spec fn first_bad(rs: Seq<TileRecord>, i: int, n: int) -> bool {
    &&& 0 <= i < rs.len()
    &&& !record_ok_at(rs, i, n)
    &&& forall|j: int| 0 <= j < i ==> record_ok_at(rs, j, n)
}

/// Some record is filed under cell index `k`.
pub open spec fn cell_covered(rs: Seq<TileRecord>, k: int, n: int) -> bool {
    exists|j: int| 0 <= j < rs.len() && key_index(rs[j], n) == k
}

/// The error that records give for chunks of edge `n`, if any: the fault of
/// the first bad record (a repeated cell counts as `DuplicateTile`), else
/// `MissingTile` when some cell is not covered.
pub open spec fn records_error(rs: Seq<TileRecord>, n: int) -> Option<ChunkDataError> {
    if exists|i: int| first_bad(rs, i, n) {
        let i = choose|i: int| first_bad(rs, i, n);
        match record_fault(rs[i], n) {
            Some(e) => Some(e),
            None => Some(ChunkDataError::DuplicateTile),
        }
    } else if exists|k: int| 0 <= k < n * n && !cell_covered(rs, k, n) {
        Some(ChunkDataError::MissingTile)
    } else {
        None
    }
}

/// `tiles` is the complete grid that the records describe: each record's tile
/// stands at the cell it is filed under.
pub open spec fn decodes_to(rs: Seq<TileRecord>, n: int, tiles: Seq<Tile>) -> bool {
    &&& tiles_wf(tiles, n)
    &&& forall|j: int| 0 <= j < rs.len() ==> tiles[key_index(#[trigger] rs[j], n)] == tile_of_record(rs[j])
}

proof fn lemma_key_index(r: TileRecord, n: int)
    requires
        n > 0,
        0 <= r.key_x < n,
        0 <= r.key_y < n,
    ensures
        0 <= key_index(r, n) < n * n,
        cell_x(key_index(r, n), n) == r.key_x,
        cell_y(key_index(r, n), n) == r.key_y,
{
    vstd::arithmetic::div_mod::lemma_fundamental_div_mod_converse(key_index(r, n), n, r.key_x as int, r.key_y as int);
    assert(key_index(r, n) < n * n) by (nonlinear_arith)
        requires
            0 <= r.key_x < n,
            0 <= r.key_y < n,
    ;
    assert(0 <= key_index(r, n)) by (nonlinear_arith)
        requires
            0 <= r.key_x < n,
            0 <= r.key_y < n,
    ;
}

impl Chunk {
    /// The records a chunk is saved as, one per tile in row order; render
    /// handles are not stored.
    pub fn to_records(&self) -> (r: Vec<TileRecord>)
        requires
            forall|i: int| 0 <= i < self.tiles.len() ==> (#[trigger] self.tiles@[i]).sprite_variant < SPITE_SHEET_COLUMNS,
        ensures
            r.len() == self.tiles.len(),
            forall|i: int| 0 <= i < r.len() ==> (#[trigger] r@[i]) == record_of(self.tiles@[i]),
    {
        let mut out: Vec<TileRecord> = Vec::with_capacity(self.tiles.len());
        let mut i: usize = 0;
        while i < self.tiles.len()
            invariant
                i <= self.tiles.len(),
                out.len() == i,
                forall|k: int| 0 <= k < self.tiles.len() ==> (#[trigger] self.tiles@[k]).sprite_variant < SPITE_SHEET_COLUMNS,
                forall|k: int| 0 <= k < i ==> (#[trigger] out@[k]) == record_of(self.tiles@[k]),
            decreases self.tiles.len() - i,
        {
            let t = self.tiles[i];
            let rec = TileRecord { key_x: t.x, key_y: t.y, x: t.x, y: t.y, z: 0, spite_index: t.spite_index() };
            out.push(rec);
            i = i + 1;
        }
        out
    }
}

proof fn lemma_first_bad_unique(rs: Seq<TileRecord>, i: int, n: int)
    requires
        first_bad(rs, i, n),
    ensures
        (choose|j: int| first_bad(rs, j, n)) == i,
{
    let j = choose|j: int| first_bad(rs, j, n);
    if j < i {
        assert(record_ok_at(rs, j, n));
    } else if j > i {
        assert(record_ok_at(rs, i, n));
    }
}

impl Chunk {
    /// The tiles that stored records describe, in row order, or the first
    /// reason they do not describe a complete chunk of the configured size.
    pub fn tiles_from_records(config: &ChunkConfig, records: &Vec<TileRecord>) -> (r: Result<
        Vec<Tile>,
        ChunkDataError,
    >)
        requires
            config.valid(),
        ensures
            match r {
                Ok(tiles) => {
                    &&& records_error(records@, config.chunk_size as int) is None
                    &&& decodes_to(records@, config.chunk_size as int, tiles@)
                },
                Err(e) => records_error(records@, config.chunk_size as int) == Some(e),
            },
    {
        let n = config.chunk_size as usize;
        let total = n * n;
        let ghost ni = n as int;
        let ghost rs = records@;
        let mut slots: Vec<Option<Tile>> = Vec::with_capacity(total);
        let mut k: usize = 0;
        while k < total
            invariant
                k <= total,
                slots.len() == k,
                forall|kk: int| 0 <= kk < k ==> (#[trigger] slots@[kk]) is None,
            decreases total - k,
        {
            slots.push(None);
            k = k + 1;
        }
        let mut j: usize = 0;
        while j < records.len()
            invariant
                n == config.chunk_size,
                ni == n,
                total == n * n,
                config.valid(),
                rs == records@,
                j <= records.len(),
                slots.len() == total,
                forall|jj: int| 0 <= jj < j ==> record_ok_at(rs, jj, ni),
                forall|kk: int|
                    0 <= kk < total ==> ((#[trigger] slots@[kk]) is Some <==> exists|jj: int|
                        0 <= jj < j && key_index(rs[jj], ni) == kk),
                forall|jj: int|
                    0 <= jj < j ==> slots@[key_index(#[trigger] rs[jj], ni)] == Some(tile_of_record(rs[jj])),
                forall|kk: int|
                    0 <= kk < total && (#[trigger] slots@[kk]) is Some ==> {
                        &&& slots@[kk]->Some_0.x == cell_x(kk, ni)
                        &&& slots@[kk]->Some_0.y == cell_y(kk, ni)
                        &&& slots@[kk]->Some_0.sprite_variant < SPITE_SHEET_COLUMNS
                    },
            decreases records.len() - j,
        {
            let rec = records[j];
            let ghost ji = j as int;
            if rec.key_x < 0 || rec.key_x as i64 >= n as i64 || rec.key_y < 0 || rec.key_y as i64 >= n as i64 {
                proof {
                    assert(first_bad(rs, ji, ni));
                    lemma_first_bad_unique(rs, ji, ni);
                }
                return Err(ChunkDataError::TileOutOfBounds);
            }
            if rec.x != rec.key_x || rec.y != rec.key_y || rec.z != 0 {
                proof {
                    assert(first_bad(rs, ji, ni));
                    lemma_first_bad_unique(rs, ji, ni);
                }
                return Err(ChunkDataError::PositionMismatch);
            }
            let (tile_type, variant) = match split_sprite_index(rec.spite_index) {
                None => {
                    proof {
                        assert(first_bad(rs, ji, ni));
                        lemma_first_bad_unique(rs, ji, ni);
                    }
                    return Err(ChunkDataError::UnknownSprite);
                },
                Some(split) => split,
            };
            proof {
                lemma_key_index(rec, ni);
                vstd::arithmetic::div_mod::lemma_mod_bound(rec.spite_index as int, SPITE_SHEET_COLUMNS as int);
            }
            let idx = rec.key_x as usize * n + rec.key_y as usize;
            assert(idx == key_index(rec, ni));
            if slots[idx].is_some() {
                proof {
                    let jj = choose|jj: int| 0 <= jj < j && key_index(rs[jj], ni) == idx;
                    assert(record_ok_at(rs, jj, ni));
                    lemma_key_index(rs[jj], ni);
                    assert(rs[jj].key_x == rec.key_x && rs[jj].key_y == rec.key_y);
                    assert(first_bad(rs, ji, ni));
                    lemma_first_bad_unique(rs, ji, ni);
                }
                return Err(ChunkDataError::DuplicateTile);
            }
            let tile = Tile { x: rec.key_x, y: rec.key_y, tile_type, sprite_variant: variant };
            assert(tile == tile_of_record(rec));
            proof {
                assert forall|jj: int| 0 <= jj < ji implies !((#[trigger] rs[jj]).key_x == rs[ji].key_x
                    && rs[jj].key_y == rs[ji].key_y) by {
                    if rs[jj].key_x == rs[ji].key_x && rs[jj].key_y == rs[ji].key_y {
                        assert(key_index(rs[jj], ni) == idx);
                    }
                }
                assert(record_ok_at(rs, ji, ni));
            }
            let ghost old_slots = slots@;
            slots.set(idx, Some(tile));
            proof {
                assert forall|kk: int|
                    0 <= kk < total implies ((#[trigger] slots@[kk]) is Some <==> exists|jj: int|
                        0 <= jj < j + 1 && key_index(rs[jj], ni) == kk) by {
                    if kk != idx {
                        assert(slots@[kk] == old_slots[kk]);
                        if exists|jj: int| 0 <= jj < j + 1 && key_index(rs[jj], ni) == kk {
                            let jj = choose|jj: int| 0 <= jj < j + 1 && key_index(rs[jj], ni) == kk;
                            assert(jj < j);
                        }
                    } else {
                        assert(key_index(rs[ji], ni) == kk);
                    }
                }
                assert forall|jj: int|
                    0 <= jj < j + 1 implies slots@[key_index(#[trigger] rs[jj], ni)] == Some(
                        tile_of_record(rs[jj]),
                    ) by {
                    assert(record_ok_at(rs, jj, ni));
                    lemma_key_index(rs[jj], ni);
                    if jj < j {
                        assert(old_slots[key_index(rs[jj], ni)] is Some);
                        if key_index(rs[jj], ni) == idx {
                            assert(old_slots[idx as int] is Some);
                        }
                    }
                }
            }
            j = j + 1;
        }
        let mut tiles: Vec<Tile> = Vec::with_capacity(total);
        let mut k: usize = 0;
        while k < total
            invariant
                n == config.chunk_size,
                ni == n,
                total == n * n,
                rs == records@,
                slots.len() == total,
                k <= total,
                tiles.len() == k,
                forall|jj: int| 0 <= jj < rs.len() ==> record_ok_at(rs, jj, ni),
                forall|kk: int|
                    0 <= kk < total ==> ((#[trigger] slots@[kk]) is Some <==> exists|jj: int|
                        0 <= jj < rs.len() && key_index(rs[jj], ni) == kk),
                forall|kk: int| 0 <= kk < k ==> slots@[kk] == Some(#[trigger] tiles@[kk]),
            decreases total - k,
        {
            match slots[k] {
                None => {
                    proof {
                        assert(!cell_covered(rs, k as int, ni));
                        assert(!exists|i: int| first_bad(rs, i, ni));
                    }
                    return Err(ChunkDataError::MissingTile);
                },
                Some(t) => {
                    tiles.push(t);
                },
            }
            k = k + 1;
        }
        proof {
            assert(!exists|i: int| first_bad(rs, i, ni));
            assert forall|kk: int| 0 <= kk < ni * ni implies cell_covered(rs, kk, ni) by {
                assert(slots@[kk] == Some(tiles@[kk]));
            }
            assert forall|jj: int| 0 <= jj < rs.len() implies tiles@[key_index(#[trigger] rs[jj], ni)]
                == tile_of_record(rs[jj]) by {
                assert(record_ok_at(rs, jj, ni));
                lemma_key_index(rs[jj], ni);
                assert(slots@[key_index(rs[jj], ni)] == Some(tiles@[key_index(rs[jj], ni)]));
            }
        }
        Ok(tiles)
    }
}

/// Saving then loading gives a chunk's tiles back: the records of a complete
/// grid raise no error, and the one grid they decode to is the original,
/// cell for cell and field for field.
pub proof fn lemma_save_load_round_trip(
    tiles: Seq<Tile>,
    n: int,
    records: Seq<TileRecord>,
    loaded: Seq<Tile>,
)
    requires
        n > 0,
        tiles_wf(tiles, n),
        records.len() == tiles.len(),
        forall|i: int| 0 <= i < records.len() ==> (#[trigger] records[i]) == record_of(tiles[i]),
    ensures
        records_error(records, n) is None,
        decodes_to(records, n, loaded) ==> loaded == tiles,
{
    assert forall|i: int| 0 <= i < records.len() implies {
        &&& record_fault(#[trigger] records[i], n) is None
        &&& key_index(records[i], n) == i
        &&& tile_of_record(records[i]) == tiles[i]
    } by {
        lemma_cell_bounds(i, n);
        let t = tiles[i];
        lemma_sprite_index_round_trip(t.tile_type, t.sprite_variant);
    }
    assert forall|i: int| 0 <= i < records.len() implies record_ok_at(records, i, n) by {
        assert forall|j: int| 0 <= j < i implies !((#[trigger] records[j]).key_x == records[i].key_x
            && records[j].key_y == records[i].key_y) by {
            assert(key_index(records[j], n) == j);
            assert(key_index(records[i], n) == i);
        }
    }
    assert(!exists|i: int| first_bad(records, i, n));
    assert forall|k: int| 0 <= k < n * n implies cell_covered(records, k, n) by {
        assert(key_index(records[k], n) == k);
    }
    if decodes_to(records, n, loaded) {
        assert forall|i: int| 0 <= i < tiles.len() implies loaded[i] == tiles[i] by {
            assert(key_index(records[i], n) == i);
        }
        assert(loaded =~= tiles);
    }
}

/// The character of decimal digit `d`.
pub open spec fn digit_char(d: int) -> char {
    if d == 0 {
        '0'
    } else if d == 1 {
        '1'
    } else if d == 2 {
        '2'
    } else if d == 3 {
        '3'
    } else if d == 4 {
        '4'
    } else if d == 5 {
        '5'
    } else if d == 6 {
        '6'
    } else if d == 7 {
        '7'
    } else if d == 8 {
        '8'
    } else {
        '9'
    }
}

/// The decimal digits of `v`, most significant first, without leading zeros.
pub open spec fn nat_digits(v: nat) -> Seq<char>
    decreases v,
{
    if v < 10 {
        seq![digit_char(v as int)]
    } else {
        nat_digits(v / 10) + seq![digit_char(v as int % 10)]
    }
}

/// The decimal form of `v`, with a leading `-` when negative.
pub open spec fn decimal(v: int) -> Seq<char> {
    if v < 0 {
        seq!['-'] + nat_digits((-v) as nat)
    } else {
        nat_digits(v as nat)
    }
}

/// The file that holds the chunk at `(x, y)` for chunk size `n`:
/// `save/chunk_{n}_{x}_{y}.bin`.
pub open spec fn chunk_file_name(n: int, x: int, y: int) -> Seq<char> {
    "save/chunk_"@ + decimal(n) + "_"@ + decimal(x) + "_"@ + decimal(y) + ".bin"@
}

fn digit_str(d: u64) -> (r: &'static str)
    requires
        d < 10,
    ensures
        r@ == seq![digit_char(d as int)],
{
    proof {
        reveal_strlit("0");
        reveal_strlit("1");
        reveal_strlit("2");
        reveal_strlit("3");
        reveal_strlit("4");
        reveal_strlit("5");
        reveal_strlit("6");
        reveal_strlit("7");
        reveal_strlit("8");
        reveal_strlit("9");
    }
    let r = if d == 0 {
        "0"
    } else if d == 1 {
        "1"
    } else if d == 2 {
        "2"
    } else if d == 3 {
        "3"
    } else if d == 4 {
        "4"
    } else if d == 5 {
        "5"
    } else if d == 6 {
        "6"
    } else if d == 7 {
        "7"
    } else if d == 8 {
        "8"
    } else {
        "9"
    };
    assert(r@ =~= seq![digit_char(d as int)]);
    r
}

fn push_digits(s: &mut String, v: u64)
    ensures
        final(s)@ == old(s)@ + nat_digits(v as nat),
    decreases v,
{
    if v >= 10 {
        push_digits(s, v / 10);
    }
    s.append(digit_str(v % 10));
    proof {
        if v >= 10 {
            assert(final(s)@ =~= old(s)@ + nat_digits(v as nat));
        } else {
            assert(final(s)@ =~= old(s)@ + nat_digits(v as nat));
        }
    }
}

fn push_decimal(s: &mut String, v: i64)
    ensures
        final(s)@ == old(s)@ + decimal(v as int),
{
    if v < 0 {
        s.append("-");
        proof {
            reveal_strlit("-");
        }
        let m = (-(v as i128)) as u64;
        push_digits(s, m);
        assert(final(s)@ =~= old(s)@ + decimal(v as int));
    } else {
        push_digits(s, v as u64);
    }
}

impl Chunk {
    /// The path of the file that holds the chunk at `chunk_pos` for the
    /// configured chunk size.
    pub fn get_file_string(chunk_pos: &ChunkCoordinate, config: &ChunkConfig) -> (r: String)
        ensures
            r@ == chunk_file_name(config.chunk_size as int, chunk_pos.x as int, chunk_pos.y as int),
    {
        let mut s = String::new();
        s.append("save/chunk_");
        push_decimal(&mut s, config.chunk_size as i64);
        s.append("_");
        push_decimal(&mut s, chunk_pos.x as i64);
        s.append("_");
        push_decimal(&mut s, chunk_pos.y as i64);
        s.append(".bin");
        assert(s@ =~= chunk_file_name(config.chunk_size as int, chunk_pos.x as int, chunk_pos.y as int));
        s
    }
}

impl Chunk {
    /// The tiles of a chunk read back from its file: `Ok(None)` when no file
    /// was stored (the caller then generates the chunk), the decoded tiles
    /// when the stored records make a complete chunk, and the records' error
    /// when they do not. Stored terrain that is corrupt is never replaced
    /// here by generated terrain.
    pub fn load(config: &ChunkConfig, stored: Option<&Vec<TileRecord>>) -> (r: Result<
        Option<Vec<Tile>>,
        ChunkDataError,
    >)
        requires
            config.valid(),
        ensures
            match stored {
                None => r == Ok::<Option<Vec<Tile>>, ChunkDataError>(None),
                Some(records) => match r {
                    Ok(Some(tiles)) => {
                        &&& records_error(records@, config.chunk_size as int) is None
                        &&& decodes_to(records@, config.chunk_size as int, tiles@)
                    },
                    Ok(None) => false,
                    Err(e) => records_error(records@, config.chunk_size as int) == Some(e),
                },
            },
    {
        match stored {
            None => Ok(None),
            Some(records) => match Chunk::tiles_from_records(config, records) {
                Ok(tiles) => Ok(Some(tiles)),
                Err(e) => Err(e),
            },
        }
    }
}

} // verus!
