use vstd::prelude::*;
use crate::field::NoiseField;

verus! {

/// Half the number of tiles a chunk spans on each side of its centre tile.
pub const CHUNK_RADIUS: i32 = 2;

/// Tiles per chunk side: `2 * CHUNK_RADIUS + 1`, odd by construction and
/// fixed at startup. Index arithmetic below spells the value out as a
/// numeral so that it stays linear for the solver.
pub const CHUNK_SIDE: i32 = 5;

/// Tiles per chunk: `CHUNK_SIDE * CHUNK_SIDE`.
pub const CHUNK_AREA: usize = 25;

/// Field samples strictly above this value classify as water.
pub const WATER_THRESHOLD: i64 = 0;

/// Offset added to the second sample axis, so the two axes of a chunk
/// coordinate never read the same band of the field near the origin.
pub const FIELD_SHIFT: i64 = 500;

/// The kind of one terrain tile.
#[derive(Clone, Copy, PartialEq, Eq, Structural, Debug)]
pub enum TileType {
    Grass,
    Water,
}

/// One generated terrain region: a fixed `CHUNK_SIDE x CHUNK_SIDE` grid of
/// tiles, row-major, and a flag that is true exactly while the chunk has
/// live spawned representations in the world.
pub struct Chunk {
    pub tiles: Vec<TileType>,
    pub is_loaded: bool,
}

/// The tile that generation assigns to cell `(i, j)` of the chunk at
/// `(cx, cy)`: the field is sampled at the cell's absolute tile position
/// and the sample is classified against the water threshold.
pub open spec fn spec_generated_tile(
    field: NoiseField,
    cx: int,
    cy: int,
    i: int,
    j: int,
) -> TileType {
    let v = field.spec_sample(cx * 5 + i, cy * 5 + j + (FIELD_SHIFT as int));
    if v > WATER_THRESHOLD {
        TileType::Water
    } else {
        TileType::Grass
    }
}

/// Whether `c` carries exactly the tile grid that generation yields at
/// `(cx, cy)` from `field`: well-formed and every cell classified from
/// the field. Says nothing of the loaded flag, which the streamer owns.
pub open spec fn spec_tiles_generated(field: NoiseField, cx: int, cy: int, c: Chunk) -> bool {
    &&& c.wf()
    &&& forall|i: int, j: int|
        0 <= i < 5 && 0 <= j < 5 ==> c.spec_tile(i, j) == spec_generated_tile(field, cx, cy, i, j)
}

/// Whether `c` is exactly the chunk that generation yields at `(cx, cy)`
/// from `field`: the generated tile grid, not yet loaded.
pub open spec fn spec_generated(field: NoiseField, cx: int, cy: int, c: Chunk) -> bool {
    spec_tiles_generated(field, cx, cy, c) && !c.is_loaded
}

impl Chunk {
    pub open spec fn wf(&self) -> bool {
        self.tiles@.len() == CHUNK_AREA
    }

    /// The tile at cell `(i, j)`, row-major.
    pub open spec fn spec_tile(&self, i: int, j: int) -> TileType {
        self.tiles@[i * 5 + j]
    }

    pub fn is_loaded(&self) -> (r: bool)
        ensures
            r == self.is_loaded,
    {
        self.is_loaded
    }

    pub fn set_is_loaded(&mut self, is_loaded: bool)
        ensures
            final(self).is_loaded == is_loaded,
            final(self).tiles == old(self).tiles,
    {
        self.is_loaded = is_loaded;
    }

    /// Read one cell, clamping an out-of-range index to the grid instead
    /// of failing: a point-in-world query that lands just outside a chunk
    /// still answers with the nearest cell.
    pub fn tile_clamped(&self, i: usize, j: usize) -> (t: TileType)
        requires
            self.wf(),
        ensures
            t == self.spec_tile(
                if i < 5 {
                    i as int
                } else {
                    4
                },
                if j < 5 {
                    j as int
                } else {
                    4
                },
            ),
    {
        let ci: usize = if i < 5 {
            i
        } else {
            4
        };
        let cj: usize = if j < 5 {
            j
        } else {
            4
        };
        self.tiles[ci * 5 + cj]
    }

    /// Deterministic terrain generation: classify every cell of the chunk
    /// at `(cx, cy)` from the field. The result is not loaded; the caller
    /// (the streamer) spawns representations and flips the flag.
    pub fn generate(field: &NoiseField, cx: i32, cy: i32) -> (c: Chunk)
        requires
            field.wf(),
        ensures
            spec_generated(*field, cx as int, cy as int, c),
    {
        let mut tiles: Vec<TileType> = Vec::new();
        let mut i: usize = 0;
        while i < 5
            invariant
                field.wf(),
                0 <= i <= 5,
                tiles@.len() == i * 5,
                forall|a: int, b: int|
                    0 <= a < i && 0 <= b < 5 ==> tiles@[a * 5 + b] == spec_generated_tile(
                        *field,
                        cx as int,
                        cy as int,
                        a,
                        b,
                    ),
            decreases 5 - i,
        {
            let mut j: usize = 0;
            while j < 5
                invariant
                    field.wf(),
                    0 <= i < 5,
                    0 <= j <= 5,
                    tiles@.len() == i * 5 + j,
                    forall|a: int, b: int|
                        0 <= a < i && 0 <= b < 5 ==> tiles@[a * 5 + b] == spec_generated_tile(
                            *field,
                            cx as int,
                            cy as int,
                            a,
                            b,
                        ),
                    forall|b: int|
                        0 <= b < j as int ==> tiles@[i as int * 5 + b] == spec_generated_tile(
                            *field,
                            cx as int,
                            cy as int,
                            i as int,
                            b,
                        ),
                decreases 5 - j,
            {
                let sx: i64 = cx as i64 * 5 + i as i64;
                let sy: i64 = cy as i64 * 5 + j as i64 + FIELD_SHIFT;
                let v = field.get_value(sx, sy);
                let t = if v > WATER_THRESHOLD {
                    TileType::Water
                } else {
                    TileType::Grass
                };
                tiles.push(t);
                j = j + 1;
            }
            i = i + 1;
        }
        Chunk { tiles, is_loaded: false }
    }
}

/// Terrain generation is deterministic: two chunks generated from the same
/// field at the same coordinate hold cell-for-cell identical tile grids.
pub proof fn lemma_generate_deterministic(field: NoiseField, cx: int, cy: int, a: Chunk, b: Chunk)
    requires
        spec_generated(field, cx, cy, a),
        spec_generated(field, cx, cy, b),
    ensures
        forall|i: int, j: int|
            0 <= i < 5 && 0 <= j < 5 ==> a.spec_tile(i, j) == b.spec_tile(i, j),
        a.tiles@ == b.tiles@,
{
    assert forall|n: int| 0 <= n < 25 implies a.tiles@[n] == b.tiles@[n] by {
        let i = n / 5;
        let j = n % 5;
        vstd::arithmetic::div_mod::lemma_fundamental_div_mod(n, 5);
        assert(a.spec_tile(i, j) == b.spec_tile(i, j));
    }
    assert(a.tiles@ =~= b.tiles@);
}

} // verus!
