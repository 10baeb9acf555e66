use vstd::prelude::*;
use vstd::arithmetic::div_mod::{
    lemma_div_minus_one, lemma_div_plus_one, lemma_fundamental_div_mod,
    lemma_fundamental_div_mod_converse,
};
use crate::chunk::{spec_generated_tile, spec_tiles_generated, Chunk, TileType};
use crate::field::NoiseField;
use crate::intmath::div_floor;
use crate::store::{chunk_at, has_coord, idx_of, lemma_idx_of, ChunkEntry, WorldData};
use crate::unit::POS_LIMIT;
use crate::vec2::Vec2I;

verus! {

/// World width of one tile, in ticks (two world units).
pub const TILE_WIDTH: i64 = 2_000;

/// World width of one chunk, in ticks: `CHUNK_SIDE * TILE_WIDTH`.
pub const CHUNK_WORLD_WIDTH: i64 = 10_000;

/// Half a chunk's world width; a chunk is centred on its coordinate.
pub const HALF_CHUNK_WORLD: i64 = 5_000;

/// Chebyshev radius (in chunks) around the observer that must be loaded.
pub const LOAD_RADIUS: i64 = 1;

/// Chebyshev radius (in chunks) beyond which loaded chunks are unloaded.
/// At least `LOAD_RADIUS`, so the boundary cannot thrash.
pub const UNLOAD_RADIUS: i64 = 2;

/// The chunk coordinate owning world coordinate `w` on one axis: floor
/// division by the chunk's world width (`CHUNK_WORLD_WIDTH`, spelled as a
/// numeral to stay linear), offset by half a width so that chunk `c` spans
/// `[c*10000 - 5000, c*10000 + 5000)`. A position exactly on a boundary
/// resolves to the chunk on its positive side, uniformly on both axes.
pub open spec fn spec_chunk_coord(w: int) -> int {
    (w + 5_000) / 10_000
}

/// Chebyshev distance between two chunk coordinates.
pub open spec fn spec_cheb(ax: int, ay: int, bx: int, by: int) -> int {
    vstd::math::max(vstd::math::abs(ax - bx) as int, vstd::math::abs(ay - by) as int)
}

/// One axis of the observer-to-chunk mapping.
fn chunk_axis(w: i64) -> (c: i32)
    requires
        -POS_LIMIT <= w <= POS_LIMIT,
    ensures
        c as int == spec_chunk_coord(w as int),
        -100_000_001 <= c <= 100_000_001,
{
    let q = div_floor(w + HALF_CHUNK_WORLD, CHUNK_WORLD_WIDTH);
    proof {
        lemma_fundamental_div_mod_converse(
            -1_000_000_005_000,
            10_000,
            -100_000_001,
            5_000,
        );
        lemma_fundamental_div_mod_converse(1_000_000_005_000, 10_000, 100_000_000, 5_000);
        vstd::arithmetic::div_mod::lemma_div_is_ordered(
            -1_000_000_005_000,
            w as int + 5_000,
            10_000,
        );
        vstd::arithmetic::div_mod::lemma_div_is_ordered(
            w as int + 5_000,
            1_000_000_005_000,
            10_000,
        );
    }
    q as i32
}

/// The chunk coordinate under a world position: both axes map
/// independently by `spec_chunk_coord`.
pub fn get_chunk_pos(pos: Vec2I) -> (c: (i32, i32))
    requires
        -POS_LIMIT <= pos.x <= POS_LIMIT,
        -POS_LIMIT <= pos.z <= POS_LIMIT,
    ensures
        c.0 as int == spec_chunk_coord(pos.x as int),
        c.1 as int == spec_chunk_coord(pos.z as int),
        -100_000_001 <= c.0 <= 100_000_001,
        -100_000_001 <= c.1 <= 100_000_001,
{
    (chunk_axis(pos.x), chunk_axis(pos.z))
}

/// Chebyshev distance between two chunk coordinates, widened so the
/// subtraction cannot overflow.
pub fn chebyshev(a: (i32, i32), b: (i32, i32)) -> (d: i64)
    ensures
        d == spec_cheb(a.0 as int, a.1 as int, b.0 as int, b.1 as int),
{
    let dx: i64 = a.0 as i64 - b.0 as i64;
    let dy: i64 = a.1 as i64 - b.1 as i64;
    let adx: i64 = if dx < 0 {
        -dx
    } else {
        dx
    };
    let ady: i64 = if dy < 0 {
        -dy
    } else {
        dy
    };
    if adx >= ady {
        adx
    } else {
        ady
    }
}

/// All positions within one chunk's world span map to that chunk's
/// coordinate.
pub proof fn lemma_same_chunk_same_coord(c: int, w1: int, w2: int)
    requires
        c * 10_000 - 5_000 <= w1 < c * 10_000 + 5_000,
        c * 10_000 - 5_000 <= w2 < c * 10_000 + 5_000,
    ensures
        spec_chunk_coord(w1) == c,
        spec_chunk_coord(w2) == c,
{
    lemma_fundamental_div_mod_converse(w1 + 5_000, 10_000, c, w1 + 5_000 - c * 10_000);
    lemma_fundamental_div_mod_converse(w2 + 5_000, 10_000, c, w2 + 5_000 - c * 10_000);
}

/// Crossing exactly one chunk boundary along an axis changes that axis's
/// coordinate by exactly one; the axes map independently, so the other
/// component is untouched.
pub proof fn lemma_cross_one_boundary(w: int)
    ensures
        spec_chunk_coord(w + 10_000) == spec_chunk_coord(w) + 1,
        spec_chunk_coord(w - 10_000) == spec_chunk_coord(w) - 1,
{
    lemma_div_plus_one(w + 5_000, 10_000);
    lemma_div_minus_one(w + 5_000, 10_000);
}

/// Largest chunk coordinate magnitude the spawning functions admit; every
/// coordinate `get_chunk_pos` yields lies well inside it.
pub const CHUNK_COORD_LIMIT: i32 = 200_000_000;

/// One grass cell in `ROCK_ODDS` receives a rock decoration.
pub const ROCK_ODDS: u32 = 25;

/// A rock stands one world unit deeper on the z axis than its tile.
pub const ROCK_SHIFT_Z: i64 = 1_000;

/// What a spawn request asks the presentation layer to create.
#[derive(Clone, Copy, PartialEq, Eq, Structural, Debug)]
pub enum SpawnKind {
    Tile(TileType),
    Rock,
}

/// A request to create one representation at a ground position.
#[derive(Clone, Copy, PartialEq, Eq, Structural, Debug)]
pub struct SpawnRequest {
    pub kind: SpawnKind,
    pub x: i64,
    pub z: i64,
}

/// A live representation in the world: its entity identity and its
/// current ground position. Membership of a chunk is recomputed from the
/// position; no back-reference is stored.
#[derive(Clone, Copy, PartialEq, Eq, Structural, Debug)]
pub struct Representation {
    pub id: u64,
    pub x: i64,
    pub z: i64,
}

/// World x position of cell column `i` of the chunk at `cx`: chunks are
/// centred on their coordinate, so the first column sits `CHUNK_RADIUS`
/// tiles before the centre tile.
pub open spec fn spec_tile_world_x(cx: int, i: int) -> int {
    (cx * 5 - 2 + i) * 2_000
}

/// World z position of cell row `j` of the chunk at `cy`.
pub open spec fn spec_tile_world_z(cy: int, j: int) -> int {
    (cy * 5 - 2 + j) * 2_000
}

/// Whether `r` asks for exactly the tile representation of cell `(i, j)`
/// of chunk `c` at `(cx, cy)`.
pub open spec fn is_tile_request(
    r: SpawnRequest,
    c: Chunk,
    cx: int,
    cy: int,
    i: int,
    j: int,
) -> bool {
    &&& r.kind == SpawnKind::Tile(c.spec_tile(i, j))
    &&& r.x == spec_tile_world_x(cx, i)
    &&& r.z == spec_tile_world_z(cy, j)
}

/// Whether `r` asks for a rock decoration on cell `(i, j)` of the chunk
/// at `(cx, cy)`.
pub open spec fn is_rock_request(r: SpawnRequest, cx: int, cy: int, i: int, j: int) -> bool {
    &&& r.kind == SpawnKind::Rock
    &&& r.x == spec_tile_world_x(cx, i)
    &&& r.z == spec_tile_world_z(cy, j) + ROCK_SHIFT_Z
}

/// Every tile representation of a chunk lies inside that chunk's world
/// span, so mapping its position back yields the chunk it was spawned
/// for.
pub proof fn lemma_cell_maps_to_own_chunk(cx: int, i: int)
    requires
        0 <= i < 5,
    ensures
        spec_chunk_coord(spec_tile_world_x(cx, i)) == cx,
{
    lemma_fundamental_div_mod_converse(
        spec_tile_world_x(cx, i) + 5_000,
        10_000,
        cx,
        (i - 2) * 2_000 + 5_000,
    );
}

/// Relies on rand::random: a uniformly random `u32` from the thread-local
/// generator. Nothing is promised of the value; callers state what holds
/// of every outcome.
#[verifier::external_body]
fn random_u32() -> u32 {
    rand::random::<u32>()
}

/// Build the tile spawn requests for one chunk: exactly one request per
/// cell, row-major, each carrying the cell's tile kind at the cell's
/// absolute world position.
pub fn spawn_chunk(chunk: &Chunk, cx: i32, cy: i32) -> (rs: Vec<SpawnRequest>)
    requires
        chunk.wf(),
        -CHUNK_COORD_LIMIT <= cx <= CHUNK_COORD_LIMIT,
        -CHUNK_COORD_LIMIT <= cy <= CHUNK_COORD_LIMIT,
    ensures
        rs@.len() == 25,
        forall|i: int, j: int|
            0 <= i < 5 && 0 <= j < 5 ==> is_tile_request(
                #[trigger] rs@[i * 5 + j],
                *chunk,
                cx as int,
                cy as int,
                i,
                j,
            ),
{
    let mut rs: Vec<SpawnRequest> = Vec::new();
    let mut i: usize = 0;
    while i < 5
        invariant
            chunk.wf(),
            -CHUNK_COORD_LIMIT <= cx <= CHUNK_COORD_LIMIT,
            -CHUNK_COORD_LIMIT <= cy <= CHUNK_COORD_LIMIT,
            0 <= i <= 5,
            rs@.len() == i * 5,
            forall|a: int, b: int|
                0 <= a < i && 0 <= b < 5 ==> is_tile_request(
                    #[trigger] rs@[a * 5 + b],
                    *chunk,
                    cx as int,
                    cy as int,
                    a,
                    b,
                ),
        decreases 5 - i,
    {
        let mut j: usize = 0;
        while j < 5
            invariant
                chunk.wf(),
                -CHUNK_COORD_LIMIT <= cx <= CHUNK_COORD_LIMIT,
                -CHUNK_COORD_LIMIT <= cy <= CHUNK_COORD_LIMIT,
                0 <= i < 5,
                0 <= j <= 5,
                rs@.len() == i * 5 + j,
                forall|a: int, b: int|
                    0 <= a < i && 0 <= b < 5 ==> is_tile_request(
                        #[trigger] rs@[a * 5 + b],
                        *chunk,
                        cx as int,
                        cy as int,
                        a,
                        b,
                    ),
                forall|b: int|
                    0 <= b < j as int ==> is_tile_request(
                        #[trigger] rs@[i as int * 5 + b],
                        *chunk,
                        cx as int,
                        cy as int,
                        i as int,
                        b,
                    ),
            decreases 5 - j,
        {
            let wx: i64 = (cx as i64 * 5 - 2 + i as i64) * TILE_WIDTH;
            let wz: i64 = (cy as i64 * 5 - 2 + j as i64) * TILE_WIDTH;
            let t = chunk.tile_clamped(i, j);
            rs.push(SpawnRequest { kind: SpawnKind::Tile(t), x: wx, z: wz });
            j = j + 1;
        }
        i = i + 1;
    }
    rs
}

/// Whether `r` is a rock decoration sitting on some grass cell of chunk
/// `c` at `(cx, cy)`.
pub open spec fn rock_on_grass(r: SpawnRequest, c: Chunk, cx: int, cy: int) -> bool {
    exists|i: int, j: int|
        0 <= i < 5 && 0 <= j < 5 && #[trigger] is_rock_request(r, cx, cy, i, j) && c.spec_tile(
            i,
            j,
        ) == TileType::Grass
}

/// Whether `r` is a rock request for a grass cell of `c` that comes
/// strictly before cell `(bi, bj)` in row-major order.
spec fn rock_before(r: SpawnRequest, c: Chunk, cx: int, cy: int, bi: int, bj: int) -> bool {
    exists|a: int, b: int|
        0 <= a < 5 && 0 <= b < 5 && (a < bi || (a == bi && b < bj)) && #[trigger] is_rock_request(
            r,
            cx,
            cy,
            a,
            b,
        ) && c.spec_tile(a, b) == TileType::Grass
}

/// Roll rock decorations for one chunk: each grass cell independently
/// receives a rock with odds `1 / ROCK_ODDS`. The rolls are random, so
/// only this holds of every outcome: every request is a rock on one of
/// the chunk's grass cells, and no cell gets two.
pub fn decorate_chunk(chunk: &Chunk, cx: i32, cy: i32) -> (rs: Vec<SpawnRequest>)
    requires
        chunk.wf(),
        -CHUNK_COORD_LIMIT <= cx <= CHUNK_COORD_LIMIT,
        -CHUNK_COORD_LIMIT <= cy <= CHUNK_COORD_LIMIT,
    ensures
        forall|k: int| 0 <= k < rs@.len() ==> rock_on_grass(#[trigger] rs@[k], *chunk, cx as int, cy as int),
        forall|k1: int, k2: int| 0 <= k1 < k2 < rs@.len() ==> rs@[k1] != rs@[k2],
{
    let mut rs: Vec<SpawnRequest> = Vec::new();
    let mut i: usize = 0;
    while i < 5
        invariant
            chunk.wf(),
            -CHUNK_COORD_LIMIT <= cx <= CHUNK_COORD_LIMIT,
            -CHUNK_COORD_LIMIT <= cy <= CHUNK_COORD_LIMIT,
            0 <= i <= 5,
            forall|k: int|
                0 <= k < rs@.len() ==> rock_before(
                    #[trigger] rs@[k],
                    *chunk,
                    cx as int,
                    cy as int,
                    i as int,
                    0,
                ),
            forall|k1: int, k2: int| 0 <= k1 < k2 < rs@.len() ==> rs@[k1] != rs@[k2],
        decreases 5 - i,
    {
        let mut j: usize = 0;
        while j < 5
            invariant
                chunk.wf(),
                -CHUNK_COORD_LIMIT <= cx <= CHUNK_COORD_LIMIT,
                -CHUNK_COORD_LIMIT <= cy <= CHUNK_COORD_LIMIT,
                0 <= i < 5,
                0 <= j <= 5,
                forall|k: int|
                    0 <= k < rs@.len() ==> rock_before(
                        #[trigger] rs@[k],
                        *chunk,
                        cx as int,
                        cy as int,
                        i as int,
                        j as int,
                    ),
                forall|k1: int, k2: int| 0 <= k1 < k2 < rs@.len() ==> rs@[k1] != rs@[k2],
            decreases 5 - j,
        {
            let t = chunk.tile_clamped(i, j);
            if t == TileType::Grass {
                let roll = random_u32();
                if roll % ROCK_ODDS == 0 {
                    let wx: i64 = (cx as i64 * 5 - 2 + i as i64) * TILE_WIDTH;
                    let wz: i64 = (cy as i64 * 5 - 2 + j as i64) * TILE_WIDTH + ROCK_SHIFT_Z;
                    let r = SpawnRequest { kind: SpawnKind::Rock, x: wx, z: wz };
                    let ghost pre = rs@;
                    proof {
                        assert(is_rock_request(r, cx as int, cy as int, i as int, j as int));
                        // distinct from every earlier rock: those sit on
                        // strictly earlier cells, whose world positions
                        // differ
                        assert forall|k: int| 0 <= k < pre.len() implies pre[k] != r by {
                            let (a, b) = choose|a: int, b: int|
                                0 <= a < 5 && 0 <= b < 5 && (a < i as int || (a == i as int && b
                                    < j as int)) && #[trigger] is_rock_request(
                                    pre[k],
                                    cx as int,
                                    cy as int,
                                    a,
                                    b,
                                ) && chunk.spec_tile(a, b) == TileType::Grass;
                            assert(pre[k].x == spec_tile_world_x(cx as int, a));
                            assert(pre[k].z == spec_tile_world_z(cy as int, b) + ROCK_SHIFT_Z);
                        }
                    }
                    rs.push(r);
                }
            }
            proof {
                assert forall|k: int| 0 <= k < rs@.len() implies rock_before(
                    #[trigger] rs@[k],
                    *chunk,
                    cx as int,
                    cy as int,
                    i as int,
                    j as int + 1,
                ) by {
                    let (a, b) = choose|a: int, b: int|
                        0 <= a < 5 && 0 <= b < 5 && (a < i as int || (a == i as int && b < j as int
                            + 1)) && #[trigger] is_rock_request(
                            rs@[k],
                            cx as int,
                            cy as int,
                            a,
                            b,
                        ) && chunk.spec_tile(a, b) == TileType::Grass;
                }
            }
            j = j + 1;
        }
        proof {
            assert forall|k: int| 0 <= k < rs@.len() implies rock_before(
                #[trigger] rs@[k],
                *chunk,
                cx as int,
                cy as int,
                i as int + 1,
                0,
            ) by {
                let (a, b) = choose|a: int, b: int|
                    0 <= a < 5 && 0 <= b < 5 && (a < i as int || (a == i as int && b < 5))
                        && #[trigger] is_rock_request(
                        rs@[k],
                        cx as int,
                        cy as int,
                        a,
                        b,
                    ) && chunk.spec_tile(a, b) == TileType::Grass;
            }
        }
        i = i + 1;
    }
    proof {
        assert forall|k: int| 0 <= k < rs@.len() implies rock_on_grass(
            #[trigger] rs@[k],
            *chunk,
            cx as int,
            cy as int,
        ) by {
            let (a, b) = choose|a: int, b: int|
                0 <= a < 5 && 0 <= b < 5 && (a < 5 || (a == 5 && b < 0)) && #[trigger] is_rock_request(
                    rs@[k],
                    cx as int,
                    cy as int,
                    a,
                    b,
                ) && chunk.spec_tile(a, b) == TileType::Grass;
        }
    }
    rs
}

/// Offset on the x axis of the `k`-th coordinate of the 3x3 load window.
spec fn off_x(k: int) -> int {
    k / 3 - 1
}

/// Offset on the y axis of the `k`-th coordinate of the 3x3 load window.
spec fn off_y(k: int) -> int {
    k % 3 - 1
}

/// Whether `(cx, cy)` is among the first `t` coordinates of the load
/// window around `(ox, oy)`.
spec fn in_window_prefix(t: int, ox: int, oy: int, cx: int, cy: int) -> bool {
    exists|k: int| 0 <= k < t && cx == ox + #[trigger] off_x(k) && cy == oy + off_y(k)
}

/// No two window positions share their offset pair.
proof fn lemma_window_offsets_injective(k1: int, k2: int)
    requires
        0 <= k1 < 9,
        0 <= k2 < 9,
        off_x(k1) == off_x(k2),
        off_y(k1) == off_y(k2),
    ensures
        k1 == k2,
{
    lemma_fundamental_div_mod(k1, 3);
    lemma_fundamental_div_mod(k2, 3);
}

/// The full load window is exactly the Chebyshev ball of radius
/// `LOAD_RADIUS` around the observer's coordinate.
proof fn lemma_window_covers_radius(ox: int, oy: int, cx: int, cy: int)
    ensures
        in_window_prefix(9, ox, oy, cx, cy) <==> spec_cheb(cx, cy, ox, oy) <= 1,
{
    if spec_cheb(cx, cy, ox, oy) <= 1 {
        let dx = cx - ox;
        let dy = cy - oy;
        let k = (dx + 1) * 3 + (dy + 1);
        lemma_fundamental_div_mod_converse(k, 3, dx + 1, dy + 1);
        assert(0 <= k < 9 && cx == ox + off_x(k) && cy == oy + off_y(k));
    }
    if in_window_prefix(9, ox, oy, cx, cy) {
        let k = choose|k: int| 0 <= k < 9 && cx == ox + #[trigger] off_x(k) && cy == oy + off_y(k);
        lemma_fundamental_div_mod(k, 3);
        vstd::arithmetic::div_mod::lemma_mod_bound(k, 3);
    }
}

/// Whether the chunk at `(cx, cy)` still needs its representations
/// spawned: absent from the store, or present but not loaded.
pub open spec fn needs_load(s: Seq<ChunkEntry>, cx: int, cy: int) -> bool {
    !(has_coord(s, cx, cy) && chunk_at(s, cx, cy).is_loaded)
}

/// The tile kind that cell `(i, j)` of the chunk at `(cx, cy)` carries
/// after a load step over the store `old_s`: the stored grid's kind when
/// the chunk already existed, else the kind generated from the field.
pub open spec fn spec_cell_kind(
    old_s: Seq<ChunkEntry>,
    field: NoiseField,
    cx: int,
    cy: int,
    i: int,
    j: int,
) -> TileType {
    if has_coord(old_s, cx, cy) {
        chunk_at(old_s, cx, cy).spec_tile(i, j)
    } else {
        spec_generated_tile(field, cx, cy, i, j)
    }
}

/// Whether `r` is a legitimate request for cell `(i, j)` of the chunk at
/// `(cx, cy)`: the cell's tile representation, or a rock decoration on a
/// grass cell.
pub open spec fn request_matches_cell(
    r: SpawnRequest,
    old_s: Seq<ChunkEntry>,
    field: NoiseField,
    cx: int,
    cy: int,
    i: int,
    j: int,
) -> bool {
    ||| (r.kind == SpawnKind::Tile(spec_cell_kind(old_s, field, cx, cy, i, j)) && r.x
        == spec_tile_world_x(cx, i) && r.z == spec_tile_world_z(cy, j))
    ||| (r.kind == SpawnKind::Rock && spec_cell_kind(old_s, field, cx, cy, i, j)
        == TileType::Grass && r.x == spec_tile_world_x(cx, i) && r.z == spec_tile_world_z(cy, j)
        + ROCK_SHIFT_Z)
}

/// Whether `r` is a legitimate request for some cell of the chunk at
/// `(cx, cy)`.
pub open spec fn request_matches_chunk(
    r: SpawnRequest,
    old_s: Seq<ChunkEntry>,
    field: NoiseField,
    cx: int,
    cy: int,
) -> bool {
    exists|i: int, j: int|
        0 <= i < 5 && 0 <= j < 5 && #[trigger] request_matches_cell(r, old_s, field, cx, cy, i, j)
}

/// Whether `r` belongs to the load step around `(ox, oy)` over the store
/// `old_s`: a request for a chunk inside the load radius that still
/// needed loading.
pub open spec fn valid_window_request(
    r: SpawnRequest,
    old_s: Seq<ChunkEntry>,
    field: NoiseField,
    ox: int,
    oy: int,
) -> bool {
    exists|cx: int, cy: int|
        spec_cheb(cx, cy, ox, oy) <= LOAD_RADIUS as int && needs_load(old_s, cx, cy)
            && #[trigger] request_matches_chunk(r, old_s, field, cx, cy)
}

/// Whether `rs` holds the tile request of cell `(i, j)` of the chunk at
/// `(cx, cy)`.
pub open spec fn cell_spawned(
    rs: Seq<SpawnRequest>,
    old_s: Seq<ChunkEntry>,
    field: NoiseField,
    cx: int,
    cy: int,
    i: int,
    j: int,
) -> bool {
    exists|n: int|
        0 <= n < rs.len() && (#[trigger] rs[n]).kind == SpawnKind::Tile(
            spec_cell_kind(old_s, field, cx, cy, i, j),
        ) && rs[n].x == spec_tile_world_x(cx, i) && rs[n].z == spec_tile_world_z(cy, j)
}

/// Whether two chunk values describe the same state: the same tile grid
/// and the same loaded flag.
pub open spec fn same_chunk_state(a: Chunk, b: Chunk) -> bool {
    a.tiles@ == b.tiles@ && a.is_loaded == b.is_loaded
}

/// Like `valid_window_request`, but with the request's chunk among the
/// first `t` coordinates of the load window; the load loop's running
/// strengthening of it.
spec fn prefix_window_request(
    r: SpawnRequest,
    old_s: Seq<ChunkEntry>,
    field: NoiseField,
    t: int,
    ox: int,
    oy: int,
) -> bool {
    exists|cx: int, cy: int|
        in_window_prefix(t, ox, oy, cx, cy) && needs_load(old_s, cx, cy)
            && #[trigger] request_matches_chunk(r, old_s, field, cx, cy)
}

/// A cell's world position on one axis pins both the chunk coordinate
/// and the cell index: positions of distinct cells never coincide, within
/// one chunk or across chunks.
proof fn lemma_cell_position_injective(c1: int, i1: int, c2: int, i2: int)
    requires
        0 <= i1 < 5,
        0 <= i2 < 5,
        spec_tile_world_x(c1, i1) == spec_tile_world_x(c2, i2),
    ensures
        c1 == c2,
        i1 == i2,
{
    assert(c1 * 5 - 2 + i1 == c2 * 5 - 2 + i2);
    lemma_fundamental_div_mod_converse(5 * c1 + i1, 5, c1, i1);
    lemma_fundamental_div_mod_converse(5 * c2 + i2, 5, c2, i2);
}

/// Extending the window prefix by one step adds exactly the step's
/// coordinate.
proof fn lemma_window_prefix_step(t: int, ox: int, oy: int)
    requires
        0 <= t,
    ensures
        forall|cx: int, cy: int|
            #[trigger] in_window_prefix(t + 1, ox, oy, cx, cy) <==> (in_window_prefix(
                t,
                ox,
                oy,
                cx,
                cy,
            ) || (cx == ox + off_x(t) && cy == oy + off_y(t))),
{
    assert forall|cx: int, cy: int| #[trigger] in_window_prefix(t + 1, ox, oy, cx, cy) implies (
    in_window_prefix(t, ox, oy, cx, cy) || (cx == ox + off_x(t) && cy == oy + off_y(t))) by {
        let kk = choose|kk: int|
            0 <= kk < t + 1 && cx == ox + #[trigger] off_x(kk) && cy == oy + off_y(kk);
        if kk < t {
            assert(in_window_prefix(t, ox, oy, cx, cy));
        }
    }
    assert forall|cx: int, cy: int|
        (in_window_prefix(t, ox, oy, cx, cy) || (cx == ox + off_x(t) && cy == oy + off_y(
            t,
        ))) implies #[trigger] in_window_prefix(t + 1, ox, oy, cx, cy) by {
        if in_window_prefix(t, ox, oy, cx, cy) {
            let kk = choose|kk: int|
                0 <= kk < t && cx == ox + #[trigger] off_x(kk) && cy == oy + off_y(kk);
            assert(0 <= kk < t + 1 && cx == ox + off_x(kk) && cy == oy + off_y(kk));
        } else {
            assert(0 <= t < t + 1 && cx == ox + off_x(t) && cy == oy + off_y(t));
        }
    }
}

/// A request set keeps every spawned cell when it only grows at the end.
proof fn lemma_cell_spawned_monotone(
    rs1: Seq<SpawnRequest>,
    rs2: Seq<SpawnRequest>,
    old_s: Seq<ChunkEntry>,
    field: NoiseField,
    cx: int,
    cy: int,
    i: int,
    j: int,
)
    requires
        rs1.len() <= rs2.len(),
        forall|n: int| 0 <= n < rs1.len() ==> rs2[n] == rs1[n],
        cell_spawned(rs1, old_s, field, cx, cy, i, j),
    ensures
        cell_spawned(rs2, old_s, field, cx, cy, i, j),
{
    let n = choose|n: int|
        0 <= n < rs1.len() && (#[trigger] rs1[n]).kind == SpawnKind::Tile(
            spec_cell_kind(old_s, field, cx, cy, i, j),
        ) && rs1[n].x == spec_tile_world_x(cx, i) && rs1[n].z == spec_tile_world_z(cy, j);
    assert(rs2[n] == rs1[n]);
}

/// The streamer's per-tick load step: derive the observer's chunk
/// coordinate, make every chunk within `LOAD_RADIUS` of it exist
/// (generating it from the field when absent) and be loaded, and emit the
/// spawn requests of every chunk that was not loaded before: one tile
/// request per cell, plus rock decorations rolled on grass cells. Chunks
/// outside the radius are untouched.
#[verifier::rlimit(60)]
pub fn update_tiles(world: &mut WorldData, observer: Vec2I) -> (rs: Vec<SpawnRequest>)
    requires
        old(world).wf(),
        -POS_LIMIT <= observer.x <= POS_LIMIT,
        -POS_LIMIT <= observer.z <= POS_LIMIT,
    ensures
        final(world).wf(),
        final(world).field == old(world).field,
        ({
            let ox = spec_chunk_coord(observer.x as int);
            let oy = spec_chunk_coord(observer.z as int);
            let old_s = old(world).chunks@;
            let now = final(world).chunks@;
            let fld = old(world).field;
            &&& forall|cx: int, cy: int|
                spec_cheb(cx, cy, ox, oy) <= LOAD_RADIUS as int ==> #[trigger] has_coord(
                    now,
                    cx,
                    cy,
                ) && chunk_at(now, cx, cy).is_loaded && (has_coord(old_s, cx, cy) ==> chunk_at(
                    now,
                    cx,
                    cy,
                ).tiles@ == chunk_at(old_s, cx, cy).tiles@) && (!has_coord(old_s, cx, cy)
                ==> spec_tiles_generated(fld, cx, cy, chunk_at(now, cx, cy)))
            &&& forall|cx: int, cy: int|
                spec_cheb(cx, cy, ox, oy) > LOAD_RADIUS as int ==> (#[trigger] has_coord(
                    now,
                    cx,
                    cy,
                ) <==> has_coord(old_s, cx, cy)) && (has_coord(old_s, cx, cy) ==> same_chunk_state(
                    chunk_at(now, cx, cy),
                    chunk_at(old_s, cx, cy),
                ))
            &&& forall|n: int|
                0 <= n < rs@.len() ==> valid_window_request(#[trigger] rs@[n], old_s, fld, ox, oy)
            &&& forall|cx: int, cy: int, i: int, j: int|
                spec_cheb(cx, cy, ox, oy) <= LOAD_RADIUS as int && needs_load(old_s, cx, cy) && 0
                    <= i < 5 && 0 <= j < 5 ==> #[trigger] cell_spawned(
                    rs@,
                    old_s,
                    fld,
                    cx,
                    cy,
                    i,
                    j,
                )
            &&& forall|n1: int, n2: int| 0 <= n1 < n2 < rs@.len() ==> rs@[n1] != rs@[n2]
        }),
{
    let o = get_chunk_pos(observer);
    let ghost gox: int = o.0 as int;
    let ghost goy: int = o.1 as int;
    let ghost old_s = old(world).chunks@;
    let ghost fld = old(world).field;
    let mut out: Vec<SpawnRequest> = Vec::new();
    let mut k: usize = 0;
    while k < 9
        invariant
            old(world).wf(),
            world.wf(),
            world.field == fld,
            fld == old(world).field,
            old_s == old(world).chunks@,
            gox == spec_chunk_coord(observer.x as int),
            goy == spec_chunk_coord(observer.z as int),
            o.0 as int == gox,
            o.1 as int == goy,
            -100_000_001 <= o.0 <= 100_000_001,
            -100_000_001 <= o.1 <= 100_000_001,
            0 <= k <= 9,
            world.chunks@.len() >= old_s.len(),
            forall|n: int|
                0 <= n < old_s.len() ==> {
                    let e = #[trigger] world.chunks@[n];
                    &&& e.cx == old_s[n].cx
                    &&& e.cy == old_s[n].cy
                    &&& e.chunk.tiles@ == old_s[n].chunk.tiles@
                    &&& (e.chunk.is_loaded <==> (old_s[n].chunk.is_loaded || in_window_prefix(
                        k as int,
                        gox,
                        goy,
                        e.cx as int,
                        e.cy as int,
                    )))
                },
            forall|n: int|
                old_s.len() <= n < world.chunks@.len() ==> {
                    let e = #[trigger] world.chunks@[n];
                    &&& in_window_prefix(k as int, gox, goy, e.cx as int, e.cy as int)
                    &&& !has_coord(old_s, e.cx as int, e.cy as int)
                    &&& spec_tiles_generated(fld, e.cx as int, e.cy as int, e.chunk)
                    &&& e.chunk.is_loaded
                },
            forall|cx: int, cy: int|
                in_window_prefix(k as int, gox, goy, cx, cy) ==> #[trigger] has_coord(
                    world.chunks@,
                    cx,
                    cy,
                ),
            forall|n: int|
                0 <= n < out@.len() ==> prefix_window_request(
                    #[trigger] out@[n],
                    old_s,
                    fld,
                    k as int,
                    gox,
                    goy,
                ),
            forall|n1: int, n2: int| 0 <= n1 < n2 < out@.len() ==> out@[n1] != out@[n2],
            forall|cx: int, cy: int, i: int, j: int|
                in_window_prefix(k as int, gox, goy, cx, cy) && needs_load(old_s, cx, cy) && 0 <= i
                    < 5 && 0 <= j < 5 ==> #[trigger] cell_spawned(out@, old_s, fld, cx, cy, i, j),
        decreases 9 - k,
    {
        let di: i32 = (k / 3) as i32 - 1;
        let dj: i32 = (k % 3) as i32 - 1;
        let cx: i32 = o.0 + di;
        let cy: i32 = o.1 + dj;
        proof {
            assert(di as int == off_x(k as int));
            assert(dj as int == off_y(k as int));
            if in_window_prefix(k as int, gox, goy, cx as int, cy as int) {
                let k2 = choose|k2: int|
                    0 <= k2 < k as int && cx as int == gox + #[trigger] off_x(k2) && cy as int
                        == goy + off_y(k2);
                lemma_window_offsets_injective(k2, k as int);
                assert(false);
            }
        }
        let ghost pre = world.chunks@;
        let ghost out0 = out@;
        let idx = world.get_or_generate(cx, cy);
        proof {
            // an unprocessed coordinate was present before the call
            // exactly when it is present in the pre-tick store
            if has_coord(old_s, cx as int, cy as int) {
                let n = idx_of(old_s, cx as int, cy as int);
                lemma_idx_of(old_s, n);
                assert(pre[n].cx == cx && pre[n].cy == cy);
                assert(has_coord(pre, cx as int, cy as int));
            }
            if has_coord(pre, cx as int, cy as int) {
                let n = idx_of(pre, cx as int, cy as int);
                lemma_idx_of(pre, n);
                assert(n < old_s.len());
                assert(has_coord(old_s, cx as int, cy as int));
                lemma_idx_of(old_s, n);
            }
        }
        let lo = world.chunks[idx].chunk.is_loaded;
        if !lo {
            proof {
                // the chunk at idx carries exactly the cell kinds of the
                // load step over the pre-tick store
                if idx < old_s.len() {
                    lemma_idx_of(old_s, idx as int);
                    assert(has_coord(old_s, cx as int, cy as int));
                    assert(chunk_at(old_s, cx as int, cy as int) == old_s[idx as int].chunk);
                }
                assert(needs_load(old_s, cx as int, cy as int));
                assert forall|i: int, j: int| 0 <= i < 5 && 0 <= j < 5 implies world.chunks@[idx as int].chunk.spec_tile(
                    i,
                    j,
                ) == spec_cell_kind(old_s, fld, cx as int, cy as int, i, j) by {
                }
            }
            let mut treqs = spawn_chunk(&world.chunks[idx].chunk, cx, cy);
            let mut rreqs = decorate_chunk(&world.chunks[idx].chunk, cx, cy);
            let ghost base = out@.len() as int;
            let ghost treqs_snap = treqs@;
            out.append(&mut treqs);
            let ghost base2 = out@.len() as int;
            let ghost rreqs_snap = rreqs@;
            out.append(&mut rreqs);
            proof {
                let c = world.chunks@[idx as int].chunk;
                assert forall|i: int, j: int| 0 <= i < 5 && 0 <= j < 5 implies cell_spawned(
                    out@,
                    old_s,
                    fld,
                    cx as int,
                    cy as int,
                    i,
                    j,
                ) by {
                    assert(is_tile_request(treqs_snap[i * 5 + j], c, cx as int, cy as int, i, j));
                    assert(out@[base + i * 5 + j] == treqs_snap[i * 5 + j]);
                }
                assert(forall|n: int| 0 <= n < out0.len() ==> out@[n] == out0[n]);
                assert(cx as int == gox + off_x(k as int) && cy as int == goy + off_y(
                    k as int,
                ));
                assert(in_window_prefix(k as int + 1, gox, goy, cx as int, cy as int));
                lemma_window_prefix_step(k as int, gox, goy);
                // every request names a cell of the chunk it was emitted
                // for, a window chunk that needed loading
                assert forall|n: int| 0 <= n < out@.len() implies prefix_window_request(
                    #[trigger] out@[n],
                    old_s,
                    fld,
                    k as int + 1,
                    gox,
                    goy,
                ) by {
                    let r = out@[n];
                    if n < base {
                        assert(prefix_window_request(out0[n], old_s, fld, k as int, gox, goy));
                        let (a, b) = choose|a: int, b: int|
                            in_window_prefix(k as int, gox, goy, a, b) && needs_load(old_s, a, b)
                                && #[trigger] request_matches_chunk(out0[n], old_s, fld, a, b);
                        assert(in_window_prefix(k as int + 1, gox, goy, a, b));
                    } else if n < base2 {
                        // a tile request: recover its cell from its index
                        let m = n - base;
                        let i = m / 5;
                        let j = m % 5;
                        lemma_fundamental_div_mod(m, 5);
                        vstd::arithmetic::div_mod::lemma_mod_bound(m, 5);
                        assert(is_tile_request(r, c, cx as int, cy as int, i, j));
                        assert(request_matches_cell(r, old_s, fld, cx as int, cy as int, i, j));
                        assert(request_matches_chunk(r, old_s, fld, cx as int, cy as int));
                    } else {
                        assert(r == rreqs_snap[n - base2]);
                        assert(rock_on_grass(r, c, cx as int, cy as int));
                        let (i, j) = choose|i: int, j: int|
                            0 <= i < 5 && 0 <= j < 5 && #[trigger] is_rock_request(
                                r,
                                cx as int,
                                cy as int,
                                i,
                                j,
                            ) && c.spec_tile(i, j) == TileType::Grass;
                        assert(request_matches_cell(r, old_s, fld, cx as int, cy as int, i, j));
                        assert(request_matches_chunk(r, old_s, fld, cx as int, cy as int));
                    }
                }
                // no request is emitted twice: positions pin chunk and
                // cell, this chunk is fresh in the window, and the batch
                // itself holds each cell's tile once and each rock once
                assert forall|n1: int, n2: int|
                    0 <= n1 < n2 < out@.len() implies out@[n1] != out@[n2] by {
                    let r1 = out@[n1];
                    let r2 = out@[n2];
                    if n2 < base {
                        assert(out0[n1] != out0[n2]);
                    } else if n1 < base {
                        // an earlier request belongs to an earlier window
                        // chunk; positions put the new ones in this chunk
                        assert(prefix_window_request(out0[n1], old_s, fld, k as int, gox, goy));
                        let (a, b) = choose|a: int, b: int|
                            in_window_prefix(k as int, gox, goy, a, b) && needs_load(old_s, a, b)
                                && #[trigger] request_matches_chunk(out0[n1], old_s, fld, a, b);
                        let (i1, j1) = choose|i1: int, j1: int|
                            0 <= i1 < 5 && 0 <= j1 < 5 && #[trigger] request_matches_cell(
                                r1,
                                old_s,
                                fld,
                                a,
                                b,
                                i1,
                                j1,
                            );
                        if r1 == r2 {
                            if n2 < base2 {
                                let m = n2 - base;
                                let i2 = m / 5;
                                let j2 = m % 5;
                                lemma_fundamental_div_mod(m, 5);
                                vstd::arithmetic::div_mod::lemma_mod_bound(m, 5);
                                assert(is_tile_request(r2, c, cx as int, cy as int, i2, j2));
                                // r1 equals a tile request, so its own
                                // match is the tile disjunct
                                assert(r1.x == spec_tile_world_x(a, i1));
                                assert(r1.z == spec_tile_world_z(b, j1));
                                lemma_cell_position_injective(a, i1, cx as int, i2);
                                assert(spec_tile_world_x(b, j1) == spec_tile_world_x(
                                    cy as int,
                                    j2,
                                ));
                                lemma_cell_position_injective(b, j1, cy as int, j2);
                                assert(a == cx as int && b == cy as int);
                                assert(false);
                            } else {
                                assert(r2 == rreqs_snap[n2 - base2]);
                                assert(rock_on_grass(r2, c, cx as int, cy as int));
                                let (i2, j2) = choose|i2: int, j2: int|
                                    0 <= i2 < 5 && 0 <= j2 < 5 && #[trigger] is_rock_request(
                                        r2,
                                        cx as int,
                                        cy as int,
                                        i2,
                                        j2,
                                    ) && c.spec_tile(i2, j2) == TileType::Grass;
                                // r1 equals a rock request, so its own
                                // match is the rock disjunct
                                assert(r1.x == spec_tile_world_x(a, i1));
                                assert(r1.z == spec_tile_world_z(b, j1) + ROCK_SHIFT_Z);
                                lemma_cell_position_injective(a, i1, cx as int, i2);
                                assert(spec_tile_world_x(b, j1) == spec_tile_world_x(
                                    cy as int,
                                    j2,
                                ));
                                lemma_cell_position_injective(b, j1, cy as int, j2);
                                assert(a == cx as int && b == cy as int);
                                assert(false);
                            }
                        }
                    } else if n2 < base2 {
                        // two tile requests of this chunk: distinct cells
                        let m1 = n1 - base;
                        let m2 = n2 - base;
                        let i1 = m1 / 5;
                        let j1 = m1 % 5;
                        let i2 = m2 / 5;
                        let j2 = m2 % 5;
                        lemma_fundamental_div_mod(m1, 5);
                        lemma_fundamental_div_mod(m2, 5);
                        vstd::arithmetic::div_mod::lemma_mod_bound(m1, 5);
                        vstd::arithmetic::div_mod::lemma_mod_bound(m2, 5);
                        assert(is_tile_request(r1, c, cx as int, cy as int, i1, j1));
                        assert(is_tile_request(r2, c, cx as int, cy as int, i2, j2));
                        if r1 == r2 {
                            lemma_cell_position_injective(cx as int, i1, cx as int, i2);
                            assert(spec_tile_world_x(cy as int, j1) == spec_tile_world_x(
                                cy as int,
                                j2,
                            ));
                            lemma_cell_position_injective(cy as int, j1, cy as int, j2);
                            assert(m1 == m2);
                            assert(false);
                        }
                    } else if n1 < base2 {
                        // a tile request never equals a rock request
                        let m1 = n1 - base;
                        lemma_fundamental_div_mod(m1, 5);
                        vstd::arithmetic::div_mod::lemma_mod_bound(m1, 5);
                        assert(is_tile_request(r1, c, cx as int, cy as int, m1 / 5, m1 % 5));
                        assert(r2 == rreqs_snap[n2 - base2]);
                        assert(rock_on_grass(r2, c, cx as int, cy as int));
                        let (i2, j2) = choose|i2: int, j2: int|
                            0 <= i2 < 5 && 0 <= j2 < 5 && #[trigger] is_rock_request(
                                r2,
                                cx as int,
                                cy as int,
                                i2,
                                j2,
                            ) && c.spec_tile(i2, j2) == TileType::Grass;
                        assert(r1.kind != r2.kind);
                    } else {
                        // two rocks of this chunk: the decoration pass
                        // emits pairwise distinct requests
                        assert(r1 == rreqs_snap[n1 - base2]);
                        assert(r2 == rreqs_snap[n2 - base2]);
                    }
                }
            }
            world.chunks[idx].chunk.is_loaded = true;
            proof {
                assert forall|i: int, j: int| 0 <= i < 5 && 0 <= j < 5 implies world.chunks@[idx as int].chunk.spec_tile(
                    i,
                    j,
                ) == spec_cell_kind(old_s, fld, cx as int, cy as int, i, j) by {
                }
                if world.chunks@.len() > pre.len() {
                    // the chunk was freshly generated: its grid is the
                    // field's, and it is loaded now
                    assert(idx as int == pre.len());
                    assert(!has_coord(pre, cx as int, cy as int));
                    assert(!has_coord(old_s, cx as int, cy as int)) by {
                        if has_coord(old_s, cx as int, cy as int) {
                            let n = idx_of(old_s, cx as int, cy as int);
                            lemma_idx_of(old_s, n);
                            assert(pre[n].cx == cx && pre[n].cy == cy);
                            assert(has_coord(pre, cx as int, cy as int));
                        }
                    }
                    assert forall|i: int, j: int|
                        0 <= i < 5 && 0 <= j < 5 implies world.chunks@[idx as int].chunk.spec_tile(
                        i,
                        j,
                    ) == spec_generated_tile(fld, cx as int, cy as int, i, j) by {
                        assert(spec_cell_kind(old_s, fld, cx as int, cy as int, i, j)
                            == spec_generated_tile(fld, cx as int, cy as int, i, j));
                    }
                    assert(world.chunks@[idx as int].chunk.wf());
                    assert(spec_tiles_generated(
                        fld,
                        cx as int,
                        cy as int,
                        world.chunks@[idx as int].chunk,
                    ));
                }
            }
        } else {
            proof {
                // a chunk that is already loaded was stored and loaded
                // before the tick: a freshly generated one starts unloaded
                assert(has_coord(pre, cx as int, cy as int));
                let n = idx_of(pre, cx as int, cy as int);
                lemma_idx_of(pre, n);
                assert(n == idx as int);
                assert(n < old_s.len());
                lemma_idx_of(old_s, n);
                assert(chunk_at(old_s, cx as int, cy as int).is_loaded);
                assert(!needs_load(old_s, cx as int, cy as int));
            }
        }
        proof {
            lemma_window_prefix_step(k as int, gox, goy);
            assert(in_window_prefix(k as int + 1, gox, goy, cx as int, cy as int));
            // requests of earlier chunks remain requests of the larger
            // window
            assert forall|n: int| 0 <= n < out@.len() implies prefix_window_request(
                #[trigger] out@[n],
                old_s,
                fld,
                k as int + 1,
                gox,
                goy,
            ) by {
                if lo {
                    assert(prefix_window_request(out@[n], old_s, fld, k as int, gox, goy));
                    let (a, b) = choose|a: int, b: int|
                        in_window_prefix(k as int, gox, goy, a, b) && needs_load(old_s, a, b)
                            && #[trigger] request_matches_chunk(out@[n], old_s, fld, a, b);
                    assert(in_window_prefix(k as int + 1, gox, goy, a, b));
                }
            }
            // presence of window coordinates
            assert forall|a: int, b: int|
                in_window_prefix(k as int + 1, gox, goy, a, b) implies #[trigger] has_coord(
                world.chunks@,
                a,
                b,
            ) by {
                if in_window_prefix(k as int, gox, goy, a, b) {
                    assert(has_coord(pre, a, b));
                    let n = idx_of(pre, a, b);
                    lemma_idx_of(pre, n);
                    assert(world.chunks@[n].cx == a && world.chunks@[n].cy == b);
                } else {
                    assert(world.chunks@[idx as int].cx == a && world.chunks@[idx as int].cy == b);
                }
            }
            // spawned cells of previously processed coordinates survive
            assert forall|a: int, b: int, i: int, j: int|
                in_window_prefix(k as int + 1, gox, goy, a, b) && needs_load(old_s, a, b) && 0 <= i
                    < 5 && 0 <= j < 5 implies #[trigger] cell_spawned(
                out@,
                old_s,
                fld,
                a,
                b,
                i,
                j,
            ) by {
                if !(a == cx as int && b == cy as int) {
                    assert(in_window_prefix(k as int, gox, goy, a, b));
                    lemma_cell_spawned_monotone(out0, out@, old_s, fld, a, b, i, j);
                }
            }
        }
        k = k + 1;
    }
    proof {
        assert forall|n: int| 0 <= n < out@.len() implies valid_window_request(
            #[trigger] out@[n],
            old_s,
            fld,
            gox,
            goy,
        ) by {
            assert(prefix_window_request(out@[n], old_s, fld, 9, gox, goy));
            let (a, b) = choose|a: int, b: int|
                in_window_prefix(9, gox, goy, a, b) && needs_load(old_s, a, b)
                    && #[trigger] request_matches_chunk(out@[n], old_s, fld, a, b);
            lemma_window_covers_radius(gox, goy, a, b);
        }
        assert forall|a: int, b: int| spec_cheb(a, b, gox, goy) <= LOAD_RADIUS as int implies (
        #[trigger] has_coord(world.chunks@, a, b) && chunk_at(world.chunks@, a, b).is_loaded && (
        has_coord(old_s, a, b) ==> chunk_at(world.chunks@, a, b).tiles@ == chunk_at(
            old_s,
            a,
            b,
        ).tiles@) && (!has_coord(old_s, a, b) ==> spec_tiles_generated(
            fld,
            a,
            b,
            chunk_at(world.chunks@, a, b),
        ))) by {
            lemma_window_covers_radius(gox, goy, a, b);
            assert(has_coord(world.chunks@, a, b));
            let m = idx_of(world.chunks@, a, b);
            lemma_idx_of(world.chunks@, m);
            if m < old_s.len() {
                lemma_idx_of(old_s, m);
            }
        }
        assert forall|a: int, b: int| spec_cheb(a, b, gox, goy) > LOAD_RADIUS as int implies ((
        #[trigger] has_coord(world.chunks@, a, b) <==> has_coord(old_s, a, b)) && (has_coord(
            old_s,
            a,
            b,
        ) ==> same_chunk_state(chunk_at(world.chunks@, a, b), chunk_at(old_s, a, b)))) by {
            lemma_window_covers_radius(gox, goy, a, b);
            if has_coord(old_s, a, b) {
                let n = idx_of(old_s, a, b);
                lemma_idx_of(old_s, n);
                assert(world.chunks@[n].cx == a && world.chunks@[n].cy == b);
                lemma_idx_of(world.chunks@, n);
            }
            if has_coord(world.chunks@, a, b) {
                let n = idx_of(world.chunks@, a, b);
                lemma_idx_of(world.chunks@, n);
                if n < old_s.len() {
                    lemma_idx_of(old_s, n);
                }
            }
        }
        assert forall|a: int, b: int, i: int, j: int|
            spec_cheb(a, b, gox, goy) <= LOAD_RADIUS as int && needs_load(old_s, a, b) && 0 <= i
                < 5 && 0 <= j < 5 implies #[trigger] cell_spawned(
            out@,
            old_s,
            fld,
            a,
            b,
            i,
            j,
        ) by {
            lemma_window_covers_radius(gox, goy, a, b);
        }
    }
    out
}

/// The initial population of the world at spawn time: the same load step
/// as the per-tick one, run once before the first frame so that no chunk
/// pops in around the observer's starting position.
pub fn spawn_tiles_around_player(world: &mut WorldData, observer: Vec2I) -> (rs: Vec<
    SpawnRequest,
>)
    requires
        old(world).wf(),
        -POS_LIMIT <= observer.x <= POS_LIMIT,
        -POS_LIMIT <= observer.z <= POS_LIMIT,
    ensures
        final(world).wf(),
        final(world).field == old(world).field,
        ({
            let ox = spec_chunk_coord(observer.x as int);
            let oy = spec_chunk_coord(observer.z as int);
            let old_s = old(world).chunks@;
            let now = final(world).chunks@;
            let fld = old(world).field;
            &&& forall|cx: int, cy: int|
                spec_cheb(cx, cy, ox, oy) <= LOAD_RADIUS as int ==> #[trigger] has_coord(
                    now,
                    cx,
                    cy,
                ) && chunk_at(now, cx, cy).is_loaded && (has_coord(old_s, cx, cy) ==> chunk_at(
                    now,
                    cx,
                    cy,
                ).tiles@ == chunk_at(old_s, cx, cy).tiles@) && (!has_coord(old_s, cx, cy)
                ==> spec_tiles_generated(fld, cx, cy, chunk_at(now, cx, cy)))
            &&& forall|cx: int, cy: int|
                spec_cheb(cx, cy, ox, oy) > LOAD_RADIUS as int ==> (#[trigger] has_coord(
                    now,
                    cx,
                    cy,
                ) <==> has_coord(old_s, cx, cy)) && (has_coord(old_s, cx, cy) ==> same_chunk_state(
                    chunk_at(now, cx, cy),
                    chunk_at(old_s, cx, cy),
                ))
            &&& forall|n: int|
                0 <= n < rs@.len() ==> valid_window_request(#[trigger] rs@[n], old_s, fld, ox, oy)
            &&& forall|cx: int, cy: int, i: int, j: int|
                spec_cheb(cx, cy, ox, oy) <= LOAD_RADIUS as int && needs_load(old_s, cx, cy) && 0
                    <= i < 5 && 0 <= j < 5 ==> #[trigger] cell_spawned(
                    rs@,
                    old_s,
                    fld,
                    cx,
                    cy,
                    i,
                    j,
                )
            &&& forall|n1: int, n2: int| 0 <= n1 < n2 < rs@.len() ==> rs@[n1] != rs@[n2]
        }),
{
    update_tiles(world, observer)
}

/// Whether a representation's position maps back to the chunk coordinate
/// `(cx, cy)`.
pub open spec fn rep_in_chunk(rep: Representation, cx: int, cy: int) -> bool {
    spec_chunk_coord(rep.x as int) == cx && spec_chunk_coord(rep.z as int) == cy
}

/// Whether `rep` belongs to a chunk of `s` that is loaded yet lies beyond
/// the unload radius of the observer coordinate `(ox, oy)`.
pub open spec fn rep_in_far_loaded(
    rep: Representation,
    s: Seq<ChunkEntry>,
    ox: int,
    oy: int,
) -> bool {
    let cx = spec_chunk_coord(rep.x as int);
    let cy = spec_chunk_coord(rep.z as int);
    &&& has_coord(s, cx, cy)
    &&& chunk_at(s, cx, cy).is_loaded
    &&& spec_cheb(cx, cy, ox, oy) > UNLOAD_RADIUS as int
}

/// Whether `id` names some representation of `reps` whose position maps
/// into the chunk at `(cx, cy)`.
pub open spec fn id_from_chunk(id: u64, reps: Seq<Representation>, cx: int, cy: int) -> bool {
    exists|m: int|
        0 <= m < reps.len() && (#[trigger] reps[m]).id == id && rep_in_chunk(reps[m], cx, cy)
}

/// Whether `id` names some representation of `reps` that belongs to a
/// loaded chunk of `s` beyond the unload radius of `(ox, oy)`.
pub open spec fn id_from_far_loaded(
    id: u64,
    reps: Seq<Representation>,
    s: Seq<ChunkEntry>,
    ox: int,
    oy: int,
) -> bool {
    exists|m: int|
        0 <= m < reps.len() && (#[trigger] reps[m]).id == id && rep_in_far_loaded(
            reps[m],
            s,
            ox,
            oy,
        )
}

/// A sequence keeps every contained element when it only grows at the
/// end.
proof fn lemma_contains_monotone(s1: Seq<u64>, s2: Seq<u64>, v: u64)
    requires
        s1.len() <= s2.len(),
        forall|n: int| 0 <= n < s1.len() ==> s2[n] == s1[n],
        s1.contains(v),
    ensures
        s2.contains(v),
{
    let n = choose|n: int| 0 <= n < s1.len() && s1[n] == v;
    assert(s2[n] == v);
}

/// Collect the entity ids of the representations whose current position
/// maps into the chunk at `chunk_pos`. Membership is recomputed from the
/// live position each time; no back-reference is stored.
pub fn get_chunk_tiles(chunk_pos: (i32, i32), reps: &Vec<Representation>) -> (ids: Vec<u64>)
    requires
        forall|m: int|
            0 <= m < reps@.len() ==> -POS_LIMIT <= (#[trigger] reps@[m]).x <= POS_LIMIT
                && -POS_LIMIT <= reps@[m].z <= POS_LIMIT,
    ensures
        forall|n: int|
            0 <= n < ids@.len() ==> id_from_chunk(
                #[trigger] ids@[n],
                reps@,
                chunk_pos.0 as int,
                chunk_pos.1 as int,
            ),
        forall|m: int|
            0 <= m < reps@.len() && rep_in_chunk(
                #[trigger] reps@[m],
                chunk_pos.0 as int,
                chunk_pos.1 as int,
            ) ==> ids@.contains(reps@[m].id),
        (forall|m1: int, m2: int|
            0 <= m1 < m2 < reps@.len() ==> (#[trigger] reps@[m1]).id != (#[trigger] reps@[m2]).id)
            ==> (forall|k1: int, k2: int| 0 <= k1 < k2 < ids@.len() ==> ids@[k1] != ids@[k2]),
{
    let mut ids: Vec<u64> = Vec::new();
    let ghost mut srcs: Seq<int> = Seq::empty();
    let n = reps.len();
    let mut m: usize = 0;
    while m < n
        invariant
            n == reps@.len(),
            0 <= m <= n,
            forall|mm: int|
                0 <= mm < reps@.len() ==> -POS_LIMIT <= (#[trigger] reps@[mm]).x <= POS_LIMIT
                    && -POS_LIMIT <= reps@[mm].z <= POS_LIMIT,
            forall|k: int|
                0 <= k < ids@.len() ==> id_from_chunk(
                    #[trigger] ids@[k],
                    reps@,
                    chunk_pos.0 as int,
                    chunk_pos.1 as int,
                ),
            forall|mm: int|
                0 <= mm < m && rep_in_chunk(
                    #[trigger] reps@[mm],
                    chunk_pos.0 as int,
                    chunk_pos.1 as int,
                ) ==> ids@.contains(reps@[mm].id),
            srcs.len() == ids@.len(),
            forall|k: int|
                0 <= k < srcs.len() ==> 0 <= #[trigger] srcs[k] < m && ids@[k]
                    == reps@[srcs[k]].id,
            forall|k1: int, k2: int| 0 <= k1 < k2 < srcs.len() ==> srcs[k1] < srcs[k2],
        decreases n - m,
    {
        let rep = &reps[m];
        let c = get_chunk_pos(Vec2I { x: rep.x, z: rep.z });
        let ghost pre_ids = ids@;
        if c.0 == chunk_pos.0 && c.1 == chunk_pos.1 {
            ids.push(rep.id);
            proof {
                srcs = srcs.push(m as int);
            }
        }
        proof {
            assert forall|mm: int|
                0 <= mm < m + 1 && rep_in_chunk(
                    #[trigger] reps@[mm],
                    chunk_pos.0 as int,
                    chunk_pos.1 as int,
                ) implies ids@.contains(reps@[mm].id) by {
                if mm < m {
                    lemma_contains_monotone(pre_ids, ids@, reps@[mm].id);
                } else {
                    assert(ids@[ids@.len() - 1] == reps@[mm].id);
                }
            }
        }
        m = m + 1;
    }
    proof {
        // each matching representation is read once, in order, so with
        // pairwise distinct input ids the output has no duplicate
        if forall|m1: int, m2: int|
            0 <= m1 < m2 < reps@.len() ==> (#[trigger] reps@[m1]).id != (#[trigger] reps@[m2]).id {
            assert forall|k1: int, k2: int|
                0 <= k1 < k2 < ids@.len() implies ids@[k1] != ids@[k2] by {
                assert(srcs[k1] < srcs[k2]);
                assert(ids@[k1] == reps@[srcs[k1]].id);
                assert(ids@[k2] == reps@[srcs[k2]].id);
                assert(reps@[srcs[k1]].id != reps@[srcs[k2]].id);
            }
        }
    }
    ids
}

/// The streamer's per-tick unload step: every stored chunk that is loaded
/// yet lies beyond `UNLOAD_RADIUS` of the observer's chunk coordinate has
/// its representations despawned (those whose position maps into it) and
/// its loaded flag cleared. Tile data is never evicted: unloaded chunks
/// stay in the store.
pub fn deload_chunks(world: &mut WorldData, observer: Vec2I, reps: &Vec<Representation>) -> (ids:
    Vec<u64>)
    requires
        old(world).wf(),
        -POS_LIMIT <= observer.x <= POS_LIMIT,
        -POS_LIMIT <= observer.z <= POS_LIMIT,
        forall|m: int|
            0 <= m < reps@.len() ==> -POS_LIMIT <= (#[trigger] reps@[m]).x <= POS_LIMIT
                && -POS_LIMIT <= reps@[m].z <= POS_LIMIT,
    ensures
        final(world).wf(),
        final(world).field == old(world).field,
        final(world).chunks@.len() == old(world).chunks@.len(),
        ({
            let ox = spec_chunk_coord(observer.x as int);
            let oy = spec_chunk_coord(observer.z as int);
            let old_s = old(world).chunks@;
            let now = final(world).chunks@;
            &&& forall|n: int|
                0 <= n < old_s.len() ==> {
                    let e = #[trigger] now[n];
                    &&& e.cx == old_s[n].cx
                    &&& e.cy == old_s[n].cy
                    &&& e.chunk.tiles@ == old_s[n].chunk.tiles@
                    &&& (e.chunk.is_loaded <==> (old_s[n].chunk.is_loaded && spec_cheb(
                        e.cx as int,
                        e.cy as int,
                        ox,
                        oy,
                    ) <= UNLOAD_RADIUS as int))
                }
            &&& forall|n: int|
                0 <= n < ids@.len() ==> id_from_far_loaded(#[trigger] ids@[n], reps@, old_s, ox, oy)
            &&& forall|m: int|
                0 <= m < reps@.len() && rep_in_far_loaded(#[trigger] reps@[m], old_s, ox, oy)
                    ==> ids@.contains(reps@[m].id)
        }),
{
    let o = get_chunk_pos(observer);
    let ghost gox: int = o.0 as int;
    let ghost goy: int = o.1 as int;
    let ghost old_s = old(world).chunks@;
    let mut ids: Vec<u64> = Vec::new();
    let n = world.chunks.len();
    let mut idx: usize = 0;
    while idx < n
        invariant
            old(world).wf(),
            world.wf(),
            world.field == old(world).field,
            old_s == old(world).chunks@,
            gox == spec_chunk_coord(observer.x as int),
            goy == spec_chunk_coord(observer.z as int),
            o.0 as int == gox,
            o.1 as int == goy,
            forall|m: int|
                0 <= m < reps@.len() ==> -POS_LIMIT <= (#[trigger] reps@[m]).x <= POS_LIMIT
                    && -POS_LIMIT <= reps@[m].z <= POS_LIMIT,
            n == world.chunks@.len(),
            n == old_s.len(),
            0 <= idx <= n,
            forall|m: int|
                0 <= m < idx ==> {
                    let e = #[trigger] world.chunks@[m];
                    &&& e.cx == old_s[m].cx
                    &&& e.cy == old_s[m].cy
                    &&& e.chunk.tiles@ == old_s[m].chunk.tiles@
                    &&& (e.chunk.is_loaded <==> (old_s[m].chunk.is_loaded && spec_cheb(
                        e.cx as int,
                        e.cy as int,
                        gox,
                        goy,
                    ) <= UNLOAD_RADIUS as int))
                },
            forall|m: int| idx <= m < n ==> #[trigger] world.chunks@[m] == old_s[m],
            forall|k: int|
                0 <= k < ids@.len() ==> id_from_far_loaded(
                    #[trigger] ids@[k],
                    reps@,
                    old_s,
                    gox,
                    goy,
                ),
            forall|m: int|
                0 <= m < reps@.len() && rep_in_far_loaded(#[trigger] reps@[m], old_s, gox, goy)
                    && idx_of(
                    old_s,
                    spec_chunk_coord(reps@[m].x as int),
                    spec_chunk_coord(reps@[m].z as int),
                ) < idx ==> ids@.contains(reps@[m].id),
        decreases n - idx,
    {
        let e_cx = world.chunks[idx].cx;
        let e_cy = world.chunks[idx].cy;
        let lo = world.chunks[idx].chunk.is_loaded;
        let d = chebyshev((e_cx, e_cy), o);
        let ghost pre_ids = ids@;
        proof {
            lemma_idx_of(old_s, idx as int);
        }
        if lo && d > UNLOAD_RADIUS {
            let mut chunk_ids = get_chunk_tiles((e_cx, e_cy), reps);
            let ghost base = ids@.len() as int;
            let ghost chunk_ids_snap = chunk_ids@;
            ids.append(&mut chunk_ids);
            world.chunks[idx].chunk.is_loaded = false;
            proof {
                // every appended id names a representation of this chunk,
                // which is loaded in the pre-tick store and far away
                assert forall|k: int| 0 <= k < ids@.len() implies id_from_far_loaded(
                    #[trigger] ids@[k],
                    reps@,
                    old_s,
                    gox,
                    goy,
                ) by {
                    if k < base {
                        assert(pre_ids[k] == ids@[k]);
                        assert(id_from_far_loaded(pre_ids[k], reps@, old_s, gox, goy));
                    } else {
                        assert(ids@[k] == chunk_ids_snap[k - base]);
                        assert(id_from_chunk(
                            chunk_ids_snap[k - base],
                            reps@,
                            e_cx as int,
                            e_cy as int,
                        ));
                        let m = choose|m: int|
                            0 <= m < reps@.len() && (#[trigger] reps@[m]).id == chunk_ids_snap[k
                                - base] && rep_in_chunk(reps@[m], e_cx as int, e_cy as int);
                        assert(rep_in_far_loaded(reps@[m], old_s, gox, goy));
                        assert(id_from_far_loaded(ids@[k], reps@, old_s, gox, goy));
                    }
                }
                // every representation of a processed chunk is collected:
                // earlier ones survive the append, this chunk's were all
                // returned by the membership scan
                assert forall|m: int|
                    0 <= m < reps@.len() && rep_in_far_loaded(
                        #[trigger] reps@[m],
                        old_s,
                        gox,
                        goy,
                    ) && idx_of(
                        old_s,
                        spec_chunk_coord(reps@[m].x as int),
                        spec_chunk_coord(reps@[m].z as int),
                    ) < idx + 1 implies ids@.contains(reps@[m].id) by {
                    let rcx = spec_chunk_coord(reps@[m].x as int);
                    let rcy = spec_chunk_coord(reps@[m].z as int);
                    let w = idx_of(old_s, rcx, rcy);
                    lemma_idx_of(old_s, w);
                    if w < idx as int {
                        lemma_contains_monotone(pre_ids, ids@, reps@[m].id);
                    } else {
                        assert(old_s[w].cx as int == rcx && old_s[w].cy as int == rcy);
                        assert(rcx == e_cx as int && rcy == e_cy as int);
                        assert(rep_in_chunk(reps@[m], e_cx as int, e_cy as int));
                        assert(chunk_ids_snap.contains(reps@[m].id));
                        let q = choose|q: int|
                            0 <= q < chunk_ids_snap.len() && chunk_ids_snap[q] == reps@[m].id;
                        assert(ids@[base + q] == reps@[m].id);
                    }
                }
            }
        } else {
            proof {
                // nothing of this chunk is despawned: it is either not
                // loaded or within the unload radius
                assert forall|m: int|
                    0 <= m < reps@.len() && rep_in_far_loaded(
                        #[trigger] reps@[m],
                        old_s,
                        gox,
                        goy,
                    ) && idx_of(
                        old_s,
                        spec_chunk_coord(reps@[m].x as int),
                        spec_chunk_coord(reps@[m].z as int),
                    ) < idx + 1 implies ids@.contains(reps@[m].id) by {
                    let rcx = spec_chunk_coord(reps@[m].x as int);
                    let rcy = spec_chunk_coord(reps@[m].z as int);
                    if idx_of(old_s, rcx, rcy) == idx as int {
                        let w = idx_of(old_s, rcx, rcy);
                        lemma_idx_of(old_s, w);
                        assert(old_s[w].cx as int == rcx && old_s[w].cy as int == rcy);
                        assert(false);
                    }
                }
            }
        }
        idx = idx + 1;
    }
    ids
}

/// The in-chunk cell index of world coordinate `w` on one axis of the
/// chunk at coordinate `c`: the offset into the chunk's span in tiles,
/// clamped into the grid rather than failing near a boundary.
pub open spec fn spec_cell_index(w: int, c: int) -> int {
    let raw = (w + 5_000 - c * 10_000) / 2_000;
    if raw < 0 {
        0
    } else if raw > 4 {
        4
    } else {
        raw
    }
}

/// One axis of the world-position-to-cell mapping.
fn cell_index(w: i64, c: i32) -> (i: usize)
    requires
        -POS_LIMIT <= w <= POS_LIMIT,
        -100_000_001 <= c <= 100_000_001,
    ensures
        i as int == spec_cell_index(w as int, c as int),
        i < 5,
{
    let off: i64 = w + HALF_CHUNK_WORLD - (c as i64) * 10_000;
    let raw = div_floor(off, 2_000);
    if raw < 0 {
        0
    } else if raw > 4 {
        4
    } else {
        raw as usize
    }
}

/// The terrain tile under an arbitrary world position: the owning chunk's
/// cell (the index clamped into the grid), or `None` when that chunk was
/// never generated — "no terrain effect", never a failure.
pub fn tile_at_world(world: &WorldData, pos: Vec2I) -> (t: Option<TileType>)
    requires
        world.wf(),
        -POS_LIMIT <= pos.x <= POS_LIMIT,
        -POS_LIMIT <= pos.z <= POS_LIMIT,
    ensures
        ({
            let cx = spec_chunk_coord(pos.x as int);
            let cy = spec_chunk_coord(pos.z as int);
            match t {
                Option::None => !has_coord(world.chunks@, cx, cy),
                Option::Some(tt) => has_coord(world.chunks@, cx, cy) && tt == chunk_at(
                    world.chunks@,
                    cx,
                    cy,
                ).spec_tile(
                    spec_cell_index(pos.x as int, cx),
                    spec_cell_index(pos.z as int, cy),
                ),
            }
        }),
{
    let c = get_chunk_pos(pos);
    match world.get(c.0, c.1) {
        Option::Some(chunk) => {
            proof {
                let w = idx_of(world.chunks@, c.0 as int, c.1 as int);
                lemma_idx_of(world.chunks@, w);
                assert(world.chunks@[w].chunk.wf());
            }
            let i = cell_index(pos.x, c.0);
            let j = cell_index(pos.z, c.1);
            Option::Some(chunk.tile_clamped(i, j))
        },
        Option::None => Option::None,
    }
}

/// One full streamer tick: the load step, then the unload step, in that
/// order, so a chunk entering the load window can never be unloaded in
/// the same tick. Returns the spawn requests of the load step and the
/// despawn ids of the unload step.
pub fn stream_tick(world: &mut WorldData, observer: Vec2I, reps: &Vec<Representation>) -> (r: (
    Vec<SpawnRequest>,
    Vec<u64>,
))
    requires
        old(world).wf(),
        -POS_LIMIT <= observer.x <= POS_LIMIT,
        -POS_LIMIT <= observer.z <= POS_LIMIT,
        forall|m: int|
            0 <= m < reps@.len() ==> -POS_LIMIT <= (#[trigger] reps@[m]).x <= POS_LIMIT
                && -POS_LIMIT <= reps@[m].z <= POS_LIMIT,
    ensures
        final(world).wf(),
        final(world).field == old(world).field,
        ({
            let ox = spec_chunk_coord(observer.x as int);
            let oy = spec_chunk_coord(observer.z as int);
            let old_s = old(world).chunks@;
            let now = final(world).chunks@;
            &&& forall|cx: int, cy: int|
                spec_cheb(cx, cy, ox, oy) <= LOAD_RADIUS as int ==> #[trigger] has_coord(
                    now,
                    cx,
                    cy,
                ) && chunk_at(now, cx, cy).is_loaded
            &&& forall|cx: int, cy: int|
                spec_cheb(cx, cy, ox, oy) > UNLOAD_RADIUS as int && #[trigger] has_coord(
                    now,
                    cx,
                    cy,
                ) ==> !chunk_at(now, cx, cy).is_loaded
            &&& forall|cx: int, cy: int|
                #[trigger] has_coord(old_s, cx, cy) ==> has_coord(now, cx, cy) && chunk_at(
                    now,
                    cx,
                    cy,
                ).tiles@ == chunk_at(old_s, cx, cy).tiles@
            &&& forall|cx: int, cy: int|
                spec_cheb(cx, cy, ox, oy) <= LOAD_RADIUS as int && !has_coord(old_s, cx, cy)
                    ==> spec_tiles_generated(
                    old(world).field,
                    cx,
                    cy,
                    #[trigger] chunk_at(now, cx, cy),
                )
            &&& forall|n: int|
                0 <= n < r.0@.len() ==> valid_window_request(
                    #[trigger] r.0@[n],
                    old_s,
                    old(world).field,
                    ox,
                    oy,
                )
            &&& forall|cx: int, cy: int, i: int, j: int|
                spec_cheb(cx, cy, ox, oy) <= LOAD_RADIUS as int && needs_load(old_s, cx, cy) && 0
                    <= i < 5 && 0 <= j < 5 ==> #[trigger] cell_spawned(
                    r.0@,
                    old_s,
                    old(world).field,
                    cx,
                    cy,
                    i,
                    j,
                )
            &&& forall|n1: int, n2: int| 0 <= n1 < n2 < r.0@.len() ==> r.0@[n1] != r.0@[n2]
            &&& forall|m: int|
                0 <= m < reps@.len() && rep_in_far_loaded(#[trigger] reps@[m], old_s, ox, oy)
                    ==> r.1@.contains(reps@[m].id)
        }),
{
    let ghost gox: int = spec_chunk_coord(observer.x as int);
    let ghost goy: int = spec_chunk_coord(observer.z as int);
    let ghost old_s = old(world).chunks@;
    let spawns = update_tiles(world, observer);
    let ghost mid = world.chunks@;
    let despawns = deload_chunks(world, observer, reps);
    proof {
        let now = world.chunks@;
        // chunks in the load radius stay loaded: the unload radius is not
        // smaller than the load radius
        assert forall|cx: int, cy: int| spec_cheb(cx, cy, gox, goy) <= LOAD_RADIUS as int implies (
        #[trigger] has_coord(now, cx, cy) && chunk_at(now, cx, cy).is_loaded) by {
            assert(has_coord(mid, cx, cy));
            assert(chunk_at(mid, cx, cy).is_loaded);
            let n = idx_of(mid, cx, cy);
            lemma_idx_of(mid, n);
            assert(now[n].cx as int == cx && now[n].cy as int == cy);
            lemma_idx_of(now, n);
        }
        // a chunk created this tick carries the grid generated from the
        // field; the unload step does not touch tiles
        assert forall|cx: int, cy: int|
            spec_cheb(cx, cy, gox, goy) <= LOAD_RADIUS as int && !has_coord(
                old_s,
                cx,
                cy,
            ) implies spec_tiles_generated(
            old(world).field,
            cx,
            cy,
            #[trigger] chunk_at(now, cx, cy),
        ) by {
            assert(has_coord(mid, cx, cy));
            assert(spec_tiles_generated(old(world).field, cx, cy, chunk_at(mid, cx, cy)));
            let n = idx_of(mid, cx, cy);
            lemma_idx_of(mid, n);
            assert(now[n].cx as int == cx && now[n].cy as int == cy);
            assert(now[n].chunk.tiles@ == mid[n].chunk.tiles@);
            lemma_idx_of(now, n);
            assert forall|i: int, j: int| 0 <= i < 5 && 0 <= j < 5 implies chunk_at(
                now,
                cx,
                cy,
            ).spec_tile(i, j) == spec_generated_tile(old(world).field, cx, cy, i, j) by {
                assert(chunk_at(mid, cx, cy).spec_tile(i, j) == spec_generated_tile(
                    old(world).field,
                    cx,
                    cy,
                    i,
                    j,
                ));
            }
            assert(chunk_at(now, cx, cy).wf());
        }
        // chunks beyond the unload radius are not loaded after the tick
        assert forall|cx: int, cy: int|
            spec_cheb(cx, cy, gox, goy) > UNLOAD_RADIUS as int && #[trigger] has_coord(
                now,
                cx,
                cy,
            ) implies !chunk_at(now, cx, cy).is_loaded by {
            let n = idx_of(now, cx, cy);
            lemma_idx_of(now, n);
        }
        // tile data is never evicted
        assert forall|cx: int, cy: int| #[trigger] has_coord(old_s, cx, cy) implies (has_coord(
            now,
            cx,
            cy,
        ) && chunk_at(now, cx, cy).tiles@ == chunk_at(old_s, cx, cy).tiles@) by {
            if spec_cheb(cx, cy, gox, goy) <= LOAD_RADIUS as int {
                assert(has_coord(mid, cx, cy));
                assert(chunk_at(mid, cx, cy).tiles@ == chunk_at(old_s, cx, cy).tiles@);
            } else {
                assert(has_coord(mid, cx, cy));
                assert(same_chunk_state(chunk_at(mid, cx, cy), chunk_at(old_s, cx, cy)));
            }
            let n = idx_of(mid, cx, cy);
            lemma_idx_of(mid, n);
            assert(now[n].cx as int == cx && now[n].cy as int == cy);
            assert(now[n].chunk.tiles@ == mid[n].chunk.tiles@);
            lemma_idx_of(now, n);
        }
        // every representation of a chunk that was loaded and far before
        // the tick is despawned: the load step does not touch far chunks
        assert forall|m: int|
            0 <= m < reps@.len() && rep_in_far_loaded(
                #[trigger] reps@[m],
                old_s,
                gox,
                goy,
            ) implies despawns@.contains(reps@[m].id) by {
            let rcx = spec_chunk_coord(reps@[m].x as int);
            let rcy = spec_chunk_coord(reps@[m].z as int);
            assert(spec_cheb(rcx, rcy, gox, goy) > LOAD_RADIUS as int);
            assert(has_coord(mid, rcx, rcy) && same_chunk_state(
                chunk_at(mid, rcx, rcy),
                chunk_at(old_s, rcx, rcy),
            ));
            assert(rep_in_far_loaded(reps@[m], mid, gox, goy));
        }
    }
    (spawns, despawns)
}

} // verus!
