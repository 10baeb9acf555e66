use worldcore::chunk::{Chunk, TileType, CHUNK_RADIUS, CHUNK_SIDE};
use worldcore::field::NoiseField;

/// A field whose sample at `(x, y)` is `values[x][y]` over a 10x10 grid;
/// with a side of 10 the fixed second-axis offset of 500 wraps away, so
/// chunk `(0, 0)` samples cell `(i, j)` at `(i, j)`.
fn field_10(f: impl Fn(usize, usize) -> i64) -> NoiseField {
    let mut values = Vec::new();
    for x in 0..10 {
        for y in 0..10 {
            values.push(f(x, y));
        }
    }
    NoiseField::new(10, values)
}

fn grid(c: &Chunk) -> Vec<TileType> {
    let mut g = Vec::new();
    for i in 0..5 {
        for j in 0..5 {
            g.push(c.tile_clamped(i, j));
        }
    }
    g
}

#[test]
fn chunk_constants() {
    assert_eq!(CHUNK_RADIUS, 2);
    assert_eq!(CHUNK_SIDE, 2 * CHUNK_RADIUS + 1);
}

#[test]
fn generate_classifies_against_threshold() {
    // positive samples become water, zero and negative stay grass
    let field = field_10(|x, y| if x == 1 && y == 2 { 7 } else { 0 });
    let c = Chunk::generate(&field, 0, 0);
    assert!(!c.is_loaded());
    for i in 0..5 {
        for j in 0..5 {
            let expected = if i == 1 && j == 2 {
                TileType::Water
            } else {
                TileType::Grass
            };
            assert_eq!(c.tile_clamped(i, j), expected);
        }
    }
}

#[test]
fn generate_twice_yields_identical_grids() {
    let field = field_10(|x, y| (x as i64) * (y as i64) - 12);
    let a = Chunk::generate(&field, 3, -2);
    let b = Chunk::generate(&field, 3, -2);
    assert_eq!(grid(&a), grid(&b));
}

#[test]
fn generate_wraps_the_field() {
    // chunks two field-widths apart sample the same cells
    let field = field_10(|x, y| ((x + y) % 3) as i64 - 1);
    let a = Chunk::generate(&field, 0, 0);
    let b = Chunk::generate(&field, 2, 2);
    assert_eq!(grid(&a), grid(&b));
}

#[test]
fn tile_clamped_clamps_out_of_range_indices() {
    let field = field_10(|x, y| if x == 4 && y == 4 { 1 } else { 0 });
    let c = Chunk::generate(&field, 0, 0);
    assert_eq!(c.tile_clamped(4, 4), TileType::Water);
    // indices past the grid resolve to the last cell
    assert_eq!(c.tile_clamped(9, 4), TileType::Water);
    assert_eq!(c.tile_clamped(4, 700), TileType::Water);
    assert_eq!(c.tile_clamped(0, 0), TileType::Grass);
}

#[test]
fn set_is_loaded_flips_only_the_flag() {
    let field = field_10(|_, _| 0);
    let mut c = Chunk::generate(&field, 0, 0);
    let before = grid(&c);
    c.set_is_loaded(true);
    assert!(c.is_loaded());
    assert_eq!(grid(&c), before);
    c.set_is_loaded(false);
    assert!(!c.is_loaded());
}

#[test]
fn field_lookup_wraps_both_axes() {
    let field = field_10(|x, y| (10 * x + y) as i64);
    assert_eq!(field.get_value(3, 7), 37);
    assert_eq!(field.get_value(13, 7), 37);
    assert_eq!(field.get_value(3, -3), 37);
    assert_eq!(field.get_value(-7, 107), 37);
}
