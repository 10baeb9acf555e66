use worldcore::chunk::TileType;
use worldcore::field::NoiseField;
use worldcore::intmath::{div_floor, mod_euclid};
use worldcore::store::WorldData;
use worldcore::streamer::{
    chebyshev, deload_chunks, get_chunk_pos, get_chunk_tiles, spawn_chunk,
    spawn_tiles_around_player, stream_tick, tile_at_world, update_tiles, Representation,
    SpawnKind, SpawnRequest,
};
use worldcore::vec2::Vec2I;

fn flat_field() -> NoiseField {
    // all samples at the threshold: everything classifies as grass
    NoiseField::new(10, vec![0; 100])
}

fn wet_field() -> NoiseField {
    // all samples above the threshold: everything classifies as water
    NoiseField::new(10, vec![1; 100])
}

fn at(x: i64, z: i64) -> Vec2I {
    Vec2I { x, z }
}

#[test]
fn floor_division_and_euclidean_remainder() {
    assert_eq!(div_floor(7, 2), 3);
    assert_eq!(div_floor(-7, 2), -4);
    assert_eq!(div_floor(-8, 2), -4);
    assert_eq!(div_floor(0, 5), 0);
    assert_eq!(mod_euclid(7, 5), 2);
    assert_eq!(mod_euclid(-7, 5), 3);
    assert_eq!(mod_euclid(-10, 5), 0);
}

#[test]
fn chunk_mapping_is_centred_floor_division() {
    // chunk 0 spans [-5000, 5000)
    assert_eq!(get_chunk_pos(at(0, 0)), (0, 0));
    assert_eq!(get_chunk_pos(at(4999, -4999)), (0, 0));
    assert_eq!(get_chunk_pos(at(-5000, 0)), (0, 0));
    assert_eq!(get_chunk_pos(at(5000, 0)), (1, 0));
    assert_eq!(get_chunk_pos(at(-5001, 0)), (-1, 0));
    assert_eq!(get_chunk_pos(at(30000, 0)), (3, 0));
}

#[test]
fn same_span_same_coordinate_and_single_boundary_crossing() {
    // positions within one chunk's span share its coordinate
    for x in [-4000i64, -1, 0, 1, 4999] {
        assert_eq!(get_chunk_pos(at(x, 0)).0, 0);
    }
    // crossing exactly one boundary moves exactly one component by one
    let before = get_chunk_pos(at(4999, 300));
    let after = get_chunk_pos(at(5001, 300));
    assert_eq!(after.0, before.0 + 1);
    assert_eq!(after.1, before.1);
}

#[test]
fn chebyshev_distance() {
    assert_eq!(chebyshev((0, 0), (3, 0)), 3);
    assert_eq!(chebyshev((2, -2), (-1, 1)), 3);
    assert_eq!(chebyshev((5, 5), (5, 5)), 0);
    assert_eq!(chebyshev((-2, 7), (-2, 5)), 2);
}

#[test]
fn spawn_chunk_emits_one_tile_request_per_cell() {
    let field = wet_field();
    let chunk = worldcore::chunk::Chunk::generate(&field, 0, 0);
    let rs = spawn_chunk(&chunk, 0, 0);
    assert_eq!(rs.len(), 25);
    // first cell of chunk (0, 0) sits two tiles before the centre
    assert_eq!(
        rs[0],
        SpawnRequest {
            kind: SpawnKind::Tile(TileType::Water),
            x: -4000,
            z: -4000,
        }
    );
    // last cell two tiles after
    assert_eq!(
        rs[24],
        SpawnRequest {
            kind: SpawnKind::Tile(TileType::Water),
            x: 4000,
            z: 4000,
        }
    );
}

#[test]
fn spawned_tiles_map_back_to_their_chunk() {
    // the unload step finds a chunk's representations by mapping their
    // positions back; a tile spawned for a chunk must land in its span
    let field = flat_field();
    let chunk = worldcore::chunk::Chunk::generate(&field, 3, -2);
    for r in spawn_chunk(&chunk, 3, -2) {
        assert_eq!(get_chunk_pos(at(r.x, r.z)), (3, -2));
    }
}

#[test]
fn decorations_only_grow_on_grass() {
    let field = wet_field();
    let chunk = worldcore::chunk::Chunk::generate(&field, 0, 0);
    // an all-water chunk offers no grass cell, so no rock can be rolled
    let rocks = worldcore::streamer::decorate_chunk(&chunk, 0, 0);
    assert!(rocks.is_empty());
}

#[test]
fn streamer_loads_the_window_around_the_origin() {
    let mut world = WorldData::new(flat_field());
    let rs = spawn_tiles_around_player(&mut world, at(0, 0));
    // every chunk within the load radius exists and is loaded
    for dx in -1..=1 {
        for dy in -1..=1 {
            let c = world.get(dx, dy).expect("window chunk missing");
            assert!(c.is_loaded());
        }
    }
    // nothing farther is created
    assert!(world.get(5, 5).is_none());
    assert!(world.get(2, 0).is_none());
    // nine chunks of twenty-five tiles each, all grass, no rocks on a
    // flat field are possible but each request is a tile or a rock
    let tiles = rs
        .iter()
        .filter(|r| matches!(r.kind, SpawnKind::Tile(_)))
        .count();
    assert_eq!(tiles, 9 * 25);
}

#[test]
fn update_tiles_spawns_only_what_was_not_loaded() {
    let mut world = WorldData::new(flat_field());
    let first = update_tiles(&mut world, at(0, 0));
    assert!(!first.is_empty());
    // the same tick again: everything is already loaded
    let second = update_tiles(&mut world, at(0, 0));
    assert!(second.is_empty());
    // one step to the right: exactly one new column of three chunks
    let third = update_tiles(&mut world, at(10000, 0));
    let tiles = third
        .iter()
        .filter(|r| matches!(r.kind, SpawnKind::Tile(_)))
        .count();
    assert_eq!(tiles, 3 * 25);
}

#[test]
fn spawn_requests_are_pairwise_distinct() {
    let mut world = WorldData::new(flat_field());
    let rs = spawn_tiles_around_player(&mut world, at(0, 0));
    for a in 0..rs.len() {
        for b in (a + 1)..rs.len() {
            assert_ne!(rs[a], rs[b]);
        }
    }
}

#[test]
fn representations_map_back_to_their_chunk() {
    let reps = vec![
        Representation { id: 1, x: 0, z: 0 },
        Representation {
            id: 2,
            x: 4000,
            z: -4000,
        },
        Representation {
            id: 3,
            x: 10000,
            z: 0,
        },
    ];
    let ids = get_chunk_tiles((0, 0), &reps);
    assert_eq!(ids, vec![1, 2]);
    let ids = get_chunk_tiles((1, 0), &reps);
    assert_eq!(ids, vec![3]);
    let ids = get_chunk_tiles((7, 7), &reps);
    assert!(ids.is_empty());
}

#[test]
fn moving_away_unloads_but_keeps_tile_data() {
    let mut world = WorldData::new(wet_field());
    let rs = spawn_tiles_around_player(&mut world, at(0, 0));
    // stand up representations for what was spawned
    let reps: Vec<Representation> = rs
        .iter()
        .enumerate()
        .map(|(n, r)| Representation {
            id: n as u64,
            x: r.x,
            z: r.z,
        })
        .collect();
    let tiles_before: Vec<TileType> = {
        let c = world.get(0, 0).unwrap();
        (0..5)
            .flat_map(|i| (0..5).map(move |j| (i, j)))
            .map(|(i, j)| c.tile_clamped(i, j))
            .collect()
    };
    // the observer moves three chunks away: distance 3 exceeds the
    // unload radius 2
    let observer = at(30000, 0);
    let (spawns, despawns) = stream_tick(&mut world, observer, &reps);
    assert!(!spawns.is_empty());
    // chunk (0, 0) is despawned and its flag cleared
    let c = world.get(0, 0).expect("tile data must remain retrievable");
    assert!(!c.is_loaded());
    // its tile data is unchanged
    let tiles_after: Vec<TileType> = (0..5)
        .flat_map(|i| (0..5).map(move |j| (i, j)))
        .map(|(i, j)| c.tile_clamped(i, j))
        .collect();
    assert_eq!(tiles_before, tiles_after);
    // every representation that maps into chunk (0, 0) is despawned
    for rep in &reps {
        if get_chunk_pos(at(rep.x, rep.z)) == (0, 0) {
            assert!(despawns.contains(&rep.id));
        }
    }
    // and the new window is loaded
    for dx in 2..=4 {
        assert!(world.get(dx, 0).unwrap().is_loaded());
    }
}

#[test]
fn deload_leaves_near_chunks_loaded() {
    let mut world = WorldData::new(flat_field());
    update_tiles(&mut world, at(0, 0));
    let reps: Vec<Representation> = Vec::new();
    let despawns = deload_chunks(&mut world, at(0, 0), &reps);
    assert!(despawns.is_empty());
    // everything in the window is within the unload radius
    for dx in -1..=1 {
        for dy in -1..=1 {
            assert!(world.get(dx, dy).unwrap().is_loaded());
        }
    }
}

#[test]
fn tile_query_answers_from_the_owning_chunk() {
    let mut world = WorldData::new(wet_field());
    update_tiles(&mut world, at(0, 0));
    assert_eq!(tile_at_world(&world, at(0, 0)), Some(TileType::Water));
    assert_eq!(tile_at_world(&world, at(-4500, 4500)), Some(TileType::Water));
    // a never-generated region answers with no data, not a failure
    assert_eq!(tile_at_world(&world, at(500000, 500000)), None);
}

#[test]
fn store_generation_is_idempotent() {
    let mut world = WorldData::new(wet_field());
    let i1 = world.get_or_generate(7, -3);
    let i2 = world.get_or_generate(7, -3);
    assert_eq!(i1, i2);
    assert!(world.get(7, -3).is_some());
    assert!(!world.get(7, -3).unwrap().is_loaded());
}
