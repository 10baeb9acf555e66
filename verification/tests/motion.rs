use worldcore::collider::Collider;
use worldcore::unit::{Health, Speed, Unit};
use worldcore::vec2::{within_distance, Vec2I};

fn world(colliders: Vec<((i64, i64), (i64, i64), bool)>) -> Vec<(Vec2I, Collider)> {
    colliders
        .into_iter()
        .map(|(pos, half, active)| {
            (
                Vec2I { x: pos.0, z: pos.1 },
                Collider {
                    size: Vec2I {
                        x: half.0,
                        z: half.1,
                    },
                    active,
                },
            )
        })
        .collect()
}

#[test]
fn zero_direction_is_noop() {
    let unit = Unit {
        size: Vec2I { x: 500, z: 500 },
    };
    let colliders = world(vec![((0, 0), (1000, 1000), true)]);
    let mut pos = Vec2I { x: 4000, z: -7000 };
    unit.move_and_slide(&mut pos, Vec2I { x: 0, z: 0 }, &Speed(5000), &colliders, 1000);
    assert_eq!(pos, Vec2I { x: 4000, z: -7000 });
}

#[test]
fn zero_speed_is_noop() {
    let unit = Unit {
        size: Vec2I { x: 500, z: 500 },
    };
    let colliders = world(vec![]);
    let mut pos = Vec2I { x: 123, z: 456 };
    unit.move_and_slide(&mut pos, Vec2I { x: 1000, z: 0 }, &Speed(0), &colliders, 1000);
    assert_eq!(pos, Vec2I { x: 123, z: 456 });
}

#[test]
fn blocked_axis_keeps_coordinate() {
    // collider one tile ahead on the x axis: the x-only candidate
    // overlaps, so x must stay; z is free
    let unit = Unit {
        size: Vec2I { x: 500, z: 500 },
    };
    let colliders = world(vec![((2000, 0), (1000, 1000), true)]);
    let mut pos = Vec2I { x: 0, z: 0 };
    unit.move_and_slide(
        &mut pos,
        Vec2I { x: 1000, z: 0 },
        &Speed(1000),
        &colliders,
        1000,
    );
    assert_eq!(pos, Vec2I { x: 0, z: 0 });
}

#[test]
fn sliding_along_a_wall() {
    // diagonal intent against a wall on the x side: x is blocked, z
    // slides
    let unit = Unit {
        size: Vec2I { x: 500, z: 500 },
    };
    let colliders = world(vec![((2000, 0), (1000, 1000), true)]);
    let mut pos = Vec2I { x: 0, z: 0 };
    unit.move_and_slide(
        &mut pos,
        Vec2I { x: 707, z: 707 },
        &Speed(1000),
        &colliders,
        1000,
    );
    assert_eq!(pos, Vec2I { x: 0, z: 707 });
}

#[test]
fn stuck_entity_may_move_on_both_axes() {
    // the entity starts inside an active collider: the anti-stuck rule
    // permits the full displacement
    let unit = Unit {
        size: Vec2I { x: 500, z: 500 },
    };
    let colliders = world(vec![((0, 0), (1000, 1000), true)]);
    let mut pos = Vec2I { x: 0, z: 0 };
    unit.move_and_slide(
        &mut pos,
        Vec2I { x: 1000, z: 0 },
        &Speed(1000),
        &colliders,
        1000,
    );
    assert_eq!(pos, Vec2I { x: 1000, z: 0 });
}

#[test]
fn inactive_collider_blocks_nothing() {
    let unit = Unit {
        size: Vec2I { x: 500, z: 500 },
    };
    let colliders = world(vec![((2000, 0), (1000, 1000), false)]);
    let mut pos = Vec2I { x: 0, z: 0 };
    unit.move_and_slide(
        &mut pos,
        Vec2I { x: 1000, z: 0 },
        &Speed(1000),
        &colliders,
        1000,
    );
    assert_eq!(pos, Vec2I { x: 1000, z: 0 });
}

#[test]
fn empty_collider_set_permits_all_movement() {
    let unit = Unit {
        size: Vec2I { x: 500, z: 500 },
    };
    let colliders = world(vec![]);
    let mut pos = Vec2I { x: 0, z: 0 };
    unit.move_and_slide(
        &mut pos,
        Vec2I { x: -1000, z: 0 },
        &Speed(3500),
        &colliders,
        1000,
    );
    assert_eq!(pos, Vec2I { x: -3500, z: 0 });
}

#[test]
fn fast_approach_never_ends_inside_collider() {
    // collider at the origin with one-unit half-extents; the entity
    // approaches from (0, 3) at speed 5 over a one-second tick. The
    // z-only candidate lands in overlap, so the axis is blocked and the
    // entity keeps its z coordinate, outside the collider's extent.
    let unit = Unit {
        size: Vec2I { x: 1500, z: 1500 },
    };
    let colliders = world(vec![((0, 0), (1000, 1000), true)]);
    let mut pos = Vec2I { x: 0, z: 3000 };
    unit.move_and_slide(
        &mut pos,
        Vec2I { x: 0, z: -1000 },
        &Speed(5000),
        &colliders,
        1000,
    );
    assert_eq!(pos, Vec2I { x: 0, z: 3000 });
    // never inside the collider's extent
    assert!(pos.z.abs() >= 1000 + 1500);
}

#[test]
fn is_colliding_is_strict_overlap() {
    let c = Collider {
        size: Vec2I { x: 1000, z: 1000 },
        active: true,
    };
    let origin = Vec2I { x: 0, z: 0 };
    let half = Vec2I { x: 500, z: 500 };
    // strictly overlapping
    assert!(c.is_colliding(origin, Vec2I { x: 1499, z: 0 }, half));
    // exactly touching is not overlap
    assert!(!c.is_colliding(origin, Vec2I { x: 1500, z: 0 }, half));
    assert!(!c.is_colliding(origin, Vec2I { x: 0, z: -1500 }, half));
}

#[test]
fn within_distance_is_exact_on_squares() {
    let a = Vec2I { x: 0, z: 0 };
    // a 3-4-5 triangle, one world unit from corner to corner
    assert!(within_distance(a, Vec2I { x: 600, z: 800 }, 1000));
    assert!(!within_distance(a, Vec2I { x: 600, z: 801 }, 1000));
    assert!(within_distance(a, Vec2I { x: -1000, z: 0 }, 1000));
    assert!(!within_distance(a, Vec2I { x: -1001, z: 0 }, 1000));
}

#[test]
fn take_damage_saturates_at_zero() {
    let mut h = Health {
        current: 30,
        max: 125,
    };
    h.take_damage(10);
    assert_eq!(h.current, 20);
    h.take_damage(50);
    assert_eq!(h.current, 0);
    assert_eq!(h.max, 125);
}
