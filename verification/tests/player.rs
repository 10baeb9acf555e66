use worldcore::player::{
    get_direction_vector, level_up, normalize_or_zero, update_movement_state, AnimationState,
    Damage, Xp,
};
use worldcore::unit::{Health, Speed};
use worldcore::vec2::Vec2I;

#[test]
fn direction_vector_from_action_flags() {
    assert_eq!(get_direction_vector(false, false, false, false), (0, 0));
    assert_eq!(get_direction_vector(true, false, false, false), (0, -1));
    assert_eq!(get_direction_vector(false, true, false, false), (0, 1));
    assert_eq!(get_direction_vector(false, false, true, false), (-1, 0));
    assert_eq!(get_direction_vector(false, false, false, true), (1, 0));
    // opposite flags cancel
    assert_eq!(get_direction_vector(true, true, true, true), (0, 0));
    assert_eq!(get_direction_vector(true, false, false, true), (1, -1));
}

#[test]
fn normalisation_of_intents() {
    assert_eq!(normalize_or_zero((0, 0)), Vec2I { x: 0, z: 0 });
    assert_eq!(normalize_or_zero((1, 0)), Vec2I { x: 1000, z: 0 });
    assert_eq!(normalize_or_zero((0, -1)), Vec2I { x: 0, z: -1000 });
    assert_eq!(normalize_or_zero((1, 1)), Vec2I { x: 707, z: 707 });
    assert_eq!(normalize_or_zero((-1, 1)), Vec2I { x: -707, z: 707 });
}

#[test]
fn movement_state_follows_intent_while_grounded() {
    let mut s = AnimationState::Idle;
    update_movement_state(&mut s, (1, 0));
    assert_eq!(s, AnimationState::Moving);
    update_movement_state(&mut s, (0, 0));
    assert_eq!(s, AnimationState::Idle);
    // other states are not disturbed by movement input
    let mut s = AnimationState::Attacking;
    update_movement_state(&mut s, (1, 1));
    assert_eq!(s, AnimationState::Attacking);
    let mut s = AnimationState::Fishing;
    update_movement_state(&mut s, (0, 0));
    assert_eq!(s, AnimationState::Fishing);
}

#[test]
fn level_up_at_the_threshold() {
    let mut xp = Xp(1200);
    let mut health = Health {
        current: 40,
        max: 125,
    };
    let mut speed = Speed(3500);
    let mut damage = Damage(10);
    level_up(&mut xp, &mut health, &mut speed, &mut damage);
    assert_eq!(xp.0, 200);
    assert_eq!(health.max, 150);
    assert_eq!(health.current, 150);
    assert_eq!(damage.0, 30);
    assert_eq!(speed.0, 13500);
}

#[test]
fn no_level_up_below_the_threshold() {
    let mut xp = Xp(999);
    let mut health = Health {
        current: 40,
        max: 125,
    };
    let mut speed = Speed(3500);
    let mut damage = Damage(10);
    level_up(&mut xp, &mut health, &mut speed, &mut damage);
    assert_eq!(xp.0, 999);
    assert_eq!(health.max, 125);
    assert_eq!(health.current, 40);
    assert_eq!(damage.0, 10);
    assert_eq!(speed.0, 3500);
}
