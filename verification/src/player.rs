use vstd::prelude::*;
use crate::SCALE;
use crate::unit::{Health, Speed};
use crate::vec2::Vec2I;

verus! {

/// Per-axis component of a diagonal unit direction: `SCALE / sqrt(2)`,
/// rounded to the nearest tick.
pub const DIAGONAL_COMPONENT: i64 = 707;

/// Experience needed for one level.
pub const XP_THRESHOLD: u32 = 1000;

/// Maximum health gained per level.
pub const HEALTH_PER_LEVEL: u32 = 25;

/// Damage gained per level.
pub const DAMAGE_PER_LEVEL: u32 = 20;

/// Speed gained per level, in ticks per second (ten world units).
pub const SPEED_PER_LEVEL: i64 = 10_000;

/// The player's presentation states. Movement input only switches between
/// `Idle` and `Moving`; the other states are owned by their own actions
/// and timers.
#[derive(Clone, Copy, PartialEq, Eq, Structural, Debug)]
pub enum AnimationState {
    Idle,
    Moving,
    Attacking,
    FishingCharging,
    Fishing,
}

/// Experience points.
pub struct Xp(pub u32);

/// Damage dealt per hit.
pub struct Damage(pub u32);

/// Player-facing toggles.
pub struct PlayerSettings {
    pub camera_locked: bool,
}

/// The raw movement intent from the four directional action flags: each
/// pressed flag contributes one step on its axis, and opposite flags
/// cancel out.
pub fn get_direction_vector(up: bool, down: bool, left: bool, right: bool) -> (d: (i64, i64))
    ensures
        d.0 == (if right {
            1int
        } else {
            0int
        }) - (if left {
            1int
        } else {
            0int
        }),
        d.1 == (if down {
            1int
        } else {
            0int
        }) - (if up {
            1int
        } else {
            0int
        }),
{
    let mut x: i64 = 0;
    let mut z: i64 = 0;
    if up {
        z = z - 1;
    }
    if down {
        z = z + 1;
    }
    if right {
        x = x + 1;
    }
    if left {
        x = x - 1;
    }
    (x, z)
}

/// The fixed-point value of one intent component after normalisation:
/// zero stays zero, a single-axis step becomes a full `SCALE`, and a
/// diagonal step becomes the diagonal component, sign kept.
pub open spec fn spec_normalized_component(c: int, diagonal: bool) -> int {
    if c == 0 {
        0
    } else {
        let m: int = if diagonal {
            DIAGONAL_COMPONENT as int
        } else {
            SCALE as int
        };
        if c > 0 {
            m
        } else {
            -m
        }
    }
}

/// Scale a raw intent of unit steps to a fixed-point direction of unit
/// length, or the zero vector: the input that the motion resolver
/// consumes.
pub fn normalize_or_zero(raw: (i64, i64)) -> (v: Vec2I)
    requires
        -1 <= raw.0 <= 1,
        -1 <= raw.1 <= 1,
    ensures
        v.x as int == spec_normalized_component(raw.0 as int, raw.0 != 0 && raw.1 != 0),
        v.z as int == spec_normalized_component(raw.1 as int, raw.0 != 0 && raw.1 != 0),
        -SCALE <= v.x <= SCALE,
        -SCALE <= v.z <= SCALE,
{
    let diagonal = raw.0 != 0 && raw.1 != 0;
    let m: i64 = if diagonal {
        DIAGONAL_COMPONENT
    } else {
        SCALE
    };
    let x: i64 = if raw.0 == 0 {
        0
    } else if raw.0 > 0 {
        m
    } else {
        -m
    };
    let z: i64 = if raw.1 == 0 {
        0
    } else if raw.1 > 0 {
        m
    } else {
        -m
    };
    Vec2I { x, z }
}

/// What movement intent does to the animation state: while idle or
/// moving, the state tracks whether the intent is zero; any other state
/// is left alone.
pub open spec fn spec_movement_state(state: AnimationState, moving: bool) -> AnimationState {
    match state {
        AnimationState::Idle | AnimationState::Moving => if moving {
            AnimationState::Moving
        } else {
            AnimationState::Idle
        },
        _ => state,
    }
}

pub fn update_movement_state(state: &mut AnimationState, direction: (i64, i64))
    ensures
        *final(state) == spec_movement_state(
            *old(state),
            !(direction.0 == 0 && direction.1 == 0),
        ),
{
    match *state {
        AnimationState::Idle | AnimationState::Moving => {
            if direction.0 == 0 && direction.1 == 0 {
                *state = AnimationState::Idle;
            } else {
                *state = AnimationState::Moving;
            }
        },
        _ => {},
    }
}

/// One level-up pass over a unit's stats: when the experience threshold
/// is reached, it is spent for a larger, refilled health pool, more
/// damage and more speed; otherwise nothing changes.
pub fn level_up(xp: &mut Xp, health: &mut Health, speed: &mut Speed, damage: &mut Damage)
    requires
        old(health).max <= u32::MAX - HEALTH_PER_LEVEL,
        old(damage).0 <= u32::MAX - DAMAGE_PER_LEVEL,
        old(speed).0 <= i64::MAX - SPEED_PER_LEVEL,
    ensures
        old(xp).0 >= XP_THRESHOLD ==> {
            &&& final(xp).0 == old(xp).0 - XP_THRESHOLD
            &&& final(health).max == old(health).max + HEALTH_PER_LEVEL
            &&& final(health).current == final(health).max
            &&& final(damage).0 == old(damage).0 + DAMAGE_PER_LEVEL
            &&& final(speed).0 == old(speed).0 + SPEED_PER_LEVEL
        },
        old(xp).0 < XP_THRESHOLD ==> {
            &&& *final(xp) == *old(xp)
            &&& *final(health) == *old(health)
            &&& *final(damage) == *old(damage)
            &&& *final(speed) == *old(speed)
        },
{
    if xp.0 >= XP_THRESHOLD {
        xp.0 = xp.0 - XP_THRESHOLD;
        health.max = health.max + HEALTH_PER_LEVEL;
        health.current = health.max;
        damage.0 = damage.0 + DAMAGE_PER_LEVEL;
        speed.0 = speed.0 + SPEED_PER_LEVEL;
    }
}

} // verus!
