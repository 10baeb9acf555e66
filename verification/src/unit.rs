use vstd::prelude::*;
use vstd::math::abs;
use vstd::arithmetic::div_mod::{lemma_div_is_ordered, lemma_div_of0};
use crate::SCALE;
use crate::collider::{hits_active, Collider};
use crate::vec2::Vec2I;

verus! {

/// Largest admitted speed, in ticks per second (one million world units
/// per second); keeps the displacement product inside `u64`.
pub const SPEED_LIMIT: i64 = 1_000_000_000;

/// Largest admitted delta-time, in ticks of a second (a thousand seconds).
pub const DT_LIMIT: i64 = 1_000_000;

/// Largest admitted world coordinate for a moving entity, in ticks
/// (a billion world units from the origin on each axis); keeps the moved
/// coordinate inside `i64`.
pub const POS_LIMIT: i64 = 1_000_000_000_000;

/// A mobile entity's movement profile: the half-extents of its bounding
/// box on the ground plane. Its position lives beside it and is mutated
/// only by [`Unit::move_and_slide`].
pub struct Unit {
    pub size: Vec2I,
}

/// Scalar movement speed in ticks per second.
pub struct Speed(pub i64);

/// Hit points of a unit.
pub struct Health {
    pub current: u32,
    pub max: u32,
}

impl Health {
    /// Lower `current` by `damage`, saturating at zero.
    pub fn take_damage(&mut self, damage: u32)
        ensures
            final(self).max == old(self).max,
            final(self).current == if old(self).current > damage {
                old(self).current - damage
            } else {
                0
            },
    {
        if self.current > damage {
            self.current = self.current - damage;
        } else {
            self.current = 0;
        }
    }
}

/// The displacement contributed by one direction component over one tick:
/// the magnitude `|dir_c| * speed * dt` rescaled from the product of three
/// fixed-point factors back to ticks (flooring), with the component's sign
/// restored.
pub open spec fn axis_displacement(dir_c: int, speed: int, dt: int) -> int {
    let m = (abs(dir_c) * speed * dt) / ((SCALE * SCALE) as int);
    if dir_c >= 0 {
        m
    } else {
        -m
    }
}

/// The resolved x coordinate of the axis-separated slide: the x-only
/// candidate keeps its movement exactly when the entity is already stuck
/// inside an active collider, or the candidate overlaps none.
pub open spec fn spec_resolved_x(
    half: Vec2I,
    pos: Vec2I,
    dir: Vec2I,
    speed: int,
    dt: int,
    cs: Seq<(Vec2I, Collider)>,
) -> int {
    let dx = axis_displacement(dir.x as int, speed, dt);
    let stuck = hits_active(cs, pos.x as int, pos.z as int, half);
    let blocked = hits_active(cs, pos.x + dx, pos.z as int, half);
    if stuck || !blocked {
        pos.x + dx
    } else {
        pos.x as int
    }
}

/// The resolved z coordinate; the two axes are decided independently.
pub open spec fn spec_resolved_z(
    half: Vec2I,
    pos: Vec2I,
    dir: Vec2I,
    speed: int,
    dt: int,
    cs: Seq<(Vec2I, Collider)>,
) -> int {
    let dz = axis_displacement(dir.z as int, speed, dt);
    let stuck = hits_active(cs, pos.x as int, pos.z as int, half);
    let blocked = hits_active(cs, pos.x as int, pos.z + dz, half);
    if stuck || !blocked {
        pos.z + dz
    } else {
        pos.z as int
    }
}

/// Computes one direction component's displacement in `i64`, matching
/// `axis_displacement` exactly; the result stays within `POS_LIMIT`, so
/// a moved coordinate cannot overflow.
fn axis_disp(dir_c: i64, speed: i64, dt: i64) -> (d: i64)
    requires
        -SCALE <= dir_c <= SCALE,
        0 <= speed <= SPEED_LIMIT,
        0 <= dt <= DT_LIMIT,
    ensures
        d == axis_displacement(dir_c as int, speed as int, dt as int),
        -POS_LIMIT <= d <= POS_LIMIT,
{
    let a: u64 = if dir_c >= 0 {
        dir_c as u64
    } else {
        (-dir_c) as u64
    };
    assert(a == abs(dir_c as int));
    assert(a * (speed as u64) <= 1000 * 1_000_000_000) by (nonlinear_arith)
        requires
            a <= 1000,
            speed as u64 <= 1_000_000_000,
    ;
    assert(a * (speed as u64) * (dt as u64) <= 1_000_000_000_000 * 1_000_000) by (nonlinear_arith)
        requires
            a * (speed as u64) <= 1_000_000_000_000,
            dt as u64 <= 1_000_000,
    ;
    let num: u64 = a * speed as u64 * dt as u64;
    let m: u64 = num / 1_000_000u64;
    proof {
        lemma_div_is_ordered(num as int, 1_000_000_000_000_000_000, 1_000_000);
    }
    if dir_c >= 0 {
        m as i64
    } else {
        -(m as i64)
    }
}

impl Unit {
    /// Axis-separated sliding movement, the shared motion resolver.
    ///
    /// The full displacement `direction * speed * dtime` is split into an
    /// x-only and a z-only candidate; each axis moves exactly when its
    /// candidate overlaps no active collider of the snapshot, except that
    /// an entity already overlapping one ("stuck") may move on both axes,
    /// so it can never lock up. A blocked axis keeps the
    /// coordinate it started with, which lets motion slide along obstacle faces.
    pub fn move_and_slide(
        &self,
        position: &mut Vec2I,
        direction: Vec2I,
        speed: &Speed,
        colliders: &Vec<(Vec2I, Collider)>,
        dtime: i64,
    )
        requires
            -SCALE <= direction.x <= SCALE,
            -SCALE <= direction.z <= SCALE,
            0 <= speed.0 <= SPEED_LIMIT,
            0 <= dtime <= DT_LIMIT,
            -POS_LIMIT <= old(position).x <= POS_LIMIT,
            -POS_LIMIT <= old(position).z <= POS_LIMIT,
        ensures
            final(position).x == spec_resolved_x(
                self.size,
                *old(position),
                direction,
                speed.0 as int,
                dtime as int,
                colliders@,
            ),
            final(position).z == spec_resolved_z(
                self.size,
                *old(position),
                direction,
                speed.0 as int,
                dtime as int,
                colliders@,
            ),
    {
        let dx = axis_disp(direction.x, speed.0, dtime);
        let dz = axis_disp(direction.z, speed.0, dtime);
        let cand_x = Vec2I { x: position.x + dx, z: position.z };
        let cand_z = Vec2I { x: position.x, z: position.z + dz };
        let here = *position;

        let mut is_colliding = false;
        let mut will_collide_x = false;
        let mut will_collide_z = false;
        let n = colliders.len();
        let mut i: usize = 0;
        while i < n
            invariant
                n == colliders@.len(),
                0 <= i <= n,
                will_collide_x == exists|k: int|
                    0 <= k < i && (#[trigger] colliders@[k]).1.active && crate::collider::overlap_at(
                        colliders@[k].0,
                        colliders@[k].1.size,
                        cand_x.x as int,
                        cand_x.z as int,
                        self.size,
                    ),
                will_collide_z == exists|k: int|
                    0 <= k < i && (#[trigger] colliders@[k]).1.active && crate::collider::overlap_at(
                        colliders@[k].0,
                        colliders@[k].1.size,
                        cand_z.x as int,
                        cand_z.z as int,
                        self.size,
                    ),
                is_colliding == exists|k: int|
                    0 <= k < i && (#[trigger] colliders@[k]).1.active && crate::collider::overlap_at(
                        colliders@[k].0,
                        colliders@[k].1.size,
                        here.x as int,
                        here.z as int,
                        self.size,
                    ),
            decreases n - i,
        {
            let entry = &colliders[i];
            if entry.1.active {
                if entry.1.is_colliding(entry.0, cand_x, self.size) {
                    will_collide_x = true;
                }
                if entry.1.is_colliding(entry.0, cand_z, self.size) {
                    will_collide_z = true;
                }
                if entry.1.is_colliding(entry.0, here, self.size) {
                    is_colliding = true;
                }
            }
            i = i + 1;
        }

        let mut next = *position;
        if is_colliding || !will_collide_x {
            next.x = cand_x.x;
        }
        if is_colliding || !will_collide_z {
            next.z = cand_z.z;
        }
        *position = next;
    }
}

/// A blocked axis keeps its coordinate: for an entity that does not start
/// inside any active collider, whenever an axis-only candidate overlaps
/// an active collider, the resolved coordinate on that axis equals the
/// coordinate before the move.
pub proof fn lemma_blocked_axis_keeps_coordinate(
    half: Vec2I,
    pos: Vec2I,
    dir: Vec2I,
    speed: int,
    dt: int,
    cs: Seq<(Vec2I, Collider)>,
)
    requires
        !hits_active(cs, pos.x as int, pos.z as int, half),
    ensures
        hits_active(cs, pos.x + axis_displacement(dir.x as int, speed, dt), pos.z as int, half)
            ==> spec_resolved_x(half, pos, dir, speed, dt, cs) == pos.x as int,
        hits_active(cs, pos.x as int, pos.z + axis_displacement(dir.z as int, speed, dt), half)
            ==> spec_resolved_z(half, pos, dir, speed, dt, cs) == pos.z as int,
{
}

/// Zero direction is a no-op: whatever the speed, the delta-time and the
/// collider snapshot, the resolved position equals the input position.
pub proof fn lemma_zero_direction_is_noop(
    half: Vec2I,
    pos: Vec2I,
    dir: Vec2I,
    speed: int,
    dt: int,
    cs: Seq<(Vec2I, Collider)>,
)
    requires
        dir.spec_is_zero(),
    ensures
        spec_resolved_x(half, pos, dir, speed, dt, cs) == pos.x as int,
        spec_resolved_z(half, pos, dir, speed, dt, cs) == pos.z as int,
{
    assert(abs(0) == 0);
    assert(0 * speed == 0);
    assert(0 * dt == 0);
    lemma_div_of0((SCALE * SCALE) as int);
}

/// Anti-stuck rule: an entity that starts the tick overlapping an active
/// collider is permitted to move on both axes, so both resolved
/// coordinates take their candidates' values.
pub proof fn lemma_stuck_permits_both_axes(
    half: Vec2I,
    pos: Vec2I,
    dir: Vec2I,
    speed: int,
    dt: int,
    cs: Seq<(Vec2I, Collider)>,
)
    requires
        hits_active(cs, pos.x as int, pos.z as int, half),
    ensures
        spec_resolved_x(half, pos, dir, speed, dt, cs) == pos.x + axis_displacement(
            dir.x as int,
            speed,
            dt,
        ),
        spec_resolved_z(half, pos, dir, speed, dt, cs) == pos.z + axis_displacement(
            dir.z as int,
            speed,
            dt,
        ),
{
}

} // verus!
