use vstd::prelude::*;

verus! {

/// A point, half-extent or direction on the ground plane, in fixed-point
/// world ticks (`SCALE` ticks per world unit). The two ground axes are
/// named `x` and `z`; the vertical axis plays no part in collision or
/// streaming and is left to the presentation layer.
#[derive(Clone, Copy, PartialEq, Eq, Structural, Debug)]
pub struct Vec2I {
    pub x: i64,
    pub z: i64,
}

impl Vec2I {
    /// The zero vector, used as the "stand still" direction.
    pub open spec fn spec_is_zero(self) -> bool {
        self.x == 0 && self.z == 0
    }
}

/// Whether `a` and `b` lie within straight-line distance `r` of each
/// other, decided exactly on the squares. Range tests (when a pursuer
/// stops, when a melee hit connects) reduce to this.
pub fn within_distance(a: Vec2I, b: Vec2I, r: i64) -> (c: bool)
    requires
        -1_000_000_000_000 <= a.x <= 1_000_000_000_000,
        -1_000_000_000_000 <= a.z <= 1_000_000_000_000,
        -1_000_000_000_000 <= b.x <= 1_000_000_000_000,
        -1_000_000_000_000 <= b.z <= 1_000_000_000_000,
        0 <= r <= 1_000_000_000_000,
    ensures
        c == ((a.x - b.x) * (a.x - b.x) + (a.z - b.z) * (a.z - b.z) <= r * r),
{
    let dx: i128 = a.x as i128 - b.x as i128;
    let dz: i128 = a.z as i128 - b.z as i128;
    let rr: i128 = r as i128;
    assert(dx * dx <= 2_000_000_000_000 * 2_000_000_000_000 && dx * dx >= 0) by (nonlinear_arith)
        requires
            -2_000_000_000_000 <= dx <= 2_000_000_000_000,
    ;
    assert(dz * dz <= 2_000_000_000_000 * 2_000_000_000_000 && dz * dz >= 0) by (nonlinear_arith)
        requires
            -2_000_000_000_000 <= dz <= 2_000_000_000_000,
    ;
    assert(rr * rr <= 1_000_000_000_000 * 1_000_000_000_000 && rr * rr >= 0) by (nonlinear_arith)
        requires
            0 <= rr <= 1_000_000_000_000,
    ;
    dx * dx + dz * dz <= rr * rr
}

} // verus!
