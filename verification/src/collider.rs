use vstd::prelude::*;
use vstd::math::abs;
use crate::vec2::Vec2I;

verus! {

/// A static axis-aligned obstacle. `size` holds the half-extents of its
/// box on the two ground axes; only colliders with `active == true` block
/// movement. A collider does not own its position: the collision world
/// pairs each collider with the world position it was placed at.
pub struct Collider {
    pub size: Vec2I,
    pub active: bool,
}

/// Whether the axis-aligned box of half-extents `chalf` centred at `cpos`
/// strictly overlaps the box of half-extents `half` centred at `(px, pz)`.
/// Boxes that merely touch do not overlap.
pub open spec fn overlap_at(cpos: Vec2I, chalf: Vec2I, px: int, pz: int, half: Vec2I) -> bool {
    abs(px - cpos.x) < chalf.x + half.x && abs(pz - cpos.z) < chalf.z + half.z
}

/// Whether some active collider of the snapshot `cs` overlaps the box of
/// half-extents `half` centred at `(px, pz)`.
pub open spec fn hits_active(cs: Seq<(Vec2I, Collider)>, px: int, pz: int, half: Vec2I) -> bool {
    exists|k: int|
        0 <= k < cs.len() && (#[trigger] cs[k]).1.active && overlap_at(
            cs[k].0,
            cs[k].1.size,
            px,
            pz,
            half,
        )
}

impl Collider {
    /// Strict overlap test between this collider placed at `self_translate`
    /// and a box of half-extents `other_size` centred at `other_translate`.
    /// Total: intermediate arithmetic is widened, so no bounds are required.
    pub fn is_colliding(
        &self,
        self_translate: Vec2I,
        other_translate: Vec2I,
        other_size: Vec2I,
    ) -> (r: bool)
        ensures
            r == overlap_at(
                self_translate,
                self.size,
                other_translate.x as int,
                other_translate.z as int,
                other_size,
            ),
    {
        let dx: i128 = other_translate.x as i128 - self_translate.x as i128;
        let dz: i128 = other_translate.z as i128 - self_translate.z as i128;
        let adx: i128 = if dx < 0 {
            -dx
        } else {
            dx
        };
        let adz: i128 = if dz < 0 {
            -dz
        } else {
            dz
        };
        adx < self.size.x as i128 + other_size.x as i128 && adz < self.size.z as i128
            + other_size.z as i128
    }
}

} // verus!
