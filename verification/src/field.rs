use vstd::prelude::*;
use crate::intmath::mod_euclid;

verus! {

/// Largest admitted field side; keeps `side * side` within `usize`.
pub const FIELD_SIDE_LIMIT: usize = 1_000_000;

/// A sampled noise field: a square grid of fixed-point sample values, the
/// deterministic source that terrain is classified from. Sampling wraps
/// around on both axes, so the field covers an unbounded world.
///
/// The values are plain integers so that classification is exact and
/// reproducible; whatever produced them (a gradient-noise generator, a
/// hand-written table in a test) quantises its samples before handing
/// them over.
pub struct NoiseField {
    pub side: usize,
    pub values: Vec<i64>,
}

impl NoiseField {
    pub open spec fn wf(&self) -> bool {
        1 <= self.side <= FIELD_SIDE_LIMIT && self.values@.len() == self.side * self.side
    }

    /// The sample at an arbitrary integer point, after wrapping both
    /// coordinates into the grid.
    pub open spec fn spec_sample(&self, x: int, y: int) -> i64 {
        self.values@[(x % (self.side as int)) * (self.side as int) + (y % (self.side as int))]
    }

    pub fn new(side: usize, values: Vec<i64>) -> (f: NoiseField)
        requires
            1 <= side <= FIELD_SIDE_LIMIT,
            values@.len() == side * side,
        ensures
            f.wf(),
            f.side == side,
            f.values == values,
    {
        NoiseField { side, values }
    }

    /// Wrapped sample lookup; total over the admitted coordinate range.
    pub fn get_value(&self, x: i64, y: i64) -> (v: i64)
        requires
            self.wf(),
            -1_000_000_000_000_000_000 <= x <= 1_000_000_000_000_000_000,
            -1_000_000_000_000_000_000 <= y <= 1_000_000_000_000_000_000,
        ensures
            v == self.spec_sample(x as int, y as int),
    {
        let side = self.side as i64;
        let xm = mod_euclid(x, side) as usize;
        let ym = mod_euclid(y, side) as usize;
        let n = self.values.len();
        assert(xm * self.side + ym < self.side * self.side) by (nonlinear_arith)
            requires
                xm < self.side,
                ym < self.side,
        ;
        assert(xm * self.side + ym < n);
        self.values[xm * self.side + ym]
    }
}

} // verus!
