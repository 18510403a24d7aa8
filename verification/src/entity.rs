//! Movable entities with fixed-point position and velocity.
//!
//! Positions are measured in micro-cells (one grid cell is `POS_SCALE`
//! units) and time in milli-units, so a velocity stored in micro-cells
//! per milli-unit advances a position by exactly `vel * dt` with no
//! rounding. The pixel position of an entity is the floor of its
//! continuous coordinate, as cells.

use vstd::arithmetic::div_mod::lemma_fundamental_div_mod_converse;
use vstd::prelude::*;

use crate::color::Rgb;

verus! {

/// Micro-cells per grid cell.
pub const POS_SCALE: i64 = 1_000_000;

/// Positions are kept within `[-POS_LIMIT, POS_LIMIT]` (one million cells).
pub const POS_LIMIT: i64 = 1_000_000_000_000;

/// Velocity magnitudes are bounded by ten thousand cells per time unit.
pub const VEL_LIMIT: i64 = 10_000_000;

/// A single tick may cover at most ten thousand time units.
pub const DT_LIMIT: i64 = 10_000_000;

/// Cell coordinates reachable from a representable position:
/// `POS_LIMIT / POS_SCALE`.
pub const CELL_LIMIT: i64 = 1_000_000;

/// A movable entity: continuous position, velocity, and its own color.
#[derive(Clone, Copy, Debug, PartialEq, Eq, Structural)]
pub struct Entity {
    pub x: i64,
    pub y: i64,
    pub dx: i64,
    pub dy: i64,
    pub color: Rgb,
}

/// The grid cell that a continuous coordinate falls in: the floor of
/// `v / POS_SCALE`.
pub open spec fn cell_of(v: int) -> int {
    v / (POS_SCALE as int)
}

/// Saturate a coordinate at the representable position range.
pub open spec fn clamp_pos(v: int) -> int {
    if v < -(POS_LIMIT as int) {
        -(POS_LIMIT as int)
    } else if v > POS_LIMIT as int {
        POS_LIMIT as int
    } else {
        v
    }
}

/// The coordinate after advancing `pos` by `vel` for `dt`, saturated at
/// the representable range.
pub open spec fn updated_coord(pos: int, vel: int, dt: int) -> int {
    clamp_pos(pos + vel * dt)
}

impl Entity {
    /// Positions and velocities within the representable range.
    pub open spec fn wf(self) -> bool {
        &&& -POS_LIMIT <= self.x <= POS_LIMIT
        &&& -POS_LIMIT <= self.y <= POS_LIMIT
        &&& -VEL_LIMIT <= self.dx <= VEL_LIMIT
        &&& -VEL_LIMIT <= self.dy <= VEL_LIMIT
    }

    /// The integer cell this entity occupies, as (column, row).
    pub fn pixel_position(&self) -> (p: (i64, i64))
        requires
            self.wf(),
        ensures
            p.0 == cell_of(self.x as int),
            p.1 == cell_of(self.y as int),
            -CELL_LIMIT <= p.0 <= CELL_LIMIT,
            -CELL_LIMIT <= p.1 <= CELL_LIMIT,
    {
        (floor_cell(self.x), floor_cell(self.y))
    }

    /// Advance the position by `vel * dt` on each axis; velocity and
    /// color are untouched.
    pub fn update(&mut self, dt: i64)
        requires
            old(self).wf(),
            0 <= dt <= DT_LIMIT,
        ensures
            final(self).x == updated_coord(old(self).x as int, old(self).dx as int, dt as int),
            final(self).y == updated_coord(old(self).y as int, old(self).dy as int, dt as int),
            final(self).dx == old(self).dx,
            final(self).dy == old(self).dy,
            final(self).color == old(self).color,
            final(self).wf(),
    {
        self.x = advanced_coord(self.x, self.dx, dt);
        self.y = advanced_coord(self.y, self.dy, dt);
    }
}

/// A zero-length time step leaves a well-formed coordinate unchanged.
pub proof fn lemma_zero_dt_keeps_position(e: Entity)
    requires
        e.wf(),
    ensures
        updated_coord(e.x as int, e.dx as int, 0) == e.x,
        updated_coord(e.y as int, e.dy as int, 0) == e.y,
{
}

/// Compute `clamp_pos(pos + vel * dt)` in machine integers.
pub fn advanced_coord(pos: i64, vel: i64, dt: i64) -> (r: i64)
    requires
        -POS_LIMIT <= pos <= POS_LIMIT,
        -VEL_LIMIT <= vel <= VEL_LIMIT,
        0 <= dt <= DT_LIMIT,
    ensures
        r == updated_coord(pos as int, vel as int, dt as int),
        -POS_LIMIT <= r <= POS_LIMIT,
{
    proof {
        assert(-(VEL_LIMIT as int) * (DT_LIMIT as int) <= vel * dt <= (VEL_LIMIT as int) * (
        DT_LIMIT as int)) by (nonlinear_arith)
            requires
                -VEL_LIMIT <= vel <= VEL_LIMIT,
                0 <= dt <= DT_LIMIT,
        ;
    }
    let step: i64 = vel * dt;
    let moved: i64 = pos + step;
    if moved < -POS_LIMIT {
        -POS_LIMIT
    } else if moved > POS_LIMIT {
        POS_LIMIT
    } else {
        moved
    }
}

/// The floor of `v / POS_SCALE` in machine integers.
pub fn floor_cell(v: i64) -> (c: i64)
    requires
        -POS_LIMIT <= v <= POS_LIMIT,
    ensures
        c == cell_of(v as int),
        -CELL_LIMIT <= c <= CELL_LIMIT,
{
    if v >= 0 {
        let q: u64 = (v as u64) / (POS_SCALE as u64);
        q as i64
    } else {
        let m: u64 = (-v) as u64;
        let q: u64 = (m - 1) / (POS_SCALE as u64);
        proof {
            let s = POS_SCALE as int;
            let qi = (m - 1) as int / s;
            let ri = (m - 1) as int % s;
            lemma_fundamental_div_mod_converse(-(m as int), s, -qi - 1, s - ri - 1);
        }
        -(q as i64) - 1
    }
}

} // verus!
