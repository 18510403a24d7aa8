//! Timed explosion effects and their age-banded 3x3 patterns.

use vstd::prelude::*;

use crate::color::{orange, red, yellow, Rgb};
use crate::entity::CELL_LIMIT;

verus! {

/// An explosion is removed once its age reaches this many milli-units
/// (two time units).
pub const EXPLOSION_LIFETIME: i64 = 2000;

/// A timed effect centered on one grid cell, aging in milli-units.
#[derive(Clone, Copy, Debug, PartialEq, Eq, Structural)]
pub struct Explosion {
    /// Center column, in cells.
    pub x: i64,
    /// Center row, in cells.
    pub y: i64,
    /// Time since the explosion was spawned, in milli-units.
    pub age: i64,
}

impl Explosion {
    /// Center within the representable cell range, age within its lifetime.
    pub open spec fn wf(self) -> bool {
        &&& -CELL_LIMIT <= self.x <= CELL_LIMIT
        &&& -CELL_LIMIT <= self.y <= CELL_LIMIT
        &&& 0 <= self.age < EXPLOSION_LIFETIME
    }
}

/// The color an explosion of the given age paints at relative offset
/// (`dr` rows, `dc` columns) from its center, if any.
///
/// The pattern is an expanding ring over four age bands of a tenth of a
/// time unit each: the taxicab distance picks center, edge or corner of
/// the 3x3 neighborhood.
pub open spec fn explosion_pattern(age: int, dr: int, dc: int) -> Option<Rgb> {
    if -1 <= dr <= 1 && -1 <= dc <= 1 {
        let d = abs1(dr) + abs1(dc);
        if age < 100 {
            if d == 0 {
                Some(orange())
            } else if d == 1 {
                Some(yellow())
            } else {
                None
            }
        } else if age < 200 {
            if d == 0 {
                Some(red())
            } else if d == 1 {
                Some(orange())
            } else {
                Some(yellow())
            }
        } else if age < 300 {
            if d == 1 {
                Some(red())
            } else if d == 2 {
                Some(orange())
            } else {
                None
            }
        } else if age < 400 {
            if d == 2 {
                Some(red())
            } else {
                None
            }
        } else {
            None
        }
    } else {
        None
    }
}

/// Absolute value of an offset in `{-1, 0, 1}`.
pub open spec fn abs1(v: int) -> int {
    if v < 0 {
        -v
    } else {
        v
    }
}

/// Compute `explosion_pattern` in machine integers.
pub fn pattern_at(age: i64, dr: i64, dc: i64) -> (r: Option<Rgb>)
    ensures
        r == explosion_pattern(age as int, dr as int, dc as int),
{
    if dr < -1 || dr > 1 || dc < -1 || dc > 1 {
        return None;
    }
    let adr: i64 = if dr < 0 {
        -dr
    } else {
        dr
    };
    let adc: i64 = if dc < 0 {
        -dc
    } else {
        dc
    };
    let d: i64 = adr + adc;
    if age < 100 {
        if d == 0 {
            Some(Rgb { r: 0xFF, g: 0x7F, b: 0x00 })
        } else if d == 1 {
            Some(Rgb { r: 0xFF, g: 0xFF, b: 0x00 })
        } else {
            None
        }
    } else if age < 200 {
        if d == 0 {
            Some(Rgb { r: 0xFF, g: 0x00, b: 0x00 })
        } else if d == 1 {
            Some(Rgb { r: 0xFF, g: 0x7F, b: 0x00 })
        } else {
            Some(Rgb { r: 0xFF, g: 0xFF, b: 0x00 })
        }
    } else if age < 300 {
        if d == 1 {
            Some(Rgb { r: 0xFF, g: 0x00, b: 0x00 })
        } else if d == 2 {
            Some(Rgb { r: 0xFF, g: 0x7F, b: 0x00 })
        } else {
            None
        }
    } else if age < 400 {
        if d == 2 {
            Some(Rgb { r: 0xFF, g: 0x00, b: 0x00 })
        } else {
            None
        }
    } else {
        None
    }
}

} // verus!
