//! RGB color values and the fixed palette used by the compositor.

use vstd::prelude::*;

verus! {

/// One 8-bit-per-channel RGB color.
#[derive(Clone, Copy, Debug, PartialEq, Eq, Structural)]
pub struct Rgb {
    pub r: u8,
    pub g: u8,
    pub b: u8,
}

/// Background cell that the banner mask leaves unlit.
pub open spec fn black() -> Rgb {
    Rgb { r: 0x00, g: 0x00, b: 0x00 }
}

/// Background cell that the banner mask marks lit.
pub open spec fn white() -> Rgb {
    Rgb { r: 0xFF, g: 0xFF, b: 0xFF }
}

/// Color of the player marker.
pub open spec fn green() -> Rgb {
    Rgb { r: 0x00, g: 0xFF, b: 0x00 }
}

/// Innermost explosion color and the color of fired projectiles.
pub open spec fn red() -> Rgb {
    Rgb { r: 0xFF, g: 0x00, b: 0x00 }
}

/// Middle explosion ring color.
pub open spec fn orange() -> Rgb {
    Rgb { r: 0xFF, g: 0x7F, b: 0x00 }
}

/// Outer explosion ring color.
pub open spec fn yellow() -> Rgb {
    Rgb { r: 0xFF, g: 0xFF, b: 0x00 }
}

/// Color of spawned hostile entities.
pub open spec fn blue() -> Rgb {
    Rgb { r: 0x00, g: 0x00, b: 0xFF }
}

} // verus!
