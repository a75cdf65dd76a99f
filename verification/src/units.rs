//! Fixed-point units shared by the whole renderer.
//!
//! World coordinates, distances and normalized texture coordinates are all
//! integers scaled by [`SCALE`]: a value `v` stands for `v / SCALE` world
//! units. Angles are integers scaled the same way, standing for
//! `v / SCALE` radians; this crate only ever adds and subtracts angles,
//! so no trigonometry is needed here.

use vstd::prelude::*;

verus! {

/// Fixed-point scale: one world unit is `SCALE` fixed-point units.
pub const SCALE: u64 = 1024;

/// Largest accepted grid side (rows or columns).
pub const MAX_GRID_SIDE: usize = 4096;

/// Largest accepted world-unit length of a grid cell edge.
pub const MAX_BLOCK_SIZE: usize = 4096;

/// Largest accepted framebuffer or texture side, in pixels.
pub const MAX_SIDE: usize = 16384;

/// A ray or movement direction as a fixed-point unit vector, stored as a
/// sign and a magnitude per axis so that all position arithmetic stays in
/// unsigned integers. For a heading `a` the caller supplies
/// `(cos(a), sin(a))` scaled by [`SCALE`]; this crate never computes the
/// trigonometry itself.
#[derive(Clone, Copy)]
pub struct Direction {
    pub x_neg: bool,
    pub x_mag: u64,
    pub y_neg: bool,
    pub y_mag: u64,
}

impl Direction {
    /// The signed fixed-point x component.
    pub open spec fn dx(self) -> int {
        if self.x_neg {
            -(self.x_mag as int)
        } else {
            self.x_mag as int
        }
    }

    /// The signed fixed-point y component.
    pub open spec fn dy(self) -> int {
        if self.y_neg {
            -(self.y_mag as int)
        } else {
            self.y_mag as int
        }
    }

    /// Well-formed: each component within one world unit, and the two
    /// together at least half a unit long — true of the fixed-point
    /// rounding of any unit vector, whose component magnitudes sum to at
    /// least one. A ray along such a direction covers at least a quarter
    /// world unit per unit traveled on one axis, so it leaves any bounded
    /// grid within a few diagonals' travel.
    pub open spec fn wf(self) -> bool {
        &&& self.x_mag <= SCALE
        &&& self.y_mag <= SCALE
        &&& self.x_mag + self.y_mag >= SCALE / 2
    }
}

} // verus!
