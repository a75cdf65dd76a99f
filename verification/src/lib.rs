//! A software renderer for a first-person maze walker: a rectangular
//! occupancy grid is explored by casting rays from the player's pose and
//! projecting each hit onto a vertical stripe of a pixel framebuffer.
//!
//! All geometry is carried in fixed-point integers: world coordinates,
//! distances and texture coordinates are scaled by [`units::SCALE`].
//! The caller supplies ray directions as fixed-point unit vectors, so the
//! trigonometry needed to derive them stays outside this crate.

pub mod caster;
pub mod framebuffer;
pub mod grid;
pub mod intersect;
pub mod player;
pub mod render;
pub mod texture;
pub mod units;
