//! A verified hexagonal grid tiler.
//!
//! Given a center coordinate, a radius, and a chunk-size divisor, the tiler
//! enumerates every axial coordinate within the radius and assigns each one a
//! color index in {0, 1, 2}, computed from the coordinate coarsened by the
//! chunk size. The host that renders the tiles maps each coordinate to a
//! world-space position through the (linear) axial-to-Cartesian transform of
//! its hex layout; translation invariance of the enumerated region is proved
//! here at the coordinate level.

pub mod color;
pub mod coord;
pub mod tiler;
