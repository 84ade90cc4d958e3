//! Slider-path geometry: flattening of Bézier control-point sequences into
//! polylines, and circular-arc approximation of three-point "perfect"
//! curves.
//!
//! Coordinates are fixed-point: an `i64` holds a coordinate scaled by
//! `2^COORD_FRAC_BITS`. All geometry is exact integer arithmetic; the
//! trigonometry needed for circular arcs is computed in fixed point as
//! well.

pub mod curves;
pub mod fixed;
pub mod helper;
