//! The 2-D point type shared by the curve algorithms, and the error type for
//! control-point sequences that the engine refuses to interpret.

use vstd::prelude::*;

pub mod bezier;
pub mod perfect;

verus! {

/// Number of fractional bits in a fixed-point coordinate: a coordinate value
/// `v` stands for the real number `v / 2^14`.
pub const COORD_FRAC_BITS: u32 = 14;

/// One whole unit in fixed-point coordinates (`2^14`).
pub const COORD_ONE: i64 = 16384;

/// Largest coordinate magnitude the flattener accepts: `512` whole units,
/// the full gameplay field, expressed in fixed point (`512 * 2^14 = 2^23`).
/// The bound keeps every intermediate sum and squared length inside `i64`.
pub const COORD_LIMIT: i64 = 8388608;

/// A 2-D point with fixed-point coordinates.
#[derive(Clone, Copy, Debug, PartialEq, Eq, Structural)]
pub struct Point {
    pub x: i64,
    pub y: i64,
}

/// A point lies within the coordinate range the flattener works on.
pub open spec fn in_bounds(p: Point) -> bool {
    &&& -COORD_LIMIT <= p.x <= COORD_LIMIT
    &&& -COORD_LIMIT <= p.y <= COORD_LIMIT
}

/// Every point of the sequence lies within the coordinate range.
pub open spec fn all_in_bounds(s: Seq<Point>) -> bool {
    forall|i: int| 0 <= i < s.len() ==> in_bounds(#[trigger] s[i])
}

impl Point {
    /// Builds the point with the given fixed-point coordinates.
    pub fn new(x: i64, y: i64) -> (p: Point)
        ensures
            p == (Point { x, y }),
    {
        Point { x, y }
    }

    /// Squared Euclidean length of the point taken as a vector.
    pub fn length_squared(self) -> (r: i64)
        requires
            -0x4000_0000 <= self.x <= 0x4000_0000,
            -0x4000_0000 <= self.y <= 0x4000_0000,
        ensures
            r == self.x * self.x + self.y * self.y,
    {
        proof {
            assert(0 <= self.x * self.x <= 0x4000_0000 * 0x4000_0000) by (nonlinear_arith)
                requires -0x4000_0000 <= self.x <= 0x4000_0000;
            assert(0 <= self.y * self.y <= 0x4000_0000 * 0x4000_0000) by (nonlinear_arith)
                requires -0x4000_0000 <= self.y <= 0x4000_0000;
        }
        self.x * self.x + self.y * self.y
    }
}

/// Why a control-point sequence was refused.
#[derive(Clone, Copy, Debug, PartialEq, Eq, Structural)]
pub enum CurveError {
    /// A sub-segment of exactly two control points (a straight line) reached
    /// the Bézier flattener, which does not implement that curve kind.
    UnsupportedSegmentKind,
}

/// Which curve algorithm a slider path's control points describe.
#[derive(Clone, Copy, Debug, PartialEq, Eq, Structural)]
pub enum CurveKind {
    /// A Bézier path of any degree, possibly composite.
    Bezier,
    /// A "perfect" path: exactly three points on a circular arc.
    Perfect,
}

/// Whether a path is handled by the circular-arc approximator: a "perfect"
/// path of exactly three points forming a non-degenerate triangle.
pub open spec fn takes_arc_path(kind: CurveKind, s: Seq<Point>) -> bool {
    &&& kind == CurveKind::Perfect
    &&& s.len() == 3
    &&& !crate::curves::perfect::perfect_degenerate_spec(s[0], s[1], s[2])
}

/// Flattens one slider path at the default tolerances. A three-point
/// "perfect" path becomes a circular arc; a degenerate arc falls back to
/// Bézier flattening, as does every other kind and point count.
pub fn get_slider_path(kind: CurveKind, control_points: Vec<Point>) -> (r: Result<
    Vec<Point>,
    CurveError,
>)
    requires
        control_points@.len() < crate::curves::bezier::MAX_CONTROL_POINTS,
        all_in_bounds(control_points@),
    ensures
        takes_arc_path(kind, control_points@) ==> (r matches Ok(out)
            && out@ == crate::curves::perfect::get_perfect_spec(
            control_points@[0],
            control_points@[1],
            control_points@[2],
            crate::curves::perfect::PERFECT_TOLERANCE as int,
        )),
        !takes_arc_path(kind, control_points@) ==> {
            &&& (r is Err <==> crate::curves::bezier::has_short_segment(control_points@))
            &&& (r matches Ok(out) ==> out@ == crate::curves::bezier::split_points(
                control_points@,
                crate::curves::bezier::BEZIER_TOLERANCE_SQ as int,
            ))
        },
{
    if kind == CurveKind::Perfect && control_points.len() == 3 {
        let triangle = crate::curves::bezier::copy_points(&control_points);
        let arc = crate::curves::perfect::get_perfect(triangle);
        if arc.len() > 0 {
            return Ok(arc);
        }
    }
    crate::curves::bezier::get_bezier(control_points)
}

} // verus!
