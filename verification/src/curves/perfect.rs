//! Circular-arc approximation of three-point "perfect" curves: the unique
//! circle through the points, and evenly spaced points along the arc from
//! the first point to the third, swept on whichever side the middle point
//! lies.
//!
//! Degenerate inputs — a zero-length triangle side, a collinear triangle
//! (zero weight sum), or a circumcenter outside the fixed-point range — give
//! an empty result, which callers treat as "fall back to Bézier flattening".

use vstd::prelude::*;

use crate::curves::{all_in_bounds, in_bounds, Point, COORD_LIMIT};
use crate::fixed::{
    acos_fixed, div_ceil_fix, div_fix, acos_spec, atan2_fixed, atan2_spec, isqrt64, isqrt_spec, sincos_fixed,
    sincos_spec, ANGLE_ONE, PI_FIXED, TWO_PI_FIXED,
};

verus! {

/// Default arc tolerance: a tenth of a unit in fixed-point coordinates
/// (`0.1 * 2^14`, truncated).
pub const PERFECT_TOLERANCE: i64 = 1638;

/// Largest circumcenter coordinate magnitude the approximator accepts
/// (`2^29` fixed, `2^15` whole units); farther centers mean a nearly
/// straight arc and fall back to Bézier flattening.
pub const CENTER_LIMIT: i64 = 0x2000_0000;

/// Hard bound on the number of emitted arc points.
pub const MAX_ARC_POINTS: i64 = 65536;

/// Squared distance between two points.
pub open spec fn sq_dist_spec(a: Point, b: Point) -> int {
    (a.x - b.x) * (a.x - b.x) + (a.y - b.y) * (a.y - b.y)
}

/// Some side of the triangle has length exactly zero.
pub open spec fn degenerate_sides_spec(a: Point, b: Point, c: Point) -> bool {
    sq_dist_spec(b, c) == 0 || sq_dist_spec(a, c) == 0 || sq_dist_spec(a, b) == 0
}

/// Barycentric-style circumcenter weight of the first point.
pub open spec fn weight_s_spec(a: Point, b: Point, c: Point) -> int {
    sq_dist_spec(b, c) * (sq_dist_spec(a, c) + sq_dist_spec(a, b) - sq_dist_spec(b, c))
}

/// Barycentric-style circumcenter weight of the middle point.
pub open spec fn weight_t_spec(a: Point, b: Point, c: Point) -> int {
    sq_dist_spec(a, c) * (sq_dist_spec(b, c) + sq_dist_spec(a, b) - sq_dist_spec(a, c))
}

/// Barycentric-style circumcenter weight of the last point.
pub open spec fn weight_u_spec(a: Point, b: Point, c: Point) -> int {
    sq_dist_spec(a, b) * (sq_dist_spec(b, c) + sq_dist_spec(a, c) - sq_dist_spec(a, b))
}

/// The sum of the circumcenter weights; zero exactly for a collinear
/// triangle.
pub open spec fn weight_sum_spec(a: Point, b: Point, c: Point) -> int {
    weight_s_spec(a, b, c) + weight_t_spec(a, b, c) + weight_u_spec(a, b, c)
}

/// Circumcenter x-coordinate, by Euclidean division of the weighted sum.
pub open spec fn center_x_spec(a: Point, b: Point, c: Point) -> int {
    (weight_s_spec(a, b, c) * a.x + weight_t_spec(a, b, c) * b.x + weight_u_spec(a, b, c) * c.x)
        / weight_sum_spec(a, b, c)
}

/// Circumcenter y-coordinate, by Euclidean division of the weighted sum.
pub open spec fn center_y_spec(a: Point, b: Point, c: Point) -> int {
    (weight_s_spec(a, b, c) * a.y + weight_t_spec(a, b, c) * b.y + weight_u_spec(a, b, c) * c.y)
        / weight_sum_spec(a, b, c)
}

/// The circumcenter lies outside the fixed-point range the arc math works
/// on.
pub open spec fn center_out_of_range_spec(a: Point, b: Point, c: Point) -> bool {
    center_x_spec(a, b, c) > CENTER_LIMIT || center_x_spec(a, b, c) < -CENTER_LIMIT
        || center_y_spec(a, b, c) > CENTER_LIMIT || center_y_spec(a, b, c) < -CENTER_LIMIT
}

/// The triangle admits no usable arc: a zero side, a zero weight sum, or an
/// out-of-range circumcenter.
pub open spec fn perfect_degenerate_spec(a: Point, b: Point, c: Point) -> bool {
    degenerate_sides_spec(a, b, c) || weight_sum_spec(a, b, c) == 0 || center_out_of_range_spec(
        a,
        b,
        c,
    )
}

/// The arc through a non-degenerate triangle: center and radius of the
/// circle, start angle at the first point, sweep direction and angular
/// range toward the third.
pub struct ArcFrame {
    pub center_x: int,
    pub center_y: int,
    pub radius: int,
    pub theta_start: int,
    pub direction: int,
    pub theta_range: int,
}

/// Derives the arc description of a non-degenerate triangle.
pub open spec fn arc_frame_spec(a: Point, b: Point, c: Point) -> ArcFrame {
    let cx = center_x_spec(a, b, c);
    let cy = center_y_spec(a, b, c);
    let radius = isqrt_spec((a.x - cx) * (a.x - cx) + (a.y - cy) * (a.y - cy));
    let theta_start = atan2_spec(a.y - cy, a.x - cx);
    let theta_end_raw = atan2_spec(c.y - cy, c.x - cx);
    let theta_end = if theta_end_raw < theta_start {
        theta_end_raw + TWO_PI_FIXED
    } else {
        theta_end_raw
    };
    let cross = (c.y - a.y) * (b.x - a.x) - (c.x - a.x) * (b.y - a.y);
    let direction: int = if cross < 0 {
        -1
    } else {
        1
    };
    let theta_range = if cross < 0 {
        TWO_PI_FIXED - (theta_end - theta_start)
    } else {
        theta_end - theta_start
    };
    ArcFrame {
        center_x: cx,
        center_y: cy,
        radius,
        theta_start,
        direction,
        theta_range,
    }
}

/// The number of evenly spaced points approximating the arc: two for a tiny
/// radius, else enough that each step stays within the chord tolerance
/// (`ceil(range / (2 * acos(1 - tolerance / radius)))`), clamped between two
/// and the hard point bound.
pub open spec fn arc_amount_spec(frame: ArcFrame, tolerance: int) -> int {
    let one = ANGLE_ONE as int;
    if 2 * frame.radius <= tolerance {
        2
    } else {
        let z = (tolerance * one + frame.radius - 1) / frame.radius;
        let x0 = one - z;
        let x = if x0 < -one {
            -one
        } else {
            x0
        };
        let d0 = 2 * acos_spec(x);
        let d = if d0 < 1 {
            1
        } else {
            d0
        };
        let n = (frame.theta_range + d - 1) / d;
        if n < 2 {
            2
        } else if n > MAX_ARC_POINTS {
            MAX_ARC_POINTS as int
        } else {
            n
        }
    }
}

/// The `i`-th of `amount` evenly spaced points along the arc.
pub open spec fn arc_point_spec(frame: ArcFrame, amount: int, i: int) -> Point {
    let one = ANGLE_ONE as int;
    let fract = i * one / (amount - 1);
    let theta = frame.theta_start + frame.direction * (fract * frame.theta_range / one);
    let sc = sincos_spec(theta);
    Point {
        x: (frame.center_x + frame.radius * sc.1 / one) as i64,
        y: (frame.center_y + frame.radius * sc.0 / one) as i64,
    }
}

/// The full output of the circular-arc approximator: empty for a degenerate
/// triangle, else the evenly spaced arc points.
pub open spec fn get_perfect_spec(a: Point, b: Point, c: Point, tolerance: int) -> Seq<Point> {
    if perfect_degenerate_spec(a, b, c) {
        Seq::empty()
    } else {
        let frame = arc_frame_spec(a, b, c);
        let amount = arc_amount_spec(frame, tolerance);
        Seq::new(amount as nat, |i: int| arc_point_spec(frame, amount, i))
    }
}


/// Twice the signed area of the triangle: the cross product of its two edge
/// vectors out of the first point.
pub open spec fn cross_spec(a: Point, b: Point, c: Point) -> int {
    (b.x - a.x) * (c.y - a.y) - (b.y - a.y) * (c.x - a.x)
}

/// Law: the weight sum is four times the squared cross product, so it is
/// never negative and is zero exactly for a collinear triangle.
#[verifier::rlimit(60)]
pub proof fn lemma_weight_sum_is_cross_squared(a: Point, b: Point, c: Point)
    ensures
        weight_sum_spec(a, b, c) == 4 * cross_spec(a, b, c) * cross_spec(a, b, c),
        weight_sum_spec(a, b, c) == 0 <==> cross_spec(a, b, c) == 0,
{
    let abx = b.x - a.x;
    let aby = b.y - a.y;
    let acx = c.x - a.x;
    let acy = c.y - a.y;
    assert(b.x - c.x == abx - acx && b.y - c.y == aby - acy);
    assert(sq_dist_spec(b, c) == (abx - acx) * (abx - acx) + (aby - acy) * (aby - acy));
    let n_acx = a.x - c.x;
    let n_acy = a.y - c.y;
    assert(sq_dist_spec(a, c) == n_acx * n_acx + n_acy * n_acy);
    assert(n_acx * n_acx == acx * acx) by (nonlinear_arith)
        requires n_acx == -acx;
    assert(n_acy * n_acy == acy * acy) by (nonlinear_arith)
        requires n_acy == -acy;
    let n_abx = a.x - b.x;
    let n_aby = a.y - b.y;
    assert(sq_dist_spec(a, b) == n_abx * n_abx + n_aby * n_aby);
    assert(n_abx * n_abx == abx * abx) by (nonlinear_arith)
        requires n_abx == -abx;
    assert(n_aby * n_aby == aby * aby) by (nonlinear_arith)
        requires n_aby == -aby;
    assert(sq_dist_spec(a, c) == acx * acx + acy * acy);
    assert(sq_dist_spec(a, b) == abx * abx + aby * aby);
    let bc = (abx - acx) * (abx - acx) + (aby - acy) * (aby - acy);
    let ac = acx * acx + acy * acy;
    let ab = abx * abx + aby * aby;
    let dot = abx * acx + aby * acy;
    let cr = abx * acy - aby * acx;
    // The third side in terms of the other two and the dot product.
    assert(bc == ab + ac - 2 * dot) by (nonlinear_arith)
        requires
            bc == (abx - acx) * (abx - acx) + (aby - acy) * (aby - acy),
            ac == acx * acx + acy * acy,
            ab == abx * abx + aby * aby,
            dot == abx * acx + aby * acy,
    ;
    // Lagrange's identity for two dimensions, over the four edge products.
    let upx = abx * acx;
    let vqy = aby * acy;
    let uqy = abx * acy;
    let vpx = aby * acx;
    assert(dot * dot == upx * upx + 2 * (upx * vqy) + vqy * vqy) by (nonlinear_arith)
        requires dot == upx + vqy;
    assert(cr * cr == uqy * uqy - 2 * (uqy * vpx) + vpx * vpx) by (nonlinear_arith)
        requires cr == uqy - vpx;
    assert(upx * vqy == uqy * vpx) by (nonlinear_arith)
        requires
            upx == abx * acx,
            vqy == aby * acy,
            uqy == abx * acy,
            vpx == aby * acx,
    ;
    let u2 = abx * abx;
    let v2 = aby * aby;
    let p2 = acx * acx;
    let q2 = acy * acy;
    assert(ab * ac == u2 * p2 + u2 * q2 + v2 * p2 + v2 * q2) by (nonlinear_arith)
        requires ab == u2 + v2, ac == p2 + q2;
    assert(u2 * p2 == upx * upx) by (nonlinear_arith)
        requires u2 == abx * abx, p2 == acx * acx, upx == abx * acx;
    assert(u2 * q2 == uqy * uqy) by (nonlinear_arith)
        requires u2 == abx * abx, q2 == acy * acy, uqy == abx * acy;
    assert(v2 * p2 == vpx * vpx) by (nonlinear_arith)
        requires v2 == aby * aby, p2 == acx * acx, vpx == aby * acx;
    assert(v2 * q2 == vqy * vqy) by (nonlinear_arith)
        requires v2 == aby * aby, q2 == acy * acy, vqy == aby * acy;
    assert(ab * ac == upx * upx + uqy * uqy + vpx * vpx + vqy * vqy);
    assert(ab * ac - dot * dot == cr * cr);
    // The weight sum collapses over the substituted third side.
    assert(bc * (ac + ab - bc) + ac * (bc + ab - ac) + ab * (bc + ac - ab) == 4 * (ab * ac - dot
        * dot)) by (nonlinear_arith)
        requires bc == ab + ac - 2 * dot;
    assert(weight_s_spec(a, b, c) == bc * (ac + ab - bc));
    assert(weight_t_spec(a, b, c) == ac * (bc + ab - ac));
    assert(weight_u_spec(a, b, c) == ab * (bc + ac - ab));
    assert(cross_spec(a, b, c) == cr);
    assert(4 * cr * cr == 0 <==> cr == 0) by (nonlinear_arith);
    assert(4 * cr * cr == 4 * (cr * cr)) by (nonlinear_arith);
    assert(weight_sum_spec(a, b, c) == 4 * cr * cr);
}

/// Squared distance between two in-range points.
fn sq_dist(a: Point, b: Point) -> (d: i64)
    requires
        in_bounds(a),
        in_bounds(b),
    ensures
        d == sq_dist_spec(a, b),
        0 <= d <= 0x2_0000_0000_0000,
{
    let dx = a.x - b.x;
    let dy = a.y - b.y;
    proof {
        assert(0 <= dx * dx <= 0x1000000 * 0x1000000) by (nonlinear_arith)
            requires -0x1000000 <= dx <= 0x1000000;
        assert(0 <= dy * dy <= 0x1000000 * 0x1000000) by (nonlinear_arith)
            requires -0x1000000 <= dy <= 0x1000000;
    }
    dx * dx + dy * dy
}

/// Euclidean division of bounded 128-bit values.
fn div_euclid_i128(a: i128, b: i128) -> (q: i128)
    requires
        b != 0,
        -0x1000_0000_0000_0000_0000_0000_0000_0000 <= a
            <= 0x1000_0000_0000_0000_0000_0000_0000_0000,
        -0x1000_0000_0000_0000_0000_0000_0000_0000 <= b
            <= 0x1000_0000_0000_0000_0000_0000_0000_0000,
    ensures
        q == a as int / b as int,
{
    proof {
        vstd::arithmetic::div_mod::lemma_fundamental_div_mod(a as int, b as int);
        let qq = a as int / b as int;
        let rr = a as int % b as int;
        assert(a == b * qq + rr);
        let bound: int = 0x1000_0000_0000_0000_0000_0000_0000_0000;
        assert(-2 * bound <= qq <= 2 * bound) by (nonlinear_arith)
            requires
                a == b * qq + rr,
                0 <= rr,
                rr < b || rr < -b,
                -bound <= a <= bound,
                -bound <= b <= bound,
                b != 0,
                bound == 0x1000_0000_0000_0000_0000_0000_0000_0000,
        ;
    }
    a.checked_div_euclid(b).unwrap()
}

/// The circular-arc approximation of the triangle `(a, b, c)` at the given
/// chord tolerance: empty exactly when the triangle is degenerate, else at
/// least two evenly spaced points along the arc.
pub fn approximate_arc(a: Point, b: Point, c: Point, tolerance: i64) -> (r: Vec<Point>)
    requires
        in_bounds(a),
        in_bounds(b),
        in_bounds(c),
        1 <= tolerance <= COORD_LIMIT,
    ensures
        r@ == get_perfect_spec(a, b, c, tolerance as int),
        r@.len() == 0 <==> perfect_degenerate_spec(a, b, c),
        !perfect_degenerate_spec(a, b, c) ==> 2 <= r@.len() <= MAX_ARC_POINTS,
{
    let a_sq = sq_dist(b, c);
    let b_sq = sq_dist(a, c);
    let c_sq = sq_dist(a, b);
    if a_sq == 0 || b_sq == 0 || c_sq == 0 {
        return Vec::new();
    }
    proof {
        assert(weight_s_spec(a, b, c) == (a_sq as int) * ((b_sq + c_sq - a_sq) as int));
        assert(weight_t_spec(a, b, c) == (b_sq as int) * ((a_sq + c_sq - b_sq) as int));
        assert(weight_u_spec(a, b, c) == (c_sq as int) * ((a_sq + b_sq - c_sq) as int));
    }
    proof {
        let big: int = 0x2_0000_0000_0000;
        crate::fixed::lemma_mul_bounds(a_sq as int, b_sq + c_sq - a_sq, big, 2 * big);
        crate::fixed::lemma_mul_bounds(b_sq as int, a_sq + c_sq - b_sq, big, 2 * big);
        crate::fixed::lemma_mul_bounds(c_sq as int, a_sq + b_sq - c_sq, big, 2 * big);
    }
    let s_w: i128 = (a_sq as i128) * ((b_sq + c_sq - a_sq) as i128);
    let t_w: i128 = (b_sq as i128) * ((a_sq + c_sq - b_sq) as i128);
    let u_w: i128 = (c_sq as i128) * ((a_sq + b_sq - c_sq) as i128);
    let sum_w: i128 = s_w + t_w + u_w;
    if sum_w == 0 {
        return Vec::new();
    }
    proof {
        let big2: int = 0x8_0000_0000_0000_0000_0000_0000;
        crate::fixed::lemma_mul_bounds(s_w as int, a.x as int, big2, 0x800000);
        crate::fixed::lemma_mul_bounds(t_w as int, b.x as int, big2, 0x800000);
        crate::fixed::lemma_mul_bounds(u_w as int, c.x as int, big2, 0x800000);
        crate::fixed::lemma_mul_bounds(s_w as int, a.y as int, big2, 0x800000);
        crate::fixed::lemma_mul_bounds(t_w as int, b.y as int, big2, 0x800000);
        crate::fixed::lemma_mul_bounds(u_w as int, c.y as int, big2, 0x800000);
    }
    let num_x: i128 = s_w * (a.x as i128) + t_w * (b.x as i128) + u_w * (c.x as i128);
    let num_y: i128 = s_w * (a.y as i128) + t_w * (b.y as i128) + u_w * (c.y as i128);
    let cx_wide = div_euclid_i128(num_x, sum_w);
    let cy_wide = div_euclid_i128(num_y, sum_w);
    if cx_wide > CENTER_LIMIT as i128 || cx_wide < -(CENTER_LIMIT as i128) || cy_wide
        > CENTER_LIMIT as i128 || cy_wide < -(CENTER_LIMIT as i128) {
        return Vec::new();
    }
    let cx = cx_wide as i64;
    let cy = cy_wide as i64;
    proof {
        assert(cx == center_x_spec(a, b, c));
        assert(cy == center_y_spec(a, b, c));
        assert(!perfect_degenerate_spec(a, b, c));
    }
    let ghost frame = arc_frame_spec(a, b, c);
    let d_ax = a.x - cx;
    let d_ay = a.y - cy;
    let d_cx = c.x - cx;
    let d_cy = c.y - cy;
    proof {
        assert(0 <= d_ax * d_ax <= 0x20800000 * 0x20800000) by (nonlinear_arith)
            requires -0x20800000 <= d_ax <= 0x20800000;
        assert(0 <= d_ay * d_ay <= 0x20800000 * 0x20800000) by (nonlinear_arith)
            requires -0x20800000 <= d_ay <= 0x20800000;
    }
    let r_sq = d_ax * d_ax + d_ay * d_ay;
    let radius64 = isqrt64(r_sq as u64);
    let radius = radius64 as i64;
    proof {
        assert(radius == frame.radius);
    }
    let theta_start = atan2_fixed(d_ay, d_ax);
    let theta_end_raw = atan2_fixed(d_cy, d_cx);
    let theta_end = if theta_end_raw < theta_start {
        theta_end_raw + TWO_PI_FIXED
    } else {
        theta_end_raw
    };
    let nx = c.x - a.x;
    let ny = c.y - a.y;
    let bx = b.x - a.x;
    let by = b.y - a.y;
    proof {
        assert(-0x1000000 * 0x1000000 <= ny * bx <= 0x1000000 * 0x1000000) by (nonlinear_arith)
            requires -0x1000000 <= ny <= 0x1000000, -0x1000000 <= bx <= 0x1000000;
        assert(-0x1000000 * 0x1000000 <= nx * by <= 0x1000000 * 0x1000000) by (nonlinear_arith)
            requires -0x1000000 <= nx <= 0x1000000, -0x1000000 <= by <= 0x1000000;
    }
    let cross = ny * bx - nx * by;
    let direction: i64 = if cross < 0 {
        -1
    } else {
        1
    };
    let theta_range = if cross < 0 {
        TWO_PI_FIXED - (theta_end - theta_start)
    } else {
        theta_end - theta_start
    };
    proof {
        assert(theta_start == frame.theta_start);
        assert(direction == frame.direction);
        assert(theta_range == frame.theta_range);
        assert(0 <= theta_range <= TWO_PI_FIXED);
    }
    let amount: i64 = if 2 * radius <= tolerance {
        2
    } else {
        let z = div_ceil_fix(tolerance * ANGLE_ONE, radius);
        let x0 = ANGLE_ONE - z;
        let x = if x0 < -ANGLE_ONE {
            -ANGLE_ONE
        } else {
            x0
        };
        let d0 = 2 * acos_fixed(x);
        let d = if d0 < 1 {
            1
        } else {
            d0
        };
        let n = div_ceil_fix(theta_range, d);
        if n < 2 {
            2
        } else if n > MAX_ARC_POINTS {
            MAX_ARC_POINTS
        } else {
            n
        }
    };
    proof {
        assert(amount == arc_amount_spec(frame, tolerance as int));
        assert(2 <= amount <= MAX_ARC_POINTS);
    }
    let mut out: Vec<Point> = Vec::new();
    let mut i: i64 = 0;
    while i < amount
        invariant
            0 <= i <= amount,
            2 <= amount <= MAX_ARC_POINTS,
            out@.len() == i,
            cx == frame.center_x,
            cy == frame.center_y,
            radius == frame.radius,
            0 <= radius <= 0x8000_0000,
            theta_start == frame.theta_start,
            -PI_FIXED <= theta_start <= PI_FIXED,
            direction == frame.direction,
            direction == 1 || direction == -1,
            theta_range == frame.theta_range,
            0 <= theta_range <= TWO_PI_FIXED,
            -CENTER_LIMIT <= cx <= CENTER_LIMIT,
            -CENTER_LIMIT <= cy <= CENTER_LIMIT,
            forall|k: int| 0 <= k < i ==> out@[k] == arc_point_spec(frame, amount as int, k),
        decreases amount - i,
    {
        let fract = div_fix(i * ANGLE_ONE, amount - 1);
        proof {
            assert(fract <= ANGLE_ONE) by (nonlinear_arith)
                requires
                    (amount - 1) * fract <= i * ANGLE_ONE,
                    i <= amount - 1,
                    1 <= amount - 1,
                    i * ANGLE_ONE <= (amount - 1) * ANGLE_ONE,
                    ANGLE_ONE == 1048576,
            ;
            assert(i * ANGLE_ONE <= (amount - 1) * ANGLE_ONE) by (nonlinear_arith)
                requires i <= amount - 1, ANGLE_ONE >= 1;
            assert(fract >= 0) by (nonlinear_arith)
                requires (amount - 1) * (fract + 1) > i * ANGLE_ONE, i >= 0, amount - 1 >= 1;
        }
        proof {
            assert(0 <= fract * theta_range <= 1048576 * 6588398) by (nonlinear_arith)
                requires 0 <= fract <= 1048576, 0 <= theta_range <= 6588398;
        }
        let offs = div_fix(fract * theta_range, ANGLE_ONE);
        let theta = if direction < 0 {
            theta_start - offs
        } else {
            theta_start + offs
        };
        let sc = sincos_fixed(theta);
        proof {
            assert(-0x8000_0000 * 1048576 <= radius * sc.1 <= 0x8000_0000 * 1048576)
                by (nonlinear_arith)
                requires 0 <= radius <= 0x8000_0000, -1048576 <= sc.1 <= 1048576;
            assert(-0x8000_0000 * 1048576 <= radius * sc.0 <= 0x8000_0000 * 1048576)
                by (nonlinear_arith)
                requires 0 <= radius <= 0x8000_0000, -1048576 <= sc.0 <= 1048576;
        }
        let px = cx + div_fix(radius * sc.1, ANGLE_ONE);
        let py = cy + div_fix(radius * sc.0, ANGLE_ONE);
        out.push(Point { x: px, y: py });
        proof {
            assert(direction * offs == if direction < 0 { -offs as int } else { offs as int })
                by (nonlinear_arith)
                requires direction == 1 || direction == -1;
            assert(out@[i as int] == arc_point_spec(frame, amount as int, i as int));
        }
        i += 1;
    }
    proof {
        assert(out@ =~= get_perfect_spec(a, b, c, tolerance as int));
    }
    out
}

/// The circular-arc approximation of a three-point control sequence.
pub fn get_perfect_with_tolerance(control_points: Vec<Point>, tolerance: i64) -> (r: Vec<Point>)
    requires
        control_points@.len() == 3,
        all_in_bounds(control_points@),
        1 <= tolerance <= COORD_LIMIT,
    ensures
        r@ == get_perfect_spec(
            control_points@[0],
            control_points@[1],
            control_points@[2],
            tolerance as int,
        ),
        r@.len() == 0 <==> perfect_degenerate_spec(
            control_points@[0],
            control_points@[1],
            control_points@[2],
        ),
        r@.len() != 0 ==> 2 <= r@.len() <= MAX_ARC_POINTS,
{
    let a = control_points[0];
    let b = control_points[1];
    let c = control_points[2];
    approximate_arc(a, b, c, tolerance)
}

/// `get_perfect_with_tolerance` at the default arc tolerance of a tenth of
/// a unit.
pub fn get_perfect(control_points: Vec<Point>) -> (r: Vec<Point>)
    requires
        control_points@.len() == 3,
        all_in_bounds(control_points@),
    ensures
        r@ == get_perfect_spec(
            control_points@[0],
            control_points@[1],
            control_points@[2],
            PERFECT_TOLERANCE as int,
        ),
        r@.len() == 0 <==> perfect_degenerate_spec(
            control_points@[0],
            control_points@[1],
            control_points@[2],
        ),
        r@.len() != 0 ==> 2 <= r@.len() <= MAX_ARC_POINTS,
{
    get_perfect_with_tolerance(control_points, PERFECT_TOLERANCE)
}

} // verus!
