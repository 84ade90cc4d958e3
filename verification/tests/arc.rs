//! Tests of the circular-arc approximator and the fixed-point scalar math.

use slider_path::curves::perfect::{get_perfect, get_perfect_with_tolerance};
use slider_path::curves::{Point, COORD_ONE};
use slider_path::fixed::{atan2_fixed, isqrt64, sincos_fixed, ANGLE_ONE, HALF_PI_FIXED, PI_FIXED};

fn pt(x: i64, y: i64) -> Point {
    Point::new(x * COORD_ONE, y * COORD_ONE)
}

fn to_f64(p: &Point) -> (f64, f64) {
    (p.x as f64 / COORD_ONE as f64, p.y as f64 / COORD_ONE as f64)
}

#[test]
fn test_arc_scenario() {
    // A=(0,0), B=(1,1), C=(2,0): circumcenter (1,0), radius 1; the output
    // runs from A to C over the upper half-circle.
    let out: Vec<Point> = get_perfect(vec![pt(0, 0), pt(1, 1), pt(2, 0)]);
    assert!(out.len() >= 2);
    assert_eq!(out.len(), 4);
    let (fx, fy) = to_f64(&out[0]);
    assert!(fx.abs() < 1e-4 && fy.abs() < 1e-4);
    let (lx, ly) = to_f64(&out[out.len() - 1]);
    assert!((lx - 2.0).abs() < 1e-4 && ly.abs() < 1e-4);
    for p in &out {
        let (x, y) = to_f64(p);
        let radial: f64 = ((x - 1.0) * (x - 1.0) + y * y).sqrt();
        assert!((radial - 1.0).abs() < 1e-3);
        assert!(y > -1e-3);
    }
}

#[test]
fn test_arc_degenerate_side_empty() {
    let out: Vec<Point> = get_perfect(vec![pt(0, 0), pt(0, 0), pt(1, 0)]);
    assert!(out.is_empty());
}

#[test]
fn test_arc_collinear_empty() {
    let out: Vec<Point> = get_perfect(vec![pt(0, 0), pt(1, 0), pt(2, 0)]);
    assert!(out.is_empty());
}

#[test]
fn test_arc_tiny_radius_two_points() {
    // A triangle so small that twice the radius is within the tolerance:
    // exactly two points come back.
    let a = Point::new(0, 0);
    let b = Point::new(400, 400);
    let c = Point::new(800, 0);
    let out: Vec<Point> = get_perfect_with_tolerance(vec![a, b, c], COORD_ONE);
    assert_eq!(out.len(), 2);
}

#[test]
fn test_isqrt_exact() {
    assert_eq!(isqrt64(0), 0);
    assert_eq!(isqrt64(1), 1);
    assert_eq!(isqrt64(15), 3);
    assert_eq!(isqrt64(16), 4);
    assert_eq!(isqrt64(1 << 60), 1 << 30);
    assert_eq!(isqrt64((1 << 60) - 1), (1 << 30) - 1);
}

#[test]
fn test_atan2_axes() {
    assert_eq!(atan2_fixed(0, 1000), 0);
    assert_eq!(atan2_fixed(1000, 0), HALF_PI_FIXED);
    assert_eq!(atan2_fixed(0, -1000), PI_FIXED);
    assert_eq!(atan2_fixed(-1000, 0), -HALF_PI_FIXED);
}

#[test]
fn test_atan2_against_float() {
    let cases: [(i64, i64); 6] = [(3, 4), (-3, 4), (3, -4), (-3, -4), (1, 10), (10, 1)];
    for (y, x) in cases {
        let got: f64 = atan2_fixed(y * 1000, x * 1000) as f64 / ANGLE_ONE as f64;
        let want: f64 = (y as f64).atan2(x as f64);
        assert!((got - want).abs() < 1e-4);
    }
}

#[test]
fn test_sincos_against_float() {
    let mut theta: i64 = -2 * PI_FIXED;
    while theta <= 2 * PI_FIXED {
        let (s, c) = sincos_fixed(theta);
        let t: f64 = theta as f64 / ANGLE_ONE as f64;
        assert!((s as f64 / ANGLE_ONE as f64 - t.sin()).abs() < 1e-4);
        assert!((c as f64 / ANGLE_ONE as f64 - t.cos()).abs() < 1e-4);
        theta += 10007;
    }
}
