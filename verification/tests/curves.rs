//! Tests of the composite splitter and the adaptive Bézier flattener.

use slider_path::curves::bezier::{
    create_singlebezier, get_bezier, get_bezier_with_tolerance, is_flat_enough,
    BEZIER_TOLERANCE_SQ,
};
use slider_path::curves::{get_slider_path, CurveError, CurveKind, Point, COORD_ONE};

fn pt(x: i64, y: i64) -> Point {
    Point::new(x * COORD_ONE, y * COORD_ONE)
}

fn cubic() -> Vec<Point> {
    vec![pt(0, 0), pt(0, 100), pt(100, 100), pt(100, 0)]
}

#[test]
fn test_flatten_cubic_endpoints() {
    let out: Vec<Point> = get_bezier(cubic()).unwrap();
    assert_eq!(out.len(), 61);
    assert_eq!(out[0], pt(0, 0));
    assert_eq!(out[out.len() - 1], pt(100, 0));
}

#[test]
fn test_cubic_monotone_spacing() {
    let out: Vec<Point> = get_bezier(cubic()).unwrap();
    for w in out.windows(2) {
        assert!(w[0].x <= w[1].x);
    }
}

#[test]
fn test_cubic_deviation_under_tolerance() {
    let out: Vec<Point> = get_bezier(cubic()).unwrap();
    let ctrl: [(f64, f64); 4] = [(0.0, 0.0), (0.0, 100.0), (100.0, 100.0), (100.0, 0.0)];
    let mut samples: Vec<(f64, f64)> = Vec::new();
    let n: usize = 2000;
    for i in 0..=n {
        let t: f64 = i as f64 / n as f64;
        let u: f64 = 1.0 - t;
        let x: f64 = 3.0 * u * u * t * ctrl[1].0 + 3.0 * u * t * t * ctrl[2].0
            + t * t * t * ctrl[3].0 + u * u * u * ctrl[0].0;
        let y: f64 = 3.0 * u * u * t * ctrl[1].1 + 3.0 * u * t * t * ctrl[2].1
            + t * t * t * ctrl[3].1 + u * u * u * ctrl[0].1;
        samples.push((x, y));
    }
    let mut worst: f64 = 0.0;
    for p in &out {
        let fx: f64 = p.x as f64 / COORD_ONE as f64;
        let fy: f64 = p.y as f64 / COORD_ONE as f64;
        let mut best: f64 = f64::MAX;
        for (sx, sy) in &samples {
            let d: f64 = ((fx - sx) * (fx - sx) + (fy - sy) * (fy - sy)).sqrt();
            if d < best {
                best = d;
            }
        }
        if best > worst {
            worst = best;
        }
    }
    // Deviation stays well under the square root of the 0.5 tolerance.
    assert!(worst < 0.7071);
}

#[test]
fn test_finer_tolerance_more_points() {
    let half_sq: i64 = BEZIER_TOLERANCE_SQ;
    let quarter_sq: i64 = (COORD_ONE / 4) * (COORD_ONE / 4);
    let unit_sq: i64 = COORD_ONE * COORD_ONE;
    let coarse: Vec<Point> = get_bezier_with_tolerance(cubic(), unit_sq).unwrap();
    let medium: Vec<Point> = get_bezier_with_tolerance(cubic(), half_sq).unwrap();
    let fine: Vec<Point> = get_bezier_with_tolerance(cubic(), quarter_sq).unwrap();
    assert_eq!(coarse.len(), 49);
    assert_eq!(medium.len(), 61);
    assert_eq!(fine.len(), 97);
    assert!(fine.len() >= medium.len());
    assert!(medium.len() >= coarse.len());
}

#[test]
fn test_composite_split_concat() {
    let a = pt(0, 0);
    let b = pt(10, 20);
    let c = pt(30, 20);
    let d = pt(40, 0);
    let e = pt(50, 30);
    let f = pt(60, 0);
    let whole: Vec<Point> = vec![a, b, c, d, d, e, f];
    let joined: Vec<Point> = get_bezier(whole).unwrap();
    let mut expected: Vec<Point> = Vec::new();
    create_singlebezier(&mut expected, vec![a, b, c, d], BEZIER_TOLERANCE_SQ);
    create_singlebezier(&mut expected, vec![d, e, f], BEZIER_TOLERANCE_SQ);
    assert_eq!(joined, expected);
}

#[test]
fn test_two_point_input_rejected() {
    let r = get_bezier(vec![pt(0, 0), pt(10, 10)]);
    assert_eq!(r, Err(CurveError::UnsupportedSegmentKind));
}

#[test]
fn test_two_point_subsegment_rejected() {
    let r = get_bezier(vec![pt(0, 0), pt(5, 5), pt(5, 5), pt(7, 0), pt(9, 2)]);
    assert_eq!(r, Err(CurveError::UnsupportedSegmentKind));
}

#[test]
fn test_empty_input_noop() {
    let out: Vec<Point> = get_bezier(Vec::new()).unwrap();
    assert!(out.is_empty());
}

#[test]
fn test_single_point_emitted_twice() {
    let out: Vec<Point> = get_bezier(vec![pt(3, 4)]).unwrap();
    assert_eq!(out, vec![pt(3, 4), pt(3, 4)]);
}

#[test]
fn test_duplicate_in_tail_is_no_marker() {
    // The duplicate sits within the last two positions, so it does not
    // split the sequence and the whole four-point curve is flattened.
    let out: Vec<Point> = get_bezier(vec![pt(0, 0), pt(10, 20), pt(30, 0), pt(30, 0)]).unwrap();
    assert_eq!(out[0], pt(0, 0));
    assert_eq!(out[out.len() - 1], pt(30, 0));
}

#[test]
fn test_flat_output_passes_flatness_again() {
    let quarter_sq: i64 = (COORD_ONE / 4) * (COORD_ONE / 4);
    let out: Vec<Point> = get_bezier_with_tolerance(cubic(), quarter_sq).unwrap();
    assert!(is_flat_enough(&out, quarter_sq));
}

#[test]
fn test_is_flat_enough_cases() {
    // Evenly spaced collinear points have zero second differences.
    let line: Vec<Point> = vec![pt(0, 0), pt(10, 10), pt(20, 20), pt(30, 30)];
    assert!(is_flat_enough(&line, 0));
    // A sharp corner exceeds the default tolerance.
    let corner: Vec<Point> = vec![pt(0, 0), pt(50, 0), pt(50, 50)];
    assert!(!is_flat_enough(&corner, BEZIER_TOLERANCE_SQ));
}

#[test]
fn test_flat_segment_exact_vertices() {
    // Three evenly spaced collinear points are already flat: the output is
    // the first point, one 1-4-1 smoothed interior vertex, and the final
    // point, all exact.
    let out: Vec<Point> = get_bezier(vec![pt(0, 0), pt(1, 0), pt(2, 0)]).unwrap();
    assert_eq!(out, vec![pt(0, 0), pt(1, 0), pt(2, 0)]);
}

#[test]
fn test_flat_segment_smoothing_average() {
    // A flat-enough bend: the interior vertex is the 1-4-1 average of the
    // once-subdivided control polygon. For control points (0,0), (4,4),
    // (8,0) in raw fixed units the subdivided row is (0,0), (2,2), (4,2),
    // (6,2), (8,0) and the smoothed vertex (2*(4,2)+(2,2)+(6,2))/4 = (4,2).
    let cps: Vec<Point> = vec![Point::new(0, 0), Point::new(4, 4), Point::new(8, 0)];
    let out: Vec<Point> = get_bezier(cps).unwrap();
    assert_eq!(
        out,
        vec![Point::new(0, 0), Point::new(4, 2), Point::new(8, 0)]
    );
}

#[test]
fn test_slider_path_dispatch() {
    // A valid perfect triangle takes the arc path.
    let arc: Vec<Point> = get_slider_path(
        CurveKind::Perfect,
        vec![pt(0, 0), pt(1, 1), pt(2, 0)],
    )
    .unwrap();
    assert!(arc.len() >= 2);
    assert_eq!(arc[0], pt(0, 0));
    assert_eq!(arc[arc.len() - 1], pt(2, 0));
    // A collinear perfect triangle falls back to Bézier flattening.
    let fallback: Vec<Point> = get_slider_path(
        CurveKind::Perfect,
        vec![pt(0, 0), pt(1, 0), pt(2, 0)],
    )
    .unwrap();
    assert!(fallback.len() >= 2);
    assert_eq!(fallback[0], pt(0, 0));
    assert_eq!(fallback[fallback.len() - 1], pt(2, 0));
    // The Bézier kind matches get_bezier exactly.
    let direct: Vec<Point> = get_slider_path(CurveKind::Bezier, cubic()).unwrap();
    assert_eq!(direct, get_bezier(cubic()).unwrap());
    // A perfect path of four points is routed to the Bézier flattener.
    let four: Vec<Point> =
        get_slider_path(CurveKind::Perfect, vec![pt(0, 0), pt(1, 1), pt(2, 0), pt(3, 1)]).unwrap();
    assert_eq!(four, get_bezier(vec![pt(0, 0), pt(1, 1), pt(2, 0), pt(3, 1)]).unwrap());
}
