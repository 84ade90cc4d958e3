//! Adaptive Bézier flattening and composite-curve splitting.
//!
//! A control-point sequence is split at duplicated adjacent points into
//! independent Bézier segments; each segment is flattened into a polyline by
//! recursive de Casteljau subdivision until every second finite difference of
//! the control polygon fits under a squared tolerance.
//!
//! All arithmetic is fixed-point: coordinates are `i64` values scaled by
//! `2^COORD_FRAC_BITS`, and halving or quartering rounds toward negative
//! infinity (Euclidean division).

use vstd::prelude::*;

use crate::curves::{all_in_bounds, in_bounds, CurveError, Point, COORD_LIMIT};

verus! {

/// Default squared flatness tolerance: half a unit, squared, in fixed point
/// (`(2^13)^2 = 2^26`).
pub const BEZIER_TOLERANCE_SQ: i64 = 67108864;

/// Hard bound on the depth of the subdivision recursion. Subdivision divides
/// the second differences of the control polygon roughly by four, and the
/// coordinate range bounds them by `2^51` when squared, so any tolerance of
/// at least a few fixed-point units is reached well before this depth; a
/// segment still not flat at the bound is emitted as-is.
pub const MAX_SUBDIVISIONS: u32 = 24;

/// Largest accepted control-point count; keeps buffer-size arithmetic inside
/// `usize` on any platform.
pub const MAX_CONTROL_POINTS: usize = 0x4000_0000;

/// Component-wise midpoint, rounding each coordinate toward negative
/// infinity.
pub open spec fn midpoint_spec(a: Point, b: Point) -> Point {
    Point { x: ((a.x + b.x) / 2) as i64, y: ((a.y + b.y) / 2) as i64 }
}

/// The 1-4-1 smoothing average `(2m + l + r) / 4`, rounding each coordinate
/// toward negative infinity.
pub open spec fn smooth_spec(m: Point, l: Point, r: Point) -> Point {
    Point {
        x: ((2 * m.x + l.x + r.x) / 4) as i64,
        y: ((2 * m.y + l.y + r.y) / 4) as i64,
    }
}

/// Squared length of the second finite difference `a - 2b + c`.
pub open spec fn second_diff_sq(a: Point, b: Point, c: Point) -> int {
    let dx = a.x - 2 * b.x + c.x;
    let dy = a.y - 2 * b.y + c.y;
    dx * dx + dy * dy
}

/// Every interior second difference of the control polygon is within the
/// squared tolerance.
pub open spec fn flat_enough_spec(s: Seq<Point>, tolerance_sq: int) -> bool {
    forall|i: int|
        1 <= i < s.len() - 1 ==> second_diff_sq(s[i - 1], #[trigger] s[i], s[i + 1]) <= tolerance_sq
}

/// One de Casteljau averaging step: the midpoints of adjacent pairs.
pub open spec fn midpoint_row(s: Seq<Point>) -> Seq<Point> {
    if s.len() == 0 {
        Seq::empty()
    } else {
        Seq::new((s.len() - 1) as nat, |j: int| midpoint_spec(s[j], s[j + 1]))
    }
}

/// The `i`-th row of the de Casteljau triangle at parameter one half; row 0
/// is the control polygon itself and each following row averages adjacent
/// pairs of the previous one.
pub open spec fn dc_row(s: Seq<Point>, i: nat) -> Seq<Point>
    decreases i,
{
    if i == 0 {
        s
    } else {
        midpoint_row(dc_row(s, (i - 1) as nat))
    }
}

/// Control points of the left half-curve: the first point of every row.
pub open spec fn left_half(s: Seq<Point>) -> Seq<Point> {
    Seq::new(s.len(), |i: int| dc_row(s, i as nat)[0])
}

/// Control points of the right half-curve: the last point of every row, in
/// reverse row order.
pub open spec fn right_half(s: Seq<Point>) -> Seq<Point> {
    Seq::new(s.len(), |j: int| dc_row(s, (s.len() - 1 - j) as nat)[j])
}

proof fn lemma_dc_row_len(s: Seq<Point>, i: nat)
    requires
        i <= s.len(),
    ensures
        dc_row(s, i).len() == s.len() - i,
    decreases i,
{
    if i > 0 {
        lemma_dc_row_len(s, (i - 1) as nat);
    }
}

proof fn lemma_midpoint_bounds(a: Point, b: Point)
    requires
        in_bounds(a),
        in_bounds(b),
    ensures
        in_bounds(midpoint_spec(a, b)),
{
}

proof fn lemma_dc_row_bounds(s: Seq<Point>, i: nat)
    requires
        all_in_bounds(s),
    ensures
        all_in_bounds(dc_row(s, i)),
    decreases i,
{
    if i > 0 {
        lemma_dc_row_bounds(s, (i - 1) as nat);
        let prev = dc_row(s, (i - 1) as nat);
        assert forall|j: int| 0 <= j < dc_row(s, i).len() implies in_bounds(#[trigger] dc_row(s, i)[j]) by {
            assert(in_bounds(prev[j]));
            assert(in_bounds(prev[j + 1]));
            lemma_midpoint_bounds(prev[j], prev[j + 1]);
        }
    }
}

/// Both half-curves stay within the coordinate range of the original.
proof fn lemma_halves_bounds(s: Seq<Point>)
    requires
        all_in_bounds(s),
    ensures
        all_in_bounds(left_half(s)),
        all_in_bounds(right_half(s)),
{
    assert forall|i: int| 0 <= i < s.len() implies in_bounds(#[trigger] left_half(s)[i]) by {
        lemma_dc_row_len(s, i as nat);
        lemma_dc_row_bounds(s, i as nat);
    }
    assert forall|j: int| 0 <= j < s.len() implies in_bounds(#[trigger] right_half(s)[j]) by {
        lemma_dc_row_len(s, (s.len() - 1 - j) as nat);
        lemma_dc_row_bounds(s, (s.len() - 1 - j) as nat);
    }
}

/// Copies a vector of points.
pub(crate) fn copy_points(v: &Vec<Point>) -> (r: Vec<Point>)
    ensures
        r@ == v@,
{
    let mut r: Vec<Point> = Vec::new();
    let mut i: usize = 0;
    while i < v.len()
        invariant
            i <= v.len(),
            r@ == v@.subrange(0, i as int),
        decreases v.len() - i,
    {
        r.push(v[i]);
        i += 1;
    }
    assert(r@ =~= v@);
    r
}

/// A buffer of `n` origin points.
fn zero_buffer(n: usize) -> (r: Vec<Point>)
    ensures
        r@.len() == n,
        all_in_bounds(r@),
{
    let mut r: Vec<Point> = Vec::new();
    let mut i: usize = 0;
    while i < n
        invariant
            i <= n,
            r@.len() == i,
            all_in_bounds(r@),
        decreases n - i,
    {
        r.push(Point { x: 0, y: 0 });
        i += 1;
    }
    r
}

/// Component-wise midpoint of two in-range points.
fn midpoint(a: Point, b: Point) -> (m: Point)
    requires
        in_bounds(a),
        in_bounds(b),
    ensures
        m == midpoint_spec(a, b),
        in_bounds(m),
{
    let x = (a.x + b.x).checked_div_euclid(2).unwrap();
    let y = (a.y + b.y).checked_div_euclid(2).unwrap();
    Point { x, y }
}

/// Fills `l` (first point of every de Casteljau row) and `r` (last point of
/// every row, reversed) from one curve's control points, exactly as the
/// classic in-place subdivision does. Entries of `l` beyond the point count
/// are left untouched.
fn subdivide(control_points: &Vec<Point>, l: &mut Vec<Point>, r: &mut Vec<Point>)
    requires
        1 <= control_points@.len(),
        all_in_bounds(control_points@),
        control_points@.len() <= old(l)@.len(),
        old(r)@.len() == control_points@.len(),
    ensures
        final(l)@.len() == old(l)@.len(),
        final(r)@.len() == old(r)@.len(),
        final(l)@.subrange(0, control_points@.len() as int) == left_half(control_points@),
        final(l)@.subrange(control_points@.len() as int, final(l)@.len() as int) == old(
            l,
        )@.subrange(control_points@.len() as int, final(l)@.len() as int),
        final(r)@ == right_half(control_points@),
{
    let count = control_points.len();
    let ghost s = control_points@;
    let mut midpoints: Vec<Point> = copy_points(control_points);
    proof {
        assert(midpoints@.subrange(0, count as int) =~= dc_row(s, 0));
    }
    let mut i: usize = 0;
    while i < count
        invariant
            i <= count,
            count == s.len(),
            all_in_bounds(s),
            midpoints@.len() == count,
            all_in_bounds(midpoints@),
            midpoints@.subrange(0, (count - i) as int) == dc_row(s, i as nat),
            l@.len() == old(l)@.len(),
            count <= l@.len(),
            r@.len() == count,
            forall|k: int| 0 <= k < i ==> l@[k] == left_half(s)[k],
            forall|k: int| i <= k < l@.len() ==> l@[k] == old(l)@[k],
            forall|k: int| count - i <= k < count ==> r@[k] == right_half(s)[k],
            forall|k: int| 0 <= k < count - i ==> r@[k] == old(r)@[k],
        decreases count - i,
    {
        proof {
            lemma_dc_row_len(s, i as nat);
        }
        let row_len = count - i;
        l[i] = midpoints[0];
        r[row_len - 1] = midpoints[row_len - 1];
        proof {
            assert(midpoints@.subrange(0, row_len as int)[0] == dc_row(s, i as nat)[0]);
            assert(l@[i as int] == left_half(s)[i as int]);
            assert(midpoints@.subrange(0, row_len as int)[row_len - 1] == dc_row(
                s,
                i as nat,
            )[row_len - 1]);
            assert(right_half(s)[row_len - 1] == dc_row(s, (s.len() - 1 - (row_len - 1)) as nat)[row_len
                - 1]);
            assert(r@[row_len - 1] == right_half(s)[row_len - 1]);
        }
        let mut j: usize = 0;
        while j < row_len - 1
            invariant
                i < count,
                count == s.len(),
                row_len == count - i,
                all_in_bounds(s),
                midpoints@.len() == count,
                all_in_bounds(midpoints@),
                j <= row_len - 1,
                forall|k: int| 0 <= k < j ==> midpoints@[k] == dc_row(s, (i + 1) as nat)[k],
                forall|k: int| j <= k < row_len ==> midpoints@[k] == dc_row(s, i as nat)[k],
            decreases row_len - 1 - j,
        {
            proof {
                lemma_dc_row_len(s, i as nat);
                lemma_dc_row_len(s, (i + 1) as nat);
            }
            let m = midpoint(midpoints[j], midpoints[j + 1]);
            midpoints[j] = m;
            proof {
                assert(dc_row(s, (i + 1) as nat) == midpoint_row(dc_row(s, i as nat)));
                assert(dc_row(s, (i + 1) as nat)[j as int] == midpoint_spec(
                    dc_row(s, i as nat)[j as int],
                    dc_row(s, i as nat)[j + 1],
                ));
            }
            j += 1;
        }
        proof {
            lemma_dc_row_len(s, (i + 1) as nat);
            assert(midpoints@.subrange(0, (count - (i + 1)) as int) =~= dc_row(s, (i + 1) as nat));
        }
        i += 1;
    }
    proof {
        assert(l@.subrange(0, count as int) =~= left_half(s));
        assert(l@.subrange(count as int, l@.len() as int) =~= old(l)@.subrange(
            count as int,
            l@.len() as int,
        ));
        assert(r@ =~= right_half(s));
    }
}

/// Both subdivision halves laid out in one row: the left half followed by
/// the right half without its first point (`2n - 1` points in all).
pub open spec fn big_row(s: Seq<Point>) -> Seq<Point> {
    left_half(s) + right_half(s).subrange(1, s.len() as int)
}

/// The polyline one flat-enough curve contributes, final endpoint excluded:
/// its first control point, then one 1-4-1 smoothed vertex per interior
/// control point, taken from the subdivided row.
pub open spec fn approx_points(s: Seq<Point>) -> Seq<Point> {
    if s.len() < 2 {
        seq![s[0]]
    } else {
        seq![s[0]] + Seq::new(
            (s.len() - 2) as nat,
            |i: int| smooth_spec(big_row(s)[2 * i + 2], big_row(s)[2 * i + 1], big_row(s)[2 * i + 3]),
        )
    }
}

/// The 1-4-1 smoothing average of three in-range points.
fn smooth_point(m: Point, a: Point, b: Point) -> (p: Point)
    requires
        in_bounds(m),
        in_bounds(a),
        in_bounds(b),
    ensures
        p == smooth_spec(m, a, b),
        in_bounds(p),
{
    let x = (2 * m.x + a.x + b.x).checked_div_euclid(4).unwrap();
    let y = (2 * m.y + a.y + b.y).checked_div_euclid(4).unwrap();
    Point { x, y }
}

/// Emits the polyline vertices of one flat-enough curve into `output`:
/// first control point verbatim, then the smoothed interior vertices.
fn approximate(control_points: &Vec<Point>, output: &mut Vec<Point>)
    requires
        1 <= control_points@.len() < MAX_CONTROL_POINTS,
        all_in_bounds(control_points@),
    ensures
        final(output)@ == old(output)@ + approx_points(control_points@),
{
    let count = control_points.len();
    let ghost s = control_points@;
    let mut l = zero_buffer(2 * count - 1);
    let mut r = zero_buffer(count);
    subdivide(control_points, &mut l, &mut r);
    proof {
        lemma_halves_bounds(s);
        assert forall|k: int| 0 <= k < l@.len() implies in_bounds(#[trigger] l@[k]) by {
            if k < count {
                assert(l@[k] == l@.subrange(0, count as int)[k]);
            } else {
                assert(l@[k] == l@.subrange(count as int, l@.len() as int)[k - count]);
            }
        }
    }
    let mut i: usize = 0;
    while i < count - 1
        invariant
            count == s.len(),
            1 <= count < MAX_CONTROL_POINTS,
            i <= count - 1,
            all_in_bounds(s),
            all_in_bounds(right_half(s)),
            l@.len() == 2 * count - 1,
            r@ == right_half(s),
            l@.subrange(0, count as int) == left_half(s),
            forall|k: int| 0 <= k < i ==> #[trigger] l@[count + k] == right_half(s)[k + 1],
            all_in_bounds(l@),
        decreases count - 1 - i,
    {
        l[count + i] = r[i + 1];
        proof {
            assert(l@.subrange(0, count as int) =~= left_half(s));
        }
        i += 1;
    }
    proof {
        assert forall|k: int| 0 <= k < 2 * count - 1 implies l@[k] == big_row(s)[k] by {
            if k < count {
                assert(l@[k] == l@.subrange(0, count as int)[k]);
            } else {
                let k2 = k - count;
                assert(l@[count + k2] == right_half(s)[k2 + 1]);
            }
        }
        assert(l@ =~= big_row(s));
        assert(all_in_bounds(big_row(s)));
    }
    output.push(control_points[0]);
    let mut i: usize = 1;
    while i < count - 1
        invariant
            count == s.len(),
            1 <= count < MAX_CONTROL_POINTS,
            1 <= i,
            i <= count - 1 || i == 1,
            all_in_bounds(s),
            l@ == big_row(s),
            all_in_bounds(l@),
            l@.len() == 2 * count - 1,
            output@ == old(output)@ + approx_points(s).subrange(0, i as int),
        decreases count - 1 - i,
    {
        let p = smooth_point(l[2 * i], l[2 * i - 1], l[2 * i + 1]);
        output.push(p);
        proof {
            assert(approx_points(s)[i as int] == smooth_spec(
                big_row(s)[2 * i],
                big_row(s)[2 * i - 1],
                big_row(s)[2 * i + 1],
            ));
            assert(output@ =~= old(output)@ + approx_points(s).subrange(0, i + 1));
        }
        i += 1;
    }
    proof {
        assert(approx_points(s).subrange(0, approx_points(s).len() as int) =~= approx_points(s));
    }
}

/// Whether every interior second difference of the control polygon is within
/// the squared tolerance; a curve that passes is emitted without further
/// subdivision.
pub fn is_flat_enough(control_points: &Vec<Point>, tolerance_sq: i64) -> (flat: bool)
    requires
        all_in_bounds(control_points@),
    ensures
        flat == flat_enough_spec(control_points@, tolerance_sq as int),
{
    let count = control_points.len();
    let ghost s = control_points@;
    if count < 3 {
        return true;
    }
    let mut i: usize = 1;
    while i < count - 1
        invariant
            control_points@ == s,
            count == s.len(),
            3 <= count,
            1 <= i <= count - 1,
            all_in_bounds(s),
            forall|k: int|
                1 <= k < i ==> second_diff_sq(s[k - 1], #[trigger] s[k], s[k + 1])
                    <= tolerance_sq,
        decreases count - 1 - i,
    {
        let a = control_points[i - 1];
        let b = control_points[i];
        let c = control_points[i + 1];
        let dx = a.x - 2 * b.x + c.x;
        let dy = a.y - 2 * b.y + c.y;
        proof {
            assert(0 <= dx * dx <= 0x2000000 * 0x2000000) by (nonlinear_arith)
                requires -0x2000000 <= dx <= 0x2000000;
            assert(0 <= dy * dy <= 0x2000000 * 0x2000000) by (nonlinear_arith)
                requires -0x2000000 <= dy <= 0x2000000;
        }
        if dx * dx + dy * dy > tolerance_sq {
            assert(second_diff_sq(s[i - 1], s[i as int], s[i + 1]) > tolerance_sq);
            return false;
        }
        i += 1;
    }
    true
}

/// The polyline of one segment, final endpoint excluded: subdivide until the
/// polygon is flat enough (or the depth budget runs out), emitting the
/// smoothed vertices of every flat piece from left to right.
pub open spec fn flatten_rec_spec(s: Seq<Point>, tolerance_sq: int, depth: nat) -> Seq<Point>
    decreases depth,
{
    if depth == 0 || flat_enough_spec(s, tolerance_sq) {
        approx_points(s)
    } else {
        flatten_rec_spec(left_half(s), tolerance_sq, (depth - 1) as nat) + flatten_rec_spec(
            right_half(s),
            tolerance_sq,
            (depth - 1) as nat,
        )
    }
}

/// The full polyline of one segment: the recursive emission followed by the
/// final control point verbatim; an empty segment yields nothing.
pub open spec fn flatten_full_spec(s: Seq<Point>, tolerance_sq: int) -> Seq<Point> {
    if s.len() == 0 {
        Seq::empty()
    } else {
        flatten_rec_spec(s, tolerance_sq, MAX_SUBDIVISIONS as nat) + seq![s.last()]
    }
}

fn flatten_rec(control_points: Vec<Point>, tolerance_sq: i64, depth: u32, output: &mut Vec<Point>)
    requires
        1 <= control_points@.len() < MAX_CONTROL_POINTS,
        all_in_bounds(control_points@),
    ensures
        final(output)@ == old(output)@ + flatten_rec_spec(
            control_points@,
            tolerance_sq as int,
            depth as nat,
        ),
    decreases depth,
{
    if depth == 0 || is_flat_enough(&control_points, tolerance_sq) {
        approximate(&control_points, output);
        return;
    }
    let count = control_points.len();
    let ghost s = control_points@;
    let mut l = zero_buffer(count);
    let mut r = zero_buffer(count);
    subdivide(&control_points, &mut l, &mut r);
    proof {
        lemma_halves_bounds(s);
        assert(l@ =~= left_half(s));
    }
    flatten_rec(l, tolerance_sq, depth - 1, output);
    flatten_rec(r, tolerance_sq, depth - 1, output);
    proof {
        assert(output@ =~= old(output)@ + flatten_rec_spec(s, tolerance_sq as int, depth as nat));
    }
}

/// Flattens one Bézier segment into `output`: the recursive subdivision
/// emission followed by the segment's final control point. An empty segment
/// appends nothing.
pub fn create_singlebezier(output: &mut Vec<Point>, control_points: Vec<Point>, tolerance_sq: i64)
    requires
        control_points@.len() < MAX_CONTROL_POINTS,
        all_in_bounds(control_points@),
    ensures
        final(output)@ == old(output)@ + flatten_full_spec(control_points@, tolerance_sq as int),
{
    let ghost s = control_points@;
    if control_points.len() == 0 {
        return;
    }
    let last = control_points[control_points.len() - 1];
    flatten_rec(control_points, tolerance_sq, MAX_SUBDIVISIONS, output);
    output.push(last);
    proof {
        assert(output@ =~= old(output)@ + flatten_full_spec(s, tolerance_sq as int));
    }
}

/// The segments the scan from state `(start, i)` still emits: a segment ends
/// at a join marker (a point equal to its successor, the last two positions
/// excepted) or at the end of the sequence, and the point after a marker
/// opens the next segment.
pub open spec fn split_segments_from(s: Seq<Point>, start: int, i: int) -> Seq<Seq<Point>>
    decreases s.len() - i,
{
    if i >= s.len() {
        Seq::empty()
    } else if i < s.len() - 2 && s[i] == s[i + 1] {
        seq![s.subrange(start, i + 1)] + split_segments_from(s, i + 1, i + 2)
    } else if i == s.len() - 1 {
        seq![s.subrange(start, i + 1)] + split_segments_from(s, i, i + 1)
    } else {
        split_segments_from(s, start, i + 1)
    }
}

/// The independent Bézier segments of a composite control-point sequence.
pub open spec fn split_segments(s: Seq<Point>) -> Seq<Seq<Point>> {
    split_segments_from(s, 0, 0)
}

/// Some segment of the sequence has exactly two control points: a straight
/// line, which the flattener does not implement.
pub open spec fn has_short_segment(s: Seq<Point>) -> bool {
    exists|j: int| 0 <= j < split_segments(s).len() && #[trigger] split_segments(s)[j].len() == 2
}

/// The concatenated polylines of a list of segments, in order.
pub open spec fn flatten_all(segments: Seq<Seq<Point>>, tolerance_sq: int) -> Seq<Point>
    decreases segments.len(),
{
    if segments.len() == 0 {
        Seq::empty()
    } else {
        flatten_full_spec(segments[0], tolerance_sq) + flatten_all(
            segments.drop_first(),
            tolerance_sq,
        )
    }
}

/// The full output of the composite splitter: every segment flattened, in
/// original order.
pub open spec fn split_points(s: Seq<Point>, tolerance_sq: int) -> Seq<Point> {
    flatten_all(split_segments(s), tolerance_sq)
}

proof fn lemma_flatten_all_push(segments: Seq<Seq<Point>>, seg: Seq<Point>, tolerance_sq: int)
    ensures
        flatten_all(segments + seq![seg], tolerance_sq) == flatten_all(segments, tolerance_sq)
            + flatten_full_spec(seg, tolerance_sq),
    decreases segments.len(),
{
    if segments.len() == 0 {
        let one = segments + seq![seg];
        assert(one.len() == 1 && one[0] == seg);
        assert(one.drop_first() =~= Seq::<Seq<Point>>::empty());
        assert(flatten_all(one, tolerance_sq) == flatten_full_spec(seg, tolerance_sq)
            + flatten_all(one.drop_first(), tolerance_sq));
        assert(flatten_all(one, tolerance_sq) =~= flatten_all(segments, tolerance_sq)
            + flatten_full_spec(seg, tolerance_sq));
    } else {
        assert((segments + seq![seg]).drop_first() =~= segments.drop_first() + seq![seg]);
        lemma_flatten_all_push(segments.drop_first(), seg, tolerance_sq);
        assert(flatten_all(segments + seq![seg], tolerance_sq) =~= flatten_all(
            segments,
            tolerance_sq,
        ) + flatten_full_spec(seg, tolerance_sq));
    }
}

/// Copies the half-open range `[from, to)` of a vector of points.
fn copy_range(v: &Vec<Point>, from: usize, to: usize) -> (r: Vec<Point>)
    requires
        from <= to <= v@.len(),
    ensures
        r@ == v@.subrange(from as int, to as int),
{
    let mut r: Vec<Point> = Vec::new();
    let mut i: usize = from;
    while i < to
        invariant
            from <= i <= to <= v@.len(),
            r@ == v@.subrange(from as int, i as int),
        decreases to - i,
    {
        r.push(v[i]);
        proof {
            assert(r@ =~= v@.subrange(from as int, i + 1));
        }
        i += 1;
    }
    r
}

/// Scans a composite control-point sequence, flattening each segment between
/// join markers into `output`. Returns the error instead as soon as any
/// segment is a two-point straight line.
fn create_bezier(output: &mut Vec<Point>, control_points: &Vec<Point>, tolerance_sq: i64) -> (res:
    Result<(), CurveError>)
    requires
        control_points@.len() < MAX_CONTROL_POINTS,
        all_in_bounds(control_points@),
    ensures
        res is Err <==> has_short_segment(control_points@),
        res is Ok ==> final(output)@ == old(output)@ + split_points(
            control_points@,
            tolerance_sq as int,
        ),
{
    let count = control_points.len();
    let ghost s = control_points@;
    let mut last_index: usize = 0;
    let mut i: usize = 0;
    let ghost mut done: Seq<Seq<Point>> = Seq::empty();
    while i < count
        invariant
            control_points@ == s,
            count == s.len(),
            count < MAX_CONTROL_POINTS,
            all_in_bounds(s),
            last_index <= i <= count,
            split_segments(s) == done + split_segments_from(s, last_index as int, i as int),
            output@ == old(output)@ + flatten_all(done, tolerance_sq as int),
            forall|j: int| 0 <= j < done.len() ==> (#[trigger] done[j]).len() != 2,
        decreases count - i,
    {
        let multipart = i + 2 < count && {
            let a = control_points[i];
            let b = control_points[i + 1];
            a == b
        };
        if multipart || i == count - 1 {
            let sub = copy_range(control_points, last_index, i + 1);
            let ghost seg = s.subrange(last_index as int, i + 1);
            proof {
                assert(split_segments_from(s, last_index as int, i as int) == seq![seg]
                    + split_segments_from(
                    s,
                    if multipart { i + 1 } else { i as int },
                    if multipart { i + 2 } else { i + 1 },
                ));
            }
            if sub.len() == 2 {
                proof {
                    let segs = split_segments(s);
                    assert(segs[done.len() as int] == seg);
                    assert(segs[done.len() as int].len() == 2);
                }
                return Err(CurveError::UnsupportedSegmentKind);
            }
            create_singlebezier(output, sub, tolerance_sq);
            proof {
                lemma_flatten_all_push(done, seg, tolerance_sq as int);
                done = done + seq![seg];
            }
            if multipart {
                i += 1;
            }
            last_index = i;
        }
        i += 1;
    }
    proof {
        assert(split_segments(s) =~= done);
    }
    Ok(())
}

/// Splits a composite control-point sequence at duplicated adjacent points
/// and flattens every segment with the given squared tolerance, returning
/// one concatenated polyline. A two-point segment (a straight line) is not
/// implemented and is reported as `UnsupportedSegmentKind`.
pub fn get_bezier_with_tolerance(control_points: Vec<Point>, tolerance_sq: i64) -> (r: Result<
    Vec<Point>,
    CurveError,
>)
    requires
        control_points@.len() < MAX_CONTROL_POINTS,
        all_in_bounds(control_points@),
    ensures
        r is Err <==> has_short_segment(control_points@),
        r is Err ==> r == Err::<Vec<Point>, CurveError>(CurveError::UnsupportedSegmentKind),
        r matches Ok(out) ==> out@ == split_points(control_points@, tolerance_sq as int),
{
    let mut output: Vec<Point> = Vec::new();
    match create_bezier(&mut output, &control_points, tolerance_sq) {
        Ok(()) => Ok(output),
        Err(e) => Err(e),
    }
}

/// `get_bezier_with_tolerance` at the default flatness tolerance of half a
/// unit.
pub fn get_bezier(control_points: Vec<Point>) -> (r: Result<Vec<Point>, CurveError>)
    requires
        control_points@.len() < MAX_CONTROL_POINTS,
        all_in_bounds(control_points@),
    ensures
        r is Err <==> has_short_segment(control_points@),
        r is Err ==> r == Err::<Vec<Point>, CurveError>(CurveError::UnsupportedSegmentKind),
        r matches Ok(out) ==> out@ == split_points(control_points@, BEZIER_TOLERANCE_SQ as int),
{
    get_bezier_with_tolerance(control_points, BEZIER_TOLERANCE_SQ)
}

proof fn lemma_flatten_rec_first(s: Seq<Point>, tolerance_sq: int, depth: nat)
    requires
        s.len() >= 1,
    ensures
        flatten_rec_spec(s, tolerance_sq, depth).len() >= 1,
        flatten_rec_spec(s, tolerance_sq, depth)[0] == s[0],
    decreases depth,
{
    if depth == 0 || flat_enough_spec(s, tolerance_sq) {
    } else {
        assert(left_half(s)[0] == dc_row(s, 0)[0]);
        lemma_flatten_rec_first(left_half(s), tolerance_sq, (depth - 1) as nat);
    }
}

/// Law: flattening one nonempty segment emits its first control point first
/// and its last control point last, both verbatim.
pub proof fn lemma_flatten_first_last(s: Seq<Point>, tolerance_sq: int)
    requires
        s.len() >= 1,
    ensures
        flatten_full_spec(s, tolerance_sq).len() >= 2,
        flatten_full_spec(s, tolerance_sq)[0] == s[0],
        flatten_full_spec(s, tolerance_sq).last() == s.last(),
{
    lemma_flatten_rec_first(s, tolerance_sq, MAX_SUBDIVISIONS as nat);
}

proof fn lemma_no_marker_single_segment(s: Seq<Point>, start: int, i: int)
    requires
        0 <= start <= i <= s.len() - 1,
        forall|k: int| i <= k < s.len() - 2 ==> #[trigger] s[k] != s[k + 1],
    ensures
        split_segments_from(s, start, i) == seq![s.subrange(start, s.len() as int)],
    decreases s.len() - i,
{
    if i == s.len() - 1 {
        reveal_with_fuel(split_segments_from, 2);
        assert(split_segments_from(s, start, i) =~= seq![s.subrange(start, s.len() as int)]);
    } else {
        lemma_no_marker_single_segment(s, start, i + 1);
    }
}

proof fn lemma_scan_to_marker(s: Seq<Point>, start: int, i: int, k: int)
    requires
        0 <= start <= i <= k,
        k < s.len() - 2,
        s[k] == s[k + 1],
        forall|j: int| i <= j < k ==> #[trigger] s[j] != s[j + 1],
    ensures
        split_segments_from(s, start, i) == seq![s.subrange(start, k + 1)] + split_segments_from(
            s,
            k + 1,
            k + 2,
        ),
    decreases k - i,
{
    if i < k {
        lemma_scan_to_marker(s, start, i + 1, k);
    }
}

/// Law: a sequence with exactly one join marker splits into exactly the two
/// halves around it, and the splitter's output is the concatenation of the
/// two halves' independent flattenings. The point at the marker ends the
/// first half and its duplicate opens the second.
pub proof fn lemma_composite_concat(s: Seq<Point>, k: int, tolerance_sq: int)
    requires
        0 <= k < s.len() - 2,
        s[k] == s[k + 1],
        forall|j: int| 0 <= j < s.len() - 2 && j != k ==> #[trigger] s[j] != s[j + 1],
    ensures
        split_segments(s) == seq![s.subrange(0, k + 1), s.subrange(k + 1, s.len() as int)],
        split_points(s, tolerance_sq) == flatten_full_spec(s.subrange(0, k + 1), tolerance_sq)
            + flatten_full_spec(s.subrange(k + 1, s.len() as int), tolerance_sq),
{
    lemma_scan_to_marker(s, 0, 0, k);
    lemma_no_marker_single_segment(s, k + 1, k + 2);
    let first = s.subrange(0, k + 1);
    let second = s.subrange(k + 1, s.len() as int);
    assert(split_segments(s) =~= seq![first, second]);
    reveal_with_fuel(flatten_all, 3);
    let segs = seq![first, second];
    assert(segs.drop_first() =~= seq![second]);
    assert(seq![second].drop_first() =~= Seq::<Seq<Point>>::empty());
    assert(flatten_all(seq![second], tolerance_sq) =~= flatten_full_spec(second, tolerance_sq));
    assert(split_points(s, tolerance_sq) =~= flatten_full_spec(first, tolerance_sq)
        + flatten_full_spec(second, tolerance_sq));
}

proof fn lemma_segments_chain_from(s: Seq<Point>, start: int, i: int)
    requires
        0 <= start <= i < s.len(),
    ensures
        split_segments_from(s, start, i).len() >= 1,
        forall|j: int|
            0 <= j < split_segments_from(s, start, i).len() ==> (#[trigger] split_segments_from(
                s,
                start,
                i,
            )[j]).len() >= 1,
        split_segments_from(s, start, i)[0][0] == s[start],
        split_segments_from(s, start, i).last().last() == s.last(),
        forall|j: int|
            0 <= j < split_segments_from(s, start, i).len() - 1 ==> (#[trigger] split_segments_from(
                s,
                start,
                i,
            )[j + 1])[0] == split_segments_from(s, start, i)[j].last(),
    decreases s.len() - i,
{
    let segs = split_segments_from(s, start, i);
    if i < s.len() - 2 && s[i] == s[i + 1] {
        lemma_segments_chain_from(s, i + 1, i + 2);
        let rest = split_segments_from(s, i + 1, i + 2);
        let seg = s.subrange(start, i + 1);
        assert(segs == seq![seg] + rest);
        assert(seg.last() == s[i]);
        assert(rest[0][0] == s[i + 1]);
        assert forall|j: int| 0 <= j < segs.len() - 1 implies (#[trigger] segs[j + 1])[0]
            == segs[j].last() by {
            if j == 0 {
                assert(segs[1] == rest[0]);
                assert(segs[0] == seg);
            } else {
                assert(segs[j] == rest[j - 1] && segs[j + 1] == rest[j]);
                assert(rest[(j - 1) + 1][0] == rest[j - 1].last());
            }
        }
    } else if i == s.len() - 1 {
        reveal_with_fuel(split_segments_from, 2);
        assert(segs =~= seq![s.subrange(start, s.len() as int)]);
    } else {
        lemma_segments_chain_from(s, start, i + 1);
    }
}

/// Law: the splitter's segments form one continuous path. Every segment is
/// nonempty; the first segment opens with the sequence's first point, the
/// last segment closes with its last point, and each later segment opens
/// with exactly the point that closed the one before it (the join marker's
/// duplicate). With `lemma_flatten_first_last`, the concatenated polylines
/// of all segments meet exactly at those join points.
pub proof fn lemma_segments_continuous(s: Seq<Point>)
    requires
        s.len() >= 1,
    ensures
        split_segments(s).len() >= 1,
        forall|j: int|
            0 <= j < split_segments(s).len() ==> (#[trigger] split_segments(s)[j]).len() >= 1,
        split_segments(s)[0][0] == s[0],
        split_segments(s).last().last() == s.last(),
        forall|j: int|
            0 <= j < split_segments(s).len() - 1 ==> (#[trigger] split_segments(s)[j + 1])[0]
                == split_segments(s)[j].last(),
{
    lemma_segments_chain_from(s, 0, 0);
}

proof fn lemma_flatten_rec_min_len(s: Seq<Point>, tolerance_sq: int, depth: nat)
    requires
        s.len() >= 1,
    ensures
        flatten_rec_spec(s, tolerance_sq, depth).len() >= s.len() - 1,
    decreases depth,
{
    if depth == 0 || flat_enough_spec(s, tolerance_sq) {
    } else {
        lemma_flatten_rec_min_len(left_half(s), tolerance_sq, (depth - 1) as nat);
        lemma_flatten_rec_min_len(right_half(s), tolerance_sq, (depth - 1) as nat);
    }
}

proof fn lemma_tolerance_monotone_rec(s: Seq<Point>, coarse_sq: int, fine_sq: int, depth: nat)
    requires
        fine_sq <= coarse_sq,
        s.len() >= 1,
    ensures
        flatten_rec_spec(s, fine_sq, depth).len() >= flatten_rec_spec(s, coarse_sq, depth).len(),
    decreases depth,
{
    if depth == 0 {
    } else if flat_enough_spec(s, fine_sq) {
        assert(flat_enough_spec(s, coarse_sq));
    } else if flat_enough_spec(s, coarse_sq) {
        // not flat at the fine tolerance: there is an interior point, so the
        // segment has at least three points and each half re-emits at least
        // `len - 1` vertices, no fewer than the single flat emission.
        assert(s.len() >= 3);
        lemma_flatten_rec_min_len(left_half(s), fine_sq, (depth - 1) as nat);
        lemma_flatten_rec_min_len(right_half(s), fine_sq, (depth - 1) as nat);
    } else {
        lemma_tolerance_monotone_rec(left_half(s), coarse_sq, fine_sq, (depth - 1) as nat);
        lemma_tolerance_monotone_rec(right_half(s), coarse_sq, fine_sq, (depth - 1) as nat);
    }
}

/// Law: for one segment, tightening the flatness tolerance never decreases
/// the number of emitted points.
pub proof fn lemma_finer_tolerance_no_fewer_points(s: Seq<Point>, coarse_sq: int, fine_sq: int)
    requires
        fine_sq <= coarse_sq,
    ensures
        flatten_full_spec(s, fine_sq).len() >= flatten_full_spec(s, coarse_sq).len(),
{
    if s.len() >= 1 {
        lemma_tolerance_monotone_rec(s, coarse_sq, fine_sq, MAX_SUBDIVISIONS as nat);
    }
}

proof fn lemma_flatten_all_monotone(segments: Seq<Seq<Point>>, coarse_sq: int, fine_sq: int)
    requires
        fine_sq <= coarse_sq,
    ensures
        flatten_all(segments, fine_sq).len() >= flatten_all(segments, coarse_sq).len(),
    decreases segments.len(),
{
    if segments.len() > 0 {
        lemma_finer_tolerance_no_fewer_points(segments[0], coarse_sq, fine_sq);
        lemma_flatten_all_monotone(segments.drop_first(), coarse_sq, fine_sq);
    }
}

/// Law: for a whole composite sequence, tightening the flatness tolerance
/// never decreases the number of emitted points.
pub proof fn lemma_split_finer_tolerance_no_fewer_points(
    s: Seq<Point>,
    coarse_sq: int,
    fine_sq: int,
)
    requires
        fine_sq <= coarse_sq,
    ensures
        split_points(s, fine_sq).len() >= split_points(s, coarse_sq).len(),
{
    lemma_flatten_all_monotone(split_segments(s), coarse_sq, fine_sq);
}

/// Law: a composite sequence whose control points are pairwise distinct is a
/// single segment, and its flattened polyline keeps the original first and
/// last control points verbatim.
pub proof fn lemma_distinct_points_first_last(s: Seq<Point>, tolerance_sq: int)
    requires
        s.len() >= 3,
        forall|a: int, b: int| 0 <= a < b < s.len() ==> s[a] != s[b],
    ensures
        !has_short_segment(s),
        split_points(s, tolerance_sq).len() >= 2,
        split_points(s, tolerance_sq)[0] == s[0],
        split_points(s, tolerance_sq).last() == s.last(),
{
    assert forall|k: int| 0 <= k < s.len() - 2 implies #[trigger] s[k] != s[k + 1] by {
        assert(s[k] != s[k + 1]);
    }
    lemma_no_marker_single_segment(s, 0, 0);
    let whole = s.subrange(0, s.len() as int);
    assert(whole =~= s);
    assert(split_segments(s) == seq![s]);
    reveal_with_fuel(flatten_all, 2);
    assert(seq![s].drop_first() =~= Seq::<Seq<Point>>::empty());
    assert(flatten_all(seq![s].drop_first(), tolerance_sq) == Seq::<Point>::empty());
    assert(split_points(s, tolerance_sq) =~= flatten_full_spec(s, tolerance_sq));
    lemma_flatten_first_last(s, tolerance_sq);
    assert forall|j: int| 0 <= j < split_segments(s).len() implies (#[trigger] split_segments(
        s,
    )[j]).len() != 2 by {
        assert(split_segments(s)[j] == s);
    }
}

} // verus!
