//! Fixed-point scalar math for the circular-arc approximator: exact integer
//! square root and polynomial approximations of sine, cosine, arctangent and
//! arccosine.
//!
//! Angles are `i64` values scaled by `2^ANGLE_FRAC_BITS` (radians times
//! `2^20`). Every executable function mirrors an `open spec` function
//! exactly, so callers can reason about the emitted values; the polynomial
//! results additionally carry proved range bounds.

use vstd::prelude::*;

verus! {

/// Number of fractional bits in a fixed-point angle.
pub const ANGLE_FRAC_BITS: u32 = 20;

/// One radian unit in fixed-point angles (`2^20`).
pub const ANGLE_ONE: i64 = 1048576;

/// Pi in fixed-point angle units (`round(pi * 2^20)`).
pub const PI_FIXED: i64 = 3294199;

/// Two pi in fixed-point angle units (`2 * PI_FIXED`).
pub const TWO_PI_FIXED: i64 = 6588398;

/// Half pi in fixed-point angle units, rounded up so that four quadrants
/// cover a full turn.
pub const HALF_PI_FIXED: i64 = 1647100;

/// Quarter pi in fixed-point angle units.
pub const QUARTER_PI_FIXED: i64 = 823550;

/// Tangent of pi over eight in fixed-point angle units; the threshold for
/// the arctangent half-angle reduction.
pub const TAN_EIGHTH_FIXED: i64 = 434322;

/// Product bounds from factor bounds, for overflow reasoning.
pub proof fn lemma_mul_bounds(p: int, q: int, pb: int, qb: int)
    requires
        -pb <= p <= pb,
        -qb <= q <= qb,
        0 <= pb,
        0 <= qb,
    ensures
        -pb * qb <= p * q <= pb * qb,
{
    assert(-pb * qb <= p * q <= pb * qb) by (nonlinear_arith)
        requires -pb <= p <= pb, -qb <= q <= qb, 0 <= pb, 0 <= qb;
}

/// Euclidean division, which the arc code uses for every fixed-point
/// rescaling: the remainder is never negative, so quotients round toward
/// negative infinity for positive divisors.
pub fn div_fix(a: i64, b: i64) -> (q: i64)
    requires
        b >= 1,
    ensures
        q == a as int / b as int,
        b * q <= a < b * (q + 1),
{
    proof {
        vstd::arithmetic::div_mod::lemma_fundamental_div_mod(a as int, b as int);
        assert(b * (a as int / b as int) == a - a as int % b as int);
        assert(b * (a as int / b as int + 1) == b * (a as int / b as int) + b) by (nonlinear_arith);
        if a >= 0 {
            assert(a as int / b as int <= a) by (nonlinear_arith)
                requires a >= 0, b >= 1;
            assert(a as int / b as int >= 0) by (nonlinear_arith)
                requires a >= 0, b >= 1;
        } else {
            assert(a <= a as int / b as int <= 0) by (nonlinear_arith)
                requires a < 0, b >= 1;
        }
    }
    a.checked_div_euclid(b).unwrap()
}

/// Euclidean remainder for a positive modulus.
pub fn rem_fix(a: i64, b: i64) -> (r: i64)
    requires
        b >= 1,
    ensures
        r == a as int % b as int,
        0 <= r < b,
{
    a.checked_rem_euclid(b).unwrap()
}

/// Division rounding up, for nonnegative numerators.
pub fn div_ceil_fix(a: i64, b: i64) -> (q: i64)
    requires
        1 <= b <= 0x1_0000_0000,
        0 <= a <= 0x4000_0000_0000_0000,
    ensures
        q == (a + b - 1) as int / b as int,
        a >= 1 ==> q >= 1,
        a <= b * q,
{
    proof {
        vstd::arithmetic::div_mod::lemma_fundamental_div_mod((a + b - 1) as int, b as int);
        let qq = (a + b - 1) as int / b as int;
        assert(b * qq == a + b - 1 - ((a + b - 1) as int % b as int));
        assert(a <= b * qq);
        if a >= 1 {
            assert(qq >= 1) by (nonlinear_arith)
                requires b * qq >= a, a >= 1, b >= 1, qq == (a + b - 1) as int / b as int,
            ;
        }
    }
    div_fix(a + b - 1, b)
}

/// Integer square root, defined by repeated halving of the radicand.
pub open spec fn isqrt_spec(n: int) -> int
    decreases n,
{
    if n <= 0 {
        0
    } else {
        let h = 2 * isqrt_spec(n / 4);
        if (h + 1) * (h + 1) <= n {
            h + 1
        } else {
            h
        }
    }
}

/// The integer square root: the largest `r` with `r * r <= n`.
pub fn isqrt64(n: u64) -> (r: u64)
    requires
        n < 0x4000_0000_0000_0000,
    ensures
        r == isqrt_spec(n as int),
        r * r <= n < (r + 1) * (r + 1),
        r < 0x8000_0000,
    decreases n,
{
    if n == 0 {
        return 0;
    }
    let h = isqrt64(n / 4);
    proof {
        assert(4 * (n as int / 4) <= n < 4 * (n as int / 4) + 4);
        assert((2 * h) * (2 * h) <= n) by (nonlinear_arith)
            requires h * h <= n as int / 4, 4 * (n as int / 4) <= n as int;
        assert(n < (2 * h + 2) * (2 * h + 2)) by (nonlinear_arith)
            requires n as int / 4 < (h + 1) * (h + 1), n < 4 * (n as int / 4) + 4;
        assert(h < 0x4000_0000) by (nonlinear_arith)
            requires h * h <= n as int / 4, n < 0x4000_0000_0000_0000, h >= 0;
        assert((2 * h + 1) * (2 * h + 1) < 0x4000_0000_0000_0000) by (nonlinear_arith)
            requires 0 <= h < 0x4000_0000;
    }
    let c = 2 * h + 1;
    if c * c <= n {
        c
    } else {
        2 * h
    }
}

/// Odd Taylor polynomial for the arctangent on the reduced range.
pub open spec fn atan_small_spec(w: int) -> int {
    if w < 0 {
        -atan_small_pos_spec(-w)
    } else {
        atan_small_pos_spec(w)
    }
}

/// `z - z^3/3 + z^5/5 - z^7/7 + z^9/9` in fixed point, for `z >= 0`.
pub open spec fn atan_small_pos_spec(z: int) -> int {
    let one = ANGLE_ONE as int;
    let z2 = z * z / one;
    let z3 = z2 * z / one;
    let z5 = z2 * z3 / one;
    let z7 = z2 * z5 / one;
    let z9 = z2 * z7 / one;
    z - z3 / 3 + z5 / 5 - z7 / 7 + z9 / 9
}

fn atan_small_pos(z: i64) -> (r: i64)
    requires
        0 <= z <= 450000,
    ensures
        r == atan_small_pos_spec(z as int),
        -30000 <= r <= 460000,
        r <= z + 3200,
{
    proof {
        assert(0 <= z * z <= 450000 * 450000) by (nonlinear_arith)
            requires 0 <= z <= 450000;
    }
    let z2 = div_fix(z * z, ANGLE_ONE);
    assert(0 <= z2 <= 193120);
    proof {
        assert(0 <= z2 * z <= 193120 * 450000) by (nonlinear_arith)
            requires 0 <= z2 <= 193120, 0 <= z <= 450000;
    }
    let z3 = div_fix(z2 * z, ANGLE_ONE);
    assert(0 <= z3 <= 82880);
    proof {
        assert(0 <= z2 * z3 <= 193120 * 82880) by (nonlinear_arith)
            requires 0 <= z2 <= 193120, 0 <= z3 <= 82880;
    }
    let z5 = div_fix(z2 * z3, ANGLE_ONE);
    assert(0 <= z5 <= 15270);
    proof {
        assert(0 <= z2 * z5 <= 193120 * 15270) by (nonlinear_arith)
            requires 0 <= z2 <= 193120, 0 <= z5 <= 15270;
    }
    let z7 = div_fix(z2 * z5, ANGLE_ONE);
    assert(0 <= z7 <= 2820);
    proof {
        assert(0 <= z2 * z7 <= 193120 * 2820) by (nonlinear_arith)
            requires 0 <= z2 <= 193120, 0 <= z7 <= 2820;
    }
    let z9 = div_fix(z2 * z7, ANGLE_ONE);
    assert(0 <= z9 <= 520);
    z - div_fix(z3, 3) + div_fix(z5, 5) - div_fix(z7, 7) + div_fix(z9, 9)
}

fn atan_small(w: i64) -> (r: i64)
    requires
        -450000 <= w <= 450000,
    ensures
        r == atan_small_spec(w as int),
        -460000 <= r <= 460000,
        w <= 0 ==> r <= 30000,
        w >= 0 ==> r >= -30000,
{
    if w < 0 {
        -atan_small_pos(-w)
    } else {
        atan_small_pos(w)
    }
}

/// Arctangent on `[0, 1]` in fixed point: the Taylor polynomial directly
/// below `tan(pi/8)`, else the half-angle identity
/// `atan(z) = pi/4 + atan((z - 1) / (z + 1))`.
pub open spec fn atan_unit_spec(z: int) -> int {
    let one = ANGLE_ONE as int;
    if z <= TAN_EIGHTH_FIXED {
        atan_small_spec(z)
    } else {
        QUARTER_PI_FIXED + atan_small_spec((z - one) * one / (z + one))
    }
}

fn atan_unit(z: i64) -> (r: i64)
    requires
        0 <= z <= ANGLE_ONE,
    ensures
        r == atan_unit_spec(z as int),
        -30000 <= r <= 900000,
{
    if z <= TAN_EIGHTH_FIXED {
        atan_small(z)
    } else {
        let w = div_fix((z - ANGLE_ONE) * ANGLE_ONE, z + ANGLE_ONE);
        proof {
            let num = (z - ANGLE_ONE) as int * ANGLE_ONE as int;
            let den = (z + ANGLE_ONE) as int;
            assert(-614253 * 1048576 <= num <= 0);
            assert(den >= 1482899);
            assert(w as int == num / den && den * w <= num < den * (w + 1));
            assert(w <= 0) by (nonlinear_arith)
                requires den * w <= num, num <= 0, den >= 1;
            assert(w >= -450000) by (nonlinear_arith)
                requires
                    num < den * (w as int + 1),
                    num >= -614253 * 1048576,
                    den >= 1482899,
                    den <= 2097152,
                    w <= 0,
            ;
        }
        QUARTER_PI_FIXED + atan_small(w)
    }
}

/// Two-argument arctangent in fixed point, clamped into `[-pi, pi]`; both
/// arguments zero yields zero.
pub open spec fn atan2_spec(y: int, x: int) -> int {
    let one = ANGLE_ONE as int;
    if x == 0 && y == 0 {
        0
    } else {
        let ax = if x < 0 { -x } else { x };
        let ay = if y < 0 { -y } else { y };
        let base = if ay <= ax {
            atan_unit_spec(ay * one / ax)
        } else {
            HALF_PI_FIXED - atan_unit_spec(ax * one / ay)
        };
        let raw = if x >= 0 {
            if y >= 0 { base } else { -base }
        } else {
            if y >= 0 { PI_FIXED - base } else { -(PI_FIXED - base) }
        };
        if raw > PI_FIXED { PI_FIXED as int } else if raw < -PI_FIXED { -PI_FIXED as int } else { raw }
    }
}

/// Two-argument arctangent in fixed point.
pub fn atan2_fixed(y: i64, x: i64) -> (r: i64)
    requires
        -0x8000_0000 <= y <= 0x8000_0000,
        -0x8000_0000 <= x <= 0x8000_0000,
    ensures
        r == atan2_spec(y as int, x as int),
        -PI_FIXED <= r <= PI_FIXED,
{
    if x == 0 && y == 0 {
        return 0;
    }
    let ax = if x < 0 { -x } else { x };
    let ay = if y < 0 { -y } else { y };
    let base = if ay <= ax {
        let z = div_fix(ay * ANGLE_ONE, ax);
        proof {
            assert(0 <= ay * ANGLE_ONE <= ax * ANGLE_ONE) by (nonlinear_arith)
                requires 0 <= ay <= ax, ANGLE_ONE >= 1;
            let num = ay as int * ANGLE_ONE as int;
            let axi = ax as int;
            vstd::arithmetic::div_mod::lemma_fundamental_div_mod(num, axi);
            assert(axi * (num / axi) == num - num % axi);
            assert(num / axi <= ANGLE_ONE) by (nonlinear_arith)
                requires axi * (num / axi) <= num, num <= axi * ANGLE_ONE, axi >= 1;
            assert(num / axi >= 0) by (nonlinear_arith)
                requires
                    axi * (num / axi) == num - num % axi,
                    num >= 0,
                    axi >= 1,
                    num % axi < axi,
            ;
        }
        atan_unit(z)
    } else {
        let z = div_fix(ax * ANGLE_ONE, ay);
        proof {
            assert(0 <= ax * ANGLE_ONE <= ay * ANGLE_ONE) by (nonlinear_arith)
                requires 0 <= ax <= ay, ANGLE_ONE >= 1;
            let num = ax as int * ANGLE_ONE as int;
            let ayi = ay as int;
            vstd::arithmetic::div_mod::lemma_fundamental_div_mod(num, ayi);
            assert(ayi * (num / ayi) == num - num % ayi);
            assert(num / ayi <= ANGLE_ONE) by (nonlinear_arith)
                requires ayi * (num / ayi) <= num, num <= ayi * ANGLE_ONE, ayi >= 1;
            assert(num / ayi >= 0) by (nonlinear_arith)
                requires
                    ayi * (num / ayi) == num - num % ayi,
                    num >= 0,
                    ayi >= 1,
                    num % ayi < ayi,
            ;
        }
        HALF_PI_FIXED - atan_unit(z)
    };
    let raw = if x >= 0 {
        if y >= 0 { base } else { -base }
    } else {
        if y >= 0 { PI_FIXED - base } else { -(PI_FIXED - base) }
    };
    if raw > PI_FIXED {
        PI_FIXED
    } else if raw < -PI_FIXED {
        -PI_FIXED
    } else {
        raw
    }
}

/// Arccosine in fixed point: `atan2(sqrt(1 - x^2), x)`.
pub open spec fn acos_spec(x: int) -> int {
    let one = ANGLE_ONE as int;
    atan2_spec(isqrt_spec(one * one - x * x), x)
}

/// Arccosine of a fixed-point value in `[-1, 1]`.
pub fn acos_fixed(x: i64) -> (r: i64)
    requires
        -ANGLE_ONE <= x <= ANGLE_ONE,
    ensures
        r == acos_spec(x as int),
        -PI_FIXED <= r <= PI_FIXED,
{
    proof {
        assert(0 <= x * x <= ANGLE_ONE * ANGLE_ONE) by (nonlinear_arith)
            requires -ANGLE_ONE <= x <= ANGLE_ONE;
    }
    let d = ANGLE_ONE * ANGLE_ONE - x * x;
    let s = isqrt64(d as u64);
    proof {
        assert(s <= 0x200000) by (nonlinear_arith)
            requires s * s <= 0x100_0000_0000, s >= 0;
    }
    atan2_fixed(s as i64, x)
}

/// Sine Taylor polynomial on `[0, pi/4]` in fixed point.
pub open spec fn sin_poly_spec(z: int) -> int {
    let one = ANGLE_ONE as int;
    let z2 = z * z / one;
    let t1 = one - z2 / 42;
    let t2 = one - (z2 / 20) * t1 / one;
    let t3 = one - (z2 / 6) * t2 / one;
    z * t3 / one
}

/// Cosine Taylor polynomial on `[0, pi/4]` in fixed point.
pub open spec fn cos_poly_spec(z: int) -> int {
    let one = ANGLE_ONE as int;
    let z2 = z * z / one;
    let t1 = one - z2 / 56;
    let t2 = one - (z2 / 30) * t1 / one;
    let t3 = one - (z2 / 12) * t2 / one;
    one - (z2 / 2) * t3 / one
}

fn sin_poly(z: i64) -> (r: i64)
    requires
        0 <= z <= QUARTER_PI_FIXED,
    ensures
        r == sin_poly_spec(z as int),
        0 <= r <= ANGLE_ONE,
{
    proof {
        assert(0 <= z * z <= 823550 * 823550) by (nonlinear_arith)
            requires 0 <= z <= 823550;
    }
    let z2 = div_fix(z * z, ANGLE_ONE);
    assert(0 <= z2 <= 646850);
    let t1 = ANGLE_ONE - div_fix(z2, 42);
    assert(1033174 <= t1 <= ANGLE_ONE);
    let q20 = div_fix(z2, 20);
    assert(0 <= q20 <= 32350);
    proof {
        assert(0 <= q20 * t1 <= 32350 * 1048576) by (nonlinear_arith)
            requires 0 <= q20 <= 32350, 0 <= t1 <= 1048576;
    }
    let t2 = ANGLE_ONE - div_fix(q20 * t1, ANGLE_ONE);
    assert(1016226 <= t2 <= ANGLE_ONE);
    let q6 = div_fix(z2, 6);
    assert(0 <= q6 <= 107810);
    proof {
        assert(0 <= q6 * t2 <= 107810 * 1048576) by (nonlinear_arith)
            requires 0 <= q6 <= 107810, 0 <= t2 <= 1048576;
    }
    let t3 = ANGLE_ONE - div_fix(q6 * t2, ANGLE_ONE);
    assert(940766 <= t3 <= ANGLE_ONE);
    proof {
        assert(0 <= z * t3 <= 823550 * 1048576) by (nonlinear_arith)
            requires 0 <= z <= 823550, 0 <= t3 <= 1048576;
        assert(z * t3 <= z * 1048576) by (nonlinear_arith)
            requires 0 <= z, 0 <= t3 <= 1048576;
    }
    let r = div_fix(z * t3, ANGLE_ONE);
    r
}

fn cos_poly(z: i64) -> (r: i64)
    requires
        0 <= z <= QUARTER_PI_FIXED,
    ensures
        r == cos_poly_spec(z as int),
        0 <= r <= ANGLE_ONE,
{
    proof {
        assert(0 <= z * z <= 823550 * 823550) by (nonlinear_arith)
            requires 0 <= z <= 823550;
    }
    let z2 = div_fix(z * z, ANGLE_ONE);
    assert(0 <= z2 <= 646850);
    let t1 = ANGLE_ONE - div_fix(z2, 56);
    assert(1037025 <= t1 <= ANGLE_ONE);
    let q30 = div_fix(z2, 30);
    assert(0 <= q30 <= 21562);
    proof {
        assert(0 <= q30 * t1 <= 21562 * 1048576) by (nonlinear_arith)
            requires 0 <= q30 <= 21562, 0 <= t1 <= 1048576;
    }
    let t2 = ANGLE_ONE - div_fix(q30 * t1, ANGLE_ONE);
    assert(1027014 <= t2 <= ANGLE_ONE);
    let q12 = div_fix(z2, 12);
    assert(0 <= q12 <= 53905);
    proof {
        assert(0 <= q12 * t2 <= 53905 * 1048576) by (nonlinear_arith)
            requires 0 <= q12 <= 53905, 0 <= t2 <= 1048576;
    }
    let t3 = ANGLE_ONE - div_fix(q12 * t2, ANGLE_ONE);
    assert(994671 <= t3 <= ANGLE_ONE);
    let q2 = div_fix(z2, 2);
    assert(0 <= q2 <= 323425);
    proof {
        assert(0 <= q2 * t3 <= 323425 * 1048576) by (nonlinear_arith)
            requires 0 <= q2 <= 323425, 0 <= t3 <= 1048576;
    }
    let r = ANGLE_ONE - div_fix(q2 * t3, ANGLE_ONE);
    r
}

/// Sine and cosine of a fixed-point angle: quadrant reduction into
/// `[0, pi/2)`, then the `[0, pi/4]` polynomials and their co-function
/// identities.
pub open spec fn sincos_spec(theta: int) -> (int, int) {
    let t = theta % TWO_PI_FIXED as int;
    let q = t / HALF_PI_FIXED as int;
    let u = t % HALF_PI_FIXED as int;
    let sc = if u <= QUARTER_PI_FIXED {
        (sin_poly_spec(u), cos_poly_spec(u))
    } else {
        (cos_poly_spec(HALF_PI_FIXED - u), sin_poly_spec(HALF_PI_FIXED - u))
    };
    if q == 0 {
        sc
    } else if q == 1 {
        (sc.1, -sc.0)
    } else if q == 2 {
        (-sc.0, -sc.1)
    } else {
        (-sc.1, sc.0)
    }
}

/// Sine and cosine of a fixed-point angle, each in `[-1, 1]` fixed point.
pub fn sincos_fixed(theta: i64) -> (sc: (i64, i64))
    requires
        -16 * TWO_PI_FIXED <= theta <= 16 * TWO_PI_FIXED,
    ensures
        sc.0 == sincos_spec(theta as int).0,
        sc.1 == sincos_spec(theta as int).1,
        -ANGLE_ONE <= sc.0 <= ANGLE_ONE,
        -ANGLE_ONE <= sc.1 <= ANGLE_ONE,
{
    let t = rem_fix(theta, TWO_PI_FIXED);
    let q = div_fix(t, HALF_PI_FIXED);
    let u = rem_fix(t, HALF_PI_FIXED);
    proof {
        vstd::arithmetic::div_mod::lemma_fundamental_div_mod(t as int, HALF_PI_FIXED as int);
        assert(0 <= q <= 3) by (nonlinear_arith)
            requires
                HALF_PI_FIXED * q == t - t as int % HALF_PI_FIXED as int,
                0 <= t < TWO_PI_FIXED,
                0 <= (t as int % HALF_PI_FIXED as int) && (t as int % HALF_PI_FIXED as int)
                    < HALF_PI_FIXED,
                HALF_PI_FIXED == 1647100,
                TWO_PI_FIXED == 6588398,
        ;
    }
    let (s0, c0) = if u <= QUARTER_PI_FIXED {
        (sin_poly(u), cos_poly(u))
    } else {
        let v = HALF_PI_FIXED - u;
        (cos_poly(v), sin_poly(v))
    };
    if q == 0 {
        (s0, c0)
    } else if q == 1 {
        (c0, -s0)
    } else if q == 2 {
        (-s0, -c0)
    } else {
        (-c0, s0)
    }
}

} // verus!
