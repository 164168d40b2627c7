//! Fixed-point spherical trigonometry primitives.
//!
//! All angles are radians scaled by `SCALE` (`1e12`) and held in `i128`.
//! Unit-interval values (sines, cosines, haversine terms) use the same
//! scale.  Every function is total on its stated domain and has an exact
//! functional specification; truncated Taylor series and a CORDIC loop
//! supply the transcendental functions.

use vstd::arithmetic::div_mod::lemma_div_is_ordered;
use vstd::arithmetic::div_mod::lemma_div_multiples_vanish;
use vstd::arithmetic::div_mod::lemma_fundamental_div_mod;
use vstd::arithmetic::mul::lemma_mul_upper_bound;
use vstd::prelude::*;

verus! {

/// One unit of the fixed-point scale: values are multiples of `1e-12`.
pub const SCALE: i128 = 1_000_000_000_000;

/// `SCALE * SCALE`, the scale of squared unit-interval values.
pub const SCALE_SQ: i128 = 1_000_000_000_000_000_000_000_000;

/// Pi at `SCALE` (truncated).
pub const PI_FP: i128 = 3_141_592_653_589;

/// Pi / 2 at `SCALE` (truncated).
pub const HALF_PI_FP: i128 = 1_570_796_326_794;

/// 2 * Pi at `SCALE`: exactly `2 * PI_FP`.
pub const TWO_PI_FP: i128 = 6_283_185_307_178;

/// Absolute value over the mathematical integers.
pub open spec fn iabs(a: int) -> int {
    if a < 0 {
        -a
    } else {
        a
    }
}

/// Division truncated toward zero, as the machine performs it on
/// magnitudes; both machine operands in this crate are nonnegative or
/// sign-split before dividing.
pub open spec fn tdiv(a: int, b: int) -> int {
    if a >= 0 {
        a / b
    } else {
        -((-a) / b)
    }
}

/// Division of nonnegative values.
pub(crate) fn udiv(a: i128, b: i128) -> (r: i128)
    requires
        0 <= a,
        0 < b,
    ensures
        r == a as int / b as int,
        0 <= r <= a,
{
    proof {
        assert(a as int / b as int <= a) by (nonlinear_arith)
            requires
                0 <= a,
                0 < b,
        ;
        assert(0 <= a as int / b as int) by (nonlinear_arith)
            requires
                0 <= a,
                0 < b,
        ;
    }
    ((a as u128) / (b as u128)) as i128
}

/// Truncated division of a possibly negative value by a positive one.
pub(crate) fn tdiv_e(a: i128, b: i128) -> (r: i128)
    requires
        0 < b,
        -170_141_183_460_469_231_731_687_303_715_884_105_727 <= a,
    ensures
        r == tdiv(a as int, b as int),
        iabs(r as int) <= iabs(a as int),
{
    if a >= 0 {
        udiv(a, b)
    } else {
        -udiv(-a, b)
    }
}

/// `r` is the integer square root of `n`.
pub open spec fn is_sqrt(n: int, r: int) -> bool {
    0 <= r && r * r <= n && (r + 1) * (r + 1) > n
}

/// The integer square root (unique, by `lemma_sqrt_unique`).
pub open spec fn spec_isqrt(n: int) -> int {
    choose|r: int| is_sqrt(n, r)
}

proof fn lemma_sqrt_unique(n: int, r1: int, r2: int)
    requires
        is_sqrt(n, r1),
        is_sqrt(n, r2),
    ensures
        r1 == r2,
{
    assert(r1 == r2) by (nonlinear_arith)
        requires
            0 <= r1 && r1 * r1 <= n && (r1 + 1) * (r1 + 1) > n,
            0 <= r2 && r2 * r2 <= n && (r2 + 1) * (r2 + 1) > n,
    ;
}

/// Any witness pins down `spec_isqrt`.
pub(crate) proof fn lemma_isqrt_is(n: int, r: int)
    requires
        is_sqrt(n, r),
    ensures
        spec_isqrt(n) == r,
{
    assert(is_sqrt(n, spec_isqrt(n))) by {
        assert(exists|x: int| is_sqrt(n, x)) by {
            assert(is_sqrt(n, r));
        }
    }
    lemma_sqrt_unique(n, spec_isqrt(n), r);
}

/// Integer square root by bisection.
pub(crate) fn isqrt(n: i128) -> (r: i128)
    requires
        0 <= n <= SCALE_SQ,
    ensures
        r == spec_isqrt(n as int),
        is_sqrt(n as int, r as int),
        0 <= r <= SCALE,
{
    let mut lo: i128 = 0;
    let mut hi: i128 = SCALE + 1;
    proof {
        assert((SCALE + 1) * (SCALE + 1) > SCALE_SQ) by (nonlinear_arith);
    }
    while lo + 1 < hi
        invariant
            0 <= lo < hi <= SCALE + 1,
            lo * lo <= n,
            hi * hi > n,
            n <= SCALE_SQ,
        decreases hi - lo,
    {
        let d = hi - lo;
        let h = udiv(d, 2);
        proof {
            lemma_fundamental_div_mod(d as int, 2);
        }
        let mid = lo + h;
        proof {
            lemma_mul_upper_bound(mid as int, SCALE as int, mid as int, SCALE as int);
        }
        if mid * mid <= n {
            lo = mid;
        } else {
            hi = mid;
        }
    }
    proof {
        assert(hi == lo + 1);
        lemma_isqrt_is(n as int, lo as int);
    }
    lo
}

pub(crate) proof fn lemma_mulq_le(a: int, b: int, c: int)
    requires
        0 <= a,
        0 <= b <= c,
    ensures
        a * b <= a * c,
{
    lemma_mul_upper_bound(a, a, b, c);
}

/// Fixed-point product of nonnegative values: `a * b / SCALE`.
pub(crate) fn mulqu(a: i128, b: i128) -> (r: i128)
    requires
        0 <= a,
        0 <= b,
        a * b <= 160_000_000_000_000_000_000_000_000_000_000_000_000,
    ensures
        r == (a * b) / (SCALE as int),
        0 <= r,
        b <= SCALE ==> r <= a,
        a <= SCALE ==> r <= b,
{
    proof {
        if b <= SCALE {
            lemma_mulq_le(a as int, b as int, SCALE as int);
            lemma_div_is_ordered(a * b, a * SCALE, SCALE as int);
            lemma_div_multiples_vanish(a as int, SCALE as int);
            assert(a * SCALE == SCALE * a) by (nonlinear_arith);
        }
        if a <= SCALE {
            lemma_mulq_le(b as int, a as int, SCALE as int);
            assert(a * b == b * a && b * SCALE == SCALE * b) by (nonlinear_arith);
            lemma_div_is_ordered(a * b, b * SCALE, SCALE as int);
            lemma_div_multiples_vanish(b as int, SCALE as int);
        }
        assert(0 <= a * b) by (nonlinear_arith)
            requires
                0 <= a,
                0 <= b,
        ;
    }
    udiv(a * b, SCALE)
}

/// Fixed-point product of signed unit-scale values: truncated
/// `a * b / SCALE`.
pub open spec fn spec_imulq(a: int, b: int) -> int {
    tdiv(a * b, SCALE as int)
}

pub(crate) fn imulq(a: i128, b: i128) -> (r: i128)
    requires
        iabs(a as int) <= SCALE,
        iabs(b as int) <= SCALE,
    ensures
        r == spec_imulq(a as int, b as int),
        iabs(r as int) <= SCALE,
{
    let neg = (a < 0) != (b < 0);
    let ma = if a < 0 {
        -a
    } else {
        a
    };
    let mb = if b < 0 {
        -b
    } else {
        b
    };
    proof {
        lemma_mul_upper_bound(ma as int, SCALE as int, mb as int, SCALE as int);
    }
    let p = mulqu(ma, mb);
    proof {
        if a >= 0 && b >= 0 {
            assert(0 <= (a as int) * (b as int)) by (nonlinear_arith)
                requires
                    0 <= a,
                    0 <= b,
            ;
        } else if a < 0 && b < 0 {
            assert((ma as int) * (mb as int) == (a as int) * (b as int) && 0 <= (a as int) * (
            b as int)) by (nonlinear_arith)
                requires
                    ma == -a,
                    mb == -b,
                    a < 0,
                    b < 0,
            ;
        } else if a < 0 {
            assert((ma as int) * (mb as int) == -((a as int) * (b as int)) && (a as int) * (
            b as int) <= 0) by (nonlinear_arith)
                requires
                    ma == -a,
                    mb == b,
                    a < 0,
                    0 <= b,
            ;
        } else {
            assert((ma as int) * (mb as int) == -((a as int) * (b as int)) && (a as int) * (
            b as int) <= 0) by (nonlinear_arith)
                requires
                    ma == a,
                    mb == -b,
                    0 <= a,
                    b < 0,
            ;
        }
    }
    if neg {
        -p
    } else {
        p
    }
}

/// Sine on `[0, pi/2]` (with a little slack) by a truncated Taylor
/// series in Horner form, clamped into `[0, SCALE]`.
#[verifier::opaque]
pub open spec fn spec_sin_core(m: int) -> int {
    let sc = SCALE as int;
    let t = (m * m) / sc;
    let b1 = sc - t / 210;
    let b2 = sc - ((t * b1) / sc) / 156;
    let b3 = sc - ((t * b2) / sc) / 110;
    let b4 = sc - ((t * b3) / sc) / 72;
    let b5 = sc - ((t * b4) / sc) / 42;
    let b6 = sc - ((t * b5) / sc) / 20;
    let b7 = sc - ((t * b6) / sc) / 6;
    let r0 = (m * b7) / sc;
    if r0 > sc {
        sc
    } else {
        r0
    }
}

fn sin_core(m: i128) -> (r: i128)
    requires
        0 <= m <= 1_600_000_000_000,
    ensures
        r == spec_sin_core(m as int),
        0 <= r <= SCALE,
{
    proof {
        reveal(spec_sin_core);
        lemma_mul_upper_bound(m as int, 1_600_000_000_000, m as int, 1_600_000_000_000);
    }
    let t = mulqu(m, m);
    proof {
        lemma_div_is_ordered(m * m, 2_560_000_000_000_000_000_000_000, SCALE as int);
        assert(t <= 2_560_000_000_000);
    }
    let b1 = SCALE - step_div(t, 210);
    let b2 = SCALE - step_div(taylor_mul(t, b1), 156);
    let b3 = SCALE - step_div(taylor_mul(t, b2), 110);
    let b4 = SCALE - step_div(taylor_mul(t, b3), 72);
    let b5 = SCALE - step_div(taylor_mul(t, b4), 42);
    let b6 = SCALE - step_div(taylor_mul(t, b5), 20);
    let b7 = SCALE - step_div(taylor_mul(t, b6), 6);
    proof {
        lemma_mul_upper_bound(m as int, 1_600_000_000_000, b7 as int, SCALE as int);
    }
    let r0 = mulqu(m, b7);
    if r0 > SCALE {
        SCALE
    } else {
        r0
    }
}

/// One Horner-level product `t * b / SCALE` for the Taylor loops,
/// with the bounds those loops maintain.
pub(crate) fn taylor_mul(t: i128, b: i128) -> (r: i128)
    requires
        0 <= t <= 2_560_000_000_000,
        0 <= b <= SCALE,
    ensures
        r == (t * b) / (SCALE as int),
        0 <= r <= 2_560_000_000_000,
{
    proof {
        lemma_mul_upper_bound(t as int, 2_560_000_000_000, b as int, SCALE as int);
    }
    mulqu(t, b)
}

/// One Horner-level division, bounded so the subtraction from `SCALE`
/// stays nonnegative.
pub(crate) fn step_div(u: i128, k: i128) -> (r: i128)
    requires
        0 <= u <= 2_560_000_000_000,
        6 <= k,
    ensures
        r == u as int / k as int,
        0 <= r <= SCALE,
{
    proof {
        lemma_div_is_ordered(u as int, 2_560_000_000_000, k as int);
        assert(2_560_000_000_000int / k as int <= 2_560_000_000_000int / 6) by {
            vstd::arithmetic::div_mod::lemma_div_is_ordered_by_denominator(
                2_560_000_000_000,
                6,
                k as int,
            );
        }
    }
    udiv(u, k)
}

/// Cosine on `[0, pi/2]` (with slack) by a truncated Taylor series,
/// clamped into `[0, SCALE]`.
#[verifier::opaque]
pub open spec fn spec_cos_core(m: int) -> int {
    let sc = SCALE as int;
    let t = (m * m) / sc;
    let b1 = sc - t / 182;
    let b2 = sc - ((t * b1) / sc) / 132;
    let b3 = sc - ((t * b2) / sc) / 90;
    let b4 = sc - ((t * b3) / sc) / 56;
    let b5 = sc - ((t * b4) / sc) / 30;
    let b6 = sc - ((t * b5) / sc) / 12;
    let d = ((t * b6) / sc) / 2;
    if d >= sc {
        0
    } else {
        sc - d
    }
}

fn cos_core(m: i128) -> (r: i128)
    requires
        0 <= m <= 1_600_000_000_000,
    ensures
        r == spec_cos_core(m as int),
        0 <= r <= SCALE,
{
    proof {
        reveal(spec_cos_core);
        lemma_mul_upper_bound(m as int, 1_600_000_000_000, m as int, 1_600_000_000_000);
    }
    let t = mulqu(m, m);
    proof {
        lemma_div_is_ordered(m * m, 2_560_000_000_000_000_000_000_000, SCALE as int);
        assert(t <= 2_560_000_000_000);
    }
    let b1 = SCALE - step_div(t, 182);
    let b2 = SCALE - step_div(taylor_mul(t, b1), 132);
    let b3 = SCALE - step_div(taylor_mul(t, b2), 90);
    let b4 = SCALE - step_div(taylor_mul(t, b3), 56);
    let b5 = SCALE - step_div(taylor_mul(t, b4), 30);
    let b6 = SCALE - step_div(taylor_mul(t, b5), 12);
    let d = udiv(taylor_mul(t, b6), 2);
    if d >= SCALE {
        0
    } else {
        SCALE - d
    }
}

/// Sine of a nonnegative angle in `[0, 2*pi]` at `SCALE`, by range
/// reduction to the first quadrant; exact mirror of `spec_sin_mag`.
pub open spec fn spec_sin_mag(m: int) -> int {
    let (m1, neg) = if m > PI_FP {
        (m - PI_FP, true)
    } else {
        (m, false)
    };
    let m2 = if m1 > HALF_PI_FP {
        PI_FP - m1
    } else {
        m1
    };
    let s = spec_sin_core(m2);
    if neg {
        -s
    } else {
        s
    }
}

pub fn sin_mag(m: i128) -> (r: i128)
    requires
        0 <= m <= TWO_PI_FP,
    ensures
        r == spec_sin_mag(m as int),
        iabs(r as int) <= SCALE,
        m <= PI_FP ==> 0 <= r,
{
    let (m1, neg) = if m > PI_FP {
        (m - PI_FP, true)
    } else {
        (m, false)
    };
    let m2 = if m1 > HALF_PI_FP {
        PI_FP - m1
    } else {
        m1
    };
    let s = sin_core(m2);
    if neg {
        -s
    } else {
        s
    }
}

/// Cosine of a nonnegative angle in `[0, 2*pi]` at `SCALE`.
pub open spec fn spec_cos_mag(m: int) -> int {
    let m1 = if m > PI_FP {
        TWO_PI_FP - m
    } else {
        m
    };
    let (m2, neg) = if m1 > HALF_PI_FP {
        (PI_FP - m1, true)
    } else {
        (m1, false)
    };
    let c = spec_cos_core(m2);
    if neg {
        -c
    } else {
        c
    }
}

pub fn cos_mag(m: i128) -> (r: i128)
    requires
        0 <= m <= TWO_PI_FP,
    ensures
        r == spec_cos_mag(m as int),
        iabs(r as int) <= SCALE,
        m <= HALF_PI_FP ==> 0 <= r,
{
    let m1 = if m > PI_FP {
        TWO_PI_FP - m
    } else {
        m
    };
    let (m2, neg) = if m1 > HALF_PI_FP {
        (PI_FP - m1, true)
    } else {
        (m1, false)
    };
    let c = cos_core(m2);
    if neg {
        -c
    } else {
        c
    }
}

/// Arctangent table: `atan(2^-i)` at `SCALE`, for the CORDIC loop.
pub open spec fn spec_atan_entry(i: int) -> int {
    if i == 0 { 785398163397 } else
    if i == 1 { 463647609000 } else
    if i == 2 { 244978663126 } else
    if i == 3 { 124354994546 } else
    if i == 4 { 62418809995 } else
    if i == 5 { 31239833430 } else
    if i == 6 { 15623728620 } else
    if i == 7 { 7812341060 } else
    if i == 8 { 3906230131 } else
    if i == 9 { 1953122516 } else
    if i == 10 { 976562189 } else
    if i == 11 { 488281211 } else
    if i == 12 { 244140620 } else
    if i == 13 { 122070311 } else
    if i == 14 { 61035156 } else
    if i == 15 { 30517578 } else
    if i == 16 { 15258789 } else
    if i == 17 { 7629394 } else
    if i == 18 { 3814697 } else
    if i == 19 { 1907348 } else
    if i == 20 { 953674 } else
    if i == 21 { 476837 } else
    if i == 22 { 238418 } else
    if i == 23 { 119209 } else
    if i == 24 { 59604 } else
    if i == 25 { 29802 } else
    if i == 26 { 14901 } else
    if i == 27 { 7450 } else
    if i == 28 { 3725 } else
    if i == 29 { 1862 } else
    if i == 30 { 931 } else
    if i == 31 { 465 } else
    if i == 32 { 232 } else
    if i == 33 { 116 } else
    if i == 34 { 58 } else
    if i == 35 { 29 } else
    if i == 36 { 14 } else
    if i == 37 { 7 } else
    if i == 38 { 3 } else
    { 1 }
}

fn atan_entry(i: usize) -> (r: i128)
    requires
        i < 40,
    ensures
        r == spec_atan_entry(i as int),
        1 <= r <= 785_398_163_397,
{
    if i == 0 { 785398163397 } else
    if i == 1 { 463647609000 } else
    if i == 2 { 244978663126 } else
    if i == 3 { 124354994546 } else
    if i == 4 { 62418809995 } else
    if i == 5 { 31239833430 } else
    if i == 6 { 15623728620 } else
    if i == 7 { 7812341060 } else
    if i == 8 { 3906230131 } else
    if i == 9 { 1953122516 } else
    if i == 10 { 976562189 } else
    if i == 11 { 488281211 } else
    if i == 12 { 244140620 } else
    if i == 13 { 122070311 } else
    if i == 14 { 61035156 } else
    if i == 15 { 30517578 } else
    if i == 16 { 15258789 } else
    if i == 17 { 7629394 } else
    if i == 18 { 3814697 } else
    if i == 19 { 1907348 } else
    if i == 20 { 953674 } else
    if i == 21 { 476837 } else
    if i == 22 { 238418 } else
    if i == 23 { 119209 } else
    if i == 24 { 59604 } else
    if i == 25 { 29802 } else
    if i == 26 { 14901 } else
    if i == 27 { 7450 } else
    if i == 28 { 3725 } else
    if i == 29 { 1862 } else
    if i == 30 { 931 } else
    if i == 31 { 465 } else
    if i == 32 { 232 } else
    if i == 33 { 116 } else
    if i == 34 { 58 } else
    if i == 35 { 29 } else
    if i == 36 { 14 } else
    if i == 37 { 7 } else
    if i == 38 { 3 } else
    { 1 }
}

/// Powers of two, for the CORDIC shift amounts.
pub open spec fn spec_pow2i(i: int) -> int
    decreases i,
{
    if i <= 0 {
        1
    } else {
        2 * spec_pow2i(i - 1)
    }
}

proof fn lemma_pow2i_pos(i: int)
    requires
        0 <= i,
    ensures
        1 <= spec_pow2i(i),
    decreases i,
{
    if i > 0 {
        lemma_pow2i_pos(i - 1);
    }
}

proof fn lemma_pow2i_mono(i: int, j: int)
    requires
        0 <= i <= j,
    ensures
        1 <= spec_pow2i(i) <= spec_pow2i(j),
    decreases j - i,
{
    lemma_pow2i_pos(i);
    if i < j {
        lemma_pow2i_mono(i, j - 1);
        lemma_pow2i_pos(j - 1);
    }
}

proof fn lemma_pow2i_40()
    ensures
        spec_pow2i(39) == 549_755_813_888,
        spec_pow2i(40) == 1_099_511_627_776,
{
    reveal_with_fuel(spec_pow2i, 41);
}

/// The CORDIC vectoring recurrence: starting from vector `(xx, yy)`
/// and accumulated angle `z` at step `i` with `p == 2^i`, the angle
/// accumulated after all forty steps.
pub open spec fn spec_cordic(xx: int, yy: int, z: int, i: int, p: int) -> int
    decreases 40 - i,
{
    if i >= 40 {
        z
    } else {
        let dx = tdiv(yy, p);
        let dy = tdiv(xx, p);
        if yy >= 0 {
            spec_cordic(xx + dx, yy - dy, z + spec_atan_entry(i), i + 1, 2 * p)
        } else {
            spec_cordic(xx - dx, yy + dy, z - spec_atan_entry(i), i + 1, 2 * p)
        }
    }
}

/// Arctangent of `y / x` for positive `y`, `x`, clamped into
/// `[0, pi/2]`.
pub open spec fn spec_atan_pos(y: int, x: int) -> int {
    let z = spec_cordic(x, y, 0, 0, 1);
    if z < 0 {
        0
    } else if z > HALF_PI_FP {
        HALF_PI_FP as int
    } else {
        z
    }
}

fn atan_pos(y: i128, x: i128) -> (r: i128)
    requires
        1 <= y <= 4 * SCALE,
        1 <= x <= 4 * SCALE,
    ensures
        r == spec_atan_pos(y as int, x as int),
        0 <= r <= HALF_PI_FP,
{
    let mut xx: i128 = x;
    let mut yy: i128 = y;
    let mut z: i128 = 0;
    let mut pw: i128 = 1;
    let mut i: usize = 0;
    while i < 40
        invariant
            0 <= i <= 40,
            pw as int == spec_pow2i(i as int),
            iabs(xx as int) + iabs(yy as int) <= 8_000_000_000_000 * (pw as int),
            iabs(z as int) <= 800_000_000_000 * (i as int),
            spec_cordic(xx as int, yy as int, z as int, i as int, pw as int) == spec_cordic(
                x as int,
                y as int,
                0,
                0,
                1,
            ),
        decreases 40 - i,
    {
        proof {
            lemma_pow2i_mono(0, i as int);
            lemma_pow2i_mono(i as int, 39);
            lemma_pow2i_40();
        }
        let dx = tdiv_e(yy, pw);
        let dy = tdiv_e(xx, pw);
        let te = atan_entry(i);
        if yy >= 0 {
            let nx = xx + dx;
            let ny = yy - dy;
            let nz = z + te;
            proof {
                assert(spec_cordic(nx as int, ny as int, nz as int, i + 1, 2 * pw as int)
                    == spec_cordic(xx as int, yy as int, z as int, i as int, pw as int));
            }
            xx = nx;
            yy = ny;
            z = nz;
        } else {
            let nx = xx - dx;
            let ny = yy + dy;
            let nz = z - te;
            proof {
                assert(spec_cordic(nx as int, ny as int, nz as int, i + 1, 2 * pw as int)
                    == spec_cordic(xx as int, yy as int, z as int, i as int, pw as int));
            }
            xx = nx;
            yy = ny;
            z = nz;
        }
        pw = pw * 2;
        i = i + 1;
    }
    if z < 0 {
        0
    } else if z > HALF_PI_FP {
        HALF_PI_FP
    } else {
        z
    }
}

/// At zero the series and range reduction give exactly zero and one.
pub proof fn lemma_sin_mag_zero()
    ensures
        spec_sin_mag(0) == 0,
{
    let sc = SCALE as int;
    reveal(spec_sin_core);
    assert((0int * 0int) / sc == 0);
    assert(spec_sin_core(0) == 0) by {
        let t = (0int * 0int) / sc;
        assert(t == 0);
        let b1 = sc - t / 210;
        let b2 = sc - ((t * b1) / sc) / 156;
        let b3 = sc - ((t * b2) / sc) / 110;
        let b4 = sc - ((t * b3) / sc) / 72;
        let b5 = sc - ((t * b4) / sc) / 42;
        let b6 = sc - ((t * b5) / sc) / 20;
        let b7 = sc - ((t * b6) / sc) / 6;
        assert((0int * b7) / sc == 0);
    }
}

/// At zero the cosine series gives exactly `SCALE`.
pub proof fn lemma_cos_mag_zero()
    ensures
        spec_cos_mag(0) == SCALE,
{
    let sc = SCALE as int;
    reveal(spec_cos_core);
    assert((0int * 0int) / sc == 0);
    assert(spec_cos_core(0) == sc) by {
        let t = (0int * 0int) / sc;
        assert(t == 0);
        let b1 = sc - t / 182;
        let b2 = sc - ((t * b1) / sc) / 132;
        let b3 = sc - ((t * b2) / sc) / 90;
        let b4 = sc - ((t * b3) / sc) / 56;
        let b5 = sc - ((t * b4) / sc) / 30;
        let b6 = sc - ((t * b5) / sc) / 12;
        assert(((t * b6) / sc) / 2 == 0);
    }
}

/// Four-quadrant arctangent at `SCALE`, in `(-pi, pi]`; `(0, 0)` maps
/// to `0`.
pub open spec fn spec_atan2(y: int, x: int) -> int {
    if y == 0 {
        if x >= 0 {
            0
        } else {
            PI_FP as int
        }
    } else if x == 0 {
        if y > 0 {
            HALF_PI_FP as int
        } else {
            -HALF_PI_FP as int
        }
    } else {
        let a = spec_atan_pos(iabs(y), iabs(x));
        if x > 0 {
            if y > 0 {
                a
            } else {
                -a
            }
        } else {
            if y > 0 {
                PI_FP - a
            } else {
                a - PI_FP
            }
        }
    }
}

pub fn atan2_fp(y: i128, x: i128) -> (r: i128)
    requires
        iabs(y as int) <= 4 * SCALE,
        iabs(x as int) <= 4 * SCALE,
    ensures
        r == spec_atan2(y as int, x as int),
        -PI_FP <= r <= PI_FP,
        x >= 0 ==> -HALF_PI_FP <= r <= HALF_PI_FP,
        y >= 0 ==> 0 <= r,
        y <= 0 ==> r <= 0 || r == PI_FP,
{
    if y == 0 {
        if x >= 0 {
            0
        } else {
            PI_FP
        }
    } else if x == 0 {
        if y > 0 {
            HALF_PI_FP
        } else {
            -HALF_PI_FP
        }
    } else {
        let my = if y < 0 {
            -y
        } else {
            y
        };
        let mx = if x < 0 {
            -x
        } else {
            x
        };
        let a = atan_pos(my, mx);
        if x > 0 {
            if y > 0 {
                a
            } else {
                -a
            }
        } else {
            if y > 0 {
                PI_FP - a
            } else {
                a - PI_FP
            }
        }
    }
}

/// Arcsine at `SCALE`, in `[-pi/2, pi/2]`.
pub open spec fn spec_asin(z: int) -> int {
    spec_atan2(z, spec_isqrt(SCALE_SQ - z * z))
}

pub fn asin_fp(z: i128) -> (r: i128)
    requires
        iabs(z as int) <= SCALE,
    ensures
        r == spec_asin(z as int),
        -HALF_PI_FP <= r <= HALF_PI_FP,
{
    proof {
        assert(0 <= z * z <= SCALE_SQ) by (nonlinear_arith)
            requires
                iabs(z as int) <= SCALE,
                SCALE == 1_000_000_000_000,
                SCALE_SQ == 1_000_000_000_000_000_000_000_000,
        ;
    }
    let w = isqrt(SCALE_SQ - z * z);
    atan2_fp(z, w)
}

} // verus!


