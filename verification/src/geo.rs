//! Great-circle navigation over a spherical Earth.
//!
//! Coordinates are degrees scaled by `1e7` (the resolution of the source
//! data), distances are millimetres, bearings are degrees scaled by `1e7`
//! in `[0, 360)`.  Each function's result is pinned exactly by a spec
//! function over the fixed-point trigonometry of [`crate::trig`].

use vstd::arithmetic::div_mod::lemma_div_is_ordered;
use vstd::arithmetic::mul::lemma_mul_upper_bound;
use vstd::prelude::*;

use crate::trig::atan2_fp;
use crate::trig::asin_fp;
use crate::trig::cos_mag;
use crate::trig::iabs;
use crate::trig::imulq;
use crate::trig::is_sqrt;
use crate::trig::isqrt;
use crate::trig::lemma_isqrt_is;
use crate::trig::mulqu;
use crate::trig::sin_mag;
use crate::trig::spec_asin;
use crate::trig::spec_atan2;
use crate::trig::spec_cos_mag;
use crate::trig::spec_imulq;
use crate::trig::spec_isqrt;
use crate::trig::spec_sin_mag;
use crate::trig::tdiv;
use crate::trig::tdiv_e;
use crate::trig::udiv;
use crate::trig::HALF_PI_FP;
use crate::trig::PI_FP;
use crate::trig::SCALE;
use crate::trig::SCALE_SQ;
use crate::trig::TWO_PI_FP;

verus! {

/// A geographic coordinate; `lat` and `lon` are degrees scaled by `1e7`.
#[derive(Clone, Copy, PartialEq, Eq, Structural, Debug)]
pub struct Coord {
    pub lat: i64,
    pub lon: i64,
}

impl Coord {
    /// Latitude within 90 degrees of the equator, longitude within 180
    /// degrees of the prime meridian.
    pub open spec fn valid(self) -> bool {
        -900_000_000 <= self.lat <= 900_000_000 && -1_800_000_000 <= self.lon <= 1_800_000_000
    }
}

/// Mean Earth radius, in millimetres.
pub const EARTH_RADIUS_MM: i128 = 6_371_000_000;

/// Largest value `distance` can return: half the circumference in
/// millimetres.
pub const MAX_DISTANCE_MM: i64 = 20_015_086_796;

/// Degrees scaled by `1e7`, converted to radians at `SCALE`.
pub open spec fn spec_rad_of(d: int) -> int {
    tdiv(d * 17_453_292_519_943, 10_000_000_000)
}

/// Radians at `SCALE`, converted to degrees scaled by `1e7`.
pub open spec fn spec_deg_of(r: int) -> int {
    tdiv(r * 5_729_577_951_308, 10_000_000_000_000_000)
}

fn rad_of(d: i64) -> (r: i128)
    requires
        -3_599_999_999 <= d <= 3_599_999_999,
    ensures
        r == spec_rad_of(d as int),
        iabs(r as int) <= 6_283_185_305_434,
        iabs(d as int) <= 1_800_000_000 ==> iabs(r as int) <= PI_FP,
        iabs(d as int) <= 900_000_000 ==> iabs(r as int) <= HALF_PI_FP,
        d >= 0 ==> r >= 0,
{
    let m: i128 = if d < 0 {
        -(d as i128)
    } else {
        d as i128
    };
    proof {
        lemma_mul_upper_bound(m as int, 3_599_999_999, 17_453_292_519_943, 17_453_292_519_943);
    }
    let prod = m * 17_453_292_519_943;
    let mr = udiv(prod, 10_000_000_000);
    proof {
        lemma_div_is_ordered(prod as int, 62_831_853_054_341_507_480_057, 10_000_000_000);
        if iabs(d as int) <= 1_800_000_000 {
            lemma_mul_upper_bound(m as int, 1_800_000_000, 17_453_292_519_943, 17_453_292_519_943);
            lemma_div_is_ordered(prod as int, 31_415_926_535_897_400_000_000, 10_000_000_000);
        }
        if iabs(d as int) <= 900_000_000 {
            lemma_mul_upper_bound(m as int, 900_000_000, 17_453_292_519_943, 17_453_292_519_943);
            lemma_div_is_ordered(prod as int, 15_707_963_267_948_700_000_000, 10_000_000_000);
        }
    }
    if d < 0 {
        -mr
    } else {
        mr
    }
}

fn deg_of(r: i128) -> (d: i128)
    requires
        iabs(r as int) <= 7_000_000_000_000,
    ensures
        d == spec_deg_of(r as int),
        iabs(d as int) <= 4_010_704_565,
        iabs(r as int) <= PI_FP ==> iabs(d as int) <= 1_799_999_999,
        iabs(r as int) <= HALF_PI_FP ==> iabs(d as int) <= 899_999_999,
        iabs(r as int) <= TWO_PI_FP ==> iabs(d as int) <= 3_599_999_999,
        r >= 0 ==> d >= 0,
{
    let m: i128 = if r < 0 {
        -r
    } else {
        r
    };
    proof {
        lemma_mul_upper_bound(m as int, 7_000_000_000_000, 5_729_577_951_308, 5_729_577_951_308);
    }
    let prod = m * 5_729_577_951_308;
    let md = udiv(prod, 10_000_000_000_000_000);
    proof {
        lemma_div_is_ordered(prod as int, 40_107_045_659_156_000_000_000_000, 10_000_000_000_000_000);
        if iabs(r as int) <= PI_FP {
            lemma_mul_upper_bound(m as int, PI_FP as int, 5_729_577_951_308, 5_729_577_951_308);
            lemma_div_is_ordered(
                prod as int,
                17_999_999_999_994_725_953_444_412,
                10_000_000_000_000_000,
            );
        }
        if iabs(r as int) <= HALF_PI_FP {
            lemma_mul_upper_bound(m as int, HALF_PI_FP as int, 5_729_577_951_308, 5_729_577_951_308);
            lemma_div_is_ordered(
                prod as int,
                8_999_999_999_994_498_187_746_552,
                10_000_000_000_000_000,
            );
        }
        if iabs(r as int) <= TWO_PI_FP {
            lemma_mul_upper_bound(m as int, TWO_PI_FP as int, 5_729_577_951_308, 5_729_577_951_308);
            lemma_div_is_ordered(
                prod as int,
                35_999_999_999_989_451_906_888_824,
                10_000_000_000_000_000,
            );
        }
    }
    if r < 0 {
        -md
    } else {
        md
    }
}

/// The haversine combination for two coordinates, at `SCALE_SQ`,
/// clamped into `[0, SCALE_SQ]`.
#[verifier::opaque]
pub open spec fn spec_hav_q(a: Coord, b: Coord) -> int {
    let sc = SCALE as int;
    let p1 = spec_rad_of(a.lat as int);
    let p2 = spec_rad_of(b.lat as int);
    let l1 = spec_rad_of(a.lon as int);
    let l2 = spec_rad_of(b.lon as int);
    let s1 = spec_sin_mag(iabs(p1 - p2) / 2);
    let sl = spec_sin_mag(iabs(l1 - l2) / 2);
    let c1 = spec_cos_mag(iabs(p1));
    let c2 = spec_cos_mag(iabs(p2));
    let q0 = s1 * s1 + (((c1 * c2) / sc) * (sl * sl)) / sc;
    if q0 > SCALE_SQ {
        SCALE_SQ as int
    } else {
        q0
    }
}

/// The central angle between two coordinates at `SCALE`, from the
/// haversine formula.
pub open spec fn spec_angle(a: Coord, b: Coord) -> int {
    let q = spec_hav_q(a, b);
    2 * spec_atan2(spec_isqrt(q), spec_isqrt(SCALE_SQ - q))
}

/// Great-circle distance in millimetres.
pub open spec fn spec_distance(a: Coord, b: Coord) -> int {
    (spec_angle(a, b) * EARTH_RADIUS_MM) / (SCALE as int)
}

fn angle_fp(a: Coord, b: Coord) -> (r: i128)
    requires
        a.valid(),
        b.valid(),
    ensures
        r == spec_angle(a, b),
        0 <= r <= 3_141_592_653_588,
{
    proof {
        reveal(spec_hav_q);
    }
    let p1 = rad_of(a.lat);
    let p2 = rad_of(b.lat);
    let l1 = rad_of(a.lon);
    let l2 = rad_of(b.lon);
    let dp = p1 - p2;
    let mdp: i128 = if dp < 0 {
        -dp
    } else {
        dp
    };
    let s1 = sin_mag(udiv(mdp, 2));
    let dl = l1 - l2;
    let mdl: i128 = if dl < 0 {
        -dl
    } else {
        dl
    };
    let sl = sin_mag(udiv(mdl, 2));
    let mp1: i128 = if p1 < 0 {
        -p1
    } else {
        p1
    };
    let mp2: i128 = if p2 < 0 {
        -p2
    } else {
        p2
    };
    let c1 = cos_mag(mp1);
    let c2 = cos_mag(mp2);
    proof {
        lemma_mul_upper_bound(s1 as int, SCALE as int, s1 as int, SCALE as int);
        lemma_mul_upper_bound(c1 as int, SCALE as int, c2 as int, SCALE as int);
    }
    let q1 = s1 * s1;
    let cc = mulqu(c1, c2);
    proof {
        lemma_mul_upper_bound(sl as int, SCALE as int, sl as int, SCALE as int);
    }
    let sls = sl * sl;
    proof {
        lemma_mul_upper_bound(cc as int, SCALE as int, sls as int, SCALE_SQ as int);
    }
    let t2num = cc * sls;
    let term2 = udiv(t2num, SCALE);
    proof {
        lemma_div_is_ordered(t2num as int, 1_000_000_000_000_000_000_000_000_000_000_000_000, SCALE as int);
    }
    let q0 = q1 + term2;
    let q = if q0 > SCALE_SQ {
        SCALE_SQ
    } else {
        q0
    };
    let yv = isqrt(q);
    let xv = isqrt(SCALE_SQ - q);
    let at = atan2_fp(yv, xv);
    2 * at
}

/// Great-circle distance between two coordinates, in millimetres.
pub fn distance(a: &Coord, b: &Coord) -> (r: i64)
    requires
        a.valid(),
        b.valid(),
    ensures
        r == spec_distance(*a, *b),
        0 <= r <= MAX_DISTANCE_MM,
{
    let ang = angle_fp(*a, *b);
    proof {
        lemma_mul_upper_bound(ang as int, 3_141_592_653_588, EARTH_RADIUS_MM as int, EARTH_RADIUS_MM as int);
    }
    let prod = ang * EARTH_RADIUS_MM;
    let d = udiv(prod, SCALE);
    proof {
        lemma_div_is_ordered(prod as int, 20_015_086_796_009_148_000_000, SCALE as int);
    }
    d as i64
}

/// The initial bearing from `a` to `b` in radians at `SCALE`, in
/// `(-pi, pi]`; `0` when the coordinates coincide.
#[verifier::opaque]
pub open spec fn spec_bearing_rad(a: Coord, b: Coord) -> int {
    let p1 = spec_rad_of(a.lat as int);
    let p2 = spec_rad_of(b.lat as int);
    let l1 = spec_rad_of(a.lon as int);
    let l2 = spec_rad_of(b.lon as int);
    let dl = l2 - l1;
    let sl = if dl < 0 {
        -spec_sin_mag(-dl)
    } else {
        spec_sin_mag(dl)
    };
    let cl = spec_cos_mag(iabs(dl));
    let s1 = if p1 < 0 {
        -spec_sin_mag(-p1)
    } else {
        spec_sin_mag(p1)
    };
    let s2 = if p2 < 0 {
        -spec_sin_mag(-p2)
    } else {
        spec_sin_mag(p2)
    };
    let c1 = spec_cos_mag(iabs(p1));
    let c2 = spec_cos_mag(iabs(p2));
    let yv = spec_imulq(sl, c2);
    let xv = spec_imulq(c1, s2) - spec_imulq(spec_imulq(s1, c2), cl);
    spec_atan2(yv, xv)
}

fn bearing_rad_fp(a: Coord, b: Coord) -> (r: i128)
    requires
        a.valid(),
        b.valid(),
    ensures
        r == spec_bearing_rad(a, b),
        -PI_FP <= r <= PI_FP,
{
    proof {
        reveal(spec_bearing_rad);
    }
    let p1 = rad_of(a.lat);
    let p2 = rad_of(b.lat);
    let l1 = rad_of(a.lon);
    let l2 = rad_of(b.lon);
    let dl = l2 - l1;
    let sl = if dl < 0 {
        -sin_mag(-dl)
    } else {
        sin_mag(dl)
    };
    let mdl: i128 = if dl < 0 {
        -dl
    } else {
        dl
    };
    let cl = cos_mag(mdl);
    let s1 = if p1 < 0 {
        -sin_mag(-p1)
    } else {
        sin_mag(p1)
    };
    let s2 = if p2 < 0 {
        -sin_mag(-p2)
    } else {
        sin_mag(p2)
    };
    let mp1: i128 = if p1 < 0 {
        -p1
    } else {
        p1
    };
    let mp2: i128 = if p2 < 0 {
        -p2
    } else {
        p2
    };
    let c1 = cos_mag(mp1);
    let c2 = cos_mag(mp2);
    let yv = imulq(sl, c2);
    let xv = imulq(c1, s2) - imulq(imulq(s1, c2), cl);
    atan2_fp(yv, xv)
}

/// The initial bearing from `a` to `b`, degrees scaled by `1e7`, in
/// `[0, 360)`.
pub open spec fn spec_bearing(a: Coord, b: Coord) -> int {
    let d = spec_deg_of(spec_bearing_rad(a, b));
    if d < 0 {
        d + 3_600_000_000
    } else {
        d
    }
}

/// Initial bearing of the great-circle path from `a` toward `b`,
/// degrees scaled by `1e7`; `0` when the coordinates coincide.
pub fn bearing(a: &Coord, b: &Coord) -> (r: i64)
    requires
        a.valid(),
        b.valid(),
    ensures
        r == spec_bearing(*a, *b),
        0 <= r < 3_600_000_000,
{
    let th = bearing_rad_fp(*a, *b);
    let dg = deg_of(th);
    let n = if dg < 0 {
        dg + 3_600_000_000
    } else {
        dg
    };
    n as i64
}

/// Signed along-track distance in millimetres: how far along the
/// great circle from `s` toward `e` the projection of `p` lies.
pub open spec fn spec_along_track(s: Coord, e: Coord, p: Coord) -> int {
    let d13 = spec_angle(s, p);
    let t13 = spec_bearing_rad(s, p);
    let t12 = spec_bearing_rad(s, e);
    let cdt = spec_cos_mag(iabs(t13 - t12));
    let sd13 = spec_sin_mag(d13);
    let yv = spec_imulq(sd13, cdt);
    let xv = spec_cos_mag(d13);
    let dat = spec_atan2(yv, xv);
    tdiv(dat * EARTH_RADIUS_MM, SCALE as int)
}

/// Signed distance from `s` to the projection of `p` onto the great
/// circle through `s` and `e`: negative behind `s`, greater than
/// `distance(s, e)` beyond `e`.  Computed from the spherical right
/// triangle (`tan` form), which is exact at `p == s`.
#[verifier::rlimit(100)]
pub fn along_track_distance(s: &Coord, e: &Coord, p: &Coord) -> (r: i64)
    requires
        s.valid(),
        e.valid(),
        p.valid(),
    ensures
        r == spec_along_track(*s, *e, *p),
        -MAX_DISTANCE_MM <= r <= MAX_DISTANCE_MM,
{
    let d13 = angle_fp(*s, *p);
    let t13 = bearing_rad_fp(*s, *p);
    let t12 = bearing_rad_fp(*s, *e);
    let dt = t13 - t12;
    let mdt: i128 = if dt < 0 {
        -dt
    } else {
        dt
    };
    let cdt = cos_mag(mdt);
    let sd13 = sin_mag(d13);
    let yv = imulq(sd13, cdt);
    let xv = cos_mag(d13);
    let dat = atan2_fp(yv, xv);
    proof {
        lemma_mul_upper_bound(iabs(dat as int), PI_FP as int, EARTH_RADIUS_MM as int, EARTH_RADIUS_MM as int);
        assert(iabs((dat * EARTH_RADIUS_MM) as int) == iabs(dat as int) * EARTH_RADIUS_MM)
            by (nonlinear_arith)
            requires
                EARTH_RADIUS_MM == 6_371_000_000,
        ;
    }
    let prod = dat * EARTH_RADIUS_MM;
    let r = tdiv_e(prod, SCALE);
    proof {
        if prod >= 0 {
            lemma_div_is_ordered(prod as int, 20_015_086_796_015_519_000_000, SCALE as int);
        } else {
            lemma_div_is_ordered(-prod as int, 20_015_086_796_015_519_000_000, SCALE as int);
        }
    }
    r as i64
}

/// The point reached from `origin` by travelling `dist` millimetres on
/// the given initial bearing (degrees scaled by `1e7`).
pub open spec fn spec_destination(origin: Coord, brg: int, dist: int) -> Coord {
    let sc = SCALE as int;
    let th = spec_rad_of(brg);
    let delta = (dist * sc) / (EARTH_RADIUS_MM as int);
    let sd = spec_sin_mag(delta);
    let cd = spec_cos_mag(delta);
    let p1 = spec_rad_of(origin.lat as int);
    let l1 = spec_rad_of(origin.lon as int);
    let s1 = if p1 < 0 {
        -spec_sin_mag(-p1)
    } else {
        spec_sin_mag(p1)
    };
    let c1 = spec_cos_mag(iabs(p1));
    let sth = spec_sin_mag(th);
    let cth = spec_cos_mag(th);
    let z0 = spec_imulq(s1, cd) + spec_imulq(spec_imulq(c1, sd), cth);
    let z = if z0 > SCALE {
        SCALE as int
    } else if z0 < -SCALE {
        -(SCALE as int)
    } else {
        z0
    };
    let phi2 = spec_asin(z);
    let yv = spec_imulq(spec_imulq(sth, sd), c1);
    let xv = cd - spec_imulq(s1, z);
    let lam2 = l1 + spec_atan2(yv, xv);
    let latd = spec_deg_of(phi2);
    let lond0 = spec_deg_of(lam2);
    let lond = if lond0 > 1_800_000_000 {
        lond0 - 3_600_000_000
    } else if lond0 < -1_800_000_000 {
        lond0 + 3_600_000_000
    } else {
        lond0
    };
    Coord { lat: latd as i64, lon: lond as i64 }
}

/// Travel `dist` millimetres from `origin` on initial bearing `brg`
/// (degrees scaled by `1e7`) along a great circle.
pub fn destination(origin: &Coord, brg: i64, dist: i64) -> (r: Coord)
    requires
        origin.valid(),
        0 <= brg < 3_600_000_000,
        0 <= dist <= 30_000_000_000,
    ensures
        r == spec_destination(*origin, brg as int, dist as int),
        r.valid(),
{
    let th = rad_of(brg);
    proof {
        lemma_mul_upper_bound(dist as int, 30_000_000_000, SCALE as int, SCALE as int);
    }
    let dprod = (dist as i128) * SCALE;
    let delta = udiv(dprod, EARTH_RADIUS_MM);
    proof {
        lemma_div_is_ordered(dprod as int, 30_000_000_000_000_000_000_000, EARTH_RADIUS_MM as int);
    }
    let sd = sin_mag(delta);
    let cd = cos_mag(delta);
    let p1 = rad_of(origin.lat);
    let l1 = rad_of(origin.lon);
    let s1 = if p1 < 0 {
        -sin_mag(-p1)
    } else {
        sin_mag(p1)
    };
    let mp1: i128 = if p1 < 0 {
        -p1
    } else {
        p1
    };
    let c1 = cos_mag(mp1);
    let sth = sin_mag(th);
    let cth = cos_mag(th);
    let z0 = imulq(s1, cd) + imulq(imulq(c1, sd), cth);
    let z = if z0 > SCALE {
        SCALE
    } else if z0 < -SCALE {
        -SCALE
    } else {
        z0
    };
    let phi2 = asin_fp(z);
    let yv = imulq(imulq(sth, sd), c1);
    let xv = cd - imulq(s1, z);
    let lam2 = l1 + atan2_fp(yv, xv);
    let latd = deg_of(phi2);
    let lond0 = deg_of(lam2);
    let lond = if lond0 > 1_800_000_000 {
        lond0 - 3_600_000_000
    } else if lond0 < -1_800_000_000 {
        lond0 + 3_600_000_000
    } else {
        lond0
    };
    Coord { lat: latd as i64, lon: lond as i64 }
}

/// The distance from any coordinate to itself is zero (exactly, not
/// merely within a tolerance).
pub proof fn lemma_angle_self(a: Coord)
    ensures
        spec_angle(a, a) == 0,
{
    reveal(spec_hav_q);
    assert(spec_hav_q(a, a) == 0) by {
        let p1 = spec_rad_of(a.lat as int);
        crate::trig::lemma_sin_mag_zero();
        let c1 = spec_cos_mag(iabs(p1));
        assert((((c1 * c1) / (SCALE as int)) * (0int * 0int)) / (SCALE as int) == 0);
    }
    assert(spec_isqrt(0) == 0) by {
        lemma_isqrt_is(0, 0);
    }
    assert(spec_isqrt(SCALE_SQ - 0) == SCALE) by {
        assert(is_sqrt(SCALE_SQ as int, SCALE as int)) by (nonlinear_arith);
        lemma_isqrt_is(SCALE_SQ as int, SCALE as int);
    }
    assert(spec_atan2(0, SCALE as int) == 0);
}

/// `distance(a, a) == 0` for every coordinate.
pub proof fn lemma_distance_self(a: Coord)
    ensures
        spec_distance(a, a) == 0,
{
    lemma_angle_self(a);
}

/// `distance` is symmetric in its arguments, exactly.
pub proof fn lemma_distance_symmetric(a: Coord, b: Coord)
    ensures
        spec_distance(a, b) == spec_distance(b, a),
{
    reveal(spec_hav_q);
    assert(spec_hav_q(a, b) == spec_hav_q(b, a)) by {
        let c1 = spec_cos_mag(iabs(spec_rad_of(a.lat as int)));
        let c2 = spec_cos_mag(iabs(spec_rad_of(b.lat as int)));
        assert(c1 * c2 == c2 * c1) by (nonlinear_arith);
    }
}

/// The along-track distance of the start point itself is exactly zero.
pub proof fn lemma_along_track_at_start(s: Coord, e: Coord)
    ensures
        spec_along_track(s, e, s) == 0,
{
    lemma_angle_self(s);
    crate::trig::lemma_sin_mag_zero();
    crate::trig::lemma_cos_mag_zero();
    let cdt = spec_cos_mag(iabs(spec_bearing_rad(s, s) - spec_bearing_rad(s, e)));
    assert(spec_imulq(0, cdt) == 0) by {
        assert(0int * cdt == 0) by (nonlinear_arith);
        assert(tdiv(0int, SCALE as int) == 0);
    }
    assert(spec_atan2(0, SCALE as int) == 0);
    assert(tdiv(0int * (EARTH_RADIUS_MM as int), SCALE as int) == 0);
}

} // verus!
