//! Geodetic fixed-point geometry.
//!
//! Coordinates are integers: geodetic latitude and longitude in
//! microdegrees, projected positions in millimeters. Distances and
//! lengths are in milli-kilometers (that is, meters).

use vstd::prelude::*;

verus! {

/// A geodetic position: latitude and longitude in microdegrees.
#[derive(Clone, Copy, Debug, PartialEq, Eq, Structural)]
pub struct GeoPoint {
    pub lat_udeg: i64,
    pub lng_udeg: i64,
}

/// A provider-projected position: easting and northing in millimeters.
#[derive(Clone, Copy, Debug, PartialEq, Eq, Structural)]
pub struct ProjPoint {
    pub x_mm: i64,
    pub y_mm: i64,
}

/// The reference location the catalog measures distances from, in
/// microdegrees: Montreal.
pub const MONTREAL_LAT_UDEG: i64 = 45_501_700;

pub const MONTREAL_LNG_UDEG: i64 = -73_567_300;

/// Latitude anchor of the local linear approximation, in microdegrees.
pub const ANCHOR_LAT_UDEG: i64 = 46_000_000;

/// Longitude anchor of the local linear approximation, in microdegrees.
pub const ANCHOR_LNG_UDEG: i64 = -71_000_000;

/// Easting origin of the local linear approximation, in millimeters.
pub const ANCHOR_X_MM: i64 = 1_700_000_000;

/// Millimeters of northing per microdegree of latitude: 111,000 meters
/// per degree.
pub const MM_PER_LAT_UDEG: i64 = 111;

/// Nano-millimeters of easting per microdegree of longitude:
/// 111,000 meters per degree scaled by cos(46 degrees) ~ 0.6946583705.
pub const NANO_MM_PER_LNG_UDEG: i64 = 77_107_079_121;

/// Integer division that truncates toward zero.
pub open spec fn trunc_div(a: int, b: int) -> int {
    if a >= 0 {
        a / b
    } else {
        -((-a) / b)
    }
}

/// The local linear approximation of the provider's projection, as a
/// function on microdegrees and millimeters.
pub open spec fn spec_approx_to_wgs84(p: ProjPoint) -> GeoPoint {
    GeoPoint {
        lat_udeg: (ANCHOR_LAT_UDEG + trunc_div(p.y_mm as int, MM_PER_LAT_UDEG as int)) as i64,
        lng_udeg: (ANCHOR_LNG_UDEG + trunc_div(
            (p.x_mm - ANCHOR_X_MM) * 1_000_000_000,
            NANO_MM_PER_LNG_UDEG as int,
        )) as i64,
    }
}

/// Truncating division of an `i64` by a positive constant, in exec code.
pub(crate) fn div_trunc_i64(a: i64, b: i64) -> (r: i64)
    requires
        b > 0,
        a > i64::MIN,
    ensures
        r as int == trunc_div(a as int, b as int),
{
    if a >= 0 {
        (a as u64 / b as u64) as i64
    } else {
        let m: u64 = (-a) as u64;
        let q = m / (b as u64);
        proof {
            assert(q <= m / 1) by {
                vstd::arithmetic::div_mod::lemma_div_is_ordered_by_denominator(
                    m as int,
                    1,
                    b as int,
                );
            }
        }
        -(q as i64)
    }
}

/// Truncating division of an `i128` magnitude-bounded value by a positive
/// constant.
fn div_trunc_i128(a: i128, b: i128) -> (r: i128)
    requires
        b > 0,
        -0x7fffffffffffffffffffffffffffffff <= a,
    ensures
        r as int == trunc_div(a as int, b as int),
        -0x7fffffffffffffffffffffffffffffff <= r <= 0x7fffffffffffffffffffffffffffffff,
{
    if a >= 0 {
        let q = (a as u128) / (b as u128);
        proof {
            assert(q <= a as u128 / 1) by {
                vstd::arithmetic::div_mod::lemma_div_is_ordered_by_denominator(
                    a as int,
                    1,
                    b as int,
                );
            }
        }
        q as i128
    } else {
        let m: u128 = (-a) as u128;
        let q = m / (b as u128);
        proof {
            assert(q <= m / 1) by {
                vstd::arithmetic::div_mod::lemma_div_is_ordered_by_denominator(
                    m as int,
                    1,
                    b as int,
                );
            }
        }
        -(q as i128)
    }
}

/// Fallback reprojection: the local linear approximation anchored at
/// 46 degrees north, 71 degrees west, easting origin 1,700,000 m, with
/// 111,000 m per degree scaled by cos(46 degrees) for longitude. Only
/// locally valid; error grows with distance from the anchor.
pub fn approx_to_wgs84(p: ProjPoint) -> (r: GeoPoint)
    requires
        -1_000_000_000_000_000 <= p.x_mm <= 1_000_000_000_000_000,
        -1_000_000_000_000_000 <= p.y_mm <= 1_000_000_000_000_000,
    ensures
        r == spec_approx_to_wgs84(p),
{
    let lat = ANCHOR_LAT_UDEG + div_trunc_i64(p.y_mm, MM_PER_LAT_UDEG);
    let dx: i128 = (p.x_mm as i128) - (ANCHOR_X_MM as i128);
    let off = div_trunc_i128(dx * 1_000_000_000, NANO_MM_PER_LNG_UDEG as i128);
    let lng = ANCHOR_LNG_UDEG + (off as i64);
    GeoPoint { lat_udeg: lat, lng_udeg: lng }
}

/// Half pi in nanoradians.
pub const HALF_PI_NANO: i64 = 1_570_796_327;

pub open spec fn clamp_int(v: int, lo: int, hi: int) -> int {
    if v < lo {
        lo
    } else if v > hi {
        hi
    } else {
        v
    }
}

pub open spec fn abs_int(v: int) -> int {
    if v < 0 {
        -v
    } else {
        v
    }
}

/// Half of `d` microdegrees, in nanoradians: one microdegree is
/// 17.453292519943295 nanoradians.
pub open spec fn spec_half_rad_nano(d: int) -> int {
    d * 17_453_292_519_943_295 / 2_000_000_000_000_000
}

/// `d` microdegrees in nanoradians.
pub open spec fn spec_rad_nano(d: int) -> int {
    d * 17_453_292_519_943_295 / 1_000_000_000_000_000
}

/// Truncated sine on [0, pi/2], scaled by 1e9 on both axes: a Taylor
/// polynomial of degree 11, clamped into [0, 1e9].
pub open spec fn spec_sin_nano(x: int) -> int {
    let x2 = x * x / 1_000_000_000;
    let x3 = x2 * x / 1_000_000_000;
    let x5 = x3 * x2 / 1_000_000_000;
    let x7 = x5 * x2 / 1_000_000_000;
    let x9 = x7 * x2 / 1_000_000_000;
    let x11 = x9 * x2 / 1_000_000_000;
    let pos = x + x5 / 120 + x9 / 362880;
    let neg = x3 / 6 + x7 / 5040 + x11 / 39916800;
    let v = if pos >= neg {
        pos - neg
    } else {
        0
    };
    if v > 1_000_000_000 {
        1_000_000_000
    } else {
        v
    }
}

/// Truncated cosine of `d` microdegrees, for `d` in [0, 90e6], scaled by
/// 1e9.
pub open spec fn spec_cos_nano(d: int) -> int {
    spec_sin_nano(HALF_PI_NANO - spec_rad_nano(d))
}

/// Truncated arcsine on [0, ~0.708e9], scaled by 1e9 on both axes: a
/// Taylor polynomial of degree 7, clamped into [0, pi/2 * 1e9].
pub open spec fn spec_asin_nano(x: int) -> int {
    let x2 = x * x / 1_000_000_000;
    let x3 = x2 * x / 1_000_000_000;
    let x5 = x3 * x2 / 1_000_000_000;
    let x7 = x5 * x2 / 1_000_000_000;
    let v = x + x3 / 6 + x5 * 3 / 40 + x7 * 15 / 336;
    if v > HALF_PI_NANO {
        HALF_PI_NANO as int
    } else {
        v
    }
}

/// The integer square root: the unique `r >= 0` with `r * r <= a` and
/// `a < (r + 1) * (r + 1)`.
pub open spec fn spec_isqrt(a: int) -> int {
    choose|r: int| r >= 0 && #[trigger] (r * r) <= a && a < (r + 1) * (r + 1)
}

proof fn lemma_isqrt_is(a: int, r: int)
    requires
        r >= 0,
        r * r <= a,
        a < (r + 1) * (r + 1),
    ensures
        spec_isqrt(a) == r,
{
    assert(exists|q: int| q >= 0 && #[trigger] (q * q) <= a && a < (q + 1) * (q + 1)) by {
        assert(r >= 0 && #[trigger] (r * r) <= a && a < (r + 1) * (r + 1));
    }
    let q = spec_isqrt(a);
    if q < r {
        assert((q + 1) * (q + 1) <= r * r) by (nonlinear_arith)
            requires
                0 <= q < r,
        ;
    }
    if q > r {
        assert((r + 1) * (r + 1) <= q * q) by (nonlinear_arith)
            requires
                0 <= r < q,
        ;
    }
}

/// Binary-search integer square root.
fn isqrt(a: u128) -> (r: u64)
    requires
        a <= 4_000_000_000_000_000_000,
    ensures
        r as int == spec_isqrt(a as int),
        r <= 2_000_000_000,
        r as int * r as int <= a as int,
        a < (r as int + 1) * (r as int + 1),
{
    let mut lo: u128 = 0;
    let mut hi: u128 = 2_000_000_001;
    proof {
        assert((2_000_000_001 as int) * (2_000_000_001 as int) > a);
    }
    while lo + 1 < hi
        invariant
            0 <= lo < hi <= 2_000_000_001,
            lo * lo <= a,
            a < hi * hi,
        decreases hi - lo,
    {
        let mid = lo + (hi - lo) / 2;
        proof {
            assert(mid * mid <= 2_000_000_001 * 2_000_000_001) by (nonlinear_arith)
                requires
                    0 <= mid <= 2_000_000_001,
            ;
        }
        if mid * mid <= a {
            lo = mid;
        } else {
            hi = mid;
        }
    }
    proof {
        lemma_isqrt_is(a as int, lo as int);
    }
    lo as u64
}

/// Exec mirror of `spec_sin_nano`.
fn sin_nano(x: u64) -> (r: u64)
    requires
        x <= 1_600_000_000,
    ensures
        r as int == spec_sin_nano(x as int),
        r <= 1_000_000_000,
{
    broadcast use vstd::arithmetic::div_mod::lemma_div_is_ordered;

    let xl: u128 = x as u128;
    proof {
        assert(xl * xl <= 1_600_000_000 * 1_600_000_000) by (nonlinear_arith)
            requires
                xl <= 1_600_000_000,
        ;
    }
    let x2: u128 = xl * xl / 1_000_000_000;
    proof {
        assert(x2 <= 2_560_000_000);
        assert(x2 * xl <= 2_560_000_000 * 1_600_000_000) by (nonlinear_arith)
            requires
                x2 <= 2_560_000_000,
                xl <= 1_600_000_000,
        ;
    }
    let x3: u128 = x2 * xl / 1_000_000_000;
    proof {
        assert(x3 <= 4_096_000_000);
        assert(x3 * x2 <= 4_096_000_000 * 2_560_000_000) by (nonlinear_arith)
            requires
                x3 <= 4_096_000_000,
                x2 <= 2_560_000_000,
        ;
    }
    let x5: u128 = x3 * x2 / 1_000_000_000;
    proof {
        assert(x5 <= 10_485_760_000);
        assert(x5 * x2 <= 10_485_760_000 * 2_560_000_000) by (nonlinear_arith)
            requires
                x5 <= 10_485_760_000,
                x2 <= 2_560_000_000,
        ;
    }
    let x7: u128 = x5 * x2 / 1_000_000_000;
    proof {
        assert(x7 <= 26_843_545_600);
        assert(x7 * x2 <= 26_843_545_600 * 2_560_000_000) by (nonlinear_arith)
            requires
                x7 <= 26_843_545_600,
                x2 <= 2_560_000_000,
        ;
    }
    let x9: u128 = x7 * x2 / 1_000_000_000;
    proof {
        assert(x9 <= 68_719_476_736);
        assert(x9 * x2 <= 68_719_476_736 * 2_560_000_000) by (nonlinear_arith)
            requires
                x9 <= 68_719_476_736,
                x2 <= 2_560_000_000,
        ;
    }
    let x11: u128 = x9 * x2 / 1_000_000_000;
    let pos: u128 = xl + x5 / 120 + x9 / 362880;
    let neg: u128 = x3 / 6 + x7 / 5040 + x11 / 39916800;
    let v: u128 = if pos >= neg {
        pos - neg
    } else {
        0
    };
    if v > 1_000_000_000 {
        1_000_000_000
    } else {
        v as u64
    }
}

/// Exec mirror of `spec_asin_nano`.
fn asin_nano(x: u64) -> (r: u64)
    requires
        x <= 710_000_000,
    ensures
        r as int == spec_asin_nano(x as int),
        r <= HALF_PI_NANO,
{
    broadcast use vstd::arithmetic::div_mod::lemma_div_is_ordered;

    let xl: u128 = x as u128;
    proof {
        assert(xl * xl <= 710_000_000 * 710_000_000) by (nonlinear_arith)
            requires
                xl <= 710_000_000,
        ;
    }
    let x2: u128 = xl * xl / 1_000_000_000;
    proof {
        assert(x2 <= 504_100_000);
        assert(x2 * xl <= 504_100_000 * 710_000_000) by (nonlinear_arith)
            requires
                x2 <= 504_100_000,
                xl <= 710_000_000,
        ;
    }
    let x3: u128 = x2 * xl / 1_000_000_000;
    proof {
        assert(x3 <= 357_911_000);
        assert(x3 * x2 <= 357_911_000 * 504_100_000) by (nonlinear_arith)
            requires
                x3 <= 357_911_000,
                x2 <= 504_100_000,
        ;
    }
    let x5: u128 = x3 * x2 / 1_000_000_000;
    proof {
        assert(x5 <= 254_116_810);
        assert(x5 * x2 <= 254_116_810 * 504_100_000) by (nonlinear_arith)
            requires
                x5 <= 254_116_810,
                x2 <= 504_100_000,
        ;
    }
    let x7: u128 = x5 * x2 / 1_000_000_000;
    let v: u128 = xl + x3 / 6 + x5 * 3 / 40 + x7 * 15 / 336;
    if v > HALF_PI_NANO as u128 {
        HALF_PI_NANO as u64
    } else {
        v as u64
    }
}

/// Scaled haversine value for two geodetic points: latitudes clamped to
/// [-90, 90] degrees, longitude difference folded into [0, 180] degrees,
/// the result in [0, 1e18].
pub open spec fn spec_hav(a: GeoPoint, b: GeoPoint) -> int {
    let lat1 = clamp_int(a.lat_udeg as int, -90_000_000, 90_000_000);
    let lat2 = clamp_int(b.lat_udeg as int, -90_000_000, 90_000_000);
    let lng1 = clamp_int(a.lng_udeg as int, -180_000_000, 180_000_000);
    let lng2 = clamp_int(b.lng_udeg as int, -180_000_000, 180_000_000);
    let dlat = abs_int(lat1 - lat2);
    let dl0 = abs_int(lng1 - lng2);
    let dlng = if dl0 > 180_000_000 {
        360_000_000 - dl0
    } else {
        dl0
    };
    let s1 = spec_sin_nano(spec_half_rad_nano(dlat));
    let s2 = spec_sin_nano(spec_half_rad_nano(dlng));
    let c1 = spec_cos_nano(abs_int(lat1));
    let c2 = spec_cos_nano(abs_int(lat2));
    let t = c1 * c2 / 1_000_000_000;
    let hav = s1 * s1 + t * (s2 * s2 / 1_000_000_000);
    if hav > 1_000_000_000_000_000_000 {
        1_000_000_000_000_000_000
    } else {
        hav
    }
}

/// Central angle, in nanoradians, under a scaled haversine value:
/// `2 * asin(sqrt(h))`.
pub open spec fn spec_arc_nano(h: int) -> int {
    if h <= 500_000_000_000_000_000 {
        2 * spec_asin_nano(spec_isqrt(h))
    } else {
        2 * (HALF_PI_NANO - spec_asin_nano(spec_isqrt(1_000_000_000_000_000_000 - h)))
    }
}

/// Great-circle (haversine) distance between two geodetic points, in
/// milli-kilometers (meters), on a sphere of radius 6371 km. Inputs
/// outside the geodetic ranges are clamped and yield a defined but
/// meaningless value, never an error.
pub open spec fn spec_distance_mkm(a: GeoPoint, b: GeoPoint) -> int {
    spec_arc_nano(spec_hav(a, b)) * 6_371_000 / 1_000_000_000
}

/// Clamp a latitude or longitude into `[-limit, limit]` microdegrees.
fn clamp_udeg(v: i64, limit: i64) -> (r: i64)
    requires
        0 < limit,
    ensures
        r as int == clamp_int(v as int, -limit as int, limit as int),
        -limit <= r <= limit,
{
    if v < -limit {
        -limit
    } else if v > limit {
        limit
    } else {
        v
    }
}

/// Magnitude of a difference of bounded values.
fn abs_diff(a: i64, b: i64) -> (r: u64)
    requires
        -1_000_000_000 <= a <= 1_000_000_000,
        -1_000_000_000 <= b <= 1_000_000_000,
    ensures
        r as int == abs_int(a - b),
{
    if a >= b {
        (a - b) as u64
    } else {
        (b - a) as u64
    }
}

/// Half of `d` microdegrees in nanoradians, in exec code.
fn half_rad_nano(d: u64) -> (r: u64)
    requires
        d <= 180_000_000,
    ensures
        r as int == spec_half_rad_nano(d as int),
        r <= 1_570_796_327,
{
    let p: u128 = (d as u128) * 17_453_292_519_943_295;
    let q = p / 2_000_000_000_000_000;
    q as u64
}

/// `d` microdegrees in nanoradians, in exec code.
fn rad_nano(d: u64) -> (r: u64)
    requires
        d <= 90_000_000,
    ensures
        r as int == spec_rad_nano(d as int),
        r <= 1_570_796_327,
{
    let p: u128 = (d as u128) * 17_453_292_519_943_295;
    let q = p / 1_000_000_000_000_000;
    q as u64
}

/// Exec mirror of `spec_hav`.
#[verifier::rlimit(60)]
#[verifier::spinoff_prover]
fn hav_value(a: GeoPoint, b: GeoPoint) -> (h: u128)
    ensures
        h as int == spec_hav(a, b),
        h <= 1_000_000_000_000_000_000,
{
    let lat1 = clamp_udeg(a.lat_udeg, 90_000_000);
    let lat2 = clamp_udeg(b.lat_udeg, 90_000_000);
    let lng1 = clamp_udeg(a.lng_udeg, 180_000_000);
    let lng2 = clamp_udeg(b.lng_udeg, 180_000_000);
    let dlat = abs_diff(lat1, lat2);
    let dl0 = abs_diff(lng1, lng2);
    let dlng = if dl0 > 180_000_000 {
        360_000_000 - dl0
    } else {
        dl0
    };
    let s1 = sin_nano(half_rad_nano(dlat)) as u128;
    let s2 = sin_nano(half_rad_nano(dlng)) as u128;
    let lat1_abs = if lat1 >= 0 {
        lat1 as u64
    } else {
        (-lat1) as u64
    };
    let lat2_abs = if lat2 >= 0 {
        lat2 as u64
    } else {
        (-lat2) as u64
    };
    let c1 = sin_nano(HALF_PI_NANO as u64 - rad_nano(lat1_abs)) as u128;
    let c2 = sin_nano(HALF_PI_NANO as u64 - rad_nano(lat2_abs)) as u128;
    proof {
        assert(c1 * c2 <= 1_000_000_000 * 1_000_000_000) by (nonlinear_arith)
            requires
                c1 <= 1_000_000_000,
                c2 <= 1_000_000_000,
        ;
        assert(s1 * s1 <= 1_000_000_000 * 1_000_000_000) by (nonlinear_arith)
            requires
                s1 <= 1_000_000_000,
        ;
        assert(s2 * s2 <= 1_000_000_000 * 1_000_000_000) by (nonlinear_arith)
            requires
                s2 <= 1_000_000_000,
        ;
    }
    let t: u128 = c1 * c2 / 1_000_000_000;
    let s2sq: u128 = s2 * s2 / 1_000_000_000;
    proof {
        broadcast use vstd::arithmetic::div_mod::lemma_div_is_ordered;

        assert(t <= 1_000_000_000);
        assert(s2sq <= 1_000_000_000);
        assert(t * s2sq <= 1_000_000_000 * 1_000_000_000) by (nonlinear_arith)
            requires
                t <= 1_000_000_000,
                s2sq <= 1_000_000_000,
        ;
    }
    let hav: u128 = s1 * s1 + t * s2sq;
    if hav > 1_000_000_000_000_000_000 {
        1_000_000_000_000_000_000
    } else {
        hav
    }
}

/// Exec mirror of `spec_arc_nano`.
#[verifier::rlimit(60)]
#[verifier::spinoff_prover]
fn arc_nano(h: u128) -> (c: u64)
    requires
        h <= 1_000_000_000_000_000_000,
    ensures
        c as int == spec_arc_nano(h as int),
        c <= 3_141_592_654,
{
    if h <= 500_000_000_000_000_000 {
        let root = isqrt(h);
        proof {
            assert(root <= 710_000_000) by (nonlinear_arith)
                requires
                    root as int * root as int <= 500_000_000_000_000_000,
                    root >= 0,
            ;
        }
        2 * asin_nano(root)
    } else {
        let root = isqrt(1_000_000_000_000_000_000 - h);
        proof {
            assert(root <= 710_000_000) by (nonlinear_arith)
                requires
                    root as int * root as int <= 500_000_000_000_000_000,
                    root >= 0,
            ;
        }
        2 * (HALF_PI_NANO as u64 - asin_nano(root))
    }
}

/// Great-circle (haversine) distance in milli-kilometers (meters); see
/// `spec_distance_mkm`.
pub fn distance_km(a: GeoPoint, b: GeoPoint) -> (r: i64)
    ensures
        r as int == spec_distance_mkm(a, b),
        0 <= r <= 20_100_000,
{
    let h = hav_value(a, b);
    let c = arc_nano(h);
    let d: u128 = (c as u128) * 6_371_000 / 1_000_000_000;
    d as i64
}

/// A point is at distance zero from itself.
#[verifier::rlimit(60)]
pub proof fn lemma_distance_zero(a: GeoPoint)
    ensures
        spec_distance_mkm(a, a) == 0,
{
    lemma_isqrt_is(0, 0);
    assert(spec_half_rad_nano(0) == 0);
    assert(spec_sin_nano(0) == 0);
    assert(spec_asin_nano(0) == 0);
    let lat1 = clamp_int(a.lat_udeg as int, -90_000_000, 90_000_000);
    let c1 = spec_cos_nano(abs_int(lat1));
    let t = c1 * c1 / 1_000_000_000;
    assert(t * (0int / 1_000_000_000) / 1_000_000_000 == 0);
}

/// Distance does not depend on the order of its arguments.
#[verifier::rlimit(60)]
pub proof fn lemma_distance_symmetric(a: GeoPoint, b: GeoPoint)
    ensures
        spec_distance_mkm(a, b) == spec_distance_mkm(b, a),
{
    let lat1 = clamp_int(a.lat_udeg as int, -90_000_000, 90_000_000);
    let lat2 = clamp_int(b.lat_udeg as int, -90_000_000, 90_000_000);
    let lng1 = clamp_int(a.lng_udeg as int, -180_000_000, 180_000_000);
    let lng2 = clamp_int(b.lng_udeg as int, -180_000_000, 180_000_000);
    assert(abs_int(lat1 - lat2) == abs_int(lat2 - lat1));
    assert(abs_int(lng1 - lng2) == abs_int(lng2 - lng1));
    let c1 = spec_cos_nano(abs_int(lat1));
    let c2 = spec_cos_nano(abs_int(lat2));
    assert(c1 * c2 == c2 * c1);
}

} // verus!
