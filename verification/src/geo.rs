//! Geodesic utilities on a fixed-point earth model.
//!
//! Positions are latitude and longitude in micro-degrees.  Lengths are in
//! sixtieths of a millimetre ("units"); in this model one degree of latitude
//! spans exactly 111.2 km, that is [`UNITS_PER_UDEG`] units per micro-degree.
//! A degree of longitude spans the same scaled by the cosine of the latitude,
//! which makes distances the equirectangular approximation of the great
//! circle - adequate over the small study areas the planner works in.

use vstd::prelude::*;

use crate::angles::lemma_sin_half_turn_bounds;
use crate::angles::sin_half_turn;

verus! {

/// Length units (sixtieths of a millimetre) per micro-degree of latitude.
pub const UNITS_PER_UDEG: i64 = 6672;

/// Largest representable latitude, in micro-degrees.
pub const LAT_LIMIT_UDEG: i64 = 90_000_000;

/// Largest representable longitude, in micro-degrees.
pub const LON_LIMIT_UDEG: i64 = 180_000_000;

/// A position on the earth: latitude and longitude in micro-degrees.
#[derive(Clone, Copy, Debug, PartialEq, Eq, Structural)]
pub struct GeoPos {
    pub lat: i64,
    pub lon: i64,
}

impl GeoPos {
    /// The position lies within the representable latitude and longitude
    /// ranges.
    pub open spec fn in_domain(self) -> bool {
        &&& -LAT_LIMIT_UDEG <= self.lat <= LAT_LIMIT_UDEG
        &&& -LON_LIMIT_UDEG <= self.lon <= LON_LIMIT_UDEG
    }
}

/// Integer division truncating towards zero, as the executable code computes
/// it.
pub open spec fn tdiv(a: int, b: int) -> int {
    if a >= 0 {
        a / b
    } else {
        -((-a) / b)
    }
}

/// Absolute value.
pub open spec fn iabs(a: int) -> int {
    if a >= 0 {
        a
    } else {
        -a
    }
}

/// Truncating division is bounded by the bounds of the exact quotient.
pub proof fn lemma_tdiv_bounds(a: int, b: int)
    requires
        b > 0,
    ensures
        iabs(tdiv(a, b)) <= iabs(a) / b,
        iabs(tdiv(a, b)) * b <= iabs(a),
{
    if a >= 0 {
        vstd::arithmetic::div_mod::lemma_fundamental_div_mod(a, b);
        vstd::arithmetic::div_mod::lemma_mod_bound(a, b);
        assert(iabs(tdiv(a, b)) * b <= iabs(a)) by (nonlinear_arith)
            requires
                b > 0,
                a >= 0,
                a == b * (a / b) + a % b,
                a % b >= 0,
                a / b >= 0,
        {
        }
    } else {
        vstd::arithmetic::div_mod::lemma_fundamental_div_mod(-a, b);
        vstd::arithmetic::div_mod::lemma_mod_bound(-a, b);
        assert(iabs(tdiv(a, b)) * b <= iabs(a)) by (nonlinear_arith)
            requires
                b > 0,
                a < 0,
                -a == b * ((-a) / b) + (-a) % b,
                (-a) % b >= 0,
                (-a) / b >= 0,
                tdiv(a, b) == -((-a) / b),
        {
        }
    }
}

/// Cosine, in milli-units, of a latitude given in micro-degrees.
pub open spec fn cos_lat(lat_udeg: int) -> int {
    sin_half_turn(90_000 - iabs(lat_udeg) / 1000)
}

/// The cosine of a representable latitude lies within [0, 1000].
pub proof fn lemma_cos_lat_bounds(lat_udeg: int)
    requires
        -LAT_LIMIT_UDEG <= lat_udeg <= LAT_LIMIT_UDEG,
    ensures
        0 <= cos_lat(lat_udeg) <= 1000,
{
    assert(0 <= iabs(lat_udeg) / 1000 <= 90_000);
    lemma_sin_half_turn_bounds(90_000 - iabs(lat_udeg) / 1000);
}

/// Executable cosine of a latitude in micro-degrees.
pub fn cos_lat_mil(lat_udeg: i64) -> (r: i64)
    requires
        -LAT_LIMIT_UDEG <= lat_udeg <= LAT_LIMIT_UDEG,
    ensures
        r == cos_lat(lat_udeg as int),
        0 <= r <= 1000,
{
    let a: i64 = if lat_udeg < 0 {
        -lat_udeg
    } else {
        lat_udeg
    };
    let x: i64 = 90_000 - a / 1000;
    crate::angles::sin_half_exec(x)
}

/// Integer square root: the largest `r` with `r * r <= n`.
pub fn isqrt(n: u128) -> (r: u64)
    requires
        n < 0x1000_0000_0000_0000_0000_0000_0000_0000,
    ensures
        (r as int) * (r as int) <= n < (r as int + 1) * (r as int + 1),
{
    let mut lo: u64 = 0;
    let mut hi: u64 = 0x8000_0000_0000_0000;
    proof {
        assert((hi as int) * (hi as int) > n);
    }
    while lo + 1 < hi
        invariant
            lo < hi <= 0x8000_0000_0000_0000,
            (lo as int) * (lo as int) <= n,
            (hi as int) * (hi as int) > n,
        decreases hi - lo,
    {
        let mid: u64 = lo + (hi - lo) / 2;
        proof {
            assert((mid as int) * (mid as int) <= 0x8000_0000_0000_0000 * 0x8000_0000_0000_0000)
                by (nonlinear_arith)
                requires
                    0 <= mid <= 0x8000_0000_0000_0000,
            {
            }
        }
        if (mid as u128) * (mid as u128) <= n {
            lo = mid;
        } else {
            hi = mid;
        }
    }
    lo
}

/// Northward displacement, in length units, from `a` to `b`.
pub open spec fn north_units(a: GeoPos, b: GeoPos) -> int {
    (b.lat - a.lat) * UNITS_PER_UDEG
}

/// Eastward displacement, in length units, from `a` to `b`, measured along
/// the parallel of `a`.
pub open spec fn east_units(a: GeoPos, b: GeoPos) -> int {
    tdiv((b.lon - a.lon) * UNITS_PER_UDEG * cos_lat(a.lat as int), 1000)
}

/// Straight-line distance, in length units, from `a` to `b` under the
/// equirectangular model.
pub open spec fn distance_units(a: GeoPos, b: GeoPos) -> int {
    isqrt_spec(north_units(a, b) * north_units(a, b) + east_units(a, b) * east_units(a, b))
}

/// `r` is the integer square root of `n`.
pub open spec fn is_isqrt(r: int, n: int) -> bool {
    0 <= r && r * r <= n < (r + 1) * (r + 1)
}

/// The integer square root as a spec value: the largest non-negative root.
pub open spec fn isqrt_spec(n: int) -> int {
    choose|r: int| is_isqrt(r, n)
}

/// Largest step length, in units, that `project` accepts.
pub const STEP_LIMIT_UNITS: i64 = 0x8_0000_0000_0000;

/// Latitude, in micro-degrees, after advancing `step` units along a course
/// whose northward milli-unit component is `un`.  The result is clamped to
/// the representable range.
pub open spec fn project_lat(o: GeoPos, un: int, step: int) -> int {
    let raw = o.lat + tdiv(un * step, 6_672_000);
    if raw < -LAT_LIMIT_UDEG {
        -LAT_LIMIT_UDEG as int
    } else if raw > LAT_LIMIT_UDEG {
        LAT_LIMIT_UDEG as int
    } else {
        raw
    }
}

/// Longitude wrapped into the representable range.
pub open spec fn wrap_lon(x: int) -> int {
    ((x + 180_000_000) % 360_000_000) - 180_000_000
}

/// Longitude, in micro-degrees, after advancing `step` units along a course
/// whose eastward milli-unit component is `ue`, measured on the parallel of
/// the origin.  At the poles the parallel has no extent and the longitude is
/// kept.
pub open spec fn project_lon(o: GeoPos, ue: int, step: int) -> int {
    let c = cos_lat(o.lat as int);
    if c <= 0 {
        o.lon as int
    } else {
        wrap_lon(o.lon + tdiv(ue * step, 6672 * c))
    }
}

/// Advance `step` length units from `o` along the fixed course whose
/// northward and eastward milli-unit components are `un` and `ue`.
pub fn project(o: GeoPos, un: i64, ue: i64, step: i64) -> (r: GeoPos)
    requires
        o.in_domain(),
        -1000 <= un <= 1000,
        -1000 <= ue <= 1000,
        -STEP_LIMIT_UNITS <= step <= STEP_LIMIT_UNITS,
    ensures
        r.in_domain(),
        r.lat == project_lat(o, un as int, step as int),
        r.lon == project_lon(o, ue as int, step as int),
{
    proof {
        lemma_cos_lat_bounds(o.lat as int);
        lemma_tdiv_bounds(un as int * step as int, 6_672_000);
        assert(iabs(un as int * step as int) <= 1000 * STEP_LIMIT_UNITS) by (nonlinear_arith)
            requires
                -1000 <= un <= 1000,
                -STEP_LIMIT_UNITS <= step <= STEP_LIMIT_UNITS,
        {
        }
    }
    let dlat: i64 = (un * step) / 6_672_000;
    let raw: i64 = o.lat + dlat;
    let lat: i64 = if raw < -LAT_LIMIT_UDEG {
        -LAT_LIMIT_UDEG
    } else if raw > LAT_LIMIT_UDEG {
        LAT_LIMIT_UDEG
    } else {
        raw
    };
    let c: i64 = cos_lat_mil(o.lat);
    let lon: i64 = if c <= 0 {
        o.lon
    } else {
        proof {
            lemma_tdiv_bounds(ue as int * step as int, 6672 * c as int);
            assert(iabs(ue as int * step as int) <= 1000 * STEP_LIMIT_UNITS) by (nonlinear_arith)
                requires
                    -1000 <= ue <= 1000,
                    -STEP_LIMIT_UNITS <= step <= STEP_LIMIT_UNITS,
            {
            }
            assert(iabs(ue as int * step as int) / (6672 * c as int) <= 1000 * STEP_LIMIT_UNITS)
                by {
                vstd::arithmetic::div_mod::lemma_div_is_ordered_by_denominator(
                    iabs(ue as int * step as int), 1, 6672 * c as int);
            }
        }
        let dlon: i64 = (ue * step) / (6672 * c);
        let shifted: i64 = o.lon + dlon + 180_000_000;
        let m: i64 = shifted % 360_000_000;
        let m: i64 = if m < 0 {
            m + 360_000_000
        } else {
            m
        };
        m - 180_000_000
    };
    GeoPos { lat, lon }
}

/// Northward and eastward displacement, in length units, from `a` to `b`.
pub fn displacement(a: GeoPos, b: GeoPos) -> (r: (i64, i64))
    requires
        a.in_domain(),
        b.in_domain(),
    ensures
        r.0 == north_units(a, b),
        r.1 == east_units(a, b),
        iabs(r.0 as int) <= 0x2_4000_0000_0000,
        iabs(r.1 as int) <= 0x2_4000_0000_0000,
{
    proof {
        lemma_cos_lat_bounds(a.lat as int);
        lemma_tdiv_bounds((b.lon - a.lon) as int * UNITS_PER_UDEG * cos_lat(a.lat as int), 1000);
        assert(iabs((b.lon - a.lon) as int * UNITS_PER_UDEG * cos_lat(a.lat as int))
            <= 360_000_000 * 6672 * 1000) by (nonlinear_arith)
            requires
                iabs((b.lon - a.lon) as int) <= 360_000_000,
                0 <= cos_lat(a.lat as int) <= 1000,
        {
        }
    }
    let n: i64 = (b.lat - a.lat) * UNITS_PER_UDEG;
    let c: i64 = cos_lat_mil(a.lat);
    let e: i64 = ((b.lon - a.lon) * UNITS_PER_UDEG * c) / 1000;
    (n, e)
}

/// Straight-line distance, in length units, from `a` to `b`.
pub fn distance_between(a: GeoPos, b: GeoPos) -> (r: i64)
    requires
        a.in_domain(),
        b.in_domain(),
    ensures
        r == distance_units(a, b),
        0 <= r <= 0x4_0000_0000_0000,
        is_isqrt(r as int, north_units(a, b) * north_units(a, b) + east_units(a, b) * east_units(
            a, b)),
{
    let (n, e) = displacement(a, b);
    proof {
        assert(n as i128 * n as i128 == n as int * n as int
            && 0 <= n as int * n as int <= 0x2_4000_0000_0000 * 0x2_4000_0000_0000)
            by (nonlinear_arith)
            requires
                iabs(n as int) <= 0x2_4000_0000_0000,
        {
        }
        assert(e as i128 * e as i128 == e as int * e as int
            && 0 <= e as int * e as int <= 0x2_4000_0000_0000 * 0x2_4000_0000_0000)
            by (nonlinear_arith)
            requires
                iabs(e as int) <= 0x2_4000_0000_0000,
        {
        }
    }
    let n2: u128 = ((n as i128) * (n as i128)) as u128;
    let e2: u128 = ((e as i128) * (e as i128)) as u128;
    let d2: u128 = n2 + e2;
    let r: u64 = isqrt(d2);
    proof {
        lemma_isqrt_spec(d2 as int, r as int);
        assert(r as int * r as int <= d2 ==> r <= 0x4_0000_0000_0000) by (nonlinear_arith)
            requires
                d2 <= 2 * (0x2_4000_0000_0000 * 0x2_4000_0000_0000),
        {
        }
    }
    r as i64
}

/// Milli-unit course components along the displacement `(n, e)` whose length
/// is `d`.
pub fn unit_course(n: i64, e: i64, d: i64) -> (r: (i64, i64))
    requires
        0 < d <= 0x4_0000_0000_0000,
        is_isqrt(d as int, n as int * n as int + e as int * e as int),
    ensures
        r.0 == tdiv(n as int * 1000, d as int),
        r.1 == tdiv(e as int * 1000, d as int),
        -1000 <= r.0 <= 1000,
        -1000 <= r.1 <= 1000,
{
    proof {
        assert(iabs(n as int) <= d && iabs(e as int) <= d) by (nonlinear_arith)
            requires
                is_isqrt(d as int, n as int * n as int + e as int * e as int),
                d > 0,
        {
        }
        lemma_tdiv_bounds(n as int * 1000, d as int);
        lemma_tdiv_bounds(e as int * 1000, d as int);
        assert(iabs(n as int * 1000) / (d as int) <= 1000 && iabs(e as int * 1000) / (d as int)
            <= 1000) by (nonlinear_arith)
            requires
                iabs(n as int) <= d,
                iabs(e as int) <= d,
                d > 0,
                iabs(n as int * 1000) == iabs(n as int) * 1000,
                iabs(e as int * 1000) == iabs(e as int) * 1000,
        {
        }
    }
    ((n * 1000) / d, (e * 1000) / d)
}

/// Every non-negative integer has an integer square root, so `isqrt_spec`
/// denotes one.
pub proof fn lemma_isqrt_exists(n: int)
    requires
        n >= 0,
    ensures
        is_isqrt(isqrt_spec(n), n),
    decreases n,
{
    if n == 0 {
        assert(is_isqrt(0, 0));
    } else {
        lemma_isqrt_exists(n - 1);
        let r = isqrt_spec(n - 1);
        if (r + 1) * (r + 1) == n {
            assert(is_isqrt(r + 1, n)) by (nonlinear_arith)
                requires
                    is_isqrt(r, n - 1),
                    (r + 1) * (r + 1) == n,
            {
            }
        } else {
            assert(is_isqrt(r, n)) by (nonlinear_arith)
                requires
                    is_isqrt(r, n - 1),
                    (r + 1) * (r + 1) != n,
            {
            }
        }
    }
}

/// The integer square root exists and is unique, so `isqrt_spec` picks it.
pub proof fn lemma_isqrt_spec(n: int, r: int)
    requires
        0 <= r,
        r * r <= n < (r + 1) * (r + 1),
    ensures
        isqrt_spec(n) == r,
{
    assert(is_isqrt(r, n));
    let w = choose|w: int| is_isqrt(w, n);
    assert(is_isqrt(w, n));
    assert(w == r) by (nonlinear_arith)
        requires
            0 <= r,
            0 <= w,
            r * r <= n < (r + 1) * (r + 1),
            w * w <= n < (w + 1) * (w + 1),
    {
    }
}

} // verus!
