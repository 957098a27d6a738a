//! Fixed-point trigonometry on directions in milli-degrees.
//!
//! Sines and cosines are held in milli-units (1000 stands for 1.0).  The
//! rational approximation used here is exact at every multiple of thirty
//! degrees that the simulation cares about (0, 90, 180, 270 degrees give
//! 0, 1000, 0, -1000), which keeps the cardinal-direction scenarios free of
//! rounding.

use vstd::prelude::*;

verus! {

/// One full turn in milli-degrees.
pub const FULL_TURN_MDEG: i64 = 360_000;

/// Half a turn in milli-degrees.
pub const HALF_TURN_MDEG: i64 = 180_000;

/// A quarter turn in milli-degrees.
pub const QUARTER_TURN_MDEG: i64 = 90_000;

/// Sine in milli-units of an angle between zero and half a turn, by the
/// rational approximation 4 x (180 - x) / (40500 - x (180 - x)) with x in
/// degrees.
pub open spec fn sin_half_turn(x: int) -> int {
    let p = x * (180_000 - x);
    (4000 * p) / (40_500_000_000 - p)
}

/// Sine in milli-units of an angle between zero and a full turn.
pub open spec fn sin_mil(x: int) -> int {
    if x <= 180_000 {
        sin_half_turn(x)
    } else {
        -sin_half_turn(x - 180_000)
    }
}

/// Sine in milli-units of any non-negative angle in milli-degrees.
pub open spec fn dir_sin(d: int) -> int {
    sin_mil(d % 360_000)
}

/// Cosine in milli-units of any non-negative angle in milli-degrees.
pub open spec fn dir_cos(d: int) -> int {
    sin_mil((d + 90_000) % 360_000)
}

/// The product x (180000 - x) stays within [0, 8.1e9] on [0, 180000].
proof fn lemma_half_turn_product_bounds(x: int)
    requires
        0 <= x <= 180_000,
    ensures
        0 <= x * (180_000 - x) <= 8_100_000_000,
{
    assert(0 <= x * (180_000 - x) <= 8_100_000_000) by (nonlinear_arith)
        requires
            0 <= x <= 180_000,
    {
    }
}

/// The half-turn sine stays within [0, 1000].
pub proof fn lemma_sin_half_turn_bounds(x: int)
    requires
        0 <= x <= 180_000,
    ensures
        0 <= sin_half_turn(x) <= 1000,
{
    let p = x * (180_000 - x);
    lemma_half_turn_product_bounds(x);
    assert(40_500_000_000 - p >= 32_400_000_000);
    assert(4000 * p >= 0);
    vstd::arithmetic::div_mod::lemma_div_is_ordered(0, 4000 * p, 40_500_000_000 - p);
    assert(4000 * p <= 1000 * (40_500_000_000 - p)) by (nonlinear_arith)
        requires
            0 <= p <= 8_100_000_000,
    {
    }
    vstd::arithmetic::div_mod::lemma_div_is_ordered(4000 * p, 1000 * (40_500_000_000 - p),
        40_500_000_000 - p);
    vstd::arithmetic::div_mod::lemma_div_multiples_vanish(1000, 40_500_000_000 - p);
}

/// The full-turn sine stays within [-1000, 1000].
pub proof fn lemma_sin_mil_bounds(x: int)
    requires
        0 <= x <= 360_000,
    ensures
        -1000 <= sin_mil(x) <= 1000,
{
    if x <= 180_000 {
        lemma_sin_half_turn_bounds(x);
    } else {
        lemma_sin_half_turn_bounds(x - 180_000);
    }
}

/// Bounds of the sine of an arbitrary direction.
pub proof fn lemma_dir_sin_bounds(d: int)
    ensures
        -1000 <= dir_sin(d) <= 1000,
{
    vstd::arithmetic::div_mod::lemma_mod_bound(d, 360_000);
    lemma_sin_mil_bounds(d % 360_000);
}

/// Bounds of the cosine of an arbitrary direction.
pub proof fn lemma_dir_cos_bounds(d: int)
    ensures
        -1000 <= dir_cos(d) <= 1000,
{
    vstd::arithmetic::div_mod::lemma_mod_bound(d + 90_000, 360_000);
    lemma_sin_mil_bounds((d + 90_000) % 360_000);
}

/// Sine in milli-units of a direction in milli-degrees.
pub fn sin_mdeg(d: i64) -> (r: i64)
    requires
        0 <= d,
    ensures
        r == dir_sin(d as int),
        -1000 <= r <= 1000,
{
    let x: i64 = d % 360_000;
    proof {
        vstd::arithmetic::div_mod::lemma_mod_bound(d as int, 360_000);
        lemma_sin_mil_bounds(x as int);
    }
    if x <= 180_000 {
        sin_half_exec(x)
    } else {
        proof {
            lemma_sin_half_turn_bounds(x - 180_000);
        }
        -sin_half_exec(x - 180_000)
    }
}

/// Cosine in milli-units of a direction in milli-degrees.
pub fn cos_mdeg(d: i64) -> (r: i64)
    requires
        0 <= d <= 0x7fff_ffff_fff0_0000,
    ensures
        r == dir_cos(d as int),
        -1000 <= r <= 1000,
{
    sin_mdeg(d + 90_000)
}

/// The half-turn sine, executable.
pub fn sin_half_exec(x: i64) -> (r: i64)
    requires
        0 <= x <= 180_000,
    ensures
        r == sin_half_turn(x as int),
        0 <= r <= 1000,
{
    proof {
        lemma_half_turn_product_bounds(x as int);
        lemma_sin_half_turn_bounds(x as int);
    }
    let p: i64 = x * (180_000 - x);
    (4000 * p) / (40_500_000_000 - p)
}

} // verus!
