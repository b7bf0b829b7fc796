//! Fixed-point world and screen coordinates.
//!
//! Every length and coordinate is a whole number of thousandths of a unit, so
//! that half-gaps, averages and zoom factors stay exact integers. Values that
//! the library stores are kept inside `[-COORD_MAX, COORD_MAX]` by saturation.

use vstd::prelude::*;

verus! {

/// Number of stored sub-units in one world (or screen) unit.
pub const UNIT: i64 = 1000;

/// Largest magnitude a stored coordinate may take.
pub const COORD_MAX: i64 = 1_000_000_000_000_000;

/// A position on the canvas or on the screen.
#[derive(Clone, Copy, Debug, PartialEq, Eq, Structural)]
pub struct Point {
    pub x: i64,
    pub y: i64,
}

/// A displacement between two points.
#[derive(Clone, Copy, Debug, PartialEq, Eq, Structural)]
pub struct Vector {
    pub x: i64,
    pub y: i64,
}

/// `v` pulled into the coordinate range.
pub open spec fn clamp_coord(v: int) -> int {
    if v < -COORD_MAX {
        -COORD_MAX as int
    } else if v > COORD_MAX {
        COORD_MAX as int
    } else {
        v
    }
}

/// Whether `v` lies inside the coordinate range.
pub open spec fn in_range(v: int) -> bool {
    -COORD_MAX <= v <= COORD_MAX
}

/// Saturates a wide intermediate result to a stored coordinate.
pub fn saturate(v: i128) -> (r: i64)
    ensures
        r == clamp_coord(v as int),
        in_range(r as int),
{
    if v < -(COORD_MAX as i128) {
        -COORD_MAX
    } else if v > COORD_MAX as i128 {
        COORD_MAX
    } else {
        v as i64
    }
}

/// Bound under which `div_floor` and `scale` work without overflow.
pub const WIDE_MAX: i128 = 0x1_0000_0000_0000_0000_0000_0000;

/// Quotient rounded towards negative infinity.
pub fn div_floor(a: i128, b: i128) -> (r: i128)
    requires
        -WIDE_MAX <= a <= WIDE_MAX,
        0 < b <= WIDE_MAX,
    ensures
        r == a as int / b as int,
        -WIDE_MAX <= r <= WIDE_MAX,
{
    if a >= 0 {
        let q: i128 = a / b;
        assert(0 <= a as int / b as int <= a) by (nonlinear_arith)
            requires
                a >= 0,
                b > 0,
        ;
        q
    } else {
        let n: i128 = -a;
        let q: i128 = (n + (b - 1)) / b;
        assert(a as int / b as int == -((n + b - 1) as int / b as int)) by {
            lemma_floor_of_negative(n as int, b as int);
        }
        assert(0 <= (n + b - 1) as int / b as int <= n) by (nonlinear_arith)
            requires
                n > 0,
                b > 0,
        ;
        -q
    }
}

/// For positive `n`, flooring `-n / b` is the negated ceiling of `n / b`.
pub proof fn lemma_floor_of_negative(n: int, b: int)
    requires
        n > 0,
        b > 0,
    ensures
        (-n) / b == -((n + b - 1) / b),
{
    let q = (n + b - 1) / b;
    let r = (n + b - 1) % b;
    assert(n + b - 1 == b * q + r && 0 <= r < b) by {
        vstd::arithmetic::div_mod::lemma_fundamental_div_mod(n + b - 1, b);
        vstd::arithmetic::div_mod::lemma_mod_bound(n + b - 1, b);
    }
    // -n == b * (-q) + (b - 1 - r), with 0 <= b - 1 - r < b
    assert(-n == b * (-q) + (b - 1 - r)) by (nonlinear_arith)
        requires
            n + b - 1 == b * q + r,
    ;
    vstd::arithmetic::div_mod::lemma_fundamental_div_mod_converse(-n, b, -q, b - 1 - r);
}

/// `value * num / den`, floored and saturated to the coordinate range.
pub open spec fn scaled(value: int, num: int, den: int) -> int {
    clamp_coord(value * num / den)
}

/// Multiplies by `num / den` with a wide intermediate product.
pub fn scale(value: i64, num: i64, den: i64) -> (r: i64)
    requires
        0 < den,
        -0x1_0000_0000 <= num <= 0x1_0000_0000,
    ensures
        r == scaled(value as int, num as int, den as int),
        in_range(r as int),
{
    let wide: i128 = value as i128;
    let factor: i128 = num as i128;
    assert(-WIDE_MAX <= wide * factor <= WIDE_MAX) by (nonlinear_arith)
        requires
            -0x8000_0000_0000_0000 <= wide <= 0x7fff_ffff_ffff_ffff,
            -0x1_0000_0000 <= factor <= 0x1_0000_0000,
            WIDE_MAX == 0x1_0000_0000_0000_0000_0000_0000,
    ;
    let product: i128 = wide * factor;
    saturate(div_floor(product, den as i128))
}

/// Sum of two coordinates, saturated.
pub fn add_sat(a: i64, b: i64) -> (r: i64)
    ensures
        r == clamp_coord(a + b),
        in_range(r as int),
{
    saturate(a as i128 + b as i128)
}

/// Difference of two coordinates, saturated.
pub fn sub_sat(a: i64, b: i64) -> (r: i64)
    ensures
        r == clamp_coord(a - b),
        in_range(r as int),
{
    saturate(a as i128 - b as i128)
}

} // verus!
