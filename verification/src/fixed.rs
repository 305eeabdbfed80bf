//! Decimal fixed-point arithmetic shared by the whole crate.
//!
//! An `i64` holds a quantity in micro-units: [`SCALE`] micro-units are
//! `1.0`. The scale is a power of ten so that the decimal constants of the
//! color schemes (`0.3`, `0.25`, ...) and decimal height tokens from the
//! loader are represented exactly.
//!
//! Products and quotients of fixed-point values round toward zero, the
//! direction hardware division takes; [`div_trunc`] is the specification
//! of that rounding and every arithmetic helper's contract is stated
//! through it.

use vstd::prelude::*;

verus! {

/// Micro-units per whole unit: the fixed-point representation of `1.0`.
pub const SCALE: i64 = 1_000_000;

/// Magnitude of an unbounded integer.
pub open spec fn spec_abs(p: int) -> int {
    if p < 0 {
        -p
    } else {
        p
    }
}

/// Division rounding toward zero, the behaviour of machine division.
/// Meaningful only for `d != 0`.
pub open spec fn div_trunc(p: int, d: int) -> int {
    let m = spec_abs(p) / spec_abs(d);
    if (p < 0) != (d < 0) {
        -m
    } else {
        m
    }
}

/// Clamps `t` to the unit interval `[0, SCALE]`.
pub open spec fn spec_clamp01(t: int) -> int {
    if t < 0 {
        0
    } else if t > SCALE {
        SCALE as int
    } else {
        t
    }
}

/// Clamps a fixed-point value to the unit interval `[0, SCALE]`.
pub fn clamp01(t: i64) -> (r: i64)
    ensures
        r == spec_clamp01(t as int),
{
    if t < 0 {
        0
    } else if t > SCALE {
        SCALE
    } else {
        t
    }
}

/// Quotient of a wide signed value by a positive divisor, rounding toward
/// zero. The sign split keeps all machine divisions unsigned, where
/// truncation and Euclidean rounding agree.
pub(crate) fn div_trunc_i128(p: i128, d: u64) -> (r: i128)
    requires
        d > 0,
        -0x40000000000000000000000000000000 < p,
    ensures
        r == div_trunc(p as int, d as int),
        spec_abs(r as int) <= spec_abs(p as int),
{
    let du: u128 = d as u128;
    if p >= 0 {
        let q: u128 = (p as u128) / du;
        assert(q <= p as u128) by {
            vstd::arithmetic::div_mod::lemma_div_nonincreasing(p as int, du as int);
        }
        q as i128
    } else {
        let m: u128 = (-p) as u128;
        let q: u128 = m / du;
        assert(q <= m) by {
            vstd::arithmetic::div_mod::lemma_div_nonincreasing(m as int, du as int);
        }
        -(q as i128)
    }
}

/// Fixed-point product: `a * b` where both factors are in micro-units, so
/// the double-scaled product is brought back down by one factor of
/// [`SCALE`], rounding toward zero.
pub fn scale_mul(a: i64, b: i64) -> (r: i64)
    requires
        -0x7fffffffffffffff <= div_trunc(a * b, SCALE as int) <= 0x7fffffffffffffff,
    ensures
        r == div_trunc(a * b, SCALE as int),
{
    proof {
        assert(-0x40000000000000000000000000000000 < (a as int) * (b as int)
            <= 0x40000000000000000000000000000000) by (nonlinear_arith)
            requires
                -0x8000000000000000 <= a <= 0x7fffffffffffffff,
                -0x8000000000000000 <= b <= 0x7fffffffffffffff;
    }
    let p: i128 = (a as i128) * (b as i128);
    let q = div_trunc_i128(p, 1_000_000u64);
    q as i64
}

/// Fixed-point quotient: `a / b` with both operands in micro-units, so the
/// dividend is scaled up by [`SCALE`] first, rounding toward zero.
pub fn fixed_div(a: i64, b: i64) -> (r: i64)
    requires
        b != 0,
        -0x7fffffffffffffff <= div_trunc(a * SCALE, b as int) <= 0x7fffffffffffffff,
    ensures
        r == div_trunc(a * (SCALE as int), b as int),
{
    let p: i128 = (a as i128) * 1_000_000i128;
    let bu: u64 = if b >= 0 {
        b as u64
    } else {
        ((-(b as i128)) as u128) as u64
    };
    let q = div_trunc_i128(p, bu);
    if b >= 0 {
        q as i64
    } else {
        (-q) as i64
    }
}

/// Floor of the square root, defined by counting up; [`lemma_isqrt_bounds`]
/// gives its characteristic property and [`lemma_isqrt_unique`] shows no
/// other value has it.
pub open spec fn spec_isqrt(n: int) -> int
    decreases n,
{
    if n < 1 {
        0
    } else {
        let p = spec_isqrt(n - 1);
        if (p + 1) * (p + 1) <= n {
            p + 1
        } else {
            p
        }
    }
}

/// The square root floor squares to at most `n`, and the next integer up
/// squares past it.
pub proof fn lemma_isqrt_bounds(n: int)
    requires
        n >= 0,
    ensures
        spec_isqrt(n) >= 0,
        spec_isqrt(n) * spec_isqrt(n) <= n,
        n < (spec_isqrt(n) + 1) * (spec_isqrt(n) + 1),
    decreases n,
{
    if n >= 1 {
        lemma_isqrt_bounds(n - 1);
        let p = spec_isqrt(n - 1);
        if (p + 1) * (p + 1) <= n {
            assert(n - 1 < (p + 1) * (p + 1));
            assert((p + 2) * (p + 2) > (p + 1) * (p + 1)) by (nonlinear_arith)
                requires p >= 0;
        }
    }
}

/// Only one integer is squeezed between the two squares, so any witness of
/// the bounds is the square root floor itself.
pub proof fn lemma_isqrt_unique(n: int, r: int)
    requires
        n >= 0,
        r >= 0,
        r * r <= n,
        n < (r + 1) * (r + 1),
    ensures
        r == spec_isqrt(n),
{
    lemma_isqrt_bounds(n);
    let s = spec_isqrt(n);
    if r < s {
        assert((r + 1) * (r + 1) <= s * s) by (nonlinear_arith)
            requires 0 <= r + 1 <= s;
    }
    if s < r {
        assert((s + 1) * (s + 1) <= r * r) by (nonlinear_arith)
            requires 0 <= s + 1 <= r;
    }
}

/// Floor of the square root of a 128-bit value, by binary search.
pub fn isqrt(n: u128) -> (r: u64)
    ensures
        r == spec_isqrt(n as int),
{
    let mut lo: u128 = 0;
    let mut hi: u128 = 0x10000000000000000;
    while lo + 1 < hi
        invariant
            lo < hi <= 0x10000000000000000,
            (lo as int) * (lo as int) <= n as int,
            (n as int) < (hi as int) * (hi as int),
        decreases hi - lo,
    {
        let mid = lo + (hi - lo) / 2;
        assert(lo < mid < hi);
        assert((mid as int) * (mid as int) < 0x100000000000000000000000000000000) by (nonlinear_arith)
            requires mid < 0x10000000000000000;
        if mid * mid <= n {
            lo = mid;
        } else {
            hi = mid;
        }
    }
    proof {
        lemma_isqrt_unique(n as int, lo as int);
    }
    lo as u64
}

/// A fixed-point vector in three dimensions, each component in micro-units.
#[derive(Clone, Copy, Debug, PartialEq, Eq, Structural)]
pub struct FixedVec3 {
    pub x: i64,
    pub y: i64,
    pub z: i64,
}

impl FixedVec3 {
    /// The zero vector.
    pub open spec fn spec_zero() -> FixedVec3 {
        FixedVec3 { x: 0, y: 0, z: 0 }
    }

    /// The zero vector.
    pub fn zero() -> (r: FixedVec3)
        ensures
            r == FixedVec3::spec_zero(),
    {
        FixedVec3 { x: 0, y: 0, z: 0 }
    }

}


/// Fixed-point normalization of an integer direction: each component is
/// scaled by [`SCALE`] and divided by the floor of the vector's length,
/// rounding toward zero; the zero vector stays zero.
pub open spec fn spec_normalize3(v: (int, int, int)) -> (int, int, int) {
    if v.0 == 0 && v.1 == 0 && v.2 == 0 {
        (0, 0, 0)
    } else {
        let m = spec_isqrt(v.0 * v.0 + v.1 * v.1 + v.2 * v.2);
        (
            div_trunc(v.0 * (SCALE as int), m),
            div_trunc(v.1 * (SCALE as int), m),
            div_trunc(v.2 * (SCALE as int), m),
        )
    }
}

/// Each component of a normalized direction stays within one unit, and
/// the sign of each component is kept.
pub proof fn lemma_normalize3_bounds(v: (int, int, int))
    requires
        -0x7fff_ffff_ffff_ffff <= v.0 <= 0x7fff_ffff_ffff_ffff,
        -0x7fff_ffff_ffff_ffff <= v.1 <= 0x7fff_ffff_ffff_ffff,
        -0x7fff_ffff_ffff_ffff <= v.2 <= 0x7fff_ffff_ffff_ffff,
    ensures
        -(SCALE as int) <= spec_normalize3(v).0 <= SCALE as int,
        -(SCALE as int) <= spec_normalize3(v).1 <= SCALE as int,
        -(SCALE as int) <= spec_normalize3(v).2 <= SCALE as int,
        v.1 > 0 ==> spec_normalize3(v).1 >= 0,
        v.1 < 0 ==> spec_normalize3(v).1 <= 0,
{
    if !(v.0 == 0 && v.1 == 0 && v.2 == 0) {
        let n = v.0 * v.0 + v.1 * v.1 + v.2 * v.2;
        assert(n > 0) by (nonlinear_arith)
            requires
                n == v.0 * v.0 + v.1 * v.1 + v.2 * v.2,
                !(v.0 == 0 && v.1 == 0 && v.2 == 0);
        lemma_isqrt_bounds(n);
        let m = spec_isqrt(n);
        assert(m >= 1) by {
            if m == 0 {
                assert(n < (m + 1) * (m + 1));
                assert(n < 1) by (nonlinear_arith)
                    requires m == 0, n < (m + 1) * (m + 1);
            }
        }
        assert(v.1 * v.1 >= 0 && v.2 * v.2 >= 0 && v.0 * v.0 >= 0) by (nonlinear_arith);
        lemma_component_le_root(v.0, v.1 * v.1 + v.2 * v.2, m);
        lemma_component_le_root(v.1, v.0 * v.0 + v.2 * v.2, m);
        lemma_component_le_root(v.2, v.0 * v.0 + v.1 * v.1, m);
        if v.1 > 0 {
            assert(div_trunc(v.1 * (SCALE as int), m) >= 0) by {
                assert(v.1 * (SCALE as int) > 0) by (nonlinear_arith)
                    requires v.1 > 0;
            }
        }
        if v.1 < 0 {
            assert(div_trunc(v.1 * (SCALE as int), m) <= 0) by {
                assert(v.1 * (SCALE as int) < 0) by (nonlinear_arith)
                    requires v.1 < 0;
            }
        }
    }
}

/// A component of a vector is no longer than the floor of the vector's
/// length, so its normalized value stays within one unit.
proof fn lemma_component_le_root(c: int, rest_sq: int, m: int)
    requires
        rest_sq >= 0,
        m >= 1,
        c * c + rest_sq < (m + 1) * (m + 1),
    ensures
        -(SCALE as int) <= div_trunc(c * (SCALE as int), m) <= SCALE as int,
{
    assert(spec_abs(c) <= m) by (nonlinear_arith)
        requires
            rest_sq >= 0,
            m >= 1,
            c * c + rest_sq < (m + 1) * (m + 1);
    let p = c * (SCALE as int);
    assert(spec_abs(p) == spec_abs(c) * (SCALE as int)) by (nonlinear_arith)
        requires p == c * (SCALE as int);
    assert(spec_abs(c) * (SCALE as int) <= m * (SCALE as int)) by (nonlinear_arith)
        requires spec_abs(c) <= m;
    assert(spec_abs(p) / m <= (m * (SCALE as int)) / m) by {
        vstd::arithmetic::div_mod::lemma_div_is_ordered(spec_abs(p), m * (SCALE as int), m);
    }
    assert((m * (SCALE as int)) / m == SCALE as int) by {
        vstd::arithmetic::div_mod::lemma_div_multiples_vanish(SCALE as int, m);
    }
    assert(spec_abs(p) / m >= 0) by {
        vstd::arithmetic::div_mod::lemma_div_basics_4(spec_abs(p), m);
    }
}

impl FixedVec3 {
    /// The components as a triple of unbounded integers.
    pub open spec fn view_tuple(self) -> (int, int, int) {
        (self.x as int, self.y as int, self.z as int)
    }
}

/// Normalizes an integer direction to (fixed-point) unit length; the
/// zero direction is returned unchanged, for the caller to substitute
/// its fallback.
pub fn normalize_dir(v: FixedVec3) -> (r: FixedVec3)
    requires
        -0x7fff_ffff_ffff_ffff <= v.x,
        -0x7fff_ffff_ffff_ffff <= v.y,
        -0x7fff_ffff_ffff_ffff <= v.z,
    ensures
        r.view_tuple() == spec_normalize3(v.view_tuple()),
        -SCALE <= r.x <= SCALE,
        -SCALE <= r.y <= SCALE,
        -SCALE <= r.z <= SCALE,
        v.y > 0 ==> r.y >= 0,
{
    proof {
        lemma_normalize3_bounds(v.view_tuple());
        assert(0 <= (v.x as int) * (v.x as int) <= 0x4000_0000_0000_0000_0000_0000_0000_0000)
            by (nonlinear_arith)
            requires -0x8000_0000_0000_0000 <= v.x <= 0x7fff_ffff_ffff_ffff;
        assert(0 <= (v.y as int) * (v.y as int) <= 0x4000_0000_0000_0000_0000_0000_0000_0000)
            by (nonlinear_arith)
            requires -0x8000_0000_0000_0000 <= v.y <= 0x7fff_ffff_ffff_ffff;
        assert(0 <= (v.z as int) * (v.z as int) <= 0x4000_0000_0000_0000_0000_0000_0000_0000)
            by (nonlinear_arith)
            requires -0x8000_0000_0000_0000 <= v.z <= 0x7fff_ffff_ffff_ffff;
    }
    let sx: i128 = (v.x as i128) * (v.x as i128);
    let sy: i128 = (v.y as i128) * (v.y as i128);
    let sz: i128 = (v.z as i128) * (v.z as i128);
    let n: u128 = (sx as u128) + (sy as u128) + (sz as u128);
    if n == 0 {
        proof {
            assert(v.x == 0 && v.y == 0 && v.z == 0) by (nonlinear_arith)
                requires
                    (v.x as int) * (v.x as int) + (v.y as int) * (v.y as int)
                        + (v.z as int) * (v.z as int) == 0;
        }
        return v;
    }
    let m: u64 = isqrt(n);
    proof {
        lemma_isqrt_bounds(n as int);
        if m == 0 {
            assert((n as int) < (m + 1) * (m + 1));
            assert((n as int) < 1) by (nonlinear_arith)
                requires m == 0, (n as int) < (m + 1) * (m + 1);
        }
    }
    let rx = div_trunc_i128((v.x as i128) * 1_000_000, m);
    let ry = div_trunc_i128((v.y as i128) * 1_000_000, m);
    let rz = div_trunc_i128((v.z as i128) * 1_000_000, m);
    FixedVec3 { x: rx as i64, y: ry as i64, z: rz as i64 }
}


/// A quotient's magnitude is bounded by any `b` with `|p| <= b * d`.
pub proof fn lemma_div_trunc_bound(p: int, d: int, b: int)
    requires
        d > 0,
        b >= 0,
        spec_abs(p) <= b * d,
    ensures
        spec_abs(div_trunc(p, d)) <= b,
{
    assert(spec_abs(p) / d <= (b * d) / d) by {
        vstd::arithmetic::div_mod::lemma_div_is_ordered(spec_abs(p), b * d, d);
    }
    assert((b * d) / d == b) by {
        vstd::arithmetic::div_mod::lemma_div_multiples_vanish(b, d);
    }
    assert(spec_abs(p) / d >= 0) by {
        vstd::arithmetic::div_mod::lemma_div_basics_4(spec_abs(p), d);
    }
}

} // verus!
