//! Fixed-point scalar and vector arithmetic used by grid interpolation.

use vstd::prelude::*;
use vstd::arithmetic::div_mod::{
    lemma_div_is_ordered, lemma_div_multiples_vanish, lemma_div_pos_is_pos,
};
use vstd::arithmetic::mul::{lemma_mul_inequality, lemma_mul_is_commutative};

verus! {

/// A two-component vector in fixed-point units.
#[derive(Clone, Copy, Debug, PartialEq, Eq, Structural)]
pub struct Vec2 {
    pub x: i32,
    pub y: i32,
}

impl View for Vec2 {
    type V = Vec2;

    open spec fn view(&self) -> Vec2 {
        *self
    }
}

impl DeepView for Vec2 {
    type V = Vec2;

    open spec fn deep_view(&self) -> Vec2 {
        *self
    }
}

impl Vec2 {
    pub fn new(x: i32, y: i32) -> (r: Vec2)
        ensures
            r.x == x,
            r.y == y,
    {
        Vec2 { x, y }
    }

    /// The zero vector.
    pub fn zero() -> (r: Vec2)
        ensures
            r.x == 0,
            r.y == 0,
    {
        Vec2 { x: 0, y: 0 }
    }
}

/// `v` clamped into `[lo, hi]`.
pub open spec fn clamp_spec(v: int, lo: int, hi: int) -> int {
    if v <= lo {
        lo
    } else if v >= hi {
        hi
    } else {
        v
    }
}

pub fn clamp_fixed(v: i32, lo: i32, hi: i32) -> (r: i32)
    requires
        lo <= hi,
    ensures
        r as int == clamp_spec(v as int, lo as int, hi as int),
{
    if v <= lo {
        lo
    } else if v >= hi {
        hi
    } else {
        v
    }
}

/// Linear interpolation between `a` and `b` with fraction `num / den`,
/// rounded toward `a`. For `num == 0` it is exactly `a`; for `num == den`
/// exactly `b`.
pub open spec fn lerp_spec(a: int, b: int, num: int, den: int) -> int {
    if b >= a {
        a + ((b - a) * num) / den
    } else {
        a - (((a - b) * num) / den)
    }
}

/// A nonnegative difference scaled by a fraction `num / den <= 1` stays
/// between `0` and the difference.
proof fn lemma_scaled_frac_bounds(d: int, num: int, den: int)
    requires
        0 <= d,
        0 <= num <= den,
        0 < den,
    ensures
        0 <= (d * num) / den <= d,
{
    lemma_mul_inequality(num, den, d);
    lemma_mul_is_commutative(num, d);
    lemma_mul_is_commutative(den, d);
    lemma_div_pos_is_pos(d * num, den);
    lemma_div_is_ordered(d * num, d * den, den);
    lemma_div_multiples_vanish(d, den);
    lemma_mul_is_commutative(den, d);
}

/// The interpolated value lies between the two endpoints.
pub proof fn lemma_lerp_bounds(a: int, b: int, num: int, den: int)
    requires
        0 <= num <= den,
        0 < den,
    ensures
        a <= b ==> a <= lerp_spec(a, b, num, den) <= b,
        b <= a ==> b <= lerp_spec(a, b, num, den) <= a,
{
    if b >= a {
        lemma_scaled_frac_bounds(b - a, num, den);
    } else {
        lemma_scaled_frac_bounds(a - b, num, den);
    }
}

/// At fraction zero the interpolation returns the first endpoint exactly.
pub proof fn lemma_lerp_at_start(a: int, b: int, den: int)
    requires
        0 < den,
    ensures
        lerp_spec(a, b, 0, den) == a,
{
    if b >= a {
        lemma_mul_is_commutative(b - a, 0);
        lemma_div_multiples_vanish(0, den);
        assert((b - a) * 0 == den * 0) by (nonlinear_arith);
    } else {
        lemma_mul_is_commutative(a - b, 0);
        lemma_div_multiples_vanish(0, den);
        assert((a - b) * 0 == den * 0) by (nonlinear_arith);
    }
}

/// At the exact midpoint fraction, and with endpoints of equal parity, the
/// interpolation returns the exact average of the endpoints.
pub proof fn lemma_lerp_midpoint(a: int, b: int, den: int)
    requires
        0 < den,
        den % 2 == 0,
        (a + b) % 2 == 0,
    ensures
        lerp_spec(a, b, den / 2, den) == (a + b) / 2,
{
    let h = den / 2;
    if b >= a {
        let k = (b - a) / 2;
        assert(b - a == 2 * k);
        assert((b - a) * h == k * den) by (nonlinear_arith)
            requires
                b - a == 2 * k,
                den == 2 * h,
        ;
        lemma_mul_is_commutative(k, den);
        lemma_div_multiples_vanish(k, den);
        assert(lerp_spec(a, b, h, den) == a + k);
        assert(a + b == 2 * (a + k));
        lemma_div_multiples_vanish(a + k, 2);
    } else {
        let k = (a - b) / 2;
        assert(a - b == 2 * k);
        assert((a - b) * h == k * den) by (nonlinear_arith)
            requires
                a - b == 2 * k,
                den == 2 * h,
        ;
        lemma_mul_is_commutative(k, den);
        lemma_div_multiples_vanish(k, den);
        assert(lerp_spec(a, b, h, den) == a - k);
        assert(a + b == 2 * (a - k));
        lemma_div_multiples_vanish(a - k, 2);
    }
}

/// Executable fixed-point interpolation; exact integer arithmetic performed
/// in wide intermediates, never overflowing.
pub fn lerp_fixed(a: i32, b: i32, num: i64, den: i64) -> (r: i32)
    requires
        0 <= num <= den,
        0 < den,
    ensures
        r as int == lerp_spec(a as int, b as int, num as int, den as int),
{
    proof {
        lemma_lerp_bounds(a as int, b as int, num as int, den as int);
    }
    if b >= a {
        let d: u64 = (b as i64 - a as i64) as u64;
        proof {
            lemma_scaled_frac_bounds(d as int, num as int, den as int);
            let dd = d as int;
            let nn = num as int;
            assert(dd * nn <= 0xFFFF_FFFF * 0x7FFF_FFFF_FFFF_FFFF) by (nonlinear_arith)
                requires
                    0 <= dd <= 0xFFFF_FFFF,
                    0 <= nn <= 0x7FFF_FFFF_FFFF_FFFF,
            ;
        }
        let q: u64 = ((d as u128 * num as u128) / (den as u128)) as u64;
        (a as i64 + q as i64) as i32
    } else {
        let d: u64 = (a as i64 - b as i64) as u64;
        proof {
            lemma_scaled_frac_bounds(d as int, num as int, den as int);
            let dd = d as int;
            let nn = num as int;
            assert(dd * nn <= 0xFFFF_FFFF * 0x7FFF_FFFF_FFFF_FFFF) by (nonlinear_arith)
                requires
                    0 <= dd <= 0xFFFF_FFFF,
                    0 <= nn <= 0x7FFF_FFFF_FFFF_FFFF,
            ;
        }
        let q: u64 = ((d as u128 * num as u128) / (den as u128)) as u64;
        (a as i64 - q as i64) as i32
    }
}

} // verus!
