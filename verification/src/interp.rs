//! Axis bracketing and (bi)linear grid interpolation.
//!
//! An axis is a strictly increasing sequence of fixed-point sample
//! positions. Evaluating a value grid at a runtime position clamps the
//! position into the axis range, finds the bracketing samples, and
//! interpolates linearly between the stored cells (bilinearly for a
//! two-dimensional grid).

use vstd::prelude::*;
use crate::math::{clamp_fixed, clamp_spec, lemma_lerp_at_start, lemma_lerp_midpoint, lerp_fixed,
    lerp_spec};

verus! {

/// Axis positions are strictly increasing.
pub open spec fn axis_wf(axis: Seq<i32>) -> bool {
    forall|k: int, l: int| 0 <= k < l < axis.len() ==> #[trigger] axis[k] < #[trigger] axis[l]
}

/// The largest index whose axis position is at most `v`, or `0` when `v`
/// lies below the whole axis.
pub open spec fn bracket(axis: Seq<i32>, v: int) -> int
    decreases axis.len(),
{
    if axis.len() <= 1 {
        0
    } else if axis[axis.len() - 1] <= v {
        axis.len() - 1
    } else {
        bracket(axis.drop_last(), v)
    }
}

pub proof fn lemma_bracket_props(axis: Seq<i32>, v: int)
    requires
        axis_wf(axis),
        axis.len() >= 1,
        axis[0] <= v,
    ensures
        0 <= bracket(axis, v) < axis.len(),
        axis[bracket(axis, v)] <= v,
        bracket(axis, v) < axis.len() - 1 ==> v < axis[bracket(axis, v) + 1],
    decreases axis.len(),
{
    if axis.len() <= 1 {
    } else if axis[axis.len() - 1] <= v {
    } else {
        let p = axis.drop_last();
        assert(forall|k: int| 0 <= k < p.len() ==> p[k] == axis[k]);
        lemma_bracket_props(p, v);
    }
}

/// The bracket index is the unique index satisfying its characterization.
pub proof fn lemma_bracket_unique(axis: Seq<i32>, v: int, i: int)
    requires
        axis_wf(axis),
        axis.len() >= 1,
        axis[0] <= v,
        0 <= i < axis.len(),
        axis[i] <= v,
        i < axis.len() - 1 ==> v < axis[i + 1],
    ensures
        bracket(axis, v) == i,
{
    lemma_bracket_props(axis, v);
    let b = bracket(axis, v);
    if b < i {
        assert(axis[b + 1] <= axis[i]);
    } else if b > i {
        assert(axis[i + 1] <= axis[b]);
    }
}

fn find_bracket(axis: &Vec<i32>, v: i32) -> (r: usize)
    requires
        axis_wf(axis@),
        axis@.len() >= 1,
        axis@[0] <= v,
    ensures
        r as int == bracket(axis@, v as int),
        r < axis.len(),
{
    let mut i: usize = 0;
    while i < axis.len() - 1 && axis[i + 1] <= v
        invariant
            0 <= i < axis@.len(),
            axis@[i as int] <= v,
            axis_wf(axis@),
            axis@[0] <= v,
        decreases axis@.len() - i,
    {
        i = i + 1;
    }
    proof {
        lemma_bracket_unique(axis@, v as int, i as int);
    }
    i
}

/// Bracket index, interpolation numerator and denominator for position `v`
/// on `axis`, after clamping `v` into the axis range. The fraction is `0/1`
/// at the top index; otherwise `0 <= num < den`.
pub open spec fn sample_spec(axis: Seq<i32>, v: int) -> (int, int, int) {
    let vc = clamp_spec(v, axis[0] as int, axis[axis.len() - 1] as int);
    let i = bracket(axis, vc);
    if i + 1 < axis.len() {
        (i, vc - axis[i], axis[i + 1] - axis[i])
    } else {
        (i, 0, 1)
    }
}

pub proof fn lemma_sample_props(axis: Seq<i32>, v: int)
    requires
        axis_wf(axis),
        axis.len() >= 1,
    ensures
        ({
            let (i, num, den) = sample_spec(axis, v);
            0 <= i < axis.len() && 0 <= num < den
        }),
{
    let lo = axis[0] as int;
    let hi = axis[axis.len() - 1] as int;
    let vc = clamp_spec(v, lo, hi);
    lemma_bracket_props(axis, vc);
    let i = bracket(axis, vc);
    if i + 1 < axis.len() {
        assert(axis[i] < axis[i + 1]);
    }
}

pub fn sample_axis(axis: &Vec<i32>, v: i32) -> (r: (usize, i64, i64))
    requires
        axis_wf(axis@),
        axis@.len() >= 1,
    ensures
        (r.0 as int, r.1 as int, r.2 as int) == sample_spec(axis@, v as int),
        r.0 < axis.len(),
        0 <= r.1 < r.2,
{
    proof {
        lemma_sample_props(axis@, v as int);
        if axis@.len() > 1 {
            assert(axis@[0] < axis@[axis@.len() - 1]);
        }
    }
    let hi_idx = axis.len() - 1;
    let vc = clamp_fixed(v, axis[0], axis[hi_idx]);
    let i = find_bracket(axis, vc);
    if i + 1 < axis.len() {
        (i, vc as i64 - axis[i] as i64, axis[i + 1] as i64 - axis[i] as i64)
    } else {
        (i, 0, 1)
    }
}

/// Bilinear interpolation of four corner cells: first along the second
/// dimension with `num1 / den1`, then along the first with `num0 / den0`.
pub open spec fn bilerp_spec(
    c00: int,
    c01: int,
    c10: int,
    c11: int,
    num1: int,
    den1: int,
    num0: int,
    den0: int,
) -> int {
    lerp_spec(
        lerp_spec(c00, c01, num1, den1),
        lerp_spec(c10, c11, num1, den1),
        num0,
        den0,
    )
}

/// A rectangular grid of `rows` x `cols` cells.
pub open spec fn grid_wf<T>(g: Seq<Seq<T>>, rows: int, cols: int) -> bool {
    &&& g.len() == rows
    &&& rows >= 1
    &&& cols >= 1
    &&& forall|i: int| 0 <= i < rows ==> (#[trigger] g[i]).len() == cols
}

/// A scalar grid shaped by the two axes, evaluated at `(v0, v1)`. When
/// `use1` is false the grid has a single column and the second position is
/// ignored.
pub open spec fn eval_scalar_spec(
    axis0: Seq<i32>,
    axis1: Seq<i32>,
    use1: bool,
    g: Seq<Seq<i32>>,
    v0: int,
    v1: int,
) -> int {
    let s0 = sample_spec(axis0, v0);
    let i = s0.0;
    let i2 = if i + 1 < axis0.len() { i + 1 } else { i };
    let s1 = if use1 { sample_spec(axis1, v1) } else { (0 as int, 0 as int, 1 as int) };
    let j = s1.0;
    let j2 = if use1 && j + 1 < axis1.len() { j + 1 } else { j };
    bilerp_spec(
        g[i][j] as int,
        g[i][j2] as int,
        g[i2][j] as int,
        g[i2][j2] as int,
        s1.1,
        s1.2,
        s0.1,
        s0.2,
    )
}

/// Executable bilinear interpolation of four corner cells.
pub fn bilerp_fixed(
    c00: i32,
    c01: i32,
    c10: i32,
    c11: i32,
    n1: i64,
    d1: i64,
    n0: i64,
    d0: i64,
) -> (r: i32)
    requires
        0 <= n1 <= d1,
        0 < d1,
        0 <= n0 <= d0,
        0 < d0,
    ensures
        r as int == bilerp_spec(
            c00 as int,
            c01 as int,
            c10 as int,
            c11 as int,
            n1 as int,
            d1 as int,
            n0 as int,
            d0 as int,
        ),
{
    let r0 = lerp_fixed(c00, c01, n1, d1);
    let r1 = lerp_fixed(c10, c11, n1, d1);
    lerp_fixed(r0, r1, n0, d0)
}

/// Evaluate a scalar value grid at `(v0, v1)`.
pub fn eval_scalar_grid(
    axis0: &Vec<i32>,
    axis1: &Vec<i32>,
    use1: bool,
    g: &Vec<Vec<i32>>,
    v0: i32,
    v1: i32,
) -> (r: i32)
    requires
        axis_wf(axis0@),
        axis0@.len() >= 1,
        use1 ==> axis_wf(axis1@) && axis1@.len() >= 1,
        grid_wf(g.deep_view(), axis0@.len() as int, if use1 { axis1@.len() as int } else { 1 }),
    ensures
        r as int == eval_scalar_spec(axis0@, axis1@, use1, g.deep_view(), v0 as int, v1 as int),
{
    let (i, n0, d0) = sample_axis(axis0, v0);
    let (j, n1, d1) = if use1 { sample_axis(axis1, v1) } else { (0usize, 0i64, 1i64) };
    let i2 = if i + 1 < axis0.len() { i + 1 } else { i };
    let j2 = if use1 && j + 1 < axis1.len() { j + 1 } else { j };
    proof {
        assert(g.deep_view()[i as int] == g@[i as int].deep_view());
        assert(g.deep_view()[i2 as int] == g@[i2 as int].deep_view());
    }
    bilerp_fixed(g[i][j], g[i][j2], g[i2][j], g[i2][j2], n1, d1, n0, d0)
}

/// At a position equal to an axis sample the fraction is zero and the
/// bracket is that sample's index.
pub proof fn lemma_sample_at_point(axis: Seq<i32>, k: int)
    requires
        axis_wf(axis),
        0 <= k < axis.len(),
    ensures
        sample_spec(axis, axis[k] as int).0 == k,
        sample_spec(axis, axis[k] as int).1 == 0,
{
    let v = axis[k] as int;
    let lo = axis[0] as int;
    let hi = axis[axis.len() - 1] as int;
    if k > 0 {
        assert(axis[0] < axis[k]);
    }
    if k < axis.len() - 1 {
        assert(axis[k] < axis[axis.len() - 1]);
    }
    assert(clamp_spec(v, lo, hi) == v);
    lemma_bracket_unique(axis, v, k);
}

/// Evaluation at grid sample positions returns the stored cell exactly:
/// no interpolation drift at exact keyframes.
pub proof fn lemma_eval_exact_at_samples(
    axis0: Seq<i32>,
    axis1: Seq<i32>,
    use1: bool,
    g: Seq<Seq<i32>>,
    k0: int,
    k1: int,
    v1: int,
)
    requires
        axis_wf(axis0),
        axis0.len() >= 1,
        use1 ==> axis_wf(axis1) && axis1.len() >= 1,
        grid_wf(g, axis0.len() as int, if use1 { axis1.len() as int } else { 1 }),
        0 <= k0 < axis0.len(),
        use1 ==> 0 <= k1 < axis1.len(),
        !use1 ==> k1 == 0,
    ensures
        eval_scalar_spec(
            axis0,
            axis1,
            use1,
            g,
            axis0[k0] as int,
            if use1 { axis1[k1] as int } else { v1 },
        ) == g[k0][k1] as int,
{
    lemma_sample_at_point(axis0, k0);
    let s0 = sample_spec(axis0, axis0[k0] as int);
    lemma_sample_props(axis0, axis0[k0] as int);
    let w1 = if use1 { axis1[k1] as int } else { v1 };
    let s1 = if use1 { sample_spec(axis1, w1) } else { (0 as int, 0 as int, 1 as int) };
    if use1 {
        lemma_sample_at_point(axis1, k1);
        lemma_sample_props(axis1, w1);
    }
    let i2 = if k0 + 1 < axis0.len() { k0 + 1 } else { k0 };
    let j2 = if use1 && k1 + 1 < axis1.len() { k1 + 1 } else { k1 };
    lemma_lerp_at_start(g[k0][k1] as int, g[k0][j2] as int, s1.2);
    lemma_lerp_at_start(g[i2][k1] as int, g[i2][j2] as int, s1.2);
    lemma_lerp_at_start(g[k0][k1] as int, g[i2][k1] as int, s0.2);
}

/// A position outside the axis range evaluates exactly as the nearest edge
/// position does: clamped, never extrapolated.
pub proof fn lemma_eval_clamped(
    axis0: Seq<i32>,
    axis1: Seq<i32>,
    use1: bool,
    g: Seq<Seq<i32>>,
    v0: int,
    v1: int,
)
    requires
        axis_wf(axis0),
        axis0.len() >= 1,
    ensures
        v0 <= axis0[0] as int ==> eval_scalar_spec(axis0, axis1, use1, g, v0, v1)
            == eval_scalar_spec(axis0, axis1, use1, g, axis0[0] as int, v1),
        v0 >= axis0[axis0.len() - 1] as int ==> eval_scalar_spec(axis0, axis1, use1, g, v0, v1)
            == eval_scalar_spec(axis0, axis1, use1, g, axis0[axis0.len() - 1] as int, v1),
{
    let lo = axis0[0] as int;
    let hi = axis0[axis0.len() - 1] as int;
    if axis0.len() > 1 {
        assert(axis0[0] < axis0[axis0.len() - 1]);
    }
    if v0 <= lo {
        assert(clamp_spec(v0, lo, hi) == clamp_spec(lo, lo, hi));
    }
    if v0 >= hi {
        assert(clamp_spec(v0, lo, hi) == clamp_spec(hi, lo, hi));
    }
}

/// A position outside the axis range returns the stored cell at the
/// nearest edge of the grid: clamped, never extrapolated.
pub proof fn lemma_eval_outside_range(
    axis0: Seq<i32>,
    axis1: Seq<i32>,
    use1: bool,
    g: Seq<Seq<i32>>,
    v0: int,
    k1: int,
)
    requires
        axis_wf(axis0),
        axis0.len() >= 1,
        use1 ==> axis_wf(axis1) && axis1.len() >= 1,
        grid_wf(g, axis0.len() as int, if use1 { axis1.len() as int } else { 1 }),
        use1 ==> 0 <= k1 < axis1.len(),
        !use1 ==> k1 == 0,
    ensures
        v0 <= axis0[0] as int ==> eval_scalar_spec(
            axis0,
            axis1,
            use1,
            g,
            v0,
            if use1 { axis1[k1] as int } else { 0 },
        ) == g[0][k1] as int,
        v0 >= axis0[axis0.len() - 1] as int ==> eval_scalar_spec(
            axis0,
            axis1,
            use1,
            g,
            v0,
            if use1 { axis1[k1] as int } else { 0 },
        ) == g[axis0.len() - 1][k1] as int,
{
    let w1 = if use1 { axis1[k1] as int } else { 0 };
    lemma_eval_clamped(axis0, axis1, use1, g, v0, w1);
    if v0 <= axis0[0] as int {
        lemma_eval_exact_at_samples(axis0, axis1, use1, g, 0, k1, w1);
    }
    if v0 >= axis0[axis0.len() - 1] as int {
        lemma_eval_exact_at_samples(axis0, axis1, use1, g, axis0.len() - 1, k1, w1);
    }
}

/// One-dimensional linear interpolation is exact at the midpoint: with two
/// axis points and cells `a`, `b`, evaluating at the average of the two
/// axis positions yields the average of `a` and `b` (whenever both
/// averages are whole numbers of fixed-point units).
pub proof fn lemma_eval_1d_midpoint(axis0: Seq<i32>, axis1: Seq<i32>, g: Seq<Seq<i32>>, v1: int)
    requires
        axis_wf(axis0),
        axis0.len() == 2,
        grid_wf(g, 2, 1),
        (axis0[0] + axis0[1]) % 2 == 0,
        (g[0][0] + g[1][0]) % 2 == 0,
    ensures
        eval_scalar_spec(axis0, axis1, false, g, (axis0[0] + axis0[1]) as int / 2, v1)
            == (g[0][0] + g[1][0]) as int / 2,
{
    let a0 = axis0[0] as int;
    let a1 = axis0[1] as int;
    let v = (a0 + a1) / 2;
    assert(a0 < a1);
    assert(a0 + a1 == 2 * v);
    assert(a0 <= v && v < a1);
    assert(clamp_spec(v, a0, a1) == v);
    lemma_bracket_unique(axis0, v, 0);
    let den = a1 - a0;
    let num = v - a0;
    assert(2 * num == den);
    assert(den % 2 == 0 && num == den / 2);
    let ca = g[0][0] as int;
    let cb = g[1][0] as int;
    lemma_lerp_at_start(ca, ca, 1);
    lemma_lerp_at_start(cb, cb, 1);
    lemma_lerp_midpoint(ca, cb, den);
}

/// Bilinear interpolation degenerates to one-dimensional linear
/// interpolation when the second axis has exactly one point.
pub proof fn lemma_eval_second_axis_single(
    axis0: Seq<i32>,
    axis1: Seq<i32>,
    g: Seq<Seq<i32>>,
    v0: int,
    v1: int,
    w1: int,
)
    requires
        axis1.len() == 1,
    ensures
        eval_scalar_spec(axis0, axis1, true, g, v0, v1)
            == eval_scalar_spec(axis0, axis1, false, g, v0, w1),
{
    let a = axis1[0] as int;
    assert(clamp_spec(v1, a, a) == a);
    assert(bracket(axis1, a) == 0);
}

} // verus!
