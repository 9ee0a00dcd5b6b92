//! Bindings: keyframe value grids attached to a target node.
//!
//! A binding pairs a payload grid — one fixed-point scalar per cell for the
//! transform and draw-order targets, or one sequence of per-vertex offsets
//! per cell for the deform target — with a target node, a parallel grid of
//! "explicitly set" flags, and an interpolation mode. The grids are shaped
//! by the owning parameter's axes: rows follow the first axis, columns the
//! second (a single column when the parameter is one-dimensional).

use vstd::prelude::*;
use crate::math::{lemma_lerp_bounds, lerp_fixed, lerp_spec, Vec2};
use crate::interp::{axis_wf, bilerp_fixed, bilerp_spec, eval_scalar_grid, eval_scalar_spec,
    grid_wf, sample_axis, sample_spec};
use crate::nodes::{NodeUuid, TransformChannel};

verus! {

/// How grid cells are blended between keyframes.
#[derive(Clone, Copy, Debug, PartialEq, Eq, Structural)]
pub enum InterpolateMode {
    Linear,
}

/// Which scalar output of the target node a scalar binding drives.
#[derive(Clone, Copy, Debug, PartialEq, Eq, Structural)]
pub enum ScalarTarget {
    /// The node's draw-order key.
    ZSort,
    /// One of the node's transform channels.
    Transform(TransformChannel),
}

/// What every binding carries: the target node, the grid of
/// explicit-keyframe flags, and the interpolation mode.
#[derive(Clone, Debug, PartialEq)]
pub struct BindingBase {
    pub node: NodeUuid,
    pub is_set: Vec<Vec<bool>>,
    pub interpolate_mode: InterpolateMode,
}

/// The payload grid of a binding: one scalar per cell, or one offset per
/// mesh vertex per cell.
#[derive(Clone, Debug, PartialEq)]
pub enum BindingPayload {
    Scalar { target: ScalarTarget, values: Vec<Vec<i32>> },
    Deform { values: Vec<Vec<Vec<Vec2>>> },
}

/// A keyframe grid bound to one output of one node.
#[derive(Clone, Debug, PartialEq)]
pub struct Binding {
    pub base: BindingBase,
    pub payload: BindingPayload,
}

/// The result of evaluating one binding.
#[derive(Clone, Debug, PartialEq)]
pub enum BindingOutput {
    Scalar { value: i32 },
    Deform { offsets: Vec<Vec2> },
}

/// A rectangular deform grid whose every cell holds `nverts` offsets.
pub open spec fn deform_grid_wf(g: Seq<Seq<Seq<Vec2>>>, rows: int, cols: int, nverts: int) -> bool {
    &&& grid_wf(g, rows, cols)
    &&& forall|i: int, j: int| 0 <= i < rows && 0 <= j < cols ==> (#[trigger] g[i][j]).len()
        == nverts
}

/// A deform grid evaluated at `(v0, v1)` for vertex `k`: the `x` and `y`
/// components are each interpolated bilinearly across the four surrounding
/// cells, at the same vertex index in each.
pub open spec fn eval_deform_spec(
    axis0: Seq<i32>,
    axis1: Seq<i32>,
    use1: bool,
    g: Seq<Seq<Seq<Vec2>>>,
    v0: int,
    v1: int,
    k: int,
) -> (int, int) {
    let s0 = sample_spec(axis0, v0);
    let i = s0.0;
    let i2 = if i + 1 < axis0.len() { i + 1 } else { i };
    let s1 = if use1 { sample_spec(axis1, v1) } else { (0 as int, 0 as int, 1 as int) };
    let j = s1.0;
    let j2 = if use1 && j + 1 < axis1.len() { j + 1 } else { j };
    (
        bilerp_spec(
            g[i][j][k].x as int,
            g[i][j2][k].x as int,
            g[i2][j][k].x as int,
            g[i2][j2][k].x as int,
            s1.1,
            s1.2,
            s0.1,
            s0.2,
        ),
        bilerp_spec(
            g[i][j][k].y as int,
            g[i][j2][k].y as int,
            g[i2][j][k].y as int,
            g[i2][j2][k].y as int,
            s1.1,
            s1.2,
            s0.1,
            s0.2,
        ),
    )
}

/// Evaluate a deform grid at `(v0, v1)`, producing one interpolated offset
/// per vertex.
pub fn eval_deform_grid(
    axis0: &Vec<i32>,
    axis1: &Vec<i32>,
    use1: bool,
    g: &Vec<Vec<Vec<Vec2>>>,
    v0: i32,
    v1: i32,
) -> (out: Vec<Vec2>)
    requires
        axis_wf(axis0@),
        axis0@.len() >= 1,
        use1 ==> axis_wf(axis1@) && axis1@.len() >= 1,
        deform_grid_wf(
            g.deep_view(),
            axis0@.len() as int,
            if use1 { axis1@.len() as int } else { 1 },
            g.deep_view()[0][0].len() as int,
        ),
    ensures
        out@.len() == g.deep_view()[0][0].len(),
        forall|k: int| 0 <= k < out@.len() ==> ((#[trigger] out@[k]).x as int, out@[k].y as int)
            == eval_deform_spec(axis0@, axis1@, use1, g.deep_view(), v0 as int, v1 as int, k),
{
    let ghost gd = g.deep_view();
    let (i, n0, d0) = sample_axis(axis0, v0);
    let (j, n1, d1) = if use1 {
        sample_axis(axis1, v1)
    } else {
        (0usize, 0i64, 1i64)
    };
    let i2 = if i + 1 < axis0.len() { i + 1 } else { i };
    let j2 = if use1 && j + 1 < axis1.len() { j + 1 } else { j };
    proof {
        assert(gd[i as int] == g@[i as int].deep_view());
        assert(gd[i2 as int] == g@[i2 as int].deep_view());
        assert(gd[i as int][j as int] == g@[i as int]@[j as int].deep_view());
        assert(gd[i as int][j2 as int] == g@[i as int]@[j2 as int].deep_view());
        assert(gd[i2 as int][j as int] == g@[i2 as int]@[j as int].deep_view());
        assert(gd[i2 as int][j2 as int] == g@[i2 as int]@[j2 as int].deep_view());
        assert(gd[0][0] == g@[0]@[0].deep_view());
    }
    let nverts = g[0][0].len();
    let mut out: Vec<Vec2> = Vec::new();
    let mut k: usize = 0;
    while k < nverts
        invariant
            k <= nverts,
            out@.len() == k,
            nverts == gd[0][0].len(),
            forall|m: int| 0 <= m < k ==> ((#[trigger] out@[m]).x as int, out@[m].y as int)
                == eval_deform_spec(axis0@, axis1@, use1, gd, v0 as int, v1 as int, m),
            gd == g.deep_view(),
            axis_wf(axis0@) && axis0@.len() >= 1,
            use1 ==> axis_wf(axis1@) && axis1@.len() >= 1,
            deform_grid_wf(
                gd,
                axis0@.len() as int,
                if use1 { axis1@.len() as int } else { 1 },
                nverts as int,
            ),
            i < axis0@.len() && (i2 == i || i2 == i + 1) && i2 < axis0@.len(),
            (i as int, n0 as int, d0 as int) == sample_spec(axis0@, v0 as int),
            i2 as int == if i + 1 < axis0@.len() { i + 1 } else { i as int },
            (j as int, n1 as int, d1 as int) == (
                if use1 {
                    sample_spec(axis1@, v1 as int)
                } else {
                    (0 as int, 0 as int, 1 as int)
                }
            ),
            j2 as int == if use1 && j + 1 < axis1@.len() { j + 1 } else { j as int },
            j2 < (if use1 { axis1@.len() } else { 1 }) as usize,
            0 <= n1 <= d1 && 0 < d1 && 0 <= n0 <= d0 && 0 < d0,
        decreases nverts - k,
    {
        proof {
            assert(gd[i as int][j as int][k as int] == g@[i as int]@[j as int]@[k as int]);
            assert(gd[i as int][j2 as int][k as int] == g@[i as int]@[j2 as int]@[k as int]);
            assert(gd[i2 as int][j as int][k as int] == g@[i2 as int]@[j as int]@[k as int]);
            assert(gd[i2 as int][j2 as int][k as int] == g@[i2 as int]@[j2 as int]@[k as int]);
        }
        let c00 = g[i][j][k];
        let c01 = g[i][j2][k];
        let c10 = g[i2][j][k];
        let c11 = g[i2][j2][k];
        let x = bilerp_fixed(c00.x, c01.x, c10.x, c11.x, n1, d1, n0, d0);
        let y = bilerp_fixed(c00.y, c01.y, c10.y, c11.y, n1, d1, n0, d0);
        out.push(Vec2 { x, y });
        k = k + 1;
    }
    out
}

/// Deform evaluation at grid sample positions returns the stored cell's
/// offsets exactly, vertex by vertex: no interpolation drift at exact
/// keyframes.
pub proof fn lemma_deform_exact_at_samples(
    axis0: Seq<i32>,
    axis1: Seq<i32>,
    use1: bool,
    g: Seq<Seq<Seq<Vec2>>>,
    k0: int,
    k1: int,
    v1: int,
    k: int,
)
    requires
        axis_wf(axis0),
        axis0.len() >= 1,
        use1 ==> axis_wf(axis1) && axis1.len() >= 1,
        deform_grid_wf(
            g,
            axis0.len() as int,
            if use1 {
                axis1.len() as int
            } else {
                1
            },
            g[0][0].len() as int,
        ),
        0 <= k0 < axis0.len(),
        use1 ==> 0 <= k1 < axis1.len(),
        !use1 ==> k1 == 0,
        0 <= k < g[0][0].len(),
    ensures
        eval_deform_spec(
            axis0,
            axis1,
            use1,
            g,
            axis0[k0] as int,
            if use1 {
                axis1[k1] as int
            } else {
                v1
            },
            k,
        ) == (g[k0][k1][k].x as int, g[k0][k1][k].y as int),
{
    crate::interp::lemma_sample_at_point(axis0, k0);
    let s0 = sample_spec(axis0, axis0[k0] as int);
    crate::interp::lemma_sample_props(axis0, axis0[k0] as int);
    let w1 = if use1 {
        axis1[k1] as int
    } else {
        v1
    };
    let s1 = if use1 {
        sample_spec(axis1, w1)
    } else {
        (0 as int, 0 as int, 1 as int)
    };
    if use1 {
        crate::interp::lemma_sample_at_point(axis1, k1);
        crate::interp::lemma_sample_props(axis1, w1);
    }
    let i2 = if k0 + 1 < axis0.len() {
        k0 + 1
    } else {
        k0
    };
    let j2 = if use1 && k1 + 1 < axis1.len() {
        k1 + 1
    } else {
        k1
    };
    crate::math::lemma_lerp_at_start(g[k0][k1][k].x as int, g[k0][j2][k].x as int, s1.2);
    crate::math::lemma_lerp_at_start(g[i2][k1][k].x as int, g[i2][j2][k].x as int, s1.2);
    crate::math::lemma_lerp_at_start(g[k0][k1][k].x as int, g[i2][k1][k].x as int, s0.2);
    crate::math::lemma_lerp_at_start(g[k0][k1][k].y as int, g[k0][j2][k].y as int, s1.2);
    crate::math::lemma_lerp_at_start(g[i2][k1][k].y as int, g[i2][j2][k].y as int, s1.2);
    crate::math::lemma_lerp_at_start(g[k0][k1][k].y as int, g[i2][k1][k].y as int, s0.2);
}

impl Binding {
    /// The scalar value grid (empty for a deform binding).
    pub open spec fn scalar_values(self) -> Seq<Seq<i32>> {
        match self.payload {
            BindingPayload::Scalar { values, .. } => values.deep_view(),
            BindingPayload::Deform { .. } => Seq::empty(),
        }
    }

    /// The deform value grid (empty for a scalar binding).
    pub open spec fn deform_values(self) -> Seq<Seq<Seq<Vec2>>> {
        match self.payload {
            BindingPayload::Deform { values, .. } => values.deep_view(),
            BindingPayload::Scalar { .. } => Seq::empty(),
        }
    }

    /// The scalar target driven; meaningful only for scalar bindings.
    pub open spec fn target_of(self) -> ScalarTarget {
        match self.payload {
            BindingPayload::Scalar { target, .. } => target,
            BindingPayload::Deform { .. } => ScalarTarget::ZSort,
        }
    }

    /// The number of grid rows (first-axis samples).
    pub open spec fn rows_of(self) -> int {
        if self.payload is Deform {
            self.deform_values().len() as int
        } else {
            self.scalar_values().len() as int
        }
    }

    /// The number of grid columns (second-axis samples, or one).
    pub open spec fn cols_of(self) -> int {
        if self.payload is Deform {
            self.deform_values()[0].len() as int
        } else {
            self.scalar_values()[0].len() as int
        }
    }

    /// The number of per-vertex offsets each deform cell holds.
    pub open spec fn verts_of(self) -> int {
        self.deform_values()[0][0].len() as int
    }

    /// The binding's grids are rectangular of shape `rows x cols`, the flag
    /// grid matches the value grid, and every deform cell holds the same
    /// number of offsets.
    pub open spec fn shape_wf(self, rows: int, cols: int) -> bool {
        &&& rows >= 1 && cols >= 1
        &&& grid_wf(self.base.is_set.deep_view(), rows, cols)
        &&& if self.payload is Deform {
            deform_grid_wf(self.deform_values(), rows, cols, self.verts_of())
        } else {
            grid_wf(self.scalar_values(), rows, cols)
        }
    }

    /// Shape well-formedness against the binding's own dimensions.
    pub open spec fn wf(self) -> bool {
        self.shape_wf(self.rows_of(), self.cols_of())
    }

    /// The scalar target this binding drives.
    pub fn scalar_target(&self) -> (t: ScalarTarget)
        requires
            !(self.payload is Deform),
        ensures
            t == self.target_of(),
    {
        match &self.payload {
            BindingPayload::Scalar { target, .. } => *target,
            BindingPayload::Deform { .. } => ScalarTarget::ZSort,
        }
    }

    /// Resolve this binding's output at parameter position `v`, by linear
    /// (one axis) or bilinear (two axes) grid interpolation; read-only.
    pub fn evaluate(&self, axis0: &Vec<i32>, axis1: &Vec<i32>, use1: bool, v: Vec2) -> (out:
        BindingOutput)
        requires
            axis_wf(axis0@),
            axis0@.len() >= 1,
            use1 ==> axis_wf(axis1@) && axis1@.len() >= 1,
            self.shape_wf(axis0@.len() as int, if use1 { axis1@.len() as int } else { 1 }),
        ensures
            !(self.payload is Deform) ==> out is Scalar && out->Scalar_value as int
                == eval_scalar_spec(
                axis0@,
                axis1@,
                use1,
                self.scalar_values(),
                v.x as int,
                v.y as int,
            ),
            self.payload is Deform ==> out is Deform && out->Deform_offsets@.len()
                == self.verts_of() && forall|k: int| 0 <= k < out->Deform_offsets@.len() ==> ((
                #[trigger] out->Deform_offsets@[k]).x as int, out->Deform_offsets@[k].y as int)
                == eval_deform_spec(
                axis0@,
                axis1@,
                use1,
                self.deform_values(),
                v.x as int,
                v.y as int,
                k,
            ),
    {
        match &self.payload {
            BindingPayload::Scalar { values, .. } => BindingOutput::Scalar {
                value: eval_scalar_grid(axis0, axis1, use1, values, v.x, v.y),
            },
            BindingPayload::Deform { values } => BindingOutput::Deform {
                offsets: eval_deform_grid(axis0, axis1, use1, values, v.x, v.y),
            },
        }
    }
}


/// A row of explicit-keyframe flags, all clear.
pub open spec fn all_false_row(cols: int) -> Seq<bool> {
    Seq::new(cols as nat, |c: int| false)
}

/// The default scalar row inserted before row `j`: each cell linearly
/// interpolated from the two neighboring rows (the nearest edge row
/// repeated when inserting at an extreme).
pub open spec fn inserted_scalar_row(g: Seq<Seq<i32>>, j: int, num: int, den: int) -> Seq<i32> {
    let ilo = if j == 0 { 0 } else { j - 1 };
    let ihi = if j >= g.len() { g.len() - 1 } else { j };
    Seq::new(g[0].len(), |c: int| lerp_spec(g[ilo][c] as int, g[ihi][c] as int, num, den) as i32)
}

/// The default deform row inserted before row `j`, interpolated per vertex.
pub open spec fn inserted_deform_row(g: Seq<Seq<Seq<Vec2>>>, j: int, num: int, den: int) -> Seq<
    Seq<Vec2>,
> {
    let ilo = if j == 0 { 0 } else { j - 1 };
    let ihi = if j >= g.len() { g.len() - 1 } else { j };
    Seq::new(
        g[0].len(),
        |c: int|
            Seq::new(
                g[ilo][c].len(),
                |k: int|
                    Vec2 {
                        x: lerp_spec(g[ilo][c][k].x as int, g[ihi][c][k].x as int, num, den) as i32,
                        y: lerp_spec(g[ilo][c][k].y as int, g[ihi][c][k].y as int, num, den) as i32,
                    },
            ),
    )
}

/// The default scalar cell inserted before column `j` of one row.
pub open spec fn inserted_scalar_cell(row: Seq<i32>, j: int, num: int, den: int) -> i32 {
    let jlo = if j == 0 { 0 } else { j - 1 };
    let jhi = if j >= row.len() { row.len() - 1 } else { j };
    lerp_spec(row[jlo] as int, row[jhi] as int, num, den) as i32
}

/// The default deform cell inserted before column `j` of one row.
pub open spec fn inserted_deform_cell(row: Seq<Seq<Vec2>>, j: int, num: int, den: int) -> Seq<
    Vec2,
> {
    let jlo = if j == 0 { 0 } else { j - 1 };
    let jhi = if j >= row.len() { row.len() - 1 } else { j };
    Seq::new(
        row[jlo].len(),
        |k: int|
            Vec2 {
                x: lerp_spec(row[jlo][k].x as int, row[jhi][k].x as int, num, den) as i32,
                y: lerp_spec(row[jlo][k].y as int, row[jhi][k].y as int, num, den) as i32,
            },
    )
}

/// How a binding's grids change when an axis point is inserted at index
/// `j` of dimension `dim`, with interpolation fraction `num / den` for an
/// interior insertion (`0 / 1` at an extreme).
pub open spec fn binding_inserted(
    new: Binding,
    prev: Binding,
    dim: int,
    j: int,
    num: int,
    den: int,
) -> bool {
    &&& new.base.node == prev.base.node
    &&& new.base.interpolate_mode == prev.base.interpolate_mode
    &&& (new.payload is Deform <==> prev.payload is Deform)
    &&& new.target_of() == prev.target_of()
    &&& if dim == 0 {
        &&& new.base.is_set.deep_view() == prev.base.is_set.deep_view().insert(
            j,
            all_false_row(prev.cols_of()),
        )
        &&& if prev.payload is Deform {
            new.deform_values() == prev.deform_values().insert(
                j,
                inserted_deform_row(prev.deform_values(), j, num, den),
            )
        } else {
            new.scalar_values() == prev.scalar_values().insert(
                j,
                inserted_scalar_row(prev.scalar_values(), j, num, den),
            )
        }
    } else {
        &&& new.base.is_set.deep_view().len() == prev.base.is_set.deep_view().len()
        &&& forall|i: int| 0 <= i < prev.base.is_set.deep_view().len()
            ==> #[trigger] new.base.is_set.deep_view()[i] == prev.base.is_set.deep_view()[
            i
        ].insert(j, false)
        &&& if prev.payload is Deform {
            &&& new.deform_values().len() == prev.deform_values().len()
            &&& forall|i: int| 0 <= i < prev.deform_values().len()
                ==> #[trigger] new.deform_values()[i] == prev.deform_values()[i].insert(
                j,
                inserted_deform_cell(prev.deform_values()[i], j, num, den),
            )
        } else {
            &&& new.scalar_values().len() == prev.scalar_values().len()
            &&& forall|i: int| 0 <= i < prev.scalar_values().len()
                ==> #[trigger] new.scalar_values()[i] == prev.scalar_values()[i].insert(
                j,
                inserted_scalar_cell(prev.scalar_values()[i], j, num, den),
            )
        }
    }
}

/// How a binding's grids change when the axis point at index `j` of
/// dimension `dim` is removed.
pub open spec fn binding_removed(new: Binding, prev: Binding, dim: int, j: int) -> bool {
    &&& new.base.node == prev.base.node
    &&& new.base.interpolate_mode == prev.base.interpolate_mode
    &&& (new.payload is Deform <==> prev.payload is Deform)
    &&& new.target_of() == prev.target_of()
    &&& if dim == 0 {
        &&& new.base.is_set.deep_view() == prev.base.is_set.deep_view().remove(j)
        &&& if prev.payload is Deform {
            new.deform_values() == prev.deform_values().remove(j)
        } else {
            new.scalar_values() == prev.scalar_values().remove(j)
        }
    } else {
        &&& new.base.is_set.deep_view().len() == prev.base.is_set.deep_view().len()
        &&& forall|i: int| 0 <= i < prev.base.is_set.deep_view().len()
            ==> #[trigger] new.base.is_set.deep_view()[i] == prev.base.is_set.deep_view()[
            i
        ].remove(j)
        &&& if prev.payload is Deform {
            &&& new.deform_values().len() == prev.deform_values().len()
            &&& forall|i: int| 0 <= i < prev.deform_values().len()
                ==> #[trigger] new.deform_values()[i] == prev.deform_values()[i].remove(j)
        } else {
            &&& new.scalar_values().len() == prev.scalar_values().len()
            &&& forall|i: int| 0 <= i < prev.scalar_values().len()
                ==> #[trigger] new.scalar_values()[i] == prev.scalar_values()[i].remove(j)
        }
    }
}

fn scalar_insert_row(g: &mut Vec<Vec<i32>>, j: usize, num: i64, den: i64)
    requires
        grid_wf(old(g).deep_view(), old(g)@.len() as int, old(g).deep_view()[0].len() as int),
        j <= old(g)@.len(),
        0 <= num <= den,
        0 < den,
    ensures
        final(g).deep_view() == old(g).deep_view().insert(
            j as int,
            inserted_scalar_row(old(g).deep_view(), j as int, num as int, den as int),
        ),
{
    let ghost gd = old(g).deep_view();
    let ghost srow = inserted_scalar_row(gd, j as int, num as int, den as int);
    let ilo: usize = if j == 0 { 0 } else { j - 1 };
    let ihi: usize = if j >= g.len() { g.len() - 1 } else { j };
    let cols: usize = g[0].len();
    proof {
        assert(gd[0] == g@[0].deep_view());
        assert(gd[ilo as int] == g@[ilo as int].deep_view());
        assert(gd[ihi as int] == g@[ihi as int].deep_view());
    }
    let mut row: Vec<i32> = Vec::new();
    let mut c: usize = 0;
    while c < cols
        invariant
            c <= cols,
            row@.len() == c,
            gd == g.deep_view(),
            srow == inserted_scalar_row(gd, j as int, num as int, den as int),
            grid_wf(gd, gd.len() as int, cols as int),
            cols as int == gd[0].len(),
            j <= gd.len(),
            ilo < gd.len() && ihi < gd.len(),
            ilo as int == if j == 0 { 0int } else { j - 1 },
            ihi as int == if j >= gd.len() { gd.len() - 1 } else { j as int },
            0 <= num <= den && 0 < den,
            forall|m: int| 0 <= m < c ==> row@[m] == srow[m],
        decreases cols - c,
    {
        proof {
            assert(gd[ilo as int] == g@[ilo as int].deep_view());
            assert(gd[ihi as int] == g@[ihi as int].deep_view());
            lemma_lerp_bounds(
                g@[ilo as int]@[c as int] as int,
                g@[ihi as int]@[c as int] as int,
                num as int,
                den as int,
            );
        }
        let v = lerp_fixed(g[ilo][c], g[ihi][c], num, den);
        row.push(v);
        c = c + 1;
    }
    g.insert(j, row);
    proof {
        assert(row@ =~= srow);
        assert(g.deep_view() =~~= gd.insert(j as int, srow));
    }
}

fn deform_insert_row(g: &mut Vec<Vec<Vec<Vec2>>>, j: usize, num: i64, den: i64)
    requires
        deform_grid_wf(
            old(g).deep_view(),
            old(g)@.len() as int,
            old(g).deep_view()[0].len() as int,
            old(g).deep_view()[0][0].len() as int,
        ),
        j <= old(g)@.len(),
        0 <= num <= den,
        0 < den,
    ensures
        final(g).deep_view() == old(g).deep_view().insert(
            j as int,
            inserted_deform_row(old(g).deep_view(), j as int, num as int, den as int),
        ),
{
    let ghost gd = old(g).deep_view();
    let ghost srow = inserted_deform_row(gd, j as int, num as int, den as int);
    let ilo: usize = if j == 0 { 0 } else { j - 1 };
    let ihi: usize = if j >= g.len() { g.len() - 1 } else { j };
    let cols: usize = g[0].len();
    proof {
        assert(gd[0] == g@[0].deep_view());
        assert(gd[ilo as int] == g@[ilo as int].deep_view());
        assert(gd[ihi as int] == g@[ihi as int].deep_view());
    }
    let mut row: Vec<Vec<Vec2>> = Vec::new();
    let mut c: usize = 0;
    while c < cols
        invariant
            c <= cols,
            row@.len() == c,
            gd == g.deep_view(),
            srow == inserted_deform_row(gd, j as int, num as int, den as int),
            deform_grid_wf(gd, gd.len() as int, cols as int, gd[0][0].len() as int),
            cols as int == gd[0].len(),
            j <= gd.len(),
            ilo < gd.len() && ihi < gd.len(),
            ilo as int == if j == 0 { 0int } else { j - 1 },
            ihi as int == if j >= gd.len() { gd.len() - 1 } else { j as int },
            0 <= num <= den && 0 < den,
            forall|m: int| 0 <= m < c ==> (#[trigger] row@[m]).deep_view() == srow[m],
        decreases cols - c,
    {
        proof {
            assert(gd[ilo as int] == g@[ilo as int].deep_view());
            assert(gd[ihi as int] == g@[ihi as int].deep_view());
            assert(gd[ilo as int][c as int] == g@[ilo as int]@[c as int].deep_view());
            assert(gd[ihi as int][c as int] == g@[ihi as int]@[c as int].deep_view());
        }
        let la = g[ilo][c].len();
        let lb = g[ihi][c].len();
        let n = if la < lb {
            la
        } else {
            lb
        };
        let mut cell: Vec<Vec2> = Vec::new();
        let mut k: usize = 0;
        while k < n
            invariant
                k <= n,
                cell@.len() == k,
                gd == g.deep_view(),
                n <= g@[ilo as int]@[c as int]@.len(),
                n <= g@[ihi as int]@[c as int]@.len(),
                ilo < gd.len() && ihi < gd.len() && c < gd[0].len() && c < cols,
                cols as int == gd[0].len(),
                grid_wf(gd, gd.len() as int, cols as int),
                gd[ilo as int][c as int] == g@[ilo as int]@[c as int].deep_view(),
                gd[ihi as int][c as int] == g@[ihi as int]@[c as int].deep_view(),
                0 <= num <= den && 0 < den,
                forall|m: int| 0 <= m < k ==> (#[trigger] cell@[m]).x as int == lerp_spec(
                    gd[ilo as int][c as int][m].x as int,
                    gd[ihi as int][c as int][m].x as int,
                    num as int,
                    den as int,
                ) && cell@[m].y as int == lerp_spec(
                    gd[ilo as int][c as int][m].y as int,
                    gd[ihi as int][c as int][m].y as int,
                    num as int,
                    den as int,
                ),
            decreases n - k,
        {
            let a = g[ilo][c][k];
            let b = g[ihi][c][k];
            let x = lerp_fixed(a.x, b.x, num, den);
            let y = lerp_fixed(a.y, b.y, num, den);
            cell.push(Vec2 { x, y });
            k = k + 1;
        }
        proof {
            assert(gd[ilo as int][c as int].len() == gd[ihi as int][c as int].len());
            assert(n as int == gd[ilo as int][c as int].len());
            assert(cell.deep_view() =~= srow[c as int]);
        }
        row.push(cell);
        c = c + 1;
    }
    g.insert(j, row);
    proof {
        assert(row.deep_view() =~~= srow);
        assert(g.deep_view() =~~= gd.insert(j as int, srow));
    }
}

fn bool_insert_row(g: &mut Vec<Vec<bool>>, j: usize)
    requires
        grid_wf(old(g).deep_view(), old(g)@.len() as int, old(g).deep_view()[0].len() as int),
        j <= old(g)@.len(),
    ensures
        final(g).deep_view() == old(g).deep_view().insert(
            j as int,
            all_false_row(old(g).deep_view()[0].len() as int),
        ),
{
    let ghost gd = old(g).deep_view();
    proof {
        assert(gd[0] == g@[0].deep_view());
    }
    let cols: usize = g[0].len();
    let mut row: Vec<bool> = Vec::new();
    let mut c: usize = 0;
    while c < cols
        invariant
            c <= cols,
            row@.len() == c,
            forall|m: int| 0 <= m < c ==> row@[m] == false,
        decreases cols - c,
    {
        row.push(false);
        c = c + 1;
    }
    g.insert(j, row);
    proof {
        assert(row@ =~= all_false_row(cols as int));
        assert(g.deep_view() =~~= gd.insert(j as int, all_false_row(gd[0].len() as int)));
    }
}

fn scalar_insert_col(g: &mut Vec<Vec<i32>>, j: usize, num: i64, den: i64)
    requires
        grid_wf(old(g).deep_view(), old(g)@.len() as int, old(g).deep_view()[0].len() as int),
        j <= old(g).deep_view()[0].len(),
        0 <= num <= den,
        0 < den,
    ensures
        final(g).deep_view().len() == old(g).deep_view().len(),
        forall|i: int| 0 <= i < old(g).deep_view().len() ==> #[trigger] final(g).deep_view()[i]
            == old(
            g,
        ).deep_view()[i].insert(
            j as int,
            inserted_scalar_cell(old(g).deep_view()[i], j as int, num as int, den as int),
        ),
{
    let ghost gd = old(g).deep_view();
    let rows = g.len();
    let mut i: usize = 0;
    while i < rows
        invariant
            i <= rows,
            g@.len() == rows,
            rows == gd.len(),
            gd == old(g).deep_view(),
            grid_wf(gd, gd.len() as int, gd[0].len() as int),
            j <= gd[0].len(),
            0 <= num <= den && 0 < den,
            forall|m: int| i <= m < rows ==> g@[m] == old(g)@[m],
            forall|m: int| 0 <= m < i ==> (#[trigger] g@[m]).deep_view() == gd[m].insert(
                j as int,
                inserted_scalar_cell(gd[m], j as int, num as int, den as int),
            ),
        decreases rows - i,
    {
        proof {
            assert(g@[i as int] == old(g)@[i as int]);
            assert(gd[i as int] == old(g)@[i as int].deep_view());
            assert(g@[i as int]@.len() == gd[i as int].len());
        }
        let rl = g[i].len();
        let jlo: usize = if j == 0 { 0 } else { j - 1 };
        let jhi: usize = if j >= rl { rl - 1 } else { j };
        proof {
            lemma_lerp_bounds(
                g@[i as int]@[jlo as int] as int,
                g@[i as int]@[jhi as int] as int,
                num as int,
                den as int,
            );
        }
        let cell = lerp_fixed(g[i][jlo], g[i][jhi], num, den);
        g[i].insert(j, cell);
        proof {
            assert((g@[i as int]).deep_view() =~= gd[i as int].insert(
                j as int,
                inserted_scalar_cell(gd[i as int], j as int, num as int, den as int),
            ));
        }
        i = i + 1;
    }
    proof {
        assert forall|m: int| 0 <= m < gd.len() implies #[trigger] g.deep_view()[m] == gd[
            m
        ].insert(
            j as int,
            inserted_scalar_cell(gd[m], j as int, num as int, den as int),
        ) by {
            assert(g.deep_view()[m] == g@[m].deep_view());
        }
    }
}

fn deform_insert_col(g: &mut Vec<Vec<Vec<Vec2>>>, j: usize, num: i64, den: i64)
    requires
        deform_grid_wf(
            old(g).deep_view(),
            old(g)@.len() as int,
            old(g).deep_view()[0].len() as int,
            old(g).deep_view()[0][0].len() as int,
        ),
        j <= old(g).deep_view()[0].len(),
        0 <= num <= den,
        0 < den,
    ensures
        final(g).deep_view().len() == old(g).deep_view().len(),
        forall|i: int| 0 <= i < old(g).deep_view().len() ==> #[trigger] final(g).deep_view()[i]
            == old(
            g,
        ).deep_view()[i].insert(
            j as int,
            inserted_deform_cell(old(g).deep_view()[i], j as int, num as int, den as int),
        ),
{
    let ghost gd = old(g).deep_view();
    let rows = g.len();
    let mut i: usize = 0;
    while i < rows
        invariant
            i <= rows,
            g@.len() == rows,
            rows == gd.len(),
            gd == old(g).deep_view(),
            deform_grid_wf(gd, gd.len() as int, gd[0].len() as int, gd[0][0].len() as int),
            j <= gd[0].len(),
            0 <= num <= den && 0 < den,
            forall|m: int| i <= m < rows ==> g@[m] == old(g)@[m],
            forall|m: int| 0 <= m < i ==> (#[trigger] g@[m]).deep_view() == gd[m].insert(
                j as int,
                inserted_deform_cell(gd[m], j as int, num as int, den as int),
            ),
        decreases rows - i,
    {
        proof {
            assert(g@[i as int] == old(g)@[i as int]);
            assert(gd[i as int] == old(g)@[i as int].deep_view());
            assert(g@[i as int]@.len() == gd[i as int].len());
        }
        let rl = g[i].len();
        let jlo: usize = if j == 0 { 0 } else { j - 1 };
        let jhi: usize = if j >= rl { rl - 1 } else { j };
        proof {
            assert(gd[i as int][jlo as int] == g@[i as int]@[jlo as int].deep_view());
            assert(gd[i as int][jhi as int] == g@[i as int]@[jhi as int].deep_view());
        }
        let la = g[i][jlo].len();
        let lb = g[i][jhi].len();
        let n = if la < lb {
            la
        } else {
            lb
        };
        let mut cell: Vec<Vec2> = Vec::new();
        let mut k: usize = 0;
        while k < n
            invariant
                k <= n,
                cell@.len() == k,
                i < rows && rows == gd.len() && g@.len() == rows,
                g@[i as int] == old(g)@[i as int],
                gd[i as int] == g@[i as int].deep_view(),
                jlo < gd[i as int].len() && jhi < gd[i as int].len(),
                n <= g@[i as int]@[jlo as int]@.len(),
                n <= g@[i as int]@[jhi as int]@.len(),
                gd[i as int][jlo as int] == g@[i as int]@[jlo as int].deep_view(),
                gd[i as int][jhi as int] == g@[i as int]@[jhi as int].deep_view(),
                0 <= num <= den && 0 < den,
                forall|m: int| 0 <= m < k ==> (#[trigger] cell@[m]).x as int == lerp_spec(
                    gd[i as int][jlo as int][m].x as int,
                    gd[i as int][jhi as int][m].x as int,
                    num as int,
                    den as int,
                ) && cell@[m].y as int == lerp_spec(
                    gd[i as int][jlo as int][m].y as int,
                    gd[i as int][jhi as int][m].y as int,
                    num as int,
                    den as int,
                ),
            decreases n - k,
        {
            let a = g[i][jlo][k];
            let b = g[i][jhi][k];
            let x = lerp_fixed(a.x, b.x, num, den);
            let y = lerp_fixed(a.y, b.y, num, den);
            cell.push(Vec2 { x, y });
            k = k + 1;
        }
        proof {
            assert(n as int == gd[i as int][jlo as int].len());
            assert(cell.deep_view() =~= inserted_deform_cell(
                gd[i as int],
                j as int,
                num as int,
                den as int,
            ));
        }
        g[i].insert(j, cell);
        proof {
            assert((g@[i as int]).deep_view() =~~= gd[i as int].insert(
                j as int,
                inserted_deform_cell(gd[i as int], j as int, num as int, den as int),
            ));
        }
        i = i + 1;
    }
    proof {
        assert forall|m: int| 0 <= m < gd.len() implies #[trigger] g.deep_view()[m] == gd[
            m
        ].insert(
            j as int,
            inserted_deform_cell(gd[m], j as int, num as int, den as int),
        ) by {
            assert(g.deep_view()[m] == g@[m].deep_view());
        }
    }
}

fn bool_insert_col(g: &mut Vec<Vec<bool>>, j: usize)
    requires
        grid_wf(old(g).deep_view(), old(g)@.len() as int, old(g).deep_view()[0].len() as int),
        j <= old(g).deep_view()[0].len(),
    ensures
        final(g).deep_view().len() == old(g).deep_view().len(),
        forall|i: int| 0 <= i < old(g).deep_view().len() ==> #[trigger] final(g).deep_view()[i]
            == old(
            g,
        ).deep_view()[i].insert(j as int, false),
{
    let ghost gd = old(g).deep_view();
    let rows = g.len();
    let mut i: usize = 0;
    while i < rows
        invariant
            i <= rows,
            g@.len() == rows,
            rows == gd.len(),
            gd == old(g).deep_view(),
            grid_wf(gd, gd.len() as int, gd[0].len() as int),
            j <= gd[0].len(),
            forall|m: int| i <= m < rows ==> g@[m] == old(g)@[m],
            forall|m: int| 0 <= m < i ==> (#[trigger] g@[m]).deep_view() == gd[m].insert(
                j as int,
                false,
            ),
        decreases rows - i,
    {
        proof {
            assert(g@[i as int] == old(g)@[i as int]);
            assert(gd[i as int] == old(g)@[i as int].deep_view());
            assert(g@[i as int]@.len() == gd[i as int].len());
        }
        g[i].insert(j, false);
        proof {
            assert((g@[i as int]).deep_view() =~= gd[i as int].insert(j as int, false));
        }
        i = i + 1;
    }
    proof {
        assert forall|m: int| 0 <= m < gd.len() implies #[trigger] g.deep_view()[m] == gd[
            m
        ].insert(j as int, false) by {
            assert(g.deep_view()[m] == g@[m].deep_view());
        }
    }
}

fn grid_remove_row<T: DeepView>(g: &mut Vec<Vec<T>>, j: usize)
    requires
        j < old(g)@.len(),
    ensures
        final(g).deep_view() == old(g).deep_view().remove(j as int),
{
    g.remove(j);
    proof {
        assert(g.deep_view() =~~= old(g).deep_view().remove(j as int));
    }
}

fn grid_remove_col<T: DeepView>(g: &mut Vec<Vec<T>>, j: usize)
    requires
        grid_wf(old(g).deep_view(), old(g)@.len() as int, old(g).deep_view()[0].len() as int),
        j < old(g).deep_view()[0].len(),
    ensures
        final(g).deep_view().len() == old(g).deep_view().len(),
        forall|i: int| 0 <= i < old(g).deep_view().len() ==> #[trigger] final(g).deep_view()[i]
            == old(
            g,
        ).deep_view()[i].remove(j as int),
{
    let ghost gd = old(g).deep_view();
    let rows = g.len();
    let mut i: usize = 0;
    while i < rows
        invariant
            i <= rows,
            g@.len() == rows,
            rows == gd.len(),
            gd == old(g).deep_view(),
            grid_wf(gd, gd.len() as int, gd[0].len() as int),
            j < gd[0].len(),
            forall|m: int| i <= m < rows ==> g@[m] == old(g)@[m],
            forall|m: int| 0 <= m < i ==> (#[trigger] g@[m]).deep_view() == gd[m].remove(
                j as int,
            ),
        decreases rows - i,
    {
        proof {
            assert(g@[i as int] == old(g)@[i as int]);
            assert(gd[i as int] == old(g)@[i as int].deep_view());
            assert(g@[i as int]@.len() == gd[i as int].len());
        }
        let _ = g[i].remove(j);
        proof {
            assert((g@[i as int]).deep_view() =~~= gd[i as int].remove(j as int));
        }
        i = i + 1;
    }
    proof {
        assert forall|m: int| 0 <= m < gd.len() implies #[trigger] g.deep_view()[m] == gd[
            m
        ].remove(j as int) by {
            assert(g.deep_view()[m] == g@[m].deep_view());
        }
    }
}


/// Inserting a point then removing the same index restores a sequence.
pub proof fn lemma_seq_insert_remove<A>(s: Seq<A>, j: int, x: A)
    requires
        0 <= j <= s.len(),
    ensures
        s.insert(j, x).remove(j) == s,
{
    s.insert_ensures(j, x);
    s.insert(j, x).remove_ensures(j);
    assert(s.insert(j, x).remove(j) =~= s);
}

/// A grid transformed by `binding_inserted` keeps its well-formedness; the
/// affected dimension grows by one.
pub proof fn lemma_binding_inserted_wf(
    new: Binding,
    prev: Binding,
    dim: int,
    j: int,
    num: int,
    den: int,
)
    requires
        prev.wf(),
        0 <= dim < 2,
        dim == 0 ==> 0 <= j <= prev.rows_of(),
        dim == 1 ==> 0 <= j <= prev.cols_of(),
        binding_inserted(new, prev, dim, j, num, den),
    ensures
        new.wf(),
        dim == 0 ==> new.rows_of() == prev.rows_of() + 1 && new.cols_of() == prev.cols_of(),
        dim == 1 ==> new.rows_of() == prev.rows_of() && new.cols_of() == prev.cols_of() + 1,
        new.payload is Deform ==> new.verts_of() == prev.verts_of(),
{
    let rows = prev.rows_of();
    let cols = prev.cols_of();
    let fs = prev.base.is_set.deep_view();
    if dim == 0 {
        fs.insert_ensures(j, all_false_row(cols));
        if prev.payload is Deform {
            let g = prev.deform_values();
            let row = inserted_deform_row(g, j, num, den);
            g.insert_ensures(j, row);
            assert(forall|c: int| 0 <= c < cols ==> (#[trigger] row[c]).len() == prev.verts_of());
        } else {
            let g = prev.scalar_values();
            let row = inserted_scalar_row(g, j, num, den);
            g.insert_ensures(j, row);
        }
    } else {
        assert(new.base.is_set.deep_view()[0] == fs[0].insert(j, false));
        fs[0].insert_ensures(j, false);
        if prev.payload is Deform {
            let g = prev.deform_values();
            assert(new.deform_values()[0] == g[0].insert(
                j,
                inserted_deform_cell(g[0], j, num, den),
            ));
            g[0].insert_ensures(j, inserted_deform_cell(g[0], j, num, den));
            assert forall|i: int, c: int|
                0 <= i < rows && 0 <= c < cols + 1 implies (#[trigger] new.deform_values()[i][
                c
            ]).len() == prev.verts_of() by {
                g[i].insert_ensures(j, inserted_deform_cell(g[i], j, num, den));
            }
            assert forall|i: int| 0 <= i < rows implies (#[trigger] new.deform_values()[i]).len()
                == cols + 1 by {
                g[i].insert_ensures(j, inserted_deform_cell(g[i], j, num, den));
            }
        } else {
            let g = prev.scalar_values();
            assert(new.scalar_values()[0] == g[0].insert(
                j,
                inserted_scalar_cell(g[0], j, num, den),
            ));
            g[0].insert_ensures(j, inserted_scalar_cell(g[0], j, num, den));
            assert forall|i: int| 0 <= i < rows implies (#[trigger] new.scalar_values()[i]).len()
                == cols + 1 by {
                g[i].insert_ensures(j, inserted_scalar_cell(g[i], j, num, den));
            }
        }
        assert forall|i: int| 0 <= i < rows implies (#[trigger] new.base.is_set.deep_view()[
            i
        ]).len() == cols + 1 by {
            fs[i].insert_ensures(j, false);
        }
    }
}

/// A grid transformed by `binding_removed` keeps its well-formedness; the
/// affected dimension shrinks by one.
pub proof fn lemma_binding_removed_wf(new: Binding, prev: Binding, dim: int, j: int)
    requires
        prev.wf(),
        0 <= dim < 2,
        dim == 0 ==> 0 <= j < prev.rows_of() && prev.rows_of() >= 2,
        dim == 1 ==> 0 <= j < prev.cols_of() && prev.cols_of() >= 2,
        binding_removed(new, prev, dim, j),
    ensures
        new.wf(),
        dim == 0 ==> new.rows_of() == prev.rows_of() - 1 && new.cols_of() == prev.cols_of(),
        dim == 1 ==> new.rows_of() == prev.rows_of() && new.cols_of() == prev.cols_of() - 1,
        new.payload is Deform ==> new.verts_of() == prev.verts_of(),
{
    let rows = prev.rows_of();
    let cols = prev.cols_of();
    let fs = prev.base.is_set.deep_view();
    if dim == 0 {
        fs.remove_ensures(j);
        if prev.payload is Deform {
            prev.deform_values().remove_ensures(j);
        } else {
            prev.scalar_values().remove_ensures(j);
        }
    } else {
        assert(new.base.is_set.deep_view()[0] == fs[0].remove(j));
        fs[0].remove_ensures(j);
        if prev.payload is Deform {
            let g = prev.deform_values();
            assert(new.deform_values()[0] == g[0].remove(j));
            g[0].remove_ensures(j);
            assert forall|i: int, c: int|
                0 <= i < rows && 0 <= c < cols - 1 implies (#[trigger] new.deform_values()[i][
                c
            ]).len() == prev.verts_of() by {
                g[i].remove_ensures(j);
            }
            assert forall|i: int| 0 <= i < rows implies (#[trigger] new.deform_values()[i]).len()
                == cols - 1 by {
                g[i].remove_ensures(j);
            }
        } else {
            let g = prev.scalar_values();
            assert(new.scalar_values()[0] == g[0].remove(j));
            g[0].remove_ensures(j);
            assert forall|i: int| 0 <= i < rows implies (#[trigger] new.scalar_values()[i]).len()
                == cols - 1 by {
                g[i].remove_ensures(j);
            }
        }
        assert forall|i: int| 0 <= i < rows implies (#[trigger] new.base.is_set.deep_view()[
            i
        ]).len() == cols - 1 by {
            fs[i].remove_ensures(j);
        }
    }
}

/// Inserting an axis point and then removing it restores every grid of the
/// binding exactly: values, flags, target and node all return to their
/// original state.
pub proof fn lemma_insert_remove_round_trip(
    prev: Binding,
    mid: Binding,
    fin: Binding,
    dim: int,
    j: int,
    num: int,
    den: int,
)
    requires
        prev.wf(),
        0 <= dim < 2,
        dim == 0 ==> 0 <= j <= prev.rows_of(),
        dim == 1 ==> 0 <= j <= prev.cols_of(),
        binding_inserted(mid, prev, dim, j, num, den),
        binding_removed(fin, mid, dim, j),
    ensures
        fin.base.node == prev.base.node,
        fin.base.interpolate_mode == prev.base.interpolate_mode,
        (fin.payload is Deform <==> prev.payload is Deform),
        fin.target_of() == prev.target_of(),
        fin.base.is_set.deep_view() == prev.base.is_set.deep_view(),
        !(prev.payload is Deform) ==> fin.scalar_values() == prev.scalar_values(),
        prev.payload is Deform ==> fin.deform_values() == prev.deform_values(),
{
    let rows = prev.rows_of();
    let cols = prev.cols_of();
    let fs = prev.base.is_set.deep_view();
    if dim == 0 {
        lemma_seq_insert_remove(fs, j, all_false_row(cols));
        if prev.payload is Deform {
            lemma_seq_insert_remove(
                prev.deform_values(),
                j,
                inserted_deform_row(prev.deform_values(), j, num, den),
            );
        } else {
            lemma_seq_insert_remove(
                prev.scalar_values(),
                j,
                inserted_scalar_row(prev.scalar_values(), j, num, den),
            );
        }
    } else {
        assert forall|i: int| 0 <= i < rows implies #[trigger] fin.base.is_set.deep_view()[i]
            == fs[i] by {
            lemma_seq_insert_remove(fs[i], j, false);
        }
        assert(fin.base.is_set.deep_view() =~= fs);
        if prev.payload is Deform {
            let g = prev.deform_values();
            assert forall|i: int| 0 <= i < rows implies #[trigger] fin.deform_values()[i]
                == g[i] by {
                lemma_seq_insert_remove(g[i], j, inserted_deform_cell(g[i], j, num, den));
            }
            assert(fin.deform_values() =~= g);
        } else {
            let g = prev.scalar_values();
            assert forall|i: int| 0 <= i < rows implies #[trigger] fin.scalar_values()[i]
                == g[i] by {
                lemma_seq_insert_remove(g[i], j, inserted_scalar_cell(g[i], j, num, den));
            }
            assert(fin.scalar_values() =~= g);
        }
    }
}

impl Binding {
    /// Re-shape the grids for a new axis point inserted at index `j` of
    /// dimension `dim`. The new row or column defaults to values linearly
    /// interpolated between its neighbors (`num / den` is the fraction
    /// between them; `0 / 1` at an extreme, repeating the edge), and none
    /// of its cells counts as explicitly set.
    pub fn insert_point(&mut self, dim: usize, j: usize, num: i64, den: i64)
        requires
            old(self).wf(),
            dim < 2,
            dim == 0 ==> j <= old(self).rows_of(),
            dim == 1 ==> j <= old(self).cols_of(),
            0 <= num <= den,
            0 < den,
        ensures
            binding_inserted(
                *final(self),
                *old(self),
                dim as int,
                j as int,
                num as int,
                den as int,
            ),
            final(self).wf(),
            dim == 0 ==> final(self).rows_of() == old(self).rows_of() + 1 && final(self).cols_of() == old(self).cols_of(),
            dim == 1 ==> final(self).rows_of() == old(self).rows_of() && final(self).cols_of()
                == old(self).cols_of() + 1,
            final(self).payload is Deform ==> final(self).verts_of() == old(self).verts_of(),
    {
        let mut tmp = BindingPayload::Deform { values: Vec::new() };
        core::mem::swap(&mut self.payload, &mut tmp);
        if dim == 0 {
            bool_insert_row(&mut self.base.is_set, j);
            tmp = match tmp {
                BindingPayload::Scalar { target, values } => {
                    let mut values = values;
                    scalar_insert_row(&mut values, j, num, den);
                    BindingPayload::Scalar { target, values }
                },
                BindingPayload::Deform { values } => {
                    let mut values = values;
                    deform_insert_row(&mut values, j, num, den);
                    BindingPayload::Deform { values }
                },
            };
        } else {
            bool_insert_col(&mut self.base.is_set, j);
            tmp = match tmp {
                BindingPayload::Scalar { target, values } => {
                    let mut values = values;
                    scalar_insert_col(&mut values, j, num, den);
                    BindingPayload::Scalar { target, values }
                },
                BindingPayload::Deform { values } => {
                    let mut values = values;
                    deform_insert_col(&mut values, j, num, den);
                    BindingPayload::Deform { values }
                },
            };
        }
        self.payload = tmp;
        proof {
            if dim == 1 {
                assert(self.base.is_set.deep_view().len() == old(self).base.is_set.deep_view().len());
            }
            assert(binding_inserted(
                *self,
                *old(self),
                dim as int,
                j as int,
                num as int,
                den as int,
            ));
            lemma_binding_inserted_wf(
                *self,
                *old(self),
                dim as int,
                j as int,
                num as int,
                den as int,
            );
        }
    }

    /// Drop the grid row or column belonging to the removed axis point at
    /// index `j` of dimension `dim`.
    pub fn remove_point(&mut self, dim: usize, j: usize)
        requires
            old(self).wf(),
            dim < 2,
            dim == 0 ==> j < old(self).rows_of() && old(self).rows_of() >= 2,
            dim == 1 ==> j < old(self).cols_of() && old(self).cols_of() >= 2,
        ensures
            binding_removed(*final(self), *old(self), dim as int, j as int),
            final(self).wf(),
            dim == 0 ==> final(self).rows_of() == old(self).rows_of() - 1 && final(self).cols_of() == old(self).cols_of(),
            dim == 1 ==> final(self).rows_of() == old(self).rows_of() && final(self).cols_of()
                == old(self).cols_of() - 1,
            final(self).payload is Deform ==> final(self).verts_of() == old(self).verts_of(),
    {
        let mut tmp = BindingPayload::Deform { values: Vec::new() };
        core::mem::swap(&mut self.payload, &mut tmp);
        if dim == 0 {
            grid_remove_row(&mut self.base.is_set, j);
            tmp = match tmp {
                BindingPayload::Scalar { target, values } => {
                    let mut values = values;
                    grid_remove_row(&mut values, j);
                    BindingPayload::Scalar { target, values }
                },
                BindingPayload::Deform { values } => {
                    let mut values = values;
                    grid_remove_row(&mut values, j);
                    BindingPayload::Deform { values }
                },
            };
        } else {
            grid_remove_col(&mut self.base.is_set, j);
            tmp = match tmp {
                BindingPayload::Scalar { target, values } => {
                    let mut values = values;
                    grid_remove_col(&mut values, j);
                    BindingPayload::Scalar { target, values }
                },
                BindingPayload::Deform { values } => {
                    let mut values = values;
                    grid_remove_col(&mut values, j);
                    BindingPayload::Deform { values }
                },
            };
        }
        self.payload = tmp;
        proof {
            assert(binding_removed(*self, *old(self), dim as int, j as int));
            lemma_binding_removed_wf(*self, *old(self), dim as int, j as int);
        }
    }

    /// Write an explicit scalar keyframe at cell `(i, j)`: the stored value
    /// is replaced and the cell's explicit-set flag raised.
    pub fn set_scalar(&mut self, i: usize, j: usize, value: i32)
        requires
            old(self).wf(),
            !(old(self).payload is Deform),
            i < old(self).rows_of(),
            j < old(self).cols_of(),
        ensures
            final(self).base.node == old(self).base.node,
            final(self).base.interpolate_mode == old(self).base.interpolate_mode,
            !(final(self).payload is Deform),
            final(self).target_of() == old(self).target_of(),
            final(self).scalar_values() == old(self).scalar_values().update(
                i as int,
                old(self).scalar_values()[i as int].update(j as int, value),
            ),
            final(self).base.is_set.deep_view() == old(self).base.is_set.deep_view().update(
                i as int,
                old(self).base.is_set.deep_view()[i as int].update(j as int, true),
            ),
            final(self).wf(),
            final(self).rows_of() == old(self).rows_of(),
            final(self).cols_of() == old(self).cols_of(),
    {
        proof {
            assert(old(self).base.is_set.deep_view().len() == old(self).rows_of());
            assert(old(self).base.is_set.deep_view()[i as int] == self.base.is_set@[
                i as int
            ].deep_view());
            assert(self.base.is_set@[i as int]@.len() == old(self).cols_of());
        }
        self.base.is_set[i][j] = true;
        let mut tmp = BindingPayload::Deform { values: Vec::new() };
        core::mem::swap(&mut self.payload, &mut tmp);
        tmp = match tmp {
            BindingPayload::Scalar { target, values } => {
                let mut values = values;
                proof {
                    assert(old(self).scalar_values()[i as int] == values@[
                        i as int
                    ].deep_view());
                    assert(values@[i as int]@.len() == old(self).cols_of());
                }
                values[i][j] = value;
                BindingPayload::Scalar { target, values }
            },
            BindingPayload::Deform { values } => BindingPayload::Deform { values },
        };
        self.payload = tmp;
        proof {
            assert(self.base.is_set.deep_view() =~~= old(self).base.is_set.deep_view().update(
                i as int,
                old(self).base.is_set.deep_view()[i as int].update(j as int, true),
            ));
            assert(self.scalar_values() =~~= old(self).scalar_values().update(
                i as int,
                old(self).scalar_values()[i as int].update(j as int, value),
            ));
        }
    }

    /// Write an explicit deform keyframe at cell `(i, j)`: the stored
    /// per-vertex offsets are replaced and the cell's explicit-set flag
    /// raised.
    pub fn set_deform_cell(&mut self, i: usize, j: usize, offsets: Vec<Vec2>)
        requires
            old(self).wf(),
            old(self).payload is Deform,
            i < old(self).rows_of(),
            j < old(self).cols_of(),
            offsets@.len() == old(self).verts_of(),
        ensures
            final(self).base.node == old(self).base.node,
            final(self).base.interpolate_mode == old(self).base.interpolate_mode,
            final(self).payload is Deform,
            final(self).deform_values() == old(self).deform_values().update(
                i as int,
                old(self).deform_values()[i as int].update(j as int, offsets.deep_view()),
            ),
            final(self).base.is_set.deep_view() == old(self).base.is_set.deep_view().update(
                i as int,
                old(self).base.is_set.deep_view()[i as int].update(j as int, true),
            ),
            final(self).wf(),
            final(self).rows_of() == old(self).rows_of(),
            final(self).cols_of() == old(self).cols_of(),
            final(self).verts_of() == old(self).verts_of(),
    {
        proof {
            assert(old(self).base.is_set.deep_view().len() == old(self).rows_of());
            assert(old(self).base.is_set.deep_view()[i as int] == self.base.is_set@[
                i as int
            ].deep_view());
            assert(self.base.is_set@[i as int]@.len() == old(self).cols_of());
        }
        self.base.is_set[i][j] = true;
        let mut tmp = BindingPayload::Deform { values: Vec::new() };
        core::mem::swap(&mut self.payload, &mut tmp);
        tmp = match tmp {
            BindingPayload::Scalar { target, values } => BindingPayload::Scalar {
                target,
                values,
            },
            BindingPayload::Deform { values } => {
                let mut values = values;
                proof {
                    assert(old(self).deform_values()[i as int] == values@[
                        i as int
                    ].deep_view());
                    assert(values@[i as int]@.len() == old(self).cols_of());
                }
                values[i][j] = offsets;
                BindingPayload::Deform { values }
            },
        };
        self.payload = tmp;
        proof {
            assert(self.base.is_set.deep_view() =~~= old(self).base.is_set.deep_view().update(
                i as int,
                old(self).base.is_set.deep_view()[i as int].update(j as int, true),
            ));
            assert(self.deform_values() =~~= old(self).deform_values().update(
                i as int,
                old(self).deform_values()[i as int].update(j as int, offsets.deep_view()),
            ));
        }
    }
}


/// The source indices and interpolation fraction used to recompute a
/// cleared cell `(i, j)` from its neighbors: along the first axis when it
/// has more than one sample (edge cells copy their inner neighbor), else
/// along the second, else the cell keeps its stored value.
pub open spec fn clear_frac(
    axis0: Seq<i32>,
    axis1: Seq<i32>,
    rows: int,
    cols: int,
    i: int,
    j: int,
) -> (int, int, int, int, bool) {
    if rows > 1 {
        if i == 0 {
            (1, 1, 0, 1, true)
        } else if i == rows - 1 {
            (rows - 2, rows - 2, 0, 1, true)
        } else {
            (i - 1, i + 1, axis0[i] - axis0[i - 1], axis0[i + 1] - axis0[i - 1], true)
        }
    } else if cols > 1 {
        if j == 0 {
            (1, 1, 0, 1, false)
        } else if j == cols - 1 {
            (cols - 2, cols - 2, 0, 1, false)
        } else {
            (j - 1, j + 1, axis1[j] - axis1[j - 1], axis1[j + 1] - axis1[j - 1], false)
        }
    } else {
        (0, 0, 0, 1, true)
    }
}

/// The default value a cleared scalar cell falls back to.
pub open spec fn cleared_scalar_cell(
    axis0: Seq<i32>,
    axis1: Seq<i32>,
    g: Seq<Seq<i32>>,
    i: int,
    j: int,
) -> i32 {
    let f = clear_frac(axis0, axis1, g.len() as int, g[0].len() as int, i, j);
    if f.4 {
        lerp_spec(g[f.0][j] as int, g[f.1][j] as int, f.2, f.3) as i32
    } else {
        lerp_spec(g[i][f.0] as int, g[i][f.1] as int, f.2, f.3) as i32
    }
}

/// The default offsets a cleared deform cell falls back to, interpolated
/// per vertex.
pub open spec fn cleared_deform_cell(
    axis0: Seq<i32>,
    axis1: Seq<i32>,
    g: Seq<Seq<Seq<Vec2>>>,
    i: int,
    j: int,
) -> Seq<Vec2> {
    let f = clear_frac(axis0, axis1, g.len() as int, g[0].len() as int, i, j);
    if f.4 {
        Seq::new(
            g[i][j].len(),
            |k: int|
                Vec2 {
                    x: lerp_spec(g[f.0][j][k].x as int, g[f.1][j][k].x as int, f.2, f.3) as i32,
                    y: lerp_spec(g[f.0][j][k].y as int, g[f.1][j][k].y as int, f.2, f.3) as i32,
                },
        )
    } else {
        Seq::new(
            g[i][j].len(),
            |k: int|
                Vec2 {
                    x: lerp_spec(g[i][f.0][k].x as int, g[i][f.1][k].x as int, f.2, f.3) as i32,
                    y: lerp_spec(g[i][f.0][k].y as int, g[i][f.1][k].y as int, f.2, f.3) as i32,
                },
        )
    }
}

impl Binding {
    /// Clear the explicit keyframe at cell `(i, j)`: the explicit-set flag
    /// is dropped and the cell's value recomputed from its neighbors by
    /// the same interpolation policy that fills an inserted row.
    pub fn clear_value(&mut self, axis0: &Vec<i32>, axis1: &Vec<i32>, i: usize, j: usize)
        requires
            old(self).wf(),
            i < old(self).rows_of(),
            j < old(self).cols_of(),
            old(self).rows_of() > 1 ==> axis0@.len() == old(self).rows_of() && axis_wf(axis0@),
            old(self).rows_of() == 1 && old(self).cols_of() > 1 ==> axis1@.len() == old(
                self,
            ).cols_of() && axis_wf(axis1@),
        ensures
            final(self).base.node == old(self).base.node,
            final(self).base.interpolate_mode == old(self).base.interpolate_mode,
            (final(self).payload is Deform <==> old(self).payload is Deform),
            final(self).target_of() == old(self).target_of(),
            final(self).base.is_set.deep_view() == old(self).base.is_set.deep_view().update(
                i as int,
                old(self).base.is_set.deep_view()[i as int].update(j as int, false),
            ),
            !(old(self).payload is Deform) ==> final(self).scalar_values() == old(
                self,
            ).scalar_values().update(
                i as int,
                old(self).scalar_values()[i as int].update(
                    j as int,
                    cleared_scalar_cell(axis0@, axis1@, old(self).scalar_values(), i as int, j as int),
                ),
            ),
            old(self).payload is Deform ==> final(self).deform_values() == old(
                self,
            ).deform_values().update(
                i as int,
                old(self).deform_values()[i as int].update(
                    j as int,
                    cleared_deform_cell(axis0@, axis1@, old(self).deform_values(), i as int, j as int),
                ),
            ),
            final(self).wf(),
            final(self).rows_of() == old(self).rows_of(),
            final(self).cols_of() == old(self).cols_of(),
            final(self).payload is Deform ==> final(self).verts_of() == old(self).verts_of(),
    {
        let rows = self.base.is_set.len();
        let cols = self.base.is_set[0].len();
        proof {
            assert(old(self).base.is_set.deep_view()[0] == self.base.is_set@[0].deep_view());
            assert(old(self).base.is_set.deep_view()[i as int] == self.base.is_set@[
                i as int
            ].deep_view());
            assert(rows as int == old(self).rows_of());
            assert(cols as int == old(self).cols_of());
        }
        let (lo, hi, num, den, along0): (usize, usize, i64, i64, bool) = if rows > 1 {
            if i == 0 {
                (1, 1, 0, 1, true)
            } else if i == rows - 1 {
                (rows - 2, rows - 2, 0, 1, true)
            } else {
                (
                    i - 1,
                    i + 1,
                    axis0[i] as i64 - axis0[i - 1] as i64,
                    axis0[i + 1] as i64 - axis0[i - 1] as i64,
                    true,
                )
            }
        } else if cols > 1 {
            if j == 0 {
                (1, 1, 0, 1, false)
            } else if j == cols - 1 {
                (cols - 2, cols - 2, 0, 1, false)
            } else {
                (
                    j - 1,
                    j + 1,
                    axis1[j] as i64 - axis1[j - 1] as i64,
                    axis1[j + 1] as i64 - axis1[j - 1] as i64,
                    false,
                )
            }
        } else {
            (0, 0, 0, 1, true)
        };
        proof {
            assert((lo as int, hi as int, num as int, den as int, along0) == clear_frac(
                axis0@,
                axis1@,
                rows as int,
                cols as int,
                i as int,
                j as int,
            ));
            assert(0 <= num <= den && 0 < den);
        }
        self.base.is_set[i][j] = false;
        let mut tmp = BindingPayload::Deform { values: Vec::new() };
        core::mem::swap(&mut self.payload, &mut tmp);
        tmp = match tmp {
            BindingPayload::Scalar { target, values } => {
                let mut values = values;
                proof {
                    assert(old(self).scalar_values()[i as int] == values@[i as int].deep_view());
                    if along0 {
                        assert(old(self).scalar_values()[lo as int] == values@[
                            lo as int
                        ].deep_view());
                        assert(old(self).scalar_values()[hi as int] == values@[
                            hi as int
                        ].deep_view());
                    }
                }
                let a = if along0 {
                    values[lo][j]
                } else {
                    values[i][lo]
                };
                let b = if along0 {
                    values[hi][j]
                } else {
                    values[i][hi]
                };
                let c = lerp_fixed(a, b, num, den);
                values[i][j] = c;
                BindingPayload::Scalar { target, values }
            },
            BindingPayload::Deform { values } => {
                let mut values = values;
                proof {
                    assert(old(self).deform_values()[i as int] == values@[i as int].deep_view());
                    assert(old(self).deform_values()[i as int][j as int] == values@[i as int]@[
                        j as int
                    ].deep_view());
                    if along0 {
                        assert(old(self).deform_values()[lo as int] == values@[
                            lo as int
                        ].deep_view());
                        assert(old(self).deform_values()[hi as int] == values@[
                            hi as int
                        ].deep_view());
                        assert(old(self).deform_values()[lo as int][j as int] == values@[
                            lo as int
                        ]@[j as int].deep_view());
                        assert(old(self).deform_values()[hi as int][j as int] == values@[
                            hi as int
                        ]@[j as int].deep_view());
                    } else {
                        assert(old(self).deform_values()[i as int][lo as int] == values@[
                            i as int
                        ]@[lo as int].deep_view());
                        assert(old(self).deform_values()[i as int][hi as int] == values@[
                            i as int
                        ]@[hi as int].deep_view());
                    }
                }
                let ghost gd = old(self).deform_values();
                let n = values[i][j].len();
                let mut cell: Vec<Vec2> = Vec::new();
                let mut k: usize = 0;
                while k < n
                    invariant
                        k <= n,
                        cell@.len() == k,
                        gd == old(self).deform_values(),
                        gd == values.deep_view(),
                        old(self).payload is Deform,
                        old(self).wf(),
                        i < gd.len(),
                        along0 ==> lo < gd.len() && hi < gd.len() && j < gd[0].len(),
                        !along0 ==> lo < gd[0].len() && hi < gd[0].len() && j < gd[0].len(),
                        (i as int) < old(self).rows_of() && (j as int) < old(self).cols_of(),
                        n as int == gd[i as int][j as int].len(),
                        gd[i as int][j as int] == values@[i as int]@[j as int].deep_view(),
                        along0 ==> gd[lo as int][j as int] == values@[lo as int]@[
                            j as int
                        ].deep_view() && gd[hi as int][j as int] == values@[hi as int]@[
                            j as int
                        ].deep_view(),
                        !along0 ==> gd[i as int][lo as int] == values@[i as int]@[
                            lo as int
                        ].deep_view() && gd[i as int][hi as int] == values@[i as int]@[
                            hi as int
                        ].deep_view(),
                        deform_grid_wf(
                            gd,
                            old(self).rows_of(),
                            old(self).cols_of(),
                            old(self).verts_of(),
                        ),
                        0 <= num <= den && 0 < den,
                        forall|m: int| 0 <= m < k ==> ((#[trigger] cell@[m]).x as int, cell@[
                            m
                        ].y as int) == (
                        if along0 {
                            (
                                lerp_spec(
                                    gd[lo as int][j as int][m].x as int,
                                    gd[hi as int][j as int][m].x as int,
                                    num as int,
                                    den as int,
                                ),
                                lerp_spec(
                                    gd[lo as int][j as int][m].y as int,
                                    gd[hi as int][j as int][m].y as int,
                                    num as int,
                                    den as int,
                                ),
                            )
                        } else {
                            (
                                lerp_spec(
                                    gd[i as int][lo as int][m].x as int,
                                    gd[i as int][hi as int][m].x as int,
                                    num as int,
                                    den as int,
                                ),
                                lerp_spec(
                                    gd[i as int][lo as int][m].y as int,
                                    gd[i as int][hi as int][m].y as int,
                                    num as int,
                                    den as int,
                                ),
                            )
                        }
                        ),
                    decreases n - k,
                {
                    proof {
                        assert(gd[i as int] == values@[i as int].deep_view());
                        if along0 {
                            assert(gd[lo as int] == values@[lo as int].deep_view());
                            assert(gd[hi as int] == values@[hi as int].deep_view());
                        }
                    }
                    let a = if along0 {
                        values[lo][j][k]
                    } else {
                        values[i][lo][k]
                    };
                    let b = if along0 {
                        values[hi][j][k]
                    } else {
                        values[i][hi][k]
                    };
                    let x = lerp_fixed(a.x, b.x, num, den);
                    let y = lerp_fixed(a.y, b.y, num, den);
                    cell.push(Vec2 { x, y });
                    k = k + 1;
                }
                proof {
                    assert(cell@ =~= cleared_deform_cell(
                        axis0@,
                        axis1@,
                        gd,
                        i as int,
                        j as int,
                    ));
                }
                values[i][j] = cell;
                BindingPayload::Deform { values }
            },
        };
        self.payload = tmp;
        proof {
            assert(self.base.is_set.deep_view() =~~= old(self).base.is_set.deep_view().update(
                i as int,
                old(self).base.is_set.deep_view()[i as int].update(j as int, false),
            ));
            if !(old(self).payload is Deform) {
                assert(self.scalar_values() =~~= old(self).scalar_values().update(
                    i as int,
                    old(self).scalar_values()[i as int].update(
                        j as int,
                        cleared_scalar_cell(
                            axis0@,
                            axis1@,
                            old(self).scalar_values(),
                            i as int,
                            j as int,
                        ),
                    ),
                ));
            } else {
                assert(self.deform_values() =~~= old(self).deform_values().update(
                    i as int,
                    old(self).deform_values()[i as int].update(
                        j as int,
                        cleared_deform_cell(
                            axis0@,
                            axis1@,
                            old(self).deform_values(),
                            i as int,
                            j as int,
                        ),
                    ),
                ));
            }
        }
    }
}

} // verus!
