//! Parameters: named 1D or 2D controls driving a set of bindings.
//!
//! A parameter owns two ordered axes of keyframe sample positions (the
//! second used only when the parameter is two-dimensional) and the
//! bindings whose grids are shaped by those axes. Authoring edits insert
//! or remove axis points, re-shaping every owned grid in step.

use vstd::prelude::*;
use crate::math::{clamp_fixed, clamp_spec, Vec2};
use crate::interp::axis_wf;
use crate::binding::{binding_inserted, binding_removed, Binding};

verus! {

/// Errors raised by rejected authoring edits; the parameter is left
/// unchanged when one is returned.
#[derive(Clone, Copy, Debug, PartialEq, Eq, Structural)]
pub enum ParamError {
    /// The inserted axis position already exists on that axis.
    DuplicateAxisPoint,
    /// The edit would leave a used axis with fewer than two points.
    MinimumAxisPointsViolation,
}

/// A named, identified control with a 1D or 2D range, its keyframe axes,
/// and the bindings it drives.
#[derive(Clone, Debug, PartialEq)]
pub struct Param {
    pub uuid: u32,
    pub name: String,
    pub is_vec2: bool,
    pub min: Vec2,
    pub max: Vec2,
    pub defaults: Vec2,
    /// Exactly two axes of strictly increasing sample positions; the
    /// second is meaningful only when `is_vec2`.
    pub axis_points: Vec<Vec<i32>>,
    pub bindings: Vec<Binding>,
}

/// The number of elements of `axis` strictly below `pos`: for a strictly
/// increasing axis, the index where `pos` would be inserted.
pub open spec fn count_lt(axis: Seq<i32>, pos: i32) -> int
    decreases axis.len(),
{
    if axis.len() == 0 {
        0
    } else {
        count_lt(axis.drop_last(), pos) + if axis.last() < pos {
            1int
        } else {
            0int
        }
    }
}

pub proof fn lemma_count_lt_sorted(axis: Seq<i32>, pos: i32, k: int)
    requires
        0 <= k <= axis.len(),
        forall|m: int| 0 <= m < k ==> axis[m] < pos,
        forall|m: int| k <= m < axis.len() ==> axis[m] >= pos,
    ensures
        count_lt(axis, pos) == k,
    decreases axis.len(),
{
    if axis.len() != 0 {
        let p = axis.drop_last();
        assert(forall|m: int| 0 <= m < p.len() ==> p[m] == axis[m]);
        if axis.last() < pos {
            assert(k == axis.len());
            lemma_count_lt_sorted(p, pos, k - 1);
        } else {
            assert(k <= axis.len() - 1);
            lemma_count_lt_sorted(p, pos, k);
        }
    }
}

/// The interpolation fraction used for the default values of a row or
/// column inserted at position `pos`: the position's fraction between its
/// two neighbors for an interior insertion, `0 / 1` at an extreme.
pub open spec fn insert_frac(axis: Seq<i32>, pos: i32) -> (int, int) {
    let j = count_lt(axis, pos);
    if j == 0 || j >= axis.len() {
        (0, 1)
    } else {
        (pos - axis[j - 1], axis[j] - axis[j - 1])
    }
}

impl Param {
    /// The first axis's sample positions.
    pub open spec fn axis0(self) -> Seq<i32> {
        self.axis_points@[0]@
    }

    /// The second axis's sample positions (used only when `is_vec2`).
    pub open spec fn axis1(self) -> Seq<i32> {
        self.axis_points@[1]@
    }

    /// Grid rows: one per first-axis sample.
    pub open spec fn rows(self) -> int {
        self.axis0().len() as int
    }

    /// Grid columns: one per second-axis sample, or one.
    pub open spec fn cols(self) -> int {
        if self.is_vec2 {
            self.axis1().len() as int
        } else {
            1
        }
    }

    /// Both axes strictly increasing and nonempty where used, a sane
    /// range, and every binding's grids shaped by the axes.
    pub open spec fn wf(self) -> bool {
        &&& self.axis_points@.len() == 2
        &&& axis_wf(self.axis0())
        &&& self.axis0().len() >= 1
        &&& self.is_vec2 ==> axis_wf(self.axis1()) && self.axis1().len() >= 1
        &&& self.min.x <= self.max.x && self.min.y <= self.max.y
        &&& forall|b: int| 0 <= b < self.bindings@.len() ==> (#[trigger] self.bindings@[
            b
        ]).shape_wf(self.rows(), self.cols())
    }

    /// The runtime value clamped componentwise into `[min, max]`.
    pub fn clamp_value(&self, v: Vec2) -> (r: Vec2)
        requires
            self.min.x <= self.max.x,
            self.min.y <= self.max.y,
        ensures
            r.x as int == clamp_spec(v.x as int, self.min.x as int, self.max.x as int),
            r.y as int == clamp_spec(v.y as int, self.min.y as int, self.max.y as int),
    {
        Vec2 {
            x: clamp_fixed(v.x, self.min.x, self.max.x),
            y: clamp_fixed(v.y, self.min.y, self.max.y),
        }
    }

    /// Insert a new sample position on axis `dim`, re-shaping every
    /// binding's grids: the new row or column defaults to values
    /// interpolated from its neighbors and counts as not explicitly set.
    /// Rejected, leaving the parameter unchanged, when the position is
    /// already a sample of that axis.
    pub fn insert_axis_point(&mut self, dim: usize, pos: i32) -> (r: Result<(), ParamError>)
        requires
            old(self).wf(),
            dim < 2,
            dim == 1 ==> old(self).is_vec2,
        ensures
            ({
                let axis = if dim == 0 {
                    old(self).axis0()
                } else {
                    old(self).axis1()
                };
                let j = count_lt(axis, pos);
                let fr = insert_frac(axis, pos);
                &&& axis.contains(pos) ==> r == Err::<(), ParamError>(
                    ParamError::DuplicateAxisPoint,
                ) && *final(self) == *old(self)
                &&& !axis.contains(pos) ==> {
                    &&& r is Ok
                    &&& final(self).wf()
                    &&& dim == 0 ==> final(self).axis0() == axis.insert(j, pos) && final(self).axis1() == old(self).axis1()
                    &&& dim == 1 ==> final(self).axis1() == axis.insert(j, pos) && final(self).axis0() == old(self).axis0()
                    &&& final(self).bindings@.len() == old(self).bindings@.len()
                    &&& forall|b: int| 0 <= b < old(self).bindings@.len() ==> binding_inserted(
                        #[trigger] final(self).bindings@[b],
                        old(self).bindings@[b],
                        dim as int,
                        j,
                        fr.0,
                        fr.1,
                    )
                }
                &&& final(self).uuid == old(self).uuid
                &&& final(self).name == old(self).name
                &&& final(self).is_vec2 == old(self).is_vec2
                &&& final(self).min == old(self).min
                &&& final(self).max == old(self).max
                &&& final(self).defaults == old(self).defaults
            }),
    {
        let ghost oldp = *old(self);
        let ghost axis = if dim == 0 {
            oldp.axis0()
        } else {
            oldp.axis1()
        };
        let axis_len = self.axis_points[dim].len();
        let mut j: usize = 0;
        while j < axis_len && self.axis_points[dim][j] < pos
            invariant
                *self == oldp,
                oldp.wf(),
                dim < 2,
                dim == 1 ==> oldp.is_vec2,
                axis == if dim == 0 {
                    oldp.axis0()
                } else {
                    oldp.axis1()
                },
                axis_len == axis.len(),
                j <= axis_len,
                forall|m: int| 0 <= m < j ==> axis[m] < pos,
            decreases axis_len - j,
        {
            j = j + 1;
        }
        if j < axis_len && self.axis_points[dim][j] == pos {
            proof {
                assert(axis.contains(pos));
            }
            return Err(ParamError::DuplicateAxisPoint);
        }
        proof {
            assert forall|m: int| j <= m < axis.len() implies axis[m] >= pos by {
                if m > j {
                    assert(axis[j as int] < axis[m]);
                }
            }
            lemma_count_lt_sorted(axis, pos, j as int);
            assert forall|m: int| 0 <= m < axis.len() implies axis[m] != pos by {
                if m >= j {
                    if m > j {
                        assert(axis[j as int] < axis[m]);
                    }
                }
            }
            assert(!axis.contains(pos));
            if 0 < j && j < axis_len {
                assert(axis[j as int - 1] < pos);
                assert(axis[j as int] > pos);
            }
        }
        let (num, den): (i64, i64) = if j == 0 || j == axis_len {
            (0, 1)
        } else {
            (
                pos as i64 - self.axis_points[dim][j - 1] as i64,
                self.axis_points[dim][j] as i64 - self.axis_points[dim][j - 1] as i64,
            )
        };
        proof {
            assert((num as int, den as int) == insert_frac(axis, pos));
        }
        self.axis_points[dim].insert(j, pos);
        proof {
            axis.insert_ensures(j as int, pos);
            assert forall|k: int, l: int|
                0 <= k < l < axis.len() + 1 implies #[trigger] axis.insert(j as int, pos)[k]
                < #[trigger] axis.insert(j as int, pos)[l] by {
                let na = axis.insert(j as int, pos);
                if k > j {
                    assert(na[k] == axis[k - 1]);
                }
                if l > j {
                    assert(na[l] == axis[l - 1]);
                }
            }
        }
        let nb = self.bindings.len();
        let mut b: usize = 0;
        while b < nb
            invariant
                nb == self.bindings@.len(),
                nb == oldp.bindings@.len(),
                b <= nb,
                oldp.wf(),
                dim < 2,
                dim == 1 ==> oldp.is_vec2,
                axis == if dim == 0 {
                    oldp.axis0()
                } else {
                    oldp.axis1()
                },
                j as int == count_lt(axis, pos),
                j <= axis.len(),
                (num as int, den as int) == insert_frac(axis, pos),
                0 <= num <= den && 0 < den,
                self.uuid == oldp.uuid && self.name == oldp.name && self.is_vec2 == oldp.is_vec2,
                self.min == oldp.min && self.max == oldp.max && self.defaults == oldp.defaults,
                self.axis_points@.len() == 2,
                dim == 0 ==> self.axis0() == axis.insert(j as int, pos) && self.axis1()
                    == oldp.axis1(),
                dim == 1 ==> self.axis1() == axis.insert(j as int, pos) && self.axis0()
                    == oldp.axis0(),
                forall|m: int| b <= m < nb ==> self.bindings@[m] == oldp.bindings@[m],
                forall|m: int| 0 <= m < b ==> binding_inserted(
                    #[trigger] self.bindings@[m],
                    oldp.bindings@[m],
                    dim as int,
                    j as int,
                    num as int,
                    den as int,
                ),
                forall|m: int| 0 <= m < b ==> (#[trigger] self.bindings@[m]).shape_wf(
                    if dim == 0 {
                        oldp.rows() + 1
                    } else {
                        oldp.rows()
                    },
                    if dim == 0 {
                        oldp.cols()
                    } else {
                        oldp.cols() + 1
                    },
                ),
            decreases nb - b,
        {
            proof {
                assert(self.bindings@[b as int] == oldp.bindings@[b as int]);
                assert(self.bindings@[b as int].shape_wf(oldp.rows(), oldp.cols()));
                assert(self.bindings@[b as int].rows_of() == oldp.rows());
                assert(self.bindings@[b as int].cols_of() == oldp.cols());
                if dim == 0 {
                    assert(j <= oldp.rows());
                } else {
                    assert(j <= oldp.cols());
                }
            }
            self.bindings[b].insert_point(dim, j, num, den);
            b = b + 1;
        }
        proof {
            assert(final(self).wf()) by {
                assert(axis_wf(axis.insert(j as int, pos)));
                assert forall|m: int| 0 <= m < self.bindings@.len() implies (
                #[trigger] self.bindings@[m]).shape_wf(self.rows(), self.cols()) by {
                    assert(self.bindings@[m].shape_wf(
                        if dim == 0 {
                            oldp.rows() + 1
                        } else {
                            oldp.rows()
                        },
                        if dim == 0 {
                            oldp.cols()
                        } else {
                            oldp.cols() + 1
                        },
                    ));
                }
            }
        }
        Ok(())
    }

    /// Remove the sample at index `idx` of axis `dim`, dropping the
    /// corresponding row or column from every binding's grids. Rejected,
    /// leaving the parameter unchanged, when that axis has only two
    /// points: a used axis keeps at least two.
    pub fn remove_axis_point(&mut self, dim: usize, idx: usize) -> (r: Result<(), ParamError>)
        requires
            old(self).wf(),
            dim < 2,
            dim == 1 ==> old(self).is_vec2,
            idx < if dim == 0 {
                old(self).axis0().len()
            } else {
                old(self).axis1().len()
            },
        ensures
            ({
                let axis = if dim == 0 {
                    old(self).axis0()
                } else {
                    old(self).axis1()
                };
                &&& axis.len() <= 2 ==> r == Err::<(), ParamError>(
                    ParamError::MinimumAxisPointsViolation,
                ) && *final(self) == *old(self)
                &&& axis.len() > 2 ==> {
                    &&& r is Ok
                    &&& final(self).wf()
                    &&& dim == 0 ==> final(self).axis0() == axis.remove(idx as int) && final(self).axis1() == old(self).axis1()
                    &&& dim == 1 ==> final(self).axis1() == axis.remove(idx as int) && final(self).axis0() == old(self).axis0()
                    &&& final(self).bindings@.len() == old(self).bindings@.len()
                    &&& forall|b: int| 0 <= b < old(self).bindings@.len() ==> binding_removed(
                        #[trigger] final(self).bindings@[b],
                        old(self).bindings@[b],
                        dim as int,
                        idx as int,
                    )
                }
                &&& final(self).uuid == old(self).uuid
                &&& final(self).name == old(self).name
                &&& final(self).is_vec2 == old(self).is_vec2
                &&& final(self).min == old(self).min
                &&& final(self).max == old(self).max
                &&& final(self).defaults == old(self).defaults
            }),
    {
        let ghost oldp = *old(self);
        let ghost axis = if dim == 0 {
            oldp.axis0()
        } else {
            oldp.axis1()
        };
        if self.axis_points[dim].len() <= 2 {
            return Err(ParamError::MinimumAxisPointsViolation);
        }
        let _ = self.axis_points[dim].remove(idx);
        proof {
            axis.remove_ensures(idx as int);
            assert forall|k: int, l: int|
                0 <= k < l < axis.len() - 1 implies #[trigger] axis.remove(idx as int)[k]
                < #[trigger] axis.remove(idx as int)[l] by {
                let na = axis.remove(idx as int);
                if k >= idx {
                    assert(na[k] == axis[k + 1]);
                }
                if l >= idx {
                    assert(na[l] == axis[l + 1]);
                }
            }
        }
        let nb = self.bindings.len();
        let mut b: usize = 0;
        while b < nb
            invariant
                nb == self.bindings@.len(),
                nb == oldp.bindings@.len(),
                b <= nb,
                oldp.wf(),
                dim < 2,
                dim == 1 ==> oldp.is_vec2,
                axis == if dim == 0 {
                    oldp.axis0()
                } else {
                    oldp.axis1()
                },
                axis.len() > 2,
                idx < axis.len(),
                self.uuid == oldp.uuid && self.name == oldp.name && self.is_vec2 == oldp.is_vec2,
                self.min == oldp.min && self.max == oldp.max && self.defaults == oldp.defaults,
                self.axis_points@.len() == 2,
                dim == 0 ==> self.axis0() == axis.remove(idx as int) && self.axis1()
                    == oldp.axis1(),
                dim == 1 ==> self.axis1() == axis.remove(idx as int) && self.axis0()
                    == oldp.axis0(),
                forall|m: int| b <= m < nb ==> self.bindings@[m] == oldp.bindings@[m],
                forall|m: int| 0 <= m < b ==> binding_removed(
                    #[trigger] self.bindings@[m],
                    oldp.bindings@[m],
                    dim as int,
                    idx as int,
                ),
                forall|m: int| 0 <= m < b ==> (#[trigger] self.bindings@[m]).shape_wf(
                    if dim == 0 {
                        oldp.rows() - 1
                    } else {
                        oldp.rows()
                    },
                    if dim == 0 {
                        oldp.cols()
                    } else {
                        oldp.cols() - 1
                    },
                ),
            decreases nb - b,
        {
            proof {
                assert(self.bindings@[b as int] == oldp.bindings@[b as int]);
                assert(self.bindings@[b as int].shape_wf(oldp.rows(), oldp.cols()));
                assert(self.bindings@[b as int].rows_of() == oldp.rows());
                assert(self.bindings@[b as int].cols_of() == oldp.cols());
            }
            self.bindings[b].remove_point(dim, idx);
            b = b + 1;
        }
        proof {
            assert(final(self).wf()) by {
                assert(axis_wf(axis.remove(idx as int)));
                assert forall|m: int| 0 <= m < self.bindings@.len() implies (
                #[trigger] self.bindings@[m]).shape_wf(self.rows(), self.cols()) by {
                    assert(self.bindings@[m].shape_wf(
                        if dim == 0 {
                            oldp.rows() - 1
                        } else {
                            oldp.rows()
                        },
                        if dim == 0 {
                            oldp.cols()
                        } else {
                            oldp.cols() - 1
                        },
                    ));
                }
            }
        }
        Ok(())
    }
}

} // verus!
