use inox2d::binding::{Binding, BindingBase, BindingOutput, BindingPayload, InterpolateMode,
    ScalarTarget};
use inox2d::math::Vec2;
use inox2d::nodes::{NodeUuid, TransformChannel};
use inox2d::param::{Param, ParamError};

const ONE: i32 = 1_000_000;

fn tx_binding(values: Vec<Vec<i32>>) -> Binding {
    let rows = values.len();
    let cols = values[0].len();
    Binding {
        base: BindingBase {
            node: NodeUuid(1),
            is_set: vec![vec![true; cols]; rows],
            interpolate_mode: InterpolateMode::Linear,
        },
        payload: BindingPayload::Scalar {
            target: ScalarTarget::Transform(TransformChannel::TranslateX),
            values,
        },
    }
}

fn param_1d(axis: Vec<i32>, values: Vec<Vec<i32>>) -> Param {
    Param {
        uuid: 7,
        name: "slider".to_string(),
        is_vec2: false,
        min: Vec2::new(axis[0], 0),
        max: Vec2::new(axis[axis.len() - 1], 0),
        defaults: Vec2::new(0, 0),
        axis_points: vec![axis, vec![]],
        bindings: vec![tx_binding(values)],
    }
}

#[test]
fn insert_interpolates_new_row() {
    let mut p = param_1d(vec![0, ONE], vec![vec![0], vec![10 * ONE]]);
    assert_eq!(p.insert_axis_point(0, ONE / 4), Ok(()));
    assert_eq!(p.axis_points[0], vec![0, ONE / 4, ONE]);
    match &p.bindings[0].payload {
        BindingPayload::Scalar { values, .. } => {
            assert_eq!(values, &vec![vec![0], vec![5 * ONE / 2], vec![10 * ONE]]);
        }
        _ => panic!("scalar payload expected"),
    }
    // the inserted row is not explicitly set; the others keep their flags
    assert_eq!(p.bindings[0].base.is_set, vec![vec![true], vec![false], vec![true]]);
}

#[test]
fn insert_at_extremes_repeats_edge() {
    let mut p = param_1d(vec![0, ONE], vec![vec![100], vec![300]]);
    assert_eq!(p.insert_axis_point(0, -ONE), Ok(()));
    assert_eq!(p.insert_axis_point(0, 2 * ONE), Ok(()));
    match &p.bindings[0].payload {
        BindingPayload::Scalar { values, .. } => {
            assert_eq!(values, &vec![vec![100], vec![100], vec![300], vec![300]]);
        }
        _ => panic!("scalar payload expected"),
    }
}

#[test]
fn duplicate_axis_point_rejected_unchanged() {
    let mut p = param_1d(vec![0, ONE], vec![vec![1], vec![2]]);
    let before = p.clone();
    assert_eq!(p.insert_axis_point(0, ONE), Err(ParamError::DuplicateAxisPoint));
    assert_eq!(p, before);
}

#[test]
fn minimum_axis_points_enforced() {
    let mut p = param_1d(vec![0, ONE], vec![vec![1], vec![2]]);
    let before = p.clone();
    assert_eq!(p.remove_axis_point(0, 0), Err(ParamError::MinimumAxisPointsViolation));
    assert_eq!(p, before);
}

#[test]
fn insert_then_remove_round_trips() {
    let original = param_1d(vec![0, ONE], vec![vec![-5 * ONE], vec![9 * ONE]]);
    let mut p = original.clone();
    assert_eq!(p.insert_axis_point(0, ONE / 3), Ok(()));
    assert_ne!(p, original);
    assert_eq!(p.remove_axis_point(0, 1), Ok(()));
    assert_eq!(p, original);
}

#[test]
fn insert_on_second_axis() {
    let b = Binding {
        base: BindingBase {
            node: NodeUuid(2),
            is_set: vec![vec![false, false], vec![false, false]],
            interpolate_mode: InterpolateMode::Linear,
        },
        payload: BindingPayload::Scalar {
            target: ScalarTarget::ZSort,
            values: vec![vec![0, 100], vec![200, 300]],
        },
    };
    let mut p = Param {
        uuid: 9,
        name: "pair".to_string(),
        is_vec2: true,
        min: Vec2::new(0, 0),
        max: Vec2::new(ONE, ONE),
        defaults: Vec2::new(0, 0),
        axis_points: vec![vec![0, ONE], vec![0, ONE]],
        bindings: vec![b],
    };
    assert_eq!(p.insert_axis_point(1, ONE / 2), Ok(()));
    assert_eq!(p.axis_points[1], vec![0, ONE / 2, ONE]);
    match &p.bindings[0].payload {
        BindingPayload::Scalar { values, .. } => {
            assert_eq!(values, &vec![vec![0, 50, 100], vec![200, 250, 300]]);
        }
        _ => panic!("scalar payload expected"),
    }
}

#[test]
fn set_scalar_marks_cell_explicit() {
    let mut b = tx_binding(vec![vec![0], vec![0]]);
    b.base.is_set = vec![vec![false], vec![false]];
    b.set_scalar(1, 0, 42);
    match &b.payload {
        BindingPayload::Scalar { values, .. } => {
            assert_eq!(values, &vec![vec![0], vec![42]]);
        }
        _ => panic!("scalar payload expected"),
    }
    assert_eq!(b.base.is_set, vec![vec![false], vec![true]]);
}

#[test]
fn set_deform_cell_replaces_offsets() {
    let mut b = Binding {
        base: BindingBase {
            node: NodeUuid(3),
            is_set: vec![vec![false], vec![false]],
            interpolate_mode: InterpolateMode::Linear,
        },
        payload: BindingPayload::Deform {
            values: vec![
                vec![vec![Vec2::new(0, 0), Vec2::new(0, 0)]],
                vec![vec![Vec2::new(0, 0), Vec2::new(0, 0)]],
            ],
        },
    };
    b.set_deform_cell(0, 0, vec![Vec2::new(1, 2), Vec2::new(3, 4)]);
    match &b.payload {
        BindingPayload::Deform { values } => {
            assert_eq!(values[0][0], vec![Vec2::new(1, 2), Vec2::new(3, 4)]);
            assert_eq!(values[1][0], vec![Vec2::new(0, 0), Vec2::new(0, 0)]);
        }
        _ => panic!("deform payload expected"),
    }
    assert_eq!(b.base.is_set, vec![vec![true], vec![false]]);
}

#[test]
fn deform_grid_reshaped_with_axis() {
    let mut p = Param {
        uuid: 11,
        name: "bend".to_string(),
        is_vec2: false,
        min: Vec2::new(0, 0),
        max: Vec2::new(2, 0),
        defaults: Vec2::new(0, 0),
        axis_points: vec![vec![0, 2], vec![]],
        bindings: vec![Binding {
            base: BindingBase {
                node: NodeUuid(4),
                is_set: vec![vec![false], vec![false]],
                interpolate_mode: InterpolateMode::Linear,
            },
            payload: BindingPayload::Deform {
                values: vec![vec![vec![Vec2::new(0, 0)]], vec![vec![Vec2::new(2, 4)]]],
            },
        }],
    };
    assert_eq!(p.insert_axis_point(0, 1), Ok(()));
    match &p.bindings[0].payload {
        BindingPayload::Deform { values } => {
            assert_eq!(
                values,
                &vec![
                    vec![vec![Vec2::new(0, 0)]],
                    vec![vec![Vec2::new(1, 2)]],
                    vec![vec![Vec2::new(2, 4)]],
                ]
            );
        }
        _ => panic!("deform payload expected"),
    }
}

#[test]
fn clamp_value_componentwise() {
    let p = param_1d(vec![0, ONE], vec![vec![0], vec![1]]);
    let v = p.clamp_value(Vec2::new(5 * ONE, -7));
    assert_eq!(v, Vec2::new(ONE, 0));
}

#[test]
fn evaluate_after_insert_is_unchanged_at_kept_keys() {
    let mut p = param_1d(vec![0, ONE], vec![vec![0], vec![10 * ONE]]);
    assert_eq!(p.insert_axis_point(0, ONE / 2), Ok(()));
    let axis1: Vec<i32> = vec![];
    let out = p.bindings[0].evaluate(&p.axis_points[0], &axis1, false, Vec2::new(ONE, 0));
    assert_eq!(out, BindingOutput::Scalar { value: 10 * ONE });
}

#[test]
fn clear_value_recomputes_from_neighbors() {
    let mut b = tx_binding(vec![vec![0], vec![999], vec![10 * ONE]]);
    let axis0 = vec![0, ONE / 2, ONE];
    let axis1: Vec<i32> = vec![];
    b.clear_value(&axis0, &axis1, 1, 0);
    match &b.payload {
        BindingPayload::Scalar { values, .. } => {
            // halfway between the neighbors at 0.0 and 1.0
            assert_eq!(values, &vec![vec![0], vec![5 * ONE], vec![10 * ONE]]);
        }
        _ => panic!("scalar payload expected"),
    }
    assert_eq!(b.base.is_set, vec![vec![true], vec![false], vec![true]]);
}

#[test]
fn clear_value_at_edge_copies_neighbor() {
    let mut b = tx_binding(vec![vec![77], vec![300]]);
    let axis0 = vec![0, ONE];
    let axis1: Vec<i32> = vec![];
    b.clear_value(&axis0, &axis1, 0, 0);
    match &b.payload {
        BindingPayload::Scalar { values, .. } => {
            assert_eq!(values, &vec![vec![300], vec![300]]);
        }
        _ => panic!("scalar payload expected"),
    }
}

#[test]
fn clear_deform_cell_interpolates_offsets() {
    let mut b = Binding {
        base: BindingBase {
            node: NodeUuid(8),
            is_set: vec![vec![true], vec![true], vec![true]],
            interpolate_mode: InterpolateMode::Linear,
        },
        payload: BindingPayload::Deform {
            values: vec![
                vec![vec![Vec2::new(0, 0)]],
                vec![vec![Vec2::new(-100, -100)]],
                vec![vec![Vec2::new(4, 8)]],
            ],
        },
    };
    let axis0 = vec![0, 1, 2];
    let axis1: Vec<i32> = vec![];
    b.clear_value(&axis0, &axis1, 1, 0);
    match &b.payload {
        BindingPayload::Deform { values } => {
            assert_eq!(values[1][0], vec![Vec2::new(2, 4)]);
        }
        _ => panic!("deform payload expected"),
    }
    assert_eq!(b.base.is_set[1], vec![false]);
}
