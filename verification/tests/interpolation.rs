use inox2d::binding::{Binding, BindingBase, BindingOutput, BindingPayload, InterpolateMode,
    ScalarTarget};
use inox2d::math::Vec2;
use inox2d::nodes::{NodeUuid, TransformChannel};

fn scalar_binding(target: ScalarTarget, values: Vec<Vec<i32>>) -> Binding {
    let rows = values.len();
    let cols = values[0].len();
    Binding {
        base: BindingBase {
            node: NodeUuid(1),
            is_set: vec![vec![false; cols]; rows],
            interpolate_mode: InterpolateMode::Linear,
        },
        payload: BindingPayload::Scalar { target, values },
    }
}

fn deform_binding(values: Vec<Vec<Vec<Vec2>>>) -> Binding {
    let rows = values.len();
    let cols = values[0].len();
    Binding {
        base: BindingBase {
            node: NodeUuid(1),
            is_set: vec![vec![false; cols]; rows],
            interpolate_mode: InterpolateMode::Linear,
        },
        payload: BindingPayload::Deform { values },
    }
}

// Axis positions and values are fixed-point: one unit is a millionth here.
const ONE: i32 = 1_000_000;

#[test]
fn translate_quarter_between_keys() {
    // axis [0.0, 1.0], values [0.0, 10.0]; evaluate(0.25) -> 2.5
    let b = scalar_binding(
        ScalarTarget::Transform(TransformChannel::TranslateX),
        vec![vec![0], vec![10 * ONE]],
    );
    let axis0 = vec![0, ONE];
    let axis1: Vec<i32> = vec![];
    let out = b.evaluate(&axis0, &axis1, false, Vec2::new(ONE / 4, 0));
    assert_eq!(out, BindingOutput::Scalar { value: 5 * ONE / 2 });
}

#[test]
fn bilinear_center_of_unit_square() {
    // axes [0,1]x[0,1], ZSort values [[0,1],[2,3]]; evaluate((0.5,0.5)) -> 1.5
    let b = scalar_binding(
        ScalarTarget::ZSort,
        vec![vec![0, ONE], vec![2 * ONE, 3 * ONE]],
    );
    let axis0 = vec![0, ONE];
    let axis1 = vec![0, ONE];
    let out = b.evaluate(&axis0, &axis1, true, Vec2::new(ONE / 2, ONE / 2));
    assert_eq!(out, BindingOutput::Scalar { value: 3 * ONE / 2 });
}

#[test]
fn deform_midpoint_per_vertex() {
    // corner vertex sequences [(0,0)] and [(2,0)]; midpoint -> [(1,0)]
    let b = deform_binding(vec![
        vec![vec![Vec2::new(0, 0)]],
        vec![vec![Vec2::new(2, 0)]],
    ]);
    let axis0 = vec![0, 2];
    let axis1: Vec<i32> = vec![];
    let out = b.evaluate(&axis0, &axis1, false, Vec2::new(1, 0));
    assert_eq!(out, BindingOutput::Deform { offsets: vec![Vec2::new(1, 0)] });
}

#[test]
fn exact_at_stored_keyframes() {
    let b = scalar_binding(
        ScalarTarget::Transform(TransformChannel::RotateZ),
        vec![vec![7], vec![-13], vec![901]],
    );
    let axis0 = vec![-ONE, 0, ONE];
    let axis1: Vec<i32> = vec![];
    for (pos, want) in [(-ONE, 7), (0, -13), (ONE, 901)] {
        let out = b.evaluate(&axis0, &axis1, false, Vec2::new(pos, 0));
        assert_eq!(out, BindingOutput::Scalar { value: want });
    }
}

#[test]
fn clamped_outside_axis_range() {
    let b = scalar_binding(
        ScalarTarget::Transform(TransformChannel::ScaleX),
        vec![vec![100], vec![200]],
    );
    let axis0 = vec![0, ONE];
    let axis1: Vec<i32> = vec![];
    let below = b.evaluate(&axis0, &axis1, false, Vec2::new(-5 * ONE, 0));
    let above = b.evaluate(&axis0, &axis1, false, Vec2::new(9 * ONE, 0));
    assert_eq!(below, BindingOutput::Scalar { value: 100 });
    assert_eq!(above, BindingOutput::Scalar { value: 200 });
}

#[test]
fn linear_midpoint_is_average() {
    let b = scalar_binding(
        ScalarTarget::Transform(TransformChannel::TranslateY),
        vec![vec![3 * ONE], vec![7 * ONE]],
    );
    let axis0 = vec![0, 10 * ONE];
    let axis1: Vec<i32> = vec![];
    let out = b.evaluate(&axis0, &axis1, false, Vec2::new(5 * ONE, 0));
    assert_eq!(out, BindingOutput::Scalar { value: 5 * ONE });
}

#[test]
fn single_second_axis_degenerates_to_linear() {
    let values = vec![vec![11], vec![44]];
    let b2 = scalar_binding(ScalarTarget::ZSort, values.clone());
    let b1 = scalar_binding(ScalarTarget::ZSort, values);
    let axis0 = vec![0, ONE];
    let axis1 = vec![42];
    for t in [0, ONE / 4, ONE / 2, ONE] {
        let with_second = b2.evaluate(&axis0, &axis1, true, Vec2::new(t, 77));
        let without = b1.evaluate(&axis0, &axis1, false, Vec2::new(t, -3));
        assert_eq!(with_second, without);
    }
}
