use inox2d::binding::{Binding, BindingBase, BindingPayload, InterpolateMode, ScalarTarget};
use inox2d::math::Vec2;
use inox2d::nodes::{Node, NodeTree, NodeUuid, PuppetError, TransformChannel};
use inox2d::param::Param;
use inox2d::puppet::{Puppet, PuppetMeta, PuppetPhysics};

const ONE: i32 = 1_000_000;

fn simple_puppet(bindings: Vec<Binding>, vertex_count: usize) -> Puppet {
    Puppet {
        meta: PuppetMeta::default(),
        physics: PuppetPhysics { pixels_per_meter: 1000 * ONE, gravity: 9_800_000 },
        nodes: NodeTree { nodes: vec![Node::new(NodeUuid(1), vertex_count)] },
        parameters: vec![Param {
            uuid: 1,
            name: "drive".to_string(),
            is_vec2: false,
            min: Vec2::new(0, 0),
            max: Vec2::new(ONE, 0),
            defaults: Vec2::new(0, 0),
            axis_points: vec![vec![0, ONE], vec![]],
            bindings,
        }],
    }
}

fn tx_binding(values: Vec<Vec<i32>>) -> Binding {
    Binding {
        base: BindingBase {
            node: NodeUuid(1),
            is_set: vec![vec![true]; values.len()],
            interpolate_mode: InterpolateMode::Linear,
        },
        payload: BindingPayload::Scalar {
            target: ScalarTarget::Transform(TransformChannel::TranslateX),
            values,
        },
    }
}

#[test]
fn pass_writes_interpolated_channel() {
    let mut puppet = simple_puppet(vec![tx_binding(vec![vec![0], vec![10 * ONE]])], 0);
    assert_eq!(puppet.apply(&vec![Vec2::new(ONE / 4, 0)]), Ok(()));
    assert_eq!(puppet.nodes.nodes[0].translate_x, 5 * ONE / 2);
}

#[test]
fn pass_clamps_out_of_range_values() {
    let mut puppet = simple_puppet(vec![tx_binding(vec![vec![100], vec![900]])], 0);
    assert_eq!(puppet.apply(&vec![Vec2::new(77 * ONE, 0)]), Ok(()));
    assert_eq!(puppet.nodes.nodes[0].translate_x, 900);
}

#[test]
fn pass_writes_zsort_and_deform() {
    let zsort = Binding {
        base: BindingBase {
            node: NodeUuid(1),
            is_set: vec![vec![true], vec![true]],
            interpolate_mode: InterpolateMode::Linear,
        },
        payload: BindingPayload::Scalar {
            target: ScalarTarget::ZSort,
            values: vec![vec![0], vec![8]],
        },
    };
    let deform = Binding {
        base: BindingBase {
            node: NodeUuid(1),
            is_set: vec![vec![true], vec![true]],
            interpolate_mode: InterpolateMode::Linear,
        },
        payload: BindingPayload::Deform {
            values: vec![
                vec![vec![Vec2::new(0, 0), Vec2::new(0, 4)]],
                vec![vec![Vec2::new(8, 0), Vec2::new(0, 8)]],
            ],
        },
    };
    let mut puppet = simple_puppet(vec![zsort, deform], 2);
    assert_eq!(puppet.apply(&vec![Vec2::new(ONE / 2, 0)]), Ok(()));
    assert_eq!(puppet.nodes.nodes[0].zsort, 4);
    assert_eq!(puppet.nodes.nodes[0].deform, vec![Vec2::new(4, 0), Vec2::new(0, 6)]);
}

#[test]
fn vertex_count_mismatch_leaves_tree_untouched() {
    let deform = Binding {
        base: BindingBase {
            node: NodeUuid(1),
            is_set: vec![vec![true], vec![true]],
            interpolate_mode: InterpolateMode::Linear,
        },
        payload: BindingPayload::Deform {
            values: vec![vec![vec![Vec2::new(1, 1)]], vec![vec![Vec2::new(2, 2)]]],
        },
    };
    // the same pass also carries a scalar write that must not be committed
    let mut puppet = simple_puppet(vec![tx_binding(vec![vec![5], vec![5]]), deform], 3);
    let before = puppet.nodes.clone();
    assert_eq!(
        puppet.apply(&vec![Vec2::new(0, 0)]),
        Err(PuppetError::VertexCountMismatch)
    );
    assert_eq!(puppet.nodes, before);
}

#[test]
fn later_parameters_win_on_shared_channel() {
    let mut puppet = simple_puppet(vec![tx_binding(vec![vec![111], vec![111]])], 0);
    puppet.parameters.push(Param {
        uuid: 2,
        name: "drive".to_string(),
        is_vec2: false,
        min: Vec2::new(0, 0),
        max: Vec2::new(ONE, 0),
        defaults: Vec2::new(0, 0),
        axis_points: vec![vec![0, ONE], vec![]],
        bindings: vec![tx_binding(vec![vec![222], vec![222]])],
    });
    assert_eq!(puppet.apply(&vec![Vec2::new(0, 0), Vec2::new(0, 0)]), Ok(()));
    assert_eq!(puppet.nodes.nodes[0].translate_x, 222);
}

#[test]
fn node_tree_channel_writes() {
    let mut tree = NodeTree { nodes: vec![Node::new(NodeUuid(5), 4)] };
    assert!(tree.set_transform_channel(NodeUuid(5), TransformChannel::RotateZ, -9));
    assert!(tree.set_zsort(NodeUuid(5), 17));
    assert!(!tree.set_zsort(NodeUuid(6), 1));
    assert_eq!(tree.nodes[0].rotate_z, -9);
    assert_eq!(tree.nodes[0].zsort, 17);
    assert_eq!(tree.vertex_count(NodeUuid(5)), Some(4));
    assert_eq!(tree.vertex_count(NodeUuid(6)), None);
}

#[test]
fn set_deform_checks_vertex_count() {
    let mut tree = NodeTree { nodes: vec![Node::new(NodeUuid(5), 2)] };
    assert_eq!(
        tree.set_deform(NodeUuid(5), vec![Vec2::new(1, 1)]),
        Err(PuppetError::VertexCountMismatch)
    );
    assert_eq!(tree.nodes[0].deform, vec![Vec2::new(0, 0), Vec2::new(0, 0)]);
    assert_eq!(tree.set_deform(NodeUuid(5), vec![Vec2::new(1, 1), Vec2::new(2, 2)]), Ok(()));
    assert_eq!(tree.nodes[0].deform, vec![Vec2::new(1, 1), Vec2::new(2, 2)]);
}

#[test]
fn default_meta_carries_spec_version() {
    let meta = PuppetMeta::default();
    assert_eq!(meta.version, "1.0-alpha");
    assert!(meta.name.is_none());
    assert!(meta.rights.is_none());
    assert!(!meta.preserve_pixels);
    let injected = PuppetMeta::with_version("0.8".to_string());
    assert_eq!(injected.version, "0.8");
}
