//! Minimal model of the node tree that the evaluation pass drives.
//!
//! The parameter system never reads node internals; it only writes scalar
//! transform channels, the draw-order key, and per-vertex deform offsets,
//! and queries a node's mesh vertex count.

use vstd::prelude::*;
use crate::math::Vec2;

verus! {

/// Opaque identifier of a node in the tree.
#[derive(Clone, Copy, Debug, PartialEq, Eq, Structural, Hash)]
pub struct NodeUuid(pub u32);

/// One scalar transform channel of a node.
#[derive(Clone, Copy, Debug, PartialEq, Eq, Structural)]
pub enum TransformChannel {
    TranslateX,
    TranslateY,
    ScaleX,
    ScaleY,
    RotateX,
    RotateY,
    RotateZ,
}

/// Errors raised while applying evaluated bindings to the node tree.
#[derive(Clone, Copy, Debug, PartialEq, Eq, Structural)]
pub enum PuppetError {
    /// A deform binding carried a different number of per-vertex offsets
    /// than the target node's mesh has vertices.
    VertexCountMismatch,
}

/// The state of one node, as far as the parameter system drives it.
#[derive(Clone, Debug, PartialEq)]
pub struct Node {
    pub uuid: NodeUuid,
    pub translate_x: i32,
    pub translate_y: i32,
    pub scale_x: i32,
    pub scale_y: i32,
    pub rotate_x: i32,
    pub rotate_y: i32,
    pub rotate_z: i32,
    pub zsort: i32,
    /// Current per-vertex deform offsets; its length is the mesh vertex count.
    pub deform: Vec<Vec2>,
}

/// The mathematical value of a [`Node`]: the same fields with the deform
/// offsets as a sequence.
#[verifier::ext_equal]
pub ghost struct NodeRec {
    pub uuid: NodeUuid,
    pub translate_x: i32,
    pub translate_y: i32,
    pub scale_x: i32,
    pub scale_y: i32,
    pub rotate_x: i32,
    pub rotate_y: i32,
    pub rotate_z: i32,
    pub zsort: i32,
    pub deform: Seq<Vec2>,
}

impl View for Node {
    type V = NodeRec;

    open spec fn view(&self) -> NodeRec {
        NodeRec {
            uuid: self.uuid,
            translate_x: self.translate_x,
            translate_y: self.translate_y,
            scale_x: self.scale_x,
            scale_y: self.scale_y,
            rotate_x: self.rotate_x,
            rotate_y: self.rotate_y,
            rotate_z: self.rotate_z,
            zsort: self.zsort,
            deform: self.deform@,
        }
    }
}

impl DeepView for Node {
    type V = NodeRec;

    open spec fn deep_view(&self) -> NodeRec {
        self.view()
    }
}

impl NodeRec {
    /// The record with one transform channel replaced.
    pub open spec fn with_channel(self, channel: TransformChannel, value: i32) -> NodeRec {
        match channel {
            TransformChannel::TranslateX => NodeRec { translate_x: value, ..self },
            TransformChannel::TranslateY => NodeRec { translate_y: value, ..self },
            TransformChannel::ScaleX => NodeRec { scale_x: value, ..self },
            TransformChannel::ScaleY => NodeRec { scale_y: value, ..self },
            TransformChannel::RotateX => NodeRec { rotate_x: value, ..self },
            TransformChannel::RotateY => NodeRec { rotate_y: value, ..self },
            TransformChannel::RotateZ => NodeRec { rotate_z: value, ..self },
        }
    }
}

impl Node {
    /// A fresh node with all channels zero and a zeroed deform field of
    /// `vertex_count` offsets.
    pub fn new(uuid: NodeUuid, vertex_count: usize) -> (r: Node)
        ensures
            r.uuid == uuid,
            r.translate_x == 0 && r.translate_y == 0,
            r.scale_x == 0 && r.scale_y == 0,
            r.rotate_x == 0 && r.rotate_y == 0 && r.rotate_z == 0,
            r.zsort == 0,
            r.deform@.len() == vertex_count,
            forall|k: int| 0 <= k < vertex_count ==> (#[trigger] r.deform@[k]).x == 0
                && r.deform@[k].y == 0,
    {
        let mut deform: Vec<Vec2> = Vec::new();
        let mut k: usize = 0;
        while k < vertex_count
            invariant
                k <= vertex_count,
                deform@.len() == k,
                forall|m: int| 0 <= m < k ==> (#[trigger] deform@[m]).x == 0 && deform@[m].y == 0,
            decreases vertex_count - k,
        {
            deform.push(Vec2 { x: 0, y: 0 });
            k = k + 1;
        }
        Node {
            uuid,
            translate_x: 0,
            translate_y: 0,
            scale_x: 0,
            scale_y: 0,
            rotate_x: 0,
            rotate_y: 0,
            rotate_z: 0,
            zsort: 0,
            deform,
        }
    }
}

/// The index of the first record carrying `uuid` at or after `k`, or `-1`.
pub open spec fn find_from(nodes: Seq<NodeRec>, uuid: NodeUuid, k: int) -> int
    decreases nodes.len() - k,
{
    if k < 0 || k >= nodes.len() {
        -1
    } else if nodes[k].uuid == uuid {
        k
    } else {
        find_from(nodes, uuid, k + 1)
    }
}

/// The index of the first record carrying `uuid`, or `-1` if none does.
pub open spec fn find_spec(nodes: Seq<NodeRec>, uuid: NodeUuid) -> int {
    find_from(nodes, uuid, 0)
}

pub proof fn lemma_find_from_props(nodes: Seq<NodeRec>, uuid: NodeUuid, k: int)
    requires
        0 <= k,
    ensures
        find_from(nodes, uuid, k) == -1 || (k <= find_from(nodes, uuid, k) < nodes.len()
            && nodes[find_from(nodes, uuid, k)].uuid == uuid),
    decreases nodes.len() - k,
{
    if k < nodes.len() && nodes[k].uuid != uuid {
        lemma_find_from_props(nodes, uuid, k + 1);
    }
}

/// The found index, when there is one, lies in the tree and names a node
/// carrying `uuid`.
pub proof fn lemma_find_props(nodes: Seq<NodeRec>, uuid: NodeUuid)
    ensures
        find_spec(nodes, uuid) == -1 || (0 <= find_spec(nodes, uuid) < nodes.len()
            && nodes[find_spec(nodes, uuid)].uuid == uuid),
{
    lemma_find_from_props(nodes, uuid, 0);
}

/// The tree after writing `value` to `channel` of the node named `uuid`
/// (unchanged when no node carries `uuid`).
pub open spec fn set_channel_spec(
    nodes: Seq<NodeRec>,
    uuid: NodeUuid,
    channel: TransformChannel,
    value: i32,
) -> Seq<NodeRec> {
    let i = find_spec(nodes, uuid);
    if i >= 0 {
        nodes.update(i, nodes[i].with_channel(channel, value))
    } else {
        nodes
    }
}

/// The tree after writing the draw-order key of the node named `uuid`.
pub open spec fn set_zsort_spec(nodes: Seq<NodeRec>, uuid: NodeUuid, value: i32) -> Seq<NodeRec> {
    let i = find_spec(nodes, uuid);
    if i >= 0 {
        nodes.update(i, NodeRec { zsort: value, ..nodes[i] })
    } else {
        nodes
    }
}

/// The tree after replacing the deform offsets of the node named `uuid`.
pub open spec fn set_deform_spec(
    nodes: Seq<NodeRec>,
    uuid: NodeUuid,
    offsets: Seq<Vec2>,
) -> Seq<NodeRec> {
    let i = find_spec(nodes, uuid);
    if i >= 0 {
        nodes.update(i, NodeRec { deform: offsets, ..nodes[i] })
    } else {
        nodes
    }
}

/// The node tree as the parameter system sees it: a flat collection of
/// driveable node states.
#[derive(Clone, Debug, PartialEq)]
pub struct NodeTree {
    pub nodes: Vec<Node>,
}

impl View for NodeTree {
    type V = Seq<NodeRec>;

    open spec fn view(&self) -> Seq<NodeRec> {
        self.nodes.deep_view()
    }
}

impl NodeTree {
    fn find(&self, uuid: NodeUuid) -> (r: Option<usize>)
        ensures
            find_spec(self@, uuid) >= 0 ==> (r matches Some(n) && n as int == find_spec(
                self@,
                uuid,
            ) && n < self@.len()),
            find_spec(self@, uuid) < 0 ==> r is None,
    {
        proof {
            lemma_find_props(self@, uuid);
        }
        let mut k: usize = 0;
        while k < self.nodes.len()
            invariant
                k <= self.nodes@.len(),
                self@.len() == self.nodes@.len(),
                find_spec(self@, uuid) == find_from(self@, uuid, k as int),
            decreases self.nodes@.len() - k,
        {
            proof {
                assert(self@[k as int] == self.nodes@[k as int]@);
            }
            if self.nodes[k].uuid == uuid {
                return Some(k);
            }
            k = k + 1;
        }
        None
    }

    /// The mesh vertex count of the node named `uuid`.
    pub fn vertex_count(&self, uuid: NodeUuid) -> (r: Option<usize>)
        ensures
            find_spec(self@, uuid) >= 0 ==> (r matches Some(n) && n == self@[
                find_spec(self@, uuid)
            ].deform.len()),
            find_spec(self@, uuid) < 0 ==> r is None,
    {
        match self.find(uuid) {
            Some(i) => {
                proof {
                    assert(self@[i as int] == self.nodes@[i as int]@);
                }
                Some(self.nodes[i].deform.len())
            },
            None => None,
        }
    }

    /// Write one scalar transform channel; reports whether the node exists.
    pub fn set_transform_channel(
        &mut self,
        uuid: NodeUuid,
        channel: TransformChannel,
        value: i32,
    ) -> (found: bool)
        ensures
            final(self)@ == set_channel_spec(old(self)@, uuid, channel, value),
            found <==> find_spec(old(self)@, uuid) >= 0,
    {
        match self.find(uuid) {
            Some(i) => {
                match channel {
                    TransformChannel::TranslateX => self.nodes[i].translate_x = value,
                    TransformChannel::TranslateY => self.nodes[i].translate_y = value,
                    TransformChannel::ScaleX => self.nodes[i].scale_x = value,
                    TransformChannel::ScaleY => self.nodes[i].scale_y = value,
                    TransformChannel::RotateX => self.nodes[i].rotate_x = value,
                    TransformChannel::RotateY => self.nodes[i].rotate_y = value,
                    TransformChannel::RotateZ => self.nodes[i].rotate_z = value,
                }
                proof {
                    assert(self@ =~~= set_channel_spec(old(self)@, uuid, channel, value));
                }
                true
            },
            None => false,
        }
    }

    /// Write the draw-order key; reports whether the node exists.
    pub fn set_zsort(&mut self, uuid: NodeUuid, value: i32) -> (found: bool)
        ensures
            final(self)@ == set_zsort_spec(old(self)@, uuid, value),
            found <==> find_spec(old(self)@, uuid) >= 0,
    {
        match self.find(uuid) {
            Some(i) => {
                self.nodes[i].zsort = value;
                proof {
                    assert(self@.len() == old(self)@.len());
                    assert(forall|m: int| 0 <= m < self@.len() && m != i ==> self@[m] == old(
                        self,
                    )@[m]);
                    assert(self@[i as int] =~~= NodeRec { zsort: value, ..old(self)@[i as int] });
                    assert(find_spec(old(self)@, uuid) == i as int);
                    assert(set_zsort_spec(old(self)@, uuid, value) == old(self)@.update(
                        i as int,
                        NodeRec { zsort: value, ..old(self)@[i as int] },
                    ));
                    assert(self@ =~~= set_zsort_spec(old(self)@, uuid, value));
                }
                true
            },
            None => false,
        }
    }

    /// Replace the deform offsets of an existing node. Fails, leaving the
    /// tree untouched, when the offset count does not match the node's
    /// mesh vertex count.
    pub fn set_deform(&mut self, uuid: NodeUuid, offsets: Vec<Vec2>) -> (r: Result<
        (),
        PuppetError,
    >)
        requires
            find_spec(old(self)@, uuid) >= 0,
        ensures
            offsets@.len() == old(self)@[find_spec(old(self)@, uuid)].deform.len() ==> r is Ok
                && final(self)@ == set_deform_spec(old(self)@, uuid, offsets@),
            offsets@.len() != old(self)@[find_spec(old(self)@, uuid)].deform.len() ==> r == Err::<
                (),
                PuppetError,
            >(PuppetError::VertexCountMismatch) && final(self)@ == old(self)@,
    {
        match self.find(uuid) {
            Some(i) => {
                proof {
                    assert(self@[i as int] == self.nodes@[i as int]@);
                }
                if offsets.len() != self.nodes[i].deform.len() {
                    return Err(PuppetError::VertexCountMismatch);
                }
                self.nodes[i].deform = offsets;
                proof {
                    assert(self@ =~~= set_deform_spec(old(self)@, uuid, offsets@));
                }
                Ok(())
            },
            None => Err(PuppetError::VertexCountMismatch),
        }
    }
}

} // verus!
