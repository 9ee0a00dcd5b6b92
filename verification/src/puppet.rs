//! The puppet: metadata, physics configuration, the node tree, and the
//! ordered parameters, with the evaluation pass that drives the tree.

use vstd::prelude::*;
use crate::math::{clamp_spec, Vec2};
use crate::interp::eval_scalar_spec;
use crate::binding::{eval_deform_spec, Binding, BindingOutput, BindingPayload, ScalarTarget};
use crate::nodes::{find_spec, set_channel_spec, set_deform_spec, set_zsort_spec, NodeRec,
    NodeTree, NodeUuid, PuppetError, TransformChannel};
use crate::param::Param;

verus! {

/// Who is allowed to use the puppet?
#[derive(Clone, Copy, Debug, PartialEq, Eq, Structural)]
pub enum PuppetAllowedUsers {
    /// Only the author(s) are allowed to use the puppet.
    OnlyAuthor,
    /// Only licensee(s) are allowed to use the puppet.
    OnlyLicensee,
    /// Everyone may use the model.
    Everyone,
}

/// Can the puppet be redistributed?
#[derive(Clone, Copy, Debug, PartialEq, Eq, Structural)]
pub enum PuppetAllowedRedistribution {
    /// Redistribution is prohibited.
    Prohibited,
    /// Redistribution is allowed, but only under the same license as the
    /// original.
    ViralLicense,
    /// Redistribution is allowed, and the puppet may be redistributed
    /// under a different license than the original.
    ///
    /// This goes in conjunction with modification rights.
    CopyleftLicense,
}

/// Can the puppet be modified?
#[derive(Clone, Copy, Debug, PartialEq, Eq, Structural)]
pub enum PuppetAllowedModification {
    /// Modification is prohibited.
    Prohibited,
    /// Modification is only allowed for personal use.
    AllowPersonal,
    /// Modification is allowed with redistribution; see
    /// `allow_redistribution` for redistribution terms.
    AllowRedistribute,
}

/// Terms of usage of the puppet.
#[derive(Clone, Copy, Debug, PartialEq, Eq, Structural)]
pub struct PuppetUsageRights {
    /// Who is allowed to use the puppet?
    pub allowed_users: PuppetAllowedUsers,
    /// Whether violence content is allowed.
    pub allow_violence: bool,
    /// Whether sexual content is allowed.
    pub allow_sexual: bool,
    /// Whether commercial use is allowed.
    pub allow_commercial: bool,
    /// Whether a model may be redistributed.
    pub allow_redistribution: PuppetAllowedRedistribution,
    /// Whether a model may be modified.
    pub allow_modification: PuppetAllowedModification,
    /// Whether the author(s) must be attributed for use.
    pub require_attribution: bool,
}

impl Default for PuppetAllowedUsers {
    fn default() -> (r: Self)
        ensures
            r == PuppetAllowedUsers::OnlyAuthor,
    {
        PuppetAllowedUsers::OnlyAuthor
    }
}

impl Default for PuppetAllowedRedistribution {
    fn default() -> (r: Self)
        ensures
            r == PuppetAllowedRedistribution::Prohibited,
    {
        PuppetAllowedRedistribution::Prohibited
    }
}

impl Default for PuppetAllowedModification {
    fn default() -> (r: Self)
        ensures
            r == PuppetAllowedModification::Prohibited,
    {
        PuppetAllowedModification::Prohibited
    }
}

impl Default for PuppetUsageRights {
    /// Everything restricted: only the author, no violence or sexual
    /// content, no commercial use, no redistribution or modification,
    /// attribution required.
    fn default() -> (r: Self)
        ensures
            r.allowed_users == PuppetAllowedUsers::OnlyAuthor,
            !r.allow_violence && !r.allow_sexual && !r.allow_commercial,
            r.allow_redistribution == PuppetAllowedRedistribution::Prohibited,
            r.allow_modification == PuppetAllowedModification::Prohibited,
            r.require_attribution,
    {
        PuppetUsageRights {
            allowed_users: PuppetAllowedUsers::OnlyAuthor,
            allow_violence: false,
            allow_sexual: false,
            allow_commercial: false,
            allow_redistribution: PuppetAllowedRedistribution::Prohibited,
            allow_modification: PuppetAllowedModification::Prohibited,
            require_attribution: true,
        }
    }
}

/// Puppet meta information.
#[derive(Clone, Debug, PartialEq)]
pub struct PuppetMeta {
    /// Name of the puppet.
    pub name: Option<String>,
    /// Version of the model specification that was used when creating
    /// this model.
    pub version: String,
    /// Rigger(s) of the puppet.
    pub rigger: Option<String>,
    /// Artist(s) of the puppet.
    pub artist: Option<String>,
    /// Usage rights of the puppet.
    pub rights: Option<PuppetUsageRights>,
    /// Copyright string.
    pub copyright: Option<String>,
    /// URL of the license.
    pub license_url: Option<String>,
    /// Contact information of the first author.
    pub contact: Option<String>,
    /// Link to the origin of this puppet.
    pub reference: Option<String>,
    /// Texture ID of this puppet's thumbnail.
    pub thumbnail_id: Option<u32>,
    /// Whether the puppet should preserve pixel borders. This feature is
    /// mainly useful for puppets that use pixel art.
    pub preserve_pixels: bool,
}

impl PuppetMeta {
    /// Empty metadata carrying an explicitly injected format version.
    pub fn with_version(version: String) -> (r: PuppetMeta)
        ensures
            r.name is None,
            r.version == version,
            r.rigger is None,
            r.artist is None,
            r.rights is None,
            r.copyright is None,
            r.license_url is None,
            r.contact is None,
            r.reference is None,
            r.thumbnail_id is None,
            !r.preserve_pixels,
    {
        PuppetMeta {
            name: None,
            version,
            rigger: None,
            artist: None,
            rights: None,
            copyright: None,
            license_url: None,
            contact: None,
            reference: None,
            thumbnail_id: None,
            preserve_pixels: false,
        }
    }
}

impl Default for PuppetMeta {
    /// Empty metadata at the current model specification version.
    fn default() -> (r: Self)
        ensures
            r.name is None,
            r.version@ == "1.0-alpha"@,
            r.rigger is None,
            r.artist is None,
            r.rights is None,
            r.copyright is None,
            r.license_url is None,
            r.contact is None,
            r.reference is None,
            r.thumbnail_id is None,
            !r.preserve_pixels,
    {
        PuppetMeta::with_version("1.0-alpha".to_owned())
    }
}

/// Physics configuration, in fixed-point units.
#[derive(Clone, Copy, Debug, PartialEq, Eq, Structural)]
pub struct PuppetPhysics {
    pub pixels_per_meter: i32,
    pub gravity: i32,
}

/// The interpolated per-vertex offsets a deform binding writes at
/// parameter position `(v0, v1)`.
pub open spec fn deform_out_spec(p: Param, b: Binding, v0: int, v1: int) -> Seq<Vec2> {
    Seq::new(
        b.verts_of() as nat,
        |k: int|
            Vec2 {
                x: eval_deform_spec(
                    p.axis0(),
                    p.axis1(),
                    p.is_vec2,
                    b.deform_values(),
                    v0,
                    v1,
                    k,
                ).0 as i32,
                y: eval_deform_spec(
                    p.axis0(),
                    p.axis1(),
                    p.is_vec2,
                    b.deform_values(),
                    v0,
                    v1,
                    k,
                ).1 as i32,
            },
    )
}

/// The tree after one binding's output is written to its target node.
pub open spec fn apply_binding_spec(
    nodes: Seq<NodeRec>,
    p: Param,
    b: Binding,
    v0: int,
    v1: int,
) -> Seq<NodeRec> {
    if b.payload is Deform {
        set_deform_spec(nodes, b.base.node, deform_out_spec(p, b, v0, v1))
    } else {
        let value = eval_scalar_spec(
            p.axis0(),
            p.axis1(),
            p.is_vec2,
            b.scalar_values(),
            v0,
            v1,
        ) as i32;
        match b.target_of() {
            ScalarTarget::ZSort => set_zsort_spec(nodes, b.base.node, value),
            ScalarTarget::Transform(c) => set_channel_spec(nodes, b.base.node, c, value),
        }
    }
}

/// The tree after the first `n` bindings of one parameter are applied, in
/// order (later writes win).
pub open spec fn apply_bindings_upto(
    nodes: Seq<NodeRec>,
    p: Param,
    v0: int,
    v1: int,
    n: int,
) -> Seq<NodeRec>
    decreases n,
{
    if n <= 0 {
        nodes
    } else {
        apply_binding_spec(
            apply_bindings_upto(nodes, p, v0, v1, n - 1),
            p,
            p.bindings@[n - 1],
            v0,
            v1,
        )
    }
}

/// The tree after one parameter's whole pass at runtime value `v`,
/// clamped componentwise into the parameter's range.
pub open spec fn apply_param_spec(nodes: Seq<NodeRec>, p: Param, v: Vec2) -> Seq<NodeRec> {
    let v0 = clamp_spec(v.x as int, p.min.x as int, p.max.x as int);
    let v1 = clamp_spec(v.y as int, p.min.y as int, p.max.y as int);
    apply_bindings_upto(nodes, p, v0, v1, p.bindings@.len() as int)
}

/// The tree after the first `n` parameters are applied in insertion
/// order: the last write to a channel wins.
pub open spec fn apply_params_upto(
    nodes: Seq<NodeRec>,
    params: Seq<Param>,
    values: Seq<Vec2>,
    n: int,
) -> Seq<NodeRec>
    decreases n,
{
    if n <= 0 {
        nodes
    } else {
        apply_param_spec(apply_params_upto(nodes, params, values, n - 1), params[n - 1], values[n
            - 1])
    }
}

/// Every deform binding names a node of the tree whose mesh vertex count
/// equals the binding's per-cell offset count.
pub open spec fn deform_counts_ok(nodes: Seq<NodeRec>, params: Seq<Param>) -> bool {
    forall|p: int, b: int|
        0 <= p < params.len() && 0 <= b < params[p].bindings@.len() && (#[trigger] params[
            p
        ].bindings@[b]).payload is Deform ==> find_spec(nodes, params[p].bindings@[b].base.node)
            >= 0 && nodes[find_spec(nodes, params[p].bindings@[b].base.node)].deform.len()
            == params[p].bindings@[b].verts_of()
}

/// Trees with the same node identities in the same order are searched
/// identically.
pub proof fn lemma_find_from_same_uuids(a: Seq<NodeRec>, b: Seq<NodeRec>, uuid: NodeUuid, k: int)
    requires
        a.len() == b.len(),
        forall|i: int| 0 <= i < a.len() ==> a[i].uuid == b[i].uuid,
    ensures
        crate::nodes::find_from(a, uuid, k) == crate::nodes::find_from(b, uuid, k),
    decreases a.len() - k,
{
    if 0 <= k < a.len() {
        lemma_find_from_same_uuids(a, b, uuid, k + 1);
    }
}

/// Applying one binding never renames a node nor, when the vertex counts
/// were validated against `orig`, changes any node's vertex count.
pub proof fn lemma_apply_binding_preserves(
    orig: Seq<NodeRec>,
    nodes: Seq<NodeRec>,
    p: Param,
    b: Binding,
    v0: int,
    v1: int,
)
    requires
        nodes.len() == orig.len(),
        forall|i: int| 0 <= i < orig.len() ==> nodes[i].uuid == orig[i].uuid && nodes[i].deform.len()
            == orig[i].deform.len(),
        b.payload is Deform ==> find_spec(orig, b.base.node) >= 0 && orig[find_spec(
            orig,
            b.base.node,
        )].deform.len() == b.verts_of(),
    ensures
        ({
            let after = apply_binding_spec(nodes, p, b, v0, v1);
            &&& after.len() == orig.len()
            &&& forall|i: int| 0 <= i < orig.len() ==> (#[trigger] after[i]).uuid == orig[i].uuid
                && after[i].deform.len() == orig[i].deform.len()
        }),
{
    lemma_find_from_same_uuids(nodes, orig, b.base.node, 0);
    crate::nodes::lemma_find_props(nodes, b.base.node);
    let after = apply_binding_spec(nodes, p, b, v0, v1);
    let f = find_spec(nodes, b.base.node);
    assert forall|i: int|
        0 <= i < orig.len() implies (#[trigger] after[i]).uuid == orig[i].uuid
        && after[i].deform.len() == orig[i].deform.len() by {
        if f >= 0 && i == f {
            assert(deform_out_spec(p, b, v0, v1).len() == b.verts_of());
        } else {
            assert(after[i] == nodes[i]);
        }
    }
}

/// The complete riggable model: metadata, physics, the node tree, and the
/// ordered parameters driving it.
#[derive(Clone, Debug, PartialEq)]
pub struct Puppet {
    pub meta: PuppetMeta,
    pub physics: PuppetPhysics,
    pub nodes: NodeTree,
    pub parameters: Vec<Param>,
}

impl Puppet {
    /// Every parameter is well-formed.
    pub open spec fn wf(self) -> bool {
        forall|p: int| 0 <= p < self.parameters@.len() ==> (#[trigger] self.parameters@[p]).wf()
    }

    /// One full evaluation pass: for the given per-parameter runtime
    /// values (clamped into each parameter's range), every binding of
    /// every parameter is evaluated and written to its target node, in
    /// insertion order. When any deform binding's offset count does not
    /// match its node's mesh vertex count the whole pass fails before
    /// anything is written: the tree is left exactly as it was.
    pub fn apply(&mut self, values: &Vec<Vec2>) -> (r: Result<(), PuppetError>)
        requires
            old(self).wf(),
            values@.len() == old(self).parameters@.len(),
        ensures
            deform_counts_ok(old(self).nodes@, old(self).parameters@) ==> r is Ok
                && final(self).nodes@ == apply_params_upto(
                old(self).nodes@,
                old(self).parameters@,
                values@,
                old(self).parameters@.len() as int,
            ),
            !deform_counts_ok(old(self).nodes@, old(self).parameters@) ==> r == Err::<
                (),
                PuppetError,
            >(PuppetError::VertexCountMismatch) && final(self).nodes@ == old(self).nodes@,
            final(self).parameters == old(self).parameters,
            final(self).meta == old(self).meta,
            final(self).physics == old(self).physics,
    {
        let ghost orig = self.nodes@;
        let ghost params = self.parameters@;
        let np = self.parameters.len();
        // Validation pass: read-only, so a failure commits nothing.
        let mut pi: usize = 0;
        while pi < np
            invariant
                np == self.parameters@.len(),
                *self == *old(self),
                old(self).wf(),
                orig == self.nodes@,
                params == self.parameters@,
                forall|p: int, b: int|
                    0 <= p < pi && 0 <= b < params[p].bindings@.len() && (#[trigger] params[
                        p
                    ].bindings@[b]).payload is Deform ==> find_spec(
                        orig,
                        params[p].bindings@[b].base.node,
                    ) >= 0 && orig[find_spec(orig, params[p].bindings@[b].base.node)].deform.len()
                        == params[p].bindings@[b].verts_of(),
            decreases np - pi,
        {
            let nb = self.parameters[pi].bindings.len();
            let mut bi: usize = 0;
            while bi < nb
                invariant
                    pi < np,
                    np == self.parameters@.len(),
                    nb == params[pi as int].bindings@.len(),
                    *self == *old(self),
                    old(self).wf(),
                    orig == self.nodes@,
                    params == self.parameters@,
                    forall|p: int, b: int|
                        0 <= p < pi && 0 <= b < params[p].bindings@.len() && (#[trigger] params[
                            p
                        ].bindings@[b]).payload is Deform ==> find_spec(
                            orig,
                            params[p].bindings@[b].base.node,
                        ) >= 0 && orig[find_spec(
                            orig,
                            params[p].bindings@[b].base.node,
                        )].deform.len() == params[p].bindings@[b].verts_of(),
                    forall|b: int|
                        0 <= b < bi && (#[trigger] params[pi as int].bindings@[b]).payload
                            is Deform ==> find_spec(
                            orig,
                            params[pi as int].bindings@[b].base.node,
                        ) >= 0 && orig[find_spec(
                            orig,
                            params[pi as int].bindings@[b].base.node,
                        )].deform.len() == params[pi as int].bindings@[b].verts_of(),
                decreases nb - bi,
            {
                let node = self.parameters[pi].bindings[bi].base.node;
                let mut verts: usize = 0;
                let mut is_deform = false;
                match &self.parameters[pi].bindings[bi].payload {
                    BindingPayload::Deform { values: dv } => {
                        proof {
                            let b = params[pi as int].bindings@[bi as int];
                            assert(b.shape_wf(
                                params[pi as int].rows(),
                                params[pi as int].cols(),
                            ));
                            assert(b.deform_values()[0] == dv@[0].deep_view());
                            assert(b.deform_values()[0][0] == dv@[0]@[0].deep_view());
                        }
                        verts = dv[0][0].len();
                        is_deform = true;
                    },
                    BindingPayload::Scalar { .. } => {},
                }
                if is_deform {
                    match self.nodes.vertex_count(node) {
                        Some(n) => {
                            if n != verts {
                                return Err(PuppetError::VertexCountMismatch);
                            }
                        },
                        None => {
                            return Err(PuppetError::VertexCountMismatch);
                        },
                    }
                }
                bi = bi + 1;
            }
            pi = pi + 1;
        }
        proof {
            assert(deform_counts_ok(orig, params));
        }
        // Apply pass: every write is now known to succeed.
        let mut pi: usize = 0;
        while pi < np
            invariant
                np == self.parameters@.len(),
                old(self).wf(),
                params == self.parameters@,
                self.parameters == old(self).parameters,
                self.meta == old(self).meta,
                self.physics == old(self).physics,
                orig == old(self).nodes@,
                values@.len() == np,
                deform_counts_ok(orig, self.parameters@),
                pi <= np,
                self.nodes@ == apply_params_upto(orig, params, values@, pi as int),
                self.nodes@.len() == orig.len(),
                forall|i: int| 0 <= i < orig.len() ==> (#[trigger] self.nodes@[i]).uuid == orig[
                    i
                ].uuid && self.nodes@[i].deform.len() == orig[i].deform.len(),
            decreases np - pi,
        {
            let v = self.parameters[pi].clamp_value(values[pi]);
            let ghost base_nodes = self.nodes@;
            let ghost v0 = clamp_spec(
                values@[pi as int].x as int,
                params[pi as int].min.x as int,
                params[pi as int].max.x as int,
            );
            let ghost v1 = clamp_spec(
                values@[pi as int].y as int,
                params[pi as int].min.y as int,
                params[pi as int].max.y as int,
            );
            let nb = self.parameters[pi].bindings.len();
            let mut bi: usize = 0;
            while bi < nb
                invariant
                    pi < np,
                    np == self.parameters@.len(),
                    old(self).wf(),
                    params == self.parameters@,
                    self.parameters == old(self).parameters,
                    self.meta == old(self).meta,
                    self.physics == old(self).physics,
                    orig == old(self).nodes@,
                    values@.len() == np,
                    deform_counts_ok(orig, self.parameters@),
                    nb == params[pi as int].bindings@.len(),
                    bi <= nb,
                    v.x as int == v0 && v.y as int == v1,
                    v0 == clamp_spec(
                        values@[pi as int].x as int,
                        params[pi as int].min.x as int,
                        params[pi as int].max.x as int,
                    ),
                    v1 == clamp_spec(
                        values@[pi as int].y as int,
                        params[pi as int].min.y as int,
                        params[pi as int].max.y as int,
                    ),
                    base_nodes == apply_params_upto(orig, params, values@, pi as int),
                    self.nodes@ == apply_bindings_upto(
                        base_nodes,
                        params[pi as int],
                        v0,
                        v1,
                        bi as int,
                    ),
                    self.nodes@.len() == orig.len(),
                    forall|i: int| 0 <= i < orig.len() ==> (#[trigger] self.nodes@[i]).uuid
                        == orig[i].uuid && self.nodes@[i].deform.len() == orig[i].deform.len(),
                decreases nb - bi,
            {
                let ghost b_spec = params[pi as int].bindings@[bi as int];
                let ghost pre_nodes = self.nodes@;
                proof {
                    assert(params[pi as int].wf());
                    assert(b_spec.shape_wf(params[pi as int].rows(), params[pi as int].cols()));
                }
                let node = self.parameters[pi].bindings[bi].base.node;
                let out = self.parameters[pi].bindings[bi].evaluate(
                    &self.parameters[pi].axis_points[0],
                    &self.parameters[pi].axis_points[1],
                    self.parameters[pi].is_vec2,
                    v,
                );
                match out {
                    BindingOutput::Scalar { value } => {
                        let target = self.parameters[pi].bindings[bi].scalar_target();
                        match target {
                            ScalarTarget::ZSort => {
                                self.nodes.set_zsort(node, value);
                            },
                            ScalarTarget::Transform(c) => {
                                self.nodes.set_transform_channel(node, c, value);
                            },
                        }
                    },
                    BindingOutput::Deform { offsets } => {
                        proof {
                            lemma_find_from_same_uuids(pre_nodes, orig, node, 0);
                            crate::nodes::lemma_find_props(orig, node);
                            assert(offsets@ =~= deform_out_spec(params[pi as int], b_spec, v0, v1));
                        }
                        match self.nodes.set_deform(node, offsets) {
                            Ok(()) => {},
                            Err(_) => {
                                proof {
                                    assert(false);
                                }
                            },
                        }
                    },
                }
                proof {
                    lemma_apply_binding_preserves(orig, pre_nodes, params[pi as int], b_spec, v0, v1);
                    if !(b_spec.payload is Deform) {
                        lemma_find_from_same_uuids(pre_nodes, orig, node, 0);
                    }
                    assert(self.nodes@ == apply_binding_spec(
                        pre_nodes,
                        params[pi as int],
                        b_spec,
                        v0,
                        v1,
                    ));
                }
                bi = bi + 1;
            }
            pi = pi + 1;
        }
        Ok(())
    }
}

} // verus!
