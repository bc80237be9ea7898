//! The laws of the transform system, proved once and for all over the
//! ghost model: how world quantities compose, and that re-parenting and
//! detaching with pose preservation really preserve the pose.

use vstd::prelude::*;

verus! {

use crate::hierarchy::{
    chain,
    chain_rotation,
    chain_scale,
    chain_world,
    derived_local_position,
    derived_local_rotation,
    derived_local_scale,
    detached,
    lemma_chain_exists,
    lemma_chain_root,
    lemma_chain_step,
    lemma_detached_wf,
    lemma_linked_wf,
    rooted,
    lemma_wf_with_transform,
    lemma_world_root,
    lemma_world_step,
    linked,
    map_wf,
    node_ok,
    with_transform,
    world_mat,
    world_pos,
    world_rot,
    world_scale,
    NodeId,
    NodeView,
};
use crate::math::{
    lemma_apply_origin,
    lemma_model_col3,
    lemma_model_no_rot,
    lemma_st_mul,
    lemma_vadd_zero,
    lemma_vmul_ones,
    mat_mul,
    model_mat_of,
    scale_translation_form,
    vadd,
    vec3_ones,
    vec3_zero,
    vmul,
    Transform,
    Vec3,
};

/// Root identity: a parentless node's world matrix is its model matrix,
/// and its world position is its local position.
pub proof fn lemma_root_identity(m: Map<NodeId, NodeView>, id: NodeId)
    requires
        map_wf(m),
        m.dom().contains(id),
        m[id].parent is None,
    ensures
        world_mat(m, id) == model_mat_of(m[id].transform),
        world_pos(m, id) == m[id].transform.position,
{
    lemma_world_root(m, id);
    lemma_model_col3(m[id].transform);
    lemma_apply_origin(world_mat(m, id));
}

/// Composition order: along a chain `root -> a -> b`, the world matrix of
/// `b` is the three model matrices multiplied root-first.
pub proof fn lemma_composition_order(m: Map<NodeId, NodeView>, root: NodeId, a: NodeId, b: NodeId)
    requires
        map_wf(m),
        m.dom().contains(root),
        m.dom().contains(a),
        m.dom().contains(b),
        m[root].parent is None,
        m[a].parent == Some(root),
        m[b].parent == Some(a),
    ensures
        world_mat(m, b) == mat_mul(
            mat_mul(model_mat_of(m[root].transform), model_mat_of(m[a].transform)),
            model_mat_of(m[b].transform),
        ),
{
    lemma_world_root(m, root);
    lemma_world_step(m, a, root);
    lemma_world_step(m, b, a);
}

/// Local accessors are exact: overwriting a node's transform stores
/// exactly that transform and touches no other node.
pub proof fn lemma_local_accessors_exact(m: Map<NodeId, NodeView>, id: NodeId, t: Transform)
    requires
        m.dom().contains(id),
    ensures
        with_transform(m, id, t)[id].transform == t,
        with_transform(m, id, t)[id].parent == m[id].parent,
        with_transform(m, id, t)[id].children == m[id].children,
        forall|x: NodeId| x != id ==> with_transform(m, id, t)[x] == m[x],
{
}

/// Clear-parent round trip: detaching a node while keeping its world
/// transform leaves its world position, rotation and scale unchanged.
pub proof fn lemma_clear_parent_keeps_world(m: Map<NodeId, NodeView>, c: NodeId)
    requires
        map_wf(m),
        m.dom().contains(c),
    ensures
        ({
            let m2 = with_transform(
                detached(m, c),
                c,
                Transform {
                    position: world_pos(m, c),
                    rotation: world_rot(m, c),
                    scale: world_scale(m, c),
                },
            );
            &&& world_pos(m2, c) == world_pos(m, c)
            &&& world_rot(m2, c) == world_rot(m, c)
            &&& world_scale(m2, c) == world_scale(m, c)
        }),
{
    let md = detached(m, c);
    let t = Transform {
        position: world_pos(m, c),
        rotation: world_rot(m, c),
        scale: world_scale(m, c),
    };
    let m2 = with_transform(md, c, t);
    lemma_detached_wf(m, c);
    lemma_wf_with_transform(md, c, t);
    assert(m2[c].parent is None);
    assert(m2[c].transform == t);
    lemma_world_root(m2, c);
    lemma_model_col3(t);
    lemma_apply_origin(world_mat(m2, c));
    lemma_chain_root(m2, c);
    let s1 = chain(m2, c);
    assert(s1.last() == c);
    assert(s1.drop_last() =~= Seq::<NodeId>::empty());
    assert(chain_rotation(m2, s1.drop_last()) == vec3_zero());
    assert(chain_rotation(m2, s1) == vadd(t.rotation, vec3_zero()));
    lemma_vadd_zero(t.rotation);
    assert(chain_scale(m2, s1.drop_last()) == vec3_ones());
    assert(chain_scale(m2, s1) == vmul(t.scale, vec3_ones()));
    lemma_vmul_ones(t.scale);
}

/// Reparent round trip: attaching a node, with pose kept, under a root
/// with unit scale leaves the node's world position unchanged, whatever
/// the new parent's translation and quarter-turn rotation.
pub proof fn lemma_reparent_keeps_world_position(m: Map<NodeId, NodeView>, c: NodeId, p: NodeId)
    requires
        map_wf(m),
        m.dom().contains(c),
        m.dom().contains(p),
        !chain(m, p).contains(c),
        m[p].parent is None,
        m[p].transform.scale == vec3_ones(),
    ensures
        ({
            let ml = linked(m, c, p);
            let m2 = with_transform(
                ml,
                c,
                Transform {
                    position: derived_local_position(ml, c, world_pos(m, c)),
                    rotation: derived_local_rotation(ml, c, world_rot(m, c)),
                    scale: derived_local_scale(ml, c, world_scale(m, c)),
                },
            );
            world_pos(m2, c) == world_pos(m, c)
        }),
{
    let w = world_pos(m, c);
    let ml = linked(m, c, p);
    lemma_linked_wf(m, c, p);
    assert(node_ok(m, p));
    lemma_chain_root(m, p);
    assert(chain(ml, p) == seq![p]);
    assert(ml[p].transform == m[p].transform);
    // the derived local position is the parent's inverse applied to `w`
    let tp = ml[p].transform;
    let dp = derived_local_position(ml, c, w);
    assert(ml[c].parent == Some(p));
    let s1 = chain(ml, p);
    assert(s1[0] == p);
    assert(s1.drop_first() =~= Seq::<NodeId>::empty());
    assert(crate::hierarchy::inv_chain(ml, s1.drop_first(), w) == w);
    assert(dp == crate::math::inv_local(tp, w));
    // after the final transform write, the node sits at `dp` under `p`,
    // whose world matrix is its own model matrix; that matrix undoes the
    // inverse that produced `dp`
    let t2 = Transform {
        position: dp,
        rotation: derived_local_rotation(ml, c, world_rot(m, c)),
        scale: derived_local_scale(ml, c, world_scale(m, c)),
    };
    let m2 = with_transform(ml, c, t2);
    lemma_wf_with_transform(ml, c, t2);
    assert(m2[c].parent == Some(p));
    assert(m2[p].parent is None);
    assert(m2[p].transform == tp);
    assert(chain(m2, p) == chain(ml, p));
    assert(crate::hierarchy::rooted(m2, p));
    crate::hierarchy::lemma_world_pos_step(m2, c, p);
    lemma_world_root(m2, p);
    crate::math::lemma_model_inv(tp, w);
}

/// Writing a world position and reading it back round-trips exactly when
/// every node on the parent's chain has unit scale, whatever the chain's
/// translations and quarter-turn rotations (with non-unit scales the
/// truncating divisions can lose remainders).
#[verifier::rlimit(100)]
pub proof fn lemma_set_world_position_round_trip(m: Map<NodeId, NodeView>, id: NodeId, w: Vec3)
    requires
        map_wf(m),
        m.dom().contains(id),
        crate::hierarchy::parent_chain_unit_scales(m, id),
    ensures
        ({
            let m2 = with_transform(
                m,
                id,
                Transform {
                    position: derived_local_position(m, id, w),
                    rotation: m[id].transform.rotation,
                    scale: m[id].transform.scale,
                },
            );
            world_pos(m2, id) == w
        }),
{
    let t2 = Transform {
        position: derived_local_position(m, id, w),
        rotation: m[id].transform.rotation,
        scale: m[id].transform.scale,
    };
    let m2 = with_transform(m, id, t2);
    lemma_wf_with_transform(m, id, t2);
    assert(node_ok(m, id));
    match m[id].parent {
        None => {
            assert(m2[id].parent is None);
            lemma_world_root(m2, id);
            lemma_model_col3(t2);
            lemma_apply_origin(world_mat(m2, id));
        },
        Some(p) => {
            let cp = chain(m, p);
            assert(node_ok(m, p));
            lemma_chain_exists(m, p);
            lemma_chain_step(m, id, p);
            crate::hierarchy::lemma_chain_no_dup(m, chain(m, id));
            assert(!cp.contains(id)) by {
                if cp.contains(id) {
                    let k = choose|k: int| 0 <= k < cp.len() && cp[k] == id;
                    assert(chain(m, id)[k + 1] == id);
                    assert(chain(m, id)[0] == id);
                }
            }
            assert(m2[id].parent == Some(p));
            assert(rooted(m2, p) && chain(m2, p) == cp);
            crate::hierarchy::lemma_world_pos_step(m2, id, p);
            assert(world_mat(m2, p) == chain_world(m, cp)) by {
                assert forall|i: int| 0 <= i < cp.len() implies m2[#[trigger] cp[i]].transform
                    == m[cp[i]].transform by {
                    assert(cp[i] != id);
                }
                crate::hierarchy::lemma_chain_eval_agree(m, m2, cp, w);
            }
            assert(m2[id].transform.position == crate::hierarchy::inv_chain(m, cp, w));
            crate::hierarchy::lemma_chain_world_inv(m, cp, w);
        },
    }
}

/// Scale composition without rotation: when no node on a node's ancestor
/// chain is rotated, the node's world matrix is a pure
/// scale-and-translate matrix whose diagonal is exactly the world scale
/// (the component-wise product of the chain's local scales).
pub proof fn lemma_world_scale_exact_without_rotation(m: Map<NodeId, NodeView>, id: NodeId)
    requires
        map_wf(m),
        m.dom().contains(id),
        forall|i: int|
            0 <= i < chain(m, id).len() ==> m[#[trigger] chain(m, id)[i]].transform.rotation
                == vec3_zero(),
    ensures
        scale_translation_form(world_mat(m, id), world_scale(m, id)),
{
    assert(node_ok(m, id));
    lemma_chain_exists(m, id);
    lemma_chain_world_st(m, chain(m, id));
}

/// Along any path of unrotated nodes, the accumulated world matrix stays
/// in scale-and-translate form with the accumulated scale as diagonal.
proof fn lemma_chain_world_st(m: Map<NodeId, NodeView>, s: Seq<NodeId>)
    requires
        forall|i: int| 0 <= i < s.len() ==> m[#[trigger] s[i]].transform.rotation == vec3_zero(),
    ensures
        scale_translation_form(chain_world(m, s), chain_scale(m, s)),
    decreases s.len(),
{
    if s.len() == 0 {
    } else {
        assert forall|i: int| 0 <= i < s.drop_last().len() implies m[#[trigger] s.drop_last()[i]]
            .transform.rotation == vec3_zero() by {
            assert(s.drop_last()[i] == s[i]);
        }
        lemma_chain_world_st(m, s.drop_last());
        assert(m[s.last()].transform.rotation == vec3_zero()) by {
            assert(s[s.len() - 1] == s.last());
        }
        lemma_model_no_rot(m[s.last()].transform);
        lemma_st_mul(
            model_mat_of(m[s.last()].transform),
            chain_world(m, s.drop_last()),
            m[s.last()].transform.scale,
            chain_scale(m, s.drop_last()),
        );
    }
}

} // verus!
