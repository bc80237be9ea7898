//! The ghost model of the scene graph: a finite map from node ids to node
//! records, the ancestor chain of a node, and the world-space quantities
//! derived by composing local transforms along that chain.

use vstd::prelude::*;

verus! {

use crate::math::{
    apply_point,
    mat_identity,
    mat_mul,
    model_mat_of,
    lemma_mat_mul_assoc,
    lemma_mat_mul_identity_left,
    lemma_mat_mul_identity_right,
    vadd,
    vec3_zero,
    vec3_ones,
    vmul,
    Mat4,
    Transform,
    Vec3,
};

pub type NodeId = u64;

/// Ghost image of one node: its parent link, its children in insertion
/// order, and its local transform.
pub struct NodeView {
    pub parent: Option<NodeId>,
    pub children: Seq<NodeId>,
    pub transform: Transform,
}

/// `s` is an upward path through parent links: each element's parent is
/// the next element, and the last element is a root.
pub open spec fn chain_links(m: Map<NodeId, NodeView>, s: Seq<NodeId>) -> bool {
    &&& s.len() > 0
    &&& (forall|i: int| 0 <= i < s.len() ==> m.dom().contains(#[trigger] s[i]))
    &&& (forall|i: int| 0 <= i < s.len() - 1 ==> m[#[trigger] s[i]].parent == Some(s[i + 1]))
    &&& m[s[s.len() - 1]].parent is None
}

/// `s` is the upward path from `id` to its root.
pub open spec fn chain_from(m: Map<NodeId, NodeView>, s: Seq<NodeId>, id: NodeId) -> bool {
    chain_links(m, s) && s[0] == id
}

/// Following parent links from `id` reaches a root (no cycle above `id`).
pub open spec fn rooted(m: Map<NodeId, NodeView>, id: NodeId) -> bool {
    exists|s: Seq<NodeId>| chain_from(m, s, id)
}

/// The upward path from `id` to its root: `[id, parent, ..., root]`.
pub open spec fn chain(m: Map<NodeId, NodeView>, id: NodeId) -> Seq<NodeId> {
    choose|s: Seq<NodeId>| chain_from(m, s, id)
}

/// Well-formedness of one node record: parent and children lists agree in
/// both directions, children are distinct, and the node has a cycle-free
/// ancestor path.
pub open spec fn node_ok(m: Map<NodeId, NodeView>, id: NodeId) -> bool {
    let n = m[id];
    &&& match n.parent {
        Some(p) => m.dom().contains(p) && m[p].children.contains(id),
        None => true,
    }
    &&& (forall|j: int|
        0 <= j < n.children.len() ==> m.dom().contains(#[trigger] n.children[j])
            && m[n.children[j]].parent == Some(id))
    &&& (forall|j: int, k: int| 0 <= j < k < n.children.len() ==> n.children[j] != n.children[k])
    &&& rooted(m, id)
}

/// Well-formedness of the whole arena: finitely many nodes, and the
/// parent/child graph is a forest.
pub open spec fn map_wf(m: Map<NodeId, NodeView>) -> bool {
    &&& m.dom().finite()
    &&& forall|id: NodeId| m.dom().contains(id) ==> #[trigger] node_ok(m, id)
}

/// World matrix accumulated along an upward path: the root's model matrix
/// multiplied on the left of every descendant's.
pub open spec fn chain_world(m: Map<NodeId, NodeView>, s: Seq<NodeId>) -> Mat4
    decreases s.len(),
{
    if s.len() == 0 {
        mat_identity()
    } else {
        mat_mul(model_mat_of(m[s.last()].transform), chain_world(m, s.drop_last()))
    }
}

/// Sum of local rotations along an upward path (component-wise; an
/// approximation of true rotation composition, kept by design).
pub open spec fn chain_rotation(m: Map<NodeId, NodeView>, s: Seq<NodeId>) -> Vec3
    decreases s.len(),
{
    if s.len() == 0 {
        vec3_zero()
    } else {
        vadd(m[s.last()].transform.rotation, chain_rotation(m, s.drop_last()))
    }
}

/// Component-wise product of local scales along an upward path (an
/// approximation of true scale composition, kept by design).
pub open spec fn chain_scale(m: Map<NodeId, NodeView>, s: Seq<NodeId>) -> Vec3
    decreases s.len(),
{
    if s.len() == 0 {
        vec3_ones()
    } else {
        vmul(m[s.last()].transform.scale, chain_scale(m, s.drop_last()))
    }
}

/// The world matrix of a node: ancestor model matrices composed from the
/// root down to the node itself.
pub open spec fn world_mat(m: Map<NodeId, NodeView>, id: NodeId) -> Mat4 {
    chain_world(m, chain(m, id))
}

/// The world position of a node: its world matrix applied to the origin.
pub open spec fn world_pos(m: Map<NodeId, NodeView>, id: NodeId) -> Vec3 {
    apply_point(world_mat(m, id), vec3_zero())
}

/// The world rotation of a node: the component-wise sum of the local
/// rotations of the node and its ancestors.
pub open spec fn world_rot(m: Map<NodeId, NodeView>, id: NodeId) -> Vec3 {
    chain_rotation(m, chain(m, id))
}

/// The world scale of a node: the component-wise product of the local
/// scales of the node and its ancestors.
pub open spec fn world_scale(m: Map<NodeId, NodeView>, id: NodeId) -> Vec3 {
    chain_scale(m, chain(m, id))
}

/// Apply the inverses of the local transforms along an upward path to a
/// point, root first: this carries a world-space position into the space
/// below the path's first node.
pub open spec fn inv_chain(m: Map<NodeId, NodeView>, s: Seq<NodeId>, v: Vec3) -> Vec3
    decreases s.len(),
{
    if s.len() == 0 {
        v
    } else {
        crate::math::inv_local(m[s[0]].transform, inv_chain(m, s.drop_first(), v))
    }
}

/// Every node on the path has a scale with all components nonzero, so the
/// inverses along it are defined.
pub open spec fn chain_scales_nonzero(m: Map<NodeId, NodeView>, s: Seq<NodeId>) -> bool {
    forall|i: int|
        0 <= i < s.len() ==> (#[trigger] m[s[i]].transform.scale).x != 0
            && m[s[i]].transform.scale.y != 0 && m[s[i]].transform.scale.z != 0
}

/// The local position a node must store so that, under its parent's world
/// transform, it sits at world position `w`: the parent's ancestor chain
/// of inverses applied to `w`.  A root stores `w` itself.
pub open spec fn derived_local_position(m: Map<NodeId, NodeView>, id: NodeId, w: Vec3) -> Vec3 {
    match m[id].parent {
        Some(p) => inv_chain(m, chain(m, p), w),
        None => w,
    }
}

/// The local rotation a node must store to sit at world rotation `w`:
/// `w` minus the parent's world rotation, component-wise.
pub open spec fn derived_local_rotation(m: Map<NodeId, NodeView>, id: NodeId, w: Vec3) -> Vec3 {
    match m[id].parent {
        Some(p) => crate::math::vsub(w, world_rot(m, p)),
        None => w,
    }
}

/// The local scale a node must store to sit at world scale `w`: `w`
/// divided by the parent's world scale, component-wise.
pub open spec fn derived_local_scale(m: Map<NodeId, NodeView>, id: NodeId, w: Vec3) -> Vec3 {
    match m[id].parent {
        Some(p) => crate::math::vdiv(w, world_scale(m, p)),
        None => w,
    }
}

/// The components of a parent's world scale are nonzero (vacuously true
/// for a root), so a world scale can be pushed down to a local scale.
pub open spec fn parent_world_scale_nonzero(m: Map<NodeId, NodeView>, id: NodeId) -> bool {
    match m[id].parent {
        Some(p) => world_scale(m, p).x != 0 && world_scale(m, p).y != 0 && world_scale(m, p).z
            != 0,
        None => true,
    }
}

/// The scales on the parent's chain are nonzero (vacuously true for a
/// root), so a world position can be pushed down to a local position.
pub open spec fn parent_chain_scales_nonzero(m: Map<NodeId, NodeView>, id: NodeId) -> bool {
    match m[id].parent {
        Some(p) => chain_scales_nonzero(m, chain(m, p)),
        None => true,
    }
}

/// Every node on the parent's chain has unit scale (vacuously true for a
/// root), so the inverse chain is exact.
pub open spec fn parent_chain_unit_scales(m: Map<NodeId, NodeView>, id: NodeId) -> bool {
    match m[id].parent {
        Some(p) => forall|i: int|
            0 <= i < chain(m, p).len() ==> m[#[trigger] chain(m, p)[i]].transform.scale
                == vec3_ones(),
        None => true,
    }
}

/// Dropping the first element of an upward path leaves an upward path.
pub proof fn lemma_chain_drop_first(m: Map<NodeId, NodeView>, s: Seq<NodeId>)
    requires
        chain_links(m, s),
        s.len() > 1,
    ensures
        chain_links(m, s.drop_first()),
{
    let t = s.drop_first();
    assert forall|i: int| 0 <= i < t.len() implies m.dom().contains(#[trigger] t[i]) by {
        assert(t[i] == s[i + 1]);
    }
    assert forall|i: int| 0 <= i < t.len() - 1 implies m[#[trigger] t[i]].parent == Some(t[i + 1]) by {
        assert(t[i] == s[i + 1]);
        assert(t[i + 1] == s[i + 2]);
    }
    assert(t[t.len() - 1] == s[s.len() - 1]);
}

/// A node has exactly one upward path.
pub proof fn lemma_chain_unique(m: Map<NodeId, NodeView>, s1: Seq<NodeId>, s2: Seq<NodeId>)
    requires
        chain_links(m, s1),
        chain_links(m, s2),
        s1[0] == s2[0],
    ensures
        s1 == s2,
    decreases s1.len(),
{
    if s1.len() == 1 {
        assert(m[s1[0]].parent is None);
        if s2.len() > 1 {
            assert(m[s2[0]].parent == Some(s2[1]));
        }
        assert(s1 =~= s2);
    } else {
        assert(m[s1[0]].parent == Some(s1[1]));
        assert(s2.len() > 1) by {
            if s2.len() == 1 {
                assert(m[s2[0]].parent is None);
            }
        }
        lemma_chain_drop_first(m, s1);
        lemma_chain_drop_first(m, s2);
        assert(s1.drop_first()[0] == s1[1]);
        assert(s2.drop_first()[0] == s2[1]);
        lemma_chain_unique(m, s1.drop_first(), s2.drop_first());
        assert forall|i: int| 0 <= i < s1.len() implies s1[i] == s2[i] by {
            if i > 0 {
                assert(s1.drop_first()[i - 1] == s2.drop_first()[i - 1]);
            }
        }
        assert(s1 =~= s2);
    }
}

/// The chosen chain of a rooted node is an upward path from it.
pub proof fn lemma_chain_exists(m: Map<NodeId, NodeView>, id: NodeId)
    requires
        rooted(m, id),
    ensures
        chain_from(m, chain(m, id), id),
{
}

/// Any upward path from `id` is the chain of `id`.
pub proof fn lemma_chain_is(m: Map<NodeId, NodeView>, s: Seq<NodeId>, id: NodeId)
    requires
        chain_links(m, s),
        s[0] == id,
    ensures
        rooted(m, id),
        chain(m, id) == s,
{
    assert(chain_from(m, s, id));
    lemma_chain_exists(m, id);
    lemma_chain_unique(m, chain(m, id), s);
}

/// A parentless node's chain is just the node itself.
pub proof fn lemma_chain_root(m: Map<NodeId, NodeView>, id: NodeId)
    requires
        m.dom().contains(id),
        m[id].parent is None,
    ensures
        rooted(m, id),
        chain(m, id) == seq![id],
{
    let s = seq![id];
    assert(chain_links(m, s));
    lemma_chain_is(m, s, id);
}

/// A parented node's chain is itself followed by its parent's chain.
pub proof fn lemma_chain_step(m: Map<NodeId, NodeView>, id: NodeId, p: NodeId)
    requires
        m.dom().contains(id),
        m[id].parent == Some(p),
        rooted(m, p),
    ensures
        rooted(m, id),
        chain(m, id) == seq![id] + chain(m, p),
{
    lemma_chain_exists(m, p);
    let sp = chain(m, p);
    let s = seq![id] + sp;
    assert forall|i: int| 0 <= i < s.len() implies m.dom().contains(#[trigger] s[i]) by {
        if i > 0 {
            assert(s[i] == sp[i - 1]);
        }
    }
    assert forall|i: int| 0 <= i < s.len() - 1 implies m[#[trigger] s[i]].parent == Some(s[i + 1]) by {
        if i == 0 {
            assert(s[1] == sp[0]);
        } else {
            assert(s[i] == sp[i - 1]);
            assert(s[i + 1] == sp[i]);
        }
    }
    assert(s[s.len() - 1] == sp[sp.len() - 1]);
    assert(chain_links(m, s));
    lemma_chain_is(m, s, id);
}

/// Composing world matrices along a concatenated path splits into the two
/// parts' world matrices.
pub proof fn lemma_chain_world_concat(m: Map<NodeId, NodeView>, s1: Seq<NodeId>, s2: Seq<NodeId>)
    ensures
        chain_world(m, s1 + s2) == mat_mul(chain_world(m, s2), chain_world(m, s1)),
    decreases s2.len(),
{
    if s2.len() == 0 {
        assert(s1 + s2 =~= s1);
        lemma_mat_mul_identity_left(chain_world(m, s1));
    } else {
        assert((s1 + s2).drop_last() =~= s1 + s2.drop_last());
        assert((s1 + s2).last() == s2.last());
        lemma_chain_world_concat(m, s1, s2.drop_last());
        lemma_mat_mul_assoc(
            model_mat_of(m[s2.last()].transform),
            chain_world(m, s2.drop_last()),
            chain_world(m, s1),
        );
    }
}

/// The world matrix of a path of one node is that node's model matrix.
pub proof fn lemma_chain_world_single(m: Map<NodeId, NodeView>, id: NodeId)
    ensures
        chain_world(m, seq![id]) == model_mat_of(m[id].transform),
{
    let s = seq![id];
    assert(s.len() == 1);
    assert(s.last() == id);
    assert(s.drop_last() =~= Seq::<NodeId>::empty());
    assert(chain_world(m, s.drop_last()) == mat_identity());
    lemma_mat_mul_identity_right(model_mat_of(m[id].transform));
}

/// A root's world matrix is its model matrix.
pub proof fn lemma_world_root(m: Map<NodeId, NodeView>, id: NodeId)
    requires
        m.dom().contains(id),
        m[id].parent is None,
    ensures
        rooted(m, id),
        world_mat(m, id) == model_mat_of(m[id].transform),
{
    lemma_chain_root(m, id);
    lemma_chain_world_single(m, id);
}

/// A parented node's world matrix is its parent's world matrix times its
/// own model matrix.
pub proof fn lemma_world_step(m: Map<NodeId, NodeView>, id: NodeId, p: NodeId)
    requires
        m.dom().contains(id),
        m[id].parent == Some(p),
        rooted(m, p),
    ensures
        rooted(m, id),
        world_mat(m, id) == mat_mul(world_mat(m, p), model_mat_of(m[id].transform)),
{
    lemma_chain_step(m, id, p);
    lemma_chain_world_concat(m, seq![id], chain(m, p));
    lemma_chain_world_single(m, id);
}

/// A parented node's world position is its local position carried through
/// the parent's world matrix.
pub proof fn lemma_world_pos_step(m: Map<NodeId, NodeView>, id: NodeId, p: NodeId)
    requires
        m.dom().contains(id),
        m[id].parent == Some(p),
        rooted(m, p),
    ensures
        rooted(m, id),
        world_pos(m, id) == apply_point(world_mat(m, p), m[id].transform.position),
{
    lemma_world_step(m, id, p);
    crate::math::lemma_model_affine(m[id].transform);
    crate::math::lemma_apply_compose(
        world_mat(m, p),
        model_mat_of(m[id].transform),
        vec3_zero(),
    );
    crate::math::lemma_model_col3(m[id].transform);
    crate::math::lemma_apply_origin(model_mat_of(m[id].transform));
}

/// Along a path of unit-scale nodes, the accumulated world matrix undoes
/// the chain of inverses, whatever the path's translations and rotations.
pub proof fn lemma_chain_world_inv(m: Map<NodeId, NodeView>, s: Seq<NodeId>, w: Vec3)
    requires
        forall|i: int| 0 <= i < s.len() ==> m[#[trigger] s[i]].transform.scale == vec3_ones(),
    ensures
        apply_point(chain_world(m, s), inv_chain(m, s, w)) == w,
    decreases s.len(),
{
    if s.len() == 0 {
        crate::math::lemma_apply_identity(w);
    } else {
        assert(seq![s[0]] + s.drop_first() =~= s);
        lemma_chain_world_concat(m, seq![s[0]], s.drop_first());
        lemma_chain_world_single(m, s[0]);
        assert forall|i: int| 0 <= i < s.drop_first().len() implies m[#[trigger] s.drop_first()[i]]
            .transform.scale == vec3_ones() by {
            assert(s.drop_first()[i] == s[i + 1]);
        }
        lemma_chain_world_inv(m, s.drop_first(), w);
        let u = inv_chain(m, s.drop_first(), w);
        crate::math::lemma_model_affine(m[s[0]].transform);
        crate::math::lemma_apply_compose(
            chain_world(m, s.drop_first()),
            model_mat_of(m[s[0]].transform),
            crate::math::inv_local(m[s[0]].transform, u),
        );
        assert(m[s[0]].transform.scale == vec3_ones());
        crate::math::lemma_model_inv(m[s[0]].transform, u);
    }
}

/// An upward path stays an upward path in a second map that keeps every
/// node of the first map with its parent link unchanged.
pub proof fn lemma_chain_links_agree(
    m1: Map<NodeId, NodeView>,
    m2: Map<NodeId, NodeView>,
    s: Seq<NodeId>,
)
    requires
        chain_links(m1, s),
        forall|x: NodeId|
            m1.dom().contains(x) ==> m2.dom().contains(x) && m1[x].parent == m2[x].parent,
    ensures
        chain_links(m2, s),
{
    assert forall|i: int| 0 <= i < s.len() - 1 implies m2[#[trigger] s[i]].parent == Some(s[i + 1]) by {
        assert(m1[s[i]].parent == Some(s[i + 1]));
    }
    assert(m2[s[s.len() - 1]].parent is None) by {
        assert(m1[s[s.len() - 1]].parent is None);
    }
}

/// A second map that keeps every node of the first with its parent link
/// unchanged gives a rooted node the same chain.
pub proof fn lemma_chain_agree(m1: Map<NodeId, NodeView>, m2: Map<NodeId, NodeView>, id: NodeId)
    requires
        rooted(m1, id),
        forall|x: NodeId|
            m1.dom().contains(x) ==> m2.dom().contains(x) && m1[x].parent == m2[x].parent,
    ensures
        rooted(m2, id),
        chain(m2, id) == chain(m1, id),
{
    lemma_chain_exists(m1, id);
    lemma_chain_links_agree(m1, m2, chain(m1, id));
    lemma_chain_is(m2, chain(m1, id), id);
}

/// The arena with only the transform of `id` replaced by `t`.
pub open spec fn with_transform(m: Map<NodeId, NodeView>, id: NodeId, t: Transform) -> Map<
    NodeId,
    NodeView,
> {
    m.insert(id, NodeView { parent: m[id].parent, children: m[id].children, transform: t })
}

/// Replacing a node's transform keeps the arena well-formed and keeps
/// every node's chain.
pub proof fn lemma_wf_with_transform(m: Map<NodeId, NodeView>, id: NodeId, t: Transform)
    requires
        map_wf(m),
        m.dom().contains(id),
    ensures
        map_wf(with_transform(m, id, t)),
        with_transform(m, id, t).dom() == m.dom(),
        forall|x: NodeId|
            m.dom().contains(x) ==> rooted(with_transform(m, id, t), x) && chain(
                with_transform(m, id, t),
                x,
            ) == chain(m, x),
{
    let m2 = with_transform(m, id, t);
    assert(m2.dom() =~= m.dom());
    assert forall|x: NodeId| m.dom().contains(x) implies rooted(m2, x) && chain(m2, x) == chain(
        m,
        x,
    ) by {
        assert(node_ok(m, x));
        lemma_chain_agree(m, m2, x);
    }
    assert forall|x: NodeId| m2.dom().contains(x) implies node_ok(m2, x) by {
        assert(node_ok(m, x));
        assert(m2[x].children == m[x].children);
        assert(m2[x].parent == m[x].parent);
    }
}

/// The record of a freshly created node: no parent, no children, default
/// transform.
pub open spec fn fresh_node() -> NodeView {
    NodeView { parent: None, children: Seq::empty(), transform: crate::math::default_transform() }
}

/// Inserting a fresh root node keeps the arena well-formed and keeps
/// every existing node's chain.
pub proof fn lemma_wf_insert_fresh(m: Map<NodeId, NodeView>, id: NodeId)
    requires
        map_wf(m),
        !m.dom().contains(id),
    ensures
        map_wf(m.insert(id, fresh_node())),
        forall|x: NodeId|
            m.dom().contains(x) ==> rooted(m.insert(id, fresh_node()), x) && chain(
                m.insert(id, fresh_node()),
                x,
            ) == chain(m, x),
        rooted(m.insert(id, fresh_node()), id),
        chain(m.insert(id, fresh_node()), id) == seq![id],
{
    let m2 = m.insert(id, fresh_node());
    assert forall|x: NodeId| m.dom().contains(x) implies rooted(m2, x) && chain(m2, x) == chain(
        m,
        x,
    ) by {
        assert(node_ok(m, x));
        lemma_chain_agree(m, m2, x);
    }
    lemma_chain_root(m2, id);
    assert forall|x: NodeId| m2.dom().contains(x) implies node_ok(m2, x) by {
        if x == id {
        } else {
            assert(node_ok(m, x));
            assert(m2[x] == m[x]);
            assert forall|j: int| 0 <= j < m2[x].children.len() implies m2.dom().contains(
                #[trigger] m2[x].children[j],
            ) && m2[m2[x].children[j]].parent == Some(x) by {
                assert(m.dom().contains(m[x].children[j]));
            }
            match m2[x].parent {
                Some(p) => {
                    assert(m.dom().contains(p));
                    assert(m2[p].children == m[p].children);
                },
                None => {},
            }
        }
    }
}

/// The sequence with every occurrence of `c` removed, other elements in
/// their original order.
pub open spec fn remove_id(s: Seq<NodeId>, c: NodeId) -> Seq<NodeId>
    decreases s.len(),
{
    if s.len() == 0 {
        s
    } else if s.last() == c {
        remove_id(s.drop_last(), c)
    } else {
        remove_id(s.drop_last(), c).push(s.last())
    }
}

/// What `remove_id` keeps: exactly the other elements.
pub proof fn lemma_remove_id_contains(s: Seq<NodeId>, c: NodeId)
    ensures
        forall|x: NodeId| #[trigger] remove_id(s, c).contains(x) <==> (s.contains(x) && x != c),
    decreases s.len(),
{
    if s.len() == 0 {
    } else {
        lemma_remove_id_contains(s.drop_last(), c);
        let rd = remove_id(s.drop_last(), c);
        let r = remove_id(s, c);
        assert forall|x: NodeId| #[trigger] r.contains(x) implies s.contains(x) && x != c by {
            let i = choose|i: int| 0 <= i < r.len() && r[i] == x;
            if s.last() == c {
                assert(rd.contains(x));
                let j = choose|j: int| 0 <= j < rd.len() && rd[j] == x;
                assert(s.drop_last()[choose|k: int|
                    0 <= k < s.drop_last().len() && s.drop_last()[k] == x] == x);
                assert(s.drop_last().contains(x));
                let k = choose|k: int| 0 <= k < s.drop_last().len() && s.drop_last()[k] == x;
                assert(s[k] == x);
            } else {
                if i < r.len() - 1 {
                    assert(rd[i] == x);
                    assert(rd.contains(x));
                    let k = choose|k: int| 0 <= k < s.drop_last().len() && s.drop_last()[k] == x;
                    assert(s[k] == x);
                } else {
                    assert(x == s.last());
                    assert(s[s.len() - 1] == x);
                }
            }
        }
        assert forall|x: NodeId| s.contains(x) && x != c implies #[trigger] r.contains(x) by {
            let i = choose|i: int| 0 <= i < s.len() && s[i] == x;
            if i < s.len() - 1 {
                assert(s.drop_last()[i] == x);
                assert(s.drop_last().contains(x));
                assert(rd.contains(x));
                let j = choose|j: int| 0 <= j < rd.len() && rd[j] == x;
                if s.last() == c {
                } else {
                    assert(r[j] == x);
                }
            } else {
                assert(x == s.last());
                assert(s.last() != c);
                assert(r[r.len() - 1] == x);
            }
        }
    }
}

/// `remove_id` keeps elements pairwise distinct.
pub proof fn lemma_remove_id_distinct(s: Seq<NodeId>, c: NodeId)
    requires
        forall|j: int, k: int| 0 <= j < k < s.len() ==> s[j] != s[k],
    ensures
        forall|j: int, k: int|
            0 <= j < k < remove_id(s, c).len() ==> remove_id(s, c)[j] != remove_id(s, c)[k],
    decreases s.len(),
{
    if s.len() == 0 {
    } else {
        assert forall|j: int, k: int| 0 <= j < k < s.drop_last().len() implies s.drop_last()[j]
            != s.drop_last()[k] by {
            assert(s[j] != s[k]);
        }
        lemma_remove_id_distinct(s.drop_last(), c);
        lemma_remove_id_contains(s.drop_last(), c);
        let rd = remove_id(s.drop_last(), c);
        let r = remove_id(s, c);
        if s.last() == c {
        } else {
            assert(!s.drop_last().contains(s.last())) by {
                if s.drop_last().contains(s.last()) {
                    let j = choose|j: int|
                        0 <= j < s.drop_last().len() && s.drop_last()[j] == s.last();
                    assert(s[j] == s[s.len() - 1]);
                }
            }
            assert(!rd.contains(s.last()));
            assert forall|j: int, k: int| 0 <= j < k < r.len() implies r[j] != r[k] by {
                if k < r.len() - 1 {
                    assert(rd[j] != rd[k]);
                } else {
                    assert(r[k] == s.last());
                    assert(rd[j] == r[j]);
                    if rd[j] == s.last() {
                        assert(rd.contains(s.last()));
                    }
                }
            }
        }
    }
}

/// The record `n` with its parent link replaced.
pub open spec fn node_with_parent(n: NodeView, p: Option<NodeId>) -> NodeView {
    NodeView { parent: p, children: n.children, transform: n.transform }
}

/// The record `n` with its children list replaced.
pub open spec fn node_with_children(n: NodeView, ch: Seq<NodeId>) -> NodeView {
    NodeView { parent: n.parent, children: ch, transform: n.transform }
}

/// The arena after detaching `c` from its parent: `c` is removed from the
/// old parent's children and becomes a root.  A root is left unchanged.
pub open spec fn detached(m: Map<NodeId, NodeView>, c: NodeId) -> Map<NodeId, NodeView> {
    match m[c].parent {
        None => m,
        Some(q) => m.insert(q, node_with_children(m[q], remove_id(m[q].children, c))).insert(
            c,
            node_with_parent(m[c], None),
        ),
    }
}

/// The arena after attaching the root `c` under `p`: `c` is appended to
/// `p`'s children and its parent link is set.
pub open spec fn attached(m: Map<NodeId, NodeView>, c: NodeId, p: NodeId) -> Map<NodeId, NodeView> {
    m.insert(p, node_with_children(m[p], m[p].children.push(c))).insert(
        c,
        node_with_parent(m[c], Some(p)),
    )
}

/// The arena after re-parenting `c` under `p`: detach, then attach.
pub open spec fn linked(m: Map<NodeId, NodeView>, c: NodeId, p: NodeId) -> Map<NodeId, NodeView> {
    attached(detached(m, c), c, p)
}

/// A rooted node is not its own parent.
pub proof fn lemma_parent_not_self(m: Map<NodeId, NodeView>, c: NodeId)
    requires
        m.dom().contains(c),
        rooted(m, c),
    ensures
        m[c].parent != Some(c),
{
    if m[c].parent == Some(c) {
        lemma_chain_step(m, c, c);
        assert(chain(m, c).len() == 1 + chain(m, c).len());
    }
}

/// A chain that avoids `c` survives any relinking of `c`.
pub proof fn lemma_chain_avoid(
    m1: Map<NodeId, NodeView>,
    m2: Map<NodeId, NodeView>,
    c: NodeId,
    x: NodeId,
)
    requires
        rooted(m1, x),
        !chain(m1, x).contains(c),
        forall|y: NodeId|
            m1.dom().contains(y) && y != c ==> m2.dom().contains(y) && m2[y].parent
                == m1[y].parent,
    ensures
        rooted(m2, x),
        chain(m2, x) == chain(m1, x),
{
    lemma_chain_exists(m1, x);
    let s = chain(m1, x);
    assert forall|i: int| 0 <= i < s.len() implies m2.dom().contains(#[trigger] s[i])
        && m2[s[i]].parent == m1[s[i]].parent by {
        if s[i] == c {
            assert(s.contains(c));
        }
    }
    assert(chain_links(m2, s)) by {
        assert forall|i: int| 0 <= i < s.len() - 1 implies m2[#[trigger] s[i]].parent == Some(
            s[i + 1],
        ) by {
            assert(m1[s[i]].parent == Some(s[i + 1]));
        }
        assert(m2[s[s.len() - 1]].parent is None) by {
            assert(m1[s[s.len() - 1]].parent is None);
        }
    }
    lemma_chain_is(m2, s, x);
}

/// If relinking `c` leaves it rooted, every node rooted before stays
/// rooted (only `c`'s parent link may differ between the two maps).
pub proof fn lemma_relink_rooted_one(
    m1: Map<NodeId, NodeView>,
    m2: Map<NodeId, NodeView>,
    c: NodeId,
    x: NodeId,
)
    requires
        m1.dom() == m2.dom(),
        forall|y: NodeId|
            m1.dom().contains(y) && y != c ==> m2[y].parent == m1[y].parent,
        rooted(m2, c),
        rooted(m1, x),
        m1.dom().contains(x),
    ensures
        rooted(m2, x),
    decreases chain(m1, x).len(),
{
    if x == c {
    } else {
        lemma_chain_exists(m1, x);
        let s = chain(m1, x);
        match m1[x].parent {
            None => {
                assert(m2[x].parent is None);
                assert(chain_links(m2, seq![x]));
                lemma_chain_is(m2, seq![x], x);
            },
            Some(q) => {
                assert(s.len() > 1) by {
                    if s.len() == 1 {
                        assert(m1[s[0]].parent is None);
                    }
                }
                assert(s[1] == q) by {
                    assert(m1[s[0]].parent == Some(s[1]));
                }
                lemma_chain_drop_first(m1, s);
                lemma_chain_is(m1, s.drop_first(), q);
                lemma_relink_rooted_one(m1, m2, c, q);
                lemma_chain_step(m2, x, q);
            },
        }
    }
}

/// An upward path never revisits a node: parent links are a function, so
/// a revisit would force the path to repeat forever instead of ending at
/// a root.
pub proof fn lemma_chain_no_dup(m: Map<NodeId, NodeView>, s: Seq<NodeId>)
    requires
        chain_links(m, s),
    ensures
        s.no_duplicates(),
    decreases s.len(),
{
    if s.len() > 1 {
        lemma_chain_drop_first(m, s);
        lemma_chain_no_dup(m, s.drop_first());
        assert forall|k: int| 1 <= k < s.len() implies #[trigger] s[k] != s[0] by {
            if s[k] == s[0] {
                assert(m[s[0]].parent == Some(s[1]));
                if k == s.len() - 1 {
                    assert(m[s[k]].parent is None);
                } else {
                    assert(m[s[k]].parent == Some(s[k + 1]));
                    assert(s[k + 1] == s[1]);
                    assert(s.drop_first()[0] == s.drop_first()[k]);
                    assert(s.drop_first().no_duplicates());
                }
            }
        }
        assert forall|i: int, j: int|
            0 <= i < s.len() && 0 <= j < s.len() && i != j implies s[i] != s[j] by {
            if i > 0 && j > 0 {
                assert(s.drop_first()[i - 1] == s[i]);
                assert(s.drop_first()[j - 1] == s[j]);
            }
        }
    }
}

/// In a finite arena an upward path is no longer than the arena itself.
pub proof fn lemma_chain_len_bound(m: Map<NodeId, NodeView>, s: Seq<NodeId>)
    requires
        chain_links(m, s),
        m.dom().finite(),
    ensures
        s.len() <= m.dom().len(),
{
    lemma_chain_no_dup(m, s);
    s.unique_seq_to_set();
    assert(s.to_set().subset_of(m.dom())) by {
        assert forall|x: NodeId| s.to_set().contains(x) implies m.dom().contains(x) by {
            let i = choose|i: int| 0 <= i < s.len() && s[i] == x;
            assert(m.dom().contains(s[i]));
        }
    }
    vstd::set_lib::lemma_len_subset(s.to_set(), m.dom());
}

/// The fuel with which the depth-first walk below `id` is evaluated: the
/// room left between `id`'s depth and the arena's size.
pub open spec fn dfs_fuel(m: Map<NodeId, NodeView>, id: NodeId) -> nat {
    (m.dom().len() + 1 - chain(m, id).len()) as nat
}

/// Depth-first pre-order walk below `id`, with explicit fuel: the node
/// itself, then the walks below its children, in children-list order.
pub open spec fn dfs_from(m: Map<NodeId, NodeView>, id: NodeId, fuel: nat) -> Seq<NodeId>
    decreases fuel, 0nat, 0nat,
{
    if fuel == 0 {
        Seq::empty()
    } else {
        seq![id] + dfs_children(m, m[id].children, (fuel - 1) as nat)
    }
}

/// Depth-first walks below each listed node, concatenated in order.
pub open spec fn dfs_children(m: Map<NodeId, NodeView>, ids: Seq<NodeId>, fuel: nat) -> Seq<NodeId>
    decreases fuel, 1nat, ids.len(),
{
    if ids.len() == 0 {
        Seq::empty()
    } else {
        dfs_from(m, ids[0], fuel) + dfs_children(m, ids.drop_first(), fuel)
    }
}

/// Depth-first pre-order walk of the subtree below `id`: the node itself,
/// then the subtrees of its children, in children-list order.
pub open spec fn dfs(m: Map<NodeId, NodeView>, id: NodeId) -> Seq<NodeId> {
    dfs_from(m, id, dfs_fuel(m, id))
}

/// The walks below a concatenation of lists concatenate.
pub proof fn lemma_dfs_children_concat(
    m: Map<NodeId, NodeView>,
    a: Seq<NodeId>,
    b: Seq<NodeId>,
    fuel: nat,
)
    ensures
        dfs_children(m, a + b, fuel) == dfs_children(m, a, fuel) + dfs_children(m, b, fuel),
    decreases a.len(),
{
    if a.len() == 0 {
        assert(a + b =~= b);
        assert(Seq::empty() + dfs_children(m, b, fuel) =~= dfs_children(m, b, fuel));
    } else {
        assert((a + b).drop_first() =~= a.drop_first() + b);
        assert((a + b)[0] == a[0]);
        lemma_dfs_children_concat(m, a.drop_first(), b, fuel);
        assert(dfs_from(m, a[0], fuel) + (dfs_children(m, a.drop_first(), fuel) + dfs_children(
            m,
            b,
            fuel,
        )) =~= (dfs_from(m, a[0], fuel) + dfs_children(m, a.drop_first(), fuel)) + dfs_children(
            m,
            b,
            fuel,
        ));
    }
}

/// A child sits one step deeper than its parent, so the walk below it
/// runs on one unit less fuel.
pub proof fn lemma_dfs_fuel_child(m: Map<NodeId, NodeView>, id: NodeId, c: NodeId)
    requires
        map_wf(m),
        m.dom().contains(id),
        m.dom().contains(c),
        m[c].parent == Some(id),
    ensures
        dfs_fuel(m, c) + 1 == dfs_fuel(m, id),
        dfs_fuel(m, c) >= 1,
{
    assert(node_ok(m, id));
    assert(node_ok(m, c));
    lemma_chain_step(m, c, id);
    lemma_chain_exists(m, c);
    lemma_chain_len_bound(m, chain(m, c));
}

/// Unfold one step of the depth-first walk at its canonical fuel.
pub proof fn lemma_dfs_step(m: Map<NodeId, NodeView>, id: NodeId)
    requires
        map_wf(m),
        m.dom().contains(id),
    ensures
        dfs_fuel(m, id) >= 1,
        dfs(m, id) == seq![id] + dfs_children(m, m[id].children, (dfs_fuel(m, id) - 1) as nat),
{
    assert(node_ok(m, id));
    lemma_chain_exists(m, id);
    lemma_chain_len_bound(m, chain(m, id));
}

/// Detaching a node keeps the arena well-formed; the node becomes a root
/// and no transform changes.
pub proof fn lemma_detached_wf(m: Map<NodeId, NodeView>, c: NodeId)
    requires
        map_wf(m),
        m.dom().contains(c),
    ensures
        map_wf(detached(m, c)),
        detached(m, c).dom() == m.dom(),
        detached(m, c)[c].parent is None,
        detached(m, c)[c].children == m[c].children,
        forall|x: NodeId| m.dom().contains(x) ==> detached(m, c)[x].transform == m[x].transform,
        forall|x: NodeId| m.dom().contains(x) && x != c ==> detached(m, c)[x].parent == m[x].parent,
{
    let m2 = detached(m, c);
    assert(node_ok(m, c));
    match m[c].parent {
        None => {
            assert(m2 == m);
        },
        Some(q) => {
            lemma_parent_not_self(m, c);
            assert(q != c);
            assert(node_ok(m, q));
            assert(m2.dom() =~= m.dom());
            let ch = m[q].children;
            let r = remove_id(ch, c);
            lemma_remove_id_contains(ch, c);
            lemma_remove_id_distinct(ch, c);
            lemma_chain_root(m2, c);
            assert forall|x: NodeId| m.dom().contains(x) implies rooted(m2, x) by {
                assert(node_ok(m, x));
                lemma_relink_rooted_one(m, m2, c, x);
            }
            assert forall|x: NodeId| m2.dom().contains(x) implies node_ok(m2, x) by {
                assert(node_ok(m, x));
                let n2 = m2[x];
                // children direction
                assert forall|j: int| 0 <= j < n2.children.len() implies m2.dom().contains(
                    #[trigger] n2.children[j],
                ) && m2[n2.children[j]].parent == Some(x) by {
                    if x == q {
                        let y = r[j];
                        assert(r.contains(y));
                        assert(ch.contains(y) && y != c);
                        let k = choose|k: int| 0 <= k < ch.len() && ch[k] == y;
                        assert(m.dom().contains(ch[k]) && m[ch[k]].parent == Some(q));
                    } else {
                        let y = n2.children[j];
                        assert(m[x].children[j] == y);
                        assert(m.dom().contains(y) && m[y].parent == Some(x));
                        if y == c {
                            assert(m[c].parent == Some(q));
                        }
                    }
                }
                // parent direction
                if x != c {
                    match m2[x].parent {
                        Some(rr) => {
                            assert(m[x].parent == Some(rr));
                            if rr == q {
                                assert(ch.contains(x));
                                assert(r.contains(x));
                            } else {
                                assert(m2[rr].children == m[rr].children);
                            }
                        },
                        None => {},
                    }
                }
            }
        },
    }
}

/// Attaching a root under `p` keeps the arena well-formed, provided the
/// caller does not close a cycle (`c` is not `p` nor an ancestor of `p`).
pub proof fn lemma_attached_wf(m: Map<NodeId, NodeView>, c: NodeId, p: NodeId)
    requires
        map_wf(m),
        m.dom().contains(c),
        m.dom().contains(p),
        m[c].parent is None,
        !chain(m, p).contains(c),
    ensures
        map_wf(attached(m, c, p)),
        attached(m, c, p).dom() == m.dom(),
        attached(m, c, p)[c].parent == Some(p),
        forall|x: NodeId| m.dom().contains(x) ==> attached(m, c, p)[x].transform == m[x].transform,
        chain(attached(m, c, p), p) == chain(m, p),
        rooted(attached(m, c, p), c),
        chain(attached(m, c, p), c) == seq![c] + chain(m, p),
{
    let m2 = attached(m, c, p);
    assert(node_ok(m, p));
    assert(node_ok(m, c));
    lemma_chain_exists(m, p);
    assert(chain(m, p).contains(p)) by {
        assert(chain(m, p)[0] == p);
    }
    assert(p != c);
    assert(m2.dom() =~= m.dom());
    let ch = m[p].children;
    assert(!ch.contains(c)) by {
        if ch.contains(c) {
            let j = choose|j: int| 0 <= j < ch.len() && ch[j] == c;
            assert(m[ch[j]].parent == Some(p));
        }
    }
    lemma_chain_avoid(m, m2, c, p);
    lemma_chain_step(m2, c, p);
    assert forall|x: NodeId| m.dom().contains(x) implies rooted(m2, x) by {
        assert(node_ok(m, x));
        lemma_relink_rooted_one(m, m2, c, x);
    }
    assert forall|x: NodeId| m2.dom().contains(x) implies node_ok(m2, x) by {
        assert(node_ok(m, x));
        let n2 = m2[x];
        // children direction
        assert forall|j: int| 0 <= j < n2.children.len() implies m2.dom().contains(
            #[trigger] n2.children[j],
        ) && m2[n2.children[j]].parent == Some(x) by {
            if x == p {
                if j < ch.len() {
                    let y = ch[j];
                    assert(m.dom().contains(y) && m[y].parent == Some(p));
                    assert(y != c);
                } else {
                    assert(n2.children[j] == c);
                }
            } else {
                let y = n2.children[j];
                assert(m[x].children[j] == y);
                assert(m.dom().contains(y) && m[y].parent == Some(x));
                assert(y != c) by {
                    if y == c {
                        assert(m[c].parent == Some(x));
                    }
                }
            }
        }
        // children pairwise distinct
        assert forall|j: int, k: int| 0 <= j < k < n2.children.len() implies n2.children[j]
            != n2.children[k] by {
            if x == p {
                if k < ch.len() {
                    assert(m[x].children[j] != m[x].children[k]);
                } else {
                    assert(n2.children[k] == c);
                    if ch[j] == c {
                        assert(ch.contains(c));
                    }
                }
            } else {
                assert(m[x].children[j] != m[x].children[k]);
            }
        }
        // parent direction
        match m2[x].parent {
            Some(rr) => {
                if x == c {
                    assert(rr == p);
                    assert(m2[p].children[ch.len() as int] == c);
                    assert(m2[p].children.contains(c));
                } else {
                    assert(m[x].parent == Some(rr));
                    assert(m[rr].children.contains(x));
                    if rr == p {
                        let j = choose|j: int| 0 <= j < ch.len() && ch[j] == x;
                        assert(m2[p].children[j] == x);
                        assert(m2[p].children.contains(x));
                    } else {
                        assert(m2[rr].children == m[rr].children);
                    }
                }
            },
            None => {},
        }
    }
}

/// Re-parenting `c` under `p` (detach, then attach) keeps the arena
/// well-formed; no transform changes, and `p` keeps its chain.
pub proof fn lemma_linked_wf(m: Map<NodeId, NodeView>, c: NodeId, p: NodeId)
    requires
        map_wf(m),
        m.dom().contains(c),
        m.dom().contains(p),
        !chain(m, p).contains(c),
    ensures
        map_wf(linked(m, c, p)),
        linked(m, c, p).dom() == m.dom(),
        linked(m, c, p)[c].parent == Some(p),
        forall|x: NodeId| m.dom().contains(x) ==> linked(m, c, p)[x].transform == m[x].transform,
        chain(linked(m, c, p), p) == chain(m, p),
        rooted(linked(m, c, p), c),
        chain(linked(m, c, p), c) == seq![c] + chain(m, p),
        !chain(linked(m, c, p), p).contains(c),
{
    let md = detached(m, c);
    lemma_detached_wf(m, c);
    assert(node_ok(m, p));
    lemma_chain_avoid(m, md, c, p);
    lemma_attached_wf(md, c, p);
}

/// Evaluating a path depends only on the transforms of its nodes: two
/// maps that agree there give the path the same world matrix, rotation,
/// scale, and inverse application.
pub proof fn lemma_chain_eval_agree(
    m1: Map<NodeId, NodeView>,
    m2: Map<NodeId, NodeView>,
    s: Seq<NodeId>,
    v: Vec3,
)
    requires
        forall|i: int| 0 <= i < s.len() ==> m2[#[trigger] s[i]].transform == m1[s[i]].transform,
    ensures
        chain_world(m2, s) == chain_world(m1, s),
        chain_rotation(m2, s) == chain_rotation(m1, s),
        chain_scale(m2, s) == chain_scale(m1, s),
        inv_chain(m2, s, v) == inv_chain(m1, s, v),
        chain_scales_nonzero(m2, s) == chain_scales_nonzero(m1, s),
    decreases s.len(),
{
    if s.len() == 0 {
    } else {
        let dl = s.drop_last();
        assert forall|i: int| 0 <= i < dl.len() implies m2[#[trigger] dl[i]].transform
            == m1[dl[i]].transform by {
            assert(dl[i] == s[i]);
        }
        lemma_chain_eval_agree(m1, m2, dl, v);
        let df = s.drop_first();
        assert forall|i: int| 0 <= i < df.len() implies m2[#[trigger] df[i]].transform
            == m1[df[i]].transform by {
            assert(df[i] == s[i + 1]);
        }
        lemma_chain_eval_agree(m1, m2, df, v);
        assert(s.last() == s[s.len() - 1]);
        assert(s[0] == s[0]);
        assert(chain_scales_nonzero(m2, s) == chain_scales_nonzero(m1, s)) by {
            if chain_scales_nonzero(m1, s) {
                assert forall|i: int| 0 <= i < s.len() implies (#[trigger] m2[s[i]].transform.scale).x
                    != 0 && m2[s[i]].transform.scale.y != 0 && m2[s[i]].transform.scale.z != 0 by {
                    assert(m1[s[i]].transform.scale.x != 0);
                }
            }
            if chain_scales_nonzero(m2, s) {
                assert forall|i: int| 0 <= i < s.len() implies (#[trigger] m1[s[i]].transform.scale).x
                    != 0 && m1[s[i]].transform.scale.y != 0 && m1[s[i]].transform.scale.z != 0 by {
                    assert(m2[s[i]].transform.scale.x != 0);
                }
            }
        }
    }
}

} // verus!
