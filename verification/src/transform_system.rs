//! The transform arena: owns every node, hands out integer ids, maintains
//! the parent/child links, and derives local and world-space quantities.
//!
//! Ids start at 1, are never reused, and are only meaningful against the
//! arena that issued them.  The parent/child graph is a forest; `set_parent`
//! requires that the caller does not close a cycle.

use vstd::prelude::*;

verus! {

use crate::hierarchy::{
    chain,
    chain_links,
    chain_scales_nonzero,
    derived_local_position,
    derived_local_rotation,
    derived_local_scale,
    detached,
    fresh_node,
    inv_chain,
    linked,
    lemma_chain_exists,
    lemma_wf_insert_fresh,
    lemma_wf_with_transform,
    lemma_linked_wf,
    map_wf,
    node_ok,
    node_with_children,
    node_with_parent,
    remove_id,
    parent_chain_scales_nonzero,
    parent_world_scale_nonzero,
    with_transform,
    world_mat,
    world_pos,
    world_rot,
    world_scale,
    NodeView,
};
pub use crate::hierarchy::NodeId;
use crate::math::{model_mat_of, model_matrix_exec, Mat4, Transform, Vec3};

/// One node of the hierarchy: its parent link, its children in insertion
/// order, and its local transform.
#[derive(Debug)]
pub struct TransformNode {
    parent: Option<NodeId>,
    children: Vec<NodeId>,
    transform: Transform,
}

impl View for TransformNode {
    type V = NodeView;

    closed spec fn view(&self) -> NodeView {
        NodeView { parent: self.parent, children: self.children@, transform: self.transform }
    }
}

/// The arena.  Node `id` lives at index `id - 1`; ids are dense, so the
/// issued ids are exactly `1 ..= node_count()`.
pub struct TransformSystem {
    nodes: Vec<TransformNode>,
}

impl View for TransformSystem {
    type V = Map<NodeId, NodeView>;

    closed spec fn view(&self) -> Map<NodeId, NodeView> {
        Map::new(
            |id: NodeId| 1 <= id <= self.nodes@.len(),
            |id: NodeId| self.nodes@[id as int - 1]@,
        )
    }
}

impl TransformSystem {
    /// How many nodes have been issued.
    pub closed spec fn node_count(&self) -> nat {
        self.nodes@.len()
    }

    /// The arena is well-formed: its parent/child graph is a forest.
    pub open spec fn wf(&self) -> bool {
        map_wf(self@)
    }

    /// An empty arena.
    pub fn new() -> (s: TransformSystem)
        ensures
            s.wf(),
            s.node_count() == 0,
            s@ =~= Map::<NodeId, NodeView>::empty(),
    {
        let s = TransformSystem { nodes: Vec::new() };
        proof {
            assert(s@ =~= Map::<NodeId, NodeView>::empty());
        }
        s
    }

    /// Borrow the node record of an issued id.
    fn node(&self, id: NodeId) -> (n: &TransformNode)
        requires
            self@.dom().contains(id),
        ensures
            n@ == self@[id],
    {
        proof {
            vstd::std_specs::vec::axiom_spec_len(&self.nodes);
            assert(1 <= id <= self.nodes@.len());
        }
        let idx = (id - 1) as usize;
        &self.nodes[idx]
    }

    /// The ids issued so far, in increasing order.
    pub fn keys(&self) -> (r: Vec<NodeId>)
        ensures
            r@.len() == self.node_count(),
            forall|i: int| 0 <= i < r@.len() ==> r@[i] == i + 1,
            forall|id: NodeId| self@.dom().contains(id) <==> r@.contains(id),
    {
        let n = self.nodes.len();
        let mut r: Vec<NodeId> = Vec::new();
        let mut i: usize = 0;
        while i < n
            invariant
                i <= n,
                n == self.node_count(),
                r@.len() == i,
                forall|j: int| 0 <= j < i ==> r@[j] == j + 1,
            decreases n - i,
        {
            r.push((i as u64) + 1);
            i = i + 1;
        }
        proof {
            assert forall|id: NodeId| self@.dom().contains(id) <==> r@.contains(id) by {
                if 1 <= id <= self.node_count() {
                    assert(r@[id as int - 1] == id);
                }
            }
        }
        r
    }

    /// Allocate a fresh node: the next integer id, default transform, no
    /// parent, no children.
    pub fn new_transform(&mut self) -> (id: NodeId)
        requires
            old(self).wf(),
            old(self).node_count() < usize::MAX,
        ensures
            final(self).wf(),
            id == old(self).node_count() + 1,
            !old(self)@.dom().contains(id),
            final(self)@ =~= old(self)@.insert(id, fresh_node()),
            final(self).node_count() == old(self).node_count() + 1,
    {
        let node = TransformNode {
            parent: None,
            children: Vec::new(),
            transform: Transform::new(),
        };
        self.nodes.push(node);
        let id = self.nodes.len() as u64;
        proof {
            assert(self@ =~= old(self)@.insert(id, fresh_node())) by {
                assert forall|x: NodeId| self@.dom().contains(x) implies self@[x] == old(
                    self,
                )@.insert(id, fresh_node())[x] by {
                    if x != id {
                        assert(self.nodes@[x as int - 1] == old(self).nodes@[x as int - 1]);
                    }
                }
                assert(self@.dom() =~= old(self)@.insert(id, fresh_node()).dom());
            }
            lemma_wf_insert_fresh(old(self)@, id);
        }
        id
    }

    /// The local transform of a node.
    pub fn get_transform(&self, id: NodeId) -> (t: &Transform)
        requires
            self@.dom().contains(id),
        ensures
            *t == self@[id].transform,
    {
        &self.node(id).transform
    }

    /// Mutable access to the local transform of a node.  Only the
    /// transform is reachable through the result, so the arena's links
    /// stay well-formed whatever the caller writes;
    /// `lemma_wf_with_transform` rebuilds `wf` of the resulting view.
    pub fn get_transform_mut(&mut self, key: NodeId) -> (t: &mut Transform)
        requires
            old(self)@.dom().contains(key),
        ensures
            *t == old(self)@[key].transform,
            final(self)@ =~= with_transform(old(self)@, key, *final(t)),
    {
        proof {
            vstd::std_specs::vec::axiom_spec_len(&self.nodes);
            assert(1 <= key <= self.nodes@.len());
        }
        let idx = (key - 1) as usize;
        &mut self.nodes[idx].transform
    }

    /// Overwrite the local transform of a node.
    pub fn set_transform(&mut self, id: NodeId, t: Transform)
        requires
            old(self).wf(),
            old(self)@.dom().contains(id),
        ensures
            final(self).wf(),
            final(self)@ =~= with_transform(old(self)@, id, t),
            final(self).node_count() == old(self).node_count(),
    {
        proof {
            vstd::std_specs::vec::axiom_spec_len(&self.nodes);
            assert(1 <= id <= self.nodes@.len());
        }
        let idx = (id - 1) as usize;
        self.nodes[idx].transform = t;
        proof {
            assert(self@ =~= with_transform(old(self)@, id, t)) by {
                assert forall|x: NodeId| self@.dom().contains(x) implies self@[x] == with_transform(
                    old(self)@,
                    id,
                    t,
                )[x] by {
                    if x != id {
                        assert(self.nodes@[x as int - 1] == old(self).nodes@[x as int - 1]);
                    }
                }
                assert(self@.dom() =~= with_transform(old(self)@, id, t).dom());
            }
            lemma_wf_with_transform(old(self)@, id, t);
        }
    }

    /// The local position of a node.
    pub fn get_position(&self, id: NodeId) -> (v: Vec3)
        requires
            self@.dom().contains(id),
        ensures
            v == self@[id].transform.position,
    {
        self.node(id).transform.position
    }

    /// The local rotation of a node, in quarter turns about x, y and z.
    pub fn get_rotation(&self, id: NodeId) -> (v: Vec3)
        requires
            self@.dom().contains(id),
        ensures
            v == self@[id].transform.rotation,
    {
        self.node(id).transform.rotation
    }

    /// The local scale of a node.
    pub fn get_scale(&self, id: NodeId) -> (v: Vec3)
        requires
            self@.dom().contains(id),
        ensures
            v == self@[id].transform.scale,
    {
        self.node(id).transform.scale
    }

    /// Overwrite the local position of a node.
    pub fn set_position(&mut self, id: NodeId, v: Vec3)
        requires
            old(self).wf(),
            old(self)@.dom().contains(id),
        ensures
            final(self).wf(),
            final(self)@ =~= with_transform(
                old(self)@,
                id,
                Transform {
                    position: v,
                    rotation: old(self)@[id].transform.rotation,
                    scale: old(self)@[id].transform.scale,
                },
            ),
            final(self)@[id].transform.position == v,
    {
        let t = *self.get_transform(id);
        self.set_transform(id, Transform { position: v, rotation: t.rotation, scale: t.scale });
    }

    /// Overwrite the local rotation of a node.
    pub fn set_rotation(&mut self, id: NodeId, v: Vec3)
        requires
            old(self).wf(),
            old(self)@.dom().contains(id),
        ensures
            final(self).wf(),
            final(self)@ =~= with_transform(
                old(self)@,
                id,
                Transform {
                    position: old(self)@[id].transform.position,
                    rotation: v,
                    scale: old(self)@[id].transform.scale,
                },
            ),
            final(self)@[id].transform.rotation == v,
    {
        let t = *self.get_transform(id);
        self.set_transform(id, Transform { position: t.position, rotation: v, scale: t.scale });
    }

    /// Overwrite the local scale of a node.
    pub fn set_scale(&mut self, id: NodeId, v: Vec3)
        requires
            old(self).wf(),
            old(self)@.dom().contains(id),
        ensures
            final(self).wf(),
            final(self)@ =~= with_transform(
                old(self)@,
                id,
                Transform {
                    position: old(self)@[id].transform.position,
                    rotation: old(self)@[id].transform.rotation,
                    scale: v,
                },
            ),
            final(self)@[id].transform.scale == v,
    {
        let t = *self.get_transform(id);
        self.set_transform(id, Transform { position: t.position, rotation: t.rotation, scale: v });
    }

    /// The node's world matrix: ancestor model matrices composed from the
    /// root down to the node (`model(root) * ... * model(id)`).
    pub fn get_world_matrix(&self, id: NodeId) -> (r: Mat4)
        requires
            self.wf(),
            self@.dom().contains(id),
        ensures
            r == world_mat(self@, id),
    {
        let ghost m = self@;
        let ghost s = chain(m, id);
        proof {
            assert(node_ok(m, id));
            lemma_chain_exists(m, id);
        }
        let mut cur: NodeId = id;
        let mut acc: Mat4 = self.get_model_matrix(id);
        let mut parent_opt: Option<NodeId> = self.node(id).parent;
        let ghost mut i: int = 0;
        proof {
            assert(s.subrange(0, 1) =~= seq![id]);
            crate::hierarchy::lemma_chain_world_single(m, id);
        }
        while parent_opt.is_some()
            invariant
                self.wf(),
                m == self@,
                chain_links(m, s),
                s[0] == id,
                0 <= i < s.len(),
                cur == s[i],
                parent_opt == m[s[i]].parent,
                acc == crate::hierarchy::chain_world(m, s.subrange(0, i + 1)),
            decreases s.len() - i,
        {
            let p = parent_opt.unwrap();
            proof {
                assert(i < s.len() - 1);
                assert(s[i + 1] == p);
                assert(m.dom().contains(p));
            }
            let pm = self.get_model_matrix(p);
            acc = pm.times(&acc);
            cur = p;
            parent_opt = self.node(cur).parent;
            proof {
                i = i + 1;
                assert(s.subrange(0, i + 1).last() == s[i]);
                assert(s.subrange(0, i + 1).drop_last() =~= s.subrange(0, i));
            }
        }
        proof {
            assert(i == s.len() - 1);
            assert(s.subrange(0, i + 1) =~= s);
        }
        acc
    }

    /// The node's world position: its world matrix applied to the origin.
    pub fn get_world_position(&self, id: NodeId) -> (r: Vec3)
        requires
            self.wf(),
            self@.dom().contains(id),
        ensures
            r == world_pos(self@, id),
    {
        let w = self.get_world_matrix(id);
        w.transform_point(Vec3::zero())
    }

    /// The node's world rotation: the component-wise sum of its own and
    /// its ancestors' local Euler rotations.  This is an approximation of
    /// true rotation composition, kept by design.
    pub fn get_world_rotation(&self, id: NodeId) -> (r: Vec3)
        requires
            self.wf(),
            self@.dom().contains(id),
        ensures
            r == world_rot(self@, id),
    {
        let ghost m = self@;
        let ghost s = chain(m, id);
        proof {
            assert(node_ok(m, id));
            lemma_chain_exists(m, id);
        }
        let mut acc: Vec3 = self.get_rotation(id);
        let mut parent_opt: Option<NodeId> = self.node(id).parent;
        let ghost mut i: int = 0;
        proof {
            assert(s.subrange(0, 1) =~= seq![id]);
            assert(s.subrange(0, 1).drop_last() =~= Seq::<NodeId>::empty());
            assert(crate::hierarchy::chain_rotation(m, s.subrange(0, 1).drop_last())
                == crate::math::vec3_zero());
            assert(crate::hierarchy::chain_rotation(m, s.subrange(0, 1)) == crate::math::vadd(
                m[id].transform.rotation,
                crate::math::vec3_zero(),
            ));
            crate::math::lemma_vadd_zero(m[id].transform.rotation);
        }
        while parent_opt.is_some()
            invariant
                self.wf(),
                m == self@,
                chain_links(m, s),
                s[0] == id,
                0 <= i < s.len(),
                parent_opt == m[s[i]].parent,
                acc == crate::hierarchy::chain_rotation(m, s.subrange(0, i + 1)),
            decreases s.len() - i,
        {
            let p = parent_opt.unwrap();
            proof {
                assert(i < s.len() - 1);
                assert(s[i + 1] == p);
                assert(m.dom().contains(p));
            }
            let pr = self.get_rotation(p);
            acc = crate::math::vec_add(pr, acc);
            parent_opt = self.node(p).parent;
            proof {
                i = i + 1;
                assert(s.subrange(0, i + 1).last() == s[i]);
                assert(s.subrange(0, i + 1).drop_last() =~= s.subrange(0, i));
            }
        }
        proof {
            assert(i == s.len() - 1);
            assert(s.subrange(0, i + 1) =~= s);
        }
        acc
    }

    /// The node's world scale: the component-wise product of its own and
    /// its ancestors' local scales.  This is an approximation of true
    /// scale composition, kept by design.
    pub fn get_world_scale(&self, id: NodeId) -> (r: Vec3)
        requires
            self.wf(),
            self@.dom().contains(id),
        ensures
            r == world_scale(self@, id),
    {
        let ghost m = self@;
        let ghost s = chain(m, id);
        proof {
            assert(node_ok(m, id));
            lemma_chain_exists(m, id);
        }
        let mut acc: Vec3 = self.get_scale(id);
        let mut parent_opt: Option<NodeId> = self.node(id).parent;
        let ghost mut i: int = 0;
        proof {
            assert(s.subrange(0, 1) =~= seq![id]);
            assert(s.subrange(0, 1).drop_last() =~= Seq::<NodeId>::empty());
            assert(crate::hierarchy::chain_scale(m, s.subrange(0, 1).drop_last())
                == crate::math::vec3_ones());
            assert(crate::hierarchy::chain_scale(m, s.subrange(0, 1)) == crate::math::vmul(
                m[id].transform.scale,
                crate::math::vec3_ones(),
            ));
            crate::math::lemma_vmul_ones(m[id].transform.scale);
        }
        while parent_opt.is_some()
            invariant
                self.wf(),
                m == self@,
                chain_links(m, s),
                s[0] == id,
                0 <= i < s.len(),
                parent_opt == m[s[i]].parent,
                acc == crate::hierarchy::chain_scale(m, s.subrange(0, i + 1)),
            decreases s.len() - i,
        {
            let p = parent_opt.unwrap();
            proof {
                assert(i < s.len() - 1);
                assert(s[i + 1] == p);
                assert(m.dom().contains(p));
            }
            let ps = self.get_scale(p);
            acc = crate::math::vec_mul(ps, acc);
            parent_opt = self.node(p).parent;
            proof {
                i = i + 1;
                assert(s.subrange(0, i + 1).last() == s[i]);
                assert(s.subrange(0, i + 1).drop_last() =~= s.subrange(0, i));
            }
        }
        proof {
            assert(i == s.len() - 1);
            assert(s.subrange(0, i + 1) =~= s);
        }
        acc
    }

    /// Collect the upward path from `start` to its root.
    fn collect_chain(&self, start: NodeId) -> (r: Vec<NodeId>)
        requires
            self.wf(),
            self@.dom().contains(start),
        ensures
            r@ == chain(self@, start),
    {
        let ghost m = self@;
        let ghost s = chain(m, start);
        proof {
            assert(node_ok(m, start));
            lemma_chain_exists(m, start);
        }
        let mut r: Vec<NodeId> = Vec::new();
        r.push(start);
        let mut parent_opt: Option<NodeId> = self.node(start).parent;
        let ghost mut i: int = 0;
        proof {
            assert(r@ =~= s.subrange(0, 1));
        }
        while parent_opt.is_some()
            invariant
                self.wf(),
                m == self@,
                chain_links(m, s),
                s[0] == start,
                0 <= i < s.len(),
                parent_opt == m[s[i]].parent,
                r@ == s.subrange(0, i + 1),
            decreases s.len() - i,
        {
            let p = parent_opt.unwrap();
            proof {
                assert(i < s.len() - 1);
                assert(s[i + 1] == p);
                assert(m.dom().contains(p));
            }
            r.push(p);
            parent_opt = self.node(p).parent;
            proof {
                i = i + 1;
                assert(r@ =~= s.subrange(0, i + 1));
            }
        }
        proof {
            assert(i == s.len() - 1);
            assert(s.subrange(0, i + 1) =~= s);
        }
        r
    }

    /// Give the node the world position `world_position`: store as its
    /// local position the inverses of its parent's ancestor chain applied
    /// to `world_position` (for a root, `world_position` itself).  Every
    /// scale on that chain must be nonzero.
    pub fn set_world_position(&mut self, id: NodeId, world_position: &Vec3)
        requires
            old(self).wf(),
            old(self)@.dom().contains(id),
            parent_chain_scales_nonzero(old(self)@, id),
        ensures
            final(self).wf(),
            final(self)@ =~= with_transform(
                old(self)@,
                id,
                Transform {
                    position: derived_local_position(old(self)@, id, *world_position),
                    rotation: old(self)@[id].transform.rotation,
                    scale: old(self)@[id].transform.scale,
                },
            ),
    {
        let parent_opt = self.node(id).parent;
        match parent_opt {
            None => {
                self.set_position(id, *world_position);
            },
            Some(p) => {
                proof {
                    assert(node_ok(self@, id));
                }
                let ids = self.collect_chain(p);
                let ghost m = self@;
                let ghost cp = chain(m, p);
                let mut v: Vec3 = *world_position;
                let mut j: usize = ids.len();
                proof {
                    assert(m.dom().contains(p));
                    assert(node_ok(m, p));
                    lemma_chain_exists(m, p);
                    assert(cp.subrange(cp.len() as int, cp.len() as int)
                        =~= Seq::<NodeId>::empty());
                    assert(inv_chain(m, cp.subrange(cp.len() as int, cp.len() as int), *world_position)
                        == *world_position);
                }
                while j > 0
                    invariant
                        self.wf(),
                        m == self@,
                        chain_links(m, cp),
                        chain_scales_nonzero(m, cp),
                        ids@ == cp,
                        0 <= j <= cp.len(),
                        v == inv_chain(m, cp.subrange(j as int, cp.len() as int), *world_position),
                    decreases j,
                {
                    j = j - 1;
                    let t = *self.get_transform(ids[j]);
                    proof {
                        assert(m[cp[j as int]].transform.scale.x != 0);
                    }
                    v = crate::math::inverse_local_exec(&t, v);
                    proof {
                        let tail = cp.subrange(j as int, cp.len() as int);
                        assert(tail[0] == cp[j as int]);
                        assert(tail.drop_first() =~= cp.subrange(j + 1, cp.len() as int));
                    }
                }
                proof {
                    assert(cp.subrange(0, cp.len() as int) =~= cp);
                }
                self.set_position(id, v);
            },
        }
    }

    /// Give the node the world rotation `world_rotation`: store as its
    /// local rotation `world_rotation` minus the parent's world rotation
    /// (for a root, `world_rotation` itself).
    pub fn set_world_rotation(&mut self, id: NodeId, world_rotation: &Vec3)
        requires
            old(self).wf(),
            old(self)@.dom().contains(id),
        ensures
            final(self).wf(),
            final(self)@ =~= with_transform(
                old(self)@,
                id,
                Transform {
                    position: old(self)@[id].transform.position,
                    rotation: derived_local_rotation(old(self)@, id, *world_rotation),
                    scale: old(self)@[id].transform.scale,
                },
            ),
    {
        let parent_opt = self.node(id).parent;
        match parent_opt {
            None => {
                self.set_rotation(id, *world_rotation);
            },
            Some(p) => {
                proof {
                    assert(node_ok(self@, id));
                }
                let pr = self.get_world_rotation(p);
                let local = crate::math::vec_sub(*world_rotation, pr);
                self.set_rotation(id, local);
            },
        }
    }

    /// Give the node the world scale `world_scale_v`: store as its local
    /// scale `world_scale_v` divided by the parent's world scale,
    /// component-wise (for a root, `world_scale_v` itself).  The parent's
    /// world scale must have no zero component.
    pub fn set_world_scale(&mut self, id: NodeId, world_scale_v: &Vec3)
        requires
            old(self).wf(),
            old(self)@.dom().contains(id),
            parent_world_scale_nonzero(old(self)@, id),
        ensures
            final(self).wf(),
            final(self)@ =~= with_transform(
                old(self)@,
                id,
                Transform {
                    position: old(self)@[id].transform.position,
                    rotation: old(self)@[id].transform.rotation,
                    scale: derived_local_scale(old(self)@, id, *world_scale_v),
                },
            ),
    {
        let parent_opt = self.node(id).parent;
        match parent_opt {
            None => {
                self.set_scale(id, *world_scale_v);
            },
            Some(p) => {
                proof {
                    assert(node_ok(self@, id));
                }
                let ps = self.get_world_scale(p);
                let local = crate::math::vec_div(*world_scale_v, ps);
                self.set_scale(id, local);
            },
        }
    }

    /// Overwrite the parent link of a node, with no re-linking of
    /// children: internal plumbing for the public re-parenting operations,
    /// which re-establish well-formedness.
    fn set_parent_raw(&mut self, id: NodeId, p: Option<NodeId>)
        requires
            old(self)@.dom().contains(id),
        ensures
            final(self)@ =~= old(self)@.insert(id, node_with_parent(old(self)@[id], p)),
    {
        proof {
            vstd::std_specs::vec::axiom_spec_len(&self.nodes);
            assert(1 <= id <= self.nodes@.len());
        }
        let idx = (id - 1) as usize;
        self.nodes[idx].parent = p;
        proof {
            assert forall|x: NodeId| self@.dom().contains(x) implies self@[x] == old(self)@.insert(
                id,
                node_with_parent(old(self)@[id], p),
            )[x] by {
                if x != id {
                    assert(self.nodes@[x as int - 1] == old(self).nodes@[x as int - 1]);
                }
            }
            assert(self@.dom() =~= old(self)@.insert(id, node_with_parent(old(self)@[id], p)).dom());
        }
    }

    /// Overwrite the children list of a node: internal plumbing, as above.
    fn set_children_raw(&mut self, id: NodeId, ch: Vec<NodeId>)
        requires
            old(self)@.dom().contains(id),
        ensures
            final(self)@ =~= old(self)@.insert(id, node_with_children(old(self)@[id], ch@)),
    {
        proof {
            vstd::std_specs::vec::axiom_spec_len(&self.nodes);
            assert(1 <= id <= self.nodes@.len());
        }
        let idx = (id - 1) as usize;
        self.nodes[idx].children = ch;
        proof {
            assert forall|x: NodeId| self@.dom().contains(x) implies self@[x] == old(self)@.insert(
                id,
                node_with_children(old(self)@[id], ch@),
            )[x] by {
                if x != id {
                    assert(self.nodes@[x as int - 1] == old(self).nodes@[x as int - 1]);
                }
            }
            assert(self@.dom() =~= old(self)@.insert(
                id,
                node_with_children(old(self)@[id], ch@),
            ).dom());
        }
    }

    /// Append a child id to a node's children list: internal plumbing.
    fn push_child_raw(&mut self, id: NodeId, c: NodeId)
        requires
            old(self)@.dom().contains(id),
        ensures
            final(self)@ =~= old(self)@.insert(
                id,
                node_with_children(old(self)@[id], old(self)@[id].children.push(c)),
            ),
    {
        proof {
            vstd::std_specs::vec::axiom_spec_len(&self.nodes);
            assert(1 <= id <= self.nodes@.len());
        }
        let idx = (id - 1) as usize;
        self.nodes[idx].children.push(c);
        proof {
            assert forall|x: NodeId| self@.dom().contains(x) implies self@[x] == old(self)@.insert(
                id,
                node_with_children(old(self)@[id], old(self)@[id].children.push(c)),
            )[x] by {
                if x != id {
                    assert(self.nodes@[x as int - 1] == old(self).nodes@[x as int - 1]);
                }
            }
            assert(self@.dom() =~= old(self)@.insert(
                id,
                node_with_children(old(self)@[id], old(self)@[id].children.push(c)),
            ).dom());
        }
    }

    /// Remove every occurrence of `c` from `q`'s children list: internal
    /// plumbing.
    fn remove_child_raw(&mut self, q: NodeId, c: NodeId)
        requires
            old(self)@.dom().contains(q),
        ensures
            final(self)@ =~= old(self)@.insert(
                q,
                node_with_children(old(self)@[q], remove_id(old(self)@[q].children, c)),
            ),
    {
        let ghost ch = self@[q].children;
        let n = self.node(q).children.len();
        let mut out: Vec<NodeId> = Vec::new();
        let mut i: usize = 0;
        proof {
            assert(ch.subrange(0, 0) =~= Seq::<NodeId>::empty());
        }
        while i < n
            invariant
                self@.dom().contains(q),
                ch == self@[q].children,
                i <= n,
                n == ch.len(),
                out@ == remove_id(ch.subrange(0, i as int), c),
            decreases n - i,
        {
            let kid = self.node(q).children[i];
            if kid != c {
                out.push(kid);
            }
            proof {
                let pref = ch.subrange(0, i + 1);
                assert(pref.last() == ch[i as int]);
                assert(pref.drop_last() =~= ch.subrange(0, i as int));
            }
            i = i + 1;
        }
        proof {
            assert(ch.subrange(0, n as int) =~= ch);
        }
        self.set_children_raw(q, out);
    }

    /// Detach a node from its parent (a no-op for a root), restoring
    /// well-formedness.
    fn detach_only(&mut self, id: NodeId)
        requires
            old(self).wf(),
            old(self)@.dom().contains(id),
        ensures
            final(self).wf(),
            final(self)@ =~= detached(old(self)@, id),
    {
        let q_opt = self.node(id).parent;
        match q_opt {
            Some(q) => {
                proof {
                    assert(node_ok(self@, id));
                    crate::hierarchy::lemma_parent_not_self(self@, id);
                    assert(q != id);
                }
                self.remove_child_raw(q, id);
                self.set_parent_raw(id, None);
                proof {
                    assert(self@ =~= detached(old(self)@, id));
                    crate::hierarchy::lemma_detached_wf(old(self)@, id);
                }
            },
            None => {
                proof {
                    assert(self@ =~= detached(old(self)@, id));
                }
            },
        }
    }

    /// Detach a node and re-attach it under `parent`, restoring
    /// well-formedness.  The caller must not close a cycle.
    fn relink(&mut self, id: NodeId, parent: NodeId)
        requires
            old(self).wf(),
            old(self)@.dom().contains(id),
            old(self)@.dom().contains(parent),
            !chain(old(self)@, parent).contains(id),
        ensures
            final(self).wf(),
            final(self)@ =~= linked(old(self)@, id, parent),
    {
        proof {
            assert(node_ok(self@, parent));
            lemma_chain_exists(self@, parent);
            assert(chain(self@, parent)[0] == parent);
            assert(chain(self@, parent).contains(parent));
            assert(parent != id);
        }
        self.detach_only(id);
        let ghost md = self@;
        self.push_child_raw(parent, id);
        self.set_parent_raw(id, Some(parent));
        proof {
            assert(self@ =~= crate::hierarchy::attached(md, id, parent));
            lemma_linked_wf(old(self)@, id, parent);
            assert(self@ =~= linked(old(self)@, id, parent));
        }
    }

    /// Re-parent `id` under `parent`: detach it from its old parent (if
    /// any), append it to `parent`'s children, and set its parent link.
    /// With `keep_world_transform`, the node's world position, rotation
    /// and scale are snapshotted first and written back afterwards as
    /// local values derived against the new parent, so the node keeps its
    /// world-space pose (exactly, up to the scale divisions).
    ///
    /// The caller must not close a cycle: `id` may be neither `parent`
    /// itself nor one of `parent`'s ancestors.  With
    /// `keep_world_transform`, the scales on the new parent's chain and
    /// the parent's world scale must be nonzero (the divisions that
    /// re-derive the local transform are otherwise undefined).
    pub fn set_parent(&mut self, id: NodeId, parent: NodeId, keep_world_transform: bool)
        requires
            old(self).wf(),
            old(self)@.dom().contains(id),
            old(self)@.dom().contains(parent),
            !chain(old(self)@, parent).contains(id),
            keep_world_transform ==> chain_scales_nonzero(old(self)@, chain(old(self)@, parent)),
            keep_world_transform ==> world_scale(old(self)@, parent).x != 0 && world_scale(
                old(self)@,
                parent,
            ).y != 0 && world_scale(old(self)@, parent).z != 0,
        ensures
            final(self).wf(),
            final(self)@.dom() == old(self)@.dom(),
            final(self)@[id].parent == Some(parent),
            !keep_world_transform ==> final(self)@ =~= linked(old(self)@, id, parent),
            keep_world_transform ==> final(self)@ =~= with_transform(
                linked(old(self)@, id, parent),
                id,
                Transform {
                    position: derived_local_position(
                        linked(old(self)@, id, parent),
                        id,
                        world_pos(old(self)@, id),
                    ),
                    rotation: derived_local_rotation(
                        linked(old(self)@, id, parent),
                        id,
                        world_rot(old(self)@, id),
                    ),
                    scale: derived_local_scale(
                        linked(old(self)@, id, parent),
                        id,
                        world_scale(old(self)@, id),
                    ),
                },
            ),
    {
        if keep_world_transform {
            let wp = self.get_world_position(id);
            let wr = self.get_world_rotation(id);
            let ws = self.get_world_scale(id);
            self.relink(id, parent);
            let ghost m0 = old(self)@;
            let ghost ml = self@;
            let ghost cp = chain(m0, parent);
            proof {
                lemma_linked_wf(m0, id, parent);
                assert(ml == linked(m0, id, parent));
                assert(chain(ml, parent) == cp);
                assert(node_ok(m0, parent));
                lemma_chain_exists(m0, parent);
                assert forall|i: int| 0 <= i < cp.len() implies ml[#[trigger] cp[i]].transform
                    == m0[cp[i]].transform by {
                    assert(m0.dom().contains(cp[i]));
                }
                crate::hierarchy::lemma_chain_eval_agree(m0, ml, cp, wp);
                assert(chain_scales_nonzero(ml, chain(ml, parent)));
                assert(parent_chain_scales_nonzero(ml, id));
            }
            self.set_world_position(id, &wp);
            let ghost m1 = self@;
            proof {
                assert(m1 == with_transform(
                    ml,
                    id,
                    Transform {
                        position: derived_local_position(ml, id, wp),
                        rotation: ml[id].transform.rotation,
                        scale: ml[id].transform.scale,
                    },
                ));
                assert(m1[id].parent == Some(parent));
                // the parent's chain and its evaluation are unchanged
                lemma_wf_with_transform(
                    ml,
                    id,
                    Transform {
                        position: derived_local_position(ml, id, wp),
                        rotation: ml[id].transform.rotation,
                        scale: ml[id].transform.scale,
                    },
                );
                assert(chain(m1, parent) == cp);
                assert(!cp.contains(id));
                assert forall|i: int| 0 <= i < cp.len() implies m1[#[trigger] cp[i]].transform
                    == ml[cp[i]].transform by {
                    assert(cp[i] != id);
                }
                crate::hierarchy::lemma_chain_eval_agree(ml, m1, cp, wp);
                assert(world_rot(m1, parent) == world_rot(ml, parent));
                assert(derived_local_rotation(m1, id, wr) == derived_local_rotation(ml, id, wr));
            }
            self.set_world_rotation(id, &wr);
            let ghost m2 = self@;
            proof {
                assert(m2 == with_transform(
                    m1,
                    id,
                    Transform {
                        position: m1[id].transform.position,
                        rotation: derived_local_rotation(m1, id, wr),
                        scale: m1[id].transform.scale,
                    },
                ));
                assert(m2[id].parent == Some(parent));
                lemma_wf_with_transform(
                    m1,
                    id,
                    Transform {
                        position: m1[id].transform.position,
                        rotation: derived_local_rotation(m1, id, wr),
                        scale: m1[id].transform.scale,
                    },
                );
                assert(chain(m2, parent) == cp);
                assert forall|i: int| 0 <= i < cp.len() implies m2[#[trigger] cp[i]].transform
                    == ml[cp[i]].transform by {
                    assert(cp[i] != id);
                }
                crate::hierarchy::lemma_chain_eval_agree(ml, m2, cp, wp);
                assert(world_scale(m2, parent) == world_scale(ml, parent));
                assert(parent_world_scale_nonzero(m2, id));
                assert(derived_local_scale(m2, id, ws) == derived_local_scale(ml, id, ws));
            }
            self.set_world_scale(id, &ws);
            proof {
                assert(self@ =~= with_transform(
                    ml,
                    id,
                    Transform {
                        position: derived_local_position(ml, id, wp),
                        rotation: derived_local_rotation(ml, id, wr),
                        scale: derived_local_scale(ml, id, ws),
                    },
                ));
                assert(self@.dom() =~= old(self)@.dom());
            }
        } else {
            self.relink(id, parent);
            proof {
                lemma_linked_wf(old(self)@, id, parent);
                assert(self@.dom() =~= old(self)@.dom());
            }
        }
    }

    /// Detach `id` from its parent, removing it from the old parent's
    /// children list; the node becomes a root.  With
    /// `keep_world_transform`, the node's world position, rotation and
    /// scale are snapshotted first and written back as its local values
    /// (a root's local transform is its world transform), so it keeps its
    /// world-space pose exactly.
    pub fn clear_parent(&mut self, id: NodeId, keep_world_transform: bool)
        requires
            old(self).wf(),
            old(self)@.dom().contains(id),
        ensures
            final(self).wf(),
            final(self)@.dom() == old(self)@.dom(),
            final(self)@[id].parent is None,
            !keep_world_transform ==> final(self)@ =~= detached(old(self)@, id),
            keep_world_transform ==> final(self)@ =~= with_transform(
                detached(old(self)@, id),
                id,
                Transform {
                    position: world_pos(old(self)@, id),
                    rotation: world_rot(old(self)@, id),
                    scale: world_scale(old(self)@, id),
                },
            ),
    {
        if keep_world_transform {
            let wp = self.get_world_position(id);
            let wr = self.get_world_rotation(id);
            let ws = self.get_world_scale(id);
            self.detach_only(id);
            let ghost m0 = old(self)@;
            let ghost md = self@;
            proof {
                crate::hierarchy::lemma_detached_wf(m0, id);
                assert(md == detached(m0, id));
                assert(md[id].parent is None);
                assert(parent_chain_scales_nonzero(md, id));
            }
            self.set_world_position(id, &wp);
            let ghost m1 = self@;
            proof {
                assert(m1[id].parent is None);
                assert(derived_local_position(md, id, wp) == wp);
            }
            self.set_world_rotation(id, &wr);
            let ghost m2 = self@;
            proof {
                assert(m2[id].parent is None);
                assert(derived_local_rotation(m1, id, wr) == wr);
                assert(parent_world_scale_nonzero(m2, id));
            }
            self.set_world_scale(id, &ws);
            proof {
                assert(derived_local_scale(m2, id, ws) == ws);
                assert(self@ =~= with_transform(
                    md,
                    id,
                    Transform { position: wp, rotation: wr, scale: ws },
                ));
            }
        } else {
            self.detach_only(id);
            proof {
                crate::hierarchy::lemma_detached_wf(old(self)@, id);
            }
        }
    }

    /// The subtree below `id` in depth-first pre-order: `id` first, then
    /// each child's subtree in children-list order.  Callers that need a
    /// node together with its parent look both up by id from this list.
    pub fn descend_children(&self, id: NodeId) -> (r: Vec<NodeId>)
        requires
            self.wf(),
            self@.dom().contains(id),
        ensures
            r@ == crate::hierarchy::dfs(self@, id),
        decreases crate::hierarchy::dfs_fuel(self@, id),
    {
        let ghost m = self@;
        proof {
            crate::hierarchy::lemma_dfs_step(m, id);
        }
        let ghost f = (crate::hierarchy::dfs_fuel(m, id) - 1) as nat;
        let mut out: Vec<NodeId> = Vec::new();
        out.push(id);
        let n = self.node(id).children.len();
        let ghost ch = m[id].children;
        let mut i: usize = 0;
        proof {
            assert(ch.subrange(0, 0) =~= Seq::<NodeId>::empty());
            assert(out@ =~= seq![id] + crate::hierarchy::dfs_children(m, ch.subrange(0, 0), f));
        }
        while i < n
            invariant
                self.wf(),
                m == self@,
                self@.dom().contains(id),
                ch == m[id].children,
                n == ch.len(),
                crate::hierarchy::dfs_fuel(m, id) >= 1,
                f == (crate::hierarchy::dfs_fuel(m, id) - 1) as nat,
                i <= n,
                out@ == seq![id] + crate::hierarchy::dfs_children(m, ch.subrange(0, i as int), f),
            decreases n - i,
        {
            let c = self.node(id).children[i];
            proof {
                assert(node_ok(m, id));
                assert(m.dom().contains(c) && m[c].parent == Some(id));
                crate::hierarchy::lemma_dfs_fuel_child(m, id, c);
            }
            let mut sub = self.descend_children(c);
            out.append(&mut sub);
            proof {
                crate::hierarchy::lemma_dfs_children_concat(
                    m,
                    ch.subrange(0, i as int),
                    seq![ch[i as int]],
                    f,
                );
                assert(ch.subrange(0, i + 1) =~= ch.subrange(0, i as int) + seq![ch[i as int]]);
                assert(seq![c].drop_first() =~= Seq::<NodeId>::empty());
                assert(crate::hierarchy::dfs_children(m, Seq::<NodeId>::empty(), f)
                    =~= Seq::<NodeId>::empty());
                assert(crate::hierarchy::dfs_children(m, seq![c], f) =~= crate::hierarchy::dfs_from(
                    m,
                    c,
                    f,
                ));
                assert(out@ =~= seq![id] + crate::hierarchy::dfs_children(
                    m,
                    ch.subrange(0, i + 1),
                    f,
                ));
            }
            i = i + 1;
        }
        proof {
            assert(ch.subrange(0, n as int) =~= ch);
        }
        out
    }

    /// Whether a node is currently attached to a parent.
    pub fn has_parent(&self, id: NodeId) -> (r: bool)
        requires
            self@.dom().contains(id),
        ensures
            r == (self@[id].parent is Some),
    {
        self.node(id).parent.is_some()
    }

    /// The node's local transform composed into a single matrix:
    /// `translation * rotation_x * rotation_y * rotation_z * scale`.
    pub fn get_model_matrix(&self, id: NodeId) -> (r: Mat4)
        requires
            self@.dom().contains(id),
        ensures
            r == model_mat_of(self@[id].transform),
    {
        model_matrix_exec(&self.node(id).transform)
    }
}

impl Default for TransformSystem {
    /// An empty arena.
    fn default() -> (s: TransformSystem)
        ensures
            s.wf(),
            s.node_count() == 0,
            s@ =~= Map::<NodeId, NodeView>::empty(),
    {
        TransformSystem::new()
    }
}

} // verus!
