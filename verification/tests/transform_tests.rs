//! Tests of the transform arena: local accessors, world-space derivation,
//! re-parenting with and without pose preservation, and traversal.

use piralib::math::Vec3;
use piralib::transform_system::TransformSystem;

fn v(x: i64, y: i64, z: i64) -> Vec3 {
    Vec3::new(x, y, z)
}

#[test]
fn new_system_is_empty() {
    let sys = TransformSystem::new();
    assert_eq!(sys.keys().len(), 0);
}

#[test]
fn ids_start_at_one_and_increase() {
    let mut sys = TransformSystem::new();
    let a = sys.new_transform();
    let b = sys.new_transform();
    let c = sys.new_transform();
    assert_eq!(a, 1);
    assert_eq!(b, 2);
    assert_eq!(c, 3);
    assert_eq!(sys.keys(), vec![1, 2, 3]);
}

#[test]
fn fresh_node_has_default_transform() {
    let mut sys = TransformSystem::new();
    let n = sys.new_transform();
    assert_eq!(sys.get_position(n), v(0, 0, 0));
    assert_eq!(sys.get_rotation(n), v(0, 0, 0));
    assert_eq!(sys.get_scale(n), v(1, 1, 1));
    assert!(!sys.has_parent(n));
}

#[test]
fn local_setters_round_trip() {
    let mut sys = TransformSystem::new();
    let n = sys.new_transform();
    sys.set_position(n, v(7, -3, 22));
    assert_eq!(sys.get_position(n), v(7, -3, 22));
    sys.set_rotation(n, v(1, 2, -5));
    assert_eq!(sys.get_rotation(n), v(1, 2, -5));
    sys.set_scale(n, v(2, 3, -1));
    assert_eq!(sys.get_scale(n), v(2, 3, -1));
    // the other fields are untouched
    assert_eq!(sys.get_position(n), v(7, -3, 22));
    assert_eq!(sys.get_rotation(n), v(1, 2, -5));
}

#[test]
fn root_world_matrix_is_model_matrix() {
    let mut sys = TransformSystem::new();
    let n = sys.new_transform();
    sys.set_position(n, v(4, 5, 6));
    sys.set_rotation(n, v(1, 0, 3));
    sys.set_scale(n, v(2, 2, 2));
    assert_eq!(sys.get_world_matrix(n), sys.get_model_matrix(n));
    assert_eq!(sys.get_world_position(n), v(4, 5, 6));
}

#[test]
fn chain_world_matrix_composes_root_first() {
    let mut sys = TransformSystem::new();
    let root = sys.new_transform();
    let a = sys.new_transform();
    let b = sys.new_transform();
    sys.set_parent(a, root, false);
    sys.set_parent(b, a, false);
    sys.set_position(root, v(1, 2, 3));
    sys.set_rotation(a, v(0, 1, 0));
    sys.set_scale(b, v(2, 1, 1));
    sys.set_position(b, v(-4, 0, 9));
    let expected = sys
        .get_model_matrix(root)
        .times(&sys.get_model_matrix(a))
        .times(&sys.get_model_matrix(b));
    assert_eq!(sys.get_world_matrix(b), expected);
}

#[test]
fn parent_translation_adds() {
    let mut sys = TransformSystem::new();
    let root = sys.new_transform();
    sys.set_position(root, v(2, 0, 0));
    let child = sys.new_transform();
    sys.set_parent(child, root, false);
    sys.set_position(child, v(3, 0, 0));
    assert_eq!(sys.get_world_position(child), v(5, 0, 0));
}

#[test]
fn three_level_translation_adds() {
    let mut sys = TransformSystem::new();
    let a = sys.new_transform();
    let b = sys.new_transform();
    let c = sys.new_transform();
    sys.set_position(a, v(100, 0, 0));
    sys.set_parent(b, a, false);
    sys.set_position(b, v(50, 0, 0));
    sys.set_parent(c, b, false);
    sys.set_position(c, v(10, 0, 0));
    assert_eq!(sys.get_world_position(c), v(160, 0, 0));
}

#[test]
fn reparent_keeps_world_position() {
    let mut sys = TransformSystem::new();
    let p1 = sys.new_transform();
    let p2 = sys.new_transform();
    let c = sys.new_transform();
    sys.set_parent(c, p1, false);
    sys.set_position(c, v(5, 0, 0));
    assert_eq!(sys.get_world_position(c), v(5, 0, 0));
    sys.set_position(p2, v(17, -4, 9));
    sys.set_parent(c, p2, true);
    assert!(sys.has_parent(c));
    assert_eq!(sys.get_world_position(c), v(5, 0, 0));
    assert_eq!(sys.get_position(c), v(5 - 17, 4, -9));
}

#[test]
fn reparent_keeps_world_position_other_translation() {
    let mut sys = TransformSystem::new();
    let p1 = sys.new_transform();
    let p2 = sys.new_transform();
    let c = sys.new_transform();
    sys.set_parent(c, p1, false);
    sys.set_position(c, v(5, 0, 0));
    sys.set_position(p2, v(-1000, 250, 3));
    sys.set_parent(c, p2, true);
    assert_eq!(sys.get_world_position(c), v(5, 0, 0));
}

#[test]
fn reparent_keeps_world_position_under_rotated_parent() {
    let mut sys = TransformSystem::new();
    let p1 = sys.new_transform();
    let p2 = sys.new_transform();
    let c = sys.new_transform();
    sys.set_parent(c, p1, false);
    sys.set_position(c, v(5, 0, 0));
    sys.set_position(p2, v(10, 0, 0));
    sys.set_rotation(p2, v(0, 0, 1));
    sys.set_parent(c, p2, true);
    assert_eq!(sys.get_position(c), v(0, 5, 0));
    assert_eq!(sys.get_world_position(c), v(5, 0, 0));
}

#[test]
fn reparent_without_keep_moves_world_position() {
    let mut sys = TransformSystem::new();
    let p1 = sys.new_transform();
    let p2 = sys.new_transform();
    let c = sys.new_transform();
    sys.set_parent(c, p1, false);
    sys.set_position(c, v(5, 0, 0));
    sys.set_position(p2, v(10, 0, 0));
    sys.set_parent(c, p2, false);
    assert_eq!(sys.get_position(c), v(5, 0, 0));
    assert_eq!(sys.get_world_position(c), v(15, 0, 0));
}

#[test]
fn clear_parent_keeps_world_pose() {
    let mut sys = TransformSystem::new();
    let p = sys.new_transform();
    let c = sys.new_transform();
    sys.set_position(p, v(3, 4, 5));
    sys.set_rotation(p, v(0, 0, 1));
    sys.set_scale(p, v(2, 2, 2));
    sys.set_parent(c, p, false);
    sys.set_position(c, v(1, 1, 1));
    sys.set_rotation(c, v(1, 0, 0));
    sys.set_scale(c, v(3, 1, 1));
    let wp = sys.get_world_position(c);
    let wr = sys.get_world_rotation(c);
    let ws = sys.get_world_scale(c);
    sys.clear_parent(c, true);
    assert!(!sys.has_parent(c));
    assert_eq!(sys.get_world_position(c), wp);
    assert_eq!(sys.get_world_rotation(c), wr);
    assert_eq!(sys.get_world_scale(c), ws);
    // a root's local transform is its world transform
    assert_eq!(sys.get_position(c), wp);
    assert_eq!(sys.get_rotation(c), wr);
    assert_eq!(sys.get_scale(c), ws);
}

#[test]
fn clear_parent_without_keep_leaves_local_values() {
    let mut sys = TransformSystem::new();
    let p = sys.new_transform();
    let c = sys.new_transform();
    sys.set_position(p, v(10, 0, 0));
    sys.set_parent(c, p, false);
    sys.set_position(c, v(1, 2, 3));
    sys.clear_parent(c, false);
    assert!(!sys.has_parent(c));
    assert_eq!(sys.get_position(c), v(1, 2, 3));
    assert_eq!(sys.get_world_position(c), v(1, 2, 3));
}

#[test]
fn world_rotation_sums_component_wise() {
    let mut sys = TransformSystem::new();
    let p = sys.new_transform();
    let c = sys.new_transform();
    sys.set_parent(c, p, false);
    sys.set_rotation(p, v(1, 2, 3));
    sys.set_rotation(c, v(10, -2, 4));
    assert_eq!(sys.get_world_rotation(c), v(11, 0, 7));
}

#[test]
fn set_world_rotation_subtracts_parent() {
    let mut sys = TransformSystem::new();
    let p = sys.new_transform();
    let c = sys.new_transform();
    sys.set_parent(c, p, false);
    sys.set_rotation(p, v(1, 1, 1));
    sys.set_world_rotation(c, &v(5, 0, 2));
    assert_eq!(sys.get_rotation(c), v(4, -1, 1));
    assert_eq!(sys.get_world_rotation(c), v(5, 0, 2));
}

#[test]
fn world_scale_multiplies_component_wise() {
    let mut sys = TransformSystem::new();
    let p = sys.new_transform();
    let c = sys.new_transform();
    sys.set_parent(c, p, false);
    sys.set_scale(p, v(2, 3, 4));
    sys.set_scale(c, v(5, 1, -2));
    assert_eq!(sys.get_world_scale(c), v(10, 3, -8));
}

#[test]
fn set_world_scale_divides_by_parent() {
    let mut sys = TransformSystem::new();
    let p = sys.new_transform();
    let c = sys.new_transform();
    sys.set_parent(c, p, false);
    sys.set_scale(p, v(2, 4, 5));
    sys.set_world_scale(c, &v(6, 4, 10));
    assert_eq!(sys.get_scale(c), v(3, 1, 2));
    assert_eq!(sys.get_world_scale(c), v(6, 4, 10));
}

#[test]
fn set_world_position_inverts_parent_transform() {
    let mut sys = TransformSystem::new();
    let p = sys.new_transform();
    let c = sys.new_transform();
    sys.set_parent(c, p, false);
    sys.set_position(p, v(10, 0, 0));
    sys.set_world_position(c, &v(15, 2, 3));
    assert_eq!(sys.get_position(c), v(5, 2, 3));
    assert_eq!(sys.get_world_position(c), v(15, 2, 3));
}

#[test]
fn set_world_position_round_trips_through_rotated_chain() {
    let mut sys = TransformSystem::new();
    let p1 = sys.new_transform();
    let p2 = sys.new_transform();
    let c = sys.new_transform();
    sys.set_position(p1, v(10, 0, 0));
    sys.set_rotation(p1, v(0, 0, 1));
    sys.set_parent(p2, p1, false);
    sys.set_position(p2, v(3, 4, 5));
    sys.set_rotation(p2, v(2, 0, 3));
    sys.set_parent(c, p2, false);
    sys.set_world_position(c, &v(7, 8, 9));
    assert_eq!(sys.get_world_position(c), v(7, 8, 9));
}

#[test]
fn set_world_position_on_root_stores_directly() {
    let mut sys = TransformSystem::new();
    let n = sys.new_transform();
    sys.set_world_position(n, &v(-7, 8, 9));
    assert_eq!(sys.get_position(n), v(-7, 8, 9));
}

#[test]
fn rotated_parent_turns_child_offset() {
    // one quarter turn about z carries (1, 0, 0) to (0, 1, 0)
    let mut sys = TransformSystem::new();
    let p = sys.new_transform();
    let c = sys.new_transform();
    sys.set_parent(c, p, false);
    sys.set_rotation(p, v(0, 0, 1));
    sys.set_position(c, v(1, 0, 0));
    assert_eq!(sys.get_world_position(c), v(0, 1, 0));
    sys.set_position(p, v(5, 0, 0));
    assert_eq!(sys.get_world_position(c), v(5, 1, 0));
}

#[test]
fn scaled_parent_scales_child_offset() {
    let mut sys = TransformSystem::new();
    let p = sys.new_transform();
    let c = sys.new_transform();
    sys.set_parent(c, p, false);
    sys.set_scale(p, v(2, 3, 4));
    sys.set_position(c, v(1, 1, 1));
    assert_eq!(sys.get_world_position(c), v(2, 3, 4));
}

#[test]
fn world_position_wraps_at_i64_edge() {
    let mut sys = TransformSystem::new();
    let p = sys.new_transform();
    let c = sys.new_transform();
    sys.set_parent(c, p, false);
    sys.set_position(p, v(i64::MAX, 0, 0));
    sys.set_position(c, v(1, 0, 0));
    assert_eq!(sys.get_world_position(c), v(i64::MIN, 0, 0));
}

#[test]
fn descend_children_is_preorder_in_insertion_order() {
    let mut sys = TransformSystem::new();
    let n1 = sys.new_transform();
    let n2 = sys.new_transform();
    let n3 = sys.new_transform();
    let n4 = sys.new_transform();
    sys.set_parent(n2, n1, false);
    sys.set_parent(n3, n1, false);
    sys.set_parent(n4, n2, false);
    assert_eq!(sys.descend_children(n1), vec![n1, n2, n4, n3]);
    assert_eq!(sys.descend_children(n2), vec![n2, n4]);
    assert_eq!(sys.descend_children(n3), vec![n3]);
}

#[test]
fn reparent_moves_subtree() {
    let mut sys = TransformSystem::new();
    let n1 = sys.new_transform();
    let n2 = sys.new_transform();
    let n3 = sys.new_transform();
    let n4 = sys.new_transform();
    sys.set_parent(n2, n1, false);
    sys.set_parent(n3, n1, false);
    sys.set_parent(n4, n2, false);
    sys.set_parent(n4, n3, false);
    assert_eq!(sys.descend_children(n1), vec![n1, n2, n3, n4]);
    assert_eq!(sys.descend_children(n2), vec![n2]);
}

#[test]
fn get_transform_mut_writes_through() {
    let mut sys = TransformSystem::new();
    let n = sys.new_transform();
    {
        let t = sys.get_transform_mut(n);
        t.position = v(8, -8, 8);
        t.scale = v(2, 2, 2);
    }
    assert_eq!(sys.get_position(n), v(8, -8, 8));
    assert_eq!(sys.get_scale(n), v(2, 2, 2));
    assert_eq!(sys.get_world_position(n), v(8, -8, 8));
}

#[test]
fn get_transform_returns_stored_values() {
    let mut sys = TransformSystem::new();
    let n = sys.new_transform();
    sys.set_position(n, v(1, 2, 3));
    let t = *sys.get_transform(n);
    assert_eq!(t.position, v(1, 2, 3));
    assert_eq!(t.scale, v(1, 1, 1));
    let mut t2 = t;
    t2.scale = v(9, 9, 9);
    sys.set_transform(n, t2);
    assert_eq!(sys.get_scale(n), v(9, 9, 9));
    assert_eq!(sys.get_position(n), v(1, 2, 3));
}
