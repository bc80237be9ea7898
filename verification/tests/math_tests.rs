//! Tests of the scalar, vector and matrix arithmetic.

use piralib::math::{
    cos_qt, inverse_local_exec, model_matrix_exec, sc_add, sc_div, sc_mul, sc_neg, sc_sub, sin_qt,
    vec_add, vec_div, vec_mul, vec_sub, Mat4, Transform, Vec3,
};

fn v(x: i64, y: i64, z: i64) -> Vec3 {
    Vec3::new(x, y, z)
}

#[test]
fn quarter_turn_sine_and_cosine() {
    assert_eq!(sin_qt(0), 0);
    assert_eq!(sin_qt(1), 1);
    assert_eq!(sin_qt(2), 0);
    assert_eq!(sin_qt(3), -1);
    assert_eq!(sin_qt(4), 0);
    assert_eq!(sin_qt(-1), -1);
    assert_eq!(sin_qt(-2), 0);
    assert_eq!(sin_qt(-3), 1);
    assert_eq!(cos_qt(0), 1);
    assert_eq!(cos_qt(1), 0);
    assert_eq!(cos_qt(2), -1);
    assert_eq!(cos_qt(3), 0);
    assert_eq!(cos_qt(-1), 0);
    assert_eq!(cos_qt(-2), -1);
    assert_eq!(cos_qt(-4), 1);
}

#[test]
fn scalar_arithmetic_wraps() {
    assert_eq!(sc_add(3, 4), 7);
    assert_eq!(sc_add(i64::MAX, 1), i64::MIN);
    assert_eq!(sc_sub(i64::MIN, 1), i64::MAX);
    assert_eq!(sc_mul(-3, 7), -21);
    assert_eq!(sc_neg(5), -5);
    assert_eq!(sc_neg(i64::MIN), i64::MIN);
}

#[test]
fn scalar_division_truncates() {
    assert_eq!(sc_div(7, 2), 3);
    assert_eq!(sc_div(-7, 2), -3);
    assert_eq!(sc_div(7, -2), -3);
    assert_eq!(sc_div(-7, -2), 3);
    assert_eq!(sc_div(i64::MIN, -1), i64::MIN);
}

#[test]
fn vector_arithmetic_component_wise() {
    assert_eq!(vec_add(v(1, 2, 3), v(10, 20, 30)), v(11, 22, 33));
    assert_eq!(vec_sub(v(1, 2, 3), v(10, 20, 30)), v(-9, -18, -27));
    assert_eq!(vec_mul(v(2, 3, 4), v(5, 6, 7)), v(10, 18, 28));
    assert_eq!(vec_div(v(10, 18, 28), v(5, 6, 7)), v(2, 3, 4));
}

#[test]
fn identity_is_a_unit_for_multiplication() {
    let t = Transform { position: v(4, -2, 7), rotation: v(1, 2, 3), scale: v(2, 1, 5) };
    let m = model_matrix_exec(&t);
    assert_eq!(Mat4::identity().times(&m), m);
    assert_eq!(m.times(&Mat4::identity()), m);
}

#[test]
fn translation_moves_points() {
    let m = Mat4::translation(v(10, 20, 30));
    assert_eq!(m.transform_point(v(1, 2, 3)), v(11, 22, 33));
}

#[test]
fn quarter_turn_about_z_carries_x_to_y() {
    let m = Mat4::rotation_z(1);
    assert_eq!(m.transform_point(v(1, 0, 0)), v(0, 1, 0));
    assert_eq!(m.transform_point(v(0, 1, 0)), v(-1, 0, 0));
    let back = Mat4::rotation_z(-1);
    assert_eq!(back.transform_point(v(0, 1, 0)), v(1, 0, 0));
}

#[test]
fn default_transform_matrix_is_identity() {
    let t = Transform { position: v(0, 0, 0), rotation: v(0, 0, 0), scale: v(1, 1, 1) };
    assert_eq!(model_matrix_exec(&t), Mat4::identity());
}

#[test]
fn model_matrix_scales_then_rotates_then_translates() {
    let t = Transform { position: v(100, 0, 0), rotation: v(0, 0, 1), scale: v(2, 1, 1) };
    let m = model_matrix_exec(&t);
    // (3, 0, 0) -> scaled (6, 0, 0) -> rotated (0, 6, 0) -> translated
    assert_eq!(m.transform_point(v(3, 0, 0)), v(100, 6, 0));
}

#[test]
fn inverse_undoes_a_local_transform() {
    let t = Transform { position: v(7, -1, 2), rotation: v(0, 0, 1), scale: v(2, 2, 2) };
    let m = model_matrix_exec(&t);
    let p = v(3, 4, -5);
    assert_eq!(inverse_local_exec(&t, m.transform_point(p)), p);
}
