//! Scalar, vector and 4x4-matrix arithmetic for the transform system.
//!
//! Coordinates are `i64` values; addition, subtraction and multiplication
//! are two's-complement wrapping operations, so every operation is total
//! and the scalars form a commutative ring (arithmetic is exact for all
//! values well inside the `i64` range).  Rotation angles are counted in
//! quarter turns, which keeps the sine and cosine of every representable
//! angle an exact integer.

use vstd::prelude::*;

verus! {

use vstd::arithmetic::div_mod::{
    lemma_add_mod_noop,
    lemma_fundamental_div_mod_converse_mod,
    lemma_mod_sub_multiples_vanish,
    lemma_mod_twice,
    lemma_mul_mod_noop_left,
    lemma_small_mod,
};
use vstd::arithmetic::mul::{
    lemma_mul_is_associative,
    lemma_mul_is_distributive_add,
    lemma_mul_is_distributive_add_other_way,
};

/// The modulus of 64-bit two's-complement arithmetic.
pub open spec fn sc_modulus() -> int {
    0x1_0000_0000_0000_0000
}

/// Reduce an unbounded integer to the `i64` range, two's-complement style.
pub open spec fn wrap(x: int) -> i64 {
    vstd::wrapping::i64_specs::signed_crop(x)
}

/// Wrapping leaves values that already fit in an `i64` unchanged.
pub proof fn lemma_wrap_id(x: int)
    requires
        i64::MIN <= x <= i64::MAX,
    ensures
        wrap(x) == x,
{
    if x >= 0 {
        lemma_small_mod(x as nat, sc_modulus() as nat);
    } else {
        lemma_fundamental_div_mod_converse_mod(x, sc_modulus(), -1, x + sc_modulus());
    }
}

/// A wrapped value is congruent to the original value.
pub proof fn lemma_wrap_mod(x: int)
    ensures
        (wrap(x) as int) % sc_modulus() == x % sc_modulus(),
{
    let m = sc_modulus();
    lemma_mod_twice(x, m);
    if x % m > i64::MAX {
        lemma_mod_sub_multiples_vanish(x % m, m);
    }
}

/// Congruent integers wrap to the same value.
pub proof fn lemma_wrap_congruent(x: int, y: int)
    requires
        x % sc_modulus() == y % sc_modulus(),
    ensures
        wrap(x) == wrap(y),
{
}

/// Wrapping an addend first does not change a wrapped sum.
pub proof fn lemma_wrap_add2(x: int, y: int)
    ensures
        wrap(wrap(x) + wrap(y)) == wrap(x + y),
{
    let m = sc_modulus();
    lemma_wrap_mod(x);
    lemma_wrap_mod(y);
    lemma_add_mod_noop(wrap(x) as int, wrap(y) as int, m);
    lemma_add_mod_noop(x, y, m);
    lemma_wrap_congruent(wrap(x) + wrap(y), x + y);
}

/// Wrapped values of integers a little outside the `i64` range, written
/// without `%`: the form the wrapping std operations produce.
pub proof fn lemma_wrap_near(x: int)
    requires
        2 * (i64::MIN as int) <= x < sc_modulus(),
    ensures
        i64::MIN <= x <= i64::MAX ==> wrap(x) == x,
        x > i64::MAX ==> wrap(x) == x - sc_modulus(),
        x < i64::MIN ==> wrap(x) == x + sc_modulus(),
{
    let m = sc_modulus();
    if i64::MIN <= x <= i64::MAX {
        lemma_wrap_id(x);
    } else if x > i64::MAX {
        lemma_small_mod(x as nat, m as nat);
    } else {
        lemma_fundamental_div_mod_converse_mod(x, m, -1, x + m);
    }
}

/// Wrapping addition of two scalars.
pub fn sc_add(a: i64, b: i64) -> (r: i64)
    ensures
        r == wrap(a + b),
{
    proof {
        lemma_wrap_near(a + b);
    }
    a.wrapping_add(b)
}

/// Wrapping subtraction of two scalars.
pub fn sc_sub(a: i64, b: i64) -> (r: i64)
    ensures
        r == wrap(a - b),
{
    proof {
        lemma_wrap_near(a - b);
    }
    a.wrapping_sub(b)
}

/// Wrapping multiplication of two scalars.
pub fn sc_mul(a: i64, b: i64) -> (r: i64)
    ensures
        r == wrap(a * b),
{
    a.wrapping_mul(b)
}

/// Wrapping negation of a scalar.
pub fn sc_neg(a: i64) -> (r: i64)
    ensures
        r == wrap(-a),
{
    proof {
        lemma_wrap_near(0 - a);
    }
    0i64.wrapping_sub(a)
}

/// Truncating integer division (round toward zero), as `/` behaves on the
/// machine's signed integers; defined only for a nonzero divisor.
pub open spec fn trunc_div(x: int, d: int) -> int {
    if x == 0 {
        0
    } else if x > 0 && d > 0 {
        x / d
    } else if x < 0 && d < 0 {
        (x * -1) / (d * -1)
    } else if x < 0 {
        ((x * -1) / d) * -1
    } else {
        (x / (d * -1)) * -1
    }
}

/// Truncating division of two scalars; the one overflowing case
/// (`i64::MIN / -1`) wraps.
pub fn sc_div(a: i64, b: i64) -> (r: i64)
    requires
        b != 0,
    ensures
        r == wrap(trunc_div(a as int, b as int)),
{
    match a.checked_div(b) {
        Some(q) => {
            proof {
                lemma_wrap_id(trunc_div(a as int, b as int));
            }
            q
        },
        None => {
            proof {
                lemma_wrap_near(trunc_div(a as int, b as int));
            }
            i64::MIN
        },
    }
}

/// Which quarter of a full turn an angle lies in (angles are counted in
/// quarter turns, so this is the angle modulo four, in `0..4`).
pub open spec fn qturn(a: i64) -> int {
    (a as int) % 4
}

/// Exact sine of an angle counted in quarter turns.
pub open spec fn qsin(a: i64) -> i64 {
    let q = qturn(a);
    if q == 0 {
        0
    } else if q == 1 {
        1
    } else if q == 2 {
        0
    } else {
        -1i64
    }
}

/// Exact cosine of an angle counted in quarter turns.
pub open spec fn qcos(a: i64) -> i64 {
    let q = qturn(a);
    if q == 0 {
        1
    } else if q == 1 {
        0
    } else if q == 2 {
        -1i64
    } else {
        0
    }
}

/// The quarter an angle lies in, computed on unsigned magnitudes so that
/// negative angles reduce correctly.
fn quarter_index(a: i64) -> (q: u64)
    ensures
        q == qturn(a),
{
    if a >= 0 {
        (a as u64) % 4
    } else {
        let k: u64 = (-(a as i128)) as u64;
        let r: u64 = k % 4;
        proof {
            vstd::arithmetic::div_mod::lemma_fundamental_div_mod(k as int, 4);
            if r == 0 {
                lemma_fundamental_div_mod_converse_mod(a as int, 4, -((k as int) / 4), 0);
            } else {
                lemma_fundamental_div_mod_converse_mod(
                    a as int,
                    4,
                    -((k as int) / 4) - 1,
                    4 - (r as int),
                );
            }
        }
        if r == 0 {
            0
        } else {
            4 - r
        }
    }
}

/// Exact sine of a quarter-turn angle.
pub fn sin_qt(a: i64) -> (r: i64)
    ensures
        r == qsin(a),
{
    let q = quarter_index(a);
    if q == 0 {
        0
    } else if q == 1 {
        1
    } else if q == 2 {
        0
    } else {
        -1
    }
}

/// Exact cosine of a quarter-turn angle.
pub fn cos_qt(a: i64) -> (r: i64)
    ensures
        r == qcos(a),
{
    let q = quarter_index(a);
    if q == 0 {
        1
    } else if q == 1 {
        0
    } else if q == 2 {
        -1
    } else {
        0
    }
}

/// A three-component integer vector: a position, a set of Euler angles
/// (in quarter turns), or a per-axis scale.
#[derive(Clone, Copy, PartialEq, Eq, Structural, Debug)]
pub struct Vec3 {
    pub x: i64,
    pub y: i64,
    pub z: i64,
}

pub open spec fn vec3_zero() -> Vec3 {
    Vec3 { x: 0, y: 0, z: 0 }
}

pub open spec fn vec3_ones() -> Vec3 {
    Vec3 { x: 1, y: 1, z: 1 }
}

pub open spec fn vadd(a: Vec3, b: Vec3) -> Vec3 {
    Vec3 { x: wrap(a.x + b.x), y: wrap(a.y + b.y), z: wrap(a.z + b.z) }
}

pub open spec fn vsub(a: Vec3, b: Vec3) -> Vec3 {
    Vec3 { x: wrap(a.x - b.x), y: wrap(a.y - b.y), z: wrap(a.z - b.z) }
}

/// Component-wise product.
pub open spec fn vmul(a: Vec3, b: Vec3) -> Vec3 {
    Vec3 { x: wrap(a.x * b.x), y: wrap(a.y * b.y), z: wrap(a.z * b.z) }
}

/// Component-wise truncating quotient; every component of `b` must be nonzero.
pub open spec fn vdiv(a: Vec3, b: Vec3) -> Vec3 {
    Vec3 {
        x: wrap(trunc_div(a.x as int, b.x as int)),
        y: wrap(trunc_div(a.y as int, b.y as int)),
        z: wrap(trunc_div(a.z as int, b.z as int)),
    }
}

impl Vec3 {
    pub fn new(x: i64, y: i64, z: i64) -> (r: Vec3)
        ensures
            r == (Vec3 { x, y, z }),
    {
        Vec3 { x, y, z }
    }

    pub fn zero() -> (r: Vec3)
        ensures
            r == vec3_zero(),
    {
        Vec3 { x: 0, y: 0, z: 0 }
    }

    pub fn ones() -> (r: Vec3)
        ensures
            r == vec3_ones(),
    {
        Vec3 { x: 1, y: 1, z: 1 }
    }
}

pub fn vec_add(a: Vec3, b: Vec3) -> (r: Vec3)
    ensures
        r == vadd(a, b),
{
    Vec3 { x: sc_add(a.x, b.x), y: sc_add(a.y, b.y), z: sc_add(a.z, b.z) }
}

pub fn vec_sub(a: Vec3, b: Vec3) -> (r: Vec3)
    ensures
        r == vsub(a, b),
{
    Vec3 { x: sc_sub(a.x, b.x), y: sc_sub(a.y, b.y), z: sc_sub(a.z, b.z) }
}

pub fn vec_mul(a: Vec3, b: Vec3) -> (r: Vec3)
    ensures
        r == vmul(a, b),
{
    Vec3 { x: sc_mul(a.x, b.x), y: sc_mul(a.y, b.y), z: sc_mul(a.z, b.z) }
}

pub fn vec_div(a: Vec3, b: Vec3) -> (r: Vec3)
    requires
        b.x != 0,
        b.y != 0,
        b.z != 0,
    ensures
        r == vdiv(a, b),
{
    Vec3 { x: sc_div(a.x, b.x), y: sc_div(a.y, b.y), z: sc_div(a.z, b.z) }
}

/// Adding the zero vector changes nothing.
pub proof fn lemma_vadd_zero(v: Vec3)
    ensures
        vadd(v, vec3_zero()) == v,
{
    lemma_wrap_id(v.x as int);
    lemma_wrap_id(v.y as int);
    lemma_wrap_id(v.z as int);
}

/// Multiplying by the all-ones vector changes nothing.
pub proof fn lemma_vmul_ones(v: Vec3)
    ensures
        vmul(v, vec3_ones()) == v,
{
    lemma_wrap_id(v.x as int);
    lemma_wrap_id(v.y as int);
    lemma_wrap_id(v.z as int);
}

/// A 4x4 matrix in row-major layout: `mRC` is the entry in row `R`,
/// column `C`.  A point `(x, y, z)` is transformed as the column vector
/// `(x, y, z, 1)` multiplied on the left.
#[derive(Clone, Copy, PartialEq, Eq, Structural, Debug)]
pub struct Mat4 {
    pub m00: i64,
    pub m01: i64,
    pub m02: i64,
    pub m03: i64,
    pub m10: i64,
    pub m11: i64,
    pub m12: i64,
    pub m13: i64,
    pub m20: i64,
    pub m21: i64,
    pub m22: i64,
    pub m23: i64,
    pub m30: i64,
    pub m31: i64,
    pub m32: i64,
    pub m33: i64,
}

pub open spec fn mat_identity() -> Mat4 {
    Mat4 {
        m00: 1,
        m01: 0,
        m02: 0,
        m03: 0,
        m10: 0,
        m11: 1,
        m12: 0,
        m13: 0,
        m20: 0,
        m21: 0,
        m22: 1,
        m23: 0,
        m30: 0,
        m31: 0,
        m32: 0,
        m33: 1,
    }
}

/// Translation by `p`.
pub open spec fn translation_mat(p: Vec3) -> Mat4 {
    Mat4 {
        m00: 1,
        m01: 0,
        m02: 0,
        m03: p.x,
        m10: 0,
        m11: 1,
        m12: 0,
        m13: p.y,
        m20: 0,
        m21: 0,
        m22: 1,
        m23: p.z,
        m30: 0,
        m31: 0,
        m32: 0,
        m33: 1,
    }
}

/// Per-axis scale by `s`.
pub open spec fn scale_mat(s: Vec3) -> Mat4 {
    Mat4 {
        m00: s.x,
        m01: 0,
        m02: 0,
        m03: 0,
        m10: 0,
        m11: s.y,
        m12: 0,
        m13: 0,
        m20: 0,
        m21: 0,
        m22: s.z,
        m23: 0,
        m30: 0,
        m31: 0,
        m32: 0,
        m33: 1,
    }
}

/// Rotation about the x axis by `a` quarter turns.
pub open spec fn rot_x_mat(a: i64) -> Mat4 {
    Mat4 {
        m00: 1,
        m01: 0,
        m02: 0,
        m03: 0,
        m10: 0,
        m11: qcos(a),
        m12: wrap(-qsin(a)),
        m13: 0,
        m20: 0,
        m21: qsin(a),
        m22: qcos(a),
        m23: 0,
        m30: 0,
        m31: 0,
        m32: 0,
        m33: 1,
    }
}

/// Rotation about the y axis by `a` quarter turns.
pub open spec fn rot_y_mat(a: i64) -> Mat4 {
    Mat4 {
        m00: qcos(a),
        m01: 0,
        m02: qsin(a),
        m03: 0,
        m10: 0,
        m11: 1,
        m12: 0,
        m13: 0,
        m20: wrap(-qsin(a)),
        m21: 0,
        m22: qcos(a),
        m23: 0,
        m30: 0,
        m31: 0,
        m32: 0,
        m33: 1,
    }
}

/// Rotation about the z axis by `a` quarter turns.
pub open spec fn rot_z_mat(a: i64) -> Mat4 {
    Mat4 {
        m00: qcos(a),
        m01: wrap(-qsin(a)),
        m02: 0,
        m03: 0,
        m10: qsin(a),
        m11: qcos(a),
        m12: 0,
        m13: 0,
        m20: 0,
        m21: 0,
        m22: 1,
        m23: 0,
        m30: 0,
        m31: 0,
        m32: 0,
        m33: 1,
    }
}

/// Wrapped four-term dot product.
pub open spec fn dot4(
    a0: i64,
    a1: i64,
    a2: i64,
    a3: i64,
    b0: i64,
    b1: i64,
    b2: i64,
    b3: i64,
) -> i64 {
    wrap(a0 * b0 + a1 * b1 + a2 * b2 + a3 * b3)
}

/// Matrix product: entry `(r, c)` is row `r` of `a` dotted with column `c`
/// of `b`.
pub open spec fn mat_mul(a: Mat4, b: Mat4) -> Mat4 {
    Mat4 {
        m00: dot4(a.m00, a.m01, a.m02, a.m03, b.m00, b.m10, b.m20, b.m30),
        m01: dot4(a.m00, a.m01, a.m02, a.m03, b.m01, b.m11, b.m21, b.m31),
        m02: dot4(a.m00, a.m01, a.m02, a.m03, b.m02, b.m12, b.m22, b.m32),
        m03: dot4(a.m00, a.m01, a.m02, a.m03, b.m03, b.m13, b.m23, b.m33),
        m10: dot4(a.m10, a.m11, a.m12, a.m13, b.m00, b.m10, b.m20, b.m30),
        m11: dot4(a.m10, a.m11, a.m12, a.m13, b.m01, b.m11, b.m21, b.m31),
        m12: dot4(a.m10, a.m11, a.m12, a.m13, b.m02, b.m12, b.m22, b.m32),
        m13: dot4(a.m10, a.m11, a.m12, a.m13, b.m03, b.m13, b.m23, b.m33),
        m20: dot4(a.m20, a.m21, a.m22, a.m23, b.m00, b.m10, b.m20, b.m30),
        m21: dot4(a.m20, a.m21, a.m22, a.m23, b.m01, b.m11, b.m21, b.m31),
        m22: dot4(a.m20, a.m21, a.m22, a.m23, b.m02, b.m12, b.m22, b.m32),
        m23: dot4(a.m20, a.m21, a.m22, a.m23, b.m03, b.m13, b.m23, b.m33),
        m30: dot4(a.m30, a.m31, a.m32, a.m33, b.m00, b.m10, b.m20, b.m30),
        m31: dot4(a.m30, a.m31, a.m32, a.m33, b.m01, b.m11, b.m21, b.m31),
        m32: dot4(a.m30, a.m31, a.m32, a.m33, b.m02, b.m12, b.m22, b.m32),
        m33: dot4(a.m30, a.m31, a.m32, a.m33, b.m03, b.m13, b.m23, b.m33),
    }
}

/// Transform the point `v`, treated as the column `(v.x, v.y, v.z, 1)`;
/// the result drops the fourth component.
pub open spec fn apply_point(m: Mat4, v: Vec3) -> Vec3 {
    Vec3 {
        x: dot4(m.m00, m.m01, m.m02, m.m03, v.x, v.y, v.z, 1),
        y: dot4(m.m10, m.m11, m.m12, m.m13, v.x, v.y, v.z, 1),
        z: dot4(m.m20, m.m21, m.m22, m.m23, v.x, v.y, v.z, 1),
    }
}

/// An affine matrix: bottom row `(0, 0, 0, 1)`.  Every matrix the
/// transform system builds is affine.
pub open spec fn is_affine(m: Mat4) -> bool {
    m.m30 == 0 && m.m31 == 0 && m.m32 == 0 && m.m33 == 1
}

/// Sums of congruent integers are congruent.
proof fn lemma_add_cong(x: int, y: int, x2: int, y2: int)
    requires
        x % sc_modulus() == x2 % sc_modulus(),
        y % sc_modulus() == y2 % sc_modulus(),
    ensures
        (x + y) % sc_modulus() == (x2 + y2) % sc_modulus(),
{
    lemma_add_mod_noop(x, y, sc_modulus());
    lemma_add_mod_noop(x2, y2, sc_modulus());
}

/// Wrapping the four left factors of a dot product first does not change
/// the wrapped result.
proof fn lemma_wrap_sum4_mul_left(s0: int, s1: int, s2: int, s3: int, c0: i64, c1: i64, c2: i64, c3: i64)
    ensures
        wrap(wrap(s0) * c0 + wrap(s1) * c1 + wrap(s2) * c2 + wrap(s3) * c3)
            == wrap(s0 * c0 + s1 * c1 + s2 * c2 + s3 * c3),
{
    let m = sc_modulus();
    lemma_wrap_mod(s0);
    lemma_wrap_mod(s1);
    lemma_wrap_mod(s2);
    lemma_wrap_mod(s3);
    lemma_mul_mod_noop_left(wrap(s0) as int, c0 as int, m);
    lemma_mul_mod_noop_left(s0, c0 as int, m);
    lemma_mul_mod_noop_left(wrap(s1) as int, c1 as int, m);
    lemma_mul_mod_noop_left(s1, c1 as int, m);
    lemma_mul_mod_noop_left(wrap(s2) as int, c2 as int, m);
    lemma_mul_mod_noop_left(s2, c2 as int, m);
    lemma_mul_mod_noop_left(wrap(s3) as int, c3 as int, m);
    lemma_mul_mod_noop_left(s3, c3 as int, m);
    lemma_add_cong(wrap(s0) * c0, wrap(s1) * c1, s0 * c0, s1 * c1);
    lemma_add_cong(wrap(s0) * c0 + wrap(s1) * c1, wrap(s2) * c2, s0 * c0 + s1 * c1, s2 * c2);
    lemma_add_cong(
        wrap(s0) * c0 + wrap(s1) * c1 + wrap(s2) * c2,
        wrap(s3) * c3,
        s0 * c0 + s1 * c1 + s2 * c2,
        s3 * c3,
    );
    lemma_wrap_congruent(
        wrap(s0) * c0 + wrap(s1) * c1 + wrap(s2) * c2 + wrap(s3) * c3,
        s0 * c0 + s1 * c1 + s2 * c2 + s3 * c3,
    );
}

/// Wrapping the four right factors of a dot product first does not change
/// the wrapped result.
proof fn lemma_wrap_sum4_mul_right(u0: int, u1: int, u2: int, u3: int, r0: i64, r1: i64, r2: i64, r3: i64)
    ensures
        wrap(r0 * wrap(u0) + r1 * wrap(u1) + r2 * wrap(u2) + r3 * wrap(u3))
            == wrap(r0 * u0 + r1 * u1 + r2 * u2 + r3 * u3),
{
    let m = sc_modulus();
    lemma_wrap_mod(u0);
    lemma_wrap_mod(u1);
    lemma_wrap_mod(u2);
    lemma_wrap_mod(u3);
    vstd::arithmetic::div_mod::lemma_mul_mod_noop_right(r0 as int, wrap(u0) as int, m);
    vstd::arithmetic::div_mod::lemma_mul_mod_noop_right(r0 as int, u0, m);
    vstd::arithmetic::div_mod::lemma_mul_mod_noop_right(r1 as int, wrap(u1) as int, m);
    vstd::arithmetic::div_mod::lemma_mul_mod_noop_right(r1 as int, u1, m);
    vstd::arithmetic::div_mod::lemma_mul_mod_noop_right(r2 as int, wrap(u2) as int, m);
    vstd::arithmetic::div_mod::lemma_mul_mod_noop_right(r2 as int, u2, m);
    vstd::arithmetic::div_mod::lemma_mul_mod_noop_right(r3 as int, wrap(u3) as int, m);
    vstd::arithmetic::div_mod::lemma_mul_mod_noop_right(r3 as int, u3, m);
    lemma_add_cong(r0 * wrap(u0), r1 * wrap(u1), r0 * u0, r1 * u1);
    lemma_add_cong(r0 * wrap(u0) + r1 * wrap(u1), r2 * wrap(u2), r0 * u0 + r1 * u1, r2 * u2);
    lemma_add_cong(
        r0 * wrap(u0) + r1 * wrap(u1) + r2 * wrap(u2),
        r3 * wrap(u3),
        r0 * u0 + r1 * u1 + r2 * u2,
        r3 * u3,
    );
    lemma_wrap_congruent(
        r0 * wrap(u0) + r1 * wrap(u1) + r2 * wrap(u2) + r3 * wrap(u3),
        r0 * u0 + r1 * u1 + r2 * u2 + r3 * u3,
    );
}

/// The wrapped dot product regroups: dotting a row with the columns of a
/// matrix and then with a final column equals dotting the row with the
/// matrix-times-column products.  This is the scalar heart of matrix
/// associativity.
proof fn lemma_dot_assoc(r0: i64, r1: i64, r2: i64, r3: i64, b: Mat4, c0: i64, c1: i64, c2: i64, c3: i64)
    ensures
        dot4(
            dot4(r0, r1, r2, r3, b.m00, b.m10, b.m20, b.m30),
            dot4(r0, r1, r2, r3, b.m01, b.m11, b.m21, b.m31),
            dot4(r0, r1, r2, r3, b.m02, b.m12, b.m22, b.m32),
            dot4(r0, r1, r2, r3, b.m03, b.m13, b.m23, b.m33),
            c0,
            c1,
            c2,
            c3,
        ) == dot4(
            r0,
            r1,
            r2,
            r3,
            dot4(b.m00, b.m01, b.m02, b.m03, c0, c1, c2, c3),
            dot4(b.m10, b.m11, b.m12, b.m13, c0, c1, c2, c3),
            dot4(b.m20, b.m21, b.m22, b.m23, c0, c1, c2, c3),
            dot4(b.m30, b.m31, b.m32, b.m33, c0, c1, c2, c3),
        ),
{
    let s0 = r0 * b.m00 + r1 * b.m10 + r2 * b.m20 + r3 * b.m30;
    let s1 = r0 * b.m01 + r1 * b.m11 + r2 * b.m21 + r3 * b.m31;
    let s2 = r0 * b.m02 + r1 * b.m12 + r2 * b.m22 + r3 * b.m32;
    let s3 = r0 * b.m03 + r1 * b.m13 + r2 * b.m23 + r3 * b.m33;
    let u0 = b.m00 * c0 + b.m01 * c1 + b.m02 * c2 + b.m03 * c3;
    let u1 = b.m10 * c0 + b.m11 * c1 + b.m12 * c2 + b.m13 * c3;
    let u2 = b.m20 * c0 + b.m21 * c1 + b.m22 * c2 + b.m23 * c3;
    let u3 = b.m30 * c0 + b.m31 * c1 + b.m32 * c2 + b.m33 * c3;
    lemma_wrap_sum4_mul_left(s0, s1, s2, s3, c0, c1, c2, c3);
    lemma_wrap_sum4_mul_right(u0, u1, u2, u3, r0, r1, r2, r3);
    lemma_dist4_right(r0 * b.m00, r1 * b.m10, r2 * b.m20, r3 * b.m30, c0 as int);
    lemma_dist4_right(r0 * b.m01, r1 * b.m11, r2 * b.m21, r3 * b.m31, c1 as int);
    lemma_dist4_right(r0 * b.m02, r1 * b.m12, r2 * b.m22, r3 * b.m32, c2 as int);
    lemma_dist4_right(r0 * b.m03, r1 * b.m13, r2 * b.m23, r3 * b.m33, c3 as int);
    lemma_dist4_left(r0 as int, b.m00 * c0, b.m01 * c1, b.m02 * c2, b.m03 * c3);
    lemma_dist4_left(r1 as int, b.m10 * c0, b.m11 * c1, b.m12 * c2, b.m13 * c3);
    lemma_dist4_left(r2 as int, b.m20 * c0, b.m21 * c1, b.m22 * c2, b.m23 * c3);
    lemma_dist4_left(r3 as int, b.m30 * c0, b.m31 * c1, b.m32 * c2, b.m33 * c3);
    lemma_mul_is_associative(r0 as int, b.m00 as int, c0 as int);
    lemma_mul_is_associative(r0 as int, b.m01 as int, c1 as int);
    lemma_mul_is_associative(r0 as int, b.m02 as int, c2 as int);
    lemma_mul_is_associative(r0 as int, b.m03 as int, c3 as int);
    lemma_mul_is_associative(r1 as int, b.m10 as int, c0 as int);
    lemma_mul_is_associative(r1 as int, b.m11 as int, c1 as int);
    lemma_mul_is_associative(r1 as int, b.m12 as int, c2 as int);
    lemma_mul_is_associative(r1 as int, b.m13 as int, c3 as int);
    lemma_mul_is_associative(r2 as int, b.m20 as int, c0 as int);
    lemma_mul_is_associative(r2 as int, b.m21 as int, c1 as int);
    lemma_mul_is_associative(r2 as int, b.m22 as int, c2 as int);
    lemma_mul_is_associative(r2 as int, b.m23 as int, c3 as int);
    lemma_mul_is_associative(r3 as int, b.m30 as int, c0 as int);
    lemma_mul_is_associative(r3 as int, b.m31 as int, c1 as int);
    lemma_mul_is_associative(r3 as int, b.m32 as int, c2 as int);
    lemma_mul_is_associative(r3 as int, b.m33 as int, c3 as int);
}

/// Four-term sums distribute over a right factor.
proof fn lemma_dist4_right(x0: int, x1: int, x2: int, x3: int, c: int)
    ensures
        (x0 + x1 + x2 + x3) * c == x0 * c + x1 * c + x2 * c + x3 * c,
{
    lemma_mul_is_distributive_add_other_way(c, x0 + x1 + x2, x3);
    lemma_mul_is_distributive_add_other_way(c, x0 + x1, x2);
    lemma_mul_is_distributive_add_other_way(c, x0, x1);
}

/// Four-term sums distribute over a left factor.
proof fn lemma_dist4_left(r: int, y0: int, y1: int, y2: int, y3: int)
    ensures
        r * (y0 + y1 + y2 + y3) == r * y0 + r * y1 + r * y2 + r * y3,
{
    lemma_mul_is_distributive_add(r, y0 + y1 + y2, y3);
    lemma_mul_is_distributive_add(r, y0 + y1, y2);
    lemma_mul_is_distributive_add(r, y0, y1);
}

/// Matrix multiplication is associative.
pub proof fn lemma_mat_mul_assoc(a: Mat4, b: Mat4, c: Mat4)
    ensures
        mat_mul(mat_mul(a, b), c) == mat_mul(a, mat_mul(b, c)),
{
    lemma_dot_assoc(a.m00, a.m01, a.m02, a.m03, b, c.m00, c.m10, c.m20, c.m30);
    lemma_dot_assoc(a.m00, a.m01, a.m02, a.m03, b, c.m01, c.m11, c.m21, c.m31);
    lemma_dot_assoc(a.m00, a.m01, a.m02, a.m03, b, c.m02, c.m12, c.m22, c.m32);
    lemma_dot_assoc(a.m00, a.m01, a.m02, a.m03, b, c.m03, c.m13, c.m23, c.m33);
    lemma_dot_assoc(a.m10, a.m11, a.m12, a.m13, b, c.m00, c.m10, c.m20, c.m30);
    lemma_dot_assoc(a.m10, a.m11, a.m12, a.m13, b, c.m01, c.m11, c.m21, c.m31);
    lemma_dot_assoc(a.m10, a.m11, a.m12, a.m13, b, c.m02, c.m12, c.m22, c.m32);
    lemma_dot_assoc(a.m10, a.m11, a.m12, a.m13, b, c.m03, c.m13, c.m23, c.m33);
    lemma_dot_assoc(a.m20, a.m21, a.m22, a.m23, b, c.m00, c.m10, c.m20, c.m30);
    lemma_dot_assoc(a.m20, a.m21, a.m22, a.m23, b, c.m01, c.m11, c.m21, c.m31);
    lemma_dot_assoc(a.m20, a.m21, a.m22, a.m23, b, c.m02, c.m12, c.m22, c.m32);
    lemma_dot_assoc(a.m20, a.m21, a.m22, a.m23, b, c.m03, c.m13, c.m23, c.m33);
    lemma_dot_assoc(a.m30, a.m31, a.m32, a.m33, b, c.m00, c.m10, c.m20, c.m30);
    lemma_dot_assoc(a.m30, a.m31, a.m32, a.m33, b, c.m01, c.m11, c.m21, c.m31);
    lemma_dot_assoc(a.m30, a.m31, a.m32, a.m33, b, c.m02, c.m12, c.m22, c.m32);
    lemma_dot_assoc(a.m30, a.m31, a.m32, a.m33, b, c.m03, c.m13, c.m23, c.m33);
}

/// The identity matrix is a left unit for matrix multiplication.
pub proof fn lemma_mat_mul_identity_left(b: Mat4)
    ensures
        mat_mul(mat_identity(), b) == b,
{
    lemma_wrap_id(b.m00 as int);
    lemma_wrap_id(b.m01 as int);
    lemma_wrap_id(b.m02 as int);
    lemma_wrap_id(b.m03 as int);
    lemma_wrap_id(b.m10 as int);
    lemma_wrap_id(b.m11 as int);
    lemma_wrap_id(b.m12 as int);
    lemma_wrap_id(b.m13 as int);
    lemma_wrap_id(b.m20 as int);
    lemma_wrap_id(b.m21 as int);
    lemma_wrap_id(b.m22 as int);
    lemma_wrap_id(b.m23 as int);
    lemma_wrap_id(b.m30 as int);
    lemma_wrap_id(b.m31 as int);
    lemma_wrap_id(b.m32 as int);
    lemma_wrap_id(b.m33 as int);
}

/// The identity matrix is a right unit for matrix multiplication.
pub proof fn lemma_mat_mul_identity_right(a: Mat4)
    ensures
        mat_mul(a, mat_identity()) == a,
{
    lemma_wrap_id(a.m00 as int);
    lemma_wrap_id(a.m01 as int);
    lemma_wrap_id(a.m02 as int);
    lemma_wrap_id(a.m03 as int);
    lemma_wrap_id(a.m10 as int);
    lemma_wrap_id(a.m11 as int);
    lemma_wrap_id(a.m12 as int);
    lemma_wrap_id(a.m13 as int);
    lemma_wrap_id(a.m20 as int);
    lemma_wrap_id(a.m21 as int);
    lemma_wrap_id(a.m22 as int);
    lemma_wrap_id(a.m23 as int);
    lemma_wrap_id(a.m30 as int);
    lemma_wrap_id(a.m31 as int);
    lemma_wrap_id(a.m32 as int);
    lemma_wrap_id(a.m33 as int);
}

/// A product of affine matrices is affine.
pub proof fn lemma_mat_mul_affine(a: Mat4, b: Mat4)
    requires
        is_affine(a),
        is_affine(b),
    ensures
        is_affine(mat_mul(a, b)),
{
    lemma_wrap_id(b.m30 as int);
    lemma_wrap_id(b.m31 as int);
    lemma_wrap_id(b.m32 as int);
    lemma_wrap_id(b.m33 as int);
}

/// Transforming the origin reads off the translation column.
pub proof fn lemma_apply_origin(m: Mat4)
    ensures
        apply_point(m, vec3_zero()) == (Vec3 { x: m.m03, y: m.m13, z: m.m23 }),
{
    lemma_wrap_id(m.m03 as int);
    lemma_wrap_id(m.m13 as int);
    lemma_wrap_id(m.m23 as int);
}

/// Applying a product of matrices to a point applies the right factor
/// first (the right factor must be affine so that the intermediate point
/// keeps a unit fourth component).
pub proof fn lemma_apply_compose(a: Mat4, b: Mat4, v: Vec3)
    requires
        is_affine(b),
    ensures
        apply_point(mat_mul(a, b), v) == apply_point(a, apply_point(b, v)),
{
    lemma_dot_assoc(a.m00, a.m01, a.m02, a.m03, b, v.x, v.y, v.z, 1);
    lemma_dot_assoc(a.m10, a.m11, a.m12, a.m13, b, v.x, v.y, v.z, 1);
    lemma_dot_assoc(a.m20, a.m21, a.m22, a.m23, b, v.x, v.y, v.z, 1);
    assert(dot4(b.m30, b.m31, b.m32, b.m33, v.x, v.y, v.z, 1) == 1) by {
        lemma_wrap_id(1);
    }
}

/// Multiplying on the right by a matrix whose last column is `(0,0,0,1)`
/// keeps the left factor's translation column.
pub proof fn lemma_mul_keeps_col3(a: Mat4, b: Mat4)
    requires
        b.m03 == 0,
        b.m13 == 0,
        b.m23 == 0,
        b.m33 == 1,
    ensures
        mat_mul(a, b).m03 == a.m03,
        mat_mul(a, b).m13 == a.m13,
        mat_mul(a, b).m23 == a.m23,
        mat_mul(a, b).m33 == a.m33,
{
    lemma_wrap_id(a.m03 as int);
    lemma_wrap_id(a.m13 as int);
    lemma_wrap_id(a.m23 as int);
    lemma_wrap_id(a.m33 as int);
}

/// Wrapped four-term dot product, executable form.
pub fn dot4_exec(a0: i64, a1: i64, a2: i64, a3: i64, b0: i64, b1: i64, b2: i64, b3: i64) -> (r: i64)
    ensures
        r == dot4(a0, a1, a2, a3, b0, b1, b2, b3),
{
    let r = sc_add(sc_add(sc_add(sc_mul(a0, b0), sc_mul(a1, b1)), sc_mul(a2, b2)), sc_mul(a3, b3));
    proof {
        lemma_wrap_add2(a0 * b0, a1 * b1);
        lemma_wrap_add2(a0 * b0 + a1 * b1, a2 * b2);
        lemma_wrap_add2(a0 * b0 + a1 * b1 + a2 * b2, a3 * b3);
    }
    r
}

impl Mat4 {
    pub fn identity() -> (r: Mat4)
        ensures
            r == mat_identity(),
    {
        Mat4 {
            m00: 1,
            m01: 0,
            m02: 0,
            m03: 0,
            m10: 0,
            m11: 1,
            m12: 0,
            m13: 0,
            m20: 0,
            m21: 0,
            m22: 1,
            m23: 0,
            m30: 0,
            m31: 0,
            m32: 0,
            m33: 1,
        }
    }

    pub fn translation(p: Vec3) -> (r: Mat4)
        ensures
            r == translation_mat(p),
    {
        Mat4 {
            m00: 1,
            m01: 0,
            m02: 0,
            m03: p.x,
            m10: 0,
            m11: 1,
            m12: 0,
            m13: p.y,
            m20: 0,
            m21: 0,
            m22: 1,
            m23: p.z,
            m30: 0,
            m31: 0,
            m32: 0,
            m33: 1,
        }
    }

    pub fn scaling(s: Vec3) -> (r: Mat4)
        ensures
            r == scale_mat(s),
    {
        Mat4 {
            m00: s.x,
            m01: 0,
            m02: 0,
            m03: 0,
            m10: 0,
            m11: s.y,
            m12: 0,
            m13: 0,
            m20: 0,
            m21: 0,
            m22: s.z,
            m23: 0,
            m30: 0,
            m31: 0,
            m32: 0,
            m33: 1,
        }
    }

    pub fn rotation_x(a: i64) -> (r: Mat4)
        ensures
            r == rot_x_mat(a),
    {
        let c = cos_qt(a);
        let s = sin_qt(a);
        let ns = sc_neg(s);
        Mat4 {
            m00: 1,
            m01: 0,
            m02: 0,
            m03: 0,
            m10: 0,
            m11: c,
            m12: ns,
            m13: 0,
            m20: 0,
            m21: s,
            m22: c,
            m23: 0,
            m30: 0,
            m31: 0,
            m32: 0,
            m33: 1,
        }
    }

    pub fn rotation_y(a: i64) -> (r: Mat4)
        ensures
            r == rot_y_mat(a),
    {
        let c = cos_qt(a);
        let s = sin_qt(a);
        let ns = sc_neg(s);
        Mat4 {
            m00: c,
            m01: 0,
            m02: s,
            m03: 0,
            m10: 0,
            m11: 1,
            m12: 0,
            m13: 0,
            m20: ns,
            m21: 0,
            m22: c,
            m23: 0,
            m30: 0,
            m31: 0,
            m32: 0,
            m33: 1,
        }
    }

    pub fn rotation_z(a: i64) -> (r: Mat4)
        ensures
            r == rot_z_mat(a),
    {
        let c = cos_qt(a);
        let s = sin_qt(a);
        let ns = sc_neg(s);
        Mat4 {
            m00: c,
            m01: ns,
            m02: 0,
            m03: 0,
            m10: s,
            m11: c,
            m12: 0,
            m13: 0,
            m20: 0,
            m21: 0,
            m22: 1,
            m23: 0,
            m30: 0,
            m31: 0,
            m32: 0,
            m33: 1,
        }
    }

    /// Matrix product `self * o`.
    pub fn times(&self, o: &Mat4) -> (r: Mat4)
        ensures
            r == mat_mul(*self, *o),
    {
        Mat4 {
            m00: dot4_exec(self.m00, self.m01, self.m02, self.m03, o.m00, o.m10, o.m20, o.m30),
            m01: dot4_exec(self.m00, self.m01, self.m02, self.m03, o.m01, o.m11, o.m21, o.m31),
            m02: dot4_exec(self.m00, self.m01, self.m02, self.m03, o.m02, o.m12, o.m22, o.m32),
            m03: dot4_exec(self.m00, self.m01, self.m02, self.m03, o.m03, o.m13, o.m23, o.m33),
            m10: dot4_exec(self.m10, self.m11, self.m12, self.m13, o.m00, o.m10, o.m20, o.m30),
            m11: dot4_exec(self.m10, self.m11, self.m12, self.m13, o.m01, o.m11, o.m21, o.m31),
            m12: dot4_exec(self.m10, self.m11, self.m12, self.m13, o.m02, o.m12, o.m22, o.m32),
            m13: dot4_exec(self.m10, self.m11, self.m12, self.m13, o.m03, o.m13, o.m23, o.m33),
            m20: dot4_exec(self.m20, self.m21, self.m22, self.m23, o.m00, o.m10, o.m20, o.m30),
            m21: dot4_exec(self.m20, self.m21, self.m22, self.m23, o.m01, o.m11, o.m21, o.m31),
            m22: dot4_exec(self.m20, self.m21, self.m22, self.m23, o.m02, o.m12, o.m22, o.m32),
            m23: dot4_exec(self.m20, self.m21, self.m22, self.m23, o.m03, o.m13, o.m23, o.m33),
            m30: dot4_exec(self.m30, self.m31, self.m32, self.m33, o.m00, o.m10, o.m20, o.m30),
            m31: dot4_exec(self.m30, self.m31, self.m32, self.m33, o.m01, o.m11, o.m21, o.m31),
            m32: dot4_exec(self.m30, self.m31, self.m32, self.m33, o.m02, o.m12, o.m22, o.m32),
            m33: dot4_exec(self.m30, self.m31, self.m32, self.m33, o.m03, o.m13, o.m23, o.m33),
        }
    }

    /// Transform the point `v` by this matrix.
    pub fn transform_point(&self, v: Vec3) -> (r: Vec3)
        ensures
            r == apply_point(*self, v),
    {
        Vec3 {
            x: dot4_exec(self.m00, self.m01, self.m02, self.m03, v.x, v.y, v.z, 1),
            y: dot4_exec(self.m10, self.m11, self.m12, self.m13, v.x, v.y, v.z, 1),
            z: dot4_exec(self.m20, self.m21, self.m22, self.m23, v.x, v.y, v.z, 1),
        }
    }
}

/// A local transform: position, Euler rotation (quarter turns, applied
/// x then y then z), and per-axis scale.
#[derive(Clone, Copy, PartialEq, Eq, Structural, Debug)]
pub struct Transform {
    pub position: Vec3,
    pub rotation: Vec3,
    pub scale: Vec3,
}

/// The transform of a freshly created node: zero position and rotation,
/// unit scale.
pub open spec fn default_transform() -> Transform {
    Transform { position: vec3_zero(), rotation: vec3_zero(), scale: vec3_ones() }
}

impl Transform {
    pub fn new() -> (t: Transform)
        ensures
            t == default_transform(),
    {
        Transform { position: Vec3::zero(), rotation: Vec3::zero(), scale: Vec3::ones() }
    }
}

/// A local transform composed into a single matrix:
/// `translation * rotation_x * rotation_y * rotation_z * scale`.
pub open spec fn model_mat_of(t: Transform) -> Mat4 {
    mat_mul(
        mat_mul(
            mat_mul(
                mat_mul(translation_mat(t.position), rot_x_mat(t.rotation.x)),
                rot_y_mat(t.rotation.y),
            ),
            rot_z_mat(t.rotation.z),
        ),
        scale_mat(t.scale),
    )
}

/// Model matrices are affine.
pub proof fn lemma_model_affine(t: Transform)
    ensures
        is_affine(model_mat_of(t)),
{
    let a = translation_mat(t.position);
    let b = mat_mul(a, rot_x_mat(t.rotation.x));
    let c = mat_mul(b, rot_y_mat(t.rotation.y));
    let d = mat_mul(c, rot_z_mat(t.rotation.z));
    lemma_mat_mul_affine(a, rot_x_mat(t.rotation.x));
    lemma_mat_mul_affine(b, rot_y_mat(t.rotation.y));
    lemma_mat_mul_affine(c, rot_z_mat(t.rotation.z));
    lemma_mat_mul_affine(d, scale_mat(t.scale));
}

/// The translation column of a model matrix is the local position, whatever
/// the rotation and scale.
pub proof fn lemma_model_col3(t: Transform)
    ensures
        model_mat_of(t).m03 == t.position.x,
        model_mat_of(t).m13 == t.position.y,
        model_mat_of(t).m23 == t.position.z,
        model_mat_of(t).m33 == 1,
{
    let a = translation_mat(t.position);
    let b = mat_mul(a, rot_x_mat(t.rotation.x));
    let c = mat_mul(b, rot_y_mat(t.rotation.y));
    let d = mat_mul(c, rot_z_mat(t.rotation.z));
    lemma_mul_keeps_col3(a, rot_x_mat(t.rotation.x));
    lemma_mul_keeps_col3(b, rot_y_mat(t.rotation.y));
    lemma_mul_keeps_col3(c, rot_z_mat(t.rotation.z));
    lemma_mul_keeps_col3(d, scale_mat(t.scale));
}

/// Rotation by zero quarter turns is the identity, about any axis.
pub proof fn lemma_rot_zero()
    ensures
        rot_x_mat(0) == mat_identity(),
        rot_y_mat(0) == mat_identity(),
        rot_z_mat(0) == mat_identity(),
{
    lemma_wrap_id(0);
}

/// Unit scale is the identity.
pub proof fn lemma_scale_ones()
    ensures
        scale_mat(vec3_ones()) == mat_identity(),
{
}

/// The identity matrix moves no point.
pub proof fn lemma_apply_identity(v: Vec3)
    ensures
        apply_point(mat_identity(), v) == v,
{
    lemma_wrap_id(v.x as int);
    lemma_wrap_id(v.y as int);
    lemma_wrap_id(v.z as int);
}

/// A translation matrix adds its offset to a point.
pub proof fn lemma_apply_translation(p: Vec3, v: Vec3)
    ensures
        apply_point(translation_mat(p), v) == vadd(v, p),
{
}

/// Dividing component-wise by the all-ones vector changes nothing.
pub proof fn lemma_vdiv_ones(v: Vec3)
    ensures
        vdiv(v, vec3_ones()) == v,
{
    vstd::arithmetic::div_mod::lemma_div_basics(v.x as int);
    vstd::arithmetic::div_mod::lemma_div_basics(v.y as int);
    vstd::arithmetic::div_mod::lemma_div_basics(v.z as int);
    lemma_wrap_id(v.x as int);
    lemma_wrap_id(v.y as int);
    lemma_wrap_id(v.z as int);
}

/// Subtracting and then adding the same vector round-trips.
pub proof fn lemma_vsub_vadd_cancel(a: Vec3, b: Vec3)
    ensures
        vadd(vsub(a, b), b) == a,
{
    lemma_wrap_id(b.x as int);
    lemma_wrap_id(b.y as int);
    lemma_wrap_id(b.z as int);
    lemma_wrap_add2(a.x - b.x, b.x as int);
    lemma_wrap_add2(a.y - b.y, b.y as int);
    lemma_wrap_add2(a.z - b.z, b.z as int);
    lemma_wrap_id(a.x as int);
    lemma_wrap_id(a.y as int);
    lemma_wrap_id(a.z as int);
}

/// Negating twice under wrapping round-trips.
pub proof fn lemma_wrap_neg_neg(x: i64)
    ensures
        wrap(-(wrap(-x) as int)) == x,
{
    let m = sc_modulus();
    lemma_wrap_mod(-(x as int));
    lemma_mul_mod_noop_left(wrap(-x) as int, -1, m);
    lemma_mul_mod_noop_left(-(x as int), -1, m);
    lemma_wrap_congruent(wrap(-x) * -1, (x as int) * 1);
    lemma_wrap_id(x as int);
}

/// Negating an angle keeps its cosine and negates its sine.
pub proof fn lemma_qturn_neg(a: i64)
    ensures
        qcos(wrap(-a)) == qcos(a),
        qsin(wrap(-a)) + qsin(a) == 0,
{
    let m = sc_modulus();
    lemma_wrap_mod(-(a as int));
    vstd::arithmetic::div_mod::lemma_mod_mod(wrap(-a) as int, 4, 0x4000_0000_0000_0000);
    vstd::arithmetic::div_mod::lemma_mod_mod(-(a as int), 4, 0x4000_0000_0000_0000);
    assert(qturn(wrap(-a)) == (-(a as int)) % 4);
    vstd::arithmetic::div_mod::lemma_fundamental_div_mod(a as int, 4);
    if (a as int) % 4 == 0 {
        lemma_fundamental_div_mod_converse_mod(-(a as int), 4, -((a as int) / 4), 0);
    } else {
        lemma_fundamental_div_mod_converse_mod(
            -(a as int),
            4,
            -((a as int) / 4) - 1,
            4 - ((a as int) % 4),
        );
    }
}

/// Rotating by an angle undoes rotating by its negation, about each axis.
#[verifier::rlimit(30)]
pub proof fn lemma_rot_x_cancel(a: i64, v: Vec3)
    ensures
        apply_point(rot_x_mat(a), apply_point(rot_x_mat(wrap(-a)), v)) == v,
{
    lemma_qturn_neg(a);
    lemma_wrap_id(0);
    lemma_wrap_id(1);
    lemma_wrap_id(-1);
    lemma_wrap_id(v.x as int);
    lemma_wrap_id(v.y as int);
    lemma_wrap_id(v.z as int);
    lemma_wrap_neg_neg(v.y);
    lemma_wrap_neg_neg(v.z);
    let u = apply_point(rot_x_mat(wrap(-a)), v);
    lemma_wrap_id(u.y as int);
    lemma_wrap_neg_neg(u.y);
    lemma_wrap_id(u.z as int);
    lemma_wrap_neg_neg(u.z);
    let r = apply_point(rot_x_mat(a), u);
    let q = qturn(a);
    assert(u.x == v.x);
    assert(r.x == v.x);
    if q == 0 {
        assert(u.y == wrap(0 * v.x + 1 * v.y + 0 * v.z + 0 * 1));
        assert(u.y == v.y);
        assert(u.z == wrap(0 * v.x + 0 * v.y + 1 * v.z + 0 * 1));
        assert(u.z == v.z);
        assert(r.y == wrap(0 * u.x + 1 * u.y + 0 * u.z + 0 * 1));
        assert(r.y == u.y);
        assert(r.y == v.y);
        assert(r.z == wrap(0 * u.x + 0 * u.y + 1 * u.z + 0 * 1));
        assert(r.z == u.z);
        assert(r.z == v.z);
    } else if q == 1 {
        assert(u.y == wrap(0 * v.x + 0 * v.y + 1 * v.z + 0 * 1));
        assert(u.y == v.z);
        assert(u.z == wrap(0 * v.x + -1 * v.y + 0 * v.z + 0 * 1));
        assert(u.z == wrap(-(v.y as int)));
        assert(r.y == wrap(0 * u.x + 0 * u.y + -1 * u.z + 0 * 1));
        assert(r.y == wrap(-(u.z as int)));
        assert(r.y == v.y);
        assert(r.z == wrap(0 * u.x + 1 * u.y + 0 * u.z + 0 * 1));
        assert(r.z == u.y);
        assert(r.z == v.z);
    } else if q == 2 {
        assert(u.y == wrap(0 * v.x + -1 * v.y + 0 * v.z + 0 * 1));
        assert(u.y == wrap(-(v.y as int)));
        assert(u.z == wrap(0 * v.x + 0 * v.y + -1 * v.z + 0 * 1));
        assert(u.z == wrap(-(v.z as int)));
        assert(r.y == wrap(0 * u.x + -1 * u.y + 0 * u.z + 0 * 1));
        assert(r.y == wrap(-(u.y as int)));
        assert(r.y == v.y);
        assert(r.z == wrap(0 * u.x + 0 * u.y + -1 * u.z + 0 * 1));
        assert(r.z == wrap(-(u.z as int)));
        assert(r.z == v.z);
    } else {
        assert(u.y == wrap(0 * v.x + 0 * v.y + -1 * v.z + 0 * 1));
        assert(u.y == wrap(-(v.z as int)));
        assert(u.z == wrap(0 * v.x + 1 * v.y + 0 * v.z + 0 * 1));
        assert(u.z == v.y);
        assert(r.y == wrap(0 * u.x + 0 * u.y + 1 * u.z + 0 * 1));
        assert(r.y == u.z);
        assert(r.y == v.y);
        assert(r.z == wrap(0 * u.x + -1 * u.y + 0 * u.z + 0 * 1));
        assert(r.z == wrap(-(u.y as int)));
        assert(r.z == v.z);
    }
}

/// Rotating by an angle undoes rotating by its negation, about each axis.
#[verifier::rlimit(30)]
pub proof fn lemma_rot_y_cancel(a: i64, v: Vec3)
    ensures
        apply_point(rot_y_mat(a), apply_point(rot_y_mat(wrap(-a)), v)) == v,
{
    lemma_qturn_neg(a);
    lemma_wrap_id(0);
    lemma_wrap_id(1);
    lemma_wrap_id(-1);
    lemma_wrap_id(v.x as int);
    lemma_wrap_id(v.y as int);
    lemma_wrap_id(v.z as int);
    lemma_wrap_neg_neg(v.x);
    lemma_wrap_neg_neg(v.z);
    let u = apply_point(rot_y_mat(wrap(-a)), v);
    lemma_wrap_id(u.x as int);
    lemma_wrap_neg_neg(u.x);
    lemma_wrap_id(u.z as int);
    lemma_wrap_neg_neg(u.z);
    let r = apply_point(rot_y_mat(a), u);
    let q = qturn(a);
    assert(u.y == v.y);
    assert(r.y == v.y);
    if q == 0 {
        assert(u.x == wrap(1 * v.x + 0 * v.y + 0 * v.z + 0 * 1));
        assert(u.x == v.x);
        assert(u.z == wrap(0 * v.x + 0 * v.y + 1 * v.z + 0 * 1));
        assert(u.z == v.z);
        assert(r.x == wrap(1 * u.x + 0 * u.y + 0 * u.z + 0 * 1));
        assert(r.x == u.x);
        assert(r.x == v.x);
        assert(r.z == wrap(0 * u.x + 0 * u.y + 1 * u.z + 0 * 1));
        assert(r.z == u.z);
        assert(r.z == v.z);
    } else if q == 1 {
        assert(u.x == wrap(0 * v.x + 0 * v.y + -1 * v.z + 0 * 1));
        assert(u.x == wrap(-(v.z as int)));
        assert(u.z == wrap(1 * v.x + 0 * v.y + 0 * v.z + 0 * 1));
        assert(u.z == v.x);
        assert(r.x == wrap(0 * u.x + 0 * u.y + 1 * u.z + 0 * 1));
        assert(r.x == u.z);
        assert(r.x == v.x);
        assert(r.z == wrap(-1 * u.x + 0 * u.y + 0 * u.z + 0 * 1));
        assert(r.z == wrap(-(u.x as int)));
        assert(r.z == v.z);
    } else if q == 2 {
        assert(u.x == wrap(-1 * v.x + 0 * v.y + 0 * v.z + 0 * 1));
        assert(u.x == wrap(-(v.x as int)));
        assert(u.z == wrap(0 * v.x + 0 * v.y + -1 * v.z + 0 * 1));
        assert(u.z == wrap(-(v.z as int)));
        assert(r.x == wrap(-1 * u.x + 0 * u.y + 0 * u.z + 0 * 1));
        assert(r.x == wrap(-(u.x as int)));
        assert(r.x == v.x);
        assert(r.z == wrap(0 * u.x + 0 * u.y + -1 * u.z + 0 * 1));
        assert(r.z == wrap(-(u.z as int)));
        assert(r.z == v.z);
    } else {
        assert(u.x == wrap(0 * v.x + 0 * v.y + 1 * v.z + 0 * 1));
        assert(u.x == v.z);
        assert(u.z == wrap(-1 * v.x + 0 * v.y + 0 * v.z + 0 * 1));
        assert(u.z == wrap(-(v.x as int)));
        assert(r.x == wrap(0 * u.x + 0 * u.y + -1 * u.z + 0 * 1));
        assert(r.x == wrap(-(u.z as int)));
        assert(r.x == v.x);
        assert(r.z == wrap(1 * u.x + 0 * u.y + 0 * u.z + 0 * 1));
        assert(r.z == u.x);
        assert(r.z == v.z);
    }
}

/// Rotating by an angle undoes rotating by its negation, about each axis.
#[verifier::rlimit(30)]
pub proof fn lemma_rot_z_cancel(a: i64, v: Vec3)
    ensures
        apply_point(rot_z_mat(a), apply_point(rot_z_mat(wrap(-a)), v)) == v,
{
    lemma_qturn_neg(a);
    lemma_wrap_id(0);
    lemma_wrap_id(1);
    lemma_wrap_id(-1);
    lemma_wrap_id(v.x as int);
    lemma_wrap_id(v.y as int);
    lemma_wrap_id(v.z as int);
    lemma_wrap_neg_neg(v.x);
    lemma_wrap_neg_neg(v.y);
    let u = apply_point(rot_z_mat(wrap(-a)), v);
    lemma_wrap_id(u.x as int);
    lemma_wrap_neg_neg(u.x);
    lemma_wrap_id(u.y as int);
    lemma_wrap_neg_neg(u.y);
    let r = apply_point(rot_z_mat(a), u);
    let q = qturn(a);
    assert(u.z == v.z);
    assert(r.z == v.z);
    if q == 0 {
        assert(u.x == wrap(1 * v.x + 0 * v.y + 0 * v.z + 0 * 1));
        assert(u.x == v.x);
        assert(u.y == wrap(0 * v.x + 1 * v.y + 0 * v.z + 0 * 1));
        assert(u.y == v.y);
        assert(r.x == wrap(1 * u.x + 0 * u.y + 0 * u.z + 0 * 1));
        assert(r.x == u.x);
        assert(r.x == v.x);
        assert(r.y == wrap(0 * u.x + 1 * u.y + 0 * u.z + 0 * 1));
        assert(r.y == u.y);
        assert(r.y == v.y);
    } else if q == 1 {
        assert(u.x == wrap(0 * v.x + 1 * v.y + 0 * v.z + 0 * 1));
        assert(u.x == v.y);
        assert(u.y == wrap(-1 * v.x + 0 * v.y + 0 * v.z + 0 * 1));
        assert(u.y == wrap(-(v.x as int)));
        assert(r.x == wrap(0 * u.x + -1 * u.y + 0 * u.z + 0 * 1));
        assert(r.x == wrap(-(u.y as int)));
        assert(r.x == v.x);
        assert(r.y == wrap(1 * u.x + 0 * u.y + 0 * u.z + 0 * 1));
        assert(r.y == u.x);
        assert(r.y == v.y);
    } else if q == 2 {
        assert(u.x == wrap(-1 * v.x + 0 * v.y + 0 * v.z + 0 * 1));
        assert(u.x == wrap(-(v.x as int)));
        assert(u.y == wrap(0 * v.x + -1 * v.y + 0 * v.z + 0 * 1));
        assert(u.y == wrap(-(v.y as int)));
        assert(r.x == wrap(-1 * u.x + 0 * u.y + 0 * u.z + 0 * 1));
        assert(r.x == wrap(-(u.x as int)));
        assert(r.x == v.x);
        assert(r.y == wrap(0 * u.x + -1 * u.y + 0 * u.z + 0 * 1));
        assert(r.y == wrap(-(u.y as int)));
        assert(r.y == v.y);
    } else {
        assert(u.x == wrap(0 * v.x + -1 * v.y + 0 * v.z + 0 * 1));
        assert(u.x == wrap(-(v.y as int)));
        assert(u.y == wrap(1 * v.x + 0 * v.y + 0 * v.z + 0 * 1));
        assert(u.y == v.x);
        assert(r.x == wrap(0 * u.x + 1 * u.y + 0 * u.z + 0 * 1));
        assert(r.x == u.y);
        assert(r.x == v.x);
        assert(r.y == wrap(-1 * u.x + 0 * u.y + 0 * u.z + 0 * 1));
        assert(r.y == wrap(-(u.x as int)));
        assert(r.y == v.y);
    }
}

/// With unit scale, a local transform undoes its own inverse: the matrix
/// carries `inv_local(t, v)` back to `v`, whatever the translation and
/// rotation.
pub proof fn lemma_model_inv(t: Transform, v: Vec3)
    requires
        t.scale == vec3_ones(),
    ensures
        apply_point(model_mat_of(t), inv_local(t, v)) == v,
{
    let a = translation_mat(t.position);
    let rx = rot_x_mat(t.rotation.x);
    let ry = rot_y_mat(t.rotation.y);
    let rz = rot_z_mat(t.rotation.z);
    lemma_scale_ones();
    let v1 = vsub(v, t.position);
    let v2 = apply_point(rot_x_mat(wrap(-t.rotation.x)), v1);
    let v3 = apply_point(rot_y_mat(wrap(-t.rotation.y)), v2);
    let v4 = apply_point(rot_z_mat(wrap(-t.rotation.z)), v3);
    lemma_vdiv_ones(v4);
    let w = inv_local(t, v);
    assert(w == v4);
    lemma_mat_mul_identity_right(mat_mul(mat_mul(mat_mul(a, rx), ry), rz));
    assert(model_mat_of(t) == mat_mul(mat_mul(mat_mul(a, rx), ry), rz));
    lemma_apply_compose(mat_mul(mat_mul(a, rx), ry), rz, w);
    lemma_rot_z_cancel(t.rotation.z, v3);
    lemma_apply_compose(mat_mul(a, rx), ry, v3);
    lemma_rot_y_cancel(t.rotation.y, v2);
    lemma_apply_compose(a, rx, v2);
    lemma_rot_x_cancel(t.rotation.x, v1);
    lemma_apply_translation(t.position, v1);
    lemma_vsub_vadd_cancel(v, t.position);
}

/// A matrix that only scales by `d` and translates: zero off-diagonal
/// linear entries, diagonal `d`, affine bottom row.
pub open spec fn scale_translation_form(m: Mat4, d: Vec3) -> bool {
    &&& m.m00 == d.x
    &&& m.m01 == 0
    &&& m.m02 == 0
    &&& m.m10 == 0
    &&& m.m11 == d.y
    &&& m.m12 == 0
    &&& m.m20 == 0
    &&& m.m21 == 0
    &&& m.m22 == d.z
    &&& is_affine(m)
}

/// Scale-and-translate matrices are closed under multiplication, and
/// their diagonals multiply component-wise.
pub proof fn lemma_st_mul(a: Mat4, b: Mat4, d1: Vec3, d2: Vec3)
    requires
        scale_translation_form(a, d1),
        scale_translation_form(b, d2),
    ensures
        scale_translation_form(mat_mul(a, b), vmul(d1, d2)),
{
    lemma_wrap_id(0);
    lemma_wrap_id(1);
}

/// With zero rotation a local transform's matrix is translation times
/// scale.
pub proof fn lemma_model_no_rot(t: Transform)
    requires
        t.rotation == vec3_zero(),
    ensures
        model_mat_of(t) == mat_mul(translation_mat(t.position), scale_mat(t.scale)),
        scale_translation_form(model_mat_of(t), t.scale),
{
    lemma_rot_zero();
    let a = translation_mat(t.position);
    lemma_mat_mul_identity_right(a);
    lemma_mat_mul_identity_right(mat_mul(a, mat_identity()));
    lemma_mat_mul_identity_right(mat_mul(mat_mul(a, mat_identity()), mat_identity()));
    lemma_wrap_id(t.scale.x as int);
    lemma_wrap_id(t.scale.y as int);
    lemma_wrap_id(t.scale.z as int);
    lemma_wrap_id(t.position.x as int);
    lemma_wrap_id(t.position.y as int);
    lemma_wrap_id(t.position.z as int);
    lemma_wrap_id(0);
    lemma_wrap_id(1);
}

/// Apply the inverse of a local transform to a point: undo the
/// translation, the rotations (in reverse axis order, by the negated
/// angles), and the scale (by truncating division).  Defined only when
/// every scale component is nonzero.
pub open spec fn inv_local(t: Transform, v: Vec3) -> Vec3 {
    let v1 = vsub(v, t.position);
    let v2 = apply_point(rot_x_mat(wrap(-t.rotation.x)), v1);
    let v3 = apply_point(rot_y_mat(wrap(-t.rotation.y)), v2);
    let v4 = apply_point(rot_z_mat(wrap(-t.rotation.z)), v3);
    vdiv(v4, t.scale)
}

/// Apply the inverse of a local transform to a point.
pub fn inverse_local_exec(t: &Transform, v: Vec3) -> (r: Vec3)
    requires
        t.scale.x != 0,
        t.scale.y != 0,
        t.scale.z != 0,
    ensures
        r == inv_local(*t, v),
{
    let v1 = vec_sub(v, t.position);
    let v2 = Mat4::rotation_x(sc_neg(t.rotation.x)).transform_point(v1);
    let v3 = Mat4::rotation_y(sc_neg(t.rotation.y)).transform_point(v2);
    let v4 = Mat4::rotation_z(sc_neg(t.rotation.z)).transform_point(v3);
    vec_div(v4, t.scale)
}

/// Build the model matrix of a local transform.
pub fn model_matrix_exec(t: &Transform) -> (r: Mat4)
    ensures
        r == model_mat_of(*t),
{
    let tr = Mat4::translation(t.position);
    let rx = Mat4::rotation_x(t.rotation.x);
    let ry = Mat4::rotation_y(t.rotation.y);
    let rz = Mat4::rotation_z(t.rotation.z);
    let sc = Mat4::scaling(t.scale);
    tr.times(&rx).times(&ry).times(&rz).times(&sc)
}

} // verus!
