use vstd::prelude::*;

use crate::geom::{dot4, small, COORD_LIMIT, Frustum, Plane, Vec3, Vec4};
use vstd::arithmetic::mul::{
    lemma_mul_is_associative, lemma_mul_is_commutative, lemma_mul_is_distributive_add, lemma_mul_is_distributive_add_other_way,
};

verus! {

/// A 4x4 matrix stored by rows. Points are rows multiplied on the left, so
/// the translation sits in entries 12, 13 and 14, and `a * b` applies `a`
/// first, then `b`.
#[derive(Clone, Copy, Debug, PartialEq, Eq)]
pub struct Mat4(pub [i64; 16]);

/// Entry `(i, j)` of the product `a * b` over mathematical integers.
pub open spec fn entry(a: Mat4, b: Mat4, i: int, j: int) -> int {
    a.0[4 * i] * b.0[j] + a.0[4 * i + 1] * b.0[4 + j] + a.0[4 * i + 2] * b.0[8 + j]
        + a.0[4 * i + 3] * b.0[12 + j]
}

/// The product `a * b`, entry by entry.
pub open spec fn product(a: Mat4, b: Mat4) -> Mat4 {
    Mat4(
        [
            entry(a, b, 0, 0) as i64,
            entry(a, b, 0, 1) as i64,
            entry(a, b, 0, 2) as i64,
            entry(a, b, 0, 3) as i64,
            entry(a, b, 1, 0) as i64,
            entry(a, b, 1, 1) as i64,
            entry(a, b, 1, 2) as i64,
            entry(a, b, 1, 3) as i64,
            entry(a, b, 2, 0) as i64,
            entry(a, b, 2, 1) as i64,
            entry(a, b, 2, 2) as i64,
            entry(a, b, 2, 3) as i64,
            entry(a, b, 3, 0) as i64,
            entry(a, b, 3, 1) as i64,
            entry(a, b, 3, 2) as i64,
            entry(a, b, 3, 3) as i64,
        ],
    )
}

/// The identity matrix.
pub open spec fn identity_spec() -> Mat4 {
    Mat4([1, 0, 0, 0, 0, 1, 0, 0, 0, 0, 1, 0, 0, 0, 0, 1])
}

/// Scaling by `x`, `y` and `z` along the axes.
pub open spec fn scaling(x: i64, y: i64, z: i64) -> Mat4 {
    Mat4([x, 0, 0, 0, 0, y, 0, 0, 0, 0, z, 0, 0, 0, 0, 1])
}

/// Translation by `(x, y, z)`.
pub open spec fn translation(x: i64, y: i64, z: i64) -> Mat4 {
    Mat4([1, 0, 0, 0, 0, 1, 0, 0, 0, 0, 1, 0, x, y, z, 1])
}

/// Sine of `k` quarter turns.
pub open spec fn quarter_sin(k: int) -> int {
    if k % 4 == 1 {
        1
    } else if k % 4 == 3 {
        -1
    } else {
        0
    }
}

/// Cosine of `k` quarter turns.
pub open spec fn quarter_cos(k: int) -> int {
    if k % 4 == 0 {
        1
    } else if k % 4 == 2 {
        -1
    } else {
        0
    }
}

/// The four terms `(qx, qy, qz, qw)` that a rotation by `x`, `y` and `z`
/// half turns is built from: products of the sines and cosines of half those
/// angles, combining the axes in the order x, y, z.
pub open spec fn rotation_terms(x: int, y: int, z: int) -> (int, int, int, int) {
    let (sx, cx) = (quarter_sin(x), quarter_cos(x));
    let (sy, cy) = (quarter_sin(y), quarter_cos(y));
    let (sz, cz) = (quarter_sin(z), quarter_cos(z));
    (
        cy * sx * cz + sy * cx * sz,
        sy * cx * cz - cy * sx * sz,
        cy * cx * sz - sy * sx * cz,
        cy * cx * cz + sy * sx * sz,
    )
}

/// The first of the two factors of a rotation.
pub open spec fn rotation_first(x: int, y: int, z: int) -> Mat4 {
    let (qx, qy, qz, qw) = rotation_terms(x, y, z);
    Mat4(
        [
            qw as i64, -qz as i64, qy as i64, -qx as i64,
            qz as i64, qw as i64, -qx as i64, -qy as i64,
            -qy as i64, qx as i64, qw as i64, -qz as i64,
            qx as i64, qy as i64, qz as i64, qw as i64,
        ],
    )
}

/// The second of the two factors of a rotation.
pub open spec fn rotation_second(x: int, y: int, z: int) -> Mat4 {
    let (qx, qy, qz, qw) = rotation_terms(x, y, z);
    Mat4(
        [
            qw as i64, -qz as i64, qy as i64, qx as i64,
            qz as i64, qw as i64, -qx as i64, qy as i64,
            -qy as i64, qx as i64, qw as i64, qz as i64,
            -qx as i64, -qy as i64, -qz as i64, qw as i64,
        ],
    )
}

/// The rotation by `x`, `y` and `z` half turns about the three axes.
pub open spec fn rotation(x: int, y: int, z: int) -> Mat4 {
    product(rotation_first(x, y, z), rotation_second(x, y, z))
}

/// `v` is one of -1, 0 and 1.
pub open spec fn unit(v: int) -> bool {
    -1 <= v <= 1
}

proof fn lemma_unit_product(a: int, b: int)
    requires
        unit(a),
        unit(b),
    ensures
        unit(a * b),
{
    crate::geom::lemma_bounded_product(a, b, 1);
}

/// Sine and cosine of `k` quarter turns.
fn quarter_sin_cos(k: i64) -> (r: (i64, i64))
    ensures
        r.0 == quarter_sin(k as int),
        r.1 == quarter_cos(k as int),
{
    let m: i64 = k % 4;
    let m: i64 = if m < 0 { m + 4 } else { m };
    if m == 0 {
        (0, 1)
    } else if m == 1 {
        (1, 0)
    } else if m == 2 {
        (0, -1)
    } else {
        (-1, 0)
    }
}

/// The four rotation terms of `x`, `y` and `z` half turns.
fn quarter_rotation_terms(x: i64, y: i64, z: i64) -> (r: (i64, i64, i64, i64))
    ensures
        (r.0 as int, r.1 as int, r.2 as int, r.3 as int) == rotation_terms(x as int, y as int, z as int),
        -2 <= r.0 <= 2 && -2 <= r.1 <= 2 && -2 <= r.2 <= 2 && -2 <= r.3 <= 2,
{
    let (sz, cz) = quarter_sin_cos(z);
    let (sx, cx) = quarter_sin_cos(x);
    let (sy, cy) = quarter_sin_cos(y);
    proof {
        lemma_unit_product(cy as int, sx as int);
        lemma_unit_product((cy * sx) as int, cz as int);
        lemma_unit_product(sy as int, cx as int);
        lemma_unit_product((sy * cx) as int, sz as int);
        lemma_unit_product((cy * sx) as int, sz as int);
        lemma_unit_product((sy * cx) as int, cz as int);
        lemma_unit_product(cy as int, cx as int);
        lemma_unit_product((cy * cx) as int, sz as int);
        lemma_unit_product((cy * cx) as int, cz as int);
        lemma_unit_product(sy as int, sx as int);
        lemma_unit_product((sy * sx) as int, cz as int);
        lemma_unit_product((sy * sx) as int, sz as int);
    }
    let qx = ((cy * sx) * cz) + ((sy * cx) * sz);
    let qy = ((sy * cx) * cz) - ((cy * sx) * sz);
    let qz = ((cy * cx) * sz) - ((sy * sx) * cz);
    let qw = ((cy * cx) * cz) + ((sy * sx) * sz);
    (qx, qy, qz, qw)
}

/// Every entry is between -2 and 2.
pub open spec fn within_two(m: Mat4) -> bool {
    forall|i: int| 0 <= i < 16 ==> -2 <= #[trigger] m.0[i] <= 2
}

proof fn lemma_twos_product_small(a: Mat4, b: Mat4)
    requires
        within_two(a),
        within_two(b),
    ensures
        a.small(),
        b.small(),
        product(a, b).small(),
{
    assert forall|i: int| 0 <= i < 16 implies small(#[trigger] product(a, b).0[i]) by {
        let (r, c) = (i / 4, i % 4);
        assert(0 <= 4 * r < 16 && 0 <= 4 * r + 3 < 16 && 0 <= 12 + c < 16);
        crate::geom::lemma_bounded_product(a.0[4 * r] as int, b.0[c] as int, 2);
        crate::geom::lemma_bounded_product(a.0[4 * r + 1] as int, b.0[4 + c] as int, 2);
        crate::geom::lemma_bounded_product(a.0[4 * r + 2] as int, b.0[8 + c] as int, 2);
        crate::geom::lemma_bounded_product(a.0[4 * r + 3] as int, b.0[12 + c] as int, 2);
        lemma_entry_fits(a, b, r, c);
        assert(i == 4 * r + c);
    }
}

/// Column `j` of the row vector `(x, y, z, w)` times `m`.
pub open spec fn apply(m: Mat4, x: int, y: int, z: int, w: int, j: int) -> int {
    x * m.0[j] + y * m.0[4 + j] + z * m.0[8 + j] + w * m.0[12 + j]
}

/// `p` moved as a position by `m`.
pub open spec fn point_spec(m: Mat4, p: Vec3) -> Vec3 {
    Vec3 {
        x: apply(m, p.x as int, p.y as int, p.z as int, 1, 0) as i64,
        y: apply(m, p.x as int, p.y as int, p.z as int, 1, 1) as i64,
        z: apply(m, p.x as int, p.y as int, p.z as int, 1, 2) as i64,
    }
}

/// `v` turned as a direction by `m`: the translation does not apply.
pub open spec fn dir_spec(m: Mat4, v: Vec3) -> Vec3 {
    Vec3 {
        x: apply(m, v.x as int, v.y as int, v.z as int, 0, 0) as i64,
        y: apply(m, v.x as int, v.y as int, v.z as int, 0, 1) as i64,
        z: apply(m, v.x as int, v.y as int, v.z as int, 0, 2) as i64,
    }
}

/// `v` multiplied by `m` in full.
pub open spec fn vec4_spec(m: Mat4, v: Vec4) -> Vec4 {
    Vec4 {
        x: apply(m, v.x as int, v.y as int, v.z as int, v.w as int, 0) as i64,
        y: apply(m, v.x as int, v.y as int, v.z as int, v.w as int, 1) as i64,
        z: apply(m, v.x as int, v.y as int, v.z as int, v.w as int, 2) as i64,
        w: apply(m, v.x as int, v.y as int, v.z as int, v.w as int, 3) as i64,
    }
}

/// The translation part of `m`.
pub open spec fn translation_of(m: Mat4) -> Vec3 {
    Vec3 { x: m.0[12], y: m.0[13], z: m.0[14] }
}

/// `p` carried by `m`: the normal turns as a direction and the offset grows
/// by the dot product of the turned normal with the translation. Where the
/// turned normal has unit length, that is the projection of the translation
/// on it: `|t|` times the cosine of the angle between them.
pub open spec fn plane_spec(m: Mat4, p: Plane) -> Plane {
    let facing = dir_spec(m, p.facing);
    Plane { facing, offset: (p.offset + facing.dot_spec(translation_of(m))) as i64 }
}

/// `f` carried by `m`: only the center moves.
pub open spec fn frustum_spec(m: Mat4, f: Frustum) -> Frustum {
    Frustum { center: point_spec(m, f.center), ..f }
}

impl Mat4 {
    /// Every entry is in range for multiplication.
    pub open spec fn small(self) -> bool {
        forall|i: int| 0 <= i < 16 ==> small(#[trigger] self.0[i])
    }

    /// Every entry of `self` is the exact integer entry of `a * b`.
    pub open spec fn is_product(self, a: Mat4, b: Mat4) -> bool {
        forall|i: int, j: int| 0 <= i < 4 && 0 <= j < 4 ==> self.0[4 * i + j] == #[trigger] entry(a, b, i, j)
    }

    /// The no-op transform.
    pub fn identity() -> (r: Mat4)
        ensures
            r == identity_spec(),
            r.small(),
    {
        Mat4([1, 0, 0, 0, 0, 1, 0, 0, 0, 0, 1, 0, 0, 0, 0, 1])
    }

    /// Multiply `self` by the matrix with entries `matrix`.
    pub fn matrix(self, matrix: [i64; 16]) -> (r: Mat4)
        requires
            self.small(),
            Mat4(matrix).small(),
        ensures
            r == product(self, Mat4(matrix)),
    {
        self.mul(Mat4(matrix))
    }

    /// Follow `self` by scaling along the three axes.
    pub fn scale(self, x: i64, y: i64, z: i64) -> (r: Mat4)
        requires
            self.small(),
            small(x) && small(y) && small(z),
        ensures
            r == product(self, scaling(x, y, z)),
    {
        self.matrix([x, 0, 0, 0, 0, y, 0, 0, 0, 0, z, 0, 0, 0, 0, 1])
    }

    /// Follow `self` by a translation by `(x, y, z)`.
    pub fn translate(self, x: i64, y: i64, z: i64) -> (r: Mat4)
        requires
            self.small(),
            small(x) && small(y) && small(z),
        ensures
            r == product(self, translation(x, y, z)),
    {
        self.matrix([1, 0, 0, 0, 0, 1, 0, 0, 0, 0, 1, 0, x, y, z, 1])
    }

    /// Follow `self` by a rotation of `x`, `y` and `z` half turns (units of
    /// pi) about the three axes. The rotation is the product of two factors
    /// built from the same four terms, which take sines and cosines of half
    /// the angles. Multiplying `self` by each factor in turn gives the same
    /// matrix wherever that first step stays in range.
    pub fn rotate(self, x: i64, y: i64, z: i64) -> (r: Mat4)
        requires
            self.small(),
        ensures
            r == product(self, rotation(x as int, y as int, z as int)),
            product(self, rotation_first(x as int, y as int, z as int)).small() ==> r == product(
                product(self, rotation_first(x as int, y as int, z as int)),
                rotation_second(x as int, y as int, z as int),
            ),
    {
        let (qx, qy, qz, qw) = quarter_rotation_terms(x, y, z);
        let nx = -qx;
        let ny = -qy;
        let nz = -qz;
        let first = Mat4([qw, nz, qy, nx, qz, qw, nx, ny, ny, qx, qw, nz, qx, qy, qz, qw]);
        let second = Mat4([qw, nz, qy, qx, qz, qw, nx, qy, ny, qx, qw, qz, nx, ny, nz, qw]);
        assert(first.0 =~= rotation_first(x as int, y as int, z as int).0);
        assert(second.0 =~= rotation_second(x as int, y as int, z as int).0);
        proof {
            lemma_twos_product_small(first, second);
        }
        let turn = first.mul(second);
        proof {
            if product(self, first).small() {
                lemma_mul_associative(self, first, second);
            }
        }
        self.mul(turn)
    }

    /// Transform `p` as a position.
    pub fn transform_point(self, p: Vec3) -> (r: Vec3)
        requires
            self.small(),
            p.small(),
        ensures
            r == point_spec(self, p),
            r.x == apply(self, p.x as int, p.y as int, p.z as int, 1, 0),
            r.y == apply(self, p.x as int, p.y as int, p.z as int, 1, 1),
            r.z == apply(self, p.x as int, p.y as int, p.z as int, 1, 2),
    {
        let m = self.0;
        let x = dot4(p.x, p.y, p.z, 1, m[0], m[4], m[8], m[12]);
        let y = dot4(p.x, p.y, p.z, 1, m[1], m[5], m[9], m[13]);
        let z = dot4(p.x, p.y, p.z, 1, m[2], m[6], m[10], m[14]);
        Vec3::new(x, y, z)
    }

    /// Transform `v` as a direction: the translation does not apply.
    pub fn transform_dir(self, v: Vec3) -> (r: Vec3)
        requires
            self.small(),
            v.small(),
        ensures
            r == dir_spec(self, v),
            r.x == apply(self, v.x as int, v.y as int, v.z as int, 0, 0),
            r.y == apply(self, v.x as int, v.y as int, v.z as int, 0, 1),
            r.z == apply(self, v.x as int, v.y as int, v.z as int, 0, 2),
    {
        let m = self.0;
        let x = dot4(v.x, v.y, v.z, 0, m[0], m[4], m[8], m[12]);
        let y = dot4(v.x, v.y, v.z, 0, m[1], m[5], m[9], m[13]);
        let z = dot4(v.x, v.y, v.z, 0, m[2], m[6], m[10], m[14]);
        Vec3::new(x, y, z)
    }

    /// Transform the homogeneous vector `v`, its `w` included.
    pub fn transform_vec4(self, v: Vec4) -> (r: Vec4)
        requires
            self.small(),
            v.small(),
        ensures
            r == vec4_spec(self, v),
            r.x == apply(self, v.x as int, v.y as int, v.z as int, v.w as int, 0),
            r.y == apply(self, v.x as int, v.y as int, v.z as int, v.w as int, 1),
            r.z == apply(self, v.x as int, v.y as int, v.z as int, v.w as int, 2),
            r.w == apply(self, v.x as int, v.y as int, v.z as int, v.w as int, 3),
    {
        let m = self.0;
        let x = dot4(v.x, v.y, v.z, v.w, m[0], m[4], m[8], m[12]);
        let y = dot4(v.x, v.y, v.z, v.w, m[1], m[5], m[9], m[13]);
        let z = dot4(v.x, v.y, v.z, v.w, m[2], m[6], m[10], m[14]);
        let w = dot4(v.x, v.y, v.z, v.w, m[3], m[7], m[11], m[15]);
        Vec4::new(x, y, z, w)
    }

    /// Transform the plane `p`. Its normal turns as a direction and must stay
    /// of unit length. When the matrix translates by `t`, the offset grows by
    /// `|t|` times the signed cosine of the angle between `t` and the turned
    /// normal; folding that angle into a quadrant with a sign leaves the same
    /// signed cosine. For a unit normal that growth is the dot product of the
    /// normal with `t`, which is what is added. With no translation the
    /// offset is kept as it is.
    pub fn transform_plane(self, p: Plane) -> (r: Plane)
        requires
            self.small(),
            p.facing.small(),
            dir_spec(self, p.facing).small(),
            dir_spec(self, p.facing).dot_spec(dir_spec(self, p.facing)) == 1,
            small(p.offset),
        ensures
            r == plane_spec(self, p),
            r.offset == p.offset + r.facing.dot_spec(translation_of(self)),
    {
        let facing = self.transform_dir(p.facing);
        let t = Vec3::new(self.0[12], self.0[13], self.0[14]);
        if t == Vec3::zero() {
            assert(facing.dot_spec(t) == 0) by (nonlinear_arith)
                requires
                    t.x == 0 && t.y == 0 && t.z == 0,
            ;
            return Plane { facing, offset: p.offset };
        }
        let shift = dot4(facing.x, facing.y, facing.z, 0, t.x, t.y, t.z, 0);
        Plane { facing, offset: p.offset + shift }
    }

    /// Transform the frustum `f`: its center moves as a position; radius,
    /// fields of view and rotation angles are kept.
    pub fn transform_frustum(self, f: Frustum) -> (r: Frustum)
        requires
            self.small(),
            f.center.small(),
        ensures
            r == frustum_spec(self, f),
    {
        Frustum {
            center: self.transform_point(f.center),
            radius: f.radius,
            wfov: f.wfov,
            hfov: f.hfov,
            xrot: f.xrot,
            yrot: f.yrot,
        }
    }

    /// Multiply `self` by `rhs`: `self` applies first.
    pub fn mul(self, rhs: Mat4) -> (r: Mat4)
        requires
            self.small(),
            rhs.small(),
        ensures
            r == product(self, rhs),
            r.is_product(self, rhs),
    {
        let a = self.0;
        let b = rhs.0;
        Mat4(
            [
                dot4(a[0], a[1], a[2], a[3], b[0], b[4], b[8], b[12]),
                dot4(a[0], a[1], a[2], a[3], b[1], b[5], b[9], b[13]),
                dot4(a[0], a[1], a[2], a[3], b[2], b[6], b[10], b[14]),
                dot4(a[0], a[1], a[2], a[3], b[3], b[7], b[11], b[15]),
                dot4(a[4], a[5], a[6], a[7], b[0], b[4], b[8], b[12]),
                dot4(a[4], a[5], a[6], a[7], b[1], b[5], b[9], b[13]),
                dot4(a[4], a[5], a[6], a[7], b[2], b[6], b[10], b[14]),
                dot4(a[4], a[5], a[6], a[7], b[3], b[7], b[11], b[15]),
                dot4(a[8], a[9], a[10], a[11], b[0], b[4], b[8], b[12]),
                dot4(a[8], a[9], a[10], a[11], b[1], b[5], b[9], b[13]),
                dot4(a[8], a[9], a[10], a[11], b[2], b[6], b[10], b[14]),
                dot4(a[8], a[9], a[10], a[11], b[3], b[7], b[11], b[15]),
                dot4(a[12], a[13], a[14], a[15], b[0], b[4], b[8], b[12]),
                dot4(a[12], a[13], a[14], a[15], b[1], b[5], b[9], b[13]),
                dot4(a[12], a[13], a[14], a[15], b[2], b[6], b[10], b[14]),
                dot4(a[12], a[13], a[14], a[15], b[3], b[7], b[11], b[15]),
            ],
        )
    }
}

/// Entries of a product of in-range matrices fit in an `i64` with room left.
pub proof fn lemma_entry_fits(a: Mat4, b: Mat4, i: int, j: int)
    requires
        a.small(),
        b.small(),
        0 <= i < 4,
        0 <= j < 4,
    ensures
        -0x4000_0000_0000_0000 <= entry(a, b, i, j) <= 0x4000_0000_0000_0000,
        product(a, b).0[4 * i + j] == entry(a, b, i, j),
{
    crate::geom::lemma_small_product(a.0[4 * i], b.0[j]);
    crate::geom::lemma_small_product(a.0[4 * i + 1], b.0[4 + j]);
    crate::geom::lemma_small_product(a.0[4 * i + 2], b.0[8 + j]);
    crate::geom::lemma_small_product(a.0[4 * i + 3], b.0[12 + j]);
    assert(0 <= 4 * i + j < 16);
}

/// A row times a 4x4 block times a column may be summed in either order.
pub proof fn lemma_row_block_column(
    a0: int, a1: int, a2: int, a3: int,
    b00: int, b01: int, b02: int, b03: int,
    b10: int, b11: int, b12: int, b13: int,
    b20: int, b21: int, b22: int, b23: int,
    b30: int, b31: int, b32: int, b33: int,
    c0: int, c1: int, c2: int, c3: int,
)
    ensures
        (a0 * b00 + a1 * b10 + a2 * b20 + a3 * b30) * c0
            + (a0 * b01 + a1 * b11 + a2 * b21 + a3 * b31) * c1
            + (a0 * b02 + a1 * b12 + a2 * b22 + a3 * b32) * c2
            + (a0 * b03 + a1 * b13 + a2 * b23 + a3 * b33) * c3
        == a0 * (b00 * c0 + b01 * c1 + b02 * c2 + b03 * c3)
            + a1 * (b10 * c0 + b11 * c1 + b12 * c2 + b13 * c3)
            + a2 * (b20 * c0 + b21 * c1 + b22 * c2 + b23 * c3)
            + a3 * (b30 * c0 + b31 * c1 + b32 * c2 + b33 * c3),
{
    lemma_distribute_sum(a0, a1, a2, a3, b00, b10, b20, b30, c0);
    lemma_distribute_sum(a0, a1, a2, a3, b01, b11, b21, b31, c1);
    lemma_distribute_sum(a0, a1, a2, a3, b02, b12, b22, b32, c2);
    lemma_distribute_sum(a0, a1, a2, a3, b03, b13, b23, b33, c3);
    lemma_distribute_factor(a0, b00, b01, b02, b03, c0, c1, c2, c3);
    lemma_distribute_factor(a1, b10, b11, b12, b13, c0, c1, c2, c3);
    lemma_distribute_factor(a2, b20, b21, b22, b23, c0, c1, c2, c3);
    lemma_distribute_factor(a3, b30, b31, b32, b33, c0, c1, c2, c3);
}

proof fn lemma_distribute_sum(a0: int, a1: int, a2: int, a3: int, b0: int, b1: int, b2: int, b3: int, c: int)
    ensures
        (a0 * b0 + a1 * b1 + a2 * b2 + a3 * b3) * c == a0 * (b0 * c) + a1 * (b1 * c) + a2 * (b2 * c) + a3 * (b3 * c),
{
    lemma_mul_is_distributive_add_other_way(c, a0 * b0 + a1 * b1 + a2 * b2, a3 * b3);
    lemma_mul_is_distributive_add_other_way(c, a0 * b0 + a1 * b1, a2 * b2);
    lemma_mul_is_distributive_add_other_way(c, a0 * b0, a1 * b1);
    lemma_mul_is_associative(a0, b0, c);
    lemma_mul_is_associative(a1, b1, c);
    lemma_mul_is_associative(a2, b2, c);
    lemma_mul_is_associative(a3, b3, c);
}

proof fn lemma_distribute_factor(a: int, b0: int, b1: int, b2: int, b3: int, c0: int, c1: int, c2: int, c3: int)
    ensures
        a * (b0 * c0 + b1 * c1 + b2 * c2 + b3 * c3) == a * (b0 * c0) + a * (b1 * c1) + a * (b2 * c2) + a * (b3 * c3),
{
    lemma_mul_is_distributive_add(a, b0 * c0 + b1 * c1 + b2 * c2, b3 * c3);
    lemma_mul_is_distributive_add(a, b0 * c0 + b1 * c1, b2 * c2);
    lemma_mul_is_distributive_add(a, b0 * c0, b1 * c1);
}

/// Matrix multiplication is associative: `(a * b) * c == a * (b * c)`,
/// wherever the partial products stay in range.
pub proof fn lemma_mul_associative(a: Mat4, b: Mat4, c: Mat4)
    requires
        a.small(),
        b.small(),
        c.small(),
        product(a, b).small(),
        product(b, c).small(),
    ensures
        product(product(a, b), c) == product(a, product(b, c)),
{
    let ab = product(a, b);
    let bc = product(b, c);
    assert forall|i: int, j: int| 0 <= i < 4 && 0 <= j < 4 implies #[trigger] entry(ab, c, i, j) == entry(a, bc, i, j) by {
        assert forall|k: int| 0 <= k < 4 implies ab.0[4 * i + k] == entry(a, b, i, k)
            && bc.0[4 * k + j] == entry(b, c, k, j) by {
            lemma_entry_fits(a, b, i, k);
            lemma_entry_fits(b, c, k, j);
        }
        assert(ab.0[4 * i] == entry(a, b, i, 0));
        assert(ab.0[4 * i + 1] == entry(a, b, i, 1));
        assert(ab.0[4 * i + 2] == entry(a, b, i, 2));
        assert(ab.0[4 * i + 3] == entry(a, b, i, 3));
        assert(bc.0[j] == entry(b, c, 0, j));
        assert(bc.0[4 + j] == entry(b, c, 1, j));
        assert(bc.0[8 + j] == entry(b, c, 2, j));
        assert(bc.0[12 + j] == entry(b, c, 3, j));
        lemma_row_block_column(
            a.0[4 * i] as int, a.0[4 * i + 1] as int, a.0[4 * i + 2] as int, a.0[4 * i + 3] as int,
            b.0[0] as int, b.0[1] as int, b.0[2] as int, b.0[3] as int,
            b.0[4] as int, b.0[5] as int, b.0[6] as int, b.0[7] as int,
            b.0[8] as int, b.0[9] as int, b.0[10] as int, b.0[11] as int,
            b.0[12] as int, b.0[13] as int, b.0[14] as int, b.0[15] as int,
            c.0[j] as int, c.0[4 + j] as int, c.0[8 + j] as int, c.0[12 + j] as int,
        );
    }
    assert(product(ab, c).0 =~= product(a, bc).0) by {
        assert(entry(ab, c, 0, 0) == entry(a, bc, 0, 0));
        assert(entry(ab, c, 0, 1) == entry(a, bc, 0, 1));
        assert(entry(ab, c, 0, 2) == entry(a, bc, 0, 2));
        assert(entry(ab, c, 0, 3) == entry(a, bc, 0, 3));
        assert(entry(ab, c, 1, 0) == entry(a, bc, 1, 0));
        assert(entry(ab, c, 1, 1) == entry(a, bc, 1, 1));
        assert(entry(ab, c, 1, 2) == entry(a, bc, 1, 2));
        assert(entry(ab, c, 1, 3) == entry(a, bc, 1, 3));
        assert(entry(ab, c, 2, 0) == entry(a, bc, 2, 0));
        assert(entry(ab, c, 2, 1) == entry(a, bc, 2, 1));
        assert(entry(ab, c, 2, 2) == entry(a, bc, 2, 2));
        assert(entry(ab, c, 2, 3) == entry(a, bc, 2, 3));
        assert(entry(ab, c, 3, 0) == entry(a, bc, 3, 0));
        assert(entry(ab, c, 3, 1) == entry(a, bc, 3, 1));
        assert(entry(ab, c, 3, 2) == entry(a, bc, 3, 2));
        assert(entry(ab, c, 3, 3) == entry(a, bc, 3, 3));
    }
}

/// Applying `m` and then `n` to a row vector is applying `m * n`.
pub proof fn lemma_apply_compose(m: Mat4, n: Mat4, x: int, y: int, z: int, w: int, k: int)
    requires
        0 <= k < 4,
    ensures
        apply(
            n,
            apply(m, x, y, z, w, 0),
            apply(m, x, y, z, w, 1),
            apply(m, x, y, z, w, 2),
            apply(m, x, y, z, w, 3),
            k,
        ) == x * entry(m, n, 0, k) + y * entry(m, n, 1, k) + z * entry(m, n, 2, k) + w * entry(m, n, 3, k),
{
    lemma_row_block_column(
        x, y, z, w,
        m.0[0] as int, m.0[1] as int, m.0[2] as int, m.0[3] as int,
        m.0[4] as int, m.0[5] as int, m.0[6] as int, m.0[7] as int,
        m.0[8] as int, m.0[9] as int, m.0[10] as int, m.0[11] as int,
        m.0[12] as int, m.0[13] as int, m.0[14] as int, m.0[15] as int,
        n.0[k] as int, n.0[4 + k] as int, n.0[8 + k] as int, n.0[12 + k] as int,
    );
    lemma_mul_is_commutative(apply(m, x, y, z, w, 0), n.0[k] as int);
    lemma_mul_is_commutative(apply(m, x, y, z, w, 1), n.0[4 + k] as int);
    lemma_mul_is_commutative(apply(m, x, y, z, w, 2), n.0[8 + k] as int);
    lemma_mul_is_commutative(apply(m, x, y, z, w, 3), n.0[12 + k] as int);
}

/// A column of a small matrix applied to a small row vector fits in an `i64`.
pub proof fn lemma_apply_fits(m: Mat4, x: i64, y: i64, z: i64, w: i64, j: int)
    requires
        m.small(),
        small(x) && small(y) && small(z) && small(w),
        0 <= j < 4,
    ensures
        -0x4000_0000_0000_0000 <= apply(m, x as int, y as int, z as int, w as int, j) <= 0x4000_0000_0000_0000,
{
    crate::geom::lemma_small_product(x, m.0[j]);
    crate::geom::lemma_small_product(y, m.0[4 + j]);
    crate::geom::lemma_small_product(z, m.0[8 + j]);
    crate::geom::lemma_small_product(w, m.0[12 + j]);
}

/// Where `m * n` is the identity, a homogeneous vector transformed by `m`
/// and then by `n` comes back unchanged.
pub proof fn lemma_vec4_round_trip(m: Mat4, n: Mat4, v: Vec4)
    requires
        m.small(),
        n.small(),
        v.small(),
        vec4_spec(m, v).small(),
        product(m, n) == identity_spec(),
    ensures
        vec4_spec(n, vec4_spec(m, v)) == v,
{
    lemma_apply_fits(m, v.x, v.y, v.z, v.w, 0);
    lemma_apply_fits(m, v.x, v.y, v.z, v.w, 1);
    lemma_apply_fits(m, v.x, v.y, v.z, v.w, 2);
    lemma_apply_fits(m, v.x, v.y, v.z, v.w, 3);
    lemma_round_trip_column(m, n, v, 0);
    lemma_round_trip_column(m, n, v, 1);
    lemma_round_trip_column(m, n, v, 2);
    lemma_round_trip_column(m, n, v, 3);
}

proof fn lemma_round_trip_column(m: Mat4, n: Mat4, v: Vec4, k: int)
    requires
        m.small(),
        n.small(),
        product(m, n) == identity_spec(),
        0 <= k < 4,
    ensures
        apply(
            n,
            apply(m, v.x as int, v.y as int, v.z as int, v.w as int, 0),
            apply(m, v.x as int, v.y as int, v.z as int, v.w as int, 1),
            apply(m, v.x as int, v.y as int, v.z as int, v.w as int, 2),
            apply(m, v.x as int, v.y as int, v.z as int, v.w as int, 3),
            k,
        ) == (if k == 0 { v.x } else if k == 1 { v.y } else if k == 2 { v.z } else { v.w }),
{
    lemma_apply_compose(m, n, v.x as int, v.y as int, v.z as int, v.w as int, k);
    lemma_entry_fits(m, n, 0, k);
    lemma_entry_fits(m, n, 1, k);
    lemma_entry_fits(m, n, 2, k);
    lemma_entry_fits(m, n, 3, k);
    let e = identity_spec();
    let (x, y, z, w) = (v.x as int, v.y as int, v.z as int, v.w as int);
    let (e0, e1, e2, e3) = (entry(m, n, 0, k), entry(m, n, 1, k), entry(m, n, 2, k), entry(m, n, 3, k));
    let target: int = if k == 0 { x } else if k == 1 { y } else if k == 2 { z } else { w };
    assert(e0 == e.0[k] && e1 == e.0[4 + k] && e2 == e.0[8 + k] && e3 == e.0[12 + k]);
    if k == 0 {
        assert(e.0[0] == 1 && e.0[4] == 0 && e.0[8] == 0 && e.0[12] == 0);
    } else if k == 1 {
        assert(e.0[1] == 0 && e.0[5] == 1 && e.0[9] == 0 && e.0[13] == 0);
    } else if k == 2 {
        assert(e.0[2] == 0 && e.0[6] == 0 && e.0[10] == 1 && e.0[14] == 0);
    } else {
        assert(e.0[3] == 0 && e.0[7] == 0 && e.0[11] == 0 && e.0[15] == 1);
    }
    assert(x * e0 + y * e1 + z * e2 + w * e3 == target) by (nonlinear_arith)
        requires
            k == 0 ==> e0 == 1 && e1 == 0 && e2 == 0 && e3 == 0 && target == x,
            k == 1 ==> e0 == 0 && e1 == 1 && e2 == 0 && e3 == 0 && target == y,
            k == 2 ==> e0 == 0 && e1 == 0 && e2 == 1 && e3 == 0 && target == z,
            k == 3 ==> e0 == 0 && e1 == 0 && e2 == 0 && e3 == 1 && target == w,
            0 <= k < 4,
    ;
}

/// The last column is `(0, 0, 0, 1)`: the matrix keeps positions positions.
pub open spec fn affine(m: Mat4) -> bool {
    m.0[3] == 0 && m.0[7] == 0 && m.0[11] == 0 && m.0[15] == 1
}

/// Where `m` is affine and `m * n` is the identity, a point transformed by
/// `m` and then by `n` comes back unchanged.
pub proof fn lemma_point_round_trip(m: Mat4, n: Mat4, p: Vec3)
    requires
        m.small(),
        n.small(),
        p.small(),
        affine(m),
        point_spec(m, p).small(),
        product(m, n) == identity_spec(),
    ensures
        point_spec(n, point_spec(m, p)) == p,
{
    let v = Vec4 { x: p.x, y: p.y, z: p.z, w: 1 };
    assert(small(1i64));
    lemma_apply_fits(m, p.x, p.y, p.z, 1, 3);
    assert(vec4_spec(m, v).w == 1);
    assert(vec4_spec(m, v).small());
    lemma_vec4_round_trip(m, n, v);
}

/// A transform without translation keeps a plane's offset and turns its
/// normal as the matrix turns any direction.
pub proof fn lemma_plane_without_translation(m: Mat4, p: Plane)
    requires
        m.small(),
        p.facing.small(),
        translation_of(m) == Vec3::zero_spec(),
    ensures
        plane_spec(m, p).offset == p.offset,
        plane_spec(m, p).facing == dir_spec(m, p.facing),
{
    let f = dir_spec(m, p.facing);
    assert(f.dot_spec(translation_of(m)) == 0) by (nonlinear_arith)
        requires
            translation_of(m).x == 0 && translation_of(m).y == 0 && translation_of(m).z == 0,
    ;
}

/// Translating by `d` along a unit normal `n` moves the plane's offset by
/// `d` and keeps its normal.
pub proof fn lemma_plane_translated_along_normal(p: Plane, d: i64)
    requires
        p.facing.small(),
        small(d),
        p.facing.dot_spec(p.facing) == 1,
        -COORD_LIMIT <= d * p.facing.x <= COORD_LIMIT,
        -COORD_LIMIT <= d * p.facing.y <= COORD_LIMIT,
        -COORD_LIMIT <= d * p.facing.z <= COORD_LIMIT,
        small(p.offset),
    ensures
        ({
            let t = translation((d * p.facing.x) as i64, (d * p.facing.y) as i64, (d * p.facing.z) as i64);
            &&& plane_spec(t, p).facing == p.facing
            &&& plane_spec(t, p).offset == p.offset + d
        }),
{
    let n = p.facing;
    let t = translation((d * n.x) as i64, (d * n.y) as i64, (d * n.z) as i64);
    crate::geom::lemma_small_product(d, n.x);
    crate::geom::lemma_small_product(d, n.y);
    crate::geom::lemma_small_product(d, n.z);
    lemma_translation_apply((d * n.x) as i64, (d * n.y) as i64, (d * n.z) as i64, n);
    assert(dir_spec(t, n) == n);
    let (a, b, c, e) = (n.x as int, n.y as int, n.z as int, d as int);
    assert(a * (e * a) + b * (e * b) + c * (e * c) == e * (a * a + b * b + c * c)) by (nonlinear_arith);
    assert(translation_of(t).x == e * a && translation_of(t).y == e * b && translation_of(t).z == e * c);
    assert(n.dot_spec(translation_of(t)) == a * (e * a) + b * (e * b) + c * (e * c));
    assert(e * (a * a + b * b + c * c) == e) by (nonlinear_arith)
        requires
            a * a + b * b + c * c == 1,
    ;
    assert(plane_spec(t, p).facing == n);
}

/// A translation moves positions by its offset and leaves directions alone.
pub proof fn lemma_translation_apply(tx: i64, ty: i64, tz: i64, v: Vec3)
    ensures
        apply(translation(tx, ty, tz), v.x as int, v.y as int, v.z as int, 0, 0) == v.x,
        apply(translation(tx, ty, tz), v.x as int, v.y as int, v.z as int, 0, 1) == v.y,
        apply(translation(tx, ty, tz), v.x as int, v.y as int, v.z as int, 0, 2) == v.z,
        apply(translation(tx, ty, tz), v.x as int, v.y as int, v.z as int, 1, 0) == v.x + tx,
        apply(translation(tx, ty, tz), v.x as int, v.y as int, v.z as int, 1, 1) == v.y + ty,
        apply(translation(tx, ty, tz), v.x as int, v.y as int, v.z as int, 1, 2) == v.z + tz,
{
    let t = translation(tx, ty, tz);
    assert(t.0[0] == 1 && t.0[1] == 0 && t.0[2] == 0 && t.0[4] == 0 && t.0[5] == 1 && t.0[6] == 0);
    assert(t.0[8] == 0 && t.0[9] == 0 && t.0[10] == 1 && t.0[12] == tx && t.0[13] == ty && t.0[14] == tz);
    let (x, y, z) = (v.x as int, v.y as int, v.z as int);
    assert(x * 1 + y * 0 + z * 0 == x && x * 0 + y * 1 + z * 0 == y && x * 0 + y * 0 + z * 1 == z) by (nonlinear_arith);
}

/// A pure translation carries every point of a plane onto the carried plane.
pub proof fn lemma_translation_keeps_incidence(p: Plane, q: Vec3, tx: i64, ty: i64, tz: i64)
    requires
        p.facing.small(),
        q.small(),
        small(tx) && small(ty) && small(tz),
        small(p.offset),
        p.holds(q),
    ensures
        plane_spec(translation(tx, ty, tz), p).holds(point_spec(translation(tx, ty, tz), q)),
{
    let t = translation(tx, ty, tz);
    let n = p.facing;
    crate::geom::lemma_small_product(n.x, tx);
    crate::geom::lemma_small_product(n.y, ty);
    crate::geom::lemma_small_product(n.z, tz);
    lemma_translation_apply(tx, ty, tz, n);
    lemma_translation_apply(tx, ty, tz, q);
    assert(dir_spec(t, n) == n);
    let r = point_spec(t, q);
    assert(r.x == q.x + tx && r.y == q.y + ty && r.z == q.z + tz);
    assert(n.dot_spec(r) == n.dot_spec(q) + n.dot_spec(translation_of(t))) by (nonlinear_arith)
        requires
            r.x == q.x + tx && r.y == q.y + ty && r.z == q.z + tz,
            translation_of(t) == (Vec3 { x: tx, y: ty, z: tz }),
    ;
}

/// Exactly one of the four terms is 1 or -1; the others are 0.
pub open spec fn one_hot(q: (int, int, int, int)) -> bool {
    let (a, b, c, d) = q;
    ((a == 1 || a == -1) && b == 0 && c == 0 && d == 0) || (a == 0 && (b == 1 || b == -1) && c == 0 && d == 0)
        || (a == 0 && b == 0 && (c == 1 || c == -1) && d == 0) || (a == 0 && b == 0 && c == 0 && (d == 1
        || d == -1))
}

proof fn lemma_rotation_terms_one_hot(x: int, y: int, z: int)
    ensures
        one_hot(rotation_terms(x, y, z)),
{
    let (sx, cx) = (quarter_sin(x), quarter_cos(x));
    let (sy, cy) = (quarter_sin(y), quarter_cos(y));
    let (sz, cz) = (quarter_sin(z), quarter_cos(z));
    assert(one_hot(rotation_terms(x, y, z))) by (nonlinear_arith)
        requires
            rotation_terms(x, y, z) == (
                cy * sx * cz + sy * cx * sz,
                sy * cx * cz - cy * sx * sz,
                cy * cx * sz - sy * sx * cz,
                cy * cx * cz + sy * sx * sz,
            ),
            (sx == 0 && (cx == 1 || cx == -1)) || (cx == 0 && (sx == 1 || sx == -1)),
            (sy == 0 && (cy == 1 || cy == -1)) || (cy == 0 && (sy == 1 || sy == -1)),
            (sz == 0 && (cz == 1 || cz == -1)) || (cz == 0 && (sz == 1 || sz == -1)),
    ;
}

/// The diagonal that a rotation with the given terms has.
pub open spec fn rotation_diagonal(q: (int, int, int, int)) -> (int, int, int) {
    if q.0 != 0 {
        (1, -1, -1)
    } else if q.1 != 0 {
        (-1, 1, -1)
    } else if q.2 != 0 {
        (-1, -1, 1)
    } else {
        (1, 1, 1)
    }
}

/// `m` has the diagonal `(a, b, c, 1)` and zeros elsewhere.
pub open spec fn is_diagonal(m: Mat4, a: int, b: int, c: int) -> bool {
    m.0 =~= [a as i64, 0, 0, 0, 0, b as i64, 0, 0, 0, 0, c as i64, 0, 0, 0, 0, 1]
}

/// Every rotation by whole half turns is a signed axis flip: its 3x3 block is
/// diagonal with entries 1 or -1 whose product is 1, and its last row and
/// column are `(0, 0, 0, 1)`. A turn about one axis keeps that axis.
pub proof fn lemma_rotation_shape(x: int, y: int, z: int)
    ensures
        ({
            let (a, b, c) = rotation_diagonal(rotation_terms(x, y, z));
            &&& is_diagonal(rotation(x, y, z), a, b, c)
            &&& (a == 1 || a == -1) && (b == 1 || b == -1) && (c == 1 || c == -1)
            &&& a * b * c == 1
        }),
        rotation(x, 0, 0).0[0] == 1,
        rotation(0, y, 0).0[5] == 1,
        rotation(0, 0, z).0[10] == 1,
{
    lemma_rotation_shape_of(x, y, z);
    lemma_rotation_shape_of(x, 0, 0);
    lemma_rotation_shape_of(0, y, 0);
    lemma_rotation_shape_of(0, 0, z);
}

/// Products of -1, 0 and 1.
pub broadcast proof fn lemma_unit_times_unit(a: int, b: int)
    requires
        unit(a),
        unit(b),
    ensures
        #[trigger] (a * b) == (if a == 0 || b == 0 { 0 } else if a == b { 1 } else { -1 }),
{
    assert(a * b == (if a == 0 || b == 0 { 0 } else if a == b { 1 } else { -1 })) by (nonlinear_arith)
        requires
            unit(a),
            unit(b),
    ;
}

proof fn lemma_rotation_shape_of(x: int, y: int, z: int)
    ensures
        ({
            let (a, b, c) = rotation_diagonal(rotation_terms(x, y, z));
            &&& is_diagonal(rotation(x, y, z), a, b, c)
            &&& (a == 1 || a == -1) && (b == 1 || b == -1) && (c == 1 || c == -1)
            &&& a * b * c == 1
        }),
        y == 0 && z == 0 ==> rotation_terms(x, y, z).1 == 0 && rotation_terms(x, y, z).2 == 0,
        x == 0 && z == 0 ==> rotation_terms(x, y, z).0 == 0 && rotation_terms(x, y, z).2 == 0,
        x == 0 && y == 0 ==> rotation_terms(x, y, z).0 == 0 && rotation_terms(x, y, z).1 == 0,
{
    broadcast use lemma_unit_times_unit;

    lemma_rotation_terms_one_hot(x, y, z);
    let q = rotation_terms(x, y, z);
    let (f, g) = (rotation_first(x, y, z), rotation_second(x, y, z));
    assert(is_diagonal(product(f, g), rotation_diagonal(q).0, rotation_diagonal(q).1, rotation_diagonal(q).2));
}

} // verus!
