use vstd::prelude::*;

verus! {

/// Largest magnitude of a coordinate that every operation of this library
/// accepts without overflow.
pub const COORD_LIMIT: i64 = 0x4000_0000;

/// A coordinate that arithmetic of this library takes in.
pub open spec fn small(v: i64) -> bool {
    -COORD_LIMIT <= v <= COORD_LIMIT
}

/// A point or direction in three dimensions.
#[derive(Clone, Copy, Debug, PartialEq, Eq, Structural)]
pub struct Vec3 {
    pub x: i64,
    pub y: i64,
    pub z: i64,
}

impl Vec3 {
    /// All three coordinates are in range.
    pub open spec fn small(self) -> bool {
        small(self.x) && small(self.y) && small(self.z)
    }

    /// Dot product over mathematical integers.
    pub open spec fn dot_spec(self, o: Vec3) -> int {
        self.x * o.x + self.y * o.y + self.z * o.z
    }

    pub fn new(x: i64, y: i64, z: i64) -> (r: Vec3)
        ensures
            r.x == x,
            r.y == y,
            r.z == z,
    {
        Vec3 { x, y, z }
    }

    /// The origin.
    pub open spec fn zero_spec() -> Vec3 {
        Vec3 { x: 0, y: 0, z: 0 }
    }

    pub fn zero() -> (r: Vec3)
        ensures
            r == Vec3::zero_spec(),
    {
        Vec3 { x: 0, y: 0, z: 0 }
    }
}

/// A point in homogeneous coordinates.
#[derive(Clone, Copy, Debug, PartialEq, Eq, Structural)]
pub struct Vec4 {
    pub x: i64,
    pub y: i64,
    pub z: i64,
    pub w: i64,
}

impl Vec4 {
    /// All four coordinates are in range.
    pub open spec fn small(self) -> bool {
        small(self.x) && small(self.y) && small(self.z) && small(self.w)
    }

    pub fn new(x: i64, y: i64, z: i64, w: i64) -> (r: Vec4)
        ensures
            r.x == x,
            r.y == y,
            r.z == z,
            r.w == w,
    {
        Vec4 { x, y, z, w }
    }
}

/// An axis-aligned box between two corners; `min` is not above `max` on any
/// axis for a well-formed box.
#[derive(Clone, Copy, Debug, PartialEq, Eq, Structural)]
pub struct BBox {
    pub min: Vec3,
    pub max: Vec3,
}

impl BBox {
    /// Each coordinate of `min` is at most the matching one of `max`.
    pub open spec fn wf(self) -> bool {
        self.min.x <= self.max.x && self.min.y <= self.max.y && self.min.z <= self.max.z
    }

    pub fn new(min: Vec3, max: Vec3) -> (r: BBox)
        ensures
            r.min == min,
            r.max == max,
    {
        BBox { min, max }
    }
}

/// The plane of the points `p` with `facing · p == offset`.
#[derive(Clone, Copy, Debug, PartialEq, Eq, Structural)]
pub struct Plane {
    pub facing: Vec3,
    pub offset: i64,
}

impl Plane {
    /// `p` lies on the plane.
    pub open spec fn holds(self, p: Vec3) -> bool {
        self.facing.dot_spec(p) == self.offset as int
    }
}

/// A view volume: a center, a radius, field-of-view angles and rotation
/// angles. Only the center moves under a transform.
#[derive(Clone, Copy, Debug, PartialEq, Eq, Structural)]
pub struct Frustum {
    pub center: Vec3,
    pub radius: i64,
    pub wfov: i64,
    pub hfov: i64,
    pub xrot: i64,
    pub yrot: i64,
}

/// A product of two values within `l` of zero is within `l * l` of zero.
pub proof fn lemma_bounded_product(x: int, y: int, l: int)
    requires
        -l <= x <= l,
        -l <= y <= l,
    ensures
        -(l * l) <= x * y <= l * l,
{
    if x >= 0 && y >= 0 {
        assert(x * y <= l * y) by (nonlinear_arith) requires x <= l, y >= 0;
        assert(l * y <= l * l) by (nonlinear_arith) requires y <= l, l >= 0;
        assert(x * y >= 0) by (nonlinear_arith) requires x >= 0, y >= 0;
    } else if x >= 0 {
        assert(x * y >= l * y) by (nonlinear_arith) requires x <= l, y < 0;
        assert(l * y >= -(l * l)) by (nonlinear_arith) requires y >= -l, l >= 0;
        assert(x * y <= 0) by (nonlinear_arith) requires x >= 0, y < 0;
    } else if y >= 0 {
        assert(x * y >= x * l) by (nonlinear_arith) requires y <= l, x < 0;
        assert(x * l >= -(l * l)) by (nonlinear_arith) requires x >= -l, l >= 0;
        assert(x * y <= 0) by (nonlinear_arith) requires x < 0, y >= 0;
    } else {
        assert(x * y <= x * (-l)) by (nonlinear_arith) requires y >= -l, x < 0;
        assert(x * (-l) <= l * l) by (nonlinear_arith) requires x >= -l, l >= 0;
        assert(x * y >= 0) by (nonlinear_arith) requires x < 0, y < 0;
    }
}

/// A product of two in-range values is at most `COORD_LIMIT²` in magnitude.
pub proof fn lemma_small_product(a: i64, b: i64)
    requires
        small(a),
        small(b),
    ensures
        -0x1000_0000_0000_0000 <= a * b <= 0x1000_0000_0000_0000,
{
    lemma_bounded_product(a as int, b as int, 0x4000_0000);
    assert(0x4000_0000 * 0x4000_0000 == 0x1000_0000_0000_0000int);
}

/// Sum of four products of in-range values, computed without overflow.
pub fn dot4(a0: i64, a1: i64, a2: i64, a3: i64, b0: i64, b1: i64, b2: i64, b3: i64) -> (r: i64)
    requires
        small(a0) && small(a1) && small(a2) && small(a3),
        small(b0) && small(b1) && small(b2) && small(b3),
    ensures
        r == a0 * b0 + a1 * b1 + a2 * b2 + a3 * b3,
        -0x4000_0000_0000_0000 <= r <= 0x4000_0000_0000_0000,
{
    proof {
        lemma_small_product(a0, b0);
        lemma_small_product(a1, b1);
        lemma_small_product(a2, b2);
        lemma_small_product(a3, b3);
    }
    a0 * b0 + a1 * b1 + a2 * b2 + a3 * b3
}

} // verus!
