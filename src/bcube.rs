use vstd::prelude::*;

use crate::geom::{BBox, Vec3};

verus! {

/// Largest magnitude of a cube's center coordinate or half length.
pub const CUBE_LIMIT: i64 = 0x2000_0000_0000_0000;

/// Does a box with extent `[lo, hi]` on one axis grow a cube centered at `c`
/// toward its maximum side? Ties go to the minimum side.
pub open spec fn toward_max(lo: i64, hi: i64, c: i64) -> bool {
    lo + hi > 2 * c
}

/// One axis of the center after growing: the old maximum or minimum face.
pub open spec fn grown_axis(lo: i64, hi: i64, c: i64, h: i64) -> int {
    if toward_max(lo, hi, c) {
        c + h
    } else {
        c - h
    }
}

/// The coordinate of the face that lies toward the sign of `n`.
pub open spec fn face_toward(c: i64, h: i64, n: i64) -> int {
    if n >= 0 {
        c + h
    } else {
        c - h
    }
}

/// The coordinate of the face that lies against the sign of `n`.
pub open spec fn face_against(c: i64, h: i64, n: i64) -> int {
    if n >= 0 {
        c - h
    } else {
        c + h
    }
}

/// `v` lies in the half-open interval `[c - h, c + h)`.
pub open spec fn within(c: i64, h: i64, v: i64) -> bool {
    c - h <= v < c + h
}

/// A corner of a box, picked per axis: `true` takes the maximum.
pub open spec fn corner(b: BBox, sx: bool, sy: bool, sz: bool) -> Vec3 {
    Vec3 {
        x: if sx { b.max.x } else { b.min.x },
        y: if sy { b.max.y } else { b.min.y },
        z: if sz { b.max.z } else { b.min.z },
    }
}

/// Bounding cube: the points within `half_len` of `center` on every axis.
/// A negative `half_len` marks the empty cube.
#[derive(Clone, Copy, Debug, PartialEq, Eq, Structural)]
pub struct BCube {
    pub center: Vec3,
    pub half_len: i64,
}

impl BCube {
    /// Center and half length are small enough for the arithmetic below.
    pub open spec fn bounded(self) -> bool {
        -CUBE_LIMIT <= self.half_len <= CUBE_LIMIT
            && -CUBE_LIMIT <= self.center.x <= CUBE_LIMIT
            && -CUBE_LIMIT <= self.center.y <= CUBE_LIMIT
            && -CUBE_LIMIT <= self.center.z <= CUBE_LIMIT
    }

    /// The cube encloses some region.
    pub open spec fn nonempty(self) -> bool {
        self.half_len > 0
    }

    /// `p` lies inside; minimum faces count as inside, maximum faces do not.
    pub open spec fn contains_spec(self, p: Vec3) -> bool {
        within(self.center.x, self.half_len, p.x)
            && within(self.center.y, self.half_len, p.y)
            && within(self.center.z, self.half_len, p.z)
    }

    /// Every corner of `b` lies inside.
    pub open spec fn contains_box(self, b: BBox) -> bool {
        forall|sx: bool, sy: bool, sz: bool| #[trigger] self.contains_spec(corner(b, sx, sy, sz))
    }

    /// The maximum and the minimum corner.
    pub open spec fn corners(self) -> (Vec3, Vec3) {
        (
            Vec3 {
                x: (self.center.x + self.half_len) as i64,
                y: (self.center.y + self.half_len) as i64,
                z: (self.center.z + self.half_len) as i64,
            },
            Vec3 {
                x: (self.center.x - self.half_len) as i64,
                y: (self.center.y - self.half_len) as i64,
                z: (self.center.z - self.half_len) as i64,
            },
        )
    }

    /// Where the center goes when `b` is taken in.
    pub open spec fn moved_center(self, b: BBox) -> (int, int, int) {
        (
            grown_axis(b.min.x, b.max.x, self.center.x, self.half_len),
            grown_axis(b.min.y, b.max.y, self.center.y, self.half_len),
            grown_axis(b.min.z, b.max.z, self.center.z, self.half_len),
        )
    }

    /// The cube after taking in `b`: recentered on one of its corners, with
    /// the half length doubled.
    pub open spec fn extended(self, b: BBox) -> BCube {
        let (x, y, z) = self.moved_center(b);
        BCube { center: Vec3 { x: x as i64, y: y as i64, z: z as i64 }, half_len: (2 * self.half_len) as i64 }
    }

    /// Taking in `b` stays within the bounds of the arithmetic.
    pub open spec fn can_extend(self, b: BBox) -> bool {
        self.nonempty() && 2 * self.half_len <= CUBE_LIMIT
            && -CUBE_LIMIT <= self.center.x - self.half_len && self.center.x + self.half_len <= CUBE_LIMIT
            && -CUBE_LIMIT <= self.center.y - self.half_len && self.center.y + self.half_len <= CUBE_LIMIT
            && -CUBE_LIMIT <= self.center.z - self.half_len && self.center.z + self.half_len <= CUBE_LIMIT
    }

    /// Create a new empty `BCube`.
    pub fn empty() -> (r: BCube)
        ensures
            r.center == Vec3::zero_spec(),
            r.half_len == -1,
            r.bounded(),
            !r.nonempty(),
    {
        BCube { center: Vec3::zero(), half_len: -1 }
    }

    /// Create a new `BCube` of half length one at position `p`.
    pub fn new(p: Vec3) -> (r: BCube)
        ensures
            r.center == p,
            r.half_len == 1,
            r.nonempty(),
    {
        BCube { center: p, half_len: 1 }
    }

    /// Extend the `BCube` to accommodate the `BBox` `p`: the center moves to
    /// the corner of the cube that `p` leans toward on each axis, and the
    /// half length doubles, so the old cube becomes one octant of the new.
    pub fn extend(&mut self, p: BBox)
        requires
            old(self).can_extend(p),
        ensures
            *final(self) == old(self).extended(p),
            final(self).bounded(),
            final(self).nonempty(),
    {
        let c = self.move_center(p);
        self.center = c;
        self.half_len = self.half_len * 2;
    }

    fn move_center(&self, p: BBox) -> (r: Vec3)
        requires
            self.can_extend(p),
        ensures
            (r.x as int, r.y as int, r.z as int) == self.moved_center(p),
    {
        let (maxx, maxy, maxz) = p.bcube_sides(*self);
        let hl = self.half_len;
        let min = Vec3::new(self.center.x - hl, self.center.y - hl, self.center.z - hl);
        let max = Vec3::new(self.center.x + hl, self.center.y + hl, self.center.z + hl);
        match (maxx, maxy, maxz) {
            (false, false, false) => Vec3::new(min.x, min.y, min.z),
            (false, false, true) => Vec3::new(min.x, min.y, max.z),
            (false, true, false) => Vec3::new(min.x, max.y, min.z),
            (false, true, true) => Vec3::new(min.x, max.y, max.z),
            (true, false, false) => Vec3::new(max.x, min.y, min.z),
            (true, false, true) => Vec3::new(max.x, min.y, max.z),
            (true, true, false) => Vec3::new(max.x, max.y, min.z),
            (true, true, true) => Vec3::new(max.x, max.y, max.z),
        }
    }

    /// Check if the `BCube` contains point `p`.
    pub fn contains(&self, p: Vec3) -> (r: bool)
        requires
            self.bounded(),
        ensures
            r == self.contains_spec(p),
    {
        let Vec3 { x, y, z } = self.center;
        let hl = self.half_len;
        (p.x >= x - hl) && (p.x < x + hl) && (p.y >= y - hl) && (p.y < y + hl) && (p.z >= z - hl)
            && (p.z < z + hl)
    }

    /// Get two opposite corners that bound the `BCube`: the maximum one first.
    pub fn to_point_pair(&self) -> (r: (Vec3, Vec3))
        requires
            self.bounded(),
        ensures
            r.0.x == self.center.x + self.half_len,
            r.0.y == self.center.y + self.half_len,
            r.0.z == self.center.z + self.half_len,
            r.1.x == self.center.x - self.half_len,
            r.1.y == self.center.y - self.half_len,
            r.1.z == self.center.z - self.half_len,
    {
        let hl = self.half_len;
        let c = self.center;
        (Vec3::new(c.x + hl, c.y + hl, c.z + hl), Vec3::new(c.x - hl, c.y - hl, c.z - hl))
    }

    /// Turn into a `BBox` with the same corners.
    pub fn to_bbox(&self) -> (r: BBox)
        requires
            self.bounded(),
        ensures
            r.min.x == self.center.x - self.half_len,
            r.min.y == self.center.y - self.half_len,
            r.min.z == self.center.z - self.half_len,
            r.max.x == self.center.x + self.half_len,
            r.max.y == self.center.y + self.half_len,
            r.max.z == self.center.z + self.half_len,
    {
        let (max, min) = self.to_point_pair();
        BBox::new(min, max)
    }

    /// Get the center and the midpoints of the six faces of the `BCube`.
    pub fn all_points(&self) -> (r: [Vec3; 7])
        requires
            self.bounded(),
        ensures
            r[0] == self.center,
            r[1] == (Vec3 { x: (self.center.x + self.half_len) as i64, ..self.center }),
            r[2] == (Vec3 { y: (self.center.y + self.half_len) as i64, ..self.center }),
            r[3] == (Vec3 { z: (self.center.z + self.half_len) as i64, ..self.center }),
            r[4] == (Vec3 { x: (self.center.x - self.half_len) as i64, ..self.center }),
            r[5] == (Vec3 { y: (self.center.y - self.half_len) as i64, ..self.center }),
            r[6] == (Vec3 { z: (self.center.z - self.half_len) as i64, ..self.center }),
    {
        let c = self.center;
        let hl = self.half_len;
        [
            c,
            Vec3::new(c.x + hl, c.y, c.z),
            Vec3::new(c.x, c.y + hl, c.z),
            Vec3::new(c.x, c.y, c.z + hl),
            Vec3::new(c.x - hl, c.y, c.z),
            Vec3::new(c.x, c.y - hl, c.z),
            Vec3::new(c.x, c.y, c.z - hl),
        ]
    }

    /// Get the corners of the `BCube` that lie farthest against and along
    /// `normal`, in that order. A zero component counts as positive.
    pub fn pn_pair_from_normal(&self, normal: Vec3) -> (r: (Vec3, Vec3))
        requires
            self.bounded(),
        ensures
            r.1.x == face_toward(self.center.x, self.half_len, normal.x),
            r.1.y == face_toward(self.center.y, self.half_len, normal.y),
            r.1.z == face_toward(self.center.z, self.half_len, normal.z),
            r.0.x == face_against(self.center.x, self.half_len, normal.x),
            r.0.y == face_against(self.center.y, self.half_len, normal.y),
            r.0.z == face_against(self.center.z, self.half_len, normal.z),
    {
        let mut pvertex = self.center;
        let mut nvertex = self.center;
        let hl = self.half_len;

        if normal.x >= 0 {
            pvertex.x = pvertex.x + hl;
            nvertex.x = nvertex.x - hl;
        } else {
            nvertex.x = nvertex.x + hl;
            pvertex.x = pvertex.x - hl;
        }

        if normal.y >= 0 {
            pvertex.y = pvertex.y + hl;
            nvertex.y = nvertex.y - hl;
        } else {
            nvertex.y = nvertex.y + hl;
            pvertex.y = pvertex.y - hl;
        }

        if normal.z >= 0 {
            pvertex.z = pvertex.z + hl;
            nvertex.z = nvertex.z - hl;
        } else {
            nvertex.z = nvertex.z + hl;
            pvertex.z = pvertex.z - hl;
        }

        (nvertex, pvertex)
    }
}

impl BBox {
    /// For each axis, whether the box leans toward the maximum face of `cube`
    /// rather than its minimum face: its midpoint lies above the cube's center.
    pub fn bcube_sides(&self, cube: BCube) -> (r: (bool, bool, bool))
        ensures
            r.0 == toward_max(self.min.x, self.max.x, cube.center.x),
            r.1 == toward_max(self.min.y, self.max.y, cube.center.y),
            r.2 == toward_max(self.min.z, self.max.z, cube.center.z),
    {
        let c = cube.center;
        (
            (self.min.x as i128) + (self.max.x as i128) > 2 * (c.x as i128),
            (self.min.y as i128) + (self.max.y as i128) > 2 * (c.y as i128),
            (self.min.z as i128) + (self.max.z as i128) > 2 * (c.z as i128),
        )
    }
}

/// One axis of a well-formed box fits in one of the two ways of growing a cube
/// centered at `c` with half length `h`: toward the maximum face or toward
/// the minimum face.
pub open spec fn reachable_axis(lo: i64, hi: i64, c: i64, h: i64) -> bool {
    lo <= hi && ((c - h <= lo && hi < c + 3 * h) || (c - 3 * h <= lo && hi < c + h))
}

/// The one box axis that a single growth cannot take in although it fits:
/// spanning exactly the closed cube, the tie sends growth to the minimum
/// side and leaves the maximum face outside.
pub open spec fn centered_tie(lo: i64, hi: i64, c: i64, h: i64) -> bool {
    lo == c - h && hi == c + h
}

/// Growing a cube keeps every point that it already contained: the old cube
/// becomes one octant of the new one.
pub proof fn lemma_extend_keeps_contents(cube: BCube, b: BBox, p: Vec3)
    requires
        cube.can_extend(b),
        cube.contains_spec(p),
    ensures
        cube.extended(b).contains_spec(p),
{
}

/// Growing a cube leaves every corner of a box inside whenever, on each axis,
/// the box fits one of the two ways the cube can grow and is not the centered
/// tie. Together with the law above, a cube grown by a sequence of such boxes
/// contains all of them.
pub proof fn lemma_extend_encloses_box(cube: BCube, b: BBox)
    requires
        cube.can_extend(b),
        reachable_axis(b.min.x, b.max.x, cube.center.x, cube.half_len),
        reachable_axis(b.min.y, b.max.y, cube.center.y, cube.half_len),
        reachable_axis(b.min.z, b.max.z, cube.center.z, cube.half_len),
        !centered_tie(b.min.x, b.max.x, cube.center.x, cube.half_len),
        !centered_tie(b.min.y, b.max.y, cube.center.y, cube.half_len),
        !centered_tie(b.min.z, b.max.z, cube.center.z, cube.half_len),
    ensures
        cube.extended(b).contains_box(b),
{
    let e = cube.extended(b);
    assert forall|sx: bool, sy: bool, sz: bool| #[trigger] e.contains_spec(corner(b, sx, sy, sz)) by {}
}

/// A grown cube is still a cube: its half length is doubled, the same on
/// every axis, and its extent along each axis is four old half lengths.
pub proof fn lemma_extend_stays_cube(cube: BCube, b: BBox)
    requires
        cube.can_extend(b),
    ensures
        cube.extended(b).half_len == 2 * cube.half_len,
        cube.extended(b).nonempty(),
        ({
            let (hi, lo) = cube.extended(b).corners();
            &&& hi.x - lo.x == 4 * cube.half_len
            &&& hi.y - lo.y == 4 * cube.half_len
            &&& hi.z - lo.z == 4 * cube.half_len
        }),
{
}

/// Extending never leaves a cube unchanged, even by a box it already holds:
/// the half length always doubles. The box stays inside.
pub proof fn lemma_extend_contained_box(cube: BCube, b: BBox)
    requires
        cube.can_extend(b),
        cube.contains_box(b),
    ensures
        cube.extended(b).contains_box(b),
        cube.extended(b).half_len == 2 * cube.half_len,
        cube.extended(b) != cube,
{
    let e = cube.extended(b);
    assert forall|sx: bool, sy: bool, sz: bool| #[trigger] e.contains_spec(corner(b, sx, sy, sz)) by {
        assert(cube.contains_spec(corner(b, sx, sy, sz)));
        lemma_extend_keeps_contents(cube, b, corner(b, sx, sy, sz));
    }
}

} // verus!
