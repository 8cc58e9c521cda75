//! Geometric primitives in fixed-point coordinates.
//!
//! Coordinates are integers in millionths of a length unit (see
//! [`crate::SCALE`]), so every transform and distance computation below is
//! exact integer arithmetic.  The anisotropic search ellipsoid turns a
//! real-world separation into a normalized metric: a point is inside the
//! neighborhood exactly when its normalized squared distance is at most
//! one (fixed-point: `SCALE * SCALE`).

use vstd::arithmetic::div_mod::lemma_div_of0;
use vstd::prelude::*;

use crate::fixed::div_trunc;
use crate::fixed::lemma_trunc_div_bound;
use crate::SCALE;

verus! {

/// A location in three-dimensional space, fixed-point coordinates.
#[derive(Clone, Copy, PartialEq, Eq, Structural, Debug)]
pub struct Point {
    pub x: i64,
    pub y: i64,
    pub z: i64,
}

/// A rotation, stored as the four components of a unit quaternion in
/// fixed-point form.  The engine only carries an orientation alongside each
/// group; turning it into a rotation matrix is the caller's concern.
#[derive(Clone, Copy, PartialEq, Eq, Structural, Debug)]
pub struct Orientation {
    pub w: i64,
    pub xi: i64,
    pub yj: i64,
    pub zk: i64,
}

impl Orientation {
    /// The identity rotation.
    pub fn identity() -> (r: Self)
        ensures
            r == (Orientation { w: SCALE, xi: 0i64, yj: 0i64, zk: 0i64 }),
    {
        Orientation { w: SCALE, xi: 0, yj: 0, zk: 0 }
    }
}

/// Coordinate bound under which all ellipsoid-metric arithmetic is exact
/// and overflow-free: one million length units.
pub const COORD_LIMIT: i64 = 1_000_000_000_000;

/// A coordinate within the supported working volume.
pub open spec fn coord_ok(v: i64) -> bool {
    -COORD_LIMIT <= v <= COORD_LIMIT
}

/// A point whose three coordinates are within the supported working volume.
pub open spec fn point_ok(p: Point) -> bool {
    coord_ok(p.x) && coord_ok(p.y) && coord_ok(p.z)
}

/// A rotation matrix in fixed-point form; row `i` is `(mi0, mi1, mi2)`.
#[derive(Clone, Copy, PartialEq, Eq, Structural, Debug)]
pub struct Matrix3 {
    pub m00: i64,
    pub m01: i64,
    pub m02: i64,
    pub m10: i64,
    pub m11: i64,
    pub m12: i64,
    pub m20: i64,
    pub m21: i64,
    pub m22: i64,
}

impl Matrix3 {
    /// Every entry of a fixed-point rotation matrix lies in `[-1, 1]`.
    pub open spec fn wf(self) -> bool {
        &&& -SCALE <= self.m00 <= SCALE
        &&& -SCALE <= self.m01 <= SCALE
        &&& -SCALE <= self.m02 <= SCALE
        &&& -SCALE <= self.m10 <= SCALE
        &&& -SCALE <= self.m11 <= SCALE
        &&& -SCALE <= self.m12 <= SCALE
        &&& -SCALE <= self.m20 <= SCALE
        &&& -SCALE <= self.m21 <= SCALE
        &&& -SCALE <= self.m22 <= SCALE
    }

    /// The identity matrix.
    pub fn identity() -> (r: Self)
        ensures
            r.wf(),
            r == (Matrix3 {
                m00: SCALE,
                m01: 0i64,
                m02: 0i64,
                m10: 0i64,
                m11: SCALE,
                m12: 0i64,
                m20: 0i64,
                m21: 0i64,
                m22: SCALE,
            }),
    {
        Matrix3 { m00: SCALE, m01: 0, m02: 0, m10: 0, m11: SCALE, m12: 0, m20: 0, m21: 0, m22: SCALE }
    }
}

/// An anisotropic search neighborhood: three positive semi-axis ranges and
/// a coordinate transform (rotation into the principal frame, plus the
/// translation of its own center).
#[derive(Clone, Copy, PartialEq, Eq, Structural, Debug)]
pub struct Ellipsoid {
    pub a: i64,
    pub b: i64,
    pub c: i64,
    pub rot: Matrix3,
    pub translation: Point,
}

impl Ellipsoid {
    /// A valid search ellipsoid: strictly positive axes and a bounded
    /// rotation.
    pub open spec fn wf(self) -> bool {
        self.a > 0 && self.b > 0 && self.c > 0 && self.rot.wf()
    }
}

/// One rotated coordinate of a separation vector: the dot product of a
/// matrix row with the vector, scaled back down by the fixed-point unit.
pub open spec fn rot_coord(m0: i64, m1: i64, m2: i64, dx: int, dy: int, dz: int) -> int {
    div_trunc(m0 * dx + m1 * dy + m2 * dz, SCALE as int)
}

/// One rotated coordinate normalized by its semi-axis, in fixed-point form.
pub open spec fn axis_norm(r: int, axis: int) -> int {
    div_trunc(r * (SCALE as int), axis)
}

/// The ellipsoid-normalized squared distance from `center` to `p`: the
/// separation is rotated into the ellipsoid's principal frame, each
/// coordinate divided by its semi-axis, and the squares summed.  A value of
/// `SCALE * SCALE` is normalized distance one: the ellipsoid surface.
pub open spec fn norm_dist_sq_spec(e: Ellipsoid, center: Point, p: Point) -> int {
    let dx = p.x - center.x;
    let dy = p.y - center.y;
    let dz = p.z - center.z;
    let rx = rot_coord(e.rot.m00, e.rot.m01, e.rot.m02, dx, dy, dz);
    let ry = rot_coord(e.rot.m10, e.rot.m11, e.rot.m12, dx, dy, dz);
    let rz = rot_coord(e.rot.m20, e.rot.m21, e.rot.m22, dx, dy, dz);
    let tx = axis_norm(rx, e.a as int);
    let ty = axis_norm(ry, e.b as int);
    let tz = axis_norm(rz, e.c as int);
    tx * tx + ty * ty + tz * tz
}

/// Whether `p` lies inside the search neighborhood centered at `center`:
/// normalized distance at most one.
pub open spec fn includes_spec(e: Ellipsoid, center: Point, p: Point) -> bool {
    norm_dist_sq_spec(e, center, p) <= (SCALE as int) * (SCALE as int)
}

/// The octant of `p` around `center` in the ellipsoid's principal frame:
/// one sign bit per rotated coordinate.
pub open spec fn octant_spec(e: Ellipsoid, center: Point, p: Point) -> int {
    let dx = p.x - center.x;
    let dy = p.y - center.y;
    let dz = p.z - center.z;
    let rx = rot_coord(e.rot.m00, e.rot.m01, e.rot.m02, dx, dy, dz);
    let ry = rot_coord(e.rot.m10, e.rot.m11, e.rot.m12, dx, dy, dz);
    let rz = rot_coord(e.rot.m20, e.rot.m21, e.rot.m22, dx, dy, dz);
    (if rx >= 0 {
        1int
    } else {
        0int
    }) + (if ry >= 0 {
        2int
    } else {
        0int
    }) + (if rz >= 0 {
        4int
    } else {
        0int
    })
}

/// One rotated coordinate, exact in 128-bit arithmetic.
fn rotate_coord(m0: i64, m1: i64, m2: i64, dx: i64, dy: i64, dz: i64) -> (r: i128)
    requires
        -SCALE <= m0 <= SCALE,
        -SCALE <= m1 <= SCALE,
        -SCALE <= m2 <= SCALE,
        -2 * COORD_LIMIT <= dx <= 2 * COORD_LIMIT,
        -2 * COORD_LIMIT <= dy <= 2 * COORD_LIMIT,
        -2 * COORD_LIMIT <= dz <= 2 * COORD_LIMIT,
    ensures
        r as int == rot_coord(m0, m1, m2, dx as int, dy as int, dz as int),
        -6_000_000_000_000 <= r <= 6_000_000_000_000,
{
    proof {
        assert(SCALE == 1_000_000i64 && COORD_LIMIT == 1_000_000_000_000i64);
        assert(-2_000_000_000_000_000_000 <= (m0 as int) * (dx as int) <= 2_000_000_000_000_000_000)
            by (nonlinear_arith)
            requires
                -1_000_000 <= m0 <= 1_000_000,
                -2_000_000_000_000 <= dx <= 2_000_000_000_000,
        ;
        assert(-2_000_000_000_000_000_000 <= (m1 as int) * (dy as int) <= 2_000_000_000_000_000_000)
            by (nonlinear_arith)
            requires
                -1_000_000 <= m1 <= 1_000_000,
                -2_000_000_000_000 <= dy <= 2_000_000_000_000,
        ;
        assert(-2_000_000_000_000_000_000 <= (m2 as int) * (dz as int) <= 2_000_000_000_000_000_000)
            by (nonlinear_arith)
            requires
                -1_000_000 <= m2 <= 1_000_000,
                -2_000_000_000_000 <= dz <= 2_000_000_000_000,
        ;
    }
    let n: i128 = m0 as i128 * dx as i128 + m1 as i128 * dy as i128 + m2 as i128 * dz as i128;
    let r: i128 = n / 1_000_000;
    proof {
        assert(6_000_000_000_000int * 1_000_000 == 6_000_000_000_000_000_000);
        lemma_trunc_div_bound(n as int, 1_000_000, 6_000_000_000_000);
    }
    r
}

/// One normalized coordinate, exact in 128-bit arithmetic.
fn axis_normalize(r: i128, axis: i64) -> (t: i128)
    requires
        axis >= 1,
        -6_000_000_000_000 <= r <= 6_000_000_000_000,
    ensures
        t as int == axis_norm(r as int, axis as int),
        -6_000_000_000_000_000_000 <= t <= 6_000_000_000_000_000_000,
{
    proof {
        assert(SCALE == 1_000_000i64);
    }
    let n: i128 = r * 1_000_000;
    let t: i128 = n / (axis as i128);
    proof {
        assert(6_000_000_000_000_000_000 * (axis as int) >= 6_000_000_000_000_000_000)
            by (nonlinear_arith)
            requires
                axis >= 1,
        ;
        lemma_trunc_div_bound(n as int, axis as int, 6_000_000_000_000_000_000);
    }
    t
}

/// The ellipsoid-normalized squared distance from `center` to `p`.
pub fn norm_dist_sq(e: &Ellipsoid, center: Point, p: Point) -> (r: i128)
    requires
        e.wf(),
        point_ok(center),
        point_ok(p),
    ensures
        r as int == norm_dist_sq_spec(*e, center, p),
        0 <= r <= 108_000_000_000_000_000_000_000_000_000_000_000_000,
{
    let dx: i64 = p.x - center.x;
    let dy: i64 = p.y - center.y;
    let dz: i64 = p.z - center.z;
    let rx: i128 = rotate_coord(e.rot.m00, e.rot.m01, e.rot.m02, dx, dy, dz);
    let ry: i128 = rotate_coord(e.rot.m10, e.rot.m11, e.rot.m12, dx, dy, dz);
    let rz: i128 = rotate_coord(e.rot.m20, e.rot.m21, e.rot.m22, dx, dy, dz);
    let tx: i128 = axis_normalize(rx, e.a);
    let ty: i128 = axis_normalize(ry, e.b);
    let tz: i128 = axis_normalize(rz, e.c);
    proof {
        assert(0 <= (tx as int) * (tx as int)
            <= 36_000_000_000_000_000_000_000_000_000_000_000_000) by (nonlinear_arith)
            requires
                -6_000_000_000_000_000_000 <= tx <= 6_000_000_000_000_000_000,
        ;
        assert(0 <= (ty as int) * (ty as int)
            <= 36_000_000_000_000_000_000_000_000_000_000_000_000) by (nonlinear_arith)
            requires
                -6_000_000_000_000_000_000 <= ty <= 6_000_000_000_000_000_000,
        ;
        assert(0 <= (tz as int) * (tz as int)
            <= 36_000_000_000_000_000_000_000_000_000_000_000_000) by (nonlinear_arith)
            requires
                -6_000_000_000_000_000_000 <= tz <= 6_000_000_000_000_000_000,
        ;
    }
    tx * tx + ty * ty + tz * tz
}

/// Whether `p` lies inside the search neighborhood centered at `center`.
pub fn includes(e: &Ellipsoid, center: Point, p: Point) -> (r: bool)
    requires
        e.wf(),
        point_ok(center),
        point_ok(p),
    ensures
        r == includes_spec(*e, center, p),
{
    let d2: i128 = norm_dist_sq(e, center, p);
    proof {
        assert(SCALE == 1_000_000i64);
    }
    d2 <= 1_000_000_000_000
}

/// The octant of `p` around `center` in the ellipsoid's principal frame.
pub fn octant(e: &Ellipsoid, center: Point, p: Point) -> (r: u8)
    requires
        e.wf(),
        point_ok(center),
        point_ok(p),
    ensures
        r as int == octant_spec(*e, center, p),
        r < 8,
{
    let dx: i64 = p.x - center.x;
    let dy: i64 = p.y - center.y;
    let dz: i64 = p.z - center.z;
    let rx: i128 = rotate_coord(e.rot.m00, e.rot.m01, e.rot.m02, dx, dy, dz);
    let ry: i128 = rotate_coord(e.rot.m10, e.rot.m11, e.rot.m12, dx, dy, dz);
    let rz: i128 = rotate_coord(e.rot.m20, e.rot.m21, e.rot.m22, dx, dy, dz);
    let mut o: u8 = 0;
    if rx >= 0 {
        o = o + 1;
    }
    if ry >= 0 {
        o = o + 2;
    }
    if rz >= 0 {
        o = o + 4;
    }
    o
}

/// A sample at the search center itself is always inside the neighborhood,
/// whatever the orientation and axes of a valid ellipsoid: its normalized
/// distance is exactly zero.
pub proof fn lemma_center_always_included(e: Ellipsoid, t: Point)
    requires
        e.wf(),
    ensures
        norm_dist_sq_spec(e, t, t) == 0,
        includes_spec(e, t, t),
{
    assert(SCALE == 1_000_000i64);
    lemma_div_of0(SCALE as int);
    let dx = t.x - t.x;
    let dy = t.y - t.y;
    let dz = t.z - t.z;
    assert(dx == 0 && dy == 0 && dz == 0);
    assert(e.rot.m00 * dx + e.rot.m01 * dy + e.rot.m02 * dz == 0) by (nonlinear_arith)
        requires
            dx == 0 && dy == 0 && dz == 0,
    ;
    assert(e.rot.m10 * dx + e.rot.m11 * dy + e.rot.m12 * dz == 0) by (nonlinear_arith)
        requires
            dx == 0 && dy == 0 && dz == 0,
    ;
    assert(e.rot.m20 * dx + e.rot.m21 * dy + e.rot.m22 * dz == 0) by (nonlinear_arith)
        requires
            dx == 0 && dy == 0 && dz == 0,
    ;
    let rx = rot_coord(e.rot.m00, e.rot.m01, e.rot.m02, dx, dy, dz);
    let ry = rot_coord(e.rot.m10, e.rot.m11, e.rot.m12, dx, dy, dz);
    let rz = rot_coord(e.rot.m20, e.rot.m21, e.rot.m22, dx, dy, dz);
    assert(rx == 0 && ry == 0 && rz == 0);
    lemma_div_of0(e.a as int);
    lemma_div_of0(e.b as int);
    lemma_div_of0(e.c as int);
    assert(axis_norm(rx, e.a as int) == 0);
    assert(axis_norm(ry, e.b as int) == 0);
    assert(axis_norm(rz, e.c as int) == 0);
    assert(norm_dist_sq_spec(e, t, t) == 0);
    assert((SCALE as int) * (SCALE as int) >= 0) by (nonlinear_arith);
    assert(includes_spec(e, t, t));
}

/// An axis-aligned box, the volume form of an estimation target.
#[derive(Clone, Copy, PartialEq, Eq, Structural, Debug)]
pub struct Aabb {
    pub mins: Point,
    pub maxs: Point,
}

} // verus!
