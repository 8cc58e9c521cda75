//! Interfaces to spatial backing stores.
//!
//! A gridded database maps between grid indices, world locations and the
//! stored data; the engine consumes it only through range queries, so any
//! store satisfying this interface can condition an estimation run.

use vstd::prelude::*;

use crate::geometry::{includes, point_ok, Aabb, Ellipsoid, Point};

verus! {

/// A search volume that can answer point-membership queries around a
/// center.
pub trait SearchVolume {
    fn contains(&self, center: Point, p: Point) -> bool;
}

impl SearchVolume for Ellipsoid {
    fn contains(&self, center: Point, p: Point) -> (r: bool)
    {
        if !(self.a > 0 && self.b > 0 && self.c > 0) {
            return false;
        }
        let s = crate::SCALE;
        let m = &self.rot;
        if m.m00 > s || m.m00 < -s || m.m01 > s || m.m01 < -s || m.m02 > s || m.m02 < -s || m.m10
            > s || m.m10 < -s || m.m11 > s || m.m11 < -s || m.m12 > s || m.m12 < -s || m.m20 > s
            || m.m20 < -s || m.m21 > s || m.m21 < -s || m.m22 > s || m.m22 < -s {
            return false;
        }
        let lim = crate::geometry::COORD_LIMIT;
        if center.x > lim || center.x < -lim || center.y > lim || center.y < -lim || center.z > lim
            || center.z < -lim || p.x > lim || p.x < -lim || p.y > lim || p.y < -lim || p.z > lim
            || p.z < -lim {
            return false;
        }
        includes(self, center, p)
    }
}

/// A gridded spatial database: index arithmetic, data lookup, and bulk
/// extraction over a regular grid.
pub trait GriddedDataBaseInterface<T> {
    /// The grid index whose cell holds or exceeds the given location.
    fn coord_to_high_ind(&self, point: &Point) -> [i64; 3];

    /// Apply a signed offset to an index, `None` when it leaves the grid.
    fn offset_ind(&self, ind: [usize; 3], offset: [i64; 3]) -> Option<[usize; 3]>;

    /// The datum stored at an index, `None` for an empty cell.
    fn data_at_ind(&self, ind: &[usize; 3]) -> Option<T>;

    /// The world location of a signed grid index.
    fn ind_to_point(&self, ind: &[i64; 3]) -> Point;

    /// The index offsets around `ind` whose cells fall inside the search
    /// volume.
    fn offsets_from_ind_in_geometry<G: SearchVolume>(
        &self,
        ind: &[usize; 3],
        geometry: &G,
    ) -> Vec<[i64; 3]>;

    /// All indices whose cells intersect the bounding box.
    fn inds_in_bounding_box(&self, bounding_box: &Aabb) -> Vec<[usize; 3]>;

    /// Every stored datum with its location.
    fn data_and_points(&self) -> (Vec<T>, Vec<Point>);
}

} // verus!
