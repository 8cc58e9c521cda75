//! Providers of estimation targets for the kriging engine.
//!
//! A volume target is a discretized set of points; a group is a run of
//! consecutive volumes that share one neighborhood search, stored in a flat
//! arena with per-group start offsets.

use vstd::prelude::*;

use crate::geometry::{Orientation, Point};

verus! {

/// Targets for a kriging run, grouped for batching.  `volumes` is the flat
/// arena of all discretized target volumes; `group_inds[g]` is the arena
/// index at which group `g` starts; `orientations[g]` is the search-rotation
/// override for group `g`.
pub struct VolumeGroupProvider {
    pub volumes: Vec<Vec<Point>>,
    pub group_inds: Vec<usize>,
    pub orientations: Vec<Orientation>,
}

impl VolumeGroupProvider {
    /// Arena index at which group `g` starts.
    pub open spec fn seg_start(self, g: int) -> int
        recommends
            0 <= g < self.group_inds@.len(),
    {
        self.group_inds@[g] as int
    }

    /// Arena index one past the end of group `g`.
    pub open spec fn seg_end(self, g: int) -> int
        recommends
            0 <= g < self.group_inds@.len(),
    {
        if g == self.group_inds@.len() - 1 {
            self.volumes@.len() as int
        } else {
            self.group_inds@[g + 1] as int
        }
    }

    /// The volumes of group `g`, as a slice of the arena.
    pub open spec fn group_seq(self, g: int) -> Seq<Vec<Point>>
        recommends
            0 <= g < self.group_inds@.len(),
    {
        self.volumes@.subrange(self.seg_start(g), self.seg_end(g))
    }

    /// Well-formed grouping: offsets start at zero, never decrease, and
    /// never pass the end of the arena.
    pub open spec fn wf(self) -> bool {
        &&& (self.group_inds@.len() > 0 ==> self.group_inds@[0] == 0)
        &&& forall|g: int|
            0 <= g < self.group_inds@.len() - 1 ==> #[trigger] self.group_inds@[g]
                <= self.group_inds@[g + 1]
        &&& forall|g: int|
            0 <= g < self.group_inds@.len() ==> #[trigger] self.group_inds@[g]
                <= self.volumes@.len()
    }

    /// How many groups this provider holds.
    pub fn n_groups(&self) -> (r: usize)
        ensures
            r == self.group_inds@.len(),
    {
        self.group_inds.len()
    }

    /// The volumes of group `group`, in arena order.
    pub fn get_group(&self, group: usize) -> (r: &[Vec<Point>])
        requires
            self.wf(),
            group < self.group_inds@.len(),
        ensures
            r@ == self.group_seq(group as int),
    {
        let start: usize = self.group_inds[group];
        let end: usize = if group == self.group_inds.len() - 1 {
            self.volumes.len()
        } else {
            self.group_inds[group + 1]
        };
        vstd::slice::slice_subrange(self.volumes.as_slice(), start, end)
    }

    /// The search orientation of group `group`.
    pub fn get_orientation(&self, group: usize) -> (r: &Orientation)
        requires
            group < self.orientations@.len(),
        ensures
            *r == self.orientations@[group as int],
    {
        &self.orientations[group]
    }

    /// Flatten nested groups of volumes into arena form, recording each
    /// group's start offset.  Grouping is reversible: every input group
    /// reappears, whole and in order, as a segment of the arena
    /// (see [`lemma_grouping_preserves_volumes`]).
    pub fn from_groups(volumes: Vec<Vec<Vec<Point>>>, orientations: Vec<Orientation>) -> (r: Self)
        ensures
            r.wf(),
            r.group_inds@.len() == volumes@.len(),
            volumes@.len() == 0 ==> r.volumes@.len() == 0,
            r.orientations@ == orientations@,
            forall|g: int|
                0 <= g < volumes@.len() ==> #[trigger] r.group_seq(g) == volumes@[g]@,
    {
        let ghost orig: Seq<Vec<Vec<Point>>> = volumes@;
        let n: usize = volumes.len();
        let mut rest: Vec<Vec<Vec<Point>>> = volumes;
        let mut group_inds: Vec<usize> = Vec::new();
        let mut volumes_flat: Vec<Vec<Point>> = Vec::new();
        let mut g: usize = 0;
        while g < n
            invariant
                g <= n,
                n == orig.len(),
                rest@ =~= orig.subrange(g as int, n as int),
                group_inds@.len() == g,
                forall|k: int|
                    0 <= k < g - 1 ==> #[trigger] group_inds@[k] <= group_inds@[k + 1],
                forall|k: int|
                    0 <= k < g ==> #[trigger] group_inds@[k] <= volumes_flat@.len(),
                g > 0 ==> group_inds@[0] == 0,
                g == 0 ==> volumes_flat@.len() == 0,
                forall|k: int|
                    0 <= k < g ==> {
                        let start = #[trigger] group_inds@[k] as int;
                        let end = if k == g - 1 {
                            volumes_flat@.len() as int
                        } else {
                            group_inds@[k + 1] as int
                        };
                        volumes_flat@.subrange(start, end) =~= orig[k]@
                    },
            decreases n - g,
        {
            let mut volume: Vec<Vec<Point>> = rest.remove(0);
            assert(volume@ == orig[g as int]@);
            let start: usize = volumes_flat.len();
            group_inds.push(start);
            volumes_flat.append(&mut volume);
            assert(volumes_flat@.subrange(start as int, volumes_flat@.len() as int) =~= orig[g as int]@);
            g = g + 1;
        }
        let r = Self { volumes: volumes_flat, group_inds, orientations };
        proof {
            assert forall|gg: int| 0 <= gg < orig.len() implies #[trigger] r.group_seq(gg)
                == orig[gg]@ by {
                assert(r.group_seq(gg) =~= orig[gg]@);
            }
        }
        r
    }
}

/// Concatenation of the first `g` group segments of a provider.
pub open spec fn concat_groups(p: VolumeGroupProvider, g: int) -> Seq<Vec<Point>>
    recommends
        0 <= g <= p.group_inds@.len(),
    decreases g,
{
    if g <= 0 {
        Seq::empty()
    } else {
        concat_groups(p, g - 1) + p.group_seq(g - 1)
    }
}

/// Grouping round trip: reading every group of a well-formed provider back
/// out, in order, reproduces the whole arena — no volume is lost,
/// duplicated, or reordered, so a result per arena slot is a result per
/// original target.
pub proof fn lemma_grouping_preserves_volumes(p: VolumeGroupProvider)
    requires
        p.wf(),
        p.group_inds@.len() > 0,
    ensures
        concat_groups(p, p.group_inds@.len() as int) == p.volumes@,
{
    let n = p.group_inds@.len() as int;
    lemma_concat_groups_prefix(p, n);
    assert(concat_groups(p, n) =~= p.volumes@);
}

proof fn lemma_concat_groups_prefix(p: VolumeGroupProvider, g: int)
    requires
        p.wf(),
        p.group_inds@.len() > 0,
        0 <= g <= p.group_inds@.len(),
    ensures
        concat_groups(p, g) =~= p.volumes@.subrange(
            0,
            if g == 0 {
                0
            } else {
                p.seg_end(g - 1)
            },
        ),
    decreases g,
{
    if g > 0 {
        lemma_concat_groups_prefix(p, g - 1);
        assert(g >= 2 ==> p.seg_end(g - 2) == p.seg_start(g - 1));
    }
}

} // verus!
