//! Generalized sequential indicator kriging.
//!
//! One kriging pass per probability threshold: conditioning values are
//! viewed as indicators (one when at or below the threshold, zero above),
//! the full pipeline runs on the indicator data, and the per-threshold
//! probabilities are gathered into one cumulative distribution per target,
//! optionally order-corrected.

use vstd::prelude::*;

use crate::conditioning::{coverage_spec, samples_ok, search, KrigingError,
    Sample};
use crate::fixed::div_trunc;
use crate::geometry::{point_ok, Ellipsoid, Point};
use crate::ikcpdf::{is_valid_cdf, IKCPDF};
use crate::kriging::{build_ok_system, build_sk_system, contains_sample, dedup_exact,
    dot_scaled_exec, lemma_ok_outcome_widen, model_ok, ok_krige_outcome, ok_krige_witness,
    ok_probability_outcome, sk_krige_outcome, sk_krige_witness, sample_values, shifted_values,
    solve, support_ok};
use crate::variography::IsoSpherical;
use crate::{MISSING, SCALE};

verus! {

/// Engine bounds: batch size, conditioning cap, required octant coverage,
/// and whether the assembled distributions are order-corrected before they
/// are returned.
#[derive(Clone, Copy, PartialEq, Eq, Structural, Debug)]
pub struct GSKParameters {
    pub max_group_size: usize,
    pub max_cond_data: usize,
    pub min_conditioned_octants: usize,
    pub correct_cpdfs: bool,
}

/// The centroid of a discretized support, floored per coordinate: the
/// location at which the neighborhood search is centered.
pub open spec fn sum_coord_x(ts: Seq<Point>, k: int) -> int
    decreases k,
{
    if k <= 0 {
        0
    } else {
        sum_coord_x(ts, k - 1) + ts[k - 1].x
    }
}

pub open spec fn sum_coord_y(ts: Seq<Point>, k: int) -> int
    decreases k,
{
    if k <= 0 {
        0
    } else {
        sum_coord_y(ts, k - 1) + ts[k - 1].y
    }
}

pub open spec fn sum_coord_z(ts: Seq<Point>, k: int) -> int
    decreases k,
{
    if k <= 0 {
        0
    } else {
        sum_coord_z(ts, k - 1) + ts[k - 1].z
    }
}

pub open spec fn support_center_spec(ts: Seq<Point>) -> Point {
    Point {
        x: div_trunc(sum_coord_x(ts, ts.len() as int), ts.len() as int) as i64,
        y: div_trunc(sum_coord_y(ts, ts.len() as int), ts.len() as int) as i64,
        z: div_trunc(sum_coord_z(ts, ts.len() as int), ts.len() as int) as i64,
    }
}

/// The centroid of a discretized support.
pub fn support_center(ts: &Vec<Point>) -> (r: Point)
    requires
        support_ok(ts@),
    ensures
        r == support_center_spec(ts@),
        point_ok(r),
{
    let m: usize = ts.len();
    let mut sx: i128 = 0;
    let mut sy: i128 = 0;
    let mut sz: i128 = 0;
    let mut k: usize = 0;
    while k < m
        invariant
            k <= m,
            m == ts@.len(),
            support_ok(ts@),
            sx as int == sum_coord_x(ts@, k as int),
            sy as int == sum_coord_y(ts@, k as int),
            sz as int == sum_coord_z(ts@, k as int),
            -(k as int) * 1_000_000_000_000 <= sx <= (k as int) * 1_000_000_000_000,
            -(k as int) * 1_000_000_000_000 <= sy <= (k as int) * 1_000_000_000_000,
            -(k as int) * 1_000_000_000_000 <= sz <= (k as int) * 1_000_000_000_000,
        decreases m - k,
    {
        let p: Point = ts[k];
        proof {
            assert((k as int + 1) * 1_000_000_000_000 == (k as int) * 1_000_000_000_000
                + 1_000_000_000_000) by (nonlinear_arith);
            assert((k as int) * 1_000_000_000_000 <= 100_000_000_000_000_000_000_000_000_000_000)
                by (nonlinear_arith)
                requires
                    0 <= k < 0x1_0000_0000_0000_0000,
            ;
        }
        sx = sx + p.x as i128;
        sy = sy + p.y as i128;
        sz = sz + p.z as i128;
        k = k + 1;
    }
    proof {
        assert((m as int) * 1_000_000_000_000 <= 100_000_000_000_000_000_000_000_000_000_000)
            by (nonlinear_arith)
            requires
                0 < m < 0x1_0000_0000_0000_0000,
        ;
        crate::fixed::lemma_trunc_div_bound(sx as int, m as int, 1_000_000_000_000);
        crate::fixed::lemma_trunc_div_bound(sy as int, m as int, 1_000_000_000_000);
        crate::fixed::lemma_trunc_div_bound(sz as int, m as int, 1_000_000_000_000);
    }
    let cx: i128 = sx / (m as i128);
    let cy: i128 = sy / (m as i128);
    let cz: i128 = sz / (m as i128);
    Point { x: cx as i64, y: cy as i64, z: cz as i64 }
}

/// Conditioning values within the fixed-point working range.
pub open spec fn values_ok(s: Seq<Sample>) -> bool {
    forall|i: int| 0 <= i < s.len() ==> -1_000_000_000_000 <= (#[trigger] s[i]).value
        <= 1_000_000_000_000
}

/// Estimate one target support by ordinary kriging: search the
/// neighborhood around its centroid, assemble and solve the bordered
/// system, and take the covariance-weighted sum of the conditioning values.
/// Returns the estimate and the kriging variance (sill minus the weighted
/// right-hand side, Lagrange term included).
pub fn krige_support(
    cond: &Vec<Sample>,
    ts: &Vec<Point>,
    e: &Ellipsoid,
    vg: &IsoSpherical,
    max_cond_data: usize,
    min_conditioned_octants: usize,
) -> (r: Result<(i64, i64), KrigingError>)
    requires
        e.wf(),
        model_ok(*vg),
        samples_ok(cond@),
        values_ok(cond@),
        support_ok(ts@),
        max_cond_data >= 1,
    ensures
        (r matches Err(er) && er == KrigingError::InsufficientNeighborhoodCoverage) <==> coverage_spec(
            *e,
            support_center_spec(ts@),
            cond@,
        ) < min_conditioned_octants,
        r matches Err(er) ==> er == KrigingError::InsufficientNeighborhoodCoverage || er
            == KrigingError::SingularSystem,
        r matches Ok(ev) ==> ok_krige_outcome(*e, *vg, cond@, ts@, ev.0, ev.1),
{
    let center: Point = support_center(ts);
    let sel: Vec<usize> = match search(cond, center, e, max_cond_data, min_conditioned_octants) {
        Ok(v) => v,
        Err(er) => {
            return Err(er);
        },
    };
    if sel.len() == 0 {
        return Err(KrigingError::SingularSystem);
    }
    let mut chosen: Vec<Sample> = Vec::new();
    let mut vals: Vec<i64> = Vec::new();
    let mut t: usize = 0;
    while t < sel.len()
        invariant
            t <= sel@.len(),
            samples_ok(cond@),
            values_ok(cond@),
            forall|q: int| 0 <= q < sel@.len() ==> #[trigger] sel@[q] < cond@.len(),
            chosen@.len() == t,
            vals@.len() == t,
            forall|q: int| 0 <= q < t ==> #[trigger] chosen@[q] == cond@[sel@[q] as int],
            forall|q: int| 0 <= q < t ==> #[trigger] vals@[q] == cond@[sel@[q] as int].value,
            samples_ok(chosen@),
            values_ok(chosen@),
            forall|q: int| 0 <= q < t ==> -1_000_000_000_000 <= #[trigger] vals@[q]
                <= 1_000_000_000_000,
        decreases sel@.len() - t,
    {
        let idx: usize = sel[t];
        let sm: Sample = cond[idx];
        chosen.push(sm);
        vals.push(sm.value);
        t = t + 1;
    }
    proof {
        assert forall|q: int| 0 <= q < chosen@.len() implies contains_sample(
            cond@,
            #[trigger] chosen@[q],
        ) by {
            assert(cond@[sel@[q] as int] == chosen@[q]);
        }
        assert(vals@ =~= sample_values(chosen@));
    }
    let system: (Vec<Vec<i64>>, Vec<i64>) = build_ok_system(&chosen, ts, e, vg);
    let cmat: Vec<Vec<i64>> = system.0;
    let bvec: Vec<i64> = system.1;
    let n: usize = chosen.len();
    proof {
        assert(cmat@.len() == n + 1);
        assert(cmat@.map_values(|row: Vec<i64>| row@).len() == n + 1);
        assert forall|i: int| 0 <= i < cmat@.len() implies (#[trigger] cmat@[i])@.len() == cmat@.len() by {
            assert(cmat@.map_values(|row: Vec<i64>| row@)[i] == cmat@[i]@);
        }
    }
    let w: Vec<i64> = match solve(&cmat, &bvec) {
        Ok(w) => w,
        Err(_) => {
            return Err(KrigingError::SingularSystem);
        },
    };
    let est: i64 = match dot_scaled_exec(&w, &vals, n) {
        Ok(v) => v,
        Err(_) => {
            return Err(KrigingError::SingularSystem);
        },
    };
    proof {
        assert(SCALE == 1_000_000i64);
        assert forall|q: int| 0 <= q < bvec@.len() implies -1_000_000_000_000
            <= #[trigger] bvec@[q] <= 1_000_000_000_000 by {}
    }
    let wb: i64 = match dot_scaled_exec(&w, &bvec, n + 1) {
        Ok(v) => v,
        Err(_) => {
            return Err(KrigingError::SingularSystem);
        },
    };
    // Rounding may push the explained variance past the sill; the
    // variance floor is zero.
    let var: i64 = if wb > vg.sill {
        0
    } else {
        vg.sill - wb
    };
    proof {
        let wit = (w@, chosen@, cmat@.map_values(|row: Vec<i64>| row@), bvec@);
        assert(ok_krige_witness(*e, *vg, cond@, ts@, est, var, wit));
        assert(ok_krige_outcome(*e, *vg, cond@, ts@, est, var));
    }
    Ok((est, var))
}

/// Estimate one target support by simple kriging against a known global
/// mean: the unaugmented covariance system is solved, the weights are
/// applied to the mean-shifted conditioning values, and the mean is added
/// back.  With a nonzero mean prior the weights need not (and in general do
/// not) sum to one.
pub fn krige_support_simple(
    cond: &Vec<Sample>,
    ts: &Vec<Point>,
    e: &Ellipsoid,
    vg: &IsoSpherical,
    mean: i64,
    max_cond_data: usize,
    min_conditioned_octants: usize,
) -> (r: Result<(i64, i64), KrigingError>)
    requires
        e.wf(),
        model_ok(*vg),
        samples_ok(cond@),
        values_ok(cond@),
        support_ok(ts@),
        max_cond_data >= 1,
        -1_000_000_000_000 <= mean <= 1_000_000_000_000,
    ensures
        (r matches Err(er) && er == KrigingError::InsufficientNeighborhoodCoverage) <==> coverage_spec(
            *e,
            support_center_spec(ts@),
            cond@,
        ) < min_conditioned_octants,
        r matches Err(er) ==> er == KrigingError::InsufficientNeighborhoodCoverage || er
            == KrigingError::SingularSystem,
        r matches Ok(ev) ==> sk_krige_outcome(*e, *vg, cond@, ts@, mean, ev.0, ev.1),
{
    let center: Point = support_center(ts);
    let sel: Vec<usize> = match search(cond, center, e, max_cond_data, min_conditioned_octants) {
        Ok(v) => v,
        Err(er) => {
            return Err(er);
        },
    };
    if sel.len() == 0 {
        return Err(KrigingError::SingularSystem);
    }
    let mut chosen: Vec<Sample> = Vec::new();
    let mut vals: Vec<i64> = Vec::new();
    let mut t: usize = 0;
    while t < sel.len()
        invariant
            t <= sel@.len(),
            samples_ok(cond@),
            values_ok(cond@),
            -1_000_000_000_000 <= mean <= 1_000_000_000_000,
            forall|q: int| 0 <= q < sel@.len() ==> #[trigger] sel@[q] < cond@.len(),
            chosen@.len() == t,
            vals@.len() == t,
            forall|q: int| 0 <= q < t ==> #[trigger] chosen@[q] == cond@[sel@[q] as int],
            forall|q: int| 0 <= q < t ==> #[trigger] vals@[q] == chosen@[q].value - mean,
            samples_ok(chosen@),
            forall|q: int| 0 <= q < t ==> -2_000_000_000_000 <= #[trigger] vals@[q]
                <= 2_000_000_000_000,
        decreases sel@.len() - t,
    {
        let idx: usize = sel[t];
        let sm: Sample = cond[idx];
        chosen.push(sm);
        vals.push(sm.value - mean);
        t = t + 1;
    }
    proof {
        assert forall|q: int| 0 <= q < chosen@.len() implies contains_sample(
            cond@,
            #[trigger] chosen@[q],
        ) by {
            assert(cond@[sel@[q] as int] == chosen@[q]);
        }
        assert(vals@ =~= shifted_values(chosen@, mean));
    }
    let system: (Vec<Vec<i64>>, Vec<i64>) = build_sk_system(&chosen, ts, e, vg);
    let cmat: Vec<Vec<i64>> = system.0;
    let bvec: Vec<i64> = system.1;
    let n: usize = chosen.len();
    proof {
        assert(cmat@.map_values(|row: Vec<i64>| row@).len() == n);
        assert forall|i: int| 0 <= i < cmat@.len() implies (#[trigger] cmat@[i])@.len()
            == cmat@.len() by {
            assert(cmat@.map_values(|row: Vec<i64>| row@)[i] == cmat@[i]@);
        }
    }
    let w: Vec<i64> = match solve(&cmat, &bvec) {
        Ok(w) => w,
        Err(_) => {
            return Err(KrigingError::SingularSystem);
        },
    };
    let shifted: i64 = match dot_scaled_exec(&w, &vals, n) {
        Ok(v) => v,
        Err(_) => {
            return Err(KrigingError::SingularSystem);
        },
    };
    let est: i64 = mean + shifted;
    proof {
        assert forall|q: int| 0 <= q < bvec@.len() implies -2_000_000_000_000
            <= #[trigger] bvec@[q] <= 2_000_000_000_000 by {}
    }
    let wb: i64 = match dot_scaled_exec(&w, &bvec, n) {
        Ok(v) => v,
        Err(_) => {
            return Err(KrigingError::SingularSystem);
        },
    };
    let var: i64 = if wb > vg.sill {
        0
    } else {
        vg.sill - wb
    };
    proof {
        let wit = (w@, chosen@, cmat@.map_values(|row: Vec<i64>| row@), bvec@);
        assert(sk_krige_witness(*e, *vg, cond@, ts@, mean, est, var, wit));
        assert(sk_krige_outcome(*e, *vg, cond@, ts@, mean, est, var));
    }
    Ok((est, var))
}

/// How many supports the grouped targets hold in all.
pub open spec fn total_supports(groups: Seq<Vec<Vec<Point>>>, g: int) -> int
    decreases g,
{
    if g <= 0 {
        0
    } else {
        total_supports(groups, g - 1) + groups[g - 1]@.len()
    }
}

/// Every support of every group is a non-empty set of in-volume points.
pub open spec fn groups_ok(groups: Seq<Vec<Vec<Point>>>) -> bool {
    forall|g: int, v: int|
        0 <= g < groups.len() && 0 <= v < groups[g]@.len() ==> support_ok(
            (#[trigger] groups[g]@[v])@,
        )
}

/// The indicator view of conditioning data for one threshold: the same
/// locations, each value one when at or below the threshold and zero
/// above.
pub open spec fn indicator_spec(s: Seq<Sample>, threshold: i64) -> Seq<Sample> {
    s.map_values(
        |x: Sample| Sample {
            point: x.point,
            value: if x.value <= threshold {
                SCALE
            } else {
                0i64
            },
        },
    )
}

/// A usable per-threshold conditioning set: in-volume locations, bounded
/// values, every sample drawn from the given base set.
pub open spec fn cond_set_ok(c: Seq<Sample>, base: Seq<Sample>) -> bool {
    &&& samples_ok(c)
    &&& values_ok(c)
    &&& forall|q: int| 0 <= q < c.len() ==> contains_sample(base, #[trigger] c[q])
}

/// Whether a probability sequence carries the missing marker anywhere.
pub open spec fn has_missing(s: Seq<i64>) -> bool {
    exists|k: int| 0 <= k < s.len() && s[k] == MISSING
}

/// The probability in the slot of support `v` of group `g` at threshold
/// index `k` is either the missing marker or a genuine ordinary-kriging
/// outcome for exactly that support, against the indicator view of the
/// conditioning data at that threshold.
pub open spec fn slot_estimated(
    engine: GSIK,
    groups: Seq<Vec<Vec<Point>>>,
    p: i64,
    g: int,
    v: int,
    k: int,
) -> bool {
    p == MISSING || ok_probability_outcome(
        engine.search_ellipsoid,
        engine.variogram_models@[k],
        indicator_spec(engine.conditioning_data@, engine.thresholds@[k]),
        groups[g]@[v]@,
        p,
    )
}

/// The generalized sequential indicator kriging engine: conditioning data,
/// one fitted variogram model per threshold, the ascending thresholds, the
/// search neighborhood, and the engine bounds.
pub struct GSIK {
    pub conditioning_data: Vec<Sample>,
    pub variogram_models: Vec<IsoSpherical>,
    pub thresholds: Vec<i64>,
    pub search_ellipsoid: Ellipsoid,
    pub parameters: GSKParameters,
}

/// A usable engine configuration: a valid ellipsoid, at least one
/// threshold with one model each, a positive conditioning cap, and all
/// data within the fixed-point working range.  [`GSIK::new`] accepts
/// exactly these configurations and refuses every other.
pub open spec fn valid_config(
    cond: Seq<Sample>,
    models: Seq<IsoSpherical>,
    thresholds: Seq<i64>,
    e: Ellipsoid,
    params: GSKParameters,
) -> bool {
    &&& e.wf()
    &&& thresholds.len() >= 1
    &&& models.len() == thresholds.len()
    &&& forall|k: int| 0 <= k < models.len() ==> model_ok(#[trigger] models[k])
    &&& params.max_cond_data >= 1
    &&& samples_ok(cond)
}

impl GSIK {
    /// A usable engine: its configuration is valid.
    pub open spec fn wf(self) -> bool {
        valid_config(
            self.conditioning_data@,
            self.variogram_models@,
            self.thresholds@,
            self.search_ellipsoid,
            self.parameters,
        )
    }

    /// Build an engine, refusing an invalid configuration: non-positive
    /// ellipsoid axes or rotation out of range, no thresholds, a model
    /// count that does not match the thresholds, an unusable model, a
    /// conditioning cap below one, or data outside the working volume.
    pub fn new(
        conditioning_data: Vec<Sample>,
        variogram_models: Vec<IsoSpherical>,
        thresholds: Vec<i64>,
        search_ellipsoid: Ellipsoid,
        parameters: GSKParameters,
    ) -> (r: Result<Self, KrigingError>)
        ensures
            r is Ok <==> valid_config(
                conditioning_data@,
                variogram_models@,
                thresholds@,
                search_ellipsoid,
                parameters,
            ),
            r matches Err(er) ==> er == KrigingError::InvalidConfiguration,
            r matches Ok(g) ==> g.wf() && g.conditioning_data@ == conditioning_data@
                && g.variogram_models@ == variogram_models@ && g.thresholds@ == thresholds@
                && g.search_ellipsoid == search_ellipsoid && g.parameters == parameters,
    {
        if !(search_ellipsoid.a > 0 && search_ellipsoid.b > 0 && search_ellipsoid.c > 0) {
            return Err(KrigingError::InvalidConfiguration);
        }
        let m = &search_ellipsoid.rot;
        if m.m00 > SCALE || m.m00 < -SCALE || m.m01 > SCALE || m.m01 < -SCALE || m.m02 > SCALE
            || m.m02 < -SCALE || m.m10 > SCALE || m.m10 < -SCALE || m.m11 > SCALE || m.m11 < -SCALE
            || m.m12 > SCALE || m.m12 < -SCALE || m.m20 > SCALE || m.m20 < -SCALE || m.m21 > SCALE
            || m.m21 < -SCALE || m.m22 > SCALE || m.m22 < -SCALE {
            return Err(KrigingError::InvalidConfiguration);
        }
        if thresholds.len() == 0 {
            return Err(KrigingError::InvalidConfiguration);
        }
        if variogram_models.len() != thresholds.len() {
            return Err(KrigingError::InvalidConfiguration);
        }
        let mut k: usize = 0;
        while k < variogram_models.len()
            invariant
                k <= variogram_models@.len(),
                forall|t: int| 0 <= t < k ==> model_ok(#[trigger] variogram_models@[t]),
            decreases variogram_models@.len() - k,
        {
            let vm: IsoSpherical = variogram_models[k];
            if !(vm.range > 0 && vm.range <= 1_000_000_000_000_000_000 && vm.sill >= 0 && vm.sill
                <= 1_000_000_000_000) {
                proof {
                    assert(!model_ok(variogram_models@[k as int]));
                }
                return Err(KrigingError::InvalidConfiguration);
            }
            k = k + 1;
        }
        if parameters.max_cond_data == 0 {
            return Err(KrigingError::InvalidConfiguration);
        }
        let mut k: usize = 0;
        while k < conditioning_data.len()
            invariant
                k <= conditioning_data@.len(),
                forall|t: int| 0 <= t < k ==> point_ok((#[trigger] conditioning_data@[t]).point),
            decreases conditioning_data@.len() - k,
        {
            let p: Point = conditioning_data[k].point;
            if p.x > 1_000_000_000_000 || p.x < -1_000_000_000_000 || p.y > 1_000_000_000_000 || p.y
                < -1_000_000_000_000 || p.z > 1_000_000_000_000 || p.z < -1_000_000_000_000 {
                proof {
                    assert(!point_ok(conditioning_data@[k as int].point));
                }
                return Err(KrigingError::InvalidConfiguration);
            }
            k = k + 1;
        }
        Ok(
            Self {
                conditioning_data,
                variogram_models,
                thresholds,
                search_ellipsoid,
                parameters,
            },
        )
    }

    /// View the conditioning values as indicators for one threshold: one
    /// where the value lies at or below it, zero above.
    fn indicator_samples(&self, threshold: i64) -> (r: Vec<Sample>)
        requires
            samples_ok(self.conditioning_data@),
        ensures
            r@.len() == self.conditioning_data@.len(),
            forall|t: int|
                0 <= t < r@.len() ==> (#[trigger] r@[t]).point == self.conditioning_data@[t].point
                    && r@[t].value == (if self.conditioning_data@[t].value <= threshold {
                    SCALE
                } else {
                    0i64
                }),
            samples_ok(r@),
            values_ok(r@),
            r@ == indicator_spec(self.conditioning_data@, threshold),
    {
        let mut out: Vec<Sample> = Vec::new();
        let mut t: usize = 0;
        while t < self.conditioning_data.len()
            invariant
                t <= self.conditioning_data@.len(),
                samples_ok(self.conditioning_data@),
                out@.len() == t,
                forall|q: int|
                    0 <= q < t ==> (#[trigger] out@[q]).point
                        == self.conditioning_data@[q].point && out@[q].value == (
                    if self.conditioning_data@[q].value <= threshold {
                        SCALE
                    } else {
                        0i64
                    }),
            decreases self.conditioning_data@.len() - t,
        {
            let sm: Sample = self.conditioning_data[t];
            let v: i64 = if sm.value <= threshold {
                SCALE
            } else {
                0
            };
            out.push(Sample { point: sm.point, value: v });
            t = t + 1;
        }
        proof {
            assert(SCALE == 1_000_000i64);
            assert(out@ =~= indicator_spec(self.conditioning_data@, threshold));
        }
        out
    }

    /// Run the full indicator pipeline: for each threshold, the
    /// conditioning data is viewed as indicators and deduplicated, and
    /// every target support is kriged against it, one cumulative
    /// distribution per target support, in target order.  Each returned
    /// probability is a genuine ordinary-kriging outcome for its own
    /// support and threshold, or the [`MISSING`] marker when that pass
    /// failed.  With `correct_cpdfs` set, a distribution with no missing
    /// entry is order-corrected into a valid CDF; one holding a missing
    /// marker is returned raw, marker intact.
    pub fn estimate(&self, groups: &Vec<Vec<Vec<Point>>>) -> (r: Vec<IKCPDF>)
        requires
            self.wf(),
            groups_ok(groups@),
            total_supports(groups@, groups@.len() as int) < 0x1_0000_0000_0000_0000,
        ensures
            r@.len() == total_supports(groups@, groups@.len() as int),
            forall|t: int| 0 <= t < r@.len() ==> (#[trigger] r@[t]).x@ == self.thresholds@,
            forall|t: int|
                0 <= t < r@.len() ==> (#[trigger] r@[t]).p@.len() == self.thresholds@.len(),
            self.parameters.correct_cpdfs ==> forall|t: int|
                0 <= t < r@.len() ==> is_valid_cdf((#[trigger] r@[t]).p@) || has_missing(
                    r@[t].p@,
                ),
            !self.parameters.correct_cpdfs ==> forall|g: int, v: int, k: int|
                0 <= g < groups@.len() && 0 <= v < groups@[g]@.len() && 0 <= k
                    < self.thresholds@.len() ==> #[trigger] slot_estimated(
                    *self,
                    groups@,
                    r@[total_supports(groups@, g) + v].p@[k],
                    g,
                    v,
                    k,
                ),
    {
        let n_thresh: usize = self.thresholds.len();
        // One deduplicated indicator view per threshold.
        let mut conds: Vec<Vec<Sample>> = Vec::new();
        let mut k: usize = 0;
        while k < n_thresh
            invariant
                k <= n_thresh,
                n_thresh == self.thresholds@.len(),
                self.wf(),
                conds@.len() == k,
                forall|q: int|
                    0 <= q < k ==> cond_set_ok(
                        (#[trigger] conds@[q])@,
                        indicator_spec(self.conditioning_data@, self.thresholds@[q]),
                    ),
            decreases n_thresh - k,
        {
            let ind: Vec<Sample> = self.indicator_samples(self.thresholds[k]);
            let deduped: Vec<Sample> = dedup_exact(&ind);
            proof {
                assert forall|q: int| 0 <= q < deduped@.len() implies point_ok(
                    (#[trigger] deduped@[q]).point,
                ) && -1_000_000_000_000 <= deduped@[q].value <= 1_000_000_000_000 by {
                    assert(contains_sample(ind@, deduped@[q]));
                    let j0 = choose|j0: int| 0 <= j0 < ind@.len() && ind@[j0] == deduped@[q];
                    assert(point_ok(ind@[j0].point));
                }
                assert(cond_set_ok(
                    deduped@,
                    indicator_spec(self.conditioning_data@, self.thresholds@[k as int]),
                ));
            }
            conds.push(deduped);
            k = k + 1;
        }

        // Krige every support against every threshold's conditioning
        // view, in target order.
        let mut out: Vec<IKCPDF> = Vec::new();
        let mut g: usize = 0;
        while g < groups.len()
            invariant
                g <= groups@.len(),
                self.wf(),
                groups_ok(groups@),
                n_thresh == self.thresholds@.len(),
                total_supports(groups@, groups@.len() as int) < 0x1_0000_0000_0000_0000,
                conds@.len() == n_thresh,
                forall|q: int|
                    0 <= q < n_thresh ==> cond_set_ok(
                        (#[trigger] conds@[q])@,
                        indicator_spec(self.conditioning_data@, self.thresholds@[q]),
                    ),
                out@.len() == total_supports(groups@, g as int),
                forall|t: int| 0 <= t < out@.len() ==> (#[trigger] out@[t]).x@ == self.thresholds@,
                forall|t: int| 0 <= t < out@.len() ==> (#[trigger] out@[t]).p@.len() == n_thresh,
                self.parameters.correct_cpdfs ==> forall|t: int|
                    0 <= t < out@.len() ==> is_valid_cdf((#[trigger] out@[t]).p@) || has_missing(
                        out@[t].p@,
                    ),
                !self.parameters.correct_cpdfs ==> forall|g2: int, v2: int, k2: int|
                    0 <= g2 < groups@.len() && 0 <= v2 < groups@[g2]@.len() && 0 <= k2
                        < n_thresh && 0 <= total_supports(groups@, g2) + v2 < out@.len()
                        ==> #[trigger] slot_estimated(
                        *self,
                        groups@,
                        out@[total_supports(groups@, g2) + v2].p@[k2],
                        g2,
                        v2,
                        k2,
                    ),
            decreases groups@.len() - g,
        {
            let group: &Vec<Vec<Point>> = &groups[g];
            let mut v: usize = 0;
            while v < group.len()
                invariant
                    v <= group@.len(),
                    group@ == groups@[g as int]@,
                    g < groups@.len(),
                    self.wf(),
                    groups_ok(groups@),
                    n_thresh == self.thresholds@.len(),
                    total_supports(groups@, groups@.len() as int) < 0x1_0000_0000_0000_0000,
                    conds@.len() == n_thresh,
                    forall|q: int|
                        0 <= q < n_thresh ==> cond_set_ok(
                            (#[trigger] conds@[q])@,
                            indicator_spec(self.conditioning_data@, self.thresholds@[q]),
                        ),
                    out@.len() == total_supports(groups@, g as int) + v,
                    forall|t: int|
                        0 <= t < out@.len() ==> (#[trigger] out@[t]).x@ == self.thresholds@,
                    forall|t: int|
                        0 <= t < out@.len() ==> (#[trigger] out@[t]).p@.len() == n_thresh,
                    self.parameters.correct_cpdfs ==> forall|t: int|
                        0 <= t < out@.len() ==> is_valid_cdf((#[trigger] out@[t]).p@)
                            || has_missing(out@[t].p@),
                    !self.parameters.correct_cpdfs ==> forall|g2: int, v2: int, k2: int|
                        0 <= g2 < groups@.len() && 0 <= v2 < groups@[g2]@.len() && 0
                            <= k2 < n_thresh && 0 <= total_supports(groups@, g2) + v2
                            < out@.len() ==> #[trigger] slot_estimated(
                            *self,
                            groups@,
                            out@[total_supports(groups@, g2) + v2].p@[k2],
                            g2,
                            v2,
                            k2,
                        ),
                decreases group@.len() - v,
            {
                proof {
                    lemma_total_supports_bound(groups@, g as int);
                    assert(support_ok(groups@[g as int]@[v as int]@));
                }
                let support: &Vec<Point> = &group[v];
                let mut cpdf: IKCPDF = IKCPDF::with_capacity(n_thresh);
                let mut k: usize = 0;
                while k < n_thresh
                    invariant
                        k <= n_thresh,
                        n_thresh == self.thresholds@.len(),
                        self.wf(),
                        g < groups@.len(),
                        v < groups@[g as int]@.len(),
                        support@ == groups@[g as int]@[v as int]@,
                        support_ok(support@),
                        conds@.len() == n_thresh,
                        forall|q: int|
                            0 <= q < n_thresh ==> cond_set_ok(
                                (#[trigger] conds@[q])@,
                                indicator_spec(self.conditioning_data@, self.thresholds@[q]),
                            ),
                        cpdf.p@.len() == k,
                        cpdf.x@ == self.thresholds@.subrange(0, k as int),
                        forall|k2: int|
                            0 <= k2 < k ==> #[trigger] slot_estimated(
                                *self,
                                groups@,
                                cpdf.p@[k2],
                                g as int,
                                v as int,
                                k2,
                            ),
                    decreases n_thresh - k,
                {
                    let vm: IsoSpherical = self.variogram_models[k];
                    let outcome: Result<(i64, i64), KrigingError> = krige_support(
                        &conds[k],
                        support,
                        &self.search_ellipsoid,
                        &vm,
                        self.parameters.max_cond_data,
                        self.parameters.min_conditioned_octants,
                    );
                    match outcome {
                        Ok(ev) => {
                            proof {
                                lemma_ok_outcome_widen(
                                    self.search_ellipsoid,
                                    vm,
                                    conds@[k as int]@,
                                    indicator_spec(
                                        self.conditioning_data@,
                                        self.thresholds@[k as int],
                                    ),
                                    support@,
                                    ev.0,
                                    ev.1,
                                );
                                assert(ok_probability_outcome(
                                    self.search_ellipsoid,
                                    vm,
                                    indicator_spec(
                                        self.conditioning_data@,
                                        self.thresholds@[k as int],
                                    ),
                                    support@,
                                    ev.0,
                                ));
                            }
                            cpdf.p.push(ev.0);
                        },
                        Err(_) => {
                            cpdf.p.push(MISSING);
                        },
                    }
                    cpdf.x.push(self.thresholds[k]);
                    proof {
                        assert(cpdf.x@ =~= self.thresholds@.subrange(0, k as int + 1));
                    }
                    k = k + 1;
                }
                proof {
                    assert(cpdf.x@ =~= self.thresholds@);
                }
                // Correct only a distribution with every threshold
                // estimated: a missing marker is never destroyed.
                let mut has_m: bool = false;
                let mut t2: usize = 0;
                while t2 < cpdf.p.len()
                    invariant
                        t2 <= cpdf.p@.len(),
                        has_m ==> has_missing(cpdf.p@),
                        !has_m ==> forall|q: int| 0 <= q < t2 ==> #[trigger] cpdf.p@[q] != MISSING,
                    decreases cpdf.p@.len() - t2,
                {
                    if cpdf.p[t2] == MISSING {
                        has_m = true;
                    }
                    t2 = t2 + 1;
                }
                if self.parameters.correct_cpdfs && !has_m {
                    cpdf.correct();
                }
                let ghost pushed_p: Seq<i64> = cpdf.p@;
                let ghost pushed_x: Seq<i64> = cpdf.x@;
                let ghost prev_out: Seq<IKCPDF> = out@;
                let ghost slot: int = total_supports(groups@, g as int) + v as int;
                out.push(cpdf);
                proof {
                    assert(out@.len() == slot + 1);
                    assert(out@[slot].p@ == pushed_p && out@[slot].x@ == pushed_x);
                    if !self.parameters.correct_cpdfs {
                        assert forall|g2: int, v2: int, k2: int|
                            0 <= g2 < groups@.len() && 0 <= v2 < groups@[g2]@.len()
                                && 0 <= k2 < n_thresh && 0 <= total_supports(groups@, g2) + v2
                                < out@.len() implies #[trigger] slot_estimated(
                            *self,
                            groups@,
                            out@[total_supports(groups@, g2) + v2].p@[k2],
                            g2,
                            v2,
                            k2,
                        ) by {
                            lemma_total_supports_sub(groups@, 0, g2);
                            let s2 = total_supports(groups@, g2) + v2;
                            if s2 < slot {
                                assert(out@[s2] == prev_out[s2]);
                            } else {
                                // The slot decomposition is unique: the
                                // running totals are strictly ordered.
                                if g2 < g as int {
                                    lemma_total_supports_sub(groups@, g2 + 1, g as int);
                                    assert(total_supports(groups@, g2 + 1) == total_supports(
                                        groups@,
                                        g2,
                                    ) + groups@[g2]@.len());
                                }
                                if g2 > g as int {
                                    lemma_total_supports_sub(groups@, g as int + 1, g2);
                                    assert(total_supports(groups@, g as int + 1)
                                        == total_supports(groups@, g as int)
                                        + groups@[g as int]@.len());
                                }
                                assert(g2 == g as int && v2 == v as int);
                                assert(out@[s2].p@ == pushed_p);
                            }
                        }
                    }
                }
                v = v + 1;
            }
            g = g + 1;
        }
        proof {
            if !self.parameters.correct_cpdfs {
                assert forall|g2: int, v2: int, k2: int|
                    0 <= g2 < groups@.len() && 0 <= v2 < groups@[g2]@.len() && 0 <= k2
                        < self.thresholds@.len() implies #[trigger] slot_estimated(
                    *self,
                    groups@,
                    out@[total_supports(groups@, g2) + v2].p@[k2],
                    g2,
                    v2,
                    k2,
                ) by {
                    lemma_total_supports_sub(groups@, 0, g2);
                    lemma_total_supports_bound(groups@, g2);
                }
            }
        }
        out
    }
}

/// The running target count grows with each group.
proof fn lemma_total_supports_bound(groups: Seq<Vec<Vec<Point>>>, g: int)
    requires
        0 <= g < groups.len(),
    ensures
        total_supports(groups, g) + groups[g]@.len() <= total_supports(
            groups,
            groups.len() as int,
        ),
    decreases groups.len() - g,
{
    if g + 1 < groups.len() {
        lemma_total_supports_sub(groups, g + 1, groups.len() as int);
    }
}

proof fn lemma_total_supports_sub(groups: Seq<Vec<Vec<Point>>>, g: int, h: int)
    requires
        0 <= g <= h <= groups.len(),
    ensures
        total_supports(groups, g) <= total_supports(groups, h),
    decreases h - g,
{
    if g < h {
        lemma_total_supports_sub(groups, g, h - 1);
    }
}

} // verus!
