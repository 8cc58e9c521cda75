//! Kriging system assembly and solution.
//!
//! The covariance matrix pairs conditioning points against each other; the
//! right-hand side block-averages covariances over the discretized target
//! support.  Ordinary kriging augments the system with a Lagrange row and
//! column that force the weights to sum to one.  The solver runs Gaussian
//! elimination in guarded fixed-point arithmetic and reports a singular
//! system instead of inventing weights.

use vstd::arithmetic::div_mod::lemma_div_pos_is_pos;
use vstd::arithmetic::div_mod::lemma_multiply_divide_le;
use vstd::prelude::*;

use crate::conditioning::{samples_ok, KrigingError, Sample};
use crate::fixed::{div_trunc, isqrt, isqrt_spec, lemma_trunc_div_bound};
use crate::geometry::{norm_dist_sq, norm_dist_sq_spec, point_ok, Ellipsoid, Point};
use crate::variography::{variogram_spec, IsoSpherical};
use crate::SCALE;

verus! {

/// Bounds under which the engine's fixed-point assembly is exact: the
/// variogram range and sill, and every matrix entry, stay well inside
/// machine integers.
pub open spec fn model_ok(vg: IsoSpherical) -> bool {
    vg.wf() && vg.range <= 1_000_000_000_000_000_000 && vg.sill <= 1_000_000_000_000
}

/// The covariance implied by a squared normalized separation: sill minus
/// the variogram of the separation, zero at and beyond the range.
pub open spec fn cov_spec(vg: IsoSpherical, d2: int) -> int {
    if d2 >= vg.range * vg.range {
        0
    } else {
        vg.sill - variogram_spec(vg.range as int, vg.sill as int, isqrt_spec(d2))
    }
}

/// The covariance between two locations under the ellipsoid anisotropy.
pub open spec fn pair_cov_spec(e: Ellipsoid, vg: IsoSpherical, p: Point, q: Point) -> int {
    cov_spec(vg, norm_dist_sq_spec(e, p, q))
}

/// Covariance from a squared normalized separation.
pub fn cov_from_sq(vg: &IsoSpherical, d2: i128) -> (r: i64)
    requires
        model_ok(*vg),
        0 <= d2,
    ensures
        r as int == cov_spec(*vg, d2 as int),
        0 <= r <= vg.sill,
        d2 == 0 ==> r == vg.sill,
{
    proof {
        assert((vg.range as int) * (vg.range as int) <= 1_000_000_000_000_000_000_000_000_000_000_000_000
            && (vg.range as int) * (vg.range as int) >= 1) by (nonlinear_arith)
            requires
                1 <= vg.range <= 1_000_000_000_000_000_000,
        ;
    }
    let r2: i128 = vg.range as i128 * vg.range as i128;
    if d2 >= r2 {
        return 0;
    }
    let h: i64 = isqrt(d2);
    proof {
        if h >= vg.range {
            assert((vg.range as int) * (vg.range as int) <= (h as int) * (h as int))
                by (nonlinear_arith)
                requires
                    0 < vg.range <= h,
            ;
        }
    }
    vg.covariogram(h)
}

/// The covariance between two locations under the ellipsoid anisotropy.
pub fn pair_cov(e: &Ellipsoid, vg: &IsoSpherical, p: Point, q: Point) -> (r: i64)
    requires
        e.wf(),
        model_ok(*vg),
        point_ok(p),
        point_ok(q),
    ensures
        r as int == pair_cov_spec(*e, *vg, p, q),
        0 <= r <= vg.sill,
{
    let d2: i128 = norm_dist_sq(e, p, q);
    cov_from_sq(vg, d2)
}

/// Sum of covariances between `p` and the first `k` support points.
pub open spec fn sum_cov_upto(
    e: Ellipsoid,
    vg: IsoSpherical,
    p: Point,
    ts: Seq<Point>,
    k: int,
) -> int
    decreases k,
{
    if k <= 0 {
        0
    } else {
        sum_cov_upto(e, vg, p, ts, k - 1) + pair_cov_spec(e, vg, p, ts[k - 1])
    }
}

/// The block-averaged covariance between `p` and a discretized support:
/// the mean of the point-to-point covariances, floored.
pub open spec fn avg_cov_spec(e: Ellipsoid, vg: IsoSpherical, p: Point, ts: Seq<Point>) -> int {
    sum_cov_upto(e, vg, p, ts, ts.len() as int) / (ts.len() as int)
}

/// All points of a support lie within the working volume.
pub open spec fn support_ok(ts: Seq<Point>) -> bool {
    ts.len() >= 1 && forall|i: int| 0 <= i < ts.len() ==> point_ok(#[trigger] ts[i])
}

/// Block-averaged covariance between a conditioning point and the target
/// support.
pub fn avg_cov(e: &Ellipsoid, vg: &IsoSpherical, p: Point, ts: &Vec<Point>) -> (r: i64)
    requires
        e.wf(),
        model_ok(*vg),
        point_ok(p),
        support_ok(ts@),
    ensures
        r as int == avg_cov_spec(*e, *vg, p, ts@),
        0 <= r <= vg.sill,
{
    let m: usize = ts.len();
    let mut sum: i128 = 0;
    let mut k: usize = 0;
    while k < m
        invariant
            k <= m,
            m == ts@.len(),
            e.wf(),
            model_ok(*vg),
            point_ok(p),
            support_ok(ts@),
            sum as int == sum_cov_upto(*e, *vg, p, ts@, k as int),
            0 <= sum <= (k as int) * (vg.sill as int),
        decreases m - k,
    {
        let c: i64 = pair_cov(e, vg, p, ts[k]);
        proof {
            assert((k as int + 1) * (vg.sill as int) == (k as int) * (vg.sill as int) + (
            vg.sill as int)) by (nonlinear_arith);
            assert((k as int) * (vg.sill as int) <= 1_000_000_000_000_000_000_000_000_000_000_000)
                by (nonlinear_arith)
                requires
                    0 <= k < 0x1_0000_0000_0000_0000,
                    0 <= vg.sill <= 1_000_000_000_000,
            ;
        }
        sum = sum + c as i128;
        k = k + 1;
    }
    let avg: i128 = sum / (m as i128);
    proof {
        lemma_div_pos_is_pos(sum as int, m as int);
        lemma_multiply_divide_le(sum as int, m as int, vg.sill as int);
        assert(sum as int <= (m as int) * (vg.sill as int));
    }
    avg as i64
}

/// Whether a sequence holds a sample equal to `x`.
pub open spec fn contains_sample(s: Seq<Sample>, x: Sample) -> bool {
    exists|k: int| 0 <= k < s.len() && s[k] == x
}

proof fn lemma_contains_push(s: Seq<Sample>, x: Sample, y: Sample)
    requires
        contains_sample(s, x),
    ensures
        contains_sample(s.push(y), x),
{
    let k = choose|k: int| 0 <= k < s.len() && s[k] == x;
    assert(s.push(y)[k] == x);
}

/// Remove exact duplicates: samples whose location and value both repeat an
/// earlier sample.  Every input sample is still represented in the result,
/// and the result holds no two identical samples, so an assembled system
/// never carries two identical conditioning rows from duplicated data.
#[verifier::rlimit(100)]
pub fn dedup_exact(samples: &Vec<Sample>) -> (r: Vec<Sample>)
    ensures
        forall|a: int, b: int| 0 <= a < b < r@.len() ==> #[trigger] r@[a] != #[trigger] r@[b],
        forall|k: int| 0 <= k < r@.len() ==> contains_sample(samples@, #[trigger] r@[k]),
        forall|j: int| 0 <= j < samples@.len() ==> contains_sample(r@, #[trigger] samples@[j]),
{
    let n: usize = samples.len();
    let mut out: Vec<Sample> = Vec::new();
    let mut i: usize = 0;
    while i < n
        invariant
            i <= n,
            n == samples@.len(),
            forall|a: int, b: int|
                0 <= a < b < out@.len() ==> #[trigger] out@[a] != #[trigger] out@[b],
            forall|k: int| 0 <= k < out@.len() ==> contains_sample(samples@, #[trigger] out@[k]),
            forall|j: int| 0 <= j < i ==> contains_sample(out@, #[trigger] samples@[j]),
        decreases n - i,
    {
        let sm: Sample = samples[i];
        let mut found: bool = false;
        let mut t: usize = 0;
        while t < out.len()
            invariant
                t <= out@.len(),
                found ==> contains_sample(out@, sm),
                !found ==> forall|k: int| 0 <= k < t ==> #[trigger] out@[k] != sm,
            decreases out@.len() - t,
        {
            if out[t].point.x == sm.point.x && out[t].point.y == sm.point.y && out[t].point.z
                == sm.point.z && out[t].value == sm.value {
                found = true;
                proof {
                    assert(out@[t as int] == sm);
                }
            }
            t = t + 1;
        }
        let ghost prev_out: Seq<Sample> = out@;
        if !found {
            out.push(sm);
            proof {
                let ln = out@.len() - 1;
                assert(out@ == prev_out.push(sm));
                assert(out@[ln] == sm);
                assert forall|a: int, b: int| 0 <= a < b < out@.len() implies #[trigger] out@[a]
                    != #[trigger] out@[b] by {
                    if b == ln {
                        assert(out@[a] == prev_out[a]);
                    } else {
                        assert(out@[a] == prev_out[a] && out@[b] == prev_out[b]);
                    }
                }
                assert forall|k: int| 0 <= k < out@.len() implies contains_sample(
                    samples@,
                    #[trigger] out@[k],
                ) by {
                    if k == ln {
                        assert(samples@[i as int] == out@[k]);
                    } else {
                        assert(out@[k] == prev_out[k]);
                    }
                }
                assert forall|j: int| 0 <= j < i + 1 implies contains_sample(
                    out@,
                    #[trigger] samples@[j],
                ) by {
                    if j == i as int {
                        assert(out@[ln] == samples@[j]);
                    } else {
                        lemma_contains_push(prev_out, samples@[j], sm);
                    }
                }
            }
        } else {
            proof {
                assert forall|j: int| 0 <= j < i + 1 implies contains_sample(
                    out@,
                    #[trigger] samples@[j],
                ) by {
                }
            }
        }
        i = i + 1;
    }
    out
}

/// The assembled ordinary-kriging system: covariances of the conditioning
/// points against each other, bordered by the Lagrange row and column that
/// encode the unit-sum constraint on the weights.
pub open spec fn ok_system_shape(
    e: Ellipsoid,
    vg: IsoSpherical,
    cond: Seq<Sample>,
    ts: Seq<Point>,
    c: Seq<Seq<i64>>,
    b: Seq<i64>,
) -> bool {
    let n = cond.len() as int;
    &&& c.len() == n + 1
    &&& forall|i: int| 0 <= i <= n ==> (#[trigger] c[i]).len() == n + 1
    &&& forall|i: int, j: int|
        0 <= i < n && 0 <= j < n ==> #[trigger] c[i][j] == pair_cov_spec(
            e,
            vg,
            cond[i].point,
            cond[j].point,
        )
    &&& forall|i: int| 0 <= i < n ==> #[trigger] c[i][n] == SCALE
    &&& forall|j: int| 0 <= j < n ==> #[trigger] c[n][j] == SCALE
    &&& c[n][n] == 0
    &&& b.len() == n + 1
    &&& forall|i: int| 0 <= i < n ==> #[trigger] b[i] == avg_cov_spec(e, vg, cond[i].point, ts)
    &&& b[n] == SCALE
}

/// Assemble the ordinary-kriging system for the given conditioning samples
/// and discretized target support.
pub fn build_ok_system(
    cond: &Vec<Sample>,
    ts: &Vec<Point>,
    e: &Ellipsoid,
    vg: &IsoSpherical,
) -> (r: (Vec<Vec<i64>>, Vec<i64>))
    requires
        e.wf(),
        model_ok(*vg),
        samples_ok(cond@),
        support_ok(ts@),
        cond@.len() >= 1,
    ensures
        ok_system_shape(*e, *vg, cond@, ts@, r.0@.map_values(|row: Vec<i64>| row@), r.1@),
        forall|i: int, j: int|
            0 <= i < r.0@.len() && 0 <= j < r.0@[i]@.len() ==> -1_000_000_000_000
                <= #[trigger] r.0@[i]@[j] <= 1_000_000_000_000,
        forall|i: int| 0 <= i < r.1@.len() ==> -1_000_000_000_000 <= #[trigger] r.1@[i]
            <= 1_000_000_000_000,
{
    let n: usize = cond.len();
    let mut c: Vec<Vec<i64>> = Vec::new();
    let mut i: usize = 0;
    proof {
        assert(SCALE == 1_000_000i64);
    }
    while i < n
        invariant
            i <= n,
            n == cond@.len(),
            e.wf(),
            model_ok(*vg),
            samples_ok(cond@),
            support_ok(ts@),
            c@.len() == i,
            forall|t: int| 0 <= t < i ==> (#[trigger] c@[t])@.len() == n + 1,
            forall|t: int, j: int|
                0 <= t < i && 0 <= j < n ==> #[trigger] c@[t]@[j] == pair_cov_spec(
                    *e,
                    *vg,
                    cond@[t].point,
                    cond@[j].point,
                ) && 0 <= c@[t]@[j] <= 1_000_000_000_000,
            forall|t: int| 0 <= t < i ==> (#[trigger] c@[t])@[n as int] == SCALE,
        decreases n - i,
    {
        let mut row: Vec<i64> = Vec::new();
        let mut j: usize = 0;
        while j < n
            invariant
                j <= n,
                n == cond@.len(),
                i < n,
                e.wf(),
                model_ok(*vg),
                samples_ok(cond@),
                row@.len() == j,
                forall|t: int|
                    0 <= t < j ==> #[trigger] row@[t] == pair_cov_spec(
                        *e,
                        *vg,
                        cond@[i as int].point,
                        cond@[t].point,
                    ) && 0 <= row@[t] <= 1_000_000_000_000,
            decreases n - j,
        {
            let v: i64 = pair_cov(e, vg, cond[i].point, cond[j].point);
            row.push(v);
            j = j + 1;
        }
        row.push(SCALE);
        c.push(row);
        i = i + 1;
    }
    let mut last: Vec<i64> = Vec::new();
    let mut j: usize = 0;
    while j < n
        invariant
            j <= n,
            last@.len() == j,
            forall|t: int| 0 <= t < j ==> #[trigger] last@[t] == SCALE,
        decreases n - j,
    {
        last.push(SCALE);
        j = j + 1;
    }
    last.push(0);
    c.push(last);

    let mut b: Vec<i64> = Vec::new();
    let mut i: usize = 0;
    while i < n
        invariant
            i <= n,
            n == cond@.len(),
            e.wf(),
            model_ok(*vg),
            samples_ok(cond@),
            support_ok(ts@),
            b@.len() == i,
            forall|t: int|
                0 <= t < i ==> #[trigger] b@[t] == avg_cov_spec(*e, *vg, cond@[t].point, ts@) && 0
                    <= b@[t] <= 1_000_000_000_000,
        decreases n - i,
    {
        let v: i64 = avg_cov(e, vg, cond[i].point, ts);
        b.push(v);
        i = i + 1;
    }
    b.push(SCALE);
    proof {
        let cm = c@.map_values(|row: Vec<i64>| row@);
        assert(cm.len() == n + 1);
        assert forall|t: int| 0 <= t <= n implies (#[trigger] cm[t]).len() == n + 1 by {
            assert(cm[t] == c@[t]@);
        }
        assert forall|t: int, j: int| 0 <= t < n && 0 <= j < n implies #[trigger] cm[t][j]
            == pair_cov_spec(*e, *vg, cond@[t].point, cond@[j].point) by {
            assert(cm[t] == c@[t]@);
        }
        assert forall|t: int| 0 <= t < n implies #[trigger] cm[t][n as int] == SCALE by {
            assert(cm[t] == c@[t]@);
        }
        assert forall|j: int| 0 <= j < n implies #[trigger] cm[n as int][j] == SCALE by {
            assert(cm[n as int] == c@[n as int]@);
        }
        assert(cm[n as int][n as int] == 0);
        assert forall|t: int, j: int| 0 <= t < c@.len() && 0 <= j < c@[t]@.len() implies
            -1_000_000_000_000 <= #[trigger] c@[t]@[j] <= 1_000_000_000_000 by {
            assert(cm[t] == c@[t]@);
        }
    }
    (c, b)
}

/// The assembled simple-kriging system: covariances of the conditioning
/// points against each other, with no Lagrange augmentation; the known
/// global mean is handled outside the solve.
pub open spec fn sk_system_shape(
    e: Ellipsoid,
    vg: IsoSpherical,
    cond: Seq<Sample>,
    ts: Seq<Point>,
    c: Seq<Seq<i64>>,
    b: Seq<i64>,
) -> bool {
    let n = cond.len() as int;
    &&& c.len() == n
    &&& forall|i: int| 0 <= i < n ==> (#[trigger] c[i]).len() == n
    &&& forall|i: int, j: int|
        0 <= i < n && 0 <= j < n ==> #[trigger] c[i][j] == pair_cov_spec(
            e,
            vg,
            cond[i].point,
            cond[j].point,
        )
    &&& b.len() == n
    &&& forall|i: int| 0 <= i < n ==> #[trigger] b[i] == avg_cov_spec(e, vg, cond[i].point, ts)
}

/// Assemble the simple-kriging system for the given conditioning samples
/// and discretized target support.
pub fn build_sk_system(
    cond: &Vec<Sample>,
    ts: &Vec<Point>,
    e: &Ellipsoid,
    vg: &IsoSpherical,
) -> (r: (Vec<Vec<i64>>, Vec<i64>))
    requires
        e.wf(),
        model_ok(*vg),
        samples_ok(cond@),
        support_ok(ts@),
        cond@.len() >= 1,
    ensures
        sk_system_shape(*e, *vg, cond@, ts@, r.0@.map_values(|row: Vec<i64>| row@), r.1@),
        forall|i: int, j: int|
            0 <= i < r.0@.len() && 0 <= j < r.0@[i]@.len() ==> -1_000_000_000_000
                <= #[trigger] r.0@[i]@[j] <= 1_000_000_000_000,
        forall|i: int| 0 <= i < r.1@.len() ==> -1_000_000_000_000 <= #[trigger] r.1@[i]
            <= 1_000_000_000_000,
{
    let n: usize = cond.len();
    let mut c: Vec<Vec<i64>> = Vec::new();
    let mut i: usize = 0;
    while i < n
        invariant
            i <= n,
            n == cond@.len(),
            e.wf(),
            model_ok(*vg),
            samples_ok(cond@),
            support_ok(ts@),
            c@.len() == i,
            forall|t: int| 0 <= t < i ==> (#[trigger] c@[t])@.len() == n,
            forall|t: int, j: int|
                0 <= t < i && 0 <= j < n ==> #[trigger] c@[t]@[j] == pair_cov_spec(
                    *e,
                    *vg,
                    cond@[t].point,
                    cond@[j].point,
                ) && 0 <= c@[t]@[j] <= 1_000_000_000_000,
        decreases n - i,
    {
        let mut row: Vec<i64> = Vec::new();
        let mut j: usize = 0;
        while j < n
            invariant
                j <= n,
                n == cond@.len(),
                i < n,
                e.wf(),
                model_ok(*vg),
                samples_ok(cond@),
                row@.len() == j,
                forall|t: int|
                    0 <= t < j ==> #[trigger] row@[t] == pair_cov_spec(
                        *e,
                        *vg,
                        cond@[i as int].point,
                        cond@[t].point,
                    ) && 0 <= row@[t] <= 1_000_000_000_000,
            decreases n - j,
        {
            let v: i64 = pair_cov(e, vg, cond[i].point, cond[j].point);
            row.push(v);
            j = j + 1;
        }
        c.push(row);
        i = i + 1;
    }
    let mut b: Vec<i64> = Vec::new();
    let mut i: usize = 0;
    while i < n
        invariant
            i <= n,
            n == cond@.len(),
            e.wf(),
            model_ok(*vg),
            samples_ok(cond@),
            support_ok(ts@),
            b@.len() == i,
            forall|t: int|
                0 <= t < i ==> #[trigger] b@[t] == avg_cov_spec(*e, *vg, cond@[t].point, ts@) && 0
                    <= b@[t] <= 1_000_000_000_000,
        decreases n - i,
    {
        let v: i64 = avg_cov(e, vg, cond[i].point, ts);
        b.push(v);
        i = i + 1;
    }
    proof {
        let cm = c@.map_values(|row: Vec<i64>| row@);
        assert forall|t: int| 0 <= t < n implies (#[trigger] cm[t]).len() == n by {
            assert(cm[t] == c@[t]@);
        }
        assert forall|t: int, j: int| 0 <= t < n && 0 <= j < n implies #[trigger] cm[t][j]
            == pair_cov_spec(*e, *vg, cond@[t].point, cond@[j].point) by {
            assert(cm[t] == c@[t]@);
        }
        assert forall|t: int, j: int| 0 <= t < c@.len() && 0 <= j < c@[t]@.len() implies
            -1_000_000_000_000 <= #[trigger] c@[t]@[j] <= 1_000_000_000_000 by {
            assert(cm[t] == c@[t]@);
        }
    }
    (c, b)
}

/// Magnitude guard on every working value of the solver: beyond it the
/// fixed-point precision is spent and the solve is abandoned as singular.
pub const SOLVE_LIMIT: i64 = 1_000_000_000_000_000;

/// Acceptance tolerance on the solver's per-row residual, in fixed-point
/// value units: one thousandth.
pub const SOLVE_RESIDUAL_TOL: i64 = 1_000;

/// The weight vector approximately solves the system: in every row, the
/// fixed-point dot product of the weights with the row is within
/// [`SOLVE_RESIDUAL_TOL`] of the right-hand side.
pub open spec fn residual_ok(c: Seq<Seq<i64>>, b: Seq<i64>, w: Seq<i64>) -> bool {
    forall|i: int|
        0 <= i < c.len() ==> -SOLVE_RESIDUAL_TOL <= dot_scaled(w, #[trigger] c[i], c.len() as int)
            - b[i] <= SOLVE_RESIDUAL_TOL
}

/// Gaussian elimination on the assembled system, in guarded fixed-point
/// arithmetic.  A zero pivot column, or any intermediate value outside the
/// supported precision, makes the system unsolvable to tolerance: the
/// per-target answer is then a singular-system failure, never an invented
/// weight vector.
#[verifier::rlimit(100)]
pub fn solve(c: &Vec<Vec<i64>>, b: &Vec<i64>) -> (r: Result<Vec<i64>, KrigingError>)
    requires
        c@.len() == b@.len(),
        forall|i: int| 0 <= i < c@.len() ==> (#[trigger] c@[i])@.len() == c@.len(),
        forall|i: int, j: int|
            0 <= i < c@.len() && 0 <= j < c@.len() ==> -1_000_000_000_000 <= #[trigger] c@[i]@[j]
                <= 1_000_000_000_000,
        forall|i: int| 0 <= i < b@.len() ==> -1_000_000_000_000 <= #[trigger] b@[i]
            <= 1_000_000_000_000,
    ensures
        r matches Ok(w) ==> w@.len() == c@.len() && forall|i: int|
            0 <= i < w@.len() ==> -SOLVE_LIMIT <= #[trigger] w@[i] <= SOLVE_LIMIT,
        r matches Ok(w) ==> residual_ok(c@.map_values(|row: Vec<i64>| row@), b@, w@),
        r matches Err(er) ==> er == KrigingError::SingularSystem,
        c@.len() == 0 ==> r is Ok,
{
    let n: usize = c.len();
    let mut a: Vec<Vec<i128>> = Vec::new();
    let mut i: usize = 0;
    while i < n
        invariant
            i <= n,
            n == c@.len(),
            forall|t: int| 0 <= t < n ==> (#[trigger] c@[t])@.len() == n,
            forall|t: int, j: int|
                0 <= t < n && 0 <= j < n ==> -1_000_000_000_000 <= #[trigger] c@[t]@[j]
                    <= 1_000_000_000_000,
            a@.len() == i,
            forall|t: int| 0 <= t < i ==> (#[trigger] a@[t])@.len() == n,
            forall|t: int, j: int|
                0 <= t < i && 0 <= j < n ==> -1_000_000_000_000_000 <= #[trigger] a@[t]@[j]
                    <= 1_000_000_000_000_000,
        decreases n - i,
    {
        let mut row: Vec<i128> = Vec::new();
        let mut j: usize = 0;
        while j < n
            invariant
                j <= n,
                i < n,
                n == c@.len(),
                forall|t: int| 0 <= t < n ==> (#[trigger] c@[t])@.len() == n,
                forall|t: int, jj: int|
                    0 <= t < n && 0 <= jj < n ==> -1_000_000_000_000 <= #[trigger] c@[t]@[jj]
                        <= 1_000_000_000_000,
                row@.len() == j,
                forall|jj: int| 0 <= jj < j ==> -1_000_000_000_000_000 <= #[trigger] row@[jj]
                    <= 1_000_000_000_000_000,
            decreases n - j,
        {
            row.push(c[i][j] as i128);
            j = j + 1;
        }
        a.push(row);
        i = i + 1;
    }
    let mut y: Vec<i128> = Vec::new();
    let mut i: usize = 0;
    while i < n
        invariant
            i <= n,
            n == b@.len(),
            forall|t: int| 0 <= t < n ==> -1_000_000_000_000 <= #[trigger] b@[t]
                <= 1_000_000_000_000,
            y@.len() == i,
            forall|t: int| 0 <= t < i ==> -1_000_000_000_000_000 <= #[trigger] y@[t]
                <= 1_000_000_000_000_000,
        decreases n - i,
    {
        y.push(b[i] as i128);
        i = i + 1;
    }

    // Forward elimination with a positive pivot in every column.
    let mut k: usize = 0;
    while k < n
        invariant
            k <= n,
            n == c@.len(),
            a@.len() == n,
            y@.len() == n,
            forall|t: int| 0 <= t < n ==> (#[trigger] a@[t])@.len() == n,
            forall|t: int, j: int|
                0 <= t < n && 0 <= j < n ==> -1_000_000_000_000_000 <= #[trigger] a@[t]@[j]
                    <= 1_000_000_000_000_000,
            forall|t: int| 0 <= t < n ==> -1_000_000_000_000_000 <= #[trigger] y@[t]
                <= 1_000_000_000_000_000,
            forall|t: int| 0 <= t < k ==> 1 <= #[trigger] a@[t]@[t],
        decreases n - k,
    {
        if a[k][k] == 0 {
            // Bring a nonzero entry into the pivot by adding a later row.
            let mut prow: usize = k + 1;
            let mut found: bool = false;
            while prow < n && !found
                invariant
                    k < prow <= n,
                    k < n,
                    a@.len() == n,
                    forall|t: int| 0 <= t < n ==> (#[trigger] a@[t])@.len() == n,
                    found ==> prow < n && a@[prow as int]@[k as int] != 0,
                decreases n - prow, (if found { 0int } else { 1int }),
            {
                if a[prow][k] != 0 {
                    found = true;
                } else {
                    prow = prow + 1;
                }
            }
            if !found {
                return Err(KrigingError::SingularSystem);
            }
            let mut j: usize = 0;
            while j < n
                invariant
                    j <= n,
                    k < n,
                    prow < n,
                    prow != k,
                    n == c@.len(),
                    a@.len() == n,
                    y@.len() == n,
                    forall|t: int| 0 <= t < n ==> (#[trigger] a@[t])@.len() == n,
                    forall|t: int, jj: int|
                        0 <= t < n && 0 <= jj < n ==> -1_000_000_000_000_000 <= #[trigger] a@[t]@[jj]
                            <= 1_000_000_000_000_000,
                    forall|t: int| 0 <= t < n ==> -1_000_000_000_000_000 <= #[trigger] y@[t]
                        <= 1_000_000_000_000_000,
                    forall|t: int| 0 <= t < k ==> 1 <= #[trigger] a@[t]@[t],
                decreases n - j,
            {
                let v: i128 = a[k][j] + a[prow][j];
                if v > SOLVE_LIMIT as i128 || v < -(SOLVE_LIMIT as i128) {
                    return Err(KrigingError::SingularSystem);
                }
                a[k][j] = v;
                j = j + 1;
            }
            let vy: i128 = y[k] + y[prow];
            if vy > SOLVE_LIMIT as i128 || vy < -(SOLVE_LIMIT as i128) {
                return Err(KrigingError::SingularSystem);
            }
            y[k] = vy;
            if a[k][k] == 0 {
                return Err(KrigingError::SingularSystem);
            }
        }
        if a[k][k] < 0 {
            // Make the pivot positive by negating the row.
            let mut j: usize = 0;
            while j < n
                invariant
                    j <= n,
                    k < n,
                    a@.len() == n,
                    y@.len() == n,
                    forall|t: int| 0 <= t < n ==> (#[trigger] a@[t])@.len() == n,
                    forall|t: int, jj: int|
                        0 <= t < n && 0 <= jj < n ==> -1_000_000_000_000_000 <= #[trigger] a@[t]@[jj]
                            <= 1_000_000_000_000_000,
                    forall|t: int| 0 <= t < n ==> -1_000_000_000_000_000 <= #[trigger] y@[t]
                        <= 1_000_000_000_000_000,
                    forall|t: int| 0 <= t < k ==> 1 <= #[trigger] a@[t]@[t],
                decreases n - j,
            {
                let v: i128 = -a[k][j];
                a[k][j] = v;
                j = j + 1;
            }
            let vy: i128 = -y[k];
            y[k] = vy;
        }
        let piv: i128 = a[k][k];
        if piv < 1 {
            return Err(KrigingError::SingularSystem);
        }
        let mut r2: usize = k + 1;
        while r2 < n
            invariant
                k < r2 <= n,
                k < n,
                n == c@.len(),
                a@.len() == n,
                y@.len() == n,
                piv == a@[k as int]@[k as int],
                1 <= piv <= 1_000_000_000_000_000,
                forall|t: int| 0 <= t < n ==> (#[trigger] a@[t])@.len() == n,
                forall|t: int, jj: int|
                    0 <= t < n && 0 <= jj < n ==> -1_000_000_000_000_000 <= #[trigger] a@[t]@[jj]
                        <= 1_000_000_000_000_000,
                forall|t: int| 0 <= t < n ==> -1_000_000_000_000_000 <= #[trigger] y@[t]
                    <= 1_000_000_000_000_000,
                forall|t: int| 0 <= t < k ==> 1 <= #[trigger] a@[t]@[t],
            decreases n - r2,
        {
            let ark: i128 = a[r2][k];
            let num: i128 = ark * 1_000_000;
            proof {
                assert(1_000_000_000_000_000_000_000 * (piv as int)
                    >= 1_000_000_000_000_000_000_000) by (nonlinear_arith)
                    requires
                        piv >= 1,
                ;
                lemma_trunc_div_bound(num as int, piv as int, 1_000_000_000_000_000_000_000);
            }
            let factor: i128 = num / piv;
            if factor > 10_000_000_000_000 || factor < -10_000_000_000_000 {
                return Err(KrigingError::SingularSystem);
            }
            let mut j: usize = 0;
            while j < n
                invariant
                    j <= n,
                    k < n,
                    k < r2 < n,
                    n == c@.len(),
                    a@.len() == n,
                    y@.len() == n,
                    -10_000_000_000_000 <= factor <= 10_000_000_000_000,
                    piv == a@[k as int]@[k as int],
                    1 <= piv,
                    forall|t: int| 0 <= t < n ==> (#[trigger] a@[t])@.len() == n,
                    forall|t: int, jj: int|
                        0 <= t < n && 0 <= jj < n ==> -1_000_000_000_000_000 <= #[trigger] a@[t]@[jj]
                            <= 1_000_000_000_000_000,
                    forall|t: int| 0 <= t < n ==> -1_000_000_000_000_000 <= #[trigger] y@[t]
                        <= 1_000_000_000_000_000,
                    forall|t: int| 0 <= t < k ==> 1 <= #[trigger] a@[t]@[t],
                decreases n - j,
            {
                proof {
                    assert(-10_000_000_000_000_000_000_000_000_000 <= (factor as int) * (
                    a@[k as int]@[j as int] as int) <= 10_000_000_000_000_000_000_000_000_000)
                        by (nonlinear_arith)
                        requires
                            -10_000_000_000_000 <= factor <= 10_000_000_000_000,
                            -1_000_000_000_000_000 <= a@[k as int]@[j as int]
                                <= 1_000_000_000_000_000,
                    ;
                }
                let t: i128 = factor * a[k][j];
                proof {
                    lemma_trunc_div_bound(t as int, 1_000_000, 10_000_000_000_000_000_000_000);
                }
                let upd: i128 = a[r2][j] - t / 1_000_000;
                if upd > SOLVE_LIMIT as i128 || upd < -(SOLVE_LIMIT as i128) {
                    return Err(KrigingError::SingularSystem);
                }
                a[r2][j] = upd;
                proof {
                    assert(a@[k as int]@[k as int] == piv);
                }
                j = j + 1;
            }
            proof {
                assert(-10_000_000_000_000_000_000_000_000_000 <= (factor as int) * (
                y@[k as int] as int) <= 10_000_000_000_000_000_000_000_000_000) by (nonlinear_arith)
                    requires
                        -10_000_000_000_000 <= factor <= 10_000_000_000_000,
                        -1_000_000_000_000_000 <= y@[k as int] <= 1_000_000_000_000_000,
                ;
            }
            let t: i128 = factor * y[k];
            proof {
                lemma_trunc_div_bound(t as int, 1_000_000, 10_000_000_000_000_000_000_000);
            }
            let updy: i128 = y[r2] - t / 1_000_000;
            if updy > SOLVE_LIMIT as i128 || updy < -(SOLVE_LIMIT as i128) {
                return Err(KrigingError::SingularSystem);
            }
            y[r2] = updy;
            r2 = r2 + 1;
        }
        k = k + 1;
    }

    // Back substitution, from the last pivot upward.
    let mut xrev: Vec<i128> = Vec::new();
    let mut kk: usize = 0;
    while kk < n
        invariant
            kk <= n,
            n == c@.len(),
            a@.len() == n,
            y@.len() == n,
            forall|t: int| 0 <= t < n ==> (#[trigger] a@[t])@.len() == n,
            forall|t: int, jj: int|
                0 <= t < n && 0 <= jj < n ==> -1_000_000_000_000_000 <= #[trigger] a@[t]@[jj]
                    <= 1_000_000_000_000_000,
            forall|t: int| 0 <= t < n ==> -1_000_000_000_000_000 <= #[trigger] y@[t]
                <= 1_000_000_000_000_000,
            forall|t: int| 0 <= t < n ==> 1 <= #[trigger] a@[t]@[t],
            xrev@.len() == kk,
            forall|t: int| 0 <= t < kk ==> -1_000_000_000_000_000 <= #[trigger] xrev@[t]
                <= 1_000_000_000_000_000,
        decreases n - kk,
    {
        let k: usize = n - 1 - kk;
        let mut sum: i128 = 0;
        let mut j: usize = k + 1;
        while j < n
            invariant
                k + 1 <= j <= n,
                k == n - 1 - kk,
                kk < n,
                n == c@.len(),
                a@.len() == n,
                forall|t: int| 0 <= t < n ==> (#[trigger] a@[t])@.len() == n,
                forall|t: int, jj: int|
                    0 <= t < n && 0 <= jj < n ==> -1_000_000_000_000_000 <= #[trigger] a@[t]@[jj]
                        <= 1_000_000_000_000_000,
                xrev@.len() == kk,
                forall|t: int| 0 <= t < kk ==> -1_000_000_000_000_000 <= #[trigger] xrev@[t]
                    <= 1_000_000_000_000_000,
                -100_000_000_000_000_000_000_000_000 <= sum <= 100_000_000_000_000_000_000_000_000,
            decreases n - j,
        {
            let xj: i128 = xrev[n - 1 - j];
            proof {
                assert(-1_000_000_000_000_000_000_000_000_000_000 <= (a@[k as int]@[j as int] as int)
                    * (xj as int) <= 1_000_000_000_000_000_000_000_000_000_000)
                    by (nonlinear_arith)
                    requires
                        -1_000_000_000_000_000 <= a@[k as int]@[j as int] <= 1_000_000_000_000_000,
                        -1_000_000_000_000_000 <= xj <= 1_000_000_000_000_000,
                ;
            }
            let t: i128 = a[k][j] * xj;
            proof {
                lemma_trunc_div_bound(
                    t as int,
                    1_000_000,
                    1_000_000_000_000_000_000_000_000,
                );
            }
            let term: i128 = t / 1_000_000;
            let ns: i128 = sum + term;
            if ns > 100_000_000_000_000_000_000_000_000 || ns
                < -100_000_000_000_000_000_000_000_000 {
                return Err(KrigingError::SingularSystem);
            }
            sum = ns;
            j = j + 1;
        }
        let num: i128 = y[k] - sum;
        let scaled: i128 = num * 1_000_000;
        let piv: i128 = a[k][k];
        proof {
            assert(200_000_000_000_000_000_000_000_000_000_000 * (piv as int)
                >= 200_000_000_000_000_000_000_000_000_000_000) by (nonlinear_arith)
                requires
                    piv >= 1,
            ;
            lemma_trunc_div_bound(
                scaled as int,
                piv as int,
                200_000_000_000_000_000_000_000_000_000_000,
            );
        }
        let xk: i128 = scaled / piv;
        if xk > SOLVE_LIMIT as i128 || xk < -(SOLVE_LIMIT as i128) {
            return Err(KrigingError::SingularSystem);
        }
        xrev.push(xk);
        kk = kk + 1;
    }
    let mut w: Vec<i64> = Vec::new();
    let mut t: usize = 0;
    while t < n
        invariant
            t <= n,
            n == c@.len(),
            xrev@.len() == n,
            forall|q: int| 0 <= q < n ==> -1_000_000_000_000_000 <= #[trigger] xrev@[q]
                <= 1_000_000_000_000_000,
            w@.len() == t,
            forall|q: int| 0 <= q < t ==> -SOLVE_LIMIT <= #[trigger] w@[q] <= SOLVE_LIMIT,
        decreases n - t,
    {
        w.push(xrev[n - 1 - t] as i64);
        t = t + 1;
    }
    // Accept the weights only if they actually satisfy the original
    // system to tolerance, row by row.
    let mut i: usize = 0;
    while i < n
        invariant
            i <= n,
            n == c@.len(),
            b@.len() == n,
            w@.len() == n,
            forall|t: int| 0 <= t < n ==> (#[trigger] c@[t])@.len() == n,
            forall|t: int, j: int|
                0 <= t < n && 0 <= j < n ==> -1_000_000_000_000 <= #[trigger] c@[t]@[j]
                    <= 1_000_000_000_000,
            forall|t: int| 0 <= t < n ==> -1_000_000_000_000 <= #[trigger] b@[t]
                <= 1_000_000_000_000,
            forall|q: int| 0 <= q < n ==> -SOLVE_LIMIT <= #[trigger] w@[q] <= SOLVE_LIMIT,
            forall|t: int|
                0 <= t < i ==> -SOLVE_RESIDUAL_TOL <= dot_scaled(w@, (#[trigger] c@[t])@, n as int)
                    - b@[t] <= SOLVE_RESIDUAL_TOL,
        decreases n - i,
    {
        let d: i64 = match dot_scaled_exec(&w, &c[i], n) {
            Ok(d) => d,
            Err(_) => {
                return Err(KrigingError::SingularSystem);
            },
        };
        let resid: i64 = d - b[i];
        if resid > SOLVE_RESIDUAL_TOL || resid < -SOLVE_RESIDUAL_TOL {
            return Err(KrigingError::SingularSystem);
        }
        i = i + 1;
    }
    proof {
        let cm = c@.map_values(|row: Vec<i64>| row@);
        assert forall|t: int| 0 <= t < cm.len() implies -SOLVE_RESIDUAL_TOL <= dot_scaled(
            w@,
            #[trigger] cm[t],
            cm.len() as int,
        ) - b@[t] <= SOLVE_RESIDUAL_TOL by {
            assert(cm[t] == c@[t]@);
        }
    }
    Ok(w)
}

/// Fixed-point dot product of the first `k` entries: the sum of
/// `w[t] * v[t]`, each product scaled back down by the fixed-point unit.
pub open spec fn dot_scaled(w: Seq<i64>, v: Seq<i64>, k: int) -> int
    decreases k,
{
    if k <= 0 {
        0
    } else {
        dot_scaled(w, v, k - 1) + div_trunc(w[k - 1] * v[k - 1], SCALE as int)
    }
}

/// Fixed-point dot product of the first `k` entries of two vectors,
/// abandoned as singular when it leaves the supported precision.
pub fn dot_scaled_exec(w: &Vec<i64>, v: &Vec<i64>, k: usize) -> (r: Result<
    i64,
    KrigingError,
>)
    requires
        k <= w@.len(),
        k <= v@.len(),
        forall|t: int| 0 <= t < k ==> -SOLVE_LIMIT <= #[trigger] w@[t] <= SOLVE_LIMIT,
        forall|t: int| 0 <= t < k ==> -2_000_000_000_000 <= #[trigger] v@[t] <= 2_000_000_000_000,
    ensures
        r matches Ok(d) ==> d as int == dot_scaled(w@, v@, k as int) && -1_000_000_000_000_000_000
            <= d <= 1_000_000_000_000_000_000,
        r matches Err(er) ==> er == KrigingError::SingularSystem,
{
    proof {
        assert(SCALE == 1_000_000i64);
    }
    let mut sum: i128 = 0;
    let mut t: usize = 0;
    while t < k
        invariant
            t <= k,
            k <= w@.len(),
            k <= v@.len(),
            forall|q: int| 0 <= q < k ==> -SOLVE_LIMIT <= #[trigger] w@[q] <= SOLVE_LIMIT,
            forall|q: int| 0 <= q < k ==> -2_000_000_000_000 <= #[trigger] v@[q]
                <= 2_000_000_000_000,
            sum as int == dot_scaled(w@, v@, t as int),
            -1_000_000_000_000_000_000 <= sum <= 1_000_000_000_000_000_000,
            SCALE == 1_000_000i64,
        decreases k - t,
    {
        proof {
            assert(-2_000_000_000_000_000_000_000_000_000 <= (w@[t as int] as int) * (
            v@[t as int] as int) <= 2_000_000_000_000_000_000_000_000_000) by (nonlinear_arith)
                requires
                    -1_000_000_000_000_000 <= w@[t as int] <= 1_000_000_000_000_000,
                    -2_000_000_000_000 <= v@[t as int] <= 2_000_000_000_000,
            ;
        }
        let p: i128 = (w[t] as i128) * (v[t] as i128);
        proof {
            lemma_trunc_div_bound(p as int, 1_000_000, 2_000_000_000_000_000_000_000);
        }
        let term: i128 = p / 1_000_000;
        let ns: i128 = sum + term;
        if ns > 1_000_000_000_000_000_000 || ns < -1_000_000_000_000_000_000 {
            return Err(KrigingError::SingularSystem);
        }
        sum = ns;
        t = t + 1;
    }
    Ok(sum as i64)
}

/// Sum of the first `k` mathematical weights.
pub open spec fn sum_ints(w: Seq<int>, k: int) -> int
    decreases k,
{
    if k <= 0 {
        0
    } else {
        sum_ints(w, k - 1) + w[k - 1]
    }
}

/// Dot product of a matrix row with mathematical weights.
pub open spec fn row_dot(row: Seq<i64>, w: Seq<int>, k: int) -> int
    decreases k,
{
    if k <= 0 {
        0
    } else {
        row_dot(row, w, k - 1) + row[k - 1] * w[k - 1]
    }
}

proof fn lemma_const_row_dot(row: Seq<i64>, w: Seq<int>, k: int, v: int)
    requires
        0 <= k <= row.len(),
        k <= w.len(),
        forall|t: int| 0 <= t < k ==> #[trigger] row[t] == v,
    ensures
        row_dot(row, w, k) == v * sum_ints(w, k),
    decreases k,
{
    if k > 0 {
        lemma_const_row_dot(row, w, k - 1, v);
        assert(v * sum_ints(w, k) == v * sum_ints(w, k - 1) + v * w[k - 1]) by (nonlinear_arith)
            requires
                sum_ints(w, k) == sum_ints(w, k - 1) + w[k - 1],
        ;
    }
}

/// Unbiasedness of ordinary kriging at the level of the assembled system:
/// any exact rational solution `w / d` of a system whose last row is the
/// Lagrange constraint has conditioning weights that sum to exactly one.
pub proof fn lemma_ok_weights_sum_to_one(
    c: Seq<Seq<i64>>,
    b: Seq<i64>,
    w: Seq<int>,
    d: int,
    n: int,
)
    requires
        n >= 1,
        d >= 1,
        c.len() == n + 1,
        c[n].len() == n + 1,
        b.len() == n + 1,
        w.len() == n + 1,
        forall|j: int| 0 <= j < n ==> #[trigger] c[n][j] == SCALE,
        c[n][n] == 0,
        b[n] == SCALE,
        row_dot(c[n], w, n + 1) == b[n] * d,
    ensures
        sum_ints(w, n) == d,
{
    assert(SCALE == 1_000_000i64);
    lemma_const_row_dot(c[n], w, n, SCALE as int);
    assert(c[n][n] * w[n] == 0) by (nonlinear_arith)
        requires
            c[n][n] == 0,
    ;
    assert(row_dot(c[n], w, n + 1) == row_dot(c[n], w, n) + c[n][n] * w[n]);
    assert((SCALE as int) * sum_ints(w, n) == (SCALE as int) * d);
    assert(sum_ints(w, n) == d) by (nonlinear_arith)
        requires
            (SCALE as int) * sum_ints(w, n) == (SCALE as int) * d,
            SCALE == 1_000_000i64,
    ;
}

/// The values carried by a sequence of samples.
pub open spec fn sample_values(s: Seq<Sample>) -> Seq<i64> {
    s.map_values(|x: Sample| x.value)
}

/// The sample values shifted by a known global mean.
pub open spec fn shifted_values(s: Seq<Sample>, mean: i64) -> Seq<i64> {
    s.map_values(|x: Sample| (x.value - mean) as i64)
}

/// The kriging variance implied by the explained part `wb`: sill minus the
/// weighted right-hand side, floored at zero.
pub open spec fn clamped_variance(sill: i64, wb: int) -> int {
    if wb > sill {
        0
    } else {
        sill - wb
    }
}

/// One concrete witness that `(est, var)` is an ordinary-kriging result
/// for the given conditioning data and target support: weights `wit.0`, a
/// non-empty selection `wit.1` drawn from the conditioning data, and the
/// assembled bordered system `(wit.2, wit.3)` that the weights solve to
/// tolerance; the estimate is the weight-dot of the selected values and
/// the variance is sill minus the weighted right-hand side, floored at
/// zero.
pub open spec fn ok_krige_witness(
    e: Ellipsoid,
    vg: IsoSpherical,
    cond: Seq<Sample>,
    ts: Seq<Point>,
    est: i64,
    var: i64,
    wit: (Seq<i64>, Seq<Sample>, Seq<Seq<i64>>, Seq<i64>),
) -> bool {
    let w = wit.0;
    let ch = wit.1;
    let cm = wit.2;
    let bv = wit.3;
    &&& ch.len() >= 1
    &&& w.len() == ch.len() + 1
    &&& forall|q: int| 0 <= q < ch.len() ==> contains_sample(cond, #[trigger] ch[q])
    &&& ok_system_shape(e, vg, ch, ts, cm, bv)
    &&& residual_ok(cm, bv, w)
    &&& est as int == dot_scaled(w, sample_values(ch), ch.len() as int)
    &&& var as int == clamped_variance(vg.sill, dot_scaled(w, bv, ch.len() as int + 1))
}

/// `(est, var)` is a genuine ordinary-kriging outcome: some selection of
/// the conditioning data and some tolerance-satisfying weight vector for
/// the assembled system produce exactly this estimate and variance.
pub open spec fn ok_krige_outcome(
    e: Ellipsoid,
    vg: IsoSpherical,
    cond: Seq<Sample>,
    ts: Seq<Point>,
    est: i64,
    var: i64,
) -> bool {
    exists|wit: (Seq<i64>, Seq<Sample>, Seq<Seq<i64>>, Seq<i64>)|
        ok_krige_witness(e, vg, cond, ts, est, var, wit)
}

/// `est` is a genuine ordinary-kriging probability estimate for some
/// variance.
pub open spec fn ok_probability_outcome(
    e: Ellipsoid,
    vg: IsoSpherical,
    cond: Seq<Sample>,
    ts: Seq<Point>,
    est: i64,
) -> bool {
    exists|var: i64| ok_krige_outcome(e, vg, cond, ts, est, var)
}

/// One concrete witness that `(est, var)` is a simple-kriging result
/// against a known global mean: as [`ok_krige_witness`], but over the
/// unaugmented system, with the estimate the mean plus the weight-dot of
/// the mean-shifted values.
pub open spec fn sk_krige_witness(
    e: Ellipsoid,
    vg: IsoSpherical,
    cond: Seq<Sample>,
    ts: Seq<Point>,
    mean: i64,
    est: i64,
    var: i64,
    wit: (Seq<i64>, Seq<Sample>, Seq<Seq<i64>>, Seq<i64>),
) -> bool {
    let w = wit.0;
    let ch = wit.1;
    let cm = wit.2;
    let bv = wit.3;
    &&& ch.len() >= 1
    &&& w.len() == ch.len()
    &&& forall|q: int| 0 <= q < ch.len() ==> contains_sample(cond, #[trigger] ch[q])
    &&& sk_system_shape(e, vg, ch, ts, cm, bv)
    &&& residual_ok(cm, bv, w)
    &&& est as int == mean + dot_scaled(w, shifted_values(ch, mean), ch.len() as int)
    &&& var as int == clamped_variance(vg.sill, dot_scaled(w, bv, ch.len() as int))
}

/// `(est, var)` is a genuine simple-kriging outcome against the mean.
pub open spec fn sk_krige_outcome(
    e: Ellipsoid,
    vg: IsoSpherical,
    cond: Seq<Sample>,
    ts: Seq<Point>,
    mean: i64,
    est: i64,
    var: i64,
) -> bool {
    exists|wit: (Seq<i64>, Seq<Sample>, Seq<Seq<i64>>, Seq<i64>)|
        sk_krige_witness(e, vg, cond, ts, mean, est, var, wit)
}

/// An ordinary-kriging outcome over some conditioning set is an outcome
/// over any larger set: the witness selection is drawn from the smaller
/// set, whose samples all appear in the larger one.
pub proof fn lemma_ok_outcome_widen(
    e: Ellipsoid,
    vg: IsoSpherical,
    cond1: Seq<Sample>,
    cond2: Seq<Sample>,
    ts: Seq<Point>,
    est: i64,
    var: i64,
)
    requires
        ok_krige_outcome(e, vg, cond1, ts, est, var),
        forall|k: int| 0 <= k < cond1.len() ==> contains_sample(cond2, #[trigger] cond1[k]),
    ensures
        ok_krige_outcome(e, vg, cond2, ts, est, var),
{
    let wit = choose|wit: (Seq<i64>, Seq<Sample>, Seq<Seq<i64>>, Seq<i64>)|
        ok_krige_witness(e, vg, cond1, ts, est, var, wit);
    assert forall|q: int| 0 <= q < wit.1.len() implies contains_sample(
        cond2,
        #[trigger] wit.1[q],
    ) by {
        let j = choose|j: int| 0 <= j < cond1.len() && cond1[j] == wit.1[q];
        assert(contains_sample(cond2, cond1[j]));
    }
    assert(ok_krige_witness(e, vg, cond2, ts, est, var, wit));
}

/// Sum of the first `k` solver weights.
pub open spec fn sum_weights(w: Seq<i64>, k: int) -> int
    decreases k,
{
    if k <= 0 {
        0
    } else {
        sum_weights(w, k - 1) + w[k - 1]
    }
}

/// The fixed-point unit divides out exactly: a weight times `SCALE`,
/// scaled back down, is the weight itself.
proof fn lemma_unit_term(a: i64)
    ensures
        div_trunc(a * SCALE, SCALE as int) == a as int,
{
    assert(SCALE == 1_000_000i64);
    if a >= 0 {
        vstd::arithmetic::div_mod::lemma_div_multiples_vanish(a as int, SCALE as int);
        assert((SCALE as int) * (a as int) == (a as int) * (SCALE as int)) by (nonlinear_arith);
    } else {
        vstd::arithmetic::div_mod::lemma_div_multiples_vanish(-(a as int), SCALE as int);
        assert((SCALE as int) * (-(a as int)) == -((a as int) * (SCALE as int)))
            by (nonlinear_arith);
    }
}

/// A dot product against a row of `SCALE` entries is the plain weight sum.
proof fn lemma_unit_row_dot(w: Seq<i64>, row: Seq<i64>, k: int)
    requires
        0 <= k <= w.len(),
        k <= row.len(),
        forall|t: int| 0 <= t < k ==> #[trigger] row[t] == SCALE,
    ensures
        dot_scaled(w, row, k) == sum_weights(w, k),
    decreases k,
{
    if k > 0 {
        lemma_unit_row_dot(w, row, k - 1);
        lemma_unit_term(w[k - 1]);
    }
}

/// Unbiasedness of the executable ordinary-kriging solve: any weight
/// vector the solver accepts for a system whose last row is the Lagrange
/// constraint has conditioning weights summing to one, within the solver's
/// residual tolerance.
pub proof fn lemma_solved_ok_weights_near_one(
    c: Seq<Seq<i64>>,
    b: Seq<i64>,
    w: Seq<i64>,
    n: int,
)
    requires
        n >= 1,
        c.len() == n + 1,
        c[n].len() == n + 1,
        b.len() == n + 1,
        w.len() == n + 1,
        forall|j: int| 0 <= j < n ==> #[trigger] c[n][j] == SCALE,
        c[n][n] == 0,
        b[n] == SCALE,
        residual_ok(c, b, w),
    ensures
        SCALE - SOLVE_RESIDUAL_TOL <= sum_weights(w, n) <= SCALE + SOLVE_RESIDUAL_TOL,
{
    lemma_unit_row_dot(w, c[n], n);
    assert(dot_scaled(w, c[n], n + 1) == dot_scaled(w, c[n], n) + div_trunc(
        w[n] * c[n][n],
        SCALE as int,
    ));
    assert(w[n] * c[n][n] == 0) by (nonlinear_arith)
        requires
            c[n][n] == 0,
    ;
    assert(SCALE == 1_000_000i64);
    vstd::arithmetic::div_mod::lemma_div_of0(SCALE as int);
    assert(div_trunc(0, SCALE as int) == 0);
    assert(-SOLVE_RESIDUAL_TOL <= dot_scaled(w, c[n], c.len() as int) - b[n]
        <= SOLVE_RESIDUAL_TOL);
}

/// Unbiasedness surfaced at the outcome level: the weights of any
/// ordinary-kriging outcome witness sum to one within the solver's
/// residual tolerance, because the witnessed system carries the Lagrange
/// constraint row and the witness satisfies it to tolerance.
pub proof fn lemma_ok_witness_weights_near_one(
    e: Ellipsoid,
    vg: IsoSpherical,
    cond: Seq<Sample>,
    ts: Seq<Point>,
    est: i64,
    var: i64,
    wit: (Seq<i64>, Seq<Sample>, Seq<Seq<i64>>, Seq<i64>),
)
    requires
        ok_krige_witness(e, vg, cond, ts, est, var, wit),
    ensures
        SCALE - SOLVE_RESIDUAL_TOL <= sum_weights(wit.0, wit.1.len() as int) <= SCALE
            + SOLVE_RESIDUAL_TOL,
{
    let n = wit.1.len() as int;
    lemma_solved_ok_weights_near_one(wit.2, wit.3, wit.0, n);
}

} // verus!
