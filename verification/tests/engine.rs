use terrustrial::conditioning::{search, KrigingError, Sample};
use terrustrial::geometry::{Ellipsoid, Matrix3, Orientation, Point};
use terrustrial::gsik::{krige_support, krige_support_simple, GSKParameters, GSIK};
use terrustrial::kriging::build_sk_system;
use terrustrial::ikcpdf::IKCPDF;
use terrustrial::kriging::{build_ok_system, dedup_exact, solve};
use terrustrial::node_providers::VolumeGroupProvider;
use terrustrial::variography::IsoSpherical;
use terrustrial::{MISSING, SCALE};

fn pt(x: i64, y: i64, z: i64) -> Point {
    Point { x, y, z }
}

fn sphere(range_units: i64) -> Ellipsoid {
    Ellipsoid {
        a: range_units * SCALE,
        b: range_units * SCALE,
        c: range_units * SCALE,
        rot: Matrix3::identity(),
        translation: pt(0, 0, 0),
    }
}

#[test]
fn correction_of_nonmonotone_probabilities() {
    // Raw per-threshold probabilities 0.9, 0.2, 0.95: forward max
    // 0.9/0.9/0.95, backward min 0.2/0.2/0.95, averaged 0.55/0.55/0.95,
    // last forced to exactly one.
    let mut cpdf = IKCPDF { p: vec![900_000, 200_000, 950_000], x: vec![0, SCALE, 2 * SCALE] };
    cpdf.correct();
    assert_eq!(cpdf.p, vec![550_000, 550_000, 1_000_000]);
    assert_eq!(cpdf.x, vec![0, SCALE, 2 * SCALE]);
    for w in cpdf.p.windows(2) {
        assert!(w[0] <= w[1]);
    }
    assert_eq!(*cpdf.p.last().unwrap(), SCALE);
}

#[test]
fn correction_clamps_and_is_idempotent() {
    // Envelopes of the raw values: forward max 1.5/1.5/1.5, backward min
    // -0.3/-0.3/0.7; averaged 0.6/0.6/1.1, then clamped, last forced to 1.
    let mut cpdf = IKCPDF { p: vec![1_500_000, -300_000, 700_000], x: vec![0, 1, 2] };
    cpdf.correct();
    assert_eq!(cpdf.p, vec![600_000, 600_000, 1_000_000]);
    let once = cpdf.p.clone();
    cpdf.correct();
    assert_eq!(cpdf.p, once);
    assert_eq!(cpdf.x, vec![0, 1, 2]);
}

#[test]
fn with_capacity_starts_empty() {
    let cpdf = IKCPDF::with_capacity(16);
    assert!(cpdf.p.is_empty());
    assert!(cpdf.x.is_empty());
}

#[test]
fn spherical_variogram_exact_values() {
    // range 2.0, sill 1.0, lag 1.0: u = 0.5, so the variogram is
    // 1.5 * 0.5 - 0.5 * 0.125 = 0.6875.
    let vg = IsoSpherical::new(2 * SCALE, SCALE);
    assert_eq!(vg.variogram(SCALE), 687_500);
    assert_eq!(vg.covariogram(SCALE), 312_500);
    assert_eq!(vg.variogram(0), 0);
    assert_eq!(vg.covariogram(0), SCALE);
    assert_eq!(vg.variogram(2 * SCALE), SCALE);
    assert_eq!(vg.variogram(5 * SCALE), SCALE);
    assert_eq!(vg.covariogram(2 * SCALE), 0);
}

#[test]
fn spherical_variogram_range_derivative() {
    // range 1.0, sill 1.0, lag 0.5: 1.5 * 0.5 * (0.25 - 1.0) = -0.5625.
    let vg = IsoSpherical::new(SCALE, SCALE);
    assert_eq!(vg.variogram_dr(500_000), -562_500);
    assert_eq!(vg.variogram_dr(0), 0);
    // range 2.0, sill 1.0, lag 1.0:
    // 1.5 * (1/16 - 1/4) = -0.28125, sensitive to the range powers.
    let wide = IsoSpherical::new(2 * SCALE, SCALE);
    assert_eq!(wide.variogram_dr(SCALE), -281_250);
}

#[test]
fn parameter_names_lists_range() {
    let names = IsoSpherical::parameter_names();
    assert_eq!(names.len(), 1);
    assert_eq!(names[0], "range");
}

#[test]
fn grouping_round_trip_preserves_order_and_cardinality() {
    let a = vec![pt(1, 1, 1)];
    let b = vec![pt(2, 2, 2)];
    let c = vec![pt(3, 3, 3), pt(4, 4, 4)];
    let groups = vec![vec![a.clone()], vec![b.clone(), c.clone()]];
    let orientations = vec![Orientation::identity(), Orientation::identity()];
    let provider = VolumeGroupProvider::from_groups(groups, orientations);
    assert_eq!(provider.n_groups(), 2);
    assert_eq!(provider.volumes.len(), 3);
    assert_eq!(provider.group_inds, vec![0, 1]);
    let g0 = provider.get_group(0);
    assert_eq!(g0.len(), 1);
    assert_eq!(g0[0], a);
    let g1 = provider.get_group(1);
    assert_eq!(g1.len(), 2);
    assert_eq!(g1[0], b);
    assert_eq!(g1[1], c);
    assert_eq!(*provider.get_orientation(1), Orientation::identity());
}

#[test]
fn sample_at_search_center_is_always_included() {
    // A slightly rotated anisotropic ellipsoid: the sample sitting exactly
    // at the center is still selected.
    let e = Ellipsoid {
        a: 10 * SCALE,
        b: 20 * SCALE,
        c: 5 * SCALE,
        // A rotation by 90 degrees around z: x <- y, y <- -x.
        rot: Matrix3 {
            m00: 0,
            m01: SCALE,
            m02: 0,
            m10: -SCALE,
            m11: 0,
            m12: 0,
            m20: 0,
            m21: 0,
            m22: SCALE,
        },
        translation: pt(0, 0, 0),
    };
    let center = pt(7 * SCALE, -3 * SCALE, 2 * SCALE);
    let samples = vec![Sample { point: center, value: 42 }];
    let selected = search(&samples, center, &e, 4, 1).expect("center sample must be found");
    assert_eq!(selected, vec![0]);
}

#[test]
fn far_target_reports_insufficient_coverage() {
    // Ellipsoid range 10 units, sample 1000 units away: no octant is
    // covered, so the target is refused, never silently estimated.
    let e = sphere(10);
    let samples = vec![Sample { point: pt(1000 * SCALE, 0, 0), value: SCALE }];
    let r = search(&samples, pt(0, 0, 0), &e, 4, 1);
    assert_eq!(r, Err(KrigingError::InsufficientNeighborhoodCoverage));
}

#[test]
fn search_keeps_closest_and_breaks_ties_by_insertion_order() {
    let e = sphere(100);
    let samples = vec![
        Sample { point: pt(3 * SCALE, 0, 0), value: 1 },
        Sample { point: pt(SCALE, 0, 0), value: 2 },
        Sample { point: pt(0, SCALE, 0), value: 3 },
        Sample { point: pt(2 * SCALE, 0, 0), value: 4 },
    ];
    // Cap of two: the two at normalized distance 0.01 win; the tie between
    // indices 1 and 2 keeps insertion order.
    let selected = search(&samples, pt(0, 0, 0), &e, 2, 1).unwrap();
    assert_eq!(selected, vec![1, 2]);
}

#[test]
fn exact_interpolation_at_a_conditioning_point() {
    // A single conditioning sample at distance zero from the point target,
    // sill 1.0, range 100: the ordinary-kriging estimate is the sample
    // value exactly and the kriging variance is exactly zero.
    let e = sphere(100);
    let vg = IsoSpherical::new(100 * SCALE, SCALE);
    let cond = vec![Sample { point: pt(0, 0, 0), value: 7_370_000 }];
    let support = vec![pt(0, 0, 0)];
    let (est, var) = krige_support(&cond, &support, &e, &vg, 8, 1).unwrap();
    assert_eq!(est, 7_370_000);
    assert_eq!(var, 0);
}

#[test]
fn ordinary_kriging_weights_sum_to_one() {
    // Two samples placed symmetrically about the target: the solved
    // weights are exactly half each, and their sum is exactly one.
    let e = sphere(100);
    let vg = IsoSpherical::new(100 * SCALE, SCALE);
    let cond = vec![
        Sample { point: pt(SCALE, 0, 0), value: 0 },
        Sample { point: pt(-SCALE, 0, 0), value: 0 },
    ];
    let support = vec![pt(0, 0, 0)];
    let (c, b) = build_ok_system(&cond, &support, &e, &vg);
    let w = solve(&c, &b).unwrap();
    assert_eq!(w.len(), 3);
    // The fixed-point solve rounds each weight to a millionth, so the sum
    // matches one within that tolerance.
    assert!((w[0] + w[1] - SCALE).abs() <= 2);
    assert!((w[0] - w[1]).abs() <= 1);
}

#[test]
fn simple_kriging_weights_sum_below_one_with_mean_prior() {
    // One sample at normalized distance 1.0 (a unit search ellipsoid)
    // under a range-2.0, sill-1.0 model: the simple-kriging weight is the
    // covariogram 0.3125, strictly below one, and the estimate shrinks
    // toward the global mean.
    let e = sphere(1);
    let vg = IsoSpherical::new(2 * SCALE, SCALE);
    let cond = vec![Sample { point: pt(SCALE, 0, 0), value: 3 * SCALE }];
    let support = vec![pt(0, 0, 0)];
    let (c, b) = build_sk_system(&cond, &support, &e, &vg);
    let w = solve(&c, &b).unwrap();
    assert_eq!(w, vec![312_500]);
    assert!(w.iter().sum::<i64>() < SCALE);
    // Estimate: mean 2.0 plus 0.3125 * (3.0 - 2.0) = 2.3125.
    let mean = 2 * SCALE;
    let (est, var) = krige_support_simple(&cond, &support, &e, &vg, mean, 8, 1).unwrap();
    assert_eq!(est, 2_312_500);
    // Variance: sill minus w * b = 1.0 - 0.3125 * 0.3125.
    assert_eq!(var, SCALE - (312_500 * 312_500) / SCALE);
}

#[test]
fn duplicate_conditioning_points_are_deduplicated() {
    let s = Sample { point: pt(5, 5, 5), value: 9 };
    let t = Sample { point: pt(6, 5, 5), value: 9 };
    let samples = vec![s, t, s, s, t];
    let out = dedup_exact(&samples);
    assert_eq!(out, vec![s, t]);
}

#[test]
fn undeduplicated_duplicates_make_the_system_singular() {
    // If identical conditioning rows do reach the solver, it reports a
    // singular system rather than returning a silently wrong weight vector.
    let e = sphere(100);
    let vg = IsoSpherical::new(100 * SCALE, SCALE);
    let cond = vec![
        Sample { point: pt(SCALE, 0, 0), value: 3 },
        Sample { point: pt(SCALE, 0, 0), value: 3 },
    ];
    let support = vec![pt(0, 0, 0)];
    let (c, b) = build_ok_system(&cond, &support, &e, &vg);
    assert_eq!(solve(&c, &b), Err(KrigingError::SingularSystem));
}

fn valid_engine_inputs() -> (Vec<Sample>, Vec<IsoSpherical>, Vec<i64>, Ellipsoid, GSKParameters) {
    let cond = vec![Sample { point: pt(0, 0, 0), value: 500_000 }];
    let models = vec![IsoSpherical::new(100 * SCALE, SCALE); 2];
    let thresholds = vec![0, SCALE];
    let params = GSKParameters {
        max_group_size: 8,
        max_cond_data: 8,
        min_conditioned_octants: 1,
        correct_cpdfs: true,
    };
    (cond, models, thresholds, sphere(100), params)
}

#[test]
fn engine_rejects_invalid_configurations() {
    let (cond, models, thresholds, e, params) = valid_engine_inputs();
    let mut bad_axis = e;
    bad_axis.a = 0;
    assert!(matches!(
        GSIK::new(cond.clone(), models.clone(), thresholds.clone(), bad_axis, params),
        Err(KrigingError::InvalidConfiguration)
    ));
    assert!(matches!(
        GSIK::new(cond.clone(), models.clone(), vec![], e, params),
        Err(KrigingError::InvalidConfiguration)
    ));
    let mut bad_cap = params;
    bad_cap.max_cond_data = 0;
    assert!(matches!(
        GSIK::new(cond.clone(), models.clone(), thresholds.clone(), e, bad_cap),
        Err(KrigingError::InvalidConfiguration)
    ));
    let one_model = vec![IsoSpherical::new(100 * SCALE, SCALE)];
    assert!(matches!(
        GSIK::new(cond.clone(), one_model, thresholds.clone(), e, params),
        Err(KrigingError::InvalidConfiguration)
    ));
    assert!(GSIK::new(cond, models, thresholds, e, params).is_ok());
}

#[test]
fn indicator_kriging_assembles_a_cdf_per_target() {
    // One conditioning sample of value 0.5 at the target itself, two
    // thresholds 0.0 and 1.0: the indicator estimates are exactly 0 and 1,
    // already a valid corrected distribution.
    let (cond, models, thresholds, e, params) = valid_engine_inputs();
    let engine = GSIK::new(cond, models, thresholds.clone(), e, params).unwrap();
    let groups = vec![vec![vec![pt(0, 0, 0)]], vec![vec![pt(SCALE, 0, 0)]]];
    let result = engine.estimate(&groups);
    assert_eq!(result.len(), 2);
    for cpdf in &result {
        assert_eq!(cpdf.x, thresholds);
        assert_eq!(cpdf.p.len(), 2);
        assert_eq!(*cpdf.p.last().unwrap(), SCALE);
        for w in cpdf.p.windows(2) {
            assert!(w[0] <= w[1] && 0 <= w[0] && w[1] <= SCALE);
        }
    }
    assert_eq!(result[0].p, vec![0, SCALE]);
}

#[test]
fn correction_never_destroys_a_missing_marker() {
    // A far target with correction enabled: its distribution keeps the
    // explicit missing markers instead of being corrected into a
    // plausible-looking CDF.
    let (cond, models, thresholds, e, params) = valid_engine_inputs();
    assert!(params.correct_cpdfs);
    let engine = GSIK::new(cond, models, thresholds.clone(), e, params).unwrap();
    let groups = vec![vec![vec![pt(1000 * SCALE, 0, 0)]]];
    let result = engine.estimate(&groups);
    assert_eq!(result.len(), 1);
    assert_eq!(result[0].p, vec![MISSING, MISSING]);
    assert_eq!(result[0].x, thresholds);
}

#[test]
fn unreachable_targets_carry_the_missing_marker() {
    // A target far outside every sample's ellipsoid: its slot exists in
    // the output and holds the explicit missing marker per threshold.
    let (cond, models, thresholds, e, mut params) = valid_engine_inputs();
    params.correct_cpdfs = false;
    let engine = GSIK::new(cond, models, thresholds.clone(), e, params).unwrap();
    let groups = vec![vec![vec![pt(1000 * SCALE, 0, 0)]]];
    let result = engine.estimate(&groups);
    assert_eq!(result.len(), 1);
    assert_eq!(result[0].p, vec![MISSING, MISSING]);
    assert_eq!(result[0].x, thresholds);
}
