//! Conditioning-data selection: the neighborhood search.
//!
//! Given an estimation location and a search ellipsoid, the candidates
//! inside the ellipsoid are bucketed into the eight octants of the
//! ellipsoid's principal frame.  An estimate is refused when fewer octants
//! are covered than required; otherwise the closest candidates, by
//! normalized distance with insertion order breaking ties, are retained up
//! to the conditioning cap.

use vstd::prelude::*;

use crate::geometry::{includes, includes_spec, norm_dist_sq, norm_dist_sq_spec, octant,
    octant_spec, point_ok, Ellipsoid, Point};

verus! {

/// One conditioning sample: a location and the scalar value observed there.
#[derive(Clone, Copy, PartialEq, Eq, Structural, Debug)]
pub struct Sample {
    pub point: Point,
    pub value: i64,
}

/// Per-target failures and configuration faults of the kriging engine.
#[derive(Clone, Copy, PartialEq, Eq, Structural, Debug)]
pub enum KrigingError {
    /// Fewer conditioning samples or covered octants than required;
    /// recovered per target.
    InsufficientNeighborhoodCoverage,
    /// The kriging system was not solvable to tolerance; recovered per
    /// target.
    SingularSystem,
    /// Rejected at construction: non-positive ellipsoid axes, no
    /// thresholds, or a conditioning cap below one.
    InvalidConfiguration,
}

/// All sample locations lie within the supported working volume.
pub open spec fn samples_ok(s: Seq<Sample>) -> bool {
    forall|i: int| 0 <= i < s.len() ==> point_ok(#[trigger] s[i].point)
}

/// Whether sample `j` lies inside the search neighborhood.
pub open spec fn in_range(e: Ellipsoid, center: Point, s: Seq<Sample>, j: int) -> bool {
    includes_spec(e, center, s[j].point)
}

/// How many of the first `i` samples lie inside the neighborhood.
pub open spec fn n_in_range_upto(e: Ellipsoid, center: Point, s: Seq<Sample>, i: int) -> int
    decreases i,
{
    if i <= 0 {
        0
    } else {
        n_in_range_upto(e, center, s, i - 1) + if in_range(e, center, s, i - 1) {
            1int
        } else {
            0int
        }
    }
}

/// Whether some in-range sample among the first `i` falls in octant `o`.
pub open spec fn oct_flag_upto(e: Ellipsoid, center: Point, s: Seq<Sample>, o: int, i: int) -> bool {
    exists|j: int|
        0 <= j < i && #[trigger] in_range(e, center, s, j) && octant_spec(e, center, s[j].point)
            == o
}

/// How many of the octants below `o` hold at least one in-range sample.
pub open spec fn coverage_upto(e: Ellipsoid, center: Point, s: Seq<Sample>, o: int) -> int
    decreases o,
{
    if o <= 0 {
        0
    } else {
        coverage_upto(e, center, s, o - 1) + if oct_flag_upto(e, center, s, o - 1, s.len() as int) {
            1int
        } else {
            0int
        }
    }
}

/// The number of octants, out of eight, covered by at least one in-range
/// sample.
pub open spec fn coverage_spec(e: Ellipsoid, center: Point, s: Seq<Sample>) -> int {
    coverage_upto(e, center, s, 8)
}

/// Strict selection order: nearer first, insertion order breaking ties.
pub open spec fn key_lt(e: Ellipsoid, center: Point, s: Seq<Sample>, i: int, j: int) -> bool {
    ||| norm_dist_sq_spec(e, center, s[i].point) < norm_dist_sq_spec(e, center, s[j].point)
    ||| (norm_dist_sq_spec(e, center, s[i].point) == norm_dist_sq_spec(e, center, s[j].point) && i
        < j)
}

/// A valid selection of conditioning data: distinct in-range samples,
/// exactly the cap (or all in-range samples when fewer), each retained
/// sample closer than every in-range sample left out.
pub open spec fn valid_selection(
    e: Ellipsoid,
    center: Point,
    s: Seq<Sample>,
    cap: int,
    r: Seq<usize>,
) -> bool {
    &&& r.len() == if n_in_range_upto(e, center, s, s.len() as int) <= cap {
        n_in_range_upto(e, center, s, s.len() as int)
    } else {
        cap
    }
    &&& forall|k: int| 0 <= k < r.len() ==> 0 <= #[trigger] r[k] < s.len()
    &&& forall|k: int| 0 <= k < r.len() ==> in_range(e, center, s, #[trigger] r[k] as int)
    &&& forall|a: int, b: int|
        0 <= a < b < r.len() ==> key_lt(e, center, s, #[trigger] r[a] as int, #[trigger] r[b] as int)
    &&& forall|j: int|
        0 <= j < s.len() && in_range(e, center, s, j) && (forall|k: int|
            0 <= k < r.len() ==> #[trigger] r[k] != j) ==> forall|k: int|
            0 <= k < r.len() ==> key_lt(e, center, s, #[trigger] r[k] as int, j)
}

/// Neighborhood search: refuse the target when fewer octants are covered
/// than required, otherwise select the closest in-range samples up to the
/// cap.  The result holds indices into `samples`.
#[verifier::rlimit(100)]
pub fn search(
    samples: &Vec<Sample>,
    center: Point,
    e: &Ellipsoid,
    max_cond_data: usize,
    min_conditioned_octants: usize,
) -> (r: Result<Vec<usize>, KrigingError>)
    requires
        e.wf(),
        point_ok(center),
        samples_ok(samples@),
        max_cond_data >= 1,
    ensures
        r is Err <==> coverage_spec(*e, center, samples@) < min_conditioned_octants,
        r matches Err(er) ==> er == KrigingError::InsufficientNeighborhoodCoverage,
        r matches Ok(v) ==> valid_selection(*e, center, samples@, max_cond_data as int, v@),
{
    let n: usize = samples.len();
    let ghost s: Seq<Sample> = samples@;

    // Octant coverage of the in-range candidates.
    let mut flags: Vec<bool> = Vec::new();
    let mut o: usize = 0;
    while o < 8
        invariant
            o <= 8,
            flags.len() == o,
            forall|k: int| 0 <= k < o ==> !flags@[k],
        decreases 8 - o,
    {
        flags.push(false);
        o = o + 1;
    }
    let mut i: usize = 0;
    while i < n
        invariant
            i <= n,
            n == s.len(),
            samples@ == s,
            e.wf(),
            point_ok(center),
            samples_ok(s),
            flags.len() == 8,
            forall|k: int| 0 <= k < 8 ==> flags@[k] == oct_flag_upto(*e, center, s, k, i as int),
        decreases n - i,
    {
        let sm: Sample = samples[i];
        if includes(e, center, sm.point) {
            let oc: u8 = octant(e, center, sm.point);
            let ghost old_flags = flags@;
            flags[oc as usize] = true;
            proof {
                assert(in_range(*e, center, s, i as int));
                assert forall|k: int| 0 <= k < 8 implies flags@[k] == oct_flag_upto(
                    *e,
                    center,
                    s,
                    k,
                    i as int + 1,
                ) by {
                    if k == oc as int {
                        assert(oct_flag_upto(*e, center, s, k, i as int + 1));
                    } else {
                        assert(oct_flag_upto(*e, center, s, k, i as int + 1) == oct_flag_upto(
                            *e,
                            center,
                            s,
                            k,
                            i as int,
                        )) by {
                            if oct_flag_upto(*e, center, s, k, i as int + 1) {
                                let j = choose|j: int|
                                    0 <= j < i as int + 1 && #[trigger] in_range(*e, center, s, j)
                                        && octant_spec(*e, center, s[j].point) == k;
                                assert(j < i as int);
                                assert(oct_flag_upto(*e, center, s, k, i as int));
                            }
                        }
                    }
                }
            }
        } else {
            proof {
                assert forall|k: int| 0 <= k < 8 implies flags@[k] == oct_flag_upto(
                    *e,
                    center,
                    s,
                    k,
                    i as int + 1,
                ) by {
                    if oct_flag_upto(*e, center, s, k, i as int + 1) {
                        let j = choose|j: int|
                            0 <= j < i as int + 1 && #[trigger] in_range(*e, center, s, j)
                                && octant_spec(*e, center, s[j].point) == k;
                        assert(j < i as int);
                        assert(oct_flag_upto(*e, center, s, k, i as int));
                    }
                    if oct_flag_upto(*e, center, s, k, i as int) {
                        assert(oct_flag_upto(*e, center, s, k, i as int + 1));
                    }
                }
            }
        }
        i = i + 1;
    }

    let mut covered: usize = 0;
    let mut o: usize = 0;
    while o < 8
        invariant
            o <= 8,
            flags.len() == 8,
            n == s.len(),
            forall|k: int| 0 <= k < 8 ==> flags@[k] == oct_flag_upto(*e, center, s, k, n as int),
            covered == coverage_upto(*e, center, s, o as int),
            covered <= o,
        decreases 8 - o,
    {
        if flags[o] {
            covered = covered + 1;
        }
        o = o + 1;
    }
    if covered < min_conditioned_octants {
        return Err(KrigingError::InsufficientNeighborhoodCoverage);
    }

    // Retain the closest in-range candidates, capped; `kept` stays sorted
    // by (normalized squared distance, insertion index).
    let mut kept: Vec<(i128, usize)> = Vec::new();
    let mut i: usize = 0;
    while i < n
        invariant
            i <= n,
            n == s.len(),
            samples@ == s,
            e.wf(),
            point_ok(center),
            samples_ok(s),
            max_cond_data >= 1,
            kept.len() == if n_in_range_upto(*e, center, s, i as int) <= max_cond_data {
                n_in_range_upto(*e, center, s, i as int)
            } else {
                max_cond_data as int
            },
            forall|k: int|
                0 <= k < kept.len() ==> 0 <= (#[trigger] kept@[k]).1 < i && in_range(
                    *e,
                    center,
                    s,
                    kept@[k].1 as int,
                ) && kept@[k].0 == norm_dist_sq_spec(*e, center, s[kept@[k].1 as int].point),
            forall|a: int, b: int|
                0 <= a < b < kept.len() ==> key_lt(
                    *e,
                    center,
                    s,
                    (#[trigger] kept@[a]).1 as int,
                    (#[trigger] kept@[b]).1 as int,
                ),
            forall|j: int|
                0 <= j < i && in_range(*e, center, s, j) && (forall|k: int|
                    0 <= k < kept.len() ==> (#[trigger] kept@[k]).1 != j) ==> kept.len()
                    == max_cond_data && forall|k: int|
                    0 <= k < kept.len() ==> key_lt(*e, center, s, (#[trigger] kept@[k]).1 as int, j),
        decreases n - i,
    {
        let sm: Sample = samples[i];
        if includes(e, center, sm.point) {
            let d2: i128 = norm_dist_sq(e, center, sm.point);
            let ghost prev: Seq<(i128, usize)> = kept@;
            // Position of the first kept entry whose key follows the new one.
            let mut pos: usize = 0;
            while pos < kept.len() && (kept[pos].0 < d2 || (kept[pos].0 == d2 && kept[pos].1 < i))
                invariant
                    pos <= kept.len(),
                    kept@ == prev,
                    n == s.len(),
                    samples@ == s,
                    i < n,
                    d2 as int == norm_dist_sq_spec(*e, center, s[i as int].point),
                    forall|k: int|
                        0 <= k < kept.len() ==> 0 <= (#[trigger] kept@[k]).1 < i && kept@[k].0
                            == norm_dist_sq_spec(*e, center, s[kept@[k].1 as int].point),
                    forall|k: int|
                        0 <= k < pos ==> key_lt(
                            *e,
                            center,
                            s,
                            (#[trigger] kept@[k]).1 as int,
                            i as int,
                        ),
                decreases kept.len() - pos,
            {
                pos = pos + 1;
            }
            proof {
                if pos < kept.len() {
                    assert(kept@[pos as int].1 < i);
                    assert(key_lt(*e, center, s, i as int, kept@[pos as int].1 as int));
                    assert forall|k: int| pos <= k < kept@.len() implies key_lt(
                        *e,
                        center,
                        s,
                        i as int,
                        (#[trigger] kept@[k]).1 as int,
                    ) by {
                        if k > pos {
                            assert(key_lt(
                                *e,
                                center,
                                s,
                                kept@[pos as int].1 as int,
                                kept@[k].1 as int,
                            ));
                        }
                    }
                }
            }
            if pos == kept.len() && kept.len() == max_cond_data {
                // The new candidate is farther than everything kept: it is
                // the one dropped.
                proof {
                    assert forall|j: int|
                        0 <= j < i + 1 && in_range(*e, center, s, j) && (forall|k: int|
                            0 <= k < kept@.len() ==> (#[trigger] kept@[k]).1 != j) implies
                        kept@.len() == max_cond_data && (forall|k: int|
                        0 <= k < kept@.len() ==> key_lt(
                            *e,
                            center,
                            s,
                            (#[trigger] kept@[k]).1 as int,
                            j,
                        )) by {}
                }
            } else {
                kept.insert(pos, (d2, i));
                proof {
                    assert(kept@ == prev.insert(pos as int, (d2, i)));
                    assert forall|a: int, b: int| 0 <= a < b < kept@.len() implies key_lt(
                        *e,
                        center,
                        s,
                        (#[trigger] kept@[a]).1 as int,
                        (#[trigger] kept@[b]).1 as int,
                    ) by {
                        if a < pos && b == pos {
                            assert(kept@[a] == prev[a] && kept@[b] == (d2, i));
                        } else if a == pos && b > pos {
                            assert(kept@[a] == (d2, i) && kept@[b] == prev[b - 1]);
                        } else if a < pos && b > pos {
                            assert(kept@[a] == prev[a] && kept@[b] == prev[b - 1]);
                        } else if a > pos && b > pos {
                            assert(kept@[a] == prev[a - 1] && kept@[b] == prev[b - 1]);
                        } else if a < pos && b < pos {
                            assert(kept@[a] == prev[a] && kept@[b] == prev[b]);
                        }
                    }
                }
                if kept.len() > max_cond_data {
                    let ghost mid: Seq<(i128, usize)> = kept@;
                    let dropped: (i128, usize) = kept.pop().unwrap();
                    proof {
                        assert(dropped == mid[mid.len() - 1]);
                        assert(kept@ == mid.drop_last());
                        assert(pos < mid.len() - 1);
                        assert forall|k: int| 0 <= k < kept@.len() implies key_lt(
                            *e,
                            center,
                            s,
                            (#[trigger] kept@[k]).1 as int,
                            dropped.1 as int,
                        ) by {
                            assert(kept@[k] == mid[k]);
                        }
                        assert forall|j: int|
                            0 <= j < i + 1 && in_range(*e, center, s, j) && (forall|k: int|
                                0 <= k < kept@.len() ==> (#[trigger] kept@[k]).1 != j) implies
                            kept@.len() == max_cond_data && (forall|k: int|
                            0 <= k < kept@.len() ==> key_lt(
                                *e,
                                center,
                                s,
                                (#[trigger] kept@[k]).1 as int,
                                j,
                            )) by {
                            if j == i as int {
                                assert(kept@[pos as int].1 == i);
                            } else if j == dropped.1 as int {
                            } else {
                                assert forall|t: int| 0 <= t < prev.len() implies (
                                #[trigger] prev[t]).1 != j by {
                                    if t < pos {
                                        assert(kept@[t] == prev[t]);
                                    } else if t + 1 < mid.len() - 1 {
                                        assert(kept@[t + 1] == prev[t]);
                                    } else {
                                        assert(dropped == prev[t]);
                                    }
                                }
                                assert(prev.len() == max_cond_data);
                                assert forall|k: int| 0 <= k < kept@.len() implies key_lt(
                                    *e,
                                    center,
                                    s,
                                    (#[trigger] kept@[k]).1 as int,
                                    j,
                                ) by {
                                    if k < pos {
                                        assert(kept@[k] == prev[k]);
                                        assert(key_lt(*e, center, s, prev[k].1 as int, j));
                                    } else if k == pos {
                                        assert(kept@[k] == (d2, i));
                                        assert(key_lt(*e, center, s, i as int, prev[pos as int].1 as int));
                                        assert(key_lt(*e, center, s, prev[pos as int].1 as int, j));
                                    } else {
                                        assert(kept@[k] == prev[k - 1]);
                                        assert(key_lt(*e, center, s, prev[k - 1].1 as int, j));
                                    }
                                }
                            }
                        }
                    }
                } else {
                    proof {
                        assert forall|j: int|
                            0 <= j < i + 1 && in_range(*e, center, s, j) && (forall|k: int|
                                0 <= k < kept@.len() ==> (#[trigger] kept@[k]).1 != j) implies
                            kept@.len() == max_cond_data && (forall|k: int|
                            0 <= k < kept@.len() ==> key_lt(
                                *e,
                                center,
                                s,
                                (#[trigger] kept@[k]).1 as int,
                                j,
                            )) by {
                            if j == i as int {
                                assert(kept@[pos as int].1 == i);
                            } else {
                                assert forall|t: int| 0 <= t < prev.len() implies (
                                #[trigger] prev[t]).1 != j by {
                                    if t < pos {
                                        assert(kept@[t] == prev[t]);
                                    } else {
                                        assert(kept@[t + 1] == prev[t]);
                                    }
                                }
                                assert(prev.len() == max_cond_data);
                                assert(prev.len() < max_cond_data);
                            }
                        }
                    }
                }
            }
        }
        i = i + 1;
    }

    let mut result: Vec<usize> = Vec::new();
    let mut k: usize = 0;
    while k < kept.len()
        invariant
            k <= kept.len(),
            result.len() == k,
            forall|t: int| 0 <= t < k ==> result@[t] == (#[trigger] kept@[t]).1,
        decreases kept.len() - k,
    {
        result.push(kept[k].1);
        k = k + 1;
    }
    proof {
        let rv = result@;
        assert(rv.len() == kept@.len());
        assert forall|k: int| 0 <= k < rv.len() implies 0 <= #[trigger] rv[k] < s.len()
            && in_range(*e, center, s, rv[k] as int) by {
            assert(rv[k] == kept@[k].1);
        }
        assert forall|a: int, b: int| 0 <= a < b < rv.len() implies key_lt(
            *e,
            center,
            s,
            (#[trigger] rv[a]) as int,
            (#[trigger] rv[b]) as int,
        ) by {
            assert(rv[a] == kept@[a].1 && rv[b] == kept@[b].1);
            assert(key_lt(*e, center, s, kept@[a].1 as int, kept@[b].1 as int));
        }
        assert forall|j: int|
            0 <= j < s.len() && in_range(*e, center, s, j) && (forall|k: int|
                0 <= k < rv.len() ==> #[trigger] rv[k] != j) implies forall|k: int|
            0 <= k < rv.len() ==> key_lt(*e, center, s, (#[trigger] rv[k]) as int, j) by {
            assert forall|k: int| 0 <= k < kept@.len() implies (#[trigger] kept@[k]).1 != j by {
                assert(rv[k] == kept@[k].1);
            }
            assert forall|k: int| 0 <= k < rv.len() implies key_lt(
                *e,
                center,
                s,
                (#[trigger] rv[k]) as int,
                j,
            ) by {
                assert(rv[k] == kept@[k].1);
                assert(key_lt(*e, center, s, kept@[k].1 as int, j));
            }
        }
        assert(valid_selection(*e, center, samples@, max_cond_data as int, rv));
    }
    Ok(result)
}

} // verus!
