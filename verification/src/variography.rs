//! Variogram models: pure functions from a spatial lag to expected
//! dissimilarity (variogram) or similarity (covariogram).
//!
//! Quantities are fixed-point integers in millionths ([`crate::SCALE`]),
//! so the spherical model below is evaluated exactly, with explicit
//! flooring where the real-valued model divides.

use vstd::arithmetic::div_mod::lemma_div_by_multiple;
use vstd::arithmetic::div_mod::lemma_div_is_ordered;
use vstd::arithmetic::div_mod::lemma_div_pos_is_pos;
use vstd::arithmetic::div_mod::lemma_multiply_divide_le;
use vstd::arithmetic::div_mod::lemma_multiply_divide_lt;
use vstd::prelude::*;

use crate::fixed::div_trunc;
use crate::SCALE;

verus! {

/// Isotropic spherical variogram model with a fitted `range` and `sill`,
/// both fixed-point.  Within the range the variogram rises as
/// `sill * (1.5 h/range - 0.5 (h/range)^3)`; at and beyond the range it
/// equals the sill.
#[derive(Clone, Copy, PartialEq, Eq, Structural, Debug)]
pub struct IsoSpherical {
    pub range: i64,
    pub sill: i64,
}

/// The normalized lag `h / range` in fixed-point form, floored.
pub open spec fn norm_lag(range: int, h: int) -> int {
    (h * (SCALE as int)) / range
}

/// The spherical variogram, evaluated in fixed-point arithmetic: for a lag
/// within the range, `sill * (3 u S^2 - u^3) / (2 S^3)` with `u` the
/// fixed-point normalized lag and `S` the fixed-point unit; beyond the
/// range, the sill itself.
pub open spec fn variogram_spec(range: int, sill: int, h: int) -> int {
    if h >= range {
        sill
    } else {
        let u = norm_lag(range, h);
        (sill * (3 * u * (SCALE as int) * (SCALE as int) - u * u * u)) / (2 * (SCALE as int) * (
        SCALE as int) * (SCALE as int))
    }
}

/// Derivative of the spherical variogram with respect to its range,
/// `sill * (1.5 h^3 / range^4 - 1.5 h / range^2)`, evaluated in fixed-point
/// arithmetic as `3 sill (u^3 - u S^2) / (2 S^2 range)` with `u` the
/// fixed-point normalized lag `h S / range`.
pub open spec fn variogram_dr_spec(range: int, sill: int, h: int) -> int {
    let u = norm_lag(range, h);
    div_trunc(
        sill * 3 * (u * u * u - u * (SCALE as int) * (SCALE as int)),
        2 * (SCALE as int) * (SCALE as int) * range,
    )
}

impl IsoSpherical {
    /// A valid fitted model: positive range, non-negative sill.
    pub open spec fn wf(self) -> bool {
        self.range > 0 && self.sill >= 0
    }

    pub fn new(range: i64, sill: i64) -> (r: Self)
        ensures
            r.range == range,
            r.sill == sill,
    {
        Self { range, sill }
    }

    /// The variogram at lag `h`: zero at lag zero, rising to the sill at
    /// the range and constant beyond it.
    pub fn variogram(&self, h: i64) -> (r: i64)
        requires
            self.wf(),
            h >= 0,
        ensures
            r == variogram_spec(self.range as int, self.sill as int, h as int),
            0 <= r <= self.sill,
            h == 0 ==> r == 0,
            h >= self.range ==> r == self.sill,
    {
        if h >= self.range {
            return self.sill;
        }
        let hi: i128 = h as i128;
        let ri: i128 = self.range as i128;
        let u: i128 = (hi * 1_000_000) / ri;
        proof {
            assert(SCALE == 1_000_000i64);
            assert(0 <= (hi as int) * 1_000_000 < (ri as int) * 1_000_000) by (nonlinear_arith)
                requires
                    0 <= hi < ri,
            ;
            lemma_multiply_divide_lt((hi as int) * 1_000_000, ri as int, 1_000_000);
            lemma_div_pos_is_pos((hi as int) * 1_000_000, ri as int);
            assert(0 <= u < 1_000_000);
            assert(u as int == norm_lag(self.range as int, h as int));
        }
        proof {
            assert(0 <= (u as int) * (u as int) <= 1_000_000_000_000) by (nonlinear_arith)
                requires
                    0 <= u <= 1_000_000,
            ;
        }
        let u2: i128 = u * u;
        proof {
            assert(0 <= (u2 as int) * (u as int) <= 1_000_000_000_000_000_000)
                by (nonlinear_arith)
                requires
                    0 <= u2 <= 1_000_000_000_000,
                    0 <= u <= 1_000_000,
            ;
        }
        let u3: i128 = u2 * u;
        let term: i128 = 3 * u * 1_000_000 * 1_000_000 - u3;
        proof {
            lemma_spherical_term_bounds(u as int);
            assert(term == 3 * (u as int) * 1_000_000 * 1_000_000 - u3 as int);
            assert(0 <= (self.sill as int) * (term as int) <= (self.sill as int)
                * 2_000_000_000_000_000_000) by (nonlinear_arith)
                requires
                    0 <= self.sill,
                    0 <= term <= 2_000_000_000_000_000_000,
            ;
            assert((self.sill as int) * 2_000_000_000_000_000_000 < 0x8000_0000_0000_0000_0000_0000_0000_0000)
                by (nonlinear_arith)
                requires
                    self.sill <= 0x7fff_ffff_ffff_ffff,
            ;
        }
        let num: i128 = self.sill as i128 * term;
        let r128: i128 = num / 2_000_000_000_000_000_000;
        proof {
            lemma_mul_div_sill_bounds(self.sill as int, term as int);
            assert(r128 as int == variogram_spec(self.range as int, self.sill as int, h as int));
            if h == 0 {
                assert(u == 0);
                assert(term == 0);
                assert(num == 0);
            }
        }
        r128 as i64
    }

    /// The covariogram at lag `h`: sill minus the variogram, so full
    /// covariance `sill` at lag zero, falling to zero at the range.
    pub fn covariogram(&self, h: i64) -> (r: i64)
        requires
            self.wf(),
            h >= 0,
        ensures
            r == self.sill - variogram_spec(self.range as int, self.sill as int, h as int),
            0 <= r <= self.sill,
            h == 0 ==> r == self.sill,
            h >= self.range ==> r == 0,
    {
        self.sill - self.variogram(h)
    }

    /// Derivative of the variogram with respect to the range: non-positive
    /// for lags within the range.  The lag and sill bounds keep the exact
    /// fixed-point evaluation within machine integers.
    pub fn variogram_dr(&self, h: i64) -> (r: i64)
        requires
            self.wf(),
            0 <= h,
            h <= 100 * self.range,
            self.range >= 1_000_000,
            self.sill <= 1_000_000_000_000,
        ensures
            r == variogram_dr_spec(self.range as int, self.sill as int, h as int),
            h <= self.range ==> r <= 0,
    {
        let hi: i128 = h as i128;
        let ri: i128 = self.range as i128;
        let u: i128 = (hi * 1_000_000) / ri;
        proof {
            assert(SCALE == 1_000_000i64);
            assert(0 <= (hi as int) * 1_000_000 <= (ri as int) * 100_000_000) by (nonlinear_arith)
                requires
                    0 <= hi,
                    hi <= 100 * ri,
                    ri > 0,
            ;
            lemma_multiply_divide_le((hi as int) * 1_000_000, ri as int, 100_000_000);
            lemma_div_pos_is_pos((hi as int) * 1_000_000, ri as int);
            assert(0 <= u <= 100_000_000);
            assert(u as int == norm_lag(self.range as int, h as int));
        }
        proof {
            assert(0 <= (u as int) * (u as int) <= 10_000_000_000_000_000) by (nonlinear_arith)
                requires
                    0 <= u <= 100_000_000,
            ;
        }
        let u2: i128 = u * u;
        proof {
            assert(0 <= (u2 as int) * (u as int) <= 1_000_000_000_000_000_000_000_000)
                by (nonlinear_arith)
                requires
                    0 <= u2 <= 10_000_000_000_000_000,
                    0 <= u <= 100_000_000,
            ;
        }
        let u3: i128 = u2 * u;
        let diff: i128 = u3 - u * 1_000_000 * 1_000_000;
        proof {
            assert(-1_000_000_000_000_000_000 <= (u3 as int) - (u as int) * 1_000_000 * 1_000_000)
                by (nonlinear_arith)
                requires
                    0 <= u <= 100_000_000,
                    u3 == u * u * u,
            ;
        }
        proof {
            assert((self.sill as int) * 3 * (diff as int)
                <= 3_000_000_000_000_000_000_000_000_000_000_000_000 && (self.sill as int) * 3 * (
            diff as int) >= -3_000_000_000_000_000_000_000_000_000_000)
                by (nonlinear_arith)
                requires
                    0 <= self.sill <= 1_000_000_000_000,
                    -1_000_000_000_000_000_000 <= diff <= 1_000_000_000_000_000_000_000_000,
            ;
        }
        let num: i128 = self.sill as i128 * 3 * diff;
        let denom: i128 = 2_000_000_000_000 * ri;
        proof {
            assert(denom >= 2_000_000_000_000_000_000) by (nonlinear_arith)
                requires
                    denom == 2_000_000_000_000 * ri,
                    ri >= 1_000_000,
            ;
            assert(1_500_000_000_000_000_000 * (denom as int)
                >= 3_000_000_000_000_000_000_000_000_000_000_000_000) by (nonlinear_arith)
                requires
                    denom >= 2_000_000_000_000_000_000,
            ;
            crate::fixed::lemma_trunc_div_bound(
                num as int,
                denom as int,
                1_500_000_000_000_000_000,
            );
        }
        let r128: i128 = num / denom;
        proof {
            assert(r128 as int == variogram_dr_spec(
                self.range as int,
                self.sill as int,
                h as int,
            ));
            if h <= self.range {
                assert((hi as int) * 1_000_000 <= (ri as int) * 1_000_000) by (nonlinear_arith)
                    requires
                        hi <= ri,
                ;
                lemma_multiply_divide_le((hi as int) * 1_000_000, ri as int, 1_000_000);
                assert(u <= 1_000_000);
                assert((u as int) * (u as int) * (u as int) <= (u as int) * 1_000_000 * 1_000_000)
                    by (nonlinear_arith)
                    requires
                        0 <= u <= 1_000_000,
                ;
                assert((self.sill as int) * 3 * (diff as int) <= 0) by (nonlinear_arith)
                    requires
                        self.sill >= 0,
                        diff <= 0,
                ;
                if num >= 0 {
                    lemma_div_is_ordered(num as int, 0, denom as int);
                    lemma_div_by_multiple(0, denom as int);
                } else {
                    lemma_div_pos_is_pos(-(num as int), denom as int);
                }
            }
        }
        r128 as i64
    }

    /// The names of the fittable parameters of this model.
    pub fn parameter_names() -> (r: Vec<&'static str>)
        ensures
            r@.len() == 1,
            r@[0]@ == "range"@,
    {
        let mut v: Vec<&'static str> = Vec::new();
        v.push("range");
        v
    }
}

/// For a normalized lag `u` in `[0, 10^6]`, the spherical polynomial term
/// `3 u 10^12 - u^3` lies in `[0, 2 * 10^18]`.
proof fn lemma_spherical_term_bounds(u: int)
    requires
        0 <= u <= 1_000_000,
    ensures
        0 <= 3 * u * 1_000_000 * 1_000_000 - u * u * u,
        3 * u * 1_000_000 * 1_000_000 - u * u * u <= 2_000_000_000_000_000_000,
{
    assert(u * u * u <= u * 1_000_000 * 1_000_000) by (nonlinear_arith)
        requires
            0 <= u <= 1_000_000,
    ;
    assert(2_000_000_000_000_000_000 - 3 * u * 1_000_000 * 1_000_000 + u * u * u == (1_000_000 - u)
        * (1_000_000 - u) * (2_000_000 + u)) by (nonlinear_arith);
    assert((1_000_000 - u) * (1_000_000 - u) * (2_000_000 + u) >= 0) by (nonlinear_arith)
        requires
            0 <= u <= 1_000_000,
    ;
}

/// Multiplying a non-negative sill by a term in `[0, 2 * 10^18]` and
/// flooring the quotient by `2 * 10^18` lands in `[0, sill]`.
proof fn lemma_mul_div_sill_bounds(sill: int, term: int)
    requires
        sill >= 0,
        0 <= term <= 2_000_000_000_000_000_000,
    ensures
        0 <= (sill * term) / 2_000_000_000_000_000_000 <= sill,
{
    assert(sill * term >= 0) by (nonlinear_arith)
        requires
            sill >= 0,
            term >= 0,
    ;
    assert(sill * term <= 2_000_000_000_000_000_000 * sill) by (nonlinear_arith)
        requires
            sill >= 0,
            term <= 2_000_000_000_000_000_000,
    ;
    lemma_multiply_divide_le(sill * term, 2_000_000_000_000_000_000, sill);
    lemma_div_pos_is_pos(sill * term, 2_000_000_000_000_000_000);
}

} // verus!
