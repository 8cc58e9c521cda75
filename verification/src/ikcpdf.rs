//! Indicator-kriging conditional probability distributions.
//!
//! An [`IKCPDF`] pairs a threshold value with the estimated cumulative
//! probability that the true value lies at or below it, one entry per
//! threshold in ascending threshold order.  Independent per-threshold
//! kriging solves need not produce a monotone sequence, so [`IKCPDF::correct`]
//! enforces the order relation: average a forward running maximum with a
//! backward running minimum, clamp to `[0, 1]`, and force the last
//! probability to exactly one.

use vstd::arithmetic::div_mod::lemma_div_multiples_vanish;
use vstd::prelude::*;

use crate::fixed::{div_trunc, lemma_div_trunc_monotone};
use crate::SCALE;

verus! {

/// A per-target conditional cumulative distribution: `p[k]` is the
/// probability (fixed-point, [`SCALE`] is `1.0`) that the value lies at or
/// below the threshold `x[k]`.
#[derive(Clone, Debug, Default)]
pub struct IKCPDF {
    pub p: Vec<i64>,
    pub x: Vec<i64>,
}

/// Clamp a probability into `[0, SCALE]`.
pub open spec fn clamp01(v: int) -> i64 {
    if v > SCALE {
        SCALE
    } else if v < 0 {
        0
    } else {
        v as i64
    }
}

/// Maximum of `s[0..=i]`: the forward running maximum at index `i`.
pub open spec fn prefix_max(s: Seq<i64>, i: int) -> i64
    recommends
        0 <= i < s.len(),
    decreases i,
{
    if i <= 0 {
        s[0]
    } else if s[i] > prefix_max(s, i - 1) {
        s[i]
    } else {
        prefix_max(s, i - 1)
    }
}

/// Minimum of `s[i..]`: the backward running minimum at index `i`.
pub open spec fn suffix_min(s: Seq<i64>, i: int) -> i64
    recommends
        0 <= i < s.len(),
    decreases s.len() - i,
{
    if i >= s.len() - 1 {
        s[s.len() - 1]
    } else if s[i] < suffix_min(s, i + 1) {
        s[i]
    } else {
        suffix_min(s, i + 1)
    }
}

/// The order-relation correction of a raw probability sequence: replace
/// entry `i` by the average of the forward running maximum and the backward
/// running minimum at `i`, clamp it into `[0, SCALE]`, then force the last
/// entry to exactly `SCALE`.
pub open spec fn corrected(s: Seq<i64>) -> Seq<i64>
    recommends
        s.len() > 0,
{
    let avg = Seq::new(
        s.len(),
        |i: int| clamp01(div_trunc(prefix_max(s, i) + suffix_min(s, i), 2)),
    );
    avg.update(s.len() - 1, SCALE)
}

/// A probability sequence that is a valid cumulative distribution:
/// every entry in `[0, SCALE]`, non-decreasing, and ending at `SCALE`.
pub open spec fn is_valid_cdf(s: Seq<i64>) -> bool {
    &&& s.len() > 0
    &&& forall|i: int| 0 <= i < s.len() ==> 0 <= #[trigger] s[i] <= SCALE
    &&& forall|i: int, j: int| 0 <= i <= j < s.len() ==> #[trigger] s[i] <= #[trigger] s[j]
    &&& s[s.len() - 1] == SCALE
}

impl IKCPDF {
    pub fn with_capacity(capacity: usize) -> (r: Self)
        ensures
            r.p@ =~= Seq::<i64>::empty(),
            r.x@ =~= Seq::<i64>::empty(),
    {
        Self { p: Vec::with_capacity(capacity), x: Vec::with_capacity(capacity) }
    }

    /// Order-relation correction, in place.  The threshold sequence `x` is
    /// untouched; the probability sequence becomes exactly [`corrected`] of
    /// its old value, which [`lemma_corrected_is_valid_cdf`] shows is a
    /// valid cumulative distribution.
    pub fn correct(&mut self)
        requires
            old(self).p.len() > 0,
        ensures
            final(self).p@ == corrected(old(self).p@),
            final(self).x == old(self).x,
            is_valid_cdf(final(self).p@),
    {
        let n: usize = self.p.len();
        let ghost orig: Seq<i64> = self.p@;

        // Forward running maximum of the raw sequence.
        let mut fwd: Vec<i64> = Vec::with_capacity(n);
        let mut curr_max: i64 = self.p[0];
        let mut i: usize = 0;
        while i < n
            invariant
                i <= n,
                n == orig.len(),
                n > 0,
                self.p@ == orig,
                fwd.len() == i,
                forall|k: int| 0 <= k < i ==> fwd@[k] == prefix_max(orig, k),
                i > 0 ==> curr_max == prefix_max(orig, i - 1),
                i == 0 ==> curr_max == orig[0],
            decreases n - i,
        {
            let v: i64 = self.p[i];
            if i == 0 || v > curr_max {
                curr_max = v;
            }
            fwd.push(curr_max);
            i = i + 1;
        }

        // Backward running minimum, built from the tail; entry j of `rev_min`
        // is the suffix minimum at index n - 1 - j.
        let mut rev_min: Vec<i64> = Vec::with_capacity(n);
        let mut curr_min: i64 = self.p[n - 1];
        let mut j: usize = 0;
        while j < n
            invariant
                j <= n,
                n == orig.len(),
                n > 0,
                self.p@ == orig,
                rev_min.len() == j,
                forall|k: int| 0 <= k < j ==> rev_min@[k] == suffix_min(orig, n - 1 - k),
                j > 0 ==> curr_min == suffix_min(orig, n - j),
                j == 0 ==> curr_min == orig[n - 1],
            decreases n - j,
        {
            let v: i64 = self.p[n - 1 - j];
            if j == 0 || v < curr_min {
                curr_min = v;
            }
            rev_min.push(curr_min);
            j = j + 1;
        }

        // Average the two envelopes and clamp; the last entry becomes
        // exactly one.
        let mut out: Vec<i64> = Vec::with_capacity(n);
        let mut i: usize = 0;
        while i < n
            invariant
                i <= n,
                n == orig.len(),
                n > 0,
                fwd.len() == n,
                rev_min.len() == n,
                forall|k: int| 0 <= k < n ==> fwd@[k] == prefix_max(orig, k),
                forall|k: int| 0 <= k < n ==> rev_min@[k] == suffix_min(orig, n - 1 - k),
                out.len() == i,
                forall|k: int|
                    0 <= k < i && k < n - 1 ==> out@[k] == clamp01(
                        div_trunc(prefix_max(orig, k) + suffix_min(orig, k), 2),
                    ),
                i == n ==> out@[n - 1] == SCALE,
            decreases n - i,
        {
            if i == n - 1 {
                out.push(SCALE);
            } else {
                let f: i64 = fwd[i];
                let b: i64 = rev_min[n - 1 - i];
                assert(f == prefix_max(orig, i as int) && b == suffix_min(orig, i as int));
                let sum: i128 = f as i128 + b as i128;
                let half: i128 = sum / 2;
                let c: i64 = if half > SCALE as i128 {
                    SCALE
                } else if half < 0 {
                    0
                } else {
                    half as i64
                };
                out.push(c);
            }
            i = i + 1;
        }
        self.p = out;
        proof {
            let res = corrected(orig);
            assert(self.p@ =~= res);
            lemma_corrected_is_valid_cdf(orig);
        }
    }
}

/// The forward running maximum is non-decreasing in its index.
proof fn lemma_prefix_max_monotone(c: Seq<i64>, i: int, j: int)
    requires
        0 <= i <= j < c.len(),
    ensures
        prefix_max(c, i) <= prefix_max(c, j),
    decreases j - i,
{
    if i < j {
        lemma_prefix_max_monotone(c, i, j - 1);
        assert(prefix_max(c, j - 1) <= prefix_max(c, j));
    }
}

/// The backward running minimum is non-decreasing in its index.
proof fn lemma_suffix_min_monotone(c: Seq<i64>, i: int, j: int)
    requires
        0 <= i <= j < c.len(),
    ensures
        suffix_min(c, i) <= suffix_min(c, j),
    decreases j - i,
{
    if i < j {
        lemma_suffix_min_monotone(c, i + 1, j);
        assert(suffix_min(c, i) <= suffix_min(c, i + 1));
    }
}

/// On a non-decreasing sequence both envelopes collapse to the sequence
/// itself.
proof fn lemma_envelopes_of_monotone(c: Seq<i64>, k: int)
    requires
        0 <= k < c.len(),
        forall|i: int, j: int| 0 <= i <= j < c.len() ==> #[trigger] c[i] <= #[trigger] c[j],
    ensures
        prefix_max(c, k) == c[k],
        suffix_min(c, k) == c[k],
{
    lemma_prefix_max_of_monotone(c, k);
    lemma_suffix_min_of_monotone(c, k);
}

proof fn lemma_prefix_max_of_monotone(c: Seq<i64>, k: int)
    requires
        0 <= k < c.len(),
        forall|i: int, j: int| 0 <= i <= j < c.len() ==> #[trigger] c[i] <= #[trigger] c[j],
    ensures
        prefix_max(c, k) == c[k],
    decreases k,
{
    if k > 0 {
        lemma_prefix_max_of_monotone(c, k - 1);
    }
}

proof fn lemma_suffix_min_of_monotone(c: Seq<i64>, k: int)
    requires
        0 <= k < c.len(),
        forall|i: int, j: int| 0 <= i <= j < c.len() ==> #[trigger] c[i] <= #[trigger] c[j],
    ensures
        suffix_min(c, k) == c[k],
    decreases c.len() - k,
{
    if k < c.len() - 1 {
        lemma_suffix_min_of_monotone(c, k + 1);
    }
}

/// The order-relation correction always yields a valid cumulative
/// distribution: entries in `[0, SCALE]`, non-decreasing, last exactly
/// `SCALE`.
pub proof fn lemma_corrected_is_valid_cdf(s: Seq<i64>)
    requires
        s.len() > 0,
    ensures
        is_valid_cdf(corrected(s)),
        corrected(s).len() == s.len(),
{
    let n = s.len() as int;
    let res = corrected(s);
    assert forall|i: int, j: int| 0 <= i <= j < n implies #[trigger] res[i] <= #[trigger] res[j] by {
        if j < n - 1 && i < j {
            lemma_prefix_max_monotone(s, i, j);
            lemma_suffix_min_monotone(s, i, j);
            lemma_div_trunc_monotone(
                prefix_max(s, i) + suffix_min(s, i),
                prefix_max(s, j) + suffix_min(s, j),
                2,
            );
        }
    }
}

/// The order-relation correction is idempotent: correcting an already
/// corrected sequence changes nothing.
pub proof fn lemma_corrected_idempotent(s: Seq<i64>)
    requires
        s.len() > 0,
    ensures
        corrected(corrected(s)) == corrected(s),
{
    let t = corrected(s);
    let n = s.len() as int;
    lemma_corrected_is_valid_cdf(s);
    assert forall|k: int| 0 <= k < n implies #[trigger] corrected(t)[k] == t[k] by {
        if k < n - 1 {
            lemma_envelopes_of_monotone(t, k);
            assert(corrected(t)[k] == clamp01(div_trunc(t[k] + t[k], 2)));
            lemma_div_multiples_vanish(t[k] as int, 2);
            assert((2 * (t[k] as int)) / 2 == t[k] as int);
            assert(t[k] + t[k] == 2 * (t[k] as int));
        }
    }
    assert(corrected(t) =~= t);
}

} // verus!
