//! Fixed-point arithmetic helpers shared across the engine: truncating
//! division as machine division does it, magnitude bounds for it, and an
//! exact integer square root.

use vstd::arithmetic::div_mod::lemma_div_is_ordered;
use vstd::arithmetic::div_mod::lemma_div_pos_is_pos;
use vstd::arithmetic::div_mod::lemma_multiply_divide_le;
use vstd::prelude::*;

verus! {

/// Division rounding toward zero, as machine division of signed values
/// does.
pub open spec fn div_trunc(a: int, d: int) -> int
    recommends
        d > 0,
{
    if a >= 0 {
        a / d
    } else {
        -((-a) / d)
    }
}

/// Truncating division shrinks magnitude: a quotient of something within
/// `m * d` stays within `m`.
pub proof fn lemma_trunc_div_bound(a: int, d: int, m: int)
    requires
        d > 0,
        m >= 0,
        -(m * d) <= a <= m * d,
    ensures
        -m <= div_trunc(a, d) <= m,
{
    if a >= 0 {
        lemma_multiply_divide_le(a, d, m);
        lemma_div_pos_is_pos(a, d);
    } else {
        lemma_multiply_divide_le(-a, d, m);
        lemma_div_pos_is_pos(-a, d);
    }
}

/// Truncating division by a positive divisor never reorders its arguments.
pub proof fn lemma_div_trunc_monotone(a: int, b: int, d: int)
    requires
        a <= b,
        d > 0,
    ensures
        div_trunc(a, d) <= div_trunc(b, d),
{
    if a >= 0 {
        lemma_div_is_ordered(a, b, d);
    } else if b < 0 {
        lemma_div_is_ordered(-b, -a, d);
    } else {
        lemma_div_pos_is_pos(-a, d);
        lemma_div_pos_is_pos(b, d);
    }
}

/// The integer square root: the largest `r` with `r * r <= x`.
pub open spec fn isqrt_spec(x: int) -> int
    decreases x,
{
    if x < 1 {
        0
    } else {
        let r = isqrt_spec(x - 1);
        if (r + 1) * (r + 1) <= x {
            r + 1
        } else {
            r
        }
    }
}

/// The integer square root brackets its argument between consecutive
/// squares.
pub proof fn lemma_isqrt_bracket(x: int)
    requires
        x >= 0,
    ensures
        isqrt_spec(x) >= 0,
        isqrt_spec(x) * isqrt_spec(x) <= x,
        x < (isqrt_spec(x) + 1) * (isqrt_spec(x) + 1),
    decreases x,
{
    if x >= 1 {
        lemma_isqrt_bracket(x - 1);
        let r = isqrt_spec(x - 1);
        if (r + 1) * (r + 1) <= x {
            assert(x < (r + 2) * (r + 2)) by (nonlinear_arith)
                requires
                    r >= 0,
                    x - 1 < (r + 1) * (r + 1),
            ;
        }
    }
}

/// Any non-negative value bracketed between consecutive squares is the
/// integer square root.
pub proof fn lemma_isqrt_unique(x: int, r: int)
    requires
        x >= 0,
        r >= 0,
        r * r <= x,
        x < (r + 1) * (r + 1),
    ensures
        r == isqrt_spec(x),
{
    lemma_isqrt_bracket(x);
    let s = isqrt_spec(x);
    if r < s {
        assert((r + 1) * (r + 1) <= s * s) by (nonlinear_arith)
            requires
                0 <= r,
                r + 1 <= s,
        ;
    }
    if s < r {
        assert((s + 1) * (s + 1) <= r * r) by (nonlinear_arith)
            requires
                0 <= s,
                s + 1 <= r,
        ;
    }
}

/// Exact integer square root by bisection.
pub fn isqrt(x: i128) -> (r: i64)
    requires
        0 <= x <= 1_000_000_000_000_000_000_000_000_000_000_000_000,
    ensures
        r as int == isqrt_spec(x as int),
        0 <= r <= 1_000_000_000_000_000_000,
        (r as int) * (r as int) <= x as int,
        x < (r as int + 1) * (r as int + 1),
{
    let mut lo: i128 = 0;
    let mut hi: i128 = 1_000_000_000_000_000_001;
    proof {
        assert((hi as int) * (hi as int) > x as int) by (nonlinear_arith)
            requires
                hi == 1_000_000_000_000_000_001,
                x <= 1_000_000_000_000_000_000_000_000_000_000_000_000,
        ;
    }
    while lo + 1 < hi
        invariant
            0 <= lo < hi <= 1_000_000_000_000_000_001,
            (lo as int) * (lo as int) <= x as int,
            (x as int) < (hi as int) * (hi as int),
        decreases hi - lo,
    {
        let mid: i128 = lo + (hi - lo) / 2;
        proof {
            assert(0 < mid < 1_000_000_000_000_000_001);
            assert((mid as int) * (mid as int) <= 1_000_000_000_000_000_000_000_000_000_000_000_000)
                by (nonlinear_arith)
                requires
                    0 < mid <= 1_000_000_000_000_000_000,
            ;
        }
        if mid * mid <= x {
            lo = mid;
        } else {
            hi = mid;
        }
    }
    proof {
        assert((x as int) < ((lo as int) + 1) * ((lo as int) + 1)) by (nonlinear_arith)
            requires
                lo + 1 >= hi,
                0 <= lo,
                0 < hi,
                (x as int) < (hi as int) * (hi as int),
        ;
        lemma_isqrt_unique(x as int, lo as int);
    }
    lo as i64
}

} // verus!
