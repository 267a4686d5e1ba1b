//! Integer square root.
//!
//! The grid search scores a candidate by the sum of the Euclidean distances
//! to the deposits of a field.  Distances are irrational in general, so the
//! engine works with the floor of the square root of a finely rescaled
//! squared distance, which keeps the scoring exact, integral and
//! deterministic.

use vstd::prelude::*;

verus! {

/// Exclusive upper bound on the root returned by [`isqrt`].
pub const ISQRT_BOUND: u128 = 9007199254740992;

/// Exclusive upper bound on the input of [`isqrt`]; this is
/// `ISQRT_BOUND * ISQRT_BOUND`.
pub const ISQRT_DOMAIN: u128 = 81129638414606681695789005144064;

/// `r` is the floor of the square root of `x`.
pub open spec fn is_sqrt_floor(x: int, r: int) -> bool {
    &&& 0 <= r
    &&& r * r <= x
    &&& x < (r + 1) * (r + 1)
}

/// The floor of the square root of a non-negative integer.
pub closed spec fn sqrt_floor(x: int) -> int {
    choose|r: int| is_sqrt_floor(x, r)
}

/// Every non-negative integer has a square-root floor, and [`sqrt_floor`]
/// denotes it.
pub proof fn lemma_sqrt_floor_exists(x: int)
    requires
        0 <= x,
    ensures
        is_sqrt_floor(x, sqrt_floor(x)),
    decreases x,
{
    if x == 0 {
        assert(is_sqrt_floor(0, 0));
    } else {
        lemma_sqrt_floor_exists(x - 1);
        let r = sqrt_floor(x - 1);
        if x < (r + 1) * (r + 1) {
            assert(is_sqrt_floor(x, r));
        } else {
            assert(x == (r + 1) * (r + 1));
            assert((r + 1) * (r + 1) < (r + 2) * (r + 2)) by (nonlinear_arith)
                requires 0 <= r;
            assert(is_sqrt_floor(x, r + 1));
        }
    }
}

/// The square-root floor is unique.
pub proof fn lemma_sqrt_floor_unique(x: int, r1: int, r2: int)
    requires
        is_sqrt_floor(x, r1),
        is_sqrt_floor(x, r2),
    ensures
        r1 == r2,
{
    assert(r1 == r2) by (nonlinear_arith)
        requires
            0 <= r1,
            0 <= r2,
            r1 * r1 <= x,
            x < (r1 + 1) * (r1 + 1),
            r2 * r2 <= x,
            x < (r2 + 1) * (r2 + 1);
}

/// A square-root floor below a bound forces the input below the bound's
/// successor square.
pub proof fn lemma_sqrt_floor_bound(x: int, b: int)
    requires
        0 <= x,
        0 <= b,
        x < (b + 1) * (b + 1),
    ensures
        sqrt_floor(x) <= b,
{
    lemma_sqrt_floor_exists(x);
    let r = sqrt_floor(x);
    assert(r <= b) by (nonlinear_arith)
        requires
            0 <= r,
            0 <= b,
            r * r <= x,
            x < (b + 1) * (b + 1);
}

/// Floor of the square root, by binary search.
pub fn isqrt(x: u128) -> (r: u64)
    requires
        x < ISQRT_DOMAIN,
    ensures
        is_sqrt_floor(x as int, r as int),
        r as int == sqrt_floor(x as int),
{
    let mut lo: u128 = 0;
    let mut hi: u128 = ISQRT_BOUND;
    proof {
        assert(ISQRT_BOUND * ISQRT_BOUND == ISQRT_DOMAIN) by (nonlinear_arith);
    }
    while lo + 1 < hi
        invariant
            0 <= lo < hi <= ISQRT_BOUND,
            (lo * lo) as int <= x as int,
            (x as int) < (hi as int) * (hi as int),
        decreases hi - lo,
    {
        let mid = lo + (hi - lo) / 2;
        proof {
            assert(mid * mid <= ISQRT_BOUND * ISQRT_BOUND) by (nonlinear_arith)
                requires 0 <= mid <= ISQRT_BOUND;
            assert(ISQRT_BOUND * ISQRT_BOUND == ISQRT_DOMAIN) by (nonlinear_arith);
        }
        if mid * mid <= x {
            lo = mid;
        } else {
            hi = mid;
        }
    }
    proof {
        assert(is_sqrt_floor(x as int, lo as int));
        lemma_sqrt_floor_exists(x as int);
        lemma_sqrt_floor_unique(x as int, lo as int, sqrt_floor(x as int));
    }
    lo as u64
}

} // verus!
