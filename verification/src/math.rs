//! Small arithmetic helpers and the two-component vector used for pixel
//! coordinates and extents.

use vstd::prelude::*;
use vstd::std_specs::cmp::PartialOrdIs;
use vstd::std_specs::cmp::PartialOrdSpec;
use vstd::arithmetic::div_mod::lemma_fundamental_div_mod;
use vstd::arithmetic::div_mod::lemma_fundamental_div_mod_converse;

verus! {

/// A pair of coordinates or extents.
#[derive(Copy, Debug, PartialEq)]
pub struct Vec2<T> {
    pub x: T,
    pub y: T,
}

impl<T: Copy> Clone for Vec2<T> {
    fn clone(&self) -> (v: Self)
        ensures
            v == *self,
    {
        *self
    }
}

impl Vec2<usize> {
    /// The origin.
    pub fn new() -> (v: Vec2<usize>)
        ensures
            v.x == 0,
            v.y == 0,
    {
        Vec2 { x: 0, y: 0 }
    }
}

/// The quotient of `n` by `d`, rounded up.
pub open spec fn ceil_div(n: int, d: int) -> int {
    (n + d - 1) / d
}

/// The rounded-up quotient is the plain quotient when the division is exact and
/// one more otherwise; in the second case the plain quotient is below `n`.
pub proof fn lemma_ceil_div(n: int, d: int)
    requires
        n >= 0,
        d > 0,
    ensures
        n % d == 0 ==> ceil_div(n, d) == n / d,
        n % d != 0 ==> ceil_div(n, d) == n / d + 1 && n / d < n,
{
    let q = n / d;
    let r = n % d;
    lemma_fundamental_div_mod(n, d);
    assert(d * q == q * d) by (nonlinear_arith);
    if r == 0 {
        lemma_fundamental_div_mod_converse(n + d - 1, d, q, d - 1);
    } else {
        assert((q + 1) * d == q * d + d) by (nonlinear_arith);
        lemma_fundamental_div_mod_converse(n + d - 1, d, q + 1, r - 1);
        assert(q >= 0 && q * d >= 2 * q) by (nonlinear_arith)
            requires
                d >= 2,
                n >= 0,
                q == n / d,
        ;
    }
}

/// The rounded-up quotient is the least number of steps of `d` that reach `n`.
pub proof fn lemma_ceil_div_bounds(n: int, d: int)
    requires
        n >= 0,
        d > 0,
    ensures
        ceil_div(n, d) >= 0,
        (ceil_div(n, d) - 1) * d < n <= ceil_div(n, d) * d,
{
    let q = ceil_div(n, d);
    let k = n / d;
    lemma_ceil_div(n, d);
    lemma_fundamental_div_mod(n, d);
    assert(d * k == k * d) by (nonlinear_arith);
    assert(k >= 0) by (nonlinear_arith)
        requires
            k * d + n % d == n,
            0 <= n % d < d,
            n >= 0,
    ;
    if n % d == 0 {
        assert((q - 1) * d == k * d - d) by (nonlinear_arith)
            requires
                q == k,
        ;
    } else {
        assert((q - 1) * d == k * d && q * d == k * d + d) by (nonlinear_arith)
            requires
                q == k + 1,
        ;
    }
}

/// `value` limited to the interval from `min` to `max`; the lower limit is tested first.
pub fn clamp<T: PartialOrd>(value: T, min: T, max: T) -> (r: T)
    ensures
        r == value || r == min || r == max,
        T::obeys_partial_cmp_spec() ==> r == (if value.is_lt(&min) {
            min
        } else if value.is_gt(&max) {
            max
        } else {
            value
        }),
{
    if value < min {
        return min;
    } else if value > max {
        return max;
    }
    value
}

/// Division of `numinator` by `denominator`, rounded up.
pub fn divide_roundup(numinator: usize, denominator: usize) -> (q: usize)
    requires
        denominator > 0,
    ensures
        q == ceil_div(numinator as int, denominator as int),
{
    proof {
        lemma_ceil_div(numinator as int, denominator as int);
    }
    if numinator % denominator == 0 {
        return numinator / denominator;
    }
    numinator / denominator + 1
}

/// The smaller of `a` and `b`; `b` when they compare equal or do not compare.
pub fn min<T: PartialOrd>(a: T, b: T) -> (r: T)
    ensures
        r == a || r == b,
        T::obeys_partial_cmp_spec() ==> r == (if a.is_lt(&b) {
            a
        } else {
            b
        }),
{
    if a < b {
        return a;
    }
    b
}

} // verus!
