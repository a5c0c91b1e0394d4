//! Shared arithmetic model: truncating division and sums over sample ranges.

use vstd::arithmetic::div_mod::{
    lemma_div_is_ordered, lemma_div_multiples_vanish, lemma_div_pos_is_pos,
};
use vstd::arithmetic::mul::lemma_mul_is_commutative;
use vstd::prelude::*;

verus! {

/// Integer division rounding toward zero, as Rust's `/` does on signed
/// integers, for a positive divisor. Spec-mode `/` is Euclidean, so the
/// negative case is spelled out.
pub open spec fn div_trunc(a: int, d: int) -> int
    recommends
        d >= 1,
{
    if a >= 0 {
        a / d
    } else {
        -((-a) / d)
    }
}

/// The sum of `data[lo..hi)` as a mathematical integer; 0 when the range is
/// empty.
pub open spec fn range_sum(data: Seq<i16>, lo: int, hi: int) -> int
    decreases hi - lo,
{
    if lo >= hi {
        0
    } else {
        data[lo] + range_sum(data, lo + 1, hi)
    }
}

/// Extending a sample range by one element on the right adds that element to
/// the sum.
pub proof fn lemma_range_sum_snoc(data: Seq<i16>, lo: int, hi: int)
    requires
        lo <= hi,
    ensures
        range_sum(data, lo, hi + 1) == range_sum(data, lo, hi) + data[hi],
    decreases hi - lo,
{
    if lo < hi {
        lemma_range_sum_snoc(data, lo + 1, hi);
    } else {
        assert(range_sum(data, hi + 1, hi + 1) == 0);
        assert(range_sum(data, hi, hi + 1) == data[hi]);
        assert(range_sum(data, hi, hi) == 0);
    }
}

/// The sum of `n` samples lies between `n * i16::MIN` and `n * i16::MAX`.
pub proof fn lemma_range_sum_bounds(data: Seq<i16>, lo: int, hi: int)
    requires
        lo <= hi,
    ensures
        (hi - lo) * (i16::MIN as int) <= range_sum(data, lo, hi) <= (hi - lo) * (i16::MAX as int),
    decreases hi - lo,
{
    if lo < hi {
        lemma_range_sum_bounds(data, lo + 1, hi);
        assert((hi - lo) * (i16::MIN as int) == i16::MIN + (hi - lo - 1) * (i16::MIN as int))
            by (nonlinear_arith);
        assert((hi - lo) * (i16::MAX as int) == i16::MAX + (hi - lo - 1) * (i16::MAX as int))
            by (nonlinear_arith);
    }
}

/// A truncated quotient stays inside a bracket `[lo, hi]` that contains zero
/// and whose endpoints scale to bracket the dividend.
pub proof fn lemma_div_trunc_bounds(s: int, d: int, lo: int, hi: int)
    requires
        d >= 1,
        lo <= 0 <= hi,
        d * lo <= s <= d * hi,
    ensures
        lo <= div_trunc(s, d) <= hi,
{
    if s >= 0 {
        lemma_div_pos_is_pos(s, d);
        lemma_div_is_ordered(s, d * hi, d);
        lemma_div_multiples_vanish(hi, d);
        lemma_mul_is_commutative(d, hi);
    } else {
        assert(d * -lo == -(d * lo)) by (nonlinear_arith);
        lemma_div_pos_is_pos(-s, d);
        lemma_div_is_ordered(-s, d * -lo, d);
        lemma_div_multiples_vanish(-lo, d);
        lemma_mul_is_commutative(d, -lo);
    }
}

} // verus!
