//! Rate reducer: decimates a mono sample sequence to a lower rate by
//! non-uniform block averaging over exact rational boundaries.

use crate::arith::{
    div_trunc, lemma_div_trunc_bounds, lemma_range_sum_bounds, lemma_range_sum_snoc, range_sum,
};
use vstd::arithmetic::div_mod::{
    lemma_div_is_ordered, lemma_div_multiples_vanish, lemma_div_pos_is_pos, lemma_remainder_lower,
};
use vstd::arithmetic::mul::{
    lemma_mul_inequality, lemma_mul_is_commutative, lemma_mul_nonnegative,
};
use vstd::prelude::*;

verus! {

/// The source-index boundary of output sample `i`: `floor(i * src / tgt)`,
/// computed with exact integer arithmetic.
pub open spec fn boundary(i: int, src: int, tgt: int) -> int
    recommends
        1 <= tgt <= src,
{
    i * src / tgt
}

/// The number of output samples produced from `len` input samples:
/// `floor(len * tgt / src)`.
pub open spec fn out_len(len: int, src: int, tgt: int) -> int
    recommends
        1 <= tgt <= src,
{
    len * tgt / src
}

/// First source index of the averaging window of output sample `i`.
pub open spec fn window_lo(i: int, src: int, tgt: int) -> int {
    boundary(i - 1, src, tgt)
}

/// One past the last source index of the averaging window of output sample
/// `i`; clamped so that the window never becomes empty when rounding makes
/// two consecutive boundaries coincide.
pub open spec fn window_hi(i: int, src: int, tgt: int) -> int {
    let lo = window_lo(i, src, tgt);
    let b = boundary(i, src, tgt);
    if b > lo {
        b
    } else {
        lo + 1
    }
}

/// Output sample `i` (for `i >= 1`): the round-toward-zero average of the
/// source samples in its window.
pub open spec fn reduce_sample(data: Seq<i16>, src: int, tgt: int, i: int) -> int {
    let lo = window_lo(i, src, tgt);
    let hi = window_hi(i, src, tgt);
    div_trunc(range_sum(data, lo, hi), hi - lo)
}

/// The whole decimated sequence: sample 0 is silence, every later sample the
/// truncated average of its window.
pub open spec fn reduced_seq(data: Seq<i16>, src: int, tgt: int) -> Seq<i16>
    recommends
        1 <= tgt <= src,
{
    Seq::new(
        out_len(data.len() as int, src, tgt) as nat,
        |i: int|
            if i == 0 {
                0i16
            } else {
                reduce_sample(data, src, tgt, i) as i16
            },
    )
}

/// Boundaries never decrease: `boundary(i) <= boundary(j)` whenever `i <= j`.
pub proof fn lemma_boundary_monotonic(src: int, tgt: int, i: int, j: int)
    requires
        1 <= tgt <= src,
        i <= j,
    ensures
        boundary(i, src, tgt) <= boundary(j, src, tgt),
{
    lemma_mul_inequality(i, j, src);
    lemma_div_is_ordered(i * src, j * src, tgt);
}

/// No averaging window is empty: every divisor used by the reducer is at
/// least 1, so the averaging rule never divides by zero.
pub proof fn lemma_window_never_empty(src: int, tgt: int, i: int)
    requires
        1 <= tgt <= src,
    ensures
        window_hi(i, src, tgt) - window_lo(i, src, tgt) >= 1,
{
}

/// The output is never longer than the input.
pub proof fn lemma_out_len_le(len: int, src: int, tgt: int)
    requires
        1 <= tgt <= src,
        0 <= len,
    ensures
        0 <= out_len(len, src, tgt) <= len,
{
    lemma_mul_nonnegative(len, tgt);
    lemma_div_pos_is_pos(len * tgt, src);
    lemma_mul_inequality(tgt, src, len);
    lemma_mul_is_commutative(tgt, len);
    lemma_mul_is_commutative(src, len);
    lemma_div_is_ordered(len * tgt, len * src, src);
    lemma_div_multiples_vanish(len, src);
}

/// Every boundary an output sample reads lies inside the input: at most `len`
/// for indices up to the output length, and strictly below `len` before it.
pub proof fn lemma_boundary_in_range(len: int, src: int, tgt: int, i: int)
    requires
        1 <= tgt <= src,
        0 <= len,
        0 <= i <= out_len(len, src, tgt),
    ensures
        boundary(i, src, tgt) <= len,
        i < out_len(len, src, tgt) ==> boundary(i, src, tgt) < len,
{
    let nn = out_len(len, src, tgt);
    lemma_mul_nonnegative(len, tgt);
    lemma_mul_inequality(i, nn, src);
    lemma_remainder_lower(len * tgt, src);
    lemma_mul_is_commutative(len * tgt / src, src);
    lemma_div_is_ordered(i * src, len * tgt, tgt);
    lemma_div_multiples_vanish(len, tgt);
    lemma_mul_is_commutative(tgt, len);
    if i < nn {
        lemma_mul_inequality(i, nn - 1, src);
        assert((nn - 1) * src == nn * src - src) by (nonlinear_arith);
        assert((len - 1) * tgt == len * tgt - tgt) by (nonlinear_arith);
        lemma_div_is_ordered(i * src, (len - 1) * tgt, tgt);
        lemma_div_multiples_vanish(len - 1, tgt);
        lemma_mul_is_commutative(tgt, len - 1);
    }
}

/// Decimates mono samples from `source_rate` to `target_rate` by averaging
/// the source samples between consecutive boundaries, truncating toward
/// zero. The averaging rule never writes output sample 0, which stays at its
/// zero default: the decimated stream always starts with one sample of
/// silence. That edge is kept deliberately, not smoothed over.
pub fn reduce_rate(data: &Vec<i16>, source_rate: u64, target_rate: u64) -> (r: Vec<i16>)
    requires
        1 <= target_rate <= source_rate,
        data@.len() * source_rate <= u64::MAX,
    ensures
        r@.len() == out_len(data@.len() as int, source_rate as int, target_rate as int),
        r@.len() > 0 ==> r@[0] == 0,
        forall|i: int|
            1 <= i < r@.len() ==> r@[i] == reduce_sample(
                data@,
                source_rate as int,
                target_rate as int,
                i,
            ),
{
    let n: usize = data.len();
    let ghost len: int = n as int;
    let ghost src: int = source_rate as int;
    let ghost tgt: int = target_rate as int;
    proof {
        lemma_mul_inequality(tgt, src, len);
        lemma_mul_is_commutative(tgt, len);
        lemma_mul_is_commutative(src, len);
        lemma_out_len_le(len, src, tgt);
    }
    let final_size: usize = ((n as u64) * target_rate / source_rate) as usize;
    let mut out: Vec<i16> = Vec::new();
    if final_size == 0 {
        return out;
    }
    out.push(0i16);
    let mut prindex: u64 = 0;
    let mut i: usize = 1;
    proof {
        lemma_boundary_in_range(len, src, tgt, 0);
    }
    while i < final_size
        invariant
            1 <= tgt <= src,
            source_rate == src,
            target_rate == tgt,
            len == data@.len(),
            len * src <= u64::MAX,
            len <= u64::MAX,
            len <= usize::MAX,
            final_size == out_len(len, src, tgt),
            1 <= final_size <= len,
            1 <= i <= final_size,
            prindex == boundary(i - 1, src, tgt),
            prindex < len,
            out@.len() == i,
            out@[0] == 0,
            forall|j: int| 1 <= j < i ==> out@[j] == reduce_sample(data@, src, tgt, j),
        decreases final_size - i,
    {
        proof {
            lemma_mul_inequality(i as int, final_size as int, src);
            lemma_mul_inequality(final_size as int, len, src);
            lemma_boundary_in_range(len, src, tgt, i as int);
            lemma_boundary_monotonic(src, tgt, i - 1, i as int);
        }
        let nexindex: u64 = (i as u64) * source_rate / target_rate;
        let mut acc: i128 = data[prindex as usize] as i128;
        let mut idx: u64 = prindex + 1;
        proof {
            assert(range_sum(data@, prindex + 1, prindex + 1) == 0);
            assert(range_sum(data@, prindex as int, prindex + 1) == data@[prindex as int]);
        }
        while idx < nexindex
            invariant
                len == data@.len(),
                prindex < idx,
                nexindex <= len,
                idx <= if nexindex > prindex {
                    nexindex as int
                } else {
                    prindex + 1
                },
                len <= u64::MAX,
                len <= usize::MAX,
                acc == range_sum(data@, prindex as int, idx as int),
                (idx - prindex) * (i16::MIN as int) <= acc <= (idx - prindex) * (i16::MAX as int),
            decreases nexindex - idx,
        {
            proof {
                lemma_range_sum_snoc(data@, prindex as int, idx as int);
                lemma_range_sum_bounds(data@, prindex as int, idx + 1);
                assert((idx + 1 - prindex) * (i16::MIN as int) >= 0x1_0000_0000_0000_0001
                    * (i16::MIN as int) && (idx + 1 - prindex) * (i16::MAX as int)
                    <= 0x1_0000_0000_0000_0001 * (i16::MAX as int)) by (nonlinear_arith)
                    requires
                        0 <= idx + 1 - prindex <= 0x1_0000_0000_0000_0001,
                ;
            }
            acc = acc + (data[idx as usize] as i128);
            idx = idx + 1;
        }
        let num: u64 = if nexindex > prindex {
            nexindex - prindex
        } else {
            1
        };
        proof {
            lemma_range_sum_bounds(data@, prindex as int, prindex + 1);
            lemma_div_trunc_bounds(acc as int, num as int, i16::MIN as int, i16::MAX as int);
        }
        let q: i128 = acc / (num as i128);
        out.push(q as i16);
        prindex = nexindex;
        i = i + 1;
    }
    out
}

/// With matched rates the reducer keeps the length of its input, and apart
/// from the silent sample at index 0 it reproduces the input shifted by one:
/// any sequence meeting the contract of `reduce_rate` with equal rates has
/// `r[i] == data[i - 1]` for every `i >= 1`.
pub proof fn lemma_matched_rates(data: Seq<i16>, r: Seq<i16>, rate: int)
    requires
        1 <= rate,
        r.len() == out_len(data.len() as int, rate, rate),
        r.len() > 0 ==> r[0] == 0,
        forall|i: int| 1 <= i < r.len() ==> r[i] == reduce_sample(data, rate, rate, i),
    ensures
        r.len() == data.len(),
        forall|i: int| 1 <= i < r.len() ==> r[i] == data[i - 1],
{
    lemma_mul_is_commutative(data.len() as int, rate);
    lemma_div_multiples_vanish(data.len() as int, rate);
    assert forall|i: int| 1 <= i < r.len() implies r[i] == data[i - 1] by {
        lemma_div_multiples_vanish(i, rate);
        lemma_div_multiples_vanish(i - 1, rate);
        lemma_mul_is_commutative(i, rate);
        lemma_mul_is_commutative(i - 1, rate);
        assert(boundary(i, rate, rate) == i);
        assert(boundary(i - 1, rate, rate) == i - 1);
        assert(range_sum(data, i, i) == 0);
        assert(range_sum(data, i - 1, i) == data[i - 1]);
        assert(div_trunc(data[i - 1] as int, 1) == data[i - 1]);
    }
}

} // verus!
