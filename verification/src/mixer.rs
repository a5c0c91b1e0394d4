//! Channel mixer: collapses interleaved multi-channel samples into one mono
//! sequence by block-averaging each frame.

use crate::arith::{
    div_trunc, lemma_div_trunc_bounds, lemma_range_sum_bounds, lemma_range_sum_snoc, range_sum,
};
use vstd::arithmetic::div_mod::{lemma_div_is_ordered, lemma_remainder_lower};
use vstd::arithmetic::mul::lemma_mul_inequality;
use vstd::prelude::*;

verus! {

/// The mono sample produced for frame `i`: the round-toward-zero average of
/// the `channels` interleaved samples of that frame.
pub open spec fn mix_sample(data: Seq<i16>, channels: int, i: int) -> int
    recommends
        channels >= 1,
{
    div_trunc(range_sum(data, i * channels, i * channels + channels), channels)
}

/// The whole mono sequence that mixing produces: one averaged sample per
/// complete frame of `channels` interleaved samples.
pub open spec fn mixed_seq(data: Seq<i16>, channels: int) -> Seq<i16>
    recommends
        channels >= 1,
{
    Seq::new(
        (data.len() as int / channels) as nat,
        |i: int| mix_sample(data, channels, i) as i16,
    )
}

/// Averages each frame of `channels` interleaved samples down to one mono
/// sample, truncating toward zero; trailing samples of an incomplete frame
/// are dropped.
pub fn mix_to_mono(data: &Vec<i16>, channels: u16) -> (r: Vec<i16>)
    requires
        channels >= 1,
    ensures
        r@.len() == data@.len() as int / channels as int,
        forall|i: int| 0 <= i < r@.len() ==> r@[i] == mix_sample(data@, channels as int, i),
{
    let n = data.len();
    let c = channels as usize;
    let final_size: usize = n / c;
    let ghost cc: int = channels as int;
    proof {
        lemma_remainder_lower(data@.len() as int, cc);
    }
    let mut out: Vec<i16> = Vec::new();
    let mut index: usize = 0;
    for i in 0..final_size
        invariant
            1 <= cc <= u16::MAX,
            c == cc,
            channels == cc,
            final_size == data@.len() as int / cc,
            final_size * cc <= data@.len() <= usize::MAX,
            out@.len() == i,
            index == i * cc,
            forall|j: int| 0 <= j < i ==> out@[j] == mix_sample(data@, cc, j),
    {
        proof {
            lemma_mul_inequality(i + 1, final_size as int, cc);
            assert((i + 1) * cc == i * cc + cc) by (nonlinear_arith);
        }
        let mut acc: i64 = 0;
        let mut ch: usize = 0;
        while ch < c
            invariant
                1 <= cc <= u16::MAX,
                c == cc,
                0 <= ch <= cc,
                index == i * cc + ch,
                i * cc + cc <= data@.len() <= usize::MAX,
                acc == range_sum(data@, i * cc, i * cc + ch),
                (ch as int) * (i16::MIN as int) <= acc <= (ch as int) * (i16::MAX as int),
            decreases c - ch,
        {
            proof {
                lemma_range_sum_snoc(data@, i * cc, i * cc + ch);
                lemma_range_sum_bounds(data@, i * cc, i * cc + ch + 1);
                assert((ch + 1) * (i16::MIN as int) >= 65536 * (i16::MIN as int)
                    && (ch + 1) * (i16::MAX as int) <= 65536 * (i16::MAX as int))
                    by (nonlinear_arith)
                    requires
                        0 <= ch < 65536,
                ;
            }
            acc = acc + (data[index] as i64);
            index = index + 1;
            ch = ch + 1;
        }
        proof {
            lemma_div_trunc_bounds(acc as int, cc, i16::MIN as int, i16::MAX as int);
        }
        let avg: i64 = acc / (channels as i64);
        out.push(avg as i16);
    }
    out
}

/// With a single channel, mixing is the identity: any sequence that meets the
/// contract of `mix_to_mono` for `channels == 1` equals its input.
pub proof fn lemma_mix_single_channel_identity(data: Seq<i16>, r: Seq<i16>)
    requires
        r.len() == data.len() as int / 1,
        forall|i: int| 0 <= i < r.len() ==> r[i] == mix_sample(data, 1, i),
    ensures
        r == data,
{
    assert forall|i: int| 0 <= i < r.len() implies r[i] == data[i] by {
        assert(range_sum(data, i + 1, i + 1) == 0);
        assert(range_sum(data, i, i + 1) == data[i]);
        assert(div_trunc(data[i] as int, 1) == data[i]) by {
            if data[i] >= 0 {
                assert(data[i] as int / 1 == data[i]);
            } else {
                assert(-(data[i] as int) / 1 == -(data[i] as int));
            }
        }
    }
    assert(r =~= data);
}

} // verus!
