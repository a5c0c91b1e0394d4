//! Pipeline orchestration: drain decoded packets into one buffer, validate
//! the stream metadata, downmix and decimate; the result is ready for re-encoding.

use crate::mixer::{mix_to_mono, mixed_seq};
use crate::reducer::{reduce_rate, reduced_seq};
use crate::TARGET_RATE;
use vstd::arithmetic::div_mod::{
    lemma_div_is_ordered, lemma_div_multiples_vanish, lemma_remainder_lower,
};
use vstd::arithmetic::mul::{lemma_mul_inequality, lemma_mul_is_commutative};
use vstd::prelude::*;

verus! {

/// What can go wrong along the pipeline. Every failure aborts the run at the
/// point where it happens; nothing is retried.
#[derive(Clone, Copy, Debug, PartialEq, Eq, Structural)]
pub enum Error {
    /// The input cannot be opened or read.
    SourceRead,
    /// A packet fails to decode, or the stream's metadata does not describe
    /// a stream this pipeline can process.
    Decode,
    /// Encoder construction, sample encoding, or the final flush fails.
    Encode,
    /// The output cannot be created or written.
    DestinationWrite,
}

/// One decoded packet: a slice of interleaved samples plus the stream
/// metadata valid for that slice.
pub struct DecodedPacket {
    pub data: Vec<i16>,
    pub channels: u16,
    pub rate: u64,
}

/// The buffer and metadata that draining a packet sequence yields: the
/// concatenation of all payloads in arrival order, under the metadata of the
/// last packet (metadata is assumed constant across a stream). The first
/// failed packet aborts the whole drain with its error.
pub open spec fn drained(ps: Seq<Result<DecodedPacket, Error>>) -> Result<(Seq<i16>, u16, u64), Error>
    decreases ps.len(),
{
    if ps.len() == 0 {
        Result::Ok((Seq::<i16>::empty(), 0u16, 0u64))
    } else {
        match drained(ps.drop_last()) {
            Result::Err(e) => Result::Err(e),
            Result::Ok(acc) => match ps.last() {
                Result::Err(e) => Result::Err(e),
                Result::Ok(p) => Result::Ok((acc.0 + p.data@, p.channels, p.rate)),
            },
        }
    }
}

/// Once a failed packet is seen after a clean prefix, the whole drain fails
/// with that packet's error, however the stream goes on.
proof fn lemma_drained_err(ps: Seq<Result<DecodedPacket, Error>>, i: int)
    requires
        0 <= i < ps.len(),
        drained(ps.subrange(0, i)) is Ok,
        ps[i] is Err,
    ensures
        drained(ps) == Result::<(Seq<i16>, u16, u64), Error>::Err(ps[i]->Err_0),
    decreases ps.len(),
{
    if ps.len() == i + 1 {
        assert(ps.drop_last() =~= ps.subrange(0, i));
    } else {
        assert(ps.drop_last().subrange(0, i) =~= ps.subrange(0, i));
        lemma_drained_err(ps.drop_last(), i);
    }
}

/// Concatenates the payloads of a packet sequence in arrival order, keeping
/// the metadata of the last packet, and aborts with the first packet error.
pub fn drain_packets(packets: Vec<Result<DecodedPacket, Error>>) -> (r: Result<(Vec<i16>, u16, u64), Error>)
    ensures
        drained(packets@) is Ok ==> r is Ok && r->Ok_0.0@ == drained(packets@)->Ok_0.0
            && r->Ok_0.1 == drained(packets@)->Ok_0.1 && r->Ok_0.2 == drained(packets@)->Ok_0.2,
        drained(packets@) is Err ==> r is Err && r->Err_0 == drained(packets@)->Err_0,
{
    let ghost all = packets@;
    let n = packets.len();
    let mut queue = packets;
    let mut samples: Vec<i16> = Vec::new();
    let mut channels: u16 = 0;
    let mut rate: u64 = 0;
    let mut i: usize = 0;
    proof {
        assert(all.subrange(0, 0) =~= Seq::<Result<DecodedPacket, Error>>::empty());
    }
    #[verifier::loop_isolation(false)]
    while i < n
        invariant
            n == all.len(),
            0 <= i <= n,
            queue@ == all.subrange(i as int, n as int),
            drained(all.subrange(0, i as int)) == Result::<(Seq<i16>, u16, u64), Error>::Ok(
                (samples@, channels, rate),
            ),
        decreases n - i,
    {
        let pr = queue.remove(0);
        let ghost prefix = all.subrange(0, i as int);
        let ghost next_prefix = all.subrange(0, i + 1);
        proof {
            assert(pr == all[i as int]);
            assert(next_prefix.drop_last() =~= prefix);
            assert(queue@ =~= all.subrange(i + 1, n as int));
        }
        match pr {
            Result::Ok(p) => {
                let mut p = p;
                channels = p.channels;
                rate = p.rate;
                samples.append(&mut p.data);
            },
            Result::Err(e) => {
                proof {
                    lemma_drained_err(all, i as int);
                }
                return Result::Err(e);
            },
        }
        i = i + 1;
    }
    proof {
        assert(all.subrange(0, n as int) =~= all);
    }
    Result::Ok((samples, channels, rate))
}

/// Stream metadata the pipeline accepts: at least one channel (the averaging
/// rule divides by the channel count), a rate no lower than the target (only
/// downsampling is defined), and a mixed buffer small enough for the exact
/// boundary arithmetic to stay within the machine's integers.
pub open spec fn metadata_ok(len: int, channels: int, rate: int) -> bool {
    &&& channels >= 1
    &&& rate >= TARGET_RATE
    &&& (len / channels) * rate <= u64::MAX
}

/// The fully processed sample stream: downmixed to mono, then decimated to
/// the target rate.
pub open spec fn pipeline_samples(data: Seq<i16>, channels: int, rate: int) -> Seq<i16> {
    reduced_seq(mixed_seq(data, channels), rate, TARGET_RATE as int)
}

/// Validates the stream metadata, then downmixes and decimates the sample
/// buffer. Metadata that does not describe a processable stream is reported
/// as a decode failure, since it was decoded from the stream itself.
pub fn process_samples(data: Vec<i16>, channels: u16, rate: u64) -> (r: Result<Vec<i16>, Error>)
    ensures
        r is Ok <==> metadata_ok(data@.len() as int, channels as int, rate as int),
        r is Ok ==> r->Ok_0@ == pipeline_samples(data@, channels as int, rate as int),
        r is Err ==> r->Err_0 == Error::Decode,
{
    if channels < 1 {
        return Result::Err(Error::Decode);
    }
    if rate < TARGET_RATE {
        return Result::Err(Error::Decode);
    }
    let mono = mix_to_mono(&data, channels);
    let ghost mixed = mixed_seq(data@, channels as int);
    proof {
        assert(mono@ =~= mixed);
    }
    let limit: u64 = u64::MAX / rate;
    if !((mono.len() as u64) <= limit) {
        proof {
            if mono@.len() as int * rate as int <= u64::MAX {
                lemma_div_is_ordered(
                    mono@.len() as int * rate as int,
                    u64::MAX as int,
                    rate as int,
                );
                lemma_mul_is_commutative(mono@.len() as int, rate as int);
                lemma_div_multiples_vanish(mono@.len() as int, rate as int);
                assert(false);
            }
        }
        return Result::Err(Error::Decode);
    }
    proof {
        lemma_mul_inequality(mono@.len() as int, (u64::MAX / rate) as int, rate as int);
        lemma_remainder_lower(u64::MAX as int, rate as int);
        lemma_mul_is_commutative((u64::MAX / rate) as int, rate as int);
    }
    let reduced = reduce_rate(&mono, rate, TARGET_RATE);
    proof {
        assert(reduced@ =~= reduced_seq(mixed, rate as int, TARGET_RATE as int));
    }
    Result::Ok(reduced)
}

/// The sample pipeline is a function of its inputs alone: two sample
/// sequences that both satisfy the processing contract for the same input
/// buffer and metadata are equal.
pub proof fn lemma_pipeline_deterministic(
    data: Seq<i16>,
    channels: int,
    rate: int,
    r1: Seq<i16>,
    r2: Seq<i16>,
)
    requires
        r1 == pipeline_samples(data, channels, rate),
        r2 == pipeline_samples(data, channels, rate),
    ensures
        r1 == r2,
{
}

/// The whole compute stage of the orchestrator, from decoded packet
/// outcomes to the processed mono stream: drain the packets into one
/// interleaved buffer, validate the stream metadata, downmix and decimate.
/// The first failed packet aborts the run with its error before any sample
/// is processed; what comes back is ready for the encoder.
pub fn shorten_stream(outcomes: Vec<Result<DecodedPacket, Error>>) -> (r: Result<Vec<i16>, Error>)
    ensures
        drained(outcomes@) is Err ==> r is Err && r->Err_0 == drained(outcomes@)->Err_0,
        drained(outcomes@) is Ok ==> (r is Ok <==> metadata_ok(
            drained(outcomes@)->Ok_0.0.len() as int,
            drained(outcomes@)->Ok_0.1 as int,
            drained(outcomes@)->Ok_0.2 as int,
        )),
        drained(outcomes@) is Ok && r is Ok ==> r->Ok_0@ == pipeline_samples(
            drained(outcomes@)->Ok_0.0,
            drained(outcomes@)->Ok_0.1 as int,
            drained(outcomes@)->Ok_0.2 as int,
        ),
        drained(outcomes@) is Ok && r is Err ==> r->Err_0 == Error::Decode,
{
    let assembled = match drain_packets(outcomes) {
        Result::Ok(t) => t,
        Result::Err(e) => {
            return Result::Err(e);
        },
    };
    let (samples, channels, rate) = assembled;
    process_samples(samples, channels, rate)
}

} // verus!
