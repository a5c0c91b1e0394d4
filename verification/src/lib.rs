//! The verified core of a pipeline that shrinks a compressed audio
//! recording: decoded packets are drained into one interleaved buffer,
//! downmixed to mono and decimated to a fixed low sample rate, ready for
//! re-encoding with the same codec family.

pub mod arith;
pub mod mixer;
pub mod pipeline;
pub mod reducer;

use vstd::prelude::*;

verus! {

/// The fixed sample rate, in samples per second, that the pipeline decimates
/// to.
pub const TARGET_RATE: u64 = 8000;

} // verus!
