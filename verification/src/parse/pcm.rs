//! Frame size of interleaved s16le PCM: the raw-audio pump reads exactly this
//! many bytes from ffmpeg's `-f s16le` output per chunk.

use vstd::prelude::*;

verus! {

/// Required byte count for one chunk: `samples_per_channel * channels * 2`.
pub fn frame_bytes(samples_per_channel: u32, channels: u32) -> (n: usize)
    requires
        samples_per_channel * channels * 2 <= usize::MAX,
    ensures
        n == samples_per_channel * channels * 2,
{
    samples_per_channel as usize * channels as usize * 2
}

} // verus!
