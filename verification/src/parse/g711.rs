//! G.711 (µ-law / A-law) framer. The stream is headerless, one byte per sample
//! per channel, so it is sliced into fixed real-time chunks of
//! `sample_rate / 1000 * frame_ms * channels` bytes.

use vstd::prelude::*;

verus! {

/// One chunk of companded samples.
#[derive(Debug, Clone, PartialEq, Eq)]
pub struct G711Frame<'a> {
    pub data: &'a [u8],
    pub sample_rate: u32,
    pub channels: u32,
    pub samples_per_channel: u32,
}

/// `x`, or 1 when `x` is 0.
pub open spec fn at_least_one(x: u32) -> u32 {
    if x == 0 {
        1
    } else {
        x
    }
}

/// Samples per channel in one chunk.
pub open spec fn chunk_samples(sample_rate: u32, frame_ms: u32) -> int {
    at_least_one(sample_rate) / 1000 * at_least_one(frame_ms)
}

/// Bytes in one chunk.
pub open spec fn chunk_bytes(sample_rate: u32, channels: u32, frame_ms: u32) -> int {
    chunk_samples(sample_rate, frame_ms) * at_least_one(channels)
}

/// Slice one `frame_ms` chunk off the front of `buf`; `None` until a whole
/// chunk is buffered. Zero parameters count as 1. The caller drains
/// `data.len()` bytes.
pub fn next_frame(buf: &[u8], sample_rate: u32, channels: u32, frame_ms: u32) -> (r: Option<G711Frame<'_>>)
    requires
        chunk_bytes(sample_rate, channels, frame_ms) <= u32::MAX,
    ensures
        ({
            let need = chunk_bytes(sample_rate, channels, frame_ms);
            match r {
                None => need == 0 || buf@.len() < need,
                Some(f) => {
                    &&& need > 0 && buf@.len() >= need
                    &&& f.data@ == buf@.subrange(0, need)
                    &&& f.sample_rate == at_least_one(sample_rate)
                    &&& f.channels == at_least_one(channels)
                    &&& f.samples_per_channel == chunk_samples(sample_rate, frame_ms)
                },
            }
        }),
{
    let sr = if sample_rate == 0 { 1 } else { sample_rate };
    let ch = if channels == 0 { 1 } else { channels };
    let fm = if frame_ms == 0 { 1 } else { frame_ms };
    assert(sr / 1000 * fm <= (sr / 1000 * fm) * ch) by (nonlinear_arith)
        requires
            ch >= 1,
    ;
    let samples_per_channel = sr / 1000 * fm;
    let need = (samples_per_channel * ch) as usize;
    if need == 0 || buf.len() < need {
        return None;
    }
    Some(G711Frame { data: &buf[0..need], sample_rate: sr, channels: ch, samples_per_channel })
}

/// A chunk taken from `b` is taken the same once more bytes arrive behind
/// it: only the buffered length decides whether a chunk is there, and the
/// chunk is the first bytes.
pub proof fn lemma_chunk_stable_under_append(b: Seq<u8>, more: Seq<u8>, need: int)
    requires
        0 < need <= b.len(),
    ensures
        need <= (b + more).len(),
        (b + more).subrange(0, need) == b.subrange(0, need),
{
    assert((b + more).subrange(0, need) =~= b.subrange(0, need));
}

} // verus!
