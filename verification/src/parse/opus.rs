//! Ogg-Opus depacketiser: reassembles bare Opus packets (TOC byte + frames)
//! from the Ogg pages that ffmpeg `-f ogg` writes.
//!
//! A page is `"OggS"`, version, header type, granule (8), serial (4),
//! sequence (4), CRC (4), `n_segments` (1), the segment table (`n` lacing
//! values), then the segment data. A packet is the concatenation of
//! consecutive segments up to one whose lacing value is below 255; a final 255
//! means the packet continues on the next (continued-flagged) page. The
//! `OpusHead` packet (channel count at byte 9) and `OpusTags` are consumed;
//! every other packet is an Opus packet whose TOC byte gives its sample count.
//! Packets are always reported at 48 kHz. The CRC is not checked.

use vstd::prelude::*;
use std::collections::VecDeque;
use crate::parse::buffer::{drain_front, has_prefix, starts_with_bytes};

verus! {

/// One Opus packet ready to hand to the encoded-audio sender.
#[derive(Debug, Clone, PartialEq, Eq)]
pub struct OpusPacket {
    pub data: Vec<u8>,
    /// Always 48000.
    pub sample_rate: u32,
    pub channels: u32,
    pub samples_per_channel: u32,
}

/// What an `OpusPacket` holds.
pub struct PacketView {
    pub data: Seq<u8>,
    pub sample_rate: u32,
    pub channels: u32,
    pub samples_per_channel: u32,
}

impl View for OpusPacket {
    type V = PacketView;

    open spec fn view(&self) -> PacketView {
        PacketView {
            data: self.data@,
            sample_rate: self.sample_rate,
            channels: self.channels,
            samples_per_channel: self.samples_per_channel,
        }
    }
}

/// Stateful Ogg-Opus reader: cross-page reassembly plus a queue of decoded
/// packets. It drains the Ogg pages it consumes from the caller's buffer.
pub struct OpusDemux {
    channels: u32,
    carry: Vec<u8>,
    carry_active: bool,
    ready: VecDeque<OpusPacket>,
}

/// The state of an `OpusDemux`: the channel count from `OpusHead` (0 until
/// seen), the partial packet carried over from the previous page and whether
/// it is live, and the packets decoded but not yet handed out.
pub struct DemuxState {
    pub channels: u32,
    pub carry: Seq<u8>,
    pub carry_active: bool,
    pub ready: Seq<PacketView>,
}

/// Outcome of one `pull`.
pub enum PullOutcome {
    Packet(PacketView),
    NeedMore,
    /// A malformed Opus packet, with the reason.
    Malformed(Seq<char>),
}

// ---------------------------------------------------------------------------
// Opus TOC
// ---------------------------------------------------------------------------

/// Frames in the packet, from the TOC code (RFC 6716 3.1); `None` when a
/// code-3 packet lacks its frame-count byte.
pub open spec fn opus_frame_count(p: Seq<u8>) -> Option<u32> {
    let code = p[0] & 0x03;
    if code == 0 {
        Some(1u32)
    } else if code == 1 || code == 2 {
        Some(2u32)
    } else if p.len() < 2 {
        None
    } else {
        Some((p[1] & 0x3F) as u32)
    }
}

/// Frame duration in hundredths of a millisecond for TOC configuration
/// `config` (0..=31): SILK 10/20/40/60 ms, Hybrid 10/20 ms, CELT 2.5/5/10/20 ms.
pub open spec fn opus_frame_duration(config: u8) -> u32 {
    if config < 12 {
        let m = config % 4;
        if m == 0 {
            1000
        } else if m == 1 {
            2000
        } else if m == 2 {
            4000
        } else {
            6000
        }
    } else if config < 16 {
        if (config - 12) % 2 == 0 {
            1000
        } else {
            2000
        }
    } else {
        let m = (config - 16) % 4;
        if m == 0 {
            250
        } else if m == 1 {
            500
        } else if m == 2 {
            1000
        } else {
            2000
        }
    }
}

/// Samples per channel at 48 kHz of a non-empty Opus packet; `None` when the
/// packet is truncated or declares no frames.
pub open spec fn opus_sample_count(p: Seq<u8>) -> Option<u32> {
    match opus_frame_count(p) {
        None => None,
        Some(n) => if n == 0 {
            None
        } else {
            Some((n * (48000 * opus_frame_duration(p[0] >> 3u8) / 100000)) as u32)
        },
    }
}

/// RFC 6716 section 3.1, Table 2, in samples per channel at 48 kHz: a packet
/// holding one frame (TOC code 0) lasts, by its configuration `config`
/// (the TOC's top five bits), 10, 20, 40 or 60 ms for SILK-only configs 0 to
/// 11 (by `config % 4`), 10 or 20 ms for Hybrid configs 12 to 15 (by
/// `config % 2`), and 2.5, 5, 10 or 20 ms for CELT-only configs 16 to 31 (by
/// `config % 4`); one millisecond is 48 samples.
pub proof fn lemma_one_frame_samples(p: Seq<u8>)
    requires
        p.len() > 0,
        p[0] & 0x03 == 0,
    ensures
        ({
            let config = p[0] >> 3u8;
            let ms_x10: int = if config < 12 {
                if config % 4 == 0 {
                    100
                } else if config % 4 == 1 {
                    200
                } else if config % 4 == 2 {
                    400
                } else {
                    600
                }
            } else if config < 16 {
                if config % 2 == 0 {
                    100
                } else {
                    200
                }
            } else {
                if config % 4 == 0 {
                    25
                } else if config % 4 == 1 {
                    50
                } else if config % 4 == 2 {
                    100
                } else {
                    200
                }
            };
            opus_sample_count(p) == Some((ms_x10 * 48 / 10) as u32)
        }),
{
    let t = p[0];
    let config = t >> 3u8;
    assert(config < 32) by (bit_vector)
        requires
            config == t >> 3u8,
    ;
}

/// A packet of `n` frames (code 1 or 2: two frames; code 3: the count in
/// its second byte) lasts `n` times as long as a one-frame packet with the
/// same configuration.
pub proof fn lemma_samples_scale_with_frames(p: Seq<u8>, one: Seq<u8>)
    requires
        p.len() > 0,
        one.len() > 0,
        one[0] == p[0] & 0xFC,
        opus_sample_count(p) is Some,
    ensures
        opus_sample_count(one) is Some,
        opus_sample_count(p)->0 == opus_frame_count(p)->0 * opus_sample_count(one)->0,
{
    let t = p[0];
    assert((t & 0xFC) & 0x03 == 0 && (t & 0xFC) >> 3u8 == t >> 3u8) by (bit_vector);
    let config = t >> 3u8;
    assert(config < 32) by (bit_vector)
        requires
            config == t >> 3u8,
    ;
    let n = opus_frame_count(p)->0;
    assert(n <= 63) by {
        if p.len() >= 2 {
            let c = p[1];
            assert(c & 0x3F <= 63) by (bit_vector);
        }
    }
    let per = 48000 * opus_frame_duration(config) / 100000;
    assert(per <= 2880);
    assert(n * per <= 63 * 2880) by (nonlinear_arith)
        requires
            n <= 63,
            per <= 2880,
    ;
}

fn frame_duration_x100(config: u8) -> (d: u32)
    requires
        config < 32,
    ensures
        d == opus_frame_duration(config),
        250 <= d <= 6000,
{
    if config < 12 {
        let m = config % 4;
        if m == 0 {
            1000
        } else if m == 1 {
            2000
        } else if m == 2 {
            4000
        } else {
            6000
        }
    } else if config < 16 {
        if (config - 12) % 2 == 0 {
            1000
        } else {
            2000
        }
    } else {
        let m = (config - 16) % 4;
        if m == 0 {
            250
        } else if m == 1 {
            500
        } else if m == 2 {
            1000
        } else {
            2000
        }
    }
}

/// Why a packet has no sample count: a code-3 packet without its
/// frame-count byte, or a packet that declares no frames.
pub open spec fn opus_error_text(p: Seq<u8>) -> Seq<char> {
    if opus_frame_count(p) is None {
        "opus code-3 packet truncated"@
    } else {
        "opus packet declares 0 frames"@
    }
}

/// Samples-per-channel for one Opus packet, from its TOC byte (RFC 6716 3.1):
/// frame count times frame duration at 48 kHz.
pub fn opus_samples(pkt: &[u8]) -> (r: Result<u32, &'static str>)
    requires
        pkt@.len() > 0,
    ensures
        match (r, opus_sample_count(pkt@)) {
            (Ok(n), Some(m)) => n == m,
            (Err(e), None) => e@ == opus_error_text(pkt@),
            _ => false,
        },
{
    let toc = pkt[0];
    let config = toc >> 3u8;
    let code = toc & 0x03;
    assert(config < 32) by (bit_vector)
        requires
            config == toc >> 3u8,
    ;
    let nframes: u32 = if code == 0 {
        1
    } else if code == 1 || code == 2 {
        2
    } else {
        if pkt.len() < 2 {
            return Err("opus code-3 packet truncated");
        }
        let count_byte = pkt[1];
        let c = (count_byte & 0x3F) as u32;
        assert(c <= 63) by (bit_vector)
            requires
                c == (count_byte & 0x3F) as u32,
        ;
        c
    };
    if nframes == 0 {
        return Err("opus packet declares 0 frames");
    }
    let dur_x100 = frame_duration_x100(config);
    let per_frame = 48000 * dur_x100 / 100_000;
    assert(per_frame <= 2880);
    assert(nframes <= 63);
    assert(nframes * per_frame <= 63 * 2880) by (nonlinear_arith)
        requires
            nframes <= 63,
            per_frame <= 2880,
    ;
    Ok(nframes * per_frame)
}

// ---------------------------------------------------------------------------
// Ogg framing
// ---------------------------------------------------------------------------

/// `"OggS"`.
pub open spec fn capture_pattern() -> Seq<u8> {
    seq![0x4Fu8, 0x67u8, 0x67u8, 0x53u8]
}

/// `"OpusHead"`.
pub open spec fn opus_head_tag() -> Seq<u8> {
    seq![0x4Fu8, 0x70u8, 0x75u8, 0x73u8, 0x48u8, 0x65u8, 0x61u8, 0x64u8]
}

/// `"OpusTags"`.
pub open spec fn opus_tags_tag() -> Seq<u8> {
    seq![0x4Fu8, 0x70u8, 0x75u8, 0x73u8, 0x54u8, 0x61u8, 0x67u8, 0x73u8]
}

/// `needle` occurs in `hay` at `k`.
pub open spec fn occurs_at(hay: Seq<u8>, needle: Seq<u8>, k: int) -> bool {
    0 <= k && k + needle.len() <= hay.len() && hay.subrange(k, k + needle.len()) == needle
}

/// Position of the first occurrence of a non-empty `needle` in `hay` at or
/// after `k`.
pub open spec fn find_from(hay: Seq<u8>, needle: Seq<u8>, k: int) -> Option<int>
    decreases hay.len() - k,
{
    if k < 0 || k >= hay.len() || k + needle.len() > hay.len() {
        None
    } else if occurs_at(hay, needle, k) {
        Some(k)
    } else {
        find_from(hay, needle, k + 1)
    }
}

/// Sum of the lacing values.
pub open spec fn lace_total(seg: Seq<u8>) -> nat
    decreases seg.len(),
{
    if seg.len() == 0 {
        0
    } else {
        seg[0] as nat + lace_total(seg.drop_first())
    }
}

pub proof fn lemma_find_from_bounds(hay: Seq<u8>, needle: Seq<u8>, k: int)
    ensures
        find_from(hay, needle, k) matches Some(p) ==> k <= p && p + needle.len() <= hay.len()
            && occurs_at(hay, needle, p),
    decreases hay.len() - k,
{
    if !(k < 0 || k >= hay.len() || k + needle.len() > hay.len()) && !occurs_at(hay, needle, k) {
        lemma_find_from_bounds(hay, needle, k + 1);
    }
}

/// Split segment data into packets by the lacing values: the packets that are
/// completed, and the partial packet left after the last segment. `cur` is the
/// partial packet carried in.
pub open spec fn lacing_split(seg: Seq<u8>, data: Seq<u8>, cur: Seq<u8>) -> (Seq<Seq<u8>>, Seq<u8>)
    decreases seg.len(),
{
    if seg.len() == 0 {
        (Seq::empty(), cur)
    } else {
        let l = seg[0] as int;
        let joined = cur + data.subrange(0, l);
        let rest = data.subrange(l, data.len() as int);
        if seg[0] < 255 {
            let (ps, t) = lacing_split(seg.drop_first(), rest, Seq::empty());
            (seq![joined] + ps, t)
        } else {
            lacing_split(seg.drop_first(), rest, joined)
        }
    }
}

/// Hand the packets of one page to the queue: empty packets are dropped,
/// `OpusHead` sets the channel count, `OpusTags` is dropped, any other packet
/// is queued with its sample count (channels default to 2). Stops with an
/// error at the first malformed packet. Returns the channel count, the queue
/// and the error it stopped with, if any.
pub open spec fn enqueue(channels: u32, ready: Seq<PacketView>, pkts: Seq<Seq<u8>>) -> (u32, Seq<PacketView>, Option<Seq<char>>)
    decreases pkts.len(),
{
    if pkts.len() == 0 {
        (channels, ready, None)
    } else {
        let p = pkts[0];
        let rest = pkts.drop_first();
        if p.len() == 0 {
            enqueue(channels, ready, rest)
        } else if p.len() >= 10 && has_prefix(p, opus_head_tag()) {
            enqueue(p[9] as u32, ready, rest)
        } else if p.len() >= 8 && has_prefix(p, opus_tags_tag()) {
            enqueue(channels, ready, rest)
        } else {
            match opus_sample_count(p) {
                None => (channels, ready, Some(opus_error_text(p))),
                Some(spc) => enqueue(
                    channels,
                    ready.push(
                        PacketView {
                            data: p,
                            sample_rate: 48000,
                            channels: if channels == 0 { 2 } else { channels },
                            samples_per_channel: spc,
                        },
                    ),
                    rest,
                ),
            }
        }
    }
}

/// Number of segments of the page at the front of `b`.
pub open spec fn page_segments(b: Seq<u8>) -> int {
    b[26] as int
}

/// The segment table of the page at the front of `b`.
pub open spec fn page_seg_table(b: Seq<u8>) -> Seq<u8> {
    b.subrange(27, 27 + page_segments(b))
}

/// Total bytes of the page at the front of `b`.
pub open spec fn page_len(b: Seq<u8>) -> int {
    27 + page_segments(b) + lace_total(page_seg_table(b))
}

/// Consume the complete page at the front of `b`: the new state and the
/// error of the malformed packet that stopped it, if any.
pub open spec fn consume_page(st: DemuxState, b: Seq<u8>) -> (DemuxState, Option<Seq<char>>) {
    let seg = page_seg_table(b);
    let data = b.subrange(27 + page_segments(b), page_len(b));
    let continued = b[5] & 0x01 != 0;
    let take_carry = continued && st.carry_active;
    let cur0 = if take_carry { st.carry } else { Seq::empty() };
    let carry_left = if take_carry { Seq::empty() } else { st.carry };
    let (pkts, trailing) = lacing_split(seg, data, cur0);
    let last255 = seg.len() > 0 && seg[seg.len() - 1] == 255;
    let (ch, ready, err) = enqueue(st.channels, st.ready, pkts);
    (
        DemuxState {
            channels: ch,
            carry: if last255 { trailing } else { carry_left },
            carry_active: last255,
            ready,
        },
        err,
    )
}

/// One `pull` from state `st` over buffered bytes `b`: hand out a queued
/// packet if there is one; otherwise resynchronise to `"OggS"`, and consume
/// whole pages until one yields a packet, bytes run out, or a packet is
/// malformed. The new state, the bytes left, and the outcome.
pub open spec fn pull_spec(st: DemuxState, b: Seq<u8>) -> (DemuxState, Seq<u8>, PullOutcome)
    decreases b.len(),
{
    if st.ready.len() > 0 {
        (
            DemuxState { ready: st.ready.drop_first(), ..st },
            b,
            PullOutcome::Packet(st.ready[0]),
        )
    } else {
        match find_from(b, capture_pattern(), 0) {
            None => (st, b, PullOutcome::NeedMore),
            Some(pos) => {
                let b1 = b.subrange(pos, b.len() as int);
                if b1.len() < 27 || b1.len() < 27 + page_segments(b1) || b1.len() < page_len(b1) {
                    (st, b1, PullOutcome::NeedMore)
                } else {
                    let b2 = b1.subrange(page_len(b1), b1.len() as int);
                    let (st2, err) = consume_page(st, b1);
                    if let Some(m) = err {
                        (st2, b2, PullOutcome::Malformed(m))
                    } else {
                        proof {
                            lemma_find_from_bounds(b, capture_pattern(), 0);
                        }
                        pull_spec(st2, b2)
                    }
                }
            }
        }
    }
}

proof fn lemma_find_from_append(hay: Seq<u8>, needle: Seq<u8>, more: Seq<u8>, k: int)
    requires
        find_from(hay, needle, k) is Some,
    ensures
        find_from(hay + more, needle, k) == find_from(hay, needle, k),
    decreases hay.len() - k,
{
    let c = hay + more;
    assert(k + needle.len() <= hay.len());
    assert(c.subrange(k, k + needle.len()) =~= hay.subrange(k, k + needle.len()));
    if !occurs_at(hay, needle, k) {
        lemma_find_from_append(hay, needle, more, k + 1);
    }
}

/// The page at the front of `b` reads the same in `b + more` once it is
/// wholly buffered in `b`.
proof fn lemma_page_append(st: DemuxState, b: Seq<u8>, more: Seq<u8>)
    requires
        b.len() >= 27,
        b.len() >= 27 + page_segments(b),
        b.len() >= page_len(b),
    ensures
        page_segments(b + more) == page_segments(b),
        page_seg_table(b + more) == page_seg_table(b),
        page_len(b + more) == page_len(b),
        consume_page(st, b + more) == consume_page(st, b),
        (b + more).subrange(page_len(b), (b + more).len() as int) == b.subrange(page_len(b), b.len() as int)
            + more,
{
    let c = b + more;
    let n = page_segments(b);
    assert(c[26] == b[26]);
    assert(c[5] == b[5]);
    assert(page_seg_table(c) =~= page_seg_table(b));
    assert(c.subrange(27 + n, page_len(b)) =~= b.subrange(27 + n, page_len(b)));
    assert(c.subrange(page_len(b), c.len() as int) =~= b.subrange(page_len(b), b.len() as int) + more);
}

/// Bytes that arrive later do not change a pull that already has its
/// answer: a packet handed out (or a malformed packet found) over `b` is
/// handed out (found) the same way over `b + more`, from the same state, and
/// the new bytes stay buffered behind what was left.
pub proof fn lemma_pull_stable_under_append(st: DemuxState, b: Seq<u8>, more: Seq<u8>)
    requires
        !(pull_spec(st, b).2 is NeedMore),
    ensures
        pull_spec(st, b + more).0 == pull_spec(st, b).0,
        pull_spec(st, b + more).1 == pull_spec(st, b).1 + more,
        pull_spec(st, b + more).2 == pull_spec(st, b).2,
    decreases b.len(),
{
    if st.ready.len() == 0 {
        let pos = find_from(b, capture_pattern(), 0)->0;
        lemma_find_from_bounds(b, capture_pattern(), 0);
        lemma_find_from_append(b, capture_pattern(), more, 0);
        let b1 = b.subrange(pos, b.len() as int);
        let c1 = (b + more).subrange(pos, (b + more).len() as int);
        assert(c1 =~= b1 + more);
        lemma_page_append(st, b1, more);
        let b2 = b1.subrange(page_len(b1), b1.len() as int);
        let (st2, err) = consume_page(st, b1);
        if err is None {
            lemma_pull_stable_under_append(st2, b2, more);
        }
    }
}

/// A pull that needs more bytes keeps everything that matters: pulling again
/// once `more` has arrived behind what it left gives what one pull over all
/// the bytes gives. With `lemma_pull_stable_under_append`, the packets a
/// demuxer hands out do not depend on how the stream was cut into reads.
pub proof fn lemma_need_more_then_pull(st: DemuxState, b: Seq<u8>, more: Seq<u8>)
    requires
        pull_spec(st, b).2 is NeedMore,
    ensures
        pull_spec(pull_spec(st, b).0, pull_spec(st, b).1 + more) == pull_spec(st, b + more),
    decreases b.len(),
{
    if st.ready.len() == 0 {
        match find_from(b, capture_pattern(), 0) {
            None => {},
            Some(pos) => {
                lemma_find_from_bounds(b, capture_pattern(), 0);
                lemma_find_from_append(b, capture_pattern(), more, 0);
                let b1 = b.subrange(pos, b.len() as int);
                let c1 = (b + more).subrange(pos, (b + more).len() as int);
                assert(c1 =~= b1 + more);
                if b1.len() < 27 || b1.len() < 27 + page_segments(b1) || b1.len() < page_len(b1) {
                    assert(pull_spec(st, b).1 == b1);
                    assert(occurs_at(b1, capture_pattern(), 0)) by {
                        assert(b1.subrange(0, 4) =~= b.subrange(pos, pos + 4));
                    }
                    assert(occurs_at(b1 + more, capture_pattern(), 0)) by {
                        assert((b1 + more).subrange(0, 4) =~= b1.subrange(0, 4));
                    }
                    assert(find_from(b1 + more, capture_pattern(), 0) == Some(0int));
                    assert((b1 + more).subrange(0, (b1 + more).len() as int) =~= b1 + more);
                } else {
                    lemma_page_append(st, b1, more);
                    let b2 = b1.subrange(page_len(b1), b1.len() as int);
                    let (st2, err) = consume_page(st, b1);
                    lemma_need_more_then_pull(st2, b2, more);
                }
            },
        }
    }
}

/// A packet as the demuxer reports it: at 48 kHz, with at least one channel
/// and a non-zero sample count.
pub open spec fn well_tagged(p: PacketView) -> bool {
    p.sample_rate == 48000 && p.channels >= 1 && p.samples_per_channel > 0
}

pub open spec fn all_tagged(q: Seq<PacketView>) -> bool {
    forall|i: int| 0 <= i < q.len() ==> well_tagged(#[trigger] q[i])
}

proof fn lemma_sample_count_pos(p: Seq<u8>)
    requires
        p.len() > 0,
        opus_sample_count(p) is Some,
    ensures
        opus_sample_count(p)->0 > 0,
{
    let n = opus_frame_count(p)->0;
    let toc = p[0];
    let config = toc >> 3u8;
    assert(config < 32) by (bit_vector)
        requires
            config == toc >> 3u8,
    ;
    let d = opus_frame_duration(config);
    assert(250 <= d <= 6000);
    let per = 48000 * d / 100000;
    assert(120 <= per <= 2880);
    assert(n <= 63) by {
        if p.len() >= 2 {
            let c = p[1];
            assert(c & 0x3F <= 0x3F) by (bit_vector);
        }
    }
    assert(1 <= n);
    assert(n * per >= 120 && n * per <= 63 * 2880) by (nonlinear_arith)
        requires
            1 <= n <= 63,
            120 <= per <= 2880,
    ;
}

proof fn lemma_enqueue_tagged(channels: u32, ready: Seq<PacketView>, pkts: Seq<Seq<u8>>)
    requires
        all_tagged(ready),
    ensures
        all_tagged(enqueue(channels, ready, pkts).1),
    decreases pkts.len(),
{
    if pkts.len() > 0 {
        let p = pkts[0];
        let rest = pkts.drop_first();
        if p.len() == 0 {
            lemma_enqueue_tagged(channels, ready, rest);
        } else if p.len() >= 10 && has_prefix(p, opus_head_tag()) {
            lemma_enqueue_tagged(p[9] as u32, ready, rest);
        } else if p.len() >= 8 && has_prefix(p, opus_tags_tag()) {
            lemma_enqueue_tagged(channels, ready, rest);
        } else if opus_sample_count(p) is Some {
            lemma_sample_count_pos(p);
            let pv = PacketView {
                data: p,
                sample_rate: 48000,
                channels: if channels == 0 { 2 } else { channels },
                samples_per_channel: opus_sample_count(p)->0,
            };
            assert(all_tagged(ready.push(pv))) by {
                assert forall|i: int| 0 <= i < ready.push(pv).len() implies well_tagged(
                    #[trigger] ready.push(pv)[i],
                ) by {
                    if i < ready.len() {
                        assert(ready.push(pv)[i] == ready[i]);
                    }
                }
            }
            lemma_enqueue_tagged(channels, ready.push(pv), rest);
        }
    }
}

/// Every packet the demuxer hands out is reported at 48 kHz (Opus is coded
/// at 48 kHz whatever the input rate), with at least one channel (two until
/// `OpusHead` names a non-zero count) and a non-zero sample count; the
/// packets still queued keep that property.
pub proof fn lemma_packets_tagged(st: DemuxState, b: Seq<u8>)
    requires
        all_tagged(st.ready),
    ensures
        all_tagged(pull_spec(st, b).0.ready),
        pull_spec(st, b).2 matches PullOutcome::Packet(p) ==> well_tagged(p),
    decreases b.len(),
{
    if st.ready.len() > 0 {
        assert(well_tagged(st.ready[0]));
        assert forall|i: int| 0 <= i < st.ready.drop_first().len() implies well_tagged(
            #[trigger] st.ready.drop_first()[i],
        ) by {
            assert(st.ready.drop_first()[i] == st.ready[i + 1]);
        }
    } else {
        match find_from(b, capture_pattern(), 0) {
            None => {},
            Some(pos) => {
                let b1 = b.subrange(pos, b.len() as int);
                if !(b1.len() < 27 || b1.len() < 27 + page_segments(b1) || b1.len() < page_len(b1)) {
                    let b2 = b1.subrange(page_len(b1), b1.len() as int);
                    let seg = page_seg_table(b1);
                    let data = b1.subrange(27 + page_segments(b1), page_len(b1));
                    let continued = b1[5] & 0x01 != 0;
                    let cur0 = if continued && st.carry_active {
                        st.carry
                    } else {
                        Seq::empty()
                    };
                    let pkts = lacing_split(seg, data, cur0).0;
                    lemma_enqueue_tagged(st.channels, st.ready, pkts);
                    let (st2, err) = consume_page(st, b1);
                    if err is None {
                        lemma_find_from_bounds(b, capture_pattern(), 0);
                        lemma_packets_tagged(st2, b2);
                    }
                }
            },
        }
    }
}

/// A complete Ogg page begins at the first `"OggS"` of `b`.
pub open spec fn complete_page_ahead(b: Seq<u8>) -> bool {
    match find_from(b, capture_pattern(), 0) {
        None => false,
        Some(pos) => {
            let b1 = b.subrange(pos, b.len() as int);
            b1.len() >= 27 && b1.len() >= 27 + page_segments(b1) && b1.len() >= page_len(b1)
        },
    }
}

/// `t` is what is left of `b` after dropping some bytes from its front.
pub open spec fn is_suffix(t: Seq<u8>, b: Seq<u8>) -> bool {
    t.len() <= b.len() && t == b.subrange(b.len() - t.len(), b.len() as int)
}

/// What a pull leaves buffered: a suffix of what was buffered (only leading
/// garbage and whole pages leave the front), shorter whenever a packet came
/// out of a freshly read page. Without any `"OggS"` a pull that needs more
/// bytes leaves the buffer as it was, and a pull that needs more bytes never
/// leaves a whole page at the first `"OggS"` of what it left.
pub proof fn lemma_pull_leaves_suffix(st: DemuxState, b: Seq<u8>)
    ensures
        is_suffix(pull_spec(st, b).1, b),
        st.ready.len() == 0 && pull_spec(st, b).2 is Packet ==> pull_spec(st, b).1.len() < b.len(),
        st.ready.len() > 0 ==> pull_spec(st, b).1 == b,
        find_from(b, capture_pattern(), 0) is None && pull_spec(st, b).2 is NeedMore ==> pull_spec(st, b).1
            == b,
        pull_spec(st, b).2 is NeedMore ==> !complete_page_ahead(pull_spec(st, b).1),
    decreases b.len(),
{
    assert(b.subrange(0, b.len() as int) =~= b);
    if st.ready.len() == 0 {
        match find_from(b, capture_pattern(), 0) {
            None => {},
            Some(pos) => {
                lemma_find_from_bounds(b, capture_pattern(), 0);
                let b1 = b.subrange(pos, b.len() as int);
                assert(b1 =~= b.subrange(b.len() - b1.len(), b.len() as int));
                if b1.len() < 27 || b1.len() < 27 + page_segments(b1) || b1.len() < page_len(b1) {
                    assert(occurs_at(b1, capture_pattern(), 0)) by {
                        assert(b1.subrange(0, 4) =~= b.subrange(pos, pos + 4));
                    }
                    assert(find_from(b1, capture_pattern(), 0) == Some(0int));
                    assert(b1.subrange(0, b1.len() as int) =~= b1);
                } else {
                    let b2 = b1.subrange(page_len(b1), b1.len() as int);
                    let (st2, err) = consume_page(st, b1);
                    if err is None {
                        lemma_pull_leaves_suffix(st2, b2);
                        let t = pull_spec(st2, b2).1;
                        assert(t =~= b.subrange(b.len() - t.len(), b.len() as int)) by {
                            assert(t =~= b2.subrange(b2.len() - t.len(), b2.len() as int));
                            assert forall|i: int| 0 <= i < t.len() implies t[i] == b[b.len() - t.len()
                                + i] by {
                                assert(t[i] == b2[b2.len() - t.len() + i]);
                            }
                        }
                    } else {
                        assert(b2 =~= b.subrange(b.len() - b2.len(), b.len() as int));
                    }
                }
            },
        }
    }
}

/// Pulls until one needs more bytes or finds a malformed packet: the state
/// and bytes left, the packets handed out in order, and whether it stopped at
/// a malformed packet.
pub open spec fn drain(st: DemuxState, b: Seq<u8>) -> (DemuxState, Seq<u8>, Seq<PacketView>, bool)
    decreases b.len(), st.ready.len(),
{
    let (st1, b1, out) = pull_spec(st, b);
    match out {
        PullOutcome::Packet(p) => {
            proof {
                lemma_pull_leaves_suffix(st, b);
            }
            let (st2, b2, ps, bad) = drain(st1, b1);
            (st2, b2, seq![p] + ps, bad)
        },
        PullOutcome::NeedMore => (st1, b1, Seq::empty(), false),
        PullOutcome::Malformed(_) => (st1, b1, Seq::empty(), true),
    }
}

/// The bytes of `chunks`, in order.
pub open spec fn concat_chunks(chunks: Seq<Seq<u8>>) -> Seq<u8>
    decreases chunks.len(),
{
    if chunks.len() == 0 {
        Seq::empty()
    } else {
        chunks[0] + concat_chunks(chunks.drop_first())
    }
}

/// Feeding `chunks` one after another, draining after each: the state and
/// bytes left, every packet handed out in order, and whether it stopped at a
/// malformed packet.
pub open spec fn feed(st: DemuxState, b: Seq<u8>, chunks: Seq<Seq<u8>>) -> (DemuxState, Seq<u8>, Seq<PacketView>, bool)
    decreases chunks.len(),
{
    if chunks.len() == 0 {
        (st, b, Seq::empty(), false)
    } else {
        let (st1, b1, ps1, bad1) = drain(st, b + chunks[0]);
        if bad1 {
            (st1, b1, ps1, true)
        } else {
            let (st2, b2, ps2, bad2) = feed(st1, b1, chunks.drop_first());
            (st2, b2, ps1 + ps2, bad2)
        }
    }
}

/// Draining `b + more` first drains `b`; what follows depends only on what
/// that left, with `more` behind it.
proof fn lemma_drain_append(st: DemuxState, b: Seq<u8>, more: Seq<u8>)
    ensures
        ({
            let (st1, b1, ps1, bad1) = drain(st, b);
            let (st2, b2, ps2, bad2) = drain(st, b + more);
            if bad1 {
                st2 == st1 && b2 == b1 + more && ps2 == ps1 && bad2
            } else {
                let (st3, b3, ps3, bad3) = drain(st1, b1 + more);
                st2 == st3 && b2 == b3 && ps2 == ps1 + ps3 && bad2 == bad3
            }
        }),
    decreases b.len(), st.ready.len(),
{
    let (st1, b1, out) = pull_spec(st, b);
    match out {
        PullOutcome::Packet(p) => {
            lemma_pull_leaves_suffix(st, b);
            lemma_pull_stable_under_append(st, b, more);
            lemma_drain_append(st1, b1, more);
            let (sa, ba, psa, bada) = drain(st1, b1);
            if !bada {
                let (sc, bc, psc, badc) = drain(sa, ba + more);
                assert(seq![p] + psa + psc =~= seq![p] + (psa + psc));
            }
        },
        PullOutcome::NeedMore => {
            lemma_need_more_then_pull(st, b, more);
            let ps = drain(st1, b1 + more).2;
            assert(Seq::<PacketView>::empty() + ps =~= ps);
        },
        PullOutcome::Malformed(_) => {
            lemma_pull_stable_under_append(st, b, more);
        },
    }
}

/// A demuxer with nothing to hand out: a pull over what it holds needs more
/// bytes and changes nothing.
pub open spec fn quiescent(st: DemuxState, b: Seq<u8>) -> bool {
    pull_spec(st, b) == (st, b, PullOutcome::NeedMore)
}

/// A demuxer with no queued packet and nothing buffered (a fresh one) is
/// quiescent.
pub proof fn lemma_empty_is_quiescent(st: DemuxState)
    requires
        st.ready.len() == 0,
    ensures
        quiescent(st, Seq::empty()),
{
}

/// After a pull that needs more bytes, pulling again over what it left
/// needs more bytes and changes nothing.
proof fn lemma_need_more_is_quiescent(st: DemuxState, b: Seq<u8>)
    requires
        pull_spec(st, b).2 is NeedMore,
    ensures
        quiescent(pull_spec(st, b).0, pull_spec(st, b).1),
    decreases b.len(),
{
    if st.ready.len() == 0 {
        match find_from(b, capture_pattern(), 0) {
            None => {},
            Some(pos) => {
                lemma_find_from_bounds(b, capture_pattern(), 0);
                let b1 = b.subrange(pos, b.len() as int);
                if b1.len() < 27 || b1.len() < 27 + page_segments(b1) || b1.len() < page_len(b1) {
                    assert(occurs_at(b1, capture_pattern(), 0)) by {
                        assert(b1.subrange(0, 4) =~= b.subrange(pos, pos + 4));
                    }
                    assert(find_from(b1, capture_pattern(), 0) == Some(0int));
                    assert(b1.subrange(0, b1.len() as int) =~= b1);
                } else {
                    let b2 = b1.subrange(page_len(b1), b1.len() as int);
                    let (st2, err) = consume_page(st, b1);
                    lemma_need_more_is_quiescent(st2, b2);
                }
            },
        }
    }
}

/// A drain that did not stop at a malformed packet leaves a quiescent
/// demuxer.
proof fn lemma_drain_ends_quiescent(st: DemuxState, b: Seq<u8>)
    requires
        !drain(st, b).3,
    ensures
        quiescent(drain(st, b).0, drain(st, b).1),
    decreases b.len(), st.ready.len(),
{
    let (st1, b1, out) = pull_spec(st, b);
    match out {
        PullOutcome::Packet(p) => {
            lemma_pull_leaves_suffix(st, b);
            lemma_drain_ends_quiescent(st1, b1);
        },
        PullOutcome::NeedMore => {
            lemma_need_more_is_quiescent(st, b);
        },
        PullOutcome::Malformed(_) => {},
    }
}

/// The packets a demuxer hands out do not depend on how its input was cut
/// into reads. From a quiescent demuxer (a fresh one with an empty buffer,
/// say), feeding the chunks one by one and draining after each gives the
/// same packets, in the same order, and ends in the same state as draining
/// the whole input at once; either both stop at a malformed packet or
/// neither does, and when neither does the same bytes are left buffered.
pub proof fn lemma_chunking_does_not_matter(st: DemuxState, b: Seq<u8>, chunks: Seq<Seq<u8>>)
    requires
        quiescent(st, b),
    ensures
        feed(st, b, chunks).0 == drain(st, b + concat_chunks(chunks)).0,
        feed(st, b, chunks).2 == drain(st, b + concat_chunks(chunks)).2,
        feed(st, b, chunks).3 == drain(st, b + concat_chunks(chunks)).3,
        !feed(st, b, chunks).3 ==> feed(st, b, chunks).1 == drain(st, b + concat_chunks(chunks)).1,
    decreases chunks.len(),
{
    if chunks.len() == 0 {
        assert(b + concat_chunks(chunks) =~= b);
    } else {
        let c0 = chunks[0];
        let rest = chunks.drop_first();
        assert(b + concat_chunks(chunks) =~= (b + c0) + concat_chunks(rest));
        lemma_drain_append(st, b + c0, concat_chunks(rest));
        let (st1, b1, ps1, bad1) = drain(st, b + c0);
        if !bad1 {
            lemma_drain_ends_quiescent(st, b + c0);
            lemma_chunking_does_not_matter(st1, b1, rest);
        }
    }
}

/// Position of the first occurrence of `needle` in `hay`; `None` when `needle`
/// is empty or does not occur.
pub fn find_subslice(hay: &[u8], needle: &[u8]) -> (r: Option<usize>)
    ensures
        needle@.len() == 0 ==> r is None,
        needle@.len() > 0 ==> match (r, find_from(hay@, needle@, 0)) {
            (Some(k), Some(sk)) => k == sk,
            (None, None) => true,
            _ => false,
        },
{
    if needle.len() == 0 || hay.len() < needle.len() {
        return None;
    }
    let mut k: usize = 0;
    while k <= hay.len() - needle.len()
        invariant
            0 < needle@.len() <= hay@.len(),
            k <= hay@.len() - needle@.len() + 1,
            find_from(hay@, needle@, 0) == find_from(hay@, needle@, k as int),
        decreases hay.len() - needle.len() + 1 - k,
    {
        let window = &hay[k..k + needle.len()];
        if starts_with_bytes(window, needle) {
            assert(window@.subrange(0, needle@.len() as int) =~= window@);
            return Some(k);
        }
        assert(!occurs_at(hay@, needle@, k as int)) by {
            if occurs_at(hay@, needle@, k as int) {
                assert(window@.subrange(0, needle@.len() as int) =~= window@);
            }
        }
        k = k + 1;
    }
    None
}

/// The byte contents of a queue of packets.
pub open spec fn packet_bytes(q: Seq<Vec<u8>>) -> Seq<Seq<u8>> {
    q.map_values(|v: Vec<u8>| v@)
}

/// Sum of a segment table's lacing values.
fn lace_sum(seg: &[u8]) -> (n: usize)
    requires
        seg@.len() <= 255,
    ensures
        n == lace_total(seg@),
        n <= 255 * 255,
{
    let mut total: usize = 0;
    let mut k: usize = 0;
    assert(seg@.subrange(0, seg@.len() as int) =~= seg@);
    while k < seg.len()
        invariant
            k <= seg@.len() <= 255,
            total <= 255 * k,
            total + lace_total(seg@.subrange(k as int, seg@.len() as int)) == lace_total(seg@),
        decreases seg.len() - k,
    {
        assert(seg@.subrange(k as int, seg@.len() as int).drop_first() =~= seg@.subrange(
            k + 1,
            seg@.len() as int,
        ));
        assert(seg@.subrange(k as int, seg@.len() as int)[0] == seg@[k as int]);
        total = total + seg[k] as usize;
        k = k + 1;
    }
    assert(seg@.subrange(k as int, seg@.len() as int) =~= Seq::<u8>::empty());
    total
}

/// Split the segment data of one page into packets (see `lacing_split`).
fn split_lacing(seg: &[u8], data: &[u8], cur0: Vec<u8>) -> (r: (VecDeque<Vec<u8>>, Vec<u8>))
    requires
        lace_total(seg@) == data@.len(),
    ensures
        (packet_bytes(r.0@), r.1@) == lacing_split(seg@, data@, cur0@),
{
    let ghost target = lacing_split(seg@, data@, cur0@);
    let mut pkts: VecDeque<Vec<u8>> = VecDeque::new();
    let mut cur = cur0;
    let mut off: usize = 0;
    let mut k: usize = 0;
    assert(seg@.subrange(0, seg@.len() as int) =~= seg@);
    assert(data@.subrange(0, data@.len() as int) =~= data@);
    assert(packet_bytes(pkts@) =~= Seq::<Seq<u8>>::empty());
    assert(packet_bytes(pkts@) + target.0 =~= target.0);
    while k < seg.len()
        invariant
            k <= seg@.len(),
            off <= data@.len(),
            off + lace_total(seg@.subrange(k as int, seg@.len() as int)) == data@.len(),
            target == ({
                let (ps, t) = lacing_split(
                    seg@.subrange(k as int, seg@.len() as int),
                    data@.subrange(off as int, data@.len() as int),
                    cur@,
                );
                (packet_bytes(pkts@) + ps, t)
            }),
        decreases seg.len() - k,
    {
        let ghost sk = seg@.subrange(k as int, seg@.len() as int);
        let ghost dk = data@.subrange(off as int, data@.len() as int);
        assert(sk.drop_first() =~= seg@.subrange(k + 1, seg@.len() as int));
        let l = seg[k] as usize;
        assert(sk[0] == l);
        assert(lace_total(sk) == l + lace_total(sk.drop_first()));
        assert(off + l <= data.len());
        let mut piece = vstd::slice::slice_to_vec(&data[off..off + l]);
        assert(dk.subrange(0, l as int) =~= piece@);
        assert(dk.subrange(l as int, dk.len() as int) =~= data@.subrange(off + l, data@.len() as int));
        let ghost before = packet_bytes(pkts@);
        let ghost joined = cur@ + piece@;
        cur.append(&mut piece);
        assert(cur@ == joined);
        if l < 255 {
            let done = cur.split_off(0);
            let ghost old_pkts = pkts@;
            assert(done@ == joined);
            pkts.push_back(done);
            assert(pkts@ == old_pkts.push(done));
            assert(packet_bytes(pkts@) =~= before.push(joined)) by {
                assert forall|i: int| 0 <= i < pkts@.len() implies packet_bytes(pkts@)[i] == before.push(
                    joined,
                )[i] by {
                    if i < old_pkts.len() {
                        assert(pkts@[i] == old_pkts[i]);
                    }
                }
            }
            proof {
                let (ps, t) = lacing_split(
                    seg@.subrange(k + 1, seg@.len() as int),
                    data@.subrange(off + l, data@.len() as int),
                    Seq::empty(),
                );
                assert(before + (seq![joined] + ps) =~= before.push(joined) + ps);
                assert(cur@ =~= Seq::<u8>::empty());
            }
        }
        off = off + l;
        k = k + 1;
    }
    proof {
        assert(seg@.subrange(k as int, seg@.len() as int) =~= Seq::<u8>::empty());
        assert(packet_bytes(pkts@) + Seq::<Seq<u8>>::empty() =~= packet_bytes(pkts@));
    }
    (pkts, cur)
}

impl Default for OpusDemux {
    fn default() -> (d: Self)
        ensures
            d.state().channels == 0,
            d.state().carry.len() == 0,
            !d.state().carry_active,
            d.state().ready.len() == 0,
    {
        OpusDemux::new()
    }
}

impl OpusDemux {
    /// The demuxer's state.
    pub closed spec fn state(&self) -> DemuxState {
        DemuxState {
            channels: self.channels,
            carry: self.carry@,
            carry_active: self.carry_active,
            ready: self.ready@.map_values(|p: OpusPacket| p@),
        }
    }

    pub fn new() -> (d: Self)
        ensures
            d.state().channels == 0,
            d.state().carry.len() == 0,
            !d.state().carry_active,
            d.state().ready.len() == 0,
    {
        OpusDemux { channels: 0, carry: Vec::new(), carry_active: false, ready: VecDeque::new() }
    }

    /// Hand the packets of one page to the queue (see `enqueue`).
    fn enqueue_packets(&mut self, pkts: VecDeque<Vec<u8>>) -> (r: Result<(), &'static str>)
        ensures
            ({
                let out = enqueue(old(self).state().channels, old(self).state().ready, packet_bytes(pkts@));
                &&& final(self).state().channels == out.0
                &&& final(self).state().ready == out.1
                &&& final(self).state().carry == old(self).state().carry
                &&& final(self).state().carry_active == old(self).state().carry_active
                &&& (r is Err <==> out.2 is Some)
                &&& (r matches Err(e) ==> out.2 == Some(e@))
            }),
    {
        let ghost target = enqueue(self.state().channels, self.state().ready, packet_bytes(pkts@));
        let head_tag: Vec<u8> = vec![0x4Fu8, 0x70u8, 0x75u8, 0x73u8, 0x48u8, 0x65u8, 0x61u8, 0x64u8];
        let tags_tag: Vec<u8> = vec![0x4Fu8, 0x70u8, 0x75u8, 0x73u8, 0x54u8, 0x61u8, 0x67u8, 0x73u8];
        assert(head_tag@ =~= opus_head_tag());
        assert(tags_tag@ =~= opus_tags_tag());
        let mut queue = pkts;
        loop
            invariant
                head_tag@ == opus_head_tag(),
                tags_tag@ == opus_tags_tag(),
                self.carry@ == old(self).carry@,
                self.carry_active == old(self).carry_active,
                target == enqueue(old(self).state().channels, old(self).state().ready, packet_bytes(pkts@)),
                target == enqueue(self.state().channels, self.state().ready, packet_bytes(queue@)),
            decreases queue@.len(),
        {
            let ghost before = queue@;
            let ghost ready_before = self.ready@;
            match queue.pop_front() {
                None => {
                    assert(packet_bytes(queue@) =~= Seq::<Seq<u8>>::empty());
                    return Ok(());
                },
                Some(pkt) => {
                    assert(packet_bytes(before).drop_first() =~= packet_bytes(queue@));
                    assert(packet_bytes(before)[0] == pkt@);
                    if pkt.len() == 0 {
                        continue;
                    }
                    if pkt.len() >= 10 && starts_with_bytes(pkt.as_slice(), head_tag.as_slice()) {
                        self.channels = pkt[9] as u32;
                        continue;
                    }
                    if pkt.len() >= 8 && starts_with_bytes(pkt.as_slice(), tags_tag.as_slice()) {
                        continue;
                    }
                    match opus_samples(pkt.as_slice()) {
                        Err(e) => {
                            return Err(e);
                        },
                        Ok(spc) => {
                            let channels = if self.channels == 0 {
                                2
                            } else {
                                self.channels
                            };
                            let packet = OpusPacket {
                                data: pkt,
                                sample_rate: 48000,
                                channels,
                                samples_per_channel: spc,
                            };
                            let ghost pv = packet@;
                            self.ready.push_back(packet);
                            assert(self.ready@.map_values(|p: OpusPacket| p@) =~= ready_before.map_values(
                                |p: OpusPacket| p@,
                            ).push(pv));
                        },
                    }
                },
            }
        }
    }

    /// Consume one complete page (see `consume_page`).
    fn consume_one_page(&mut self, page: &[u8]) -> (r: Result<(), &'static str>)
        requires
            page@.len() >= 27,
            page@.len() >= 27 + page_segments(page@),
            page@.len() >= page_len(page@),
        ensures
            ({
                let (st, err) = consume_page(old(self).state(), page@);
                &&& final(self).state() == st
                &&& (r is Err <==> err is Some)
                &&& (r matches Err(e) ==> err == Some(e@))
            }),
    {
        let ghost st0 = self.state();
        let nseg = page[26] as usize;
        let seg = &page[27..27 + nseg];
        assert(seg@ == page_seg_table(page@));
        let data_len = lace_sum(seg);
        let total = 27 + nseg + data_len;
        assert(total == page_len(page@));
        let continued = page[5] & 0x01 != 0;
        let take_carry = continued && self.carry_active;
        let cur0 = if take_carry {
            self.carry.split_off(0)
        } else {
            Vec::new()
        };
        assert(cur0@ == (if take_carry { st0.carry } else { Seq::<u8>::empty() }));
        assert(self.carry@ == (if take_carry { Seq::<u8>::empty() } else { st0.carry }));
        self.carry_active = false;
        let data = &page[27 + nseg..total];
        assert(data@ == page@.subrange(27 + page_segments(page@), page_len(page@)));
        let (pkts, cur) = split_lacing(seg, data, cur0);
        let last255 = nseg > 0 && seg[nseg - 1] == 255;
        if last255 {
            self.carry = cur;
            self.carry_active = true;
        }
        assert(self.state().channels == st0.channels);
        assert(self.state().ready == st0.ready);
        self.enqueue_packets(pkts)
    }

    /// Pull the next Opus audio packet, consuming whole Ogg pages from the
    /// front of `buf` as needed. `Ok(Some(pkt))` when one is ready, `Ok(None)`
    /// if more bytes are needed (or the stream ended), `Err` on a malformed
    /// Opus packet.
    pub fn pull(&mut self, buf: &mut Vec<u8>) -> (r: Result<Option<OpusPacket>, &'static str>)
        ensures
            ({
                let (st, rest, out) = pull_spec(old(self).state(), old(buf)@);
                &&& final(self).state() == st
                &&& final(buf)@ == rest
                &&& match out {
                    PullOutcome::Packet(p) => r matches Ok(Some(pkt)) && pkt@ == p,
                    PullOutcome::NeedMore => r matches Ok(None),
                    PullOutcome::Malformed(m) => r matches Err(e) && e@ == m,
                }
            }),
    {
        let ghost target = pull_spec(self.state(), buf@);
        let needle: Vec<u8> = vec![0x4Fu8, 0x67u8, 0x67u8, 0x53u8];
        assert(needle@ =~= capture_pattern());
        loop
            invariant
                needle@ == capture_pattern(),
                target == pull_spec(old(self).state(), old(buf)@),
                target == pull_spec(self.state(), buf@),
            decreases buf@.len(),
        {
            let ghost ready_before = self.ready@;
            if let Some(p) = self.ready.pop_front() {
                assert(self.ready@.map_values(|p: OpusPacket| p@) =~= ready_before.map_values(
                    |p: OpusPacket| p@,
                ).drop_first());
                return Ok(Some(p));
            }
            let ghost b = buf@;
            proof {
                lemma_find_from_bounds(b, capture_pattern(), 0);
            }
            match find_subslice(buf.as_slice(), needle.as_slice()) {
                None => {
                    return Ok(None);
                },
                Some(pos) => {
                    drain_front(buf, pos);
                },
            }
            if buf.len() < 27 {
                return Ok(None);
            }
            let nseg = buf[26] as usize;
            if buf.len() < 27 + nseg {
                return Ok(None);
            }
            let data_len = lace_sum(&buf.as_slice()[27..27 + nseg]);
            assert(buf@.subrange(27, 27 + nseg as int) == page_seg_table(buf@));
            let page_total = 27 + nseg + data_len;
            if buf.len() < page_total {
                return Ok(None);
            }
            let page = vstd::slice::slice_to_vec(&buf.as_slice()[0..page_total]);
            let ghost b1 = buf@;
            drain_front(buf, page_total);
            assert(page@.subrange(27, 27 + nseg as int) =~= b1.subrange(27, 27 + nseg as int));
            assert(page@.subrange(27 + nseg as int, page_total as int) =~= b1.subrange(
                27 + nseg as int,
                page_total as int,
            ));
            if let Err(e) = self.consume_one_page(page.as_slice()) {
                return Err(e);
            }
        }
    }
}

} // verus!
