//! IVF demuxer shared by VP8 / VP9 / AV1: a 32-byte file header (`"DKIF"`,
//! version, header length, FourCC, ...) followed, per frame, by a 12-byte header
//! (`frame_size: u32 LE`, `timestamp: u64 LE`) and the payload. Only the
//! keyframe test differs per codec:
//!   - VP8: bit 0 of the first payload byte (`key_frame`, 0 = key).
//!   - VP9: the uncompressed header (`frame_marker`, profile,
//!     `show_existing_frame`, `frame_type`).
//!   - AV1: the temporal unit carries an `OBU_SEQUENCE_HEADER`.

use vstd::prelude::*;
use crate::parse::buffer::drain_front;
use crate::parse::bits::{bit_at, bits_msb, two_pow, lemma_bits_msb_bound, lemma_two_pow_mono,
    lemma_bit_is_0_or_1, lemma_two_pow_pos};

verus! {

#[derive(Debug, Clone, Copy, PartialEq, Eq)]
pub enum IvfCodec {
    Vp8,
    Vp9,
    Av1,
}

/// One coded frame (the IVF frame header removed).
#[derive(Debug, Clone, PartialEq, Eq)]
pub struct IvfFrame {
    pub data: Vec<u8>,
    pub is_keyframe: bool,
}

/// Pulls frames out of an IVF stream; consumes the file header once.
pub struct IvfReader {
    codec: IvfCodec,
    header_seen: bool,
}

// ---------------------------------------------------------------------------
// Keyframe tests
// ---------------------------------------------------------------------------

/// VP8 frame tag: bit 0 of byte 0 is `key_frame` (0 = key frame).
pub open spec fn vp8_key(p: Seq<u8>) -> bool {
    p.len() > 0 && (p[0] & 0x01) == 0
}

/// VP9 uncompressed header: `frame_marker` (2 bits) is `0b10`, then
/// `profile_low_bit`, `profile_high_bit`, a reserved zero bit when the profile
/// is 3, `show_existing_frame` which must be 0, and `frame_type` which is 0
/// (KEY_FRAME) for a keyframe.
pub open spec fn vp9_key(p: Seq<u8>) -> bool {
    let nbits = 8 * p.len();
    if nbits < 4 {
        false
    } else if !(bit_at(p, 0) == 1 && bit_at(p, 1) == 0) {
        false
    } else {
        let profile = 2 * bit_at(p, 3) + bit_at(p, 2);
        let pos: int = if profile == 3 { 5 } else { 4 };
        pos + 2 <= nbits && bit_at(p, pos) == 0 && bit_at(p, pos + 1) == 0
    }
}

/// A VP9 frame's first byte, most significant bit first: `frame_marker`
/// (0b10), `profile_low_bit`, `profile_high_bit`, then, for profiles 0, 1
/// and 2, `show_existing_frame` and `frame_type`; profile 3 puts a reserved
/// bit before those two. The frame is a keyframe exactly when the marker is
/// right and both of those bits are 0 (no shown-again frame, KEY_FRAME).
pub proof fn lemma_vp9_key_first_byte(p: Seq<u8>)
    requires
        p.len() > 0,
    ensures
        ({
            let x = p[0];
            &&& (x & 0xC0) != 0x80 ==> !vp9_key(p)
            &&& (x & 0xC0) == 0x80 && (x & 0x30) != 0x30 ==> (vp9_key(p) <==> (x & 0x0C) == 0)
            &&& (x & 0xC0) == 0x80 && (x & 0x30) == 0x30 ==> (vp9_key(p) <==> (x & 0x06) == 0)
        }),
{
    let x = p[0];
    assert(bit_at(p, 0) == (x >> 7u8) & 1u8);
    assert(bit_at(p, 1) == (x >> 6u8) & 1u8);
    assert(bit_at(p, 2) == (x >> 5u8) & 1u8);
    assert(bit_at(p, 3) == (x >> 4u8) & 1u8);
    assert(bit_at(p, 4) == (x >> 3u8) & 1u8);
    assert(bit_at(p, 5) == (x >> 2u8) & 1u8);
    assert(bit_at(p, 6) == (x >> 1u8) & 1u8);
    assert(((x >> 7u8) & 1u8 == 1 && (x >> 6u8) & 1u8 == 0) == ((x & 0xC0) == 0x80)) by (bit_vector);
    assert(((x >> 5u8) & 1u8 == 1 && (x >> 4u8) & 1u8 == 1) == ((x & 0x30) == 0x30)) by (bit_vector);
    assert(((x >> 3u8) & 1u8 == 0 && (x >> 2u8) & 1u8 == 0) == ((x & 0x0C) == 0)) by (bit_vector);
    assert(((x >> 2u8) & 1u8 == 0 && (x >> 1u8) & 1u8 == 0) == ((x & 0x06) == 0)) by (bit_vector);
    assert((x >> 5u8) & 1u8 <= 1 && (x >> 4u8) & 1u8 <= 1) by (bit_vector);
}

/// Unsigned LEB128 from byte `i` on: up to 8 bytes, 7 bits each, least
/// significant group first, continuation in the high bit. The value of the
/// groups from `i` on (scaled to their position) and the total byte count.
pub open spec fn leb128_from(b: Seq<u8>, i: nat) -> Option<(nat, nat)>
    decreases 8 - i,
{
    if i >= 8 || i >= b.len() {
        None
    } else {
        let v = (b[i as int] & 0x7F) as nat * two_pow(7 * i);
        if (b[i as int] & 0x80) == 0 {
            Some((v, i + 1))
        } else {
            match leb128_from(b, i + 1) {
                Some((rest, n)) => Some((v + rest, n)),
                None => None,
            }
        }
    }
}

/// Unsigned LEB128 at the front of `b`: `(value, bytes)`.
pub open spec fn leb128_value(b: Seq<u8>) -> Option<(nat, nat)> {
    leb128_from(b, 0)
}

/// Some OBU from byte `i` on is an `OBU_SEQUENCE_HEADER` (type 1). Each OBU
/// header gives the type (bits 6..3), an extension flag (bit 2) adding one
/// byte, and a has-size flag (bit 1) followed by a LEB128 payload size; an OBU
/// without a size runs to the end.
pub open spec fn av1_seq_header_from(p: Seq<u8>, i: int) -> bool
    decreases p.len() - i,
{
    if i < 0 || i >= p.len() {
        false
    } else {
        let hdr = p[i];
        let j = i + 1 + ((hdr >> 2u8) & 0x01) as int;
        if j > p.len() {
            false
        } else if (hdr >> 3u8) & 0x0F == 1 {
            true
        } else if (hdr >> 1u8) & 0x01 == 1 {
            match leb128_value(p.subrange(j, p.len() as int)) {
                Some((sz, n)) => if n >= 1 && j + n + sz < p.len() {
                    av1_seq_header_from(p, j + n + sz)
                } else {
                    false
                },
                None => false,
            }
        } else {
            false
        }
    }
}

pub open spec fn av1_key(p: Seq<u8>) -> bool {
    av1_seq_header_from(p, 0)
}

pub open spec fn is_key(codec: IvfCodec, p: Seq<u8>) -> bool {
    match codec {
        IvfCodec::Vp8 => vp8_key(p),
        IvfCodec::Vp9 => vp9_key(p),
        IvfCodec::Av1 => av1_key(p),
    }
}

// ---------------------------------------------------------------------------
// Container framing
// ---------------------------------------------------------------------------

pub open spec fn le_u16(b: Seq<u8>, i: int) -> int {
    b[i] + 256 * b[i + 1]
}

pub open spec fn le_u32(b: Seq<u8>, i: int) -> int {
    b[i] + 256 * b[i + 1] + 65536 * b[i + 2] + 16777216 * b[i + 3]
}

/// `"DKIF"` at the front.
pub open spec fn dkif_magic(b: Seq<u8>) -> bool {
    b[0] == 0x44 && b[1] == 0x4B && b[2] == 0x49 && b[3] == 0x46
}

/// File header length: the header-length field, at least 32.
pub open spec fn file_header_len(b: Seq<u8>) -> int {
    if le_u16(b, 6) < 32 {
        32
    } else {
        le_u16(b, 6)
    }
}

/// Outcome of one `pull`.
pub enum IvfPull {
    Malformed,
    NeedMore,
    Frame { data: Seq<u8>, keyframe: bool },
}

/// One `pull` on a reader for `codec` whose file header was (or was not yet)
/// consumed, over buffered bytes `b`: whether the file header is consumed
/// afterwards, the bytes left buffered, and the outcome.
pub open spec fn ivf_pull(codec: IvfCodec, header_seen: bool, b: Seq<u8>) -> (bool, Seq<u8>, IvfPull) {
    if !header_seen && b.len() < 32 {
        (false, b, IvfPull::NeedMore)
    } else if !header_seen && !dkif_magic(b) {
        (false, b, IvfPull::Malformed)
    } else if !header_seen && b.len() < file_header_len(b) {
        (false, b, IvfPull::NeedMore)
    } else {
        let rest = if header_seen {
            b
        } else {
            b.subrange(file_header_len(b), b.len() as int)
        };
        if rest.len() < 12 {
            (true, rest, IvfPull::NeedMore)
        } else {
            let total = 12 + le_u32(rest, 0);
            if rest.len() < total {
                (true, rest, IvfPull::NeedMore)
            } else {
                let payload = rest.subrange(12, total);
                (
                    true,
                    rest.subrange(total, rest.len() as int),
                    IvfPull::Frame { data: payload, keyframe: is_key(codec, payload) },
                )
            }
        }
    }
}

/// The frame part of a pull (after the file header) over `rest + more`.
proof fn lemma_frame_part_append(rest: Seq<u8>, more: Seq<u8>)
    ensures
        rest.len() >= 12 ==> le_u32(rest + more, 0) == le_u32(rest, 0),
        rest.len() >= 12 && rest.len() >= 12 + le_u32(rest, 0) ==> {
            let total = 12 + le_u32(rest, 0);
            &&& (rest + more).subrange(12, total) == rest.subrange(12, total)
            &&& (rest + more).subrange(total, (rest + more).len() as int) == rest.subrange(
                total,
                rest.len() as int,
            ) + more
        },
{
    let c = rest + more;
    if rest.len() >= 12 {
        assert(c[0] == rest[0] && c[1] == rest[1] && c[2] == rest[2] && c[3] == rest[3]);
        if rest.len() >= 12 + le_u32(rest, 0) {
            let total = 12 + le_u32(rest, 0);
            assert(c.subrange(12, total) =~= rest.subrange(12, total));
            assert(c.subrange(total, c.len() as int) =~= rest.subrange(total, rest.len() as int) + more);
        }
    }
}

/// The file-header part of a pull over `b + more`.
proof fn lemma_header_part_append(b: Seq<u8>, more: Seq<u8>)
    requires
        b.len() >= 32,
    ensures
        dkif_magic(b + more) == dkif_magic(b),
        file_header_len(b + more) == file_header_len(b),
        b.len() >= file_header_len(b) ==> (b + more).subrange(file_header_len(b), (b + more).len() as int)
            == b.subrange(file_header_len(b), b.len() as int) + more,
{
    let c = b + more;
    assert(c[0] == b[0] && c[1] == b[1] && c[2] == b[2] && c[3] == b[3] && c[6] == b[6] && c[7] == b[7]);
    if b.len() >= file_header_len(b) {
        let h = file_header_len(b);
        assert(c.subrange(h, c.len() as int) =~= b.subrange(h, b.len() as int) + more);
    }
}

/// Bytes that arrive later do not change a pull that already has its answer:
/// a frame (or a bad file header) found in `b` is found the same way in
/// `b + more`, and the new bytes stay buffered behind what was left.
pub proof fn lemma_pull_stable_under_append(codec: IvfCodec, seen: bool, b: Seq<u8>, more: Seq<u8>)
    requires
        !(ivf_pull(codec, seen, b).2 is NeedMore),
    ensures
        ivf_pull(codec, seen, b + more).0 == ivf_pull(codec, seen, b).0,
        ivf_pull(codec, seen, b + more).1 == ivf_pull(codec, seen, b).1 + more,
        ivf_pull(codec, seen, b + more).2 == ivf_pull(codec, seen, b).2,
{
    if !seen {
        lemma_header_part_append(b, more);
        if dkif_magic(b) {
            let h = file_header_len(b);
            lemma_frame_part_append(b.subrange(h, b.len() as int), more);
        }
    } else {
        lemma_frame_part_append(b, more);
    }
}

/// A pull that needs more bytes keeps everything that matters: pulling again
/// once `more` has arrived behind what it left gives what one pull over all
/// the bytes gives. With `lemma_pull_stable_under_append`, the frames a
/// reader yields do not depend on how the stream was cut into reads.
pub proof fn lemma_need_more_then_pull(codec: IvfCodec, seen: bool, b: Seq<u8>, more: Seq<u8>)
    requires
        ivf_pull(codec, seen, b).2 is NeedMore,
    ensures
        ivf_pull(codec, ivf_pull(codec, seen, b).0, ivf_pull(codec, seen, b).1 + more) == ivf_pull(
            codec,
            seen,
            b + more,
        ),
{
    if !seen && b.len() >= 32 {
        lemma_header_part_append(b, more);
        if dkif_magic(b) && b.len() >= file_header_len(b) {
            let h = file_header_len(b);
            let rest = b.subrange(h, b.len() as int);
            assert(ivf_pull(codec, seen, b).1 == rest);
            assert((b + more).subrange(h, (b + more).len() as int) == rest + more);
        }
    }
}

impl IvfReader {
    pub closed spec fn codec(&self) -> IvfCodec {
        self.codec
    }

    pub closed spec fn header_seen(&self) -> bool {
        self.header_seen
    }

    pub fn new(codec: IvfCodec) -> (r: Self)
        ensures
            r.codec() == codec,
            !r.header_seen(),
    {
        IvfReader { codec, header_seen: false }
    }

    /// Pull the next coded frame, consuming the IVF file header (once) and the
    /// 12-byte frame header from the front of `buf`. `Ok(None)` if more bytes
    /// are needed; `Err` on a bad file header.
    pub fn pull(&mut self, buf: &mut Vec<u8>) -> (r: Result<Option<IvfFrame>, &'static str>)
        ensures
            ({
                let (seen, rest, out) = ivf_pull(old(self).codec(), old(self).header_seen(), old(buf)@);
                &&& final(self).codec() == old(self).codec()
                &&& final(self).header_seen() == seen
                &&& final(buf)@ == rest
                &&& match out {
                    IvfPull::Malformed => r matches Err(e) && e@ == "IVF: bad DKIF magic"@,
                    IvfPull::NeedMore => r == Ok::<Option<IvfFrame>, &'static str>(None),
                    IvfPull::Frame { data, keyframe } => r matches Ok(Some(f)) && f.data@ == data
                        && f.is_keyframe == keyframe,
                }
            }),
    {
        if !self.header_seen {
            if buf.len() < 32 {
                return Ok(None);
            }
            if !(buf[0] == 0x44 && buf[1] == 0x4B && buf[2] == 0x49 && buf[3] == 0x46) {
                return Err("IVF: bad DKIF magic");
            }
            let field = buf[6] as usize + 256 * buf[7] as usize;
            let hdr_len = if field < 32 { 32 } else { field };
            if buf.len() < hdr_len {
                return Ok(None);
            }
            drain_front(buf, hdr_len);
            self.header_seen = true;
        }
        if buf.len() < 12 {
            return Ok(None);
        }
        let frame_size = buf[0] as u64 + 256 * buf[1] as u64 + 65536 * buf[2] as u64 + 16777216
            * buf[3] as u64;
        let total = 12 + frame_size;
        if (buf.len() as u64) < total {
            return Ok(None);
        }
        let total = total as usize;
        let payload: Vec<u8> = vstd::slice::slice_to_vec(&buf.as_slice()[12..total]);
        drain_front(buf, total);
        let is_keyframe = match self.codec {
            IvfCodec::Vp8 => vp8_is_keyframe(payload.as_slice()),
            IvfCodec::Vp9 => vp9_is_keyframe(payload.as_slice()),
            IvfCodec::Av1 => av1_is_keyframe(payload.as_slice()),
        };
        Ok(Some(IvfFrame { data: payload, is_keyframe }))
    }
}

/// VP8 frame tag: the low bit of byte 0 is `key_frame` (0 = key frame).
pub fn vp8_is_keyframe(p: &[u8]) -> (r: bool)
    ensures
        r == vp8_key(p@),
{
    p.len() > 0 && (p[0] & 0x01) == 0
}

/// Minimal most-significant-first bit reader.
pub struct BitReader<'a> {
    b: &'a [u8],
    bit: usize,
}

impl<'a> BitReader<'a> {
    pub closed spec fn bytes(&self) -> Seq<u8> {
        self.b@
    }

    pub closed spec fn position(&self) -> int {
        self.bit as int
    }

    pub fn new(b: &'a [u8]) -> (r: Self)
        ensures
            r.bytes() == b@,
            r.position() == 0,
    {
        BitReader { b, bit: 0 }
    }

    /// Read `n` bits (`n <= 32`) most significant first; `None` if they run
    /// past the end.
    pub fn f(&mut self, n: usize) -> (r: Option<u32>)
        requires
            n <= 32,
            old(self).position() + n <= usize::MAX,
        ensures
            final(self).bytes() == old(self).bytes(),
            old(self).position() <= final(self).position() <= old(self).position() + n,
            n == 0 || old(self).position() + n <= 8 * old(self).bytes().len() ==> r == Some(
                bits_msb(old(self).bytes(), old(self).position(), n as nat) as u32,
            ) && final(self).position() == old(self).position() + n,
            n > 0 && old(self).position() + n > 8 * old(self).bytes().len() ==> r is None
                && final(self).position() == (if old(self).position() < 8 * old(self).bytes().len() {
                8 * old(self).bytes().len() as int
            } else {
                old(self).position() as int
            }),
    {
        let ghost start = self.bit as int;
        let ghost bytes = self.b@;
        let mut v: u32 = 0;
        let mut i: usize = 0;
        while i < n
            invariant
                i <= n <= 32,
                start + n <= usize::MAX,
                self.b@ == bytes,
                bytes == old(self).bytes(),
                start == old(self).position(),
                self.bit == start + i,
                i > 0 ==> start + i <= 8 * bytes.len(),
                v as nat == bits_msb(self.b@, start, i as nat),
            decreases n - i,
        {
            if self.bit / 8 >= self.b.len() {
                assert(start + n > 8 * bytes.len());
                return None;
            }
            proof {
                lemma_bits_msb_bound(self.b@, start, i as nat);
                lemma_two_pow_mono(i as nat, 31);
                reveal_with_fuel(two_pow, 32);
                lemma_bit_is_0_or_1(self.b@[self.bit as int / 8], (7 - self.bit as int % 8) as u8);
            }
            let byte = self.b[self.bit / 8];
            let shift = (7 - self.bit % 8) as u8;
            v = v * 2 + ((byte >> shift) & 1u8) as u32;
            self.bit = self.bit + 1;
            i = i + 1;
        }
        proof {
            if n > 0 {
                lemma_bits_msb_bound(bytes, start, n as nat);
            }
        }
        Some(v)
    }
}

/// VP9 uncompressed header (VP9 bitstream spec 6.2), most significant bit first.
pub fn vp9_is_keyframe(p: &[u8]) -> (r: bool)
    ensures
        r == vp9_key(p@),
{
    let mut r = BitReader::new(p);
    proof {
        reveal_with_fuel(bits_msb, 3);
        lemma_bit_is_0_or_1(p@[0], 7);
        lemma_bit_is_0_or_1(p@[0], 6);
    }
    if r.f(2) != Some(2u32) {
        return false;
    }
    let profile_low = r.f(1);
    let profile_high = r.f(1);
    let (lo, hi) = match (profile_low, profile_high) {
        (Some(lo), Some(hi)) => (lo, hi),
        _ => return false,
    };
    proof {
        lemma_bit_is_0_or_1(p@[0], 7);
        lemma_bit_is_0_or_1(p@[0], 6);
        lemma_bit_is_0_or_1(p@[0], 5);
        lemma_bit_is_0_or_1(p@[0], 4);
        lemma_bit_is_0_or_1(p@[0], 3);
        lemma_bit_is_0_or_1(p@[0], 2);
        lemma_bit_is_0_or_1(p@[0], 1);
    }
    let profile = hi * 2 + lo;
    if profile == 3 && r.f(1).is_none() {
        return false;
    }
    match r.f(1) {
        Some(1) => false,
        Some(0) => r.f(1) == Some(0u32),
        _ => false,
    }
}

/// Unsigned LEB128 (AV1 spec 4.10.5): up to 8 bytes, 7 bits each, least
/// significant group first, continuation in the high bit. Returns
/// `(value, bytes)`.
pub fn leb128(b: &[u8]) -> (r: Option<(u64, usize)>)
    ensures
        r matches Some((v, n)) ==> v < 0x100_0000_0000_0000 && 1 <= n <= 8,
        match (r, leb128_value(b@)) {
            (Some((v, n)), Some((sv, sn))) => v == sv && n == sn,
            (None, None) => true,
            _ => false,
        },
{
    let mut value: u64 = 0;
    let mut pw: u64 = 1;
    let mut i: usize = 0;
    while i < 8
        invariant
            i <= 8,
            pw as nat == two_pow(7 * i as nat),
            value < pw,
            i < 8 ==> pw <= 0x2_0000_0000_0000,
            leb128_from(b@, 0) == match leb128_from(b@, i as nat) {
                Some((rest, n)) => Some(((value + rest) as nat, n)),
                None => None::<(nat, nat)>,
            },
        decreases 8 - i,
    {
        if i >= b.len() {
            return None;
        }
        let byte = b[i];
        let low = (byte & 0x7F) as u64;
        proof {
            lemma_two_pow_shift7(7 * i as nat);
            lemma_two_pow_7i(i as nat);
            assert(low < 128) by (bit_vector)
                requires
                    low == (byte & 0x7F) as u64,
            ;
            assert(value + low * pw < 128 * pw) by (nonlinear_arith)
                requires
                    value < pw,
                    low < 128,
            ;
        }
        value = value + low * pw;
        if (byte & 0x80) == 0 {
            return Some((value, i + 1));
        }
        pw = pw * 128;
        i = i + 1;
    }
    None
}

proof fn lemma_two_pow_7i(i: nat)
    requires
        i <= 7,
    ensures
        i < 7 ==> two_pow(7 * i) <= 0x400_0000_0000,
        two_pow(7 * i) <= 0x2_0000_0000_0000,
{
    lemma_two_pow_shift7(0);
    lemma_two_pow_shift7(7);
    lemma_two_pow_shift7(14);
    lemma_two_pow_shift7(21);
    lemma_two_pow_shift7(28);
    lemma_two_pow_shift7(35);
    lemma_two_pow_shift7(42);
    assert(two_pow(0) == 1);
}

proof fn lemma_two_pow_shift7(k: nat)
    ensures
        two_pow(k + 7) == 128 * two_pow(k),
{
    reveal_with_fuel(two_pow, 8);
}

/// AV1: a temporal unit is a random-access point iff it carries an
/// OBU_SEQUENCE_HEADER (type 1); walk the OBU headers and LEB128 sizes.
pub fn av1_is_keyframe(p: &[u8]) -> (r: bool)
    ensures
        r == av1_key(p@),
{
    let mut i: usize = 0;
    while i < p.len()
        invariant
            i <= p.len(),
            av1_key(p@) == av1_seq_header_from(p@, i as int),
        decreases p.len() - i,
    {
        let hdr = p[i];
        let obu_type = (hdr >> 3u8) & 0x0F;
        let ext = (hdr >> 2u8) & 0x01;
        let has_size = (hdr >> 1u8) & 0x01;
        let ghost i0 = i as int;
        proof {
            lemma_bit_is_0_or_1(hdr, 2);
        }
        i = i + 1;
        if ext == 1 {
            if i >= p.len() {
                return false;
            }
            i = i + 1;
        }
        assert(i == i0 + 1 + ((hdr >> 2u8) & 0x01) as int);
        if obu_type == 1 {
            return true;
        }
        if has_size == 1 {
            let rest = &p[i..p.len()];
            match leb128(rest) {
                None => {
                    return false;
                },
                Some((sz, n)) => {
                    assert(rest@ == p@.subrange(i as int, p@.len() as int));
                    let remaining = p.len() - i;
                    if n as u64 + sz >= remaining as u64 {
                        return false;
                    }
                    i = i + n + sz as usize;
                },
            }
        } else {
            return false;
        }
    }
    false
}

} // verus!
