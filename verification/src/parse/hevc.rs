//! Annex-B NALU walker for H.265 / HEVC: yields one access unit per call.
//!
//! Same grouping as the H.264 walker with HEVC NAL semantics: a 2-byte NAL
//! header with `nal_type = (byte0 >> 1) & 0x3F`; slices are types 0-31 and
//! random-access (IRAP) pictures 16-23; VPS/SPS/PPS/AUD/prefix-SEI (32-35, 39)
//! may only precede a picture's first slice; a slice starts a new picture when
//! `first_slice_segment_in_pic_flag` (the first bit after the header) is set.

use vstd::prelude::*;
use crate::parse::annexb::{start_codes, header_offset, find_start_codes, header_offset_at,
    offsets, lemma_start_codes_from, lemma_start_codes_increasing, lemma_start_codes_append};
use crate::parse::h264::AuSplit;

verus! {

/// One access unit.
#[derive(Debug, Clone, PartialEq, Eq)]
pub struct H265Au<'a> {
    pub data: &'a [u8],
    /// True only when the access unit is an IRAP picture together with the
    /// VPS, SPS and PPS needed to decode it.
    pub is_keyframe: bool,
}

/// NAL unit type of the NAL whose start code begins at `p` (0 when its header
/// byte is not buffered).
pub open spec fn nal_type(b: Seq<u8>, p: int) -> u8 {
    let off = header_offset(b, p);
    if off < b.len() {
        (b[off] >> 1u8) & 0x3F
    } else {
        0
    }
}

pub open spec fn vcl_type(t: u8) -> bool {
    t <= 31
}

pub open spec fn irap_type(t: u8) -> bool {
    16 <= t <= 23
}

pub open spec fn delimiter_type(t: u8) -> bool {
    t == 32 || t == 33 || t == 34 || t == 35 || t == 39
}

/// `first_slice_segment_in_pic_flag` of the slice whose start code begins at
/// `p`, when its byte is buffered.
pub open spec fn first_in_pic(b: Seq<u8>, p: int) -> Option<bool> {
    let idx = header_offset(b, p) + 2;
    if idx < b.len() {
        Some((b[idx] >> 7u8) & 1 == 1)
    } else {
        None
    }
}

/// Index of the first start code at or after index `k` that begins a slice.
pub open spec fn first_vcl(b: Seq<u8>, s: Seq<int>, k: int) -> int
    decreases s.len() - k,
{
    if k < 0 || k >= s.len() {
        s.len() as int
    } else if vcl_type(nal_type(b, s[k])) {
        k
    } else {
        first_vcl(b, s, k + 1)
    }
}

/// The NAL at `p` does not continue the current picture.
pub open spec fn stops_picture(b: Seq<u8>, p: int) -> bool {
    let t = nal_type(b, p);
    delimiter_type(t) || (vcl_type(t) && first_in_pic(b, p) != Some(false))
}

/// Index of the first start code at or after index `k` that stops the picture.
pub open spec fn picture_stop(b: Seq<u8>, s: Seq<int>, k: int) -> int
    decreases s.len() - k,
{
    if k < 0 || k >= s.len() {
        s.len() as int
    } else if stops_picture(b, s[k]) {
        k
    } else {
        picture_stop(b, s, k + 1)
    }
}

/// Some NAL with an index in `[lo, hi)` has type `t`.
pub open spec fn has_type(b: Seq<u8>, s: Seq<int>, lo: int, hi: int, t: u8) -> bool
    decreases hi - lo,
{
    if hi <= lo {
        false
    } else {
        nal_type(b, s[hi - 1]) == t || has_type(b, s, lo, hi - 1, t)
    }
}

/// Some NAL with an index in `[lo, hi)` is an IRAP slice.
pub open spec fn has_irap(b: Seq<u8>, s: Seq<int>, lo: int, hi: int) -> bool
    decreases hi - lo,
{
    if hi <= lo {
        false
    } else {
        irap_type(nal_type(b, s[hi - 1])) || has_irap(b, s, lo, hi - 1)
    }
}

/// The access unit at the front of `b`.
pub open spec fn au_split(b: Seq<u8>, eof: bool) -> AuSplit {
    let s = start_codes(b);
    if s.len() == 0 {
        if eof && b.len() > 0 {
            AuSplit::Malformed
        } else {
            AuSplit::NeedMore
        }
    } else {
        let v = first_vcl(b, s, 0);
        let j = picture_stop(b, s, v + 1);
        let key = has_type(b, s, 0, v, 32) && has_type(b, s, 0, v, 33) && has_type(b, s, 0, v, 34)
            && has_irap(b, s, v, j);
        if v >= s.len() {
            AuSplit::NeedMore
        } else if j < s.len() && (delimiter_type(nal_type(b, s[j])) || first_in_pic(b, s[j]) == Some(true)) {
            AuSplit::Unit { start: s[0], end: s[j], keyframe: key }
        } else if eof {
            AuSplit::Unit { start: s[0], end: b.len() as int, keyframe: key }
        } else {
            AuSplit::NeedMore
        }
    }
}

/// `next_au`'s result is the split that `au_split` describes.
pub open spec fn matches_split(b: Seq<u8>, r: Result<Option<H265Au>, &'static str>, split: AuSplit) -> bool {
    match split {
        AuSplit::Malformed => r matches Err(e) && e@ == "trailing bytes without H.265 start code"@,
        AuSplit::NeedMore => r == Ok::<Option<H265Au>, &'static str>(None),
        AuSplit::Unit { start, end, keyframe } => r matches Ok(Some(au)) && 0 <= start <= end <= b.len()
            && au.data@ == b.subrange(start, end) && au.is_keyframe == keyframe,
    }
}

/// One buffered NAL reads the same once more bytes arrive behind it.
proof fn lemma_nal_append(b: Seq<u8>, more: Seq<u8>, p: int)
    requires
        header_offset(b + more, p) == header_offset(b, p),
        0 <= header_offset(b, p) < b.len(),
    ensures
        nal_type(b + more, p) == nal_type(b, p),
        first_in_pic(b, p) is Some ==> first_in_pic(b + more, p) == first_in_pic(b, p),
{
    let off = header_offset(b, p);
    assert((b + more)[off] == b[off]);
    if off + 2 < b.len() {
        assert((b + more)[off + 2] == b[off + 2]);
    }
}

proof fn lemma_first_vcl_ge(b: Seq<u8>, s: Seq<int>, k: int)
    requires
        0 <= k,
    ensures
        k <= first_vcl(b, s, k) <= s.len() || (k > s.len() && first_vcl(b, s, k) == s.len()),
    decreases s.len() - k,
{
    if k < s.len() && !vcl_type(nal_type(b, s[k])) {
        lemma_first_vcl_ge(b, s, k + 1);
    }
}

proof fn lemma_picture_stop_ge(b: Seq<u8>, s: Seq<int>, k: int)
    requires
        0 <= k,
    ensures
        k <= picture_stop(b, s, k) <= s.len() || (k > s.len() && picture_stop(b, s, k) == s.len()),
    decreases s.len() - k,
{
    if k < s.len() && !stops_picture(b, s[k]) {
        lemma_picture_stop_ge(b, s, k + 1);
    }
}

proof fn lemma_picture_stop_before(b: Seq<u8>, s: Seq<int>, k: int, i: int)
    requires
        0 <= k <= i < picture_stop(b, s, k),
        i < s.len(),
    ensures
        !stops_picture(b, s[i]),
    decreases i - k,
{
    if k < i {
        assert(!stops_picture(b, s[k]));
        lemma_picture_stop_before(b, s, k + 1, i);
    }
}

proof fn lemma_first_vcl_append(b: Seq<u8>, c: Seq<u8>, s: Seq<int>, s2: Seq<int>, k: int)
    requires
        0 <= k,
        s.len() <= s2.len(),
        first_vcl(b, s, k) < s.len(),
        forall|i: int| k <= i <= first_vcl(b, s, k) ==> s2[i] == #[trigger] s[i] && nal_type(c, s[i])
            == nal_type(b, s[i]),
    ensures
        first_vcl(c, s2, k) == first_vcl(b, s, k),
    decreases s.len() - k,
{
    lemma_first_vcl_ge(b, s, k);
    assert(s2[k] == s[k] && nal_type(c, s[k]) == nal_type(b, s[k]));
    if !vcl_type(nal_type(b, s[k])) {
        lemma_first_vcl_append(b, c, s, s2, k + 1);
    }
}

proof fn lemma_picture_stop_append(b: Seq<u8>, c: Seq<u8>, s: Seq<int>, s2: Seq<int>, k: int)
    requires
        0 <= k,
        s.len() <= s2.len(),
        picture_stop(b, s, k) < s.len(),
        forall|i: int| k <= i <= picture_stop(b, s, k) ==> s2[i] == #[trigger] s[i] && stops_picture(c, s[i])
            == stops_picture(b, s[i]),
    ensures
        picture_stop(c, s2, k) == picture_stop(b, s, k),
    decreases s.len() - k,
{
    lemma_picture_stop_ge(b, s, k);
    assert(s2[k] == s[k] && stops_picture(c, s[k]) == stops_picture(b, s[k]));
    if !stops_picture(b, s[k]) {
        lemma_picture_stop_append(b, c, s, s2, k + 1);
    }
}

proof fn lemma_has_type_append(b: Seq<u8>, c: Seq<u8>, s: Seq<int>, s2: Seq<int>, lo: int, hi: int, t: u8)
    requires
        forall|i: int| lo <= i < hi ==> s2[i] == #[trigger] s[i] && nal_type(c, s[i]) == nal_type(b, s[i]),
    ensures
        has_type(c, s2, lo, hi, t) == has_type(b, s, lo, hi, t),
        has_irap(c, s2, lo, hi) == has_irap(b, s, lo, hi),
    decreases hi - lo,
{
    if hi > lo {
        assert(s2[hi - 1] == s[hi - 1] && nal_type(c, s[hi - 1]) == nal_type(b, s[hi - 1]));
        lemma_has_type_append(b, c, s, s2, lo, hi - 1, t);
    }
}

proof fn lemma_first_vcl_before(b: Seq<u8>, s: Seq<int>, k: int, q: int)
    requires
        0 <= k <= q < first_vcl(b, s, k),
        q < s.len(),
    ensures
        !vcl_type(nal_type(b, s[q])),
    decreases q - k,
{
    if k < q {
        lemma_first_vcl_before(b, s, k + 1, q);
    }
}

/// Once a picture's first slice (a NAL of type 0 to 31) has been seen, a
/// slice whose `first_slice_segment_in_pic_flag` (the top bit of the byte
/// after the two-byte header) is set begins the next picture, and so does a
/// VPS, SPS, PPS, AUD or prefix SEI (types 32 to 35 and 39): an access unit
/// found before end of stream holds none of them after any of its slices.
pub proof fn lemma_new_picture_ends_unit(b: Seq<u8>, q: int, i: int)
    requires
        au_split(b, false) is Unit,
        0 <= q < i < start_codes(b).len(),
        start_codes(b)[i] < au_split(b, false)->end,
        nal_type(b, start_codes(b)[q]) <= 31,
    ensures
        ({
            let t = nal_type(b, start_codes(b)[i]);
            let flag_at = header_offset(b, start_codes(b)[i]) + 2;
            &&& !(t <= 31 && flag_at < b.len() && b[flag_at] >= 0x80)
            &&& !(32 <= t <= 35 || t == 39)
        }),
{
    let s = start_codes(b);
    lemma_start_codes_from(b, 0);
    let v = first_vcl(b, s, 0);
    let j = picture_stop(b, s, v + 1);
    lemma_first_vcl_ge(b, s, 0);
    lemma_picture_stop_ge(b, s, v + 1);
    if q < v {
        lemma_first_vcl_before(b, s, 0, q);
    }
    if i >= j {
        lemma_start_codes_increasing(b, j, i);
    }
    lemma_picture_stop_before(b, s, v + 1, i);
    let flag_at = header_offset(b, s[i]) + 2;
    if flag_at < b.len() {
        let x = b[flag_at];
        assert(((x >> 7u8) & 1 == 1) == (x >= 0x80)) by (bit_vector);
    }
}

/// An access unit found before end of stream does not change when more
/// bytes arrive: the splitter cuts a growing buffer the same way however the
/// bytes were split into reads.
pub proof fn lemma_au_stable_under_append(b: Seq<u8>, more: Seq<u8>)
    requires
        au_split(b, false) is Unit,
    ensures
        au_split(b + more, false) == au_split(b, false),
{
    let c = b + more;
    let s = start_codes(b);
    let s2 = start_codes(c);
    lemma_start_codes_append(b, more, 0);
    lemma_start_codes_from(b, 0);
    let v = first_vcl(b, s, 0);
    let j = picture_stop(b, s, v + 1);
    assert(0 <= v < j < s.len()) by {
        lemma_first_vcl_ge(b, s, 0);
        lemma_picture_stop_ge(b, s, v + 1);
    }
    // Every NAL before the cut has its header and the byte after it buffered;
    // the NAL at the cut has its header buffered.
    assert forall|i: int| 0 <= i <= j implies 0 <= #[trigger] header_offset(b, s[i]) < b.len() && (i < j
        ==> header_offset(b, s[i]) + 2 < b.len()) by {
        if i < j {
            lemma_start_codes_increasing(b, i + 1, j);
            assert(header_offset(b, s[i]) <= s[i + 1]);
        }
    }
    assert forall|i: int| 0 <= i <= j implies s2[i] == #[trigger] s[i] && nal_type(c, s[i]) == nal_type(b, s[i])
        && (first_in_pic(b, s[i]) is Some ==> first_in_pic(c, s[i]) == first_in_pic(b, s[i])) by {
        lemma_nal_append(b, more, s[i]);
    }
    assert forall|i: int| v + 1 <= i <= j implies s2[i] == #[trigger] s[i] && stops_picture(c, s[i])
        == stops_picture(b, s[i]) by {
        lemma_nal_append(b, more, s[i]);
        if i < j {
            lemma_picture_stop_before(b, s, v + 1, i);
        }
    }
    lemma_first_vcl_append(b, c, s, s2, 0);
    lemma_picture_stop_append(b, c, s, s2, v + 1);
    lemma_has_type_append(b, c, s, s2, 0, v, 32);
    lemma_has_type_append(b, c, s, s2, 0, v, 33);
    lemma_has_type_append(b, c, s, s2, 0, v, 34);
    lemma_has_type_append(b, c, s, s2, v, j, 34);
}

fn is_vcl(t: u8) -> (r: bool)
    ensures
        r == vcl_type(t),
{
    t <= 31
}

fn is_irap(t: u8) -> (r: bool)
    ensures
        r == irap_type(t),
{
    16 <= t && t <= 23
}

fn is_au_delimiter_nal(t: u8) -> (r: bool)
    ensures
        r == delimiter_type(t),
{
    t == 32 || t == 33 || t == 34 || t == 35 || t == 39
}

fn nal_unit_type_at(buf: &[u8], start: usize) -> (t: u8)
    requires
        start + 3 <= buf.len(),
    ensures
        t == nal_type(buf@, start as int),
{
    let off = header_offset_at(buf, start);
    if off < buf.len() {
        (buf[off] >> 1u8) & 0x3F
    } else {
        0
    }
}

/// Read `first_slice_segment_in_pic_flag` of the slice whose start code
/// begins at `p`; `None` if its byte is not buffered yet.
fn first_slice_in_pic_at(buf: &[u8], p: usize) -> (r: Option<bool>)
    requires
        p + 3 <= buf.len(),
    ensures
        r == first_in_pic(buf@, p as int),
{
    let off = header_offset_at(buf, p);
    if off < buf.len() && buf.len() - off > 2 {
        Some((buf[off + 2] >> 7u8) & 1 == 1)
    } else {
        None
    }
}

/// Try to read one access unit. `Ok(Some(au))` when a complete access unit is
/// available (the start of the next one has been seen, or `eof` is set),
/// `Ok(None)` if more data is needed, `Err` when `eof` is set and the bytes
/// hold no start code at all.
pub fn next_au(buf: &[u8], eof: bool) -> (r: Result<Option<H265Au<'_>>, &'static str>)
    ensures
        matches_split(buf@, r, au_split(buf@, eof)),
{
    let ghost b = buf@;
    let starts = find_start_codes(buf);
    let ghost s = start_codes(b);
    proof {
        lemma_start_codes_from(b, 0);
        assert forall|k: int| 0 <= k < s.len() implies #[trigger] s[k] == starts@[k] as int by {
            assert(offsets(starts@)[k] == starts@[k] as int);
        }
    }
    if starts.len() == 0 {
        return if eof && buf.len() > 0 {
            Err("trailing bytes without H.265 start code")
        } else {
            Ok(None)
        };
    }
    let start = starts[0];
    let mut seen_vcl = false;
    let mut saw_vps = false;
    let mut saw_sps = false;
    let mut saw_pps = false;
    let mut saw_irap = false;
    let ghost mut v: int = 0;
    let mut k: usize = 0;
    while k < starts.len()
        invariant
            b == buf@,
            s == start_codes(b),
            starts@.len() == s.len(),
            forall|i: int| 0 <= i < s.len() ==> #[trigger] s[i] == starts@[i] as int,
            forall|i: int| 0 <= i < s.len() ==> #[trigger] s[i] + 3 <= b.len(),
            start as int == s[0],
            k <= s.len(),
            !seen_vcl ==> first_vcl(b, s, 0) == first_vcl(b, s, k as int) && !saw_irap,
            !seen_vcl ==> saw_vps == has_type(b, s, 0, k as int, 32),
            !seen_vcl ==> saw_sps == has_type(b, s, 0, k as int, 33),
            !seen_vcl ==> saw_pps == has_type(b, s, 0, k as int, 34),
            seen_vcl ==> v == first_vcl(b, s, 0) && v < k,
            seen_vcl ==> picture_stop(b, s, v + 1) == picture_stop(b, s, k as int),
            seen_vcl ==> saw_vps == has_type(b, s, 0, v, 32) && saw_sps == has_type(b, s, 0, v, 33)
                && saw_pps == has_type(b, s, 0, v, 34),
            seen_vcl ==> saw_irap == has_irap(b, s, v, k as int),
        decreases s.len() - k,
    {
        let p = starts[k];
        let t = nal_unit_type_at(buf, p);
        if !seen_vcl {
            if t == 32 {
                saw_vps = true;
            } else if t == 33 {
                saw_sps = true;
            } else if t == 34 {
                saw_pps = true;
            }
            if is_vcl(t) {
                seen_vcl = true;
                proof {
                    v = k as int;
                }
                if is_irap(t) {
                    saw_irap = true;
                }
                assert(!has_irap(b, s, k as int, k as int));
                assert(s[k as int] == p);
                assert(has_irap(b, s, k as int, k + 1) == irap_type(t));
            }
            k = k + 1;
            continue;
        }
        if is_au_delimiter_nal(t) {
            proof {
                lemma_start_codes_increasing(b, 0, k as int);
            }
            return Ok(
                Some(H265Au { data: &buf[start..p], is_keyframe: saw_irap && saw_vps && saw_sps && saw_pps }),
            );
        }
        if is_vcl(t) {
            match first_slice_in_pic_at(buf, p) {
                None => {
                    if eof {
                        proof {
                            lemma_start_codes_increasing(b, 0, k as int);
                        }
                        return Ok(
                            Some(
                                H265Au {
                                    data: &buf[start..buf.len()],
                                    is_keyframe: saw_irap && saw_vps && saw_sps && saw_pps,
                                },
                            ),
                        );
                    }
                    return Ok(None);
                },
                Some(first) => {
                    if first {
                        proof {
                            lemma_start_codes_increasing(b, 0, k as int);
                        }
                        return Ok(
                            Some(
                                H265Au {
                                    data: &buf[start..p],
                                    is_keyframe: saw_irap && saw_vps && saw_sps && saw_pps,
                                },
                            ),
                        );
                    }
                    if is_irap(t) {
                        saw_irap = true;
                    }
                },
            }
        }
        k = k + 1;
    }
    if !seen_vcl {
        return Ok(None);
    }
    if !eof {
        return Ok(None);
    }
    Ok(Some(H265Au { data: &buf[start..buf.len()], is_keyframe: saw_irap && saw_vps && saw_sps && saw_pps }))
}

} // verus!
