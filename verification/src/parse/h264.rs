//! Annex-B NALU walker for H.264: yields one access unit per call.
//!
//! An access unit runs from the first start code through the last NAL of one
//! coded picture. It ends right before the next NAL that begins a new access
//! unit: a SEI/SPS/PPS/AUD NAL (types 6-9), or a slice (types 1-5) whose
//! `first_mb_in_slice` is 0. SPS+PPS+IDR are therefore grouped into one
//! keyframe access unit.

use vstd::prelude::*;
use crate::parse::annexb::{is_sc3, is_sc4, start_codes, header_offset, find_start_codes, header_offset_at,
    offsets, lemma_start_codes_from, lemma_start_codes_increasing, lemma_start_codes_append};
use crate::parse::expgolomb::{exp_golomb, rbsp_window, read_rbsp_window, read_exp_golomb,
    lemma_exp_golomb_prefix, lemma_rbsp_window_append};

verus! {

/// One access unit.
#[derive(Debug, Clone, PartialEq, Eq)]
pub struct H264Au<'a> {
    pub data: &'a [u8],
    /// True only when the access unit carries an IDR slice together with the
    /// SPS and PPS needed to decode it.
    pub is_keyframe: bool,
}

/// How `next_au` splits a buffer.
pub enum AuSplit {
    /// Bytes that hold no start code at end of stream.
    Malformed,
    /// More bytes are needed.
    NeedMore,
    /// The access unit `b[start..end]`.
    Unit { start: int, end: int, keyframe: bool },
}

/// NAL unit type of the NAL whose start code begins at `p` (0 when its header
/// byte is not buffered).
pub open spec fn nal_type(b: Seq<u8>, p: int) -> u8 {
    let off = header_offset(b, p);
    if off < b.len() {
        b[off] & 0x1F
    } else {
        0
    }
}

pub open spec fn vcl_type(t: u8) -> bool {
    1 <= t <= 5
}

pub open spec fn delimiter_type(t: u8) -> bool {
    t == 6 || t == 7 || t == 8 || t == 9
}

/// `first_mb_in_slice` of the slice whose start code begins at `p`, when its
/// Exp-Golomb code lies within the first eight RBSP bytes after the header.
pub open spec fn first_mb(b: Seq<u8>, p: int) -> Option<u32> {
    exp_golomb(rbsp_window(b, header_offset(b, p) + 1))
}

/// Index of the first start code at or after index `k` that begins a slice.
pub open spec fn first_vcl(b: Seq<u8>, s: Seq<int>, k: int) -> int
    decreases s.len() - k,
{
    if k < 0 || k >= s.len() {
        s.len() as int
    } else if vcl_type(nal_type(b, s[k])) {
        k
    } else {
        first_vcl(b, s, k + 1)
    }
}

/// The NAL at `p` does not continue the current picture: it is a delimiter, or
/// a slice whose `first_mb_in_slice` is 0 or not yet readable.
pub open spec fn stops_picture(b: Seq<u8>, p: int) -> bool {
    let t = nal_type(b, p);
    delimiter_type(t) || (vcl_type(t) && !(first_mb(b, p) matches Some(m) && m != 0))
}

/// Index of the first start code at or after index `k` that stops the picture.
pub open spec fn picture_stop(b: Seq<u8>, s: Seq<int>, k: int) -> int
    decreases s.len() - k,
{
    if k < 0 || k >= s.len() {
        s.len() as int
    } else if stops_picture(b, s[k]) {
        k
    } else {
        picture_stop(b, s, k + 1)
    }
}

/// Some NAL with an index in `[lo, hi)` has type `t`.
pub open spec fn has_type(b: Seq<u8>, s: Seq<int>, lo: int, hi: int, t: u8) -> bool
    decreases hi - lo,
{
    if hi <= lo {
        false
    } else {
        nal_type(b, s[hi - 1]) == t || has_type(b, s, lo, hi - 1, t)
    }
}

/// The access unit at the front of `b`.
pub open spec fn au_split(b: Seq<u8>, eof: bool) -> AuSplit {
    let s = start_codes(b);
    if s.len() == 0 {
        if eof && b.len() > 0 {
            AuSplit::Malformed
        } else {
            AuSplit::NeedMore
        }
    } else {
        let v = first_vcl(b, s, 0);
        let j = picture_stop(b, s, v + 1);
        let key = has_type(b, s, 0, v, 7) && has_type(b, s, 0, v, 8) && has_type(b, s, v, j, 5);
        if v >= s.len() {
            AuSplit::NeedMore
        } else if j < s.len() && (delimiter_type(nal_type(b, s[j])) || first_mb(b, s[j]) == Some(0u32)) {
            AuSplit::Unit { start: s[0], end: s[j], keyframe: key }
        } else if eof {
            AuSplit::Unit { start: s[0], end: b.len() as int, keyframe: key }
        } else {
            AuSplit::NeedMore
        }
    }
}

/// `next_au`'s result is the split that `au_split` describes.
pub open spec fn matches_split(b: Seq<u8>, r: Result<Option<H264Au>, &'static str>, split: AuSplit) -> bool {
    match split {
        AuSplit::Malformed => r matches Err(e) && e@ == "trailing bytes without H.264 start code"@,
        AuSplit::NeedMore => r == Ok::<Option<H264Au>, &'static str>(None),
        AuSplit::Unit { start, end, keyframe } => r matches Ok(Some(au)) && 0 <= start <= end <= b.len()
            && au.data@ == b.subrange(start, end) && au.is_keyframe == keyframe,
    }
}

/// One buffered NAL reads the same once more bytes arrive behind it.
proof fn lemma_nal_append(b: Seq<u8>, more: Seq<u8>, p: int)
    requires
        header_offset(b + more, p) == header_offset(b, p),
        0 <= header_offset(b, p) < b.len(),
    ensures
        nal_type(b + more, p) == nal_type(b, p),
        first_mb(b, p) is Some ==> first_mb(b + more, p) == first_mb(b, p),
{
    let off = header_offset(b, p);
    assert((b + more)[off] == b[off]);
    lemma_rbsp_window_append(b, more, off + 1);
    if first_mb(b, p) is Some {
        lemma_exp_golomb_prefix(rbsp_window(b, off + 1), rbsp_window(b + more, off + 1));
    }
}

proof fn lemma_first_vcl_append(b: Seq<u8>, c: Seq<u8>, s: Seq<int>, s2: Seq<int>, k: int)
    requires
        0 <= k,
        s.len() <= s2.len(),
        first_vcl(b, s, k) < s.len(),
        forall|i: int| k <= i <= first_vcl(b, s, k) ==> s2[i] == #[trigger] s[i] && nal_type(c, s[i])
            == nal_type(b, s[i]),
    ensures
        first_vcl(c, s2, k) == first_vcl(b, s, k),
    decreases s.len() - k,
{
    lemma_first_vcl_ge(b, s, k);
    assert(s2[k] == s[k] && nal_type(c, s[k]) == nal_type(b, s[k]));
    if !vcl_type(nal_type(b, s[k])) {
        lemma_first_vcl_append(b, c, s, s2, k + 1);
    }
}

proof fn lemma_picture_stop_append(b: Seq<u8>, c: Seq<u8>, s: Seq<int>, s2: Seq<int>, k: int)
    requires
        0 <= k,
        s.len() <= s2.len(),
        picture_stop(b, s, k) < s.len(),
        forall|i: int| k <= i <= picture_stop(b, s, k) ==> s2[i] == #[trigger] s[i] && stops_picture(c, s[i])
            == stops_picture(b, s[i]),
    ensures
        picture_stop(c, s2, k) == picture_stop(b, s, k),
    decreases s.len() - k,
{
    lemma_picture_stop_ge(b, s, k);
    assert(s2[k] == s[k] && stops_picture(c, s[k]) == stops_picture(b, s[k]));
    if !stops_picture(b, s[k]) {
        lemma_picture_stop_append(b, c, s, s2, k + 1);
    }
}

proof fn lemma_has_type_append(b: Seq<u8>, c: Seq<u8>, s: Seq<int>, s2: Seq<int>, lo: int, hi: int, t: u8)
    requires
        forall|i: int| lo <= i < hi ==> s2[i] == #[trigger] s[i] && nal_type(c, s[i]) == nal_type(b, s[i]),
    ensures
        has_type(c, s2, lo, hi, t) == has_type(b, s, lo, hi, t),
    decreases hi - lo,
{
    if hi > lo {
        assert(s2[hi - 1] == s[hi - 1] && nal_type(c, s[hi - 1]) == nal_type(b, s[hi - 1]));
        lemma_has_type_append(b, c, s, s2, lo, hi - 1, t);
    }
}

/// An access unit found before end of stream does not change when more
/// bytes arrive: the splitter cuts a growing buffer the same way however the
/// bytes were split into reads.
pub proof fn lemma_au_stable_under_append(b: Seq<u8>, more: Seq<u8>)
    requires
        au_split(b, false) is Unit,
    ensures
        au_split(b + more, false) == au_split(b, false),
{
    let c = b + more;
    let s = start_codes(b);
    let s2 = start_codes(c);
    lemma_start_codes_append(b, more, 0);
    lemma_start_codes_from(b, 0);
    let v = first_vcl(b, s, 0);
    let j = picture_stop(b, s, v + 1);
    assert(0 <= v < j < s.len()) by {
        lemma_first_vcl_ge(b, s, 0);
        lemma_picture_stop_ge(b, s, v + 1);
    }
    // Every NAL up to and including the one at the cut has its header buffered.
    assert forall|i: int| 0 <= i <= j implies 0 <= #[trigger] header_offset(b, s[i]) < b.len() by {
        if i < j {
            lemma_start_codes_increasing(b, i + 1, j);
            assert(header_offset(b, s[i]) <= s[i + 1]);
        } else {
            if !delimiter_type(nal_type(b, s[j])) {
                assert(first_mb(b, s[j]) == Some(0u32));
                if header_offset(b, s[j]) + 1 > b.len() {
                    assert(rbsp_window(b, header_offset(b, s[j]) + 1) =~= Seq::<u8>::empty());
                }
            }
        }
    }
    assert forall|i: int| 0 <= i <= j implies s2[i] == #[trigger] s[i] && nal_type(c, s[i]) == nal_type(b, s[i])
        && (first_mb(b, s[i]) is Some ==> first_mb(c, s[i]) == first_mb(b, s[i])) by {
        lemma_nal_append(b, more, s[i]);
    }
    assert forall|i: int| v + 1 <= i <= j implies s2[i] == #[trigger] s[i] && stops_picture(c, s[i])
        == stops_picture(b, s[i]) by {
        lemma_nal_append(b, more, s[i]);
        if i < j {
            lemma_picture_stop_before(b, s, v + 1, i);
        }
    }
    lemma_first_vcl_append(b, c, s, s2, 0);
    lemma_picture_stop_append(b, c, s, s2, v + 1);
    lemma_has_type_append(b, c, s, s2, 0, v, 7);
    lemma_has_type_append(b, c, s, s2, 0, v, 8);
    lemma_has_type_append(b, c, s, s2, v, j, 5);
}

/// An access unit found before end of stream starts at the first start code
/// and ends where a later start code begins, inside the buffer; it is never
/// empty.
pub proof fn lemma_unit_ends_at_start_code(b: Seq<u8>)
    requires
        au_split(b, false) is Unit,
    ensures
        au_split(b, false) matches AuSplit::Unit { start, end, .. } && start == start_codes(b)[0]
            && start < end < b.len() && (is_sc3(b, end) || is_sc4(b, end)),
{
    let s = start_codes(b);
    lemma_start_codes_from(b, 0);
    let v = first_vcl(b, s, 0);
    lemma_first_vcl_ge(b, s, 0);
    lemma_picture_stop_ge(b, s, v + 1);
    let j = picture_stop(b, s, v + 1);
    lemma_start_codes_increasing(b, 0, j);
    assert(s[j] + 3 <= b.len());
    assert(is_sc4(b, s[j]) || is_sc3(b, s[j]));
}

proof fn lemma_first_vcl_ge(b: Seq<u8>, s: Seq<int>, k: int)
    requires
        0 <= k,
    ensures
        k <= first_vcl(b, s, k) <= s.len() || (k > s.len() && first_vcl(b, s, k) == s.len()),
    decreases s.len() - k,
{
    if k < s.len() && !vcl_type(nal_type(b, s[k])) {
        lemma_first_vcl_ge(b, s, k + 1);
    }
}

proof fn lemma_picture_stop_ge(b: Seq<u8>, s: Seq<int>, k: int)
    requires
        0 <= k,
    ensures
        k <= picture_stop(b, s, k) <= s.len() || (k > s.len() && picture_stop(b, s, k) == s.len()),
    decreases s.len() - k,
{
    if k < s.len() && !stops_picture(b, s[k]) {
        lemma_picture_stop_ge(b, s, k + 1);
    }
}

proof fn lemma_picture_stop_before(b: Seq<u8>, s: Seq<int>, k: int, i: int)
    requires
        0 <= k <= i < picture_stop(b, s, k),
        i < s.len(),
    ensures
        !stops_picture(b, s[i]),
    decreases i - k,
{
    if k < i {
        assert(!stops_picture(b, s[k]));
        lemma_picture_stop_before(b, s, k + 1, i);
    }
}

proof fn lemma_first_vcl_before(b: Seq<u8>, s: Seq<int>, k: int, q: int)
    requires
        0 <= k <= q < first_vcl(b, s, k),
        q < s.len(),
    ensures
        !vcl_type(nal_type(b, s[q])),
    decreases q - k,
{
    if k < q {
        lemma_first_vcl_before(b, s, k + 1, q);
    }
}

/// Once a picture's first slice (a NAL of type 1 to 5) has been seen, an SEI,
/// SPS, PPS or access unit delimiter (types 6, 7, 8, 9) begins the next
/// access unit: an access unit found before end of stream holds none of them
/// after any of its slices, so it ends at the start code of the first one.
pub proof fn lemma_no_parameter_or_delimiter_after_a_slice(b: Seq<u8>, q: int, i: int)
    requires
        au_split(b, false) is Unit,
        0 <= q < i < start_codes(b).len(),
        start_codes(b)[i] < au_split(b, false)->end,
        1 <= nal_type(b, start_codes(b)[q]) <= 5,
    ensures
        !(6 <= nal_type(b, start_codes(b)[i]) <= 9),
{
    let s = start_codes(b);
    lemma_start_codes_from(b, 0);
    let v = first_vcl(b, s, 0);
    let j = picture_stop(b, s, v + 1);
    lemma_first_vcl_ge(b, s, 0);
    lemma_picture_stop_ge(b, s, v + 1);
    if q < v {
        lemma_first_vcl_before(b, s, 0, q);
    }
    if i >= j {
        lemma_start_codes_increasing(b, j, i);
    }
    lemma_picture_stop_before(b, s, v + 1, i);
}

fn is_vcl(t: u8) -> (r: bool)
    ensures
        r == vcl_type(t),
{
    1 <= t && t <= 5
}

fn is_au_delimiter_nal(t: u8) -> (r: bool)
    ensures
        r == delimiter_type(t),
{
    t == 6 || t == 7 || t == 8 || t == 9
}

fn nal_unit_type_at(buf: &[u8], start: usize) -> (t: u8)
    requires
        start + 3 <= buf.len(),
    ensures
        t == nal_type(buf@, start as int),
{
    let off = header_offset_at(buf, start);
    if off < buf.len() {
        buf[off] & 0x1F
    } else {
        0
    }
}

/// Read `first_mb_in_slice` from the slice whose start code begins at `p`.
fn slice_first_mb_at(buf: &[u8], p: usize) -> (r: Option<u32>)
    requires
        p + 3 <= buf.len(),
    ensures
        r == first_mb(buf@, p as int),
{
    let off = header_offset_at(buf, p);
    if off >= buf.len() {
        let w = read_rbsp_window(buf, buf.len());
        assert(rbsp_window(buf@, off + 1) =~= Seq::<u8>::empty());
        assert(w@ =~= Seq::<u8>::empty());
        return read_exp_golomb(&w);
    }
    let w = read_rbsp_window(buf, off + 1);
    read_exp_golomb(&w)
}

/// Try to read one access unit. `Ok(Some(au))` when a complete access unit is
/// available (the start of the next one has been seen, or `eof` is set),
/// `Ok(None)` if more data is needed, `Err` when `eof` is set and the bytes
/// hold no start code at all.
pub fn next_au(buf: &[u8], eof: bool) -> (r: Result<Option<H264Au<'_>>, &'static str>)
    ensures
        matches_split(buf@, r, au_split(buf@, eof)),
{
    let ghost b = buf@;
    let starts = find_start_codes(buf);
    let ghost s = start_codes(b);
    proof {
        lemma_start_codes_from(b, 0);
        assert forall|k: int| 0 <= k < s.len() implies #[trigger] s[k] == starts@[k] as int by {
            assert(offsets(starts@)[k] == starts@[k] as int);
        }
    }
    if starts.len() == 0 {
        return if eof && buf.len() > 0 {
            Err("trailing bytes without H.264 start code")
        } else {
            Ok(None)
        };
    }
    let start = starts[0];
    let mut seen_vcl = false;
    let mut is_sps = false;
    let mut is_pps = false;
    let mut seen_idr = false;
    let ghost mut v: int = 0;
    let mut k: usize = 0;
    while k < starts.len()
        invariant
            b == buf@,
            s == start_codes(b),
            starts@.len() == s.len(),
            forall|i: int| 0 <= i < s.len() ==> #[trigger] s[i] == starts@[i] as int,
            forall|i: int| 0 <= i < s.len() ==> #[trigger] s[i] + 3 <= b.len(),
            start as int == s[0],
            k <= s.len(),
            !seen_vcl ==> first_vcl(b, s, 0) == first_vcl(b, s, k as int) && !seen_idr,
            !seen_vcl ==> is_sps == has_type(b, s, 0, k as int, 7),
            !seen_vcl ==> is_pps == has_type(b, s, 0, k as int, 8),
            seen_vcl ==> v == first_vcl(b, s, 0) && v < k,
            seen_vcl ==> picture_stop(b, s, v + 1) == picture_stop(b, s, k as int),
            seen_vcl ==> is_sps == has_type(b, s, 0, v, 7) && is_pps == has_type(b, s, 0, v, 8),
            seen_vcl ==> seen_idr == has_type(b, s, v, k as int, 5),
        decreases s.len() - k,
    {
        let p = starts[k];
        let t = nal_unit_type_at(buf, p);
        if !seen_vcl {
            if t == 7 {
                is_sps = true;
            } else if t == 8 {
                is_pps = true;
            }
            if is_vcl(t) {
                seen_vcl = true;
                proof {
                    v = k as int;
                }
                if t == 5 {
                    seen_idr = true;
                }
                assert(!has_type(b, s, k as int, k as int, 5));
                assert(s[k as int] == p);
                assert(has_type(b, s, k as int, k + 1, 5) == (t == 5));
            }
            k = k + 1;
            continue;
        }
        if is_au_delimiter_nal(t) {
            proof {
                lemma_start_codes_increasing(b, 0, k as int);
            }
            return Ok(Some(H264Au { data: &buf[start..p], is_keyframe: seen_idr && is_sps && is_pps }));
        }
        if is_vcl(t) {
            match slice_first_mb_at(buf, p) {
                None => {
                    if eof {
                        proof {
                            lemma_start_codes_increasing(b, 0, k as int);
                        }
                        return Ok(
                            Some(
                                H264Au {
                                    data: &buf[start..buf.len()],
                                    is_keyframe: seen_idr && is_sps && is_pps,
                                },
                            ),
                        );
                    }
                    return Ok(None);
                },
                Some(m) => {
                    if m == 0 {
                        proof {
                            lemma_start_codes_increasing(b, 0, k as int);
                        }
                        return Ok(
                            Some(H264Au { data: &buf[start..p], is_keyframe: seen_idr && is_sps && is_pps }),
                        );
                    }
                    if t == 5 {
                        seen_idr = true;
                    }
                },
            }
        }
        k = k + 1;
    }
    if !seen_vcl {
        return Ok(None);
    }
    if !eof {
        return Ok(None);
    }
    Ok(Some(H264Au { data: &buf[start..buf.len()], is_keyframe: seen_idr && is_sps && is_pps }))
}

} // verus!
