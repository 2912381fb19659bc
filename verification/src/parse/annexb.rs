//! Annex-B start-code scanning shared by the H.264 and H.265 splitters.

use vstd::prelude::*;

verus! {

/// A 4-byte start code `00 00 00 01` begins at `i`.
pub open spec fn is_sc4(b: Seq<u8>, i: int) -> bool {
    0 <= i && i + 4 <= b.len() && b[i] == 0 && b[i + 1] == 0 && b[i + 2] == 0 && b[i + 3] == 1
}

/// A 3-byte start code `00 00 01` begins at `i`.
pub open spec fn is_sc3(b: Seq<u8>, i: int) -> bool {
    0 <= i && i + 3 <= b.len() && b[i] == 0 && b[i + 1] == 0 && b[i + 2] == 1
}

/// The start codes found by a left-to-right scan from `i` that skips over each
/// start code it finds (a 4-byte code is preferred to a 3-byte one).
pub open spec fn start_codes_from(b: Seq<u8>, i: int) -> Seq<int>
    decreases b.len() - i,
{
    if i < 0 || i + 3 > b.len() {
        Seq::empty()
    } else if is_sc4(b, i) {
        seq![i] + start_codes_from(b, i + 4)
    } else if is_sc3(b, i) {
        seq![i] + start_codes_from(b, i + 3)
    } else {
        start_codes_from(b, i + 1)
    }
}

/// Byte offsets where the start codes of `b` begin.
pub open spec fn start_codes(b: Seq<u8>) -> Seq<int> {
    start_codes_from(b, 0)
}

/// Offset of the NAL header that follows the start code at `p`.
pub open spec fn header_offset(b: Seq<u8>, p: int) -> int {
    if is_sc4(b, p) {
        p + 4
    } else {
        p + 3
    }
}

/// Every scanned start code is a real one, they are in increasing order, and
/// each one's NAL header lies at or before the next start code.
pub proof fn lemma_start_codes_from(b: Seq<u8>, i: int)
    requires
        0 <= i,
    ensures
        forall|k: int|
            #![trigger start_codes_from(b, i)[k]]
            0 <= k < start_codes_from(b, i).len() ==> {
                &&& i <= start_codes_from(b, i)[k]
                &&& start_codes_from(b, i)[k] + 3 <= b.len()
                &&& is_sc4(b, start_codes_from(b, i)[k]) || is_sc3(b, start_codes_from(b, i)[k])
                &&& k + 1 < start_codes_from(b, i).len() ==> header_offset(b, start_codes_from(b, i)[k])
                    <= start_codes_from(b, i)[k + 1]
            },
    decreases b.len() - i,
{
    if i + 3 <= b.len() {
        let s = start_codes_from(b, i);
        if is_sc4(b, i) || is_sc3(b, i) {
            let step = if is_sc4(b, i) { 4int } else { 3int };
            let rest = start_codes_from(b, i + step);
            lemma_start_codes_from(b, i + step);
            assert(s == seq![i] + rest);
            assert forall|k: int| 0 <= k < s.len() implies {
                &&& i <= s[k]
                &&& s[k] + 3 <= b.len()
                &&& is_sc4(b, s[k]) || is_sc3(b, s[k])
                &&& k + 1 < s.len() ==> header_offset(b, s[k]) <= s[k + 1]
            } by {
                if k > 0 {
                    assert(s[k] == rest[k - 1]);
                    if k + 1 < s.len() {
                        assert(s[k + 1] == rest[k]);
                    }
                } else if s.len() > 1 {
                    assert(s[1] == rest[0]);
                }
            }
        } else {
            lemma_start_codes_from(b, i + 1);
            assert(s == start_codes_from(b, i + 1));
        }
    }
}

/// The start codes are strictly increasing.
pub proof fn lemma_start_codes_increasing(b: Seq<u8>, k1: int, k2: int)
    requires
        0 <= k1 <= k2 < start_codes(b).len(),
    ensures
        start_codes(b)[k1] <= start_codes(b)[k2],
        k1 < k2 ==> start_codes(b)[k1] < start_codes(b)[k2],
    decreases k2 - k1,
{
    lemma_start_codes_from(b, 0);
    if k1 < k2 {
        lemma_start_codes_increasing(b, k1, k2 - 1);
        assert(header_offset(b, start_codes(b)[k2 - 1]) <= start_codes(b)[k2]);
    }
}

/// The scan of `b` is a prefix of the scan of `b + more`: start codes found
/// in buffered bytes stay where they are when more bytes arrive, and each
/// keeps its NAL header offset.
pub proof fn lemma_start_codes_append(b: Seq<u8>, more: Seq<u8>, i: int)
    requires
        0 <= i,
    ensures
        start_codes_from(b, i).len() <= start_codes_from(b + more, i).len(),
        forall|k: int|
            0 <= k < start_codes_from(b, i).len() ==> start_codes_from(b + more, i)[k]
                == #[trigger] start_codes_from(b, i)[k],
        forall|k: int|
            0 <= k < start_codes_from(b, i).len() ==> header_offset(b + more, #[trigger] start_codes_from(b, i)[k])
                == header_offset(b, start_codes_from(b, i)[k]),
    decreases b.len() - i,
{
    let c = b + more;
    let sb = start_codes_from(b, i);
    let sc = start_codes_from(c, i);
    if i + 3 <= b.len() {
        assert(c[i] == b[i] && c[i + 1] == b[i + 1] && c[i + 2] == b[i + 2]);
        if i + 4 <= b.len() {
            assert(c[i + 3] == b[i + 3]);
        }
        assert(is_sc3(c, i) == is_sc3(b, i));
        assert(is_sc4(b, i) ==> is_sc4(c, i));
        assert(is_sc3(b, i) ==> !is_sc4(c, i));
        if is_sc4(b, i) {
            lemma_start_codes_append(b, more, i + 4);
            let rb = start_codes_from(b, i + 4);
            let rc = start_codes_from(c, i + 4);
            assert(sb == seq![i] + rb);
            assert(sc == seq![i] + rc);
            assert forall|k: int| 0 <= k < sb.len() implies sc[k] == #[trigger] sb[k] && header_offset(c, sb[k])
                == header_offset(b, sb[k]) by {
                if k > 0 {
                    assert(sb[k] == rb[k - 1]);
                    assert(sc[k] == rc[k - 1]);
                }
            }
        } else if is_sc3(b, i) {
            lemma_start_codes_append(b, more, i + 3);
            let rb = start_codes_from(b, i + 3);
            let rc = start_codes_from(c, i + 3);
            assert(sb == seq![i] + rb);
            assert(sc == seq![i] + rc);
            assert forall|k: int| 0 <= k < sb.len() implies sc[k] == #[trigger] sb[k] && header_offset(c, sb[k])
                == header_offset(b, sb[k]) by {
                if k > 0 {
                    assert(sb[k] == rb[k - 1]);
                    assert(sc[k] == rc[k - 1]);
                }
            }
        } else if i + 4 <= b.len() {
            lemma_start_codes_append(b, more, i + 1);
            assert(!is_sc4(c, i));
        } else {
            assert(start_codes_from(b, i + 1) =~= Seq::<int>::empty());
        }
    }
}

/// `true` when a 4-byte start code begins at `i`.
pub fn sc4_at(buf: &[u8], i: usize) -> (r: bool)
    ensures
        r == is_sc4(buf@, i as int),
{
    i <= buf.len() && buf.len() - i >= 4 && buf[i] == 0 && buf[i + 1] == 0 && buf[i + 2] == 0
        && buf[i + 3] == 1
}

/// The integers held in a vector of offsets.
pub open spec fn offsets(v: Seq<usize>) -> Seq<int> {
    Seq::new(v.len(), |k: int| v[k] as int)
}

/// Byte offsets in `buf` where a 3- or 4-byte start code begins.
pub fn find_start_codes(buf: &[u8]) -> (out: Vec<usize>)
    ensures
        offsets(out@) == start_codes(buf@),
{
    let ghost b = buf@;
    let mut out: Vec<usize> = Vec::new();
    let mut i: usize = 0;
    while i < buf.len() && buf.len() - i >= 3
        invariant
            b == buf@,
            i <= buf.len(),
            start_codes(b) == offsets(out@) + start_codes_from(b, i as int),
        decreases buf.len() - i,
    {
        let ghost before = offsets(out@);
        if sc4_at(buf, i) {
            assert(start_codes_from(b, i as int) == seq![i as int] + start_codes_from(b, i + 4));
            out.push(i);
            assert(offsets(out@) =~= before + seq![i as int]);
            assert(before + start_codes_from(b, i as int) =~= offsets(out@) + start_codes_from(b, i + 4));
            i = i + 4;
        } else if buf[i] == 0 && buf[i + 1] == 0 && buf[i + 2] == 1 {
            assert(start_codes_from(b, i as int) == seq![i as int] + start_codes_from(b, i + 3));
            out.push(i);
            assert(offsets(out@) =~= before + seq![i as int]);
            assert(before + start_codes_from(b, i as int) =~= offsets(out@) + start_codes_from(b, i + 3));
            i = i + 3;
        } else {
            assert(start_codes_from(b, i as int) == start_codes_from(b, i + 1));
            i = i + 1;
        }
    }
    assert(start_codes_from(b, i as int) =~= Seq::<int>::empty());
    assert(offsets(out@) + Seq::<int>::empty() =~= offsets(out@));
    out
}

/// Offset of the NAL header that follows the start code at `p`.
pub fn header_offset_at(buf: &[u8], p: usize) -> (off: usize)
    requires
        p + 3 <= buf.len(),
    ensures
        off == header_offset(buf@, p as int),
{
    if sc4_at(buf, p) {
        p + 4
    } else {
        p + 3
    }
}

} // verus!
