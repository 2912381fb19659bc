//! Small byte-buffer helpers shared by the stateful demuxers.

use vstd::prelude::*;

verus! {

/// Drop the first `n` bytes of `buf`.
pub fn drain_front(buf: &mut Vec<u8>, n: usize)
    requires
        n <= old(buf)@.len(),
    ensures
        final(buf)@ == old(buf)@.subrange(n as int, old(buf)@.len() as int),
{
    let tail = buf.split_off(n);
    *buf = tail;
}

/// `p` begins with `tag`.
pub open spec fn has_prefix(p: Seq<u8>, tag: Seq<u8>) -> bool {
    p.len() >= tag.len() && p.subrange(0, tag.len() as int) == tag
}

pub fn starts_with_bytes(p: &[u8], tag: &[u8]) -> (r: bool)
    ensures
        r == has_prefix(p@, tag@),
{
    if p.len() < tag.len() {
        return false;
    }
    let mut i: usize = 0;
    while i < tag.len()
        invariant
            i <= tag@.len() <= p@.len(),
            forall|k: int| 0 <= k < i ==> p@[k] == tag@[k],
        decreases tag.len() - i,
    {
        if p[i] != tag[i] {
            assert(p@.subrange(0, tag@.len() as int)[i as int] != tag@[i as int]);
            return false;
        }
        i = i + 1;
    }
    assert(p@.subrange(0, tag@.len() as int) =~= tag@);
    true
}

} // verus!
