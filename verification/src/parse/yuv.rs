//! Frame size of planar yuv420p: a Y plane of `w*h` bytes and U and V planes
//! of `w*h/4` bytes each.

use vstd::prelude::*;

verus! {

/// Required byte count for one yuv420p frame: `width * height * 3 / 2`.
pub fn frame_bytes(width: u32, height: u32) -> (n: usize)
    requires
        width * height * 3 <= usize::MAX,
    ensures
        n == width * height * 3 / 2,
{
    (width as usize * height as usize * 3) / 2
}

} // verus!
