//! Overlap test for half-open index ranges.

use core::ops::Range;
use vstd::prelude::*;

verus! {

/// `i` lies inside the half-open range `r`.
pub open spec fn contains_point(r: Range<usize>, i: int) -> bool {
    r.start <= i < r.end
}

/// Whether the two half-open ranges share at least one point. An empty
/// range overlaps nothing.
pub fn overlap(r1: Range<usize>, r2: Range<usize>) -> (b: bool)
    ensures
        b == exists|i: int| contains_point(r1, i) && contains_point(r2, i),
{
    let b = r1.start < r1.end && r2.start < r2.end && r1.start < r2.end && r2.start < r1.end;
    proof {
        if b {
            let w: int = if r1.start >= r2.start {
                r1.start as int
            } else {
                r2.start as int
            };
            assert(contains_point(r1, w) && contains_point(r2, w));
        }
    }
    b
}

} // verus!
