//! The escape decision. A trajectory reports, for each iteration, whether
//! it had already left the bounded disc when that iteration began; this
//! module decides the escape time from those exit flags. Computing the
//! flags themselves is the numeric part and stays outside the library.

use vstd::prelude::*;

verus! {

/// What an escape report means for a trajectory's exit flags under an
/// iteration limit: `Some(i)` names the first set flag below the limit,
/// `None` says no flag below the limit is set.
pub open spec fn is_escape_report(flags: Seq<bool>, limit: int, r: Option<usize>) -> bool {
    match r {
        Option::Some(i) => 0 <= i < limit && flags[i as int] && (forall|j: int|
            0 <= j < i ==> !flags[j]),
        Option::None => forall|j: int| 0 <= j < limit ==> !flags[j],
    }
}

/// The index at which the trajectory first escapes: the first of the
/// first `limit` exit flags that is set, or `None` when none is.
pub fn escape_index(flags: &Vec<bool>, limit: usize) -> (r: Option<usize>)
    requires
        limit <= flags@.len(),
    ensures
        is_escape_report(flags@, limit as int, r),
{
    let mut i: usize = 0;
    while i < limit
        invariant
            limit <= flags@.len(),
            i <= limit,
            forall|j: int| 0 <= j < i ==> !flags@[j],
        decreases limit - i,
    {
        if flags[i] {
            return Some(i);
        }
        i += 1;
    }
    None
}

/// Raising the iteration limit never changes an escape already found,
/// and can only turn "no escape" into an escape at an index at least as
/// large as the old limit.
pub proof fn lemma_escape_monotonic(
    flags: Seq<bool>,
    limit1: int,
    limit2: int,
    r1: Option<usize>,
    r2: Option<usize>,
)
    requires
        0 <= limit1 <= limit2,
        is_escape_report(flags, limit1, r1),
        is_escape_report(flags, limit2, r2),
    ensures
        r1 is Some ==> r2 == r1,
        r1 is None ==> (r2 matches Some(i2) ==> i2 >= limit1),
{
    if r1 is Some && r2 is Some {
        let i1 = r1->0;
        let i2 = r2->0;
        assert(!(i1 < i2) && !(i2 < i1));
    }
    if r1 is Some && r2 is None {
        let i1 = r1->0;
        assert(flags[i1 as int] && !flags[i1 as int]);
    }
}

/// A trajectory already outside the disc when iteration begins escapes
/// at index zero, under any positive limit.
pub proof fn lemma_escape_at_start(flags: Seq<bool>, limit: int, r: Option<usize>)
    requires
        limit >= 1,
        flags.len() >= 1,
        flags[0],
        is_escape_report(flags, limit, r),
    ensures
        r == Some(0usize),
{
}

/// A trajectory that never raises an exit flag never escapes, whatever
/// the iteration limit.
pub proof fn lemma_bounded_never_escapes(flags: Seq<bool>, limit: int, r: Option<usize>)
    requires
        forall|j: int| 0 <= j < flags.len() ==> !flags[j],
        0 <= limit <= flags.len(),
        is_escape_report(flags, limit, r),
    ensures
        r is None,
{
}

} // verus!
