//! Walking along a sequence place by place.
use vstd::prelude::*;

verus! {

/// What lies in front of place `i + 1` is what lies in front of place `i` and
/// the value at place `i`; what lies from place `i` on is that value and what
/// lies from place `i + 1` on.
pub proof fn lemma_step<T>(s: Seq<T>, i: int)
    requires
        0 <= i < s.len(),
    ensures
        s.take(i).push(s[i]) == s.take(i + 1),
        s.skip(i)[0] == s[i],
        s.skip(i).skip(1) == s.skip(i + 1),
{
}

} // verus!
