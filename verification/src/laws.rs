//! What holds of every list, however its nodes are owned.
//!
//! The operations of the three lists state their effect on the view of the
//! list, a sequence of values, through `insert`, `remove`, `update` and `push`
//! of sequences. The laws here are stated over the same functions, so they
//! hold of each list alike.
use vstd::prelude::*;

verus! {

/// The values of a list that was empty and then took the steps of `steps` in
/// their order, each step inserting a value at a place.
pub open spec fn built<T>(steps: Seq<(int, T)>) -> Seq<T>
    decreases steps.len(),
{
    if steps.len() == 0 {
        Seq::empty()
    } else {
        built(steps.drop_last()).insert(steps.last().0, steps.last().1)
    }
}

/// Each step inserts at a place that the list has when the step is taken: the
/// list then holds one value for each earlier step.
pub open spec fn in_bounds<T>(steps: Seq<(int, T)>) -> bool {
    forall|k: int| 0 <= k < steps.len() ==> 0 <= (#[trigger] steps[k]).0 <= k
}

/// The place at which the value of step `k` stands after all steps: the place
/// at which it was inserted, moved on by one for each later step that inserted
/// at or in front of it.
pub open spec fn place<T>(steps: Seq<(int, T)>, k: int) -> int
    recommends
        0 <= k < steps.len(),
    decreases steps.len(),
{
    if steps.len() <= k + 1 || k < 0 {
        steps[k].0
    } else {
        let before = place(steps.drop_last(), k);
        if steps.last().0 <= before {
            before + 1
        } else {
            before
        }
    }
}

/// After any number of inserts within bounds the list holds one value for
/// each insert.
pub proof fn lemma_inserts_count<T>(steps: Seq<(int, T)>)
    requires
        in_bounds(steps),
    ensures
        built(steps).len() == steps.len(),
    decreases steps.len(),
{
    if steps.len() > 0 {
        lemma_inserts_count(steps.drop_last());
    }
}

/// After any number of inserts within bounds each inserted value stands where
/// it was inserted, moved on by the later inserts at or in front of it.
pub proof fn lemma_inserts_place<T>(steps: Seq<(int, T)>, k: int)
    requires
        in_bounds(steps),
        0 <= k < steps.len(),
    ensures
        0 <= place(steps, k) < steps.len(),
        built(steps)[place(steps, k)] == steps[k].1,
    decreases steps.len(),
{
    lemma_inserts_count(steps.drop_last());
    if k + 1 < steps.len() {
        lemma_inserts_place(steps.drop_last(), k);
    }
}

/// Inserting a value at a place and then removing the value at that place
/// gives the list as it was before.
pub proof fn lemma_insert_then_remove<T>(s: Seq<T>, i: int, v: T)
    requires
        0 <= i <= s.len(),
    ensures
        s.insert(i, v).remove(i) == s,
{
}

/// Inserting at the place just behind the last value appends the value.
pub proof fn lemma_insert_at_end<T>(s: Seq<T>, v: T)
    ensures
        s.insert(s.len() as int, v) == s.push(v),
{
}

/// Updating at the last place changes the last value and no other.
pub proof fn lemma_update_last<T>(s: Seq<T>, v: T)
    requires
        s.len() > 0,
    ensures
        s.update(s.len() - 1, v) == s.drop_last().push(v),
        s.update(s.len() - 1, v).len() == s.len(),
        forall|i: int| 0 <= i < s.len() - 1 ==> s.update(s.len() - 1, v)[i] == s[i],
{
}

} // verus!
