//! Positions in sequences.

use vstd::prelude::*;

verus! {

/// The first position whose item satisfies `wanted`; the length where none does.
pub open spec fn first_index<T>(items: Seq<T>, wanted: spec_fn(T) -> bool) -> int
    decreases items.len(),
{
    if items.len() == 0 {
        0
    } else {
        let earlier = first_index(items.drop_last(), wanted);
        if earlier < items.len() - 1 {
            earlier
        } else if wanted(items.last()) {
            items.len() - 1
        } else {
            items.len() as int
        }
    }
}

/// What the first position means.
pub proof fn lemma_first_index<T>(items: Seq<T>, wanted: spec_fn(T) -> bool)
    ensures
        0 <= first_index(items, wanted) <= items.len(),
        first_index(items, wanted) < items.len() ==> wanted(items[first_index(items, wanted)]),
        forall|k: int| 0 <= k < first_index(items, wanted) ==> !wanted(#[trigger] items[k]),
    decreases items.len(),
{
    if items.len() > 0 {
        lemma_first_index(items.drop_last(), wanted);
        let earlier = first_index(items.drop_last(), wanted);
        assert forall|k: int| 0 <= k < first_index(items, wanted) implies !wanted(
            #[trigger] items[k],
        ) by {
            if k < items.len() - 1 {
                assert(items.drop_last()[k] == items[k]);
                assert(k < earlier);
            }
        }
    }
}

/// A position is the first one exactly where it is wanted and no earlier one is.
pub proof fn lemma_is_first_index<T>(items: Seq<T>, wanted: spec_fn(T) -> bool, at: int)
    requires
        0 <= at <= items.len(),
        at < items.len() ==> wanted(items[at]),
        forall|k: int| 0 <= k < at ==> !wanted(#[trigger] items[k]),
    ensures
        first_index(items, wanted) == at,
{
    lemma_first_index(items, wanted);
    let first = first_index(items, wanted);
    if first < at {
        assert(!wanted(items[first]));
    } else if at < first {
        assert(wanted(items[at]));
    }
}

/// Whether no two items have the same key.
pub open spec fn distinct<T, K>(items: Seq<T>, key: spec_fn(T) -> K) -> bool {
    forall|i: int, j: int|
        0 <= i < j < items.len() ==> key(#[trigger] items[i]) != key(#[trigger] items[j])
}

} // verus!
