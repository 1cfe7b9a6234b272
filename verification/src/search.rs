use vstd::prelude::*;

verus! {

/// When some index in `0..n` satisfies `p`, a least one does.
pub proof fn lemma_least_index(p: spec_fn(int) -> bool, n: int, k: int)
    requires
        0 <= k < n,
        p(k),
    ensures
        exists|i: int| 0 <= i < n && #[trigger] p(i) && forall|j: int| 0 <= j < i ==> !#[trigger] p(j),
    decreases k,
{
    if exists|j: int| 0 <= j < k && #[trigger] p(j) {
        let j = choose|j: int| 0 <= j < k && #[trigger] p(j);
        lemma_least_index(p, n, j);
    } else {
        assert(forall|j: int| 0 <= j < k ==> !#[trigger] p(j));
    }
}

} // verus!
