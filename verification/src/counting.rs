//! Numbers of places at which something holds.
use vstd::prelude::*;

verus! {

/// The places below `n` at which something holds.
pub open spec fn places(n: int, holds: spec_fn(int) -> bool) -> Set<int> {
    Set::new(|i: int| 0 <= i < n && holds(i))
}

/// One more place adds one where something holds there, and nothing elsewhere.
pub proof fn lemma_places(n: int, holds: spec_fn(int) -> bool)
    requires
        n >= 0,
    ensures
        places(n, holds).finite(),
        places(n, holds).len() <= n,
        n > 0 ==> places(n, holds).len() == places(n - 1, holds).len() + (if holds(n - 1) {
            1int
        } else {
            0int
        }),
        n == 0 ==> places(n, holds).len() == 0,
    decreases n,
{
    if n == 0 {
        assert(places(0, holds) =~= Set::<int>::empty());
    } else {
        lemma_places(n - 1, holds);
        if holds(n - 1) {
            assert(places(n, holds) =~= places(n - 1, holds).insert(n - 1));
        } else {
            assert(places(n, holds) =~= places(n - 1, holds));
        }
    }
}

/// Where the same holds at all places, the places are the same.
pub proof fn lemma_same_places(n: int, one: spec_fn(int) -> bool, other: spec_fn(int) -> bool)
    requires
        forall|i: int| 0 <= i < n ==> #[trigger] one(i) == other(i),
    ensures
        places(n, one) == places(n, other),
{
    assert(places(n, one) =~= places(n, other));
}

} // verus!
