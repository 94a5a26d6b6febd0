//! The states that a proxy has: a transaction runs once all that it needs are
//! there, which is once the transactions before it in line are done.
use vstd::prelude::*;

use crate::base_types::{SequenceNumber, StateKey, INITIAL_VERSION};
use crate::recovery::find_highest_version;
use crate::tables::ConcurrentMap;

verus! {

/// The states that a proxy has. Every object is there in its initial version.
pub struct AvailableStates {
    table: ConcurrentMap<StateKey, bool>,
}

impl View for AvailableStates {
    type V = Set<StateKey>;

    closed spec fn view(&self) -> Set<StateKey> {
        self.table@.dom()
    }
}

/// Whether a state is there.
pub open spec fn is_there(states: Set<StateKey>, key: StateKey) -> bool {
    key.1 <= INITIAL_VERSION || states.contains(key)
}

/// Whether all that a transaction needs is there.
pub open spec fn all_there(states: Set<StateKey>, needs: Seq<StateKey>) -> bool {
    forall|i: int| 0 <= i < needs.len() ==> is_there(states, #[trigger] needs[i])
}

/// Whether a transaction with these needs writes a state.
pub open spec fn is_written(needs: Seq<StateKey>, key: StateKey) -> bool {
    key.1 == crate::recovery::next_version(needs) && exists|i: int|
        0 <= i < needs.len() && (#[trigger] needs[i]).0 == key.0
}

/// The states once a transaction with these needs is done: it has replaced
/// what it needed by what it writes.
pub open spec fn replaced(states: Set<StateKey>, needs: Seq<StateKey>) -> Set<StateKey> {
    Set::new(
        |key: StateKey| is_written(needs, key) || states.contains(key) && !needs.contains(key),
    )
}

impl AvailableStates {
    /// There are the initial versions only.
    pub fn new() -> (available: Self)
        ensures
            available@ =~= Set::<StateKey>::empty(),
    {
        AvailableStates { table: ConcurrentMap::new() }
    }

    /// Notes that a state has come in.
    pub fn note(&mut self, key: StateKey)
        ensures
            final(self)@ =~= old(self)@.insert(key),
    {
        let _ = self.table.insert(key, true);
    }

    /// Whether a state is there.
    pub fn is_available(&self, key: &StateKey) -> (available: bool)
        ensures
            available == is_there(self@, *key),
    {
        key.1 <= INITIAL_VERSION || self.table.contains_key(key)
    }

    /// Whether all that a transaction needs is there.
    pub fn ready(&self, needs: &Vec<StateKey>) -> (ready: bool)
        ensures
            ready == all_there(self@, needs@),
    {
        let mut i: usize = 0;
        while i < needs.len()
            invariant
                i <= needs.len(),
                forall|k: int| 0 <= k < i ==> is_there(self@, #[trigger] needs@[k]),
            decreases needs.len() - i,
        {
            if !self.is_available(&needs[i]) {
                proof {
                    assert(!is_there(self@, needs@[i as int]));
                }
                return false;
            }
            i = i + 1;
        }
        true
    }

    /// Notes that a transaction is done.
    pub fn finish(&mut self, needs: &Vec<StateKey>)
        requires
            crate::recovery::can_advance(needs@),
        ensures
            final(self)@ =~= replaced(old(self)@, needs@),
    {
        let ghost before = self@;
        let next: SequenceNumber = find_highest_version(needs) + 1;
        proof {
            if needs@.len() > 0 {
                crate::recovery::lemma_highest_version(needs@);
            }
        }
        let mut i: usize = 0;
        while i < needs.len()
            invariant
                i <= needs.len(),
                forall|k: int| 0 <= k < needs@.len() ==> (#[trigger] needs@[k]).1 < next,
                forall|key: StateKey| #[trigger]
                    self@.contains(key) <==> {
                        ||| key.1 == next && exists|k: int|
                            0 <= k < i && (#[trigger] needs@[k]).0 == key.0
                        ||| before.contains(key) && forall|k: int|
                            0 <= k < i ==> #[trigger] needs@[k] != key
                    },
            decreases needs.len() - i,
        {
            let used: StateKey = needs[i];
            let ghost earlier = self@;
            let _ = self.table.remove(&used);
            self.note((used.0, next));
            proof {
                assert(needs@[i as int] == used);
                assert forall|key: StateKey| #[trigger] self@.contains(key) <==> {
                    ||| key.1 == next && exists|k: int|
                        0 <= k < i + 1 && (#[trigger] needs@[k]).0 == key.0
                    ||| before.contains(key) && forall|k: int|
                        0 <= k < i + 1 ==> #[trigger] needs@[k] != key
                } by {
                    assert(self@.contains(key) <==> key == (used.0, next) || earlier.contains(key)
                        && key != used);
                    if key.1 == next && exists|k: int|
                        0 <= k < i + 1 && (#[trigger] needs@[k]).0 == key.0 {
                        let k = choose|k: int| 0 <= k < i + 1 && (#[trigger] needs@[k]).0 == key.0;
                        if k < i {
                            assert(earlier.contains(key));
                        }
                    }
                    assert(earlier.contains(key) ==> {
                        ||| key.1 == next && exists|k: int|
                            0 <= k < i && (#[trigger] needs@[k]).0 == key.0
                        ||| before.contains(key) && forall|k: int|
                            0 <= k < i ==> #[trigger] needs@[k] != key
                    });
                }
            }
            i = i + 1;
        }
    }
}

/// Once a transaction is done, what it writes is there: whoever needs it is
/// kept waiting by nothing else.
pub proof fn law_finished_work_is_there(states: Set<StateKey>, needs: Seq<StateKey>, i: int)
    requires
        0 <= i < needs.len(),
    ensures
        is_there(replaced(states, needs), (needs[i].0, crate::recovery::next_version(needs))),
{
    assert(is_written(needs, (needs[i].0, crate::recovery::next_version(needs))));
}

/// Once a transaction is done, no other one gets the versions that it needed:
/// but for initial ones they are gone.
pub proof fn law_versions_are_used_once(states: Set<StateKey>, needs: Seq<StateKey>, i: int)
    requires
        crate::recovery::can_advance(needs),
        0 <= i < needs.len(),
        needs[i].1 > INITIAL_VERSION,
    ensures
        !is_there(replaced(states, needs), needs[i]),
{
    crate::recovery::lemma_highest_version(needs);
    assert(needs.contains(needs[i]));
}

/// What a transaction does not use stays as it is.
pub proof fn law_unused_states_stay(
    states: Set<StateKey>,
    needs: Seq<StateKey>,
    key: StateKey,
)
    requires
        !needs.contains(key),
        !is_written(needs, key),
    ensures
        is_there(replaced(states, needs), key) == is_there(states, key),
{
}

/// A transaction can run unless one of its needs is missing: a version above
/// the initial one, which is 2, that has not come in.
pub proof fn law_missing_states_hold_up_work(states: Set<StateKey>, needs: Seq<StateKey>)
    ensures
        !all_there(states, needs) <==> exists|i: int|
            0 <= i < needs.len() && (#[trigger] needs[i]).1 > 2 && !states.contains(needs[i]),
{
    if exists|i: int|
        0 <= i < needs.len() && (#[trigger] needs[i]).1 > 2 && !states.contains(needs[i]) {
        let i = choose|i: int|
            0 <= i < needs.len() && (#[trigger] needs[i]).1 > 2 && !states.contains(needs[i]);
        assert(!is_there(states, needs[i]));
    }
}

/// What is there once a transaction is done: each object that it needed at
/// the version one above the highest that it needed, and whatever it did not
/// need.
pub proof fn law_done_work_replaces_its_needs(
    states: Set<StateKey>,
    needs: Seq<StateKey>,
    version: crate::base_types::SequenceNumber,
    key: StateKey,
)
    requires
        forall|j: int| 0 <= j < needs.len() ==> (#[trigger] needs[j]).1 < version,
        exists|j: int| 0 <= j < needs.len() && (#[trigger] needs[j]).1 + 1 == version,
    ensures
        replaced(states, needs).contains(key) <==> (key.1 == version && exists|i: int|
            0 <= i < needs.len() && (#[trigger] needs[i]).0 == key.0) || (states.contains(key)
            && forall|i: int| 0 <= i < needs.len() ==> #[trigger] needs[i] != key),
{
    crate::recovery::lemma_highest_version(needs);
    crate::recovery::law_written_version_follows_the_needs(needs, version);
}

} // verus!
