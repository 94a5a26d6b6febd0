//! Records of transactions that a failed proxy may have to hand over.
use std::sync::Arc;

use vstd::prelude::*;

use crate::base_types::{SequenceNumber, StateKey, TransactionDigest, INITIAL_VERSION};
use crate::checkpoint::EpochId;
use crate::executor::api::{copy_required, RequiredStates, TransactionWithTimestamp};

verus! {

/// A transaction of an epoch with the states that it needs.
pub struct LogRecord {
    pub txn_digest: TransactionDigest,
    pub transaction: Arc<TransactionWithTimestamp>,
    pub required_states: RequiredStates,
    pub epoch: EpochId,
}

/// The keys of a map of required states, in increasing order.
pub open spec fn required_keys(required: RequiredStates) -> Seq<StateKey> {
    required.sorted().map_values(|e: (StateKey, Option<usize>)| e.0)
}

/// The highest version among the keys, and the initial version where there is no key.
pub open spec fn highest_version(s: Seq<StateKey>) -> SequenceNumber
    decreases s.len(),
{
    if s.len() == 0 {
        INITIAL_VERSION
    } else if s.len() == 1 {
        s[0].1
    } else {
        let rest = highest_version(s.drop_last());
        if s.last().1 > rest {
            s.last().1
        } else {
            rest
        }
    }
}

/// The highest version is that of a key, and no key has a higher one.
pub proof fn lemma_highest_version(s: Seq<StateKey>)
    requires
        s.len() > 0,
    ensures
        forall|i: int| 0 <= i < s.len() ==> (#[trigger] s[i]).1 <= highest_version(s),
        exists|i: int| 0 <= i < s.len() && (#[trigger] s[i]).1 == highest_version(s),
    decreases s.len(),
{
    if s.len() > 1 {
        let rest = s.drop_last();
        lemma_highest_version(rest);
        assert forall|i: int| 0 <= i < s.len() implies (#[trigger] s[i]).1 <= highest_version(
            s,
        ) by {
            if i < rest.len() {
                assert(rest[i] == s[i]);
            }
        }
        let i = choose|i: int| 0 <= i < rest.len() && (#[trigger] rest[i]).1 == highest_version(
            rest,
        );
        assert(s[i] == rest[i]);
        assert(s[s.len() - 1] == s.last());
    } else {
        assert(s[0].1 == highest_version(s));
    }
}

/// The highest version among the keys, and the initial version where there is no key.
pub fn find_highest_version(keys: &Vec<StateKey>) -> (highest: SequenceNumber)
    ensures
        highest == highest_version(keys@),
{
    if keys.len() == 0 {
        return INITIAL_VERSION;
    }
    let mut highest: SequenceNumber = keys[0].1;
    let mut i: usize = 1;
    proof {
        assert(keys@.take(1)[0] == keys@[0]);
    }
    while i < keys.len()
        invariant
            1 <= i <= keys.len(),
            highest == highest_version(keys@.take(i as int)),
        decreases keys.len() - i,
    {
        proof {
            assert(keys@.take(i + 1).drop_last() =~= keys@.take(i as int));
        }
        if keys[i].1 > highest {
            highest = keys[i].1;
        }
        i = i + 1;
    }
    proof {
        assert(keys@.take(i as int) =~= keys@);
    }
    highest
}

/// Whether the highest required version has a successor.
pub open spec fn can_advance(s: Seq<StateKey>) -> bool {
    highest_version(s) < u64::MAX
}

/// The version that a transaction with these needs writes to each of its objects.
pub open spec fn next_version(s: Seq<StateKey>) -> SequenceNumber {
    (highest_version(s) + 1) as SequenceNumber
}

/// The keys of required states, in increasing order.
pub fn keys_of(required: &RequiredStates) -> (keys: Vec<StateKey>)
    ensures
        keys@ =~= required_keys(*required),
{
    let mut keys: Vec<StateKey> = Vec::new();
    let mut i: usize = 0;
    while i < required.len()
        invariant
            i <= required.sorted().len(),
            keys@ =~= required_keys(*required).take(i as int),
        decreases required.sorted().len() - i,
    {
        let entry = required.entry_at(i);
        keys.push(entry.0);
        i = i + 1;
    }
    keys
}

impl Clone for LogRecord {
    fn clone(&self) -> (copy: Self)
        ensures
            copy.same_as(self),
    {
        LogRecord {
            txn_digest: self.txn_digest,
            transaction: Arc::clone(&self.transaction),
            required_states: copy_required(&self.required_states),
            epoch: self.epoch,
        }
    }
}

impl LogRecord {
    /// Whether two records hold the same.
    pub open spec fn same_as(&self, other: &Self) -> bool {
        &&& self.txn_digest == other.txn_digest
        &&& self.transaction == other.transaction
        &&& self.epoch == other.epoch
        &&& self.required_states.sorted() =~= other.required_states.sorted()
    }

    /// The states that the transaction needs, in increasing order.
    pub open spec fn needs(&self) -> Seq<StateKey> {
        required_keys(self.required_states)
    }

    /// The version that the transaction writes to each of its objects: one
    /// above the highest version that it needs.
    pub fn produced_version(&self) -> (version: SequenceNumber)
        requires
            can_advance(self.needs()),
        ensures
            version == next_version(self.needs()),
    {
        let keys: Vec<StateKey> = keys_of(&self.required_states);
        find_highest_version(&keys) + 1
    }
}

/// A transaction writes all its objects at one version: above every version
/// that it needs, and only one above the highest of them.
pub proof fn law_written_version_follows_the_needs(needs: Seq<StateKey>, version: SequenceNumber)
    requires
        needs.len() > 0,
        can_advance(needs),
    ensures
        version == next_version(needs) <==> {
            &&& forall|i: int| 0 <= i < needs.len() ==> (#[trigger] needs[i]).1 < version
            &&& exists|i: int| 0 <= i < needs.len() && (#[trigger] needs[i]).1 + 1 == version
        },
{
    lemma_highest_version(needs);
}

/// A transaction has a version to write exactly where none of its needs is at
/// the last version, and the initial version is the lowest to build on where
/// it needs nothing.
pub proof fn law_last_version_has_no_successor(needs: Seq<StateKey>)
    ensures
        can_advance(needs) <==> forall|i: int|
            0 <= i < needs.len() ==> (#[trigger] needs[i]).1 < u64::MAX,
        needs.len() == 0 ==> next_version(needs) == INITIAL_VERSION + 1,
{
    if needs.len() > 0 {
        lemma_highest_version(needs);
    }
}

/// The needs of a record are the keys of its required states: each once, in
/// increasing order.
pub proof fn law_needs_are_the_required_states(record: LogRecord)
    requires
        record.required_states.wf(),
    ensures
        record.needs().len() == record.required_states.sorted().len(),
        record.needs().no_duplicates(),
        forall|key: StateKey| #[trigger]
            record.needs().contains(key) <==> record.required_states@.contains_key(key),
{
    let sorted = record.required_states.sorted();
    let needs = record.needs();
    assert forall|i: int, j: int| 0 <= i < needs.len() && 0 <= j < needs.len() && i != j implies
        needs[i] != needs[j] by {
        let a = if i < j { i } else { j };
        let b = if i < j { j } else { i };
        assert(crate::ordered_map::OrderedKey::precedes(sorted[a].0, sorted[b].0));
    }
    assert forall|key: StateKey| #[trigger]
        needs.contains(key) <==> record.required_states@.contains_key(key) by {
        if needs.contains(key) {
            let i = choose|i: int| 0 <= i < needs.len() && needs[i] == key;
            assert(sorted[i].0 == key);
        }
        if record.required_states@.contains_key(key) {
            let i = choose|i: int| 0 <= i < sorted.len() && sorted[i].0 == key;
            assert(needs[i] == key);
        }
    }
}

} // verus!
