//! Transactions that use shared objects: the versions that they get, the
//! proxy that they go to, and what is sent to it.
use std::sync::Arc;

use vstd::prelude::*;

use crate::base_types::{
    ExecutorIndex, Object, ObjectID, ProxyId, SequenceNumber, StateKey, INITIAL_VERSION,
};
use crate::checkpoint::state_collector::StateCollector;
use crate::checkpoint::EpochId;
use crate::config::{LoadBalancingPolicy, ProxyMode};
use crate::duration::Duration;
use crate::executor::api::{
    NewStates, PrimaryToProxyMessage, ReplayBatch, ReplayMsg, RequiredStates,
    TransactionWithTimestamp,
};
use crate::ordered_map::OrderedMap;
use crate::primary::connections::{
    resolve_candidate, resolve_proxy_id, ProxyConnections, RetiringProxies,
};
use crate::primary::elastic_scaler::OrderKey;
use crate::primary::ownership::{StateOwnership, PRIMARY_FETCH_SENTINEL};
use crate::random::random_below;
use crate::recovery::{find_highest_version, LogRecord};
use crate::tables::{ConcurrentMap, FxMap};

verus! {

/// The current version of an object: the initial one where none is assigned.
pub open spec fn current_version(
    versions: Map<ObjectID, SequenceNumber>,
    id: ObjectID,
) -> SequenceNumber {
    if versions.contains_key(id) {
        versions[id]
    } else {
        INITIAL_VERSION
    }
}

/// The objects of shared inputs, in order.
pub open spec fn ids_of(shared: Seq<(ObjectID, Option<SequenceNumber>)>) -> Seq<ObjectID> {
    shared.map_values(|entry: (ObjectID, Option<SequenceNumber>)| entry.0)
}

/// The current version of each object, in order.
pub open spec fn needs_of(
    versions: Map<ObjectID, SequenceNumber>,
    ids: Seq<ObjectID>,
) -> Seq<StateKey> {
    ids.map_values(|id: ObjectID| (id, current_version(versions, id)))
}

/// One above the highest of the versions, and at least one above the initial one.
pub open spec fn assigned_version(needs: Seq<StateKey>) -> SequenceNumber {
    let highest = crate::recovery::highest_version(needs);
    if highest > INITIAL_VERSION {
        (highest + 1) as SequenceNumber
    } else {
        (INITIAL_VERSION + 1) as SequenceNumber
    }
}

/// The versions once a transaction on some objects is assigned.
pub open spec fn versions_after(
    versions: Map<ObjectID, SequenceNumber>,
    ids: Seq<ObjectID>,
) -> Map<ObjectID, SequenceNumber> {
    let assigned = assigned_version(needs_of(versions, ids));
    Map::new(
        |id: ObjectID| versions.contains_key(id) || ids.contains(id),
        |id: ObjectID|
            if ids.contains(id) {
                assigned
            } else {
                versions[id]
            },
    )
}

/// Assigns versions to the shared objects of transactions, in the order in
/// which the transactions come.
pub struct VersionAssignmentTask {
    shared_object_versions: FxMap<ObjectID, SequenceNumber>,
}

impl View for VersionAssignmentTask {
    type V = Map<ObjectID, SequenceNumber>;

    closed spec fn view(&self) -> Map<ObjectID, SequenceNumber> {
        self.shared_object_versions@
    }
}

impl VersionAssignmentTask {
    /// No version is assigned.
    pub fn new() -> (task: Self)
        ensures
            task@ =~= Map::<ObjectID, SequenceNumber>::empty(),
    {
        VersionAssignmentTask { shared_object_versions: FxMap::new() }
    }

    /// Gives a transaction the current versions of its shared objects, which
    /// are what it needs, and moves all these objects to one common version
    /// above them.
    pub fn assign_shared_object_versions(
        &mut self,
        transaction: &mut TransactionWithTimestamp,
    ) -> (required: Vec<StateKey>)
        requires
            forall|i: int|
                0 <= i < old(transaction).shared_objects@.len() ==> current_version(
                    old(self)@,
                    (#[trigger] old(transaction).shared_objects@[i]).0,
                ) < u64::MAX,
        ensures
            required@ =~= needs_of(old(self)@, ids_of(old(transaction).shared_objects@)),
            final(self)@ =~= (if required@.len() == 0 {
                old(self)@
            } else {
                versions_after(old(self)@, ids_of(old(transaction).shared_objects@))
            }),
            final(transaction).shared_objects@ =~= required@.map_values(
                |key: StateKey| (key.0, Some(key.1)),
            ),
            final(transaction).digest == old(transaction).digest,
            final(transaction).inputs == old(transaction).inputs,
            final(transaction).verification_duration == old(transaction).verification_duration,
            final(transaction).expected_stateful_duration == old(
                transaction,
            ).expected_stateful_duration,
            final(transaction).destination == old(transaction).destination,
            final(transaction).timestamp == old(transaction).timestamp,
    {
        let ghost versions = self@;
        let ghost ids = ids_of(transaction.shared_objects@);
        let count: usize = transaction.shared_objects.len();
        let mut required: Vec<StateKey> = Vec::new();
        let mut assigned: Vec<(ObjectID, Option<SequenceNumber>)> = Vec::new();
        if count == 0 {
            return required;
        }
        let mut i: usize = 0;
        while i < count
            invariant
                i <= count,
                count == transaction.shared_objects@.len(),
                self@ == versions,
                ids == ids_of(transaction.shared_objects@),
                required@ =~= needs_of(versions, ids.take(i as int)),
                assigned@ =~= required@.map_values(|key: StateKey| (key.0, Some(key.1))),
            decreases count - i,
        {
            let id: ObjectID = transaction.shared_objects[i].0;
            let current: SequenceNumber = match self.shared_object_versions.get(&id) {
                Some(version) => version,
                None => INITIAL_VERSION,
            };
            required.push((id, current));
            assigned.push((id, Some(current)));
            i = i + 1;
        }
        proof {
            assert(ids.take(i as int) =~= ids);
            crate::recovery::lemma_highest_version(required@);
            let top = choose|k: int|
                0 <= k < required@.len() && (#[trigger] required@[k]).1
                    == crate::recovery::highest_version(required@);
            assert(current_version(versions, transaction.shared_objects@[top].0) < u64::MAX);
        }
        let highest: SequenceNumber = find_highest_version(&required);
        let new_version: SequenceNumber = if highest > INITIAL_VERSION {
            highest + 1
        } else {
            INITIAL_VERSION + 1
        };
        let mut j: usize = 0;
        while j < required.len()
            invariant
                j <= required.len(),
                required@ =~= needs_of(versions, ids),
                forall|id: ObjectID| #[trigger]
                    self@.contains_key(id) <==> versions.contains_key(id) || ids.take(
                        j as int,
                    ).contains(id),
                forall|id: ObjectID| #[trigger]
                    self@.contains_key(id) ==> self@[id] == (if ids.take(j as int).contains(id) {
                        new_version
                    } else {
                        versions[id]
                    }),
            decreases required.len() - j,
        {
            proof {
                lemma_take_next_id(ids, j as int);
                assert(required@[j as int].0 == ids[j as int]);
            }
            let ghost before = self@;
            let _ = self.shared_object_versions.insert(required[j].0, new_version);
            proof {
                let longer = ids.take(j + 1);
                assert(self@ =~= before.insert(ids[j as int], new_version));
                assert forall|id: ObjectID| #[trigger]
                    self@.contains_key(id) <==> versions.contains_key(id) || longer.contains(
                        id,
                    ) by {
                    assert(before.contains_key(id) <==> versions.contains_key(id) || ids.take(
                        j as int,
                    ).contains(id));
                }
                assert forall|id: ObjectID| #[trigger] self@.contains_key(id) implies self@[id]
                    == (if longer.contains(id) {
                    new_version
                } else {
                    versions[id]
                }) by {
                    assert(longer.contains(id) <==> ids.take(j as int).contains(id) || id
                        == ids[j as int]);
                }
            }
            j = j + 1;
        }
        proof {
            assert(ids.take(j as int) =~= ids);
        }
        transaction.shared_objects = assigned;
        required
    }

    /// The record of a transaction that was assigned its versions.
    pub fn log_record(
        epoch: EpochId,
        transaction: &Arc<TransactionWithTimestamp>,
        required_versions: &Vec<StateKey>,
    ) -> (record: LogRecord)
        ensures
            record.epoch == epoch,
            record.transaction == *transaction,
            record.txn_digest == transaction.digest,
            record.required_states.wf(),
            record.required_states@ =~= unowned(required_versions@),
    {
        let mut required_states: RequiredStates = OrderedMap::new();
        let mut i: usize = 0;
        while i < required_versions.len()
            invariant
                i <= required_versions.len(),
                required_states.wf(),
                required_states@ =~= unowned(required_versions@.take(i as int)),
            decreases required_versions.len() - i,
        {
            proof {
                lemma_take_next_key(required_versions@, i as int);
            }
            required_states.insert(required_versions[i], None);
            i = i + 1;
        }
        proof {
            assert(required_versions@.take(i as int) =~= required_versions@);
        }
        LogRecord {
            txn_digest: transaction.digest,
            transaction: Arc::clone(transaction),
            required_states,
            epoch,
        }
    }
}

/// States of which no owner is known.
pub open spec fn unowned(keys: Seq<StateKey>) -> Map<StateKey, Option<ProxyId>> {
    Map::new(|k: StateKey| keys.contains(k), |k: StateKey| None)
}

proof fn lemma_take_next_id(ids: Seq<ObjectID>, j: int)
    requires
        0 <= j < ids.len(),
    ensures
        forall|id: ObjectID| #[trigger]
            ids.take(j + 1).contains(id) <==> ids.take(j).contains(id) || id == ids[j],
{
    let shorter = ids.take(j);
    let longer = ids.take(j + 1);
    assert forall|id: ObjectID| #[trigger] longer.contains(id) <==> shorter.contains(id) || id
        == ids[j] by {
        if longer.contains(id) {
            let k = choose|k: int| 0 <= k < longer.len() && longer[k] == id;
            if k < j {
                assert(shorter[k] == id);
            }
        }
        if shorter.contains(id) {
            let k = choose|k: int| 0 <= k < shorter.len() && shorter[k] == id;
            assert(longer[k] == id);
        }
        assert(longer[j] == ids[j]);
    }
}

proof fn lemma_take_next_key(keys: Seq<StateKey>, j: int)
    requires
        0 <= j < keys.len(),
    ensures
        forall|k: StateKey| #[trigger]
            keys.take(j + 1).contains(k) <==> keys.take(j).contains(k) || k == keys[j],
{
    let shorter = keys.take(j);
    let longer = keys.take(j + 1);
    assert forall|key: StateKey| #[trigger]
        longer.contains(key) <==> shorter.contains(key) || key == keys[j] by {
        if longer.contains(key) {
            let k = choose|k: int| 0 <= k < longer.len() && longer[k] == key;
            if k < j {
                assert(shorter[k] == key);
            }
        }
        if shorter.contains(key) {
            let k = choose|k: int| 0 <= k < shorter.len() && shorter[k] == key;
            assert(longer[k] == key);
        }
        assert(longer[j] == keys[j]);
    }
}

/// Once a transaction is assigned, each of its objects is at a version above
/// the one that the transaction needs, the same for all of them, and every
/// other object is where it was. So the next transaction on one of them needs
/// what this one writes.
pub proof fn law_assignment_orders_transactions(
    versions: Map<ObjectID, SequenceNumber>,
    ids: Seq<ObjectID>,
    id: ObjectID,
)
    requires
        forall|i: int|
            0 <= i < ids.len() ==> current_version(versions, #[trigger] ids[i]) < u64::MAX,
        ids.len() > 0,
    ensures
        ids.contains(id) ==> {
            &&& current_version(versions_after(versions, ids), id) == assigned_version(
                needs_of(versions, ids),
            )
            &&& current_version(versions_after(versions, ids), id) > current_version(versions, id)
        },
        !ids.contains(id) ==> current_version(versions_after(versions, ids), id)
            == current_version(versions, id),
{
    let needs = needs_of(versions, ids);
    crate::recovery::lemma_highest_version(needs);
    let top = choose|k: int|
        0 <= k < needs.len() && (#[trigger] needs[k]).1 == crate::recovery::highest_version(needs);
    assert(current_version(versions, ids[top]) < u64::MAX);
    if ids.contains(id) {
        let k = choose|k: int| 0 <= k < ids.len() && ids[k] == id;
        assert(needs[k].1 == current_version(versions, id));
    }
}

/// Where no object is below its initial version, a transaction writes the
/// version that its needs determine alone: the one above the highest of them.
pub proof fn law_needs_determine_assigned_version(needs: Seq<StateKey>)
    requires
        needs.len() > 0,
        forall|i: int| 0 <= i < needs.len() ==> (#[trigger] needs[i]).1 >= INITIAL_VERSION,
        crate::recovery::can_advance(needs),
    ensures
        assigned_version(needs) == crate::recovery::next_version(needs),
{
    crate::recovery::lemma_highest_version(needs);
    assert(needs[0].1 >= INITIAL_VERSION);
}

/// The number of required states that the proxy at an index has.
pub open spec fn states_held(
    owners: Map<StateKey, Set<ExecutorIndex>>,
    required: Seq<StateKey>,
    index: ExecutorIndex,
) -> nat
    decreases required.len(),
{
    if required.len() == 0 {
        0
    } else {
        let rest = states_held(owners, required.drop_last(), index);
        if crate::primary::ownership::owners_in(owners, required.last()).contains(index) {
            rest + 1
        } else {
            rest
        }
    }
}

/// The highest of some counts, and 0 where there are none.
pub open spec fn highest_count(counts: Seq<usize>) -> usize
    decreases counts.len(),
{
    if counts.len() == 0 {
        0
    } else {
        let rest = highest_count(counts.drop_last());
        if counts.last() > rest {
            counts.last()
        } else {
            rest
        }
    }
}

/// The positions of a count, in order.
pub open spec fn positions_with(counts: Seq<usize>, count: usize) -> Seq<ExecutorIndex>
    decreases counts.len(),
{
    if counts.len() == 0 {
        Seq::empty()
    } else {
        let rest = positions_with(counts.drop_last(), count);
        if counts.last() == count {
            rest.push((counts.len() - 1) as usize)
        } else {
            rest
        }
    }
}

/// The position of the highest count; among several, they take turns.
pub open spec fn best_by_count(counts: Seq<usize>, turn: usize) -> ExecutorIndex {
    let best = positions_with(counts, highest_count(counts));
    best[(turn % (best.len() as usize)) as int]
}

proof fn lemma_highest_count(counts: Seq<usize>)
    ensures
        forall|i: int| 0 <= i < counts.len() ==> #[trigger] counts[i] <= highest_count(counts),
        counts.len() > 0 ==> positions_with(counts, highest_count(counts)).len() > 0,
        positions_with(counts, highest_count(counts)).len() <= counts.len(),
    decreases counts.len(),
{
    lemma_positions_bound(counts, highest_count(counts));
    if counts.len() > 0 {
        let rest = counts.drop_last();
        lemma_highest_count(rest);
        assert forall|i: int| 0 <= i < counts.len() implies #[trigger] counts[i]
            <= highest_count(counts) by {
            if i < rest.len() {
                assert(rest[i] == counts[i]);
            }
        }
        if counts.last() <= highest_count(rest) && rest.len() == 0 {
            assert(counts.last() == highest_count(counts));
        }
    }
}

proof fn lemma_positions_bound(counts: Seq<usize>, count: usize)
    ensures
        positions_with(counts, count).len() <= counts.len(),
        forall|k: int|
            0 <= k < positions_with(counts, count).len() ==> (#[trigger] positions_with(
                counts,
                count,
            )[k]) < counts.len(),
        (forall|i: int| 0 <= i < counts.len() ==> #[trigger] counts[i] < count) ==> positions_with(
            counts,
            count,
        ).len() == 0,
    decreases counts.len(),
{
    if counts.len() > 0 {
        let rest = counts.drop_last();
        lemma_positions_bound(rest, count);
        if forall|i: int| 0 <= i < counts.len() ==> #[trigger] counts[i] < count {
            assert forall|i: int| 0 <= i < rest.len() implies #[trigger] rest[i] < count by {
                assert(rest[i] == counts[i]);
            }
            assert(counts[counts.len() - 1] < count);
        }
    }
}

/// The number of earlier accesses of the proxy to the required objects.
pub open spec fn accesses(history: Map<ObjectID, usize>, required: Seq<StateKey>) -> nat
    decreases required.len(),
{
    if required.len() == 0 {
        0
    } else {
        let rest = accesses(history, required.drop_last());
        if history.contains_key(required.last().0) {
            rest + history[required.last().0] as nat
        } else {
            rest
        }
    }
}

proof fn lemma_accesses_monotone(history: Map<ObjectID, usize>, required: Seq<StateKey>, i: int)
    requires
        0 <= i <= required.len(),
    ensures
        accesses(history, required.take(i)) <= accesses(history, required),
    decreases required.len(),
{
    if i < required.len() {
        assert(required.take(i) =~= required.drop_last().take(i));
        lemma_accesses_monotone(history, required.drop_last(), i);
    } else {
        assert(required.take(i) =~= required);
    }
}

/// How often an object occurs among required states.
pub open spec fn occurrences(required: Seq<StateKey>, id: ObjectID) -> nat
    decreases required.len(),
{
    if required.len() == 0 {
        0
    } else if required.last().0 == id {
        occurrences(required.drop_last(), id) + 1
    } else {
        occurrences(required.drop_last(), id)
    }
}

proof fn lemma_occurrences_monotone(required: Seq<StateKey>, id: ObjectID, i: int)
    requires
        0 <= i <= required.len(),
    ensures
        occurrences(required.take(i), id) <= occurrences(required, id),
    decreases required.len(),
{
    if i < required.len() {
        assert(required.take(i) =~= required.drop_last().take(i));
        lemma_occurrences_monotone(required.drop_last(), id, i);
    } else {
        assert(required.take(i) =~= required);
    }
}

/// What a counter stands at: 0 where it was never set.
pub open spec fn count_at<K>(counters: Map<K, usize>, key: K) -> usize {
    if counters.contains_key(key) {
        counters[key]
    } else {
        0
    }
}

/// A history with one more access for each occurrence of an object.
pub open spec fn accessed(
    history: Map<ObjectID, usize>,
    required: Seq<StateKey>,
) -> Map<ObjectID, usize> {
    Map::new(
        |id: ObjectID| history.contains_key(id) || occurrences(required, id) > 0,
        |id: ObjectID| (count_at(history, id) + occurrences(required, id)) as usize,
    )
}

/// The position of the first of the highest keys.
pub open spec fn first_best(keys: Seq<OrderKey>, best: int) -> bool {
    &&& 0 <= best < keys.len()
    &&& forall|i: int| 0 <= i < best ==> #[trigger] keys[i] < keys[best]
    &&& forall|i: int| best < i < keys.len() ==> #[trigger] keys[i] <= keys[best]
}

/// How a proxy is chosen.
pub enum ProxyChoice {
    /// The positions of the executing and of the checking proxy, if there are any.
    Decided(Option<(ExecutorIndex, ExecutorIndex)>),
    /// The proxies are to be scored by how much each has of what is required
    /// and by how loaded each is.
    ByScore { locality: Vec<usize>, loads: Vec<usize> },
}

/// What has to be known to choose a proxy by score.
pub struct LoadTracking {
    /// The load of the proxy at each index, in microseconds.
    proxy_loads: ConcurrentMap<ExecutorIndex, usize>,
    /// How often the proxy at each index accessed each object.
    proxy_access_histories: Vec<ConcurrentMap<ObjectID, usize>>,
}

impl LoadTracking {
    /// The load of the proxy at each index.
    pub closed spec fn loads(&self) -> Map<ExecutorIndex, usize> {
        self.proxy_loads@
    }

    /// The number of proxies whose accesses are counted.
    pub closed spec fn slots(&self) -> nat {
        self.proxy_access_histories@.len()
    }

    /// How often the proxy at an index accessed each object.
    pub closed spec fn history(&self, index: int) -> Map<ObjectID, usize> {
        self.proxy_access_histories@[index]@
    }

    /// No proxy has any load or history.
    pub fn new(proxy_count: usize) -> (tracking: Self)
        ensures
            tracking.loads() =~= Map::<ExecutorIndex, usize>::empty(),
            tracking.slots() == proxy_count,
            forall|i: int|
                0 <= i < proxy_count ==> (#[trigger] tracking.history(i)) =~= Map::<
                    ObjectID,
                    usize,
                >::empty(),
    {
        let mut proxy_access_histories: Vec<ConcurrentMap<ObjectID, usize>> = Vec::new();
        let mut i: usize = 0;
        while i < proxy_count
            invariant
                i <= proxy_count,
                proxy_access_histories@.len() == i,
                forall|k: int|
                    0 <= k < i ==> (#[trigger] proxy_access_histories@[k])@ =~= Map::<
                        ObjectID,
                        usize,
                    >::empty(),
            decreases proxy_count - i,
        {
            proxy_access_histories.push(ConcurrentMap::new());
            i = i + 1;
        }
        LoadTracking { proxy_loads: ConcurrentMap::new(), proxy_access_histories }
    }

    /// The loads of the first proxies.
    pub fn current_loads(&self, proxy_count: usize) -> (loads: Vec<usize>)
        ensures
            loads@.len() == proxy_count,
            forall|i: int|
                0 <= i < proxy_count ==> #[trigger] loads@[i] == count_at(
                    self.loads(),
                    i as usize,
                ),
    {
        let mut loads: Vec<usize> = Vec::new();
        let mut i: usize = 0;
        while i < proxy_count
            invariant
                i <= proxy_count,
                loads@.len() == i,
                forall|k: int|
                    0 <= k < i ==> #[trigger] loads@[k] == count_at(self.loads(), k as usize),
            decreases proxy_count - i,
        {
            loads.push(self.load(i));
            i = i + 1;
        }
        loads
    }

    /// The load of the proxy at an index.
    pub fn load(&self, index: ExecutorIndex) -> (load: usize)
        ensures
            load == count_at(self.loads(), index),
    {
        match self.proxy_loads.get(&index) {
            Some(load) => load,
            None => 0,
        }
    }

    /// The accesses of the proxy at an index to the required objects.
    pub fn access_count(&self, index: ExecutorIndex, required: &Vec<StateKey>) -> (count: usize)
        requires
            index < self.slots(),
            accesses(self.history(index as int), required@) <= usize::MAX,
        ensures
            count == accesses(self.history(index as int), required@),
    {
        let mut count: usize = 0;
        let mut j: usize = 0;
        while j < required.len()
            invariant
                j <= required.len(),
                index < self.slots(),
                accesses(self.history(index as int), required@) <= usize::MAX,
                count == accesses(self.history(index as int), required@.take(j as int)),
            decreases required.len() - j,
        {
            proof {
                assert(required@.take(j + 1).drop_last() =~= required@.take(j as int));
                lemma_accesses_monotone(self.history(index as int), required@, j + 1);
            }
            if let Some(access_count) = self.proxy_access_histories[index].get(&required[j].0) {
                count = count + access_count;
            }
            j = j + 1;
        }
        proof {
            assert(required@.take(j as int) =~= required@);
        }
        count
    }

    /// The accesses of the first proxies to the required objects.
    pub fn access_counts(&self, required: &Vec<StateKey>, proxy_count: usize) -> (counts: Vec<
        usize,
    >)
        requires
            proxy_count <= self.slots(),
            forall|i: int|
                0 <= i < proxy_count ==> accesses(#[trigger] self.history(i), required@)
                    <= usize::MAX,
        ensures
            counts@.len() == proxy_count,
            forall|i: int|
                0 <= i < proxy_count ==> #[trigger] counts@[i] == accesses(
                    self.history(i),
                    required@,
                ),
    {
        let mut counts: Vec<usize> = Vec::new();
        let mut i: usize = 0;
        while i < proxy_count
            invariant
                i <= proxy_count,
                proxy_count <= self.slots(),
                forall|i: int|
                    0 <= i < proxy_count ==> accesses(#[trigger] self.history(i), required@)
                        <= usize::MAX,
                counts@.len() == i,
                forall|k: int|
                    0 <= k < i ==> #[trigger] counts@[k] == accesses(self.history(k), required@),
            decreases proxy_count - i,
        {
            proof {
                assert(accesses(self.history(i as int), required@) <= usize::MAX);
            }
            counts.push(self.access_count(i, required));
            i = i + 1;
        }
        counts
    }

    /// Adds to the load of a proxy.
    pub fn add_load(&mut self, index: ExecutorIndex, increase: usize)
        requires
            count_at(old(self).loads(), index) + increase <= usize::MAX,
        ensures
            final(self).loads() =~= old(self).loads().insert(
                index,
                (count_at(old(self).loads(), index) + increase) as usize,
            ),
            final(self).slots() == old(self).slots(),
            forall|i: int| #[trigger] final(self).history(i) == old(self).history(i),
    {
        let load: usize = self.load(index);
        let _ = self.proxy_loads.insert(index, load + increase);
    }

    /// Counts an access of a proxy to each required object.
    pub fn record_accesses(&mut self, index: ExecutorIndex, required: &Vec<StateKey>)
        requires
            index < old(self).slots(),
            forall|id: ObjectID|
                count_at(old(self).history(index as int), id) + #[trigger] occurrences(
                    required@,
                    id,
                ) <= usize::MAX,
        ensures
            final(self).loads() =~= old(self).loads(),
            final(self).slots() == old(self).slots(),
            final(self).history(index as int) =~= accessed(
                old(self).history(index as int),
                required@,
            ),
            forall|i: int|
                0 <= i < old(self).slots() && i != index ==> #[trigger] final(self).history(i)
                    == old(self).history(i),
    {
        let ghost before = *self;
        let ghost history = self.history(index as int);
        let mut counted: ConcurrentMap<ObjectID, usize> = self.proxy_access_histories.swap_remove(
            index,
        );
        let last: usize = self.proxy_access_histories.len();
        let mut j: usize = 0;
        proof {
            assert(required@.take(0) =~= Seq::<StateKey>::empty());
            assert(counted@ =~= accessed(history, required@.take(0)));
        }
        while j < required.len()
            invariant
                j <= required.len(),
                forall|id: ObjectID|
                    count_at(history, id) + #[trigger] occurrences(required@, id) <= usize::MAX,
                counted@ =~= accessed(history, required@.take(j as int)),
            decreases required.len() - j,
        {
            let id: ObjectID = required[j].0;
            proof {
                let shorter = required@.take(j as int);
                let longer = required@.take(j + 1);
                assert(longer.drop_last() =~= shorter);
                assert(count_at(history, id) + occurrences(required@, id) <= usize::MAX);
                lemma_occurrences_monotone(required@, id, j + 1);
                assert(occurrences(longer, id) == occurrences(shorter, id) + 1);
                assert forall|other: ObjectID| other != id implies occurrences(longer, other)
                    == occurrences(shorter, other) by {}
            }
            let count: usize = match counted.get(&id) {
                Some(count) => count,
                None => 0,
            };
            let _ = counted.insert(id, count + 1);
            j = j + 1;
        }
        proof {
            assert(required@.take(j as int) =~= required@);
        }
        self.put_history(index, counted, Ghost(before));
    }

    /// Puts a history back where it was taken from.
    fn put_history(
        &mut self,
        index: ExecutorIndex,
        counted: ConcurrentMap<ObjectID, usize>,
        before: Ghost<Self>,
    )
        requires
            index < before@.slots(),
            old(self).proxy_access_histories@ =~= before@.proxy_access_histories@.update(
                index as int,
                before@.proxy_access_histories@.last(),
            ).drop_last(),
        ensures
            final(self).proxy_loads == old(self).proxy_loads,
            final(self).proxy_access_histories@ =~= before@.proxy_access_histories@.update(
                index as int,
                counted,
            ),
    {
        if index == self.proxy_access_histories.len() {
            self.proxy_access_histories.push(counted);
        } else {
            let moved: ConcurrentMap<ObjectID, usize> = self.proxy_access_histories.remove(index);
            self.proxy_access_histories.insert(index, counted);
            self.proxy_access_histories.push(moved);
        }
    }
}

/// What a transaction still needs on the proxy that executes it.
pub struct MissingStatesResult {
    /// The required states, each with the index of a proxy that has it where
    /// the executing proxy has to ask for it.
    pub required_states: RequiredStates,
    /// The states that the primary sends along.
    pub lazy_fetched_blobs: NewStates,
}

/// The states of a transaction while they are looked up one by one.
pub struct MissingStates {
    pub owners: Map<StateKey, Set<ExecutorIndex>>,
    pub required: Map<StateKey, Option<ExecutorIndex>>,
    pub blobs: Map<ObjectID, Object>,
}

/// The proxy to ask for a state: none where the executing proxy has it or
/// nobody does, else the first of those that do. Where no connected proxy has
/// it any more, it is to be fetched from the primary.
pub open spec fn owner_to_ask(
    owners: Map<StateKey, Set<ExecutorIndex>>,
    key: StateKey,
    index: ExecutorIndex,
    count: nat,
) -> Option<ExecutorIndex> {
    let known = crate::primary::ownership::owners_in(owners, key);
    if known.contains(index) {
        None
    } else {
        match crate::primary::ownership::least_of(known) {
            Some(first) => if first < count {
                Some(first)
            } else {
                Some(PRIMARY_FETCH_SENTINEL)
            },
            None => None,
        }
    }
}

impl MissingStates {
    /// The states once one more is looked up: the executing proxy becomes an
    /// owner of the version that the transaction writes, and no longer is one
    /// of the version that it reads.
    pub open spec fn with(
        self,
        key: StateKey,
        next: SequenceNumber,
        index: ExecutorIndex,
        count: nat,
        merged: Map<ObjectID, Object>,
    ) -> Self {
        let owner = owner_to_ask(self.owners, key, index, count);
        let fetch = owner == Some(PRIMARY_FETCH_SENTINEL);
        let written = self.owners.insert(
            (key.0, next),
            crate::primary::ownership::owners_in(self.owners, (key.0, next)).insert(index),
        );
        MissingStates {
            owners: if written.contains_key(key) {
                written.insert(key, written[key].remove(index))
            } else {
                written
            },
            required: self.required.insert(
                key,
                if fetch {
                    None
                } else {
                    owner
                },
            ),
            blobs: if fetch && merged.contains_key(key.0) {
                self.blobs.insert(key.0, merged[key.0])
            } else {
                self.blobs
            },
        }
    }

    /// The states once a sequence of them is looked up, in order.
    pub open spec fn with_all(
        self,
        keys: Seq<StateKey>,
        next: SequenceNumber,
        index: ExecutorIndex,
        count: nat,
        merged: Map<ObjectID, Object>,
    ) -> Self
        decreases keys.len(),
    {
        if keys.len() == 0 {
            self
        } else {
            self.with_all(keys.drop_last(), next, index, count, merged).with(
                keys.last(),
                next,
                index,
                count,
                merged,
            )
        }
    }
}

/// The states that a transaction needs on a proxy, and the owners of states
/// once it is sent there.
pub open spec fn missing_states(
    owners: Map<StateKey, Set<ExecutorIndex>>,
    keys: Seq<StateKey>,
    index: ExecutorIndex,
    count: nat,
    merged: Map<ObjectID, Object>,
) -> MissingStates {
    let none = MissingStates { owners, required: Map::empty(), blobs: Map::empty() };
    none.with_all(keys, crate::recovery::next_version(keys), index, count, merged)
}

/// Required states with each index replaced by the proxy at it.
pub open spec fn resolved(
    required: Seq<(StateKey, Option<ExecutorIndex>)>,
    connected: Set<ProxyId>,
    standby_excluded: bool,
) -> Seq<(StateKey, Option<ProxyId>)> {
    required.map_values(
        |entry: (StateKey, Option<ExecutorIndex>)|
            (
                entry.0,
                match entry.1 {
                    Some(index) => crate::primary::connections::proxy_at(
                        connected,
                        standby_excluded,
                        index,
                    ),
                    None => None,
                },
            ),
    )
}

/// A transaction to forward.
pub struct ForwardingTask {
    pub transaction: Arc<TransactionWithTimestamp>,
    pub required_versions: Vec<StateKey>,
    pub txn_cnt: usize,
    pub epoch_id: EpochId,
}

/// What is sent for a transaction.
pub struct Forwarding {
    /// The proxy that executes.
    pub stateful: Option<ProxyId>,
    /// The proxy that checks.
    pub stateless: Option<ProxyId>,
    /// The mode of the proxies.
    pub mode: ProxyMode,
    /// The states that the executing proxy asks others for.
    pub required: Seq<(StateKey, Option<ProxyId>)>,
    /// The states that the primary sends along.
    pub blobs: Map<ObjectID, Object>,
}

impl Forwarding {
    /// Whether states are sent along.
    pub open spec fn sends_states(self) -> bool {
        self.stateful is Some && !(self.blobs.dom() =~= Set::empty())
    }

    /// Whether a message for checking is sent.
    pub open spec fn sends_check(self) -> bool {
        self.mode == ProxyMode::Separation && self.stateless is Some
    }

    /// Whether a message for executing is sent.
    pub open spec fn sends_execution(self) -> bool {
        self.stateful is Some
    }

    /// The number of messages before the one for checking.
    pub open spec fn before_check(self) -> int {
        if self.sends_states() {
            1
        } else {
            0
        }
    }

    /// The number of messages before the one for executing.
    pub open spec fn before_execution(self) -> int {
        self.before_check() + if self.sends_check() {
            1int
        } else {
            0int
        }
    }

    /// The number of messages.
    pub open spec fn total(self) -> int {
        self.before_execution() + if self.sends_execution() {
            1int
        } else {
            0int
        }
    }

    /// Whether a message carries the states that are sent along.
    pub open spec fn carries_states(self, message: PrimaryToProxyMessage) -> bool {
        message matches PrimaryToProxyMessage::Replay(batch) && batch.epoch == EpochId(0)
            && batch.items@.len() == 1 && batch.items@[0].epoch_id == EpochId(0)
            && batch.items@[0].transaction is None && batch.items@[0].required_versions@.len() == 0
            && batch.items@[0].state_blobs.wf() && batch.items@[0].state_blobs@ =~= self.blobs
    }

    /// The checking proxy as the executing proxy is told it.
    pub open spec fn told_checker(self) -> ProxyId {
        match self.stateless {
            Some(proxy) => proxy,
            None => usize::MAX,
        }
    }

    /// Whether a message has a transaction executed.
    pub open spec fn carries_execution(
        self,
        message: PrimaryToProxyMessage,
        epoch: EpochId,
        transaction: Arc<TransactionWithTimestamp>,
    ) -> bool {
        if self.mode == ProxyMode::Separation {
            message matches PrimaryToProxyMessage::Txn(at, txn, checker, required) && at == epoch
                && txn == transaction && checker == self.told_checker() && required.wf()
                && required.sorted() =~= self.required
        } else {
            message matches PrimaryToProxyMessage::CombinedTxn(at, txn, checker, required) && at
                == epoch && txn == transaction && checker == self.told_checker() && required.wf()
                && required.sorted() =~= self.required
        }
    }

    /// Whether these are the messages that are sent, in order: the states that
    /// the primary sends along, then the check, then the execution.
    pub open spec fn sent(
        self,
        messages: Seq<(ProxyId, PrimaryToProxyMessage)>,
        epoch: EpochId,
        transaction: Arc<TransactionWithTimestamp>,
    ) -> bool {
        &&& messages.len() == self.total()
        &&& self.sends_states() ==> Some(messages[0].0) == self.stateful && self.carries_states(
            messages[0].1,
        )
        &&& self.sends_check() ==> Some(messages[self.before_check()].0) == self.stateless
            && messages[self.before_check()].1 == PrimaryToProxyMessage::StatelessTxn(
            epoch,
            transaction,
        )
        &&& self.sends_execution() ==> Some(messages[self.before_execution()].0) == self.stateful
            && self.carries_execution(messages[self.before_execution()].1, epoch, transaction)
    }
}

/// Chooses proxies for transactions on shared objects and forwards them.
pub struct SharedObjTxnForwarder {}

impl SharedObjTxnForwarder {
    /// The number of required states that the proxy at each position has.
    pub fn locality_counts(
        states_to_proxy: &StateOwnership,
        required_versions: &Vec<StateKey>,
        candidates: &Vec<ExecutorIndex>,
    ) -> (counts: Vec<usize>)
        requires
            states_to_proxy.wf(),
        ensures
            counts@ =~= held_counts(candidates@, states_to_proxy@, required_versions@),
            forall|i: int|
                0 <= i < counts@.len() ==> #[trigger] counts@[i] == states_held(
                    states_to_proxy@,
                    required_versions@,
                    candidates@[i],
                ),
    {
        let mut counts: Vec<usize> = Vec::new();
        let mut p: usize = 0;
        while p < candidates.len()
            invariant
                p <= candidates.len(),
                states_to_proxy.wf(),
                counts@.len() == p,
                forall|i: int|
                    0 <= i < p ==> #[trigger] counts@[i] == states_held(
                        states_to_proxy@,
                        required_versions@,
                        candidates@[i],
                    ),
            decreases candidates.len() - p,
        {
            let index: ExecutorIndex = candidates[p];
            let mut count: usize = 0;
            let mut j: usize = 0;
            while j < required_versions.len()
                invariant
                    j <= required_versions.len(),
                    states_to_proxy.wf(),
                    count <= j,
                    count == states_held(
                        states_to_proxy@,
                        required_versions@.take(j as int),
                        index,
                    ),
                decreases required_versions.len() - j,
            {
                proof {
                    assert(required_versions@.take(j + 1).drop_last() =~= required_versions@.take(
                        j as int,
                    ));
                }
                if let Some(owners) = states_to_proxy.owners(&required_versions[j]) {
                    if owners.contains(index) {
                        count = count + 1;
                    }
                }
                j = j + 1;
            }
            proof {
                assert(required_versions@.take(j as int) =~= required_versions@);
            }
            counts.push(count);
            p = p + 1;
        }
        counts
    }

    /// The position of the highest count; among several, they take turns.
    pub fn select_most(counts: &Vec<usize>, turn: usize) -> (best: ExecutorIndex)
        requires
            counts@.len() > 0,
        ensures
            best == best_by_count(counts@, turn),
            best < counts@.len(),
            counts@[best as int] == highest_count(counts@),
    {
        let mut max_count: usize = 0;
        let mut best_proxies: Vec<ExecutorIndex> = Vec::new();
        let mut i: usize = 0;
        while i < counts.len()
            invariant
                i <= counts.len(),
                max_count == highest_count(counts@.take(i as int)),
                best_proxies@ == positions_with(counts@.take(i as int), max_count),
            decreases counts.len() - i,
        {
            proof {
                let shorter = counts@.take(i as int);
                let longer = counts@.take(i + 1);
                assert(longer.drop_last() =~= shorter);
                lemma_highest_count(shorter);
                lemma_positions_bound(shorter, counts@[i as int]);
                if counts@[i as int] > max_count {
                    assert forall|k: int| 0 <= k < shorter.len() implies #[trigger] shorter[k]
                        < counts@[i as int] by {}
                }
            }
            if counts[i] > max_count {
                max_count = counts[i];
                best_proxies.clear();
                best_proxies.push(i);
            } else if counts[i] == max_count {
                best_proxies.push(i);
            }
            i = i + 1;
        }
        proof {
            assert(counts@.take(i as int) =~= counts@);
            lemma_highest_count(counts@);
            lemma_positions_bound(counts@, max_count);
            lemma_positions_hold(counts@, max_count);
        }
        let chosen: usize = if best_proxies.len() > 1 {
            turn % best_proxies.len()
        } else {
            0
        };
        best_proxies[chosen]
    }

    /// One candidate after the other.
    pub fn get_proxy_for_shared_objects_round_robin(
        candidates: &Vec<ExecutorIndex>,
        txn_cnt: usize,
    ) -> (choice: Option<(ExecutorIndex, ExecutorIndex)>)
        ensures
            choice == round_robin_choice(candidates@, txn_cnt),
    {
        if candidates.len() == 0 {
            return None;
        }
        let proxy_index: ExecutorIndex = candidates[txn_cnt % candidates.len()];
        Some((proxy_index, proxy_index))
    }

    /// A random candidate.
    pub fn get_proxy_for_shared_objects_random(candidates: &Vec<ExecutorIndex>) -> (choice: Option<
        (ExecutorIndex, ExecutorIndex),
    >)
        ensures
            match choice {
                Some((stateful, stateless)) => stateful == stateless && candidates@.contains(
                    stateful,
                ),
                None => candidates@.len() == 0,
            },
    {
        if candidates.len() == 0 {
            return None;
        }
        let proxy_index: ExecutorIndex = candidates[random_below(candidates.len())];
        Some((proxy_index, proxy_index))
    }

    /// The candidate that has most of the required states, and the first one
    /// where none is required.
    pub fn get_proxy_for_shared_objects_most_states(
        candidates: &Vec<ExecutorIndex>,
        states_to_proxy: &StateOwnership,
        required_versions: &Vec<StateKey>,
        txn_cnt: usize,
    ) -> (choice: Option<(ExecutorIndex, ExecutorIndex)>)
        requires
            states_to_proxy.wf(),
        ensures
            choice == most_states_choice(
                candidates@,
                states_to_proxy@,
                required_versions@,
                txn_cnt,
            ),
    {
        if candidates.len() == 0 {
            return None;
        }
        if required_versions.len() == 0 {
            return Some((candidates[0], candidates[0]));
        }
        let counts: Vec<usize> = Self::locality_counts(
            states_to_proxy,
            required_versions,
            candidates,
        );
        let proxy_index: ExecutorIndex = candidates[Self::select_most(&counts, txn_cnt)];
        Some((proxy_index, proxy_index))
    }

    /// The position of the first of the highest scores.
    pub fn select_best(scores: &Vec<OrderKey>) -> (best: usize)
        requires
            scores@.len() > 0,
        ensures
            first_best(scores@, best as int),
    {
        let mut best: usize = 0;
        let mut i: usize = 1;
        while i < scores.len()
            invariant
                1 <= i <= scores.len(),
                best < i,
                first_best(scores@.take(i as int), best as int),
            decreases scores.len() - i,
        {
            proof {
                let shorter = scores@.take(i as int);
                let longer = scores@.take(i + 1);
                assert forall|k: int| 0 <= k < i implies #[trigger] longer[k] == shorter[k] by {}
            }
            if scores[i] > scores[best] {
                best = i;
            }
            i = i + 1;
        }
        proof {
            assert(scores@.take(i as int) =~= scores@);
        }
        best
    }

    /// Takes the first of the best-scored candidates, adds the time that the
    /// transaction takes to its load and, where asked for, its accesses to its
    /// history.
    pub fn compute_locality_load_proxy(
        candidates: &Vec<ExecutorIndex>,
        scores: &Vec<OrderKey>,
        required_versions: &Vec<StateKey>,
        tracking: &mut LoadTracking,
        update_history: bool,
        txn_duration: &Duration,
    ) -> (choice: Option<(ExecutorIndex, ExecutorIndex)>)
        requires
            candidates@.len() == scores@.len(),
            update_history ==> forall|k: int|
                0 <= k < candidates@.len() ==> #[trigger] candidates@[k] < old(tracking).slots(),
            forall|k: int|
                0 <= k < candidates@.len() ==> count_at(
                    old(tracking).loads(),
                    #[trigger] candidates@[k],
                ) + txn_duration.micros() <= usize::MAX,
            update_history ==> forall|k: int, id: ObjectID|
                0 <= k < candidates@.len() ==> #[trigger] count_at(
                    old(tracking).history(candidates@[k] as int),
                    id,
                ) + occurrences(required_versions@, id) <= usize::MAX,
        ensures
            final(tracking).slots() == old(tracking).slots(),
            match choice {
                None => {
                    &&& scores@.len() == 0
                    &&& final(tracking).loads() == old(tracking).loads()
                    &&& forall|i: int| #[trigger]
                        final(tracking).history(i) == old(tracking).history(i)
                },
                Some((stateful, stateless)) => {
                    &&& stateful == stateless
                    &&& exists|best: int| #[trigger]
                        first_best(scores@, best) && stateful == candidates@[best]
                    &&& final(tracking).loads() =~= old(tracking).loads().insert(
                        stateful,
                        (count_at(old(tracking).loads(), stateful)
                            + txn_duration.micros()) as usize,
                    )
                    &&& final(tracking).history(stateful as int) =~= (if update_history {
                        accessed(old(tracking).history(stateful as int), required_versions@)
                    } else {
                        old(tracking).history(stateful as int)
                    })
                    &&& forall|i: int|
                        0 <= i < old(tracking).slots() && i != stateful ==> (
                        #[trigger] final(tracking).history(i)) == old(tracking).history(i)
                },
            },
    {
        if scores.len() == 0 {
            return None;
        }
        let best: usize = Self::select_best(scores);
        let index: ExecutorIndex = candidates[best];
        let increase: usize = txn_duration.as_micros() as usize;
        tracking.add_load(index, increase);
        if update_history {
            proof {
                assert forall|id: ObjectID|
                    count_at(tracking.history(index as int), id) + #[trigger] occurrences(
                        required_versions@,
                        id,
                    ) <= usize::MAX by {
                    assert(tracking.history(index as int) == old(tracking).history(index as int));
                    assert(count_at(
                        old(tracking).history(candidates@[best as int] as int),
                        id,
                    ) + occurrences(required_versions@, id) <= usize::MAX);
                }
            }
            tracking.record_accesses(index, required_versions);
        }
        Some((index, index))
    }

    /// The load of the proxy at each position.
    fn loads_of(tracking: &LoadTracking, candidates: &Vec<ExecutorIndex>) -> (loads: Vec<usize>)
        ensures
            loads@ =~= candidate_loads(candidates@, *tracking),
    {
        let mut loads: Vec<usize> = Vec::new();
        let mut i: usize = 0;
        while i < candidates.len()
            invariant
                i <= candidates.len(),
                loads@ =~= candidate_loads(candidates@.take(i as int), *tracking),
            decreases candidates.len() - i,
        {
            loads.push(tracking.load(candidates[i]));
            i = i + 1;
        }
        proof {
            assert(candidates@.take(i as int) =~= candidates@);
        }
        loads
    }

    /// The accesses of the proxy at each position to the required objects.
    fn accesses_of(
        tracking: &LoadTracking,
        required_versions: &Vec<StateKey>,
        candidates: &Vec<ExecutorIndex>,
    ) -> (counts: Vec<usize>)
        requires
            forall|k: int|
                0 <= k < candidates@.len() ==> #[trigger] candidates@[k] < tracking.slots(),
            forall|i: int|
                0 <= i < tracking.slots() ==> accesses(
                    #[trigger] tracking.history(i),
                    required_versions@,
                ) <= usize::MAX,
        ensures
            counts@.len() == candidates@.len(),
            forall|k: int|
                0 <= k < candidates@.len() ==> #[trigger] counts@[k] == accesses(
                    tracking.history(candidates@[k] as int),
                    required_versions@,
                ),
    {
        let mut counts: Vec<usize> = Vec::new();
        let mut i: usize = 0;
        while i < candidates.len()
            invariant
                i <= candidates.len(),
                forall|k: int|
                    0 <= k < candidates@.len() ==> #[trigger] candidates@[k] < tracking.slots(),
                forall|i: int|
                    0 <= i < tracking.slots() ==> accesses(
                        #[trigger] tracking.history(i),
                        required_versions@,
                    ) <= usize::MAX,
                counts@.len() == i,
                forall|k: int|
                    0 <= k < i ==> #[trigger] counts@[k] == accesses(
                        tracking.history(candidates@[k] as int),
                        required_versions@,
                    ),
            decreases candidates.len() - i,
        {
            let index: ExecutorIndex = candidates[i];
            proof {
                assert(index < tracking.slots());
                assert(accesses(tracking.history(index as int), required_versions@) <= usize::MAX);
            }
            counts.push(tracking.access_count(index, required_versions));
            i = i + 1;
        }
        counts
    }

    /// Chooses the proxies for a transaction among the candidates, by the
    /// policy. A position that is asked for has to be a candidate's.
    pub fn get_proxy_for_shared_objects(
        policy: LoadBalancingPolicy,
        candidates: &Vec<ExecutorIndex>,
        states_to_proxy: &StateOwnership,
        txn_cnt: usize,
        required_versions: &Vec<StateKey>,
        destination: Option<ExecutorIndex>,
        tracking: &LoadTracking,
    ) -> (choice: ProxyChoice)
        requires
            states_to_proxy.wf(),
            policy != LoadBalancingPolicy::Dedicated,
            policy != LoadBalancingPolicy::Combined,
            policy == LoadBalancingPolicy::AffinityAware ==> {
                &&& forall|k: int|
                    0 <= k < candidates@.len() ==> #[trigger] candidates@[k] < tracking.slots()
                &&& forall|i: int|
                    0 <= i < tracking.slots() ==> accesses(
                        #[trigger] tracking.history(i),
                        required_versions@,
                    ) <= usize::MAX
            },
        ensures
            chosen_by_policy(
                choice,
                policy,
                candidates@,
                states_to_proxy@,
                txn_cnt,
                required_versions@,
                destination,
                *tracking,
            ),
    {
        match policy {
            LoadBalancingPolicy::RoundRobin => ProxyChoice::Decided(
                Self::get_proxy_for_shared_objects_round_robin(candidates, txn_cnt),
            ),
            LoadBalancingPolicy::Zeus => ProxyChoice::Decided(
                Self::get_proxy_for_shared_objects_most_states(
                    candidates,
                    states_to_proxy,
                    required_versions,
                    txn_cnt,
                ),
            ),
            LoadBalancingPolicy::Random => ProxyChoice::Decided(
                Self::get_proxy_for_shared_objects_random(candidates),
            ),
            LoadBalancingPolicy::Hermes => ProxyChoice::Decided(
                match destination {
                    Some(dest) => {
                        if Self::is_candidate(candidates, dest) {
                            Some((dest, dest))
                        } else {
                            None
                        }
                    },
                    None => None,
                },
            ),
            LoadBalancingPolicy::LocalityLoad => {
                if candidates.len() == 0 {
                    return ProxyChoice::Decided(None);
                }
                ProxyChoice::ByScore {
                    locality: Self::locality_counts(states_to_proxy, required_versions, candidates),
                    loads: Self::loads_of(tracking, candidates),
                }
            },
            _ => {
                if candidates.len() == 0 {
                    return ProxyChoice::Decided(None);
                }
                ProxyChoice::ByScore {
                    locality: Self::accesses_of(tracking, required_versions, candidates),
                    loads: Self::loads_of(tracking, candidates),
                }
            },
        }
    }

    /// Whether a position is a candidate's.
    fn is_candidate(candidates: &Vec<ExecutorIndex>, index: ExecutorIndex) -> (member: bool)
        ensures
            member == candidates@.contains(index),
    {
        let mut i: usize = 0;
        while i < candidates.len()
            invariant
                i <= candidates.len(),
                forall|k: int| 0 <= k < i ==> candidates@[k] != index,
            decreases candidates.len() - i,
        {
            if candidates[i] == index {
                return true;
            }
            i = i + 1;
        }
        false
    }

    /// What a transaction still needs on the proxy at an index, and the owners
    /// of states once it is sent there.
    pub fn get_missing_states_for_transaction(
        required_versions: &Vec<StateKey>,
        proxy_index: ExecutorIndex,
        proxy_count: usize,
        states_to_proxy: &mut StateOwnership,
        collector: &StateCollector,
    ) -> (missing: MissingStatesResult)
        requires
            old(states_to_proxy).wf(),
            crate::recovery::can_advance(required_versions@),
        ensures
            final(states_to_proxy).wf(),
            missing.required_states.wf(),
            missing.lazy_fetched_blobs.wf(),
            ({
                let expected = missing_states(
                    old(states_to_proxy)@,
                    required_versions@,
                    proxy_index,
                    proxy_count as nat,
                    collector@.merged,
                );
                &&& final(states_to_proxy)@ =~= expected.owners
                &&& missing.required_states@ =~= expected.required
                &&& missing.lazy_fetched_blobs@ =~= expected.blobs
            }),
    {
        let ghost owners = states_to_proxy@;
        let ghost none = MissingStates { owners, required: Map::empty(), blobs: Map::empty() };
        let ghost merged = collector@.merged;
        let mut required_states: RequiredStates = OrderedMap::new();
        let mut lazy_fetched_blobs: NewStates = OrderedMap::new();
        let next_version: SequenceNumber = find_highest_version(required_versions) + 1;
        let mut i: usize = 0;
        while i < required_versions.len()
            invariant
                i <= required_versions.len(),
                states_to_proxy.wf(),
                required_states.wf(),
                lazy_fetched_blobs.wf(),
                merged == collector@.merged,
                ({
                    let expected = none.with_all(
                        required_versions@.take(i as int),
                        next_version,
                        proxy_index,
                        proxy_count as nat,
                        merged,
                    );
                    &&& states_to_proxy@ =~= expected.owners
                    &&& required_states@ =~= expected.required
                    &&& lazy_fetched_blobs@ =~= expected.blobs
                }),
            decreases required_versions.len() - i,
        {
            let key: StateKey = required_versions[i];
            proof {
                assert(required_versions@.take(i + 1).drop_last() =~= required_versions@.take(
                    i as int,
                ));
            }
            let owner: Option<ExecutorIndex> = match states_to_proxy.owners(&key) {
                Some(known) => {
                    if known.contains(proxy_index) {
                        None
                    } else {
                        match known.least() {
                            Some(first) => if first < proxy_count {
                                Some(first)
                            } else {
                                Some(PRIMARY_FETCH_SENTINEL)
                            },
                            None => None,
                        }
                    }
                },
                None => None,
            };
            proof {
                assert(owner == owner_to_ask(
                    states_to_proxy@,
                    key,
                    proxy_index,
                    proxy_count as nat,
                ));
            }
            match owner {
                Some(asked) => {
                    if asked == PRIMARY_FETCH_SENTINEL {
                        if let Some(blob) = collector.get_object(&key.0) {
                            lazy_fetched_blobs.insert(key.0, blob);
                        }
                        required_states.insert(key, None);
                    } else {
                        required_states.insert(key, Some(asked));
                    }
                },
                None => {
                    required_states.insert(key, None);
                },
            }
            states_to_proxy.add_owner((key.0, next_version), proxy_index);
            states_to_proxy.remove_owner(key, proxy_index);
            i = i + 1;
        }
        proof {
            assert(required_versions@.take(i as int) =~= required_versions@);
        }
        MissingStatesResult { required_states, lazy_fetched_blobs }
    }

    /// Required states with each index replaced by the proxy at it.
    pub fn resolve_required_states_to_proxy_ids<C>(
        required_states: &RequiredStates,
        proxy_connections: &ProxyConnections<C>,
        standby_excluded: bool,
    ) -> (resolved_states: RequiredStates)
        requires
            required_states.wf(),
        ensures
            resolved_states.wf(),
            resolved_states.sorted() =~= resolved(
                required_states.sorted(),
                proxy_connections@.dom(),
                standby_excluded,
            ),
    {
        let mut resolved_states: RequiredStates = OrderedMap::new();
        let ghost connected = proxy_connections@.dom();
        let ghost whole = resolved(required_states.sorted(), connected, standby_excluded);
        let mut i: usize = 0;
        while i < required_states.len()
            invariant
                i <= required_states.sorted().len(),
                required_states.wf(),
                connected == proxy_connections@.dom(),
                whole == resolved(required_states.sorted(), connected, standby_excluded),
                resolved_states.wf(),
                resolved_states.sorted() =~= whole.take(i as int),
            decreases required_states.sorted().len() - i,
        {
            let entry = required_states.entry_at(i);
            let proxy: Option<ProxyId> = match entry.1 {
                Some(index) => resolve_proxy_id(proxy_connections, standby_excluded, index),
                None => None,
            };
            let ghost before = resolved_states.sorted();
            proof {
                assert forall|k: int| 0 <= k < before.len() implies
                    crate::ordered_map::OrderedKey::precedes((#[trigger] before[k]).0, entry.0) by {
                    assert(before[k].0 == required_states.sorted()[k].0);
                    assert(crate::ordered_map::OrderedKey::precedes(
                        required_states.sorted()[k].0,
                        required_states.sorted()[i as int].0,
                    ));
                }
            }
            resolved_states.push_last(entry.0, proxy);
            i = i + 1;
        }
        resolved_states
    }

    /// The messages that forward a transaction to the proxies at two indices,
    /// and the owners of states once they are sent. Nothing is sent where no
    /// proxy was chosen, nor to one that may not be handed a transaction.
    pub fn process_forwarding_task<C>(
        task: &ForwardingTask,
        choice: Option<(ExecutorIndex, ExecutorIndex)>,
        proxy_connections: &ProxyConnections<C>,
        standby_excluded: bool,
        active: usize,
        retiring: &RetiringProxies,
        proxy_mode: ProxyMode,
        states_to_proxy: &mut StateOwnership,
        collector: &StateCollector,
    ) -> (messages: Vec<(ProxyId, PrimaryToProxyMessage)>)
        requires
            old(states_to_proxy).wf(),
            crate::recovery::can_advance(task.required_versions@),
        ensures
            final(states_to_proxy).wf(),
            match choice {
                None => messages@.len() == 0 && final(states_to_proxy)@ =~= old(states_to_proxy)@,
                Some((stateful, stateless)) => {
                    let expected = missing_states(
                        old(states_to_proxy)@,
                        task.required_versions@,
                        stateful,
                        proxy_connections@.dom().len(),
                        collector@.merged,
                    );
                    &&& final(states_to_proxy)@ =~= expected.owners
                    &&& exists|asked: Seq<(StateKey, Option<ExecutorIndex>)>|
                        {
                            &&& #[trigger] crate::ordered_map::increasing(asked)
                            &&& crate::ordered_map::entries_map(asked) =~= expected.required
                            &&& (Forwarding {
                                stateful: crate::primary::connections::candidate_at(
                                    proxy_connections@.dom(),
                                    standby_excluded,
                                    active,
                                    retiring@.dom(),
                                    stateful,
                                ),
                                stateless: crate::primary::connections::candidate_at(
                                    proxy_connections@.dom(),
                                    standby_excluded,
                                    active,
                                    retiring@.dom(),
                                    stateless,
                                ),
                                mode: proxy_mode,
                                required: resolved(
                                    asked,
                                    proxy_connections@.dom(),
                                    standby_excluded,
                                ),
                                blobs: expected.blobs,
                            }).sent(messages@, task.epoch_id, task.transaction)
                        }
                },
            },
    {
        let mut messages: Vec<(ProxyId, PrimaryToProxyMessage)> = Vec::new();
        if let Some((proxy_index, stateless_index)) = choice {
            let resolved_stateful: Option<ProxyId> = resolve_candidate(
                proxy_connections,
                standby_excluded,
                active,
                retiring,
                proxy_index,
            );
            let resolved_stateless: Option<ProxyId> = resolve_candidate(
                proxy_connections,
                standby_excluded,
                active,
                retiring,
                stateless_index,
            );
            let missing: MissingStatesResult = Self::get_missing_states_for_transaction(
                &task.required_versions,
                proxy_index,
                proxy_connections.len(),
                states_to_proxy,
                collector,
            );
            let stateful_missing_states: RequiredStates =
                Self::resolve_required_states_to_proxy_ids(
                &missing.required_states,
                proxy_connections,
                standby_excluded,
            );
            let ghost asked = missing.required_states.sorted();
            let ghost forwarding = Forwarding {
                stateful: resolved_stateful,
                stateless: resolved_stateless,
                mode: proxy_mode,
                required: resolved(asked, proxy_connections@.dom(), standby_excluded),
                blobs: missing.lazy_fetched_blobs@,
            };
            let blobs: NewStates = missing.lazy_fetched_blobs;
            if !blobs.is_empty() {
                if let Some(dest) = resolved_stateful {
                    let mut items: Vec<ReplayMsg> = Vec::new();
                    items.push(
                        ReplayMsg {
                            epoch_id: EpochId(0),
                            transaction: None,
                            required_versions: Vec::new(),
                            state_blobs: blobs,
                        },
                    );
                    messages.push(
                        (
                            dest,
                            PrimaryToProxyMessage::Replay(ReplayBatch { epoch: EpochId(0), items }),
                        ),
                    );
                }
            }
            proof {
                assert(messages@.len() == forwarding.before_check());
            }
            let checker: ProxyId = match resolved_stateless {
                Some(proxy) => proxy,
                None => usize::MAX,
            };
            if proxy_mode == ProxyMode::Separation {
                if let Some(proxy) = resolved_stateless {
                    messages.push(
                        (
                            proxy,
                            PrimaryToProxyMessage::StatelessTxn(
                                task.epoch_id,
                                Arc::clone(&task.transaction),
                            ),
                        ),
                    );
                }
                if let Some(dest) = resolved_stateful {
                    messages.push(
                        (
                            dest,
                            PrimaryToProxyMessage::Txn(
                                task.epoch_id,
                                Arc::clone(&task.transaction),
                                checker,
                                stateful_missing_states,
                            ),
                        ),
                    );
                }
            } else {
                if let Some(dest) = resolved_stateful {
                    messages.push(
                        (
                            dest,
                            PrimaryToProxyMessage::CombinedTxn(
                                task.epoch_id,
                                Arc::clone(&task.transaction),
                                checker,
                                stateful_missing_states,
                            ),
                        ),
                    );
                }
            }
            proof {
                assert(crate::ordered_map::increasing(asked));
                assert(forwarding.sent(messages@, task.epoch_id, task.transaction));
            }
        }
        messages
    }
}

proof fn lemma_positions_hold(counts: Seq<usize>, count: usize)
    requires
        counts.len() <= usize::MAX,
    ensures
        forall|k: int|
            0 <= k < positions_with(counts, count).len() ==> {
                let at = #[trigger] positions_with(counts, count)[k];
                at < counts.len() && counts[at as int] == count
            },
    decreases counts.len(),
{
    if counts.len() > 0 {
        let rest = counts.drop_last();
        lemma_positions_hold(rest, count);
        assert forall|k: int| 0 <= k < positions_with(counts, count).len() implies {
            let at = #[trigger] positions_with(counts, count)[k];
            at < counts.len() && counts[at as int] == count
        } by {
            let before = positions_with(rest, count);
            if k < before.len() {
                assert(positions_with(counts, count)[k] == before[k]);
                assert(rest[before[k] as int] == counts[before[k] as int]);
            }
        }
    }
}

/// The number of required states that the proxy at each position has.
pub open spec fn held_counts(
    candidates: Seq<ExecutorIndex>,
    owners: Map<StateKey, Set<ExecutorIndex>>,
    required: Seq<StateKey>,
) -> Seq<usize> {
    candidates.map_values(|index: ExecutorIndex| states_held(owners, required, index) as usize)
}

/// The load of the proxy at each position.
pub open spec fn candidate_loads(
    candidates: Seq<ExecutorIndex>,
    tracking: LoadTracking,
) -> Seq<usize> {
    candidates.map_values(|index: ExecutorIndex| count_at(tracking.loads(), index))
}

/// The choice of one candidate after the other.
pub open spec fn round_robin_choice(
    candidates: Seq<ExecutorIndex>,
    txn_cnt: usize,
) -> Option<(ExecutorIndex, ExecutorIndex)> {
    if candidates.len() == 0 {
        None
    } else {
        let chosen = candidates[(txn_cnt as nat % candidates.len()) as int];
        Some((chosen, chosen))
    }
}

/// The choice by most states among the candidates.
pub open spec fn most_states_choice(
    candidates: Seq<ExecutorIndex>,
    owners: Map<StateKey, Set<ExecutorIndex>>,
    required: Seq<StateKey>,
    txn_cnt: usize,
) -> Option<(ExecutorIndex, ExecutorIndex)> {
    if candidates.len() == 0 {
        None
    } else if required.len() == 0 {
        Some((candidates[0], candidates[0]))
    } else {
        let best = best_by_count(held_counts(candidates, owners, required), txn_cnt);
        Some((candidates[best as int], candidates[best as int]))
    }
}

/// Whether a choice among the candidates is what the policy asks for.
pub open spec fn chosen_by_policy(
    choice: ProxyChoice,
    policy: LoadBalancingPolicy,
    candidates: Seq<ExecutorIndex>,
    owners: Map<StateKey, Set<ExecutorIndex>>,
    txn_cnt: usize,
    required: Seq<StateKey>,
    destination: Option<ExecutorIndex>,
    tracking: LoadTracking,
) -> bool {
    match policy {
        LoadBalancingPolicy::RoundRobin => choice == ProxyChoice::Decided(
            round_robin_choice(candidates, txn_cnt),
        ),
        LoadBalancingPolicy::Zeus => choice == ProxyChoice::Decided(
            most_states_choice(candidates, owners, required, txn_cnt),
        ),
        LoadBalancingPolicy::Random => match choice {
            ProxyChoice::Decided(Some((stateful, stateless))) => stateful == stateless
                && candidates.contains(stateful),
            ProxyChoice::Decided(None) => candidates.len() == 0,
            _ => false,
        },
        LoadBalancingPolicy::Hermes => choice == ProxyChoice::Decided(
            match destination {
                Some(dest) => if candidates.contains(dest) {
                    Some((dest, dest))
                } else {
                    None
                },
                None => None,
            },
        ),
        LoadBalancingPolicy::LocalityLoad => if candidates.len() == 0 {
            choice == ProxyChoice::Decided(None)
        } else {
            choice matches ProxyChoice::ByScore { locality, loads } && locality@ =~= held_counts(
                candidates,
                owners,
                required,
            ) && loads@ =~= candidate_loads(candidates, tracking)
        },
        LoadBalancingPolicy::AffinityAware => if candidates.len() == 0 {
            choice == ProxyChoice::Decided(None)
        } else {
            choice matches ProxyChoice::ByScore { locality, loads } && locality@.len()
                == candidates.len() && (forall|k: int|
                0 <= k < candidates.len() ==> #[trigger] locality@[k] == accesses(
                    tracking.history(candidates[k] as int),
                    required,
                )) && loads@ =~= candidate_loads(candidates, tracking)
        },
        _ => true,
    }
}

/// A proxy that is chosen outright is a candidate.
pub proof fn law_choice_is_a_candidate(
    choice: ProxyChoice,
    policy: LoadBalancingPolicy,
    candidates: Seq<ExecutorIndex>,
    owners: Map<StateKey, Set<ExecutorIndex>>,
    txn_cnt: usize,
    required: Seq<StateKey>,
    destination: Option<ExecutorIndex>,
    tracking: LoadTracking,
)
    requires
        candidates.len() <= usize::MAX,
        policy != LoadBalancingPolicy::Dedicated,
        policy != LoadBalancingPolicy::Combined,
        chosen_by_policy(
            choice,
            policy,
            candidates,
            owners,
            txn_cnt,
            required,
            destination,
            tracking,
        ),
    ensures
        choice matches ProxyChoice::Decided(Some((stateful, stateless))) ==> stateful == stateless
            && candidates.contains(stateful),
{
    if policy == LoadBalancingPolicy::Zeus && candidates.len() > 0 && required.len() > 0 {
        let counts = held_counts(candidates, owners, required);
        lemma_highest_count(counts);
        lemma_positions_hold(counts, highest_count(counts));
    }
}

/// No transaction on shared objects goes to a proxy that retires, is not
/// active or is not connected: there is a proxy at the position of every
/// candidate, and it takes part in the current epoch.
pub proof fn law_shared_transactions_avoid_retiring(
    connected: Set<ProxyId>,
    standby_excluded: bool,
    active: usize,
    retiring: Set<ProxyId>,
    index: ExecutorIndex,
)
    requires
        exists|s: Seq<ProxyId>| crate::primary::connections::lists(s, connected),
        crate::primary::connections::candidates(
            connected,
            standby_excluded,
            active,
            retiring,
        ).contains(index),
    ensures
        crate::primary::connections::candidate_at(
            connected,
            standby_excluded,
            active,
            retiring,
            index,
        ) matches Some(proxy) && connected.contains(proxy) && !retiring.contains(proxy)
            && crate::primary::load_balancer::participants(connected, active, retiring).contains(
            proxy,
        ),
{
    let serving = crate::primary::connections::first_of(
        crate::primary::connections::in_service(connected, standby_excluded),
        active,
    );
    crate::primary::connections::lemma_open_positions(serving, retiring);
    crate::primary::load_balancer::law_candidates_take_part(
        connected,
        standby_excluded,
        active,
        retiring,
        index,
    );
    crate::primary::load_balancer::law_participants_do_not_retire(
        connected,
        active,
        retiring,
        serving[index as int],
    );
}

/// The proxy that a transaction asks for a state, as the executing proxy is
/// told: none where the primary sends the state along.
pub open spec fn asked_for(
    owners: Map<StateKey, Set<ExecutorIndex>>,
    key: StateKey,
    index: ExecutorIndex,
    count: nat,
) -> Option<ExecutorIndex> {
    let owner = owner_to_ask(owners, key, index, count);
    if owner == Some(PRIMARY_FETCH_SENTINEL) {
        None
    } else {
        owner
    }
}

/// Whether no object occurs twice among the keys.
pub open spec fn distinct_objects(keys: Seq<StateKey>) -> bool {
    forall|i: int, j: int| 0 <= i < j < keys.len() ==> (#[trigger] keys[i]).0 != (#[trigger] keys[j]).0
}

/// Whether a key is read or written by a transaction with these needs.
pub open spec fn touches(keys: Seq<StateKey>, next: SequenceNumber, key: StateKey) -> bool {
    exists|i: int| 0 <= i < keys.len() && (key == #[trigger] keys[i] || key == (keys[i].0, next))
}

proof fn lemma_owners_after(
    start: MissingStates,
    keys: Seq<StateKey>,
    next: SequenceNumber,
    index: ExecutorIndex,
    count: nat,
    merged: Map<ObjectID, Object>,
)
    requires
        forall|i: int| 0 <= i < keys.len() ==> (#[trigger] keys[i]).1 < next,
    ensures
        ({
            let after = start.with_all(keys, next, index, count, merged).owners;
            &&& forall|i: int|
                0 <= i < keys.len() ==> crate::primary::ownership::owners_in(
                    after,
                    ((#[trigger] keys[i]).0, next),
                ).contains(index)
            &&& forall|i: int|
                0 <= i < keys.len() ==> !crate::primary::ownership::owners_in(
                    after,
                    #[trigger] keys[i],
                ).contains(index)
            &&& forall|key: StateKey|
                !touches(keys, next, key) ==> #[trigger] crate::primary::ownership::owners_in(
                    after,
                    key,
                ) == crate::primary::ownership::owners_in(start.owners, key)
        }),
    decreases keys.len(),
{
    if keys.len() > 0 {
        let rest = keys.drop_last();
        let last = keys.last();
        assert forall|i: int| 0 <= i < rest.len() implies (#[trigger] rest[i]).1 < next by {
            assert(rest[i] == keys[i]);
        }
        lemma_owners_after(start, rest, next, index, count, merged);
        let before = start.with_all(rest, next, index, count, merged).owners;
        let after = start.with_all(keys, next, index, count, merged).owners;
        assert(keys[keys.len() - 1] == last);
        assert forall|i: int| 0 <= i < keys.len() implies crate::primary::ownership::owners_in(
            after,
            ((#[trigger] keys[i]).0, next),
        ).contains(index) by {
            if i < rest.len() {
                assert(rest[i] == keys[i]);
            }
        }
        assert forall|i: int| 0 <= i < keys.len() implies !crate::primary::ownership::owners_in(
            after,
            #[trigger] keys[i],
        ).contains(index) by {
            if i < rest.len() {
                assert(rest[i] == keys[i]);
            }
        }
        assert forall|key: StateKey| !touches(keys, next, key) implies
            #[trigger] crate::primary::ownership::owners_in(after, key)
            == crate::primary::ownership::owners_in(start.owners, key) by {
            assert(key != keys[keys.len() - 1] && key != (keys[keys.len() - 1].0, next));
            if touches(rest, next, key) {
                let i = choose|i: int|
                    0 <= i < rest.len() && (key == #[trigger] rest[i] || key == (rest[i].0, next));
                assert(rest[i] == keys[i]);
            }
            assert(crate::primary::ownership::owners_in(before, key)
                == crate::primary::ownership::owners_in(start.owners, key));
        }
    }
}

/// Once a transaction is sent to a proxy, the proxy is an owner of every
/// version that the transaction writes and of none that it reads, and the
/// owners of all other states are as before.
pub proof fn law_executor_owns_what_it_writes(
    owners: Map<StateKey, Set<ExecutorIndex>>,
    keys: Seq<StateKey>,
    index: ExecutorIndex,
    count: nat,
    merged: Map<ObjectID, Object>,
)
    requires
        crate::recovery::can_advance(keys),
    ensures
        ({
            let next = crate::recovery::next_version(keys);
            let after = missing_states(owners, keys, index, count, merged).owners;
            &&& forall|i: int|
                0 <= i < keys.len() ==> crate::primary::ownership::owners_in(
                    after,
                    ((#[trigger] keys[i]).0, next),
                ).contains(index)
            &&& forall|i: int|
                0 <= i < keys.len() ==> !crate::primary::ownership::owners_in(
                    after,
                    #[trigger] keys[i],
                ).contains(index)
            &&& forall|key: StateKey|
                !touches(keys, next, key) ==> #[trigger] crate::primary::ownership::owners_in(
                    after,
                    key,
                ) == crate::primary::ownership::owners_in(owners, key)
        }),
{
    if keys.len() > 0 {
        crate::recovery::lemma_highest_version(keys);
    }
    let none = MissingStates { owners, required: Map::empty(), blobs: Map::empty() };
    lemma_owners_after(none, keys, crate::recovery::next_version(keys), index, count, merged);
}

proof fn lemma_asked_after(
    start: MissingStates,
    keys: Seq<StateKey>,
    next: SequenceNumber,
    index: ExecutorIndex,
    count: nat,
    merged: Map<ObjectID, Object>,
)
    requires
        distinct_objects(keys),
        start.required =~= Map::empty(),
        start.blobs =~= Map::empty(),
    ensures
        ({
            let after = start.with_all(keys, next, index, count, merged);
            &&& forall|key: StateKey| #[trigger]
                after.required.contains_key(key) <==> keys.contains(key)
            &&& forall|key: StateKey| #[trigger]
                after.required.contains_key(key) ==> after.required[key] == asked_for(
                    start.owners,
                    key,
                    index,
                    count,
                )
            &&& forall|id: ObjectID| #[trigger]
                after.blobs.contains_key(id) <==> merged.contains_key(id) && exists|i: int|
                    0 <= i < keys.len() && (#[trigger] keys[i]).0 == id && owner_to_ask(
                        start.owners,
                        keys[i],
                        index,
                        count,
                    ) == Some(PRIMARY_FETCH_SENTINEL)
            &&& forall|id: ObjectID| #[trigger]
                after.blobs.contains_key(id) ==> after.blobs[id] == merged[id]
            &&& forall|key: StateKey|
                (forall|i: int| 0 <= i < keys.len() ==> (#[trigger] keys[i]).0 != key.0)
                    ==> #[trigger] crate::primary::ownership::owners_in(after.owners, key)
                    == crate::primary::ownership::owners_in(start.owners, key)
        }),
    decreases keys.len(),
{
    if keys.len() > 0 {
        let rest = keys.drop_last();
        let last = keys.last();
        assert forall|i: int, j: int| 0 <= i < j < rest.len() implies (#[trigger] rest[i]).0 != (
        #[trigger] rest[j]).0 by {
            assert(rest[i] == keys[i] && rest[j] == keys[j]);
        }
        lemma_asked_after(start, rest, next, index, count, merged);
        let before = start.with_all(rest, next, index, count, merged);
        let after = start.with_all(keys, next, index, count, merged);
        assert(keys[keys.len() - 1] == last);
        assert forall|i: int| 0 <= i < rest.len() implies (#[trigger] rest[i]).0 != last.0 by {
            assert(rest[i] == keys[i]);
        }
        assert(crate::primary::ownership::owners_in(before.owners, last)
            == crate::primary::ownership::owners_in(start.owners, last));
        assert forall|key: StateKey| #[trigger]
            after.required.contains_key(key) <==> keys.contains(key) by {
            if keys.contains(key) && key != last {
                let i = choose|i: int| 0 <= i < keys.len() && keys[i] == key;
                assert(rest[i] == key);
            }
            if rest.contains(key) {
                let i = choose|i: int| 0 <= i < rest.len() && rest[i] == key;
                assert(keys[i] == key);
            }
            assert(before.required.contains_key(key) <==> rest.contains(key));
        }
        assert forall|key: StateKey| #[trigger] after.required.contains_key(key) implies
            after.required[key] == asked_for(start.owners, key, index, count) by {
            if key != last {
                assert(before.required.contains_key(key));
            }
        }
        assert forall|id: ObjectID| #[trigger]
            after.blobs.contains_key(id) <==> merged.contains_key(id) && exists|i: int|
                0 <= i < keys.len() && (#[trigger] keys[i]).0 == id && owner_to_ask(
                    start.owners,
                    keys[i],
                    index,
                    count,
                ) == Some(PRIMARY_FETCH_SENTINEL) by {
            assert(before.blobs.contains_key(id) <==> merged.contains_key(id) && exists|i: int|
                0 <= i < rest.len() && (#[trigger] rest[i]).0 == id && owner_to_ask(
                    start.owners,
                    rest[i],
                    index,
                    count,
                ) == Some(PRIMARY_FETCH_SENTINEL));
            if exists|i: int|
                0 <= i < rest.len() && (#[trigger] rest[i]).0 == id && owner_to_ask(
                    start.owners,
                    rest[i],
                    index,
                    count,
                ) == Some(PRIMARY_FETCH_SENTINEL) {
                let i = choose|i: int|
                    0 <= i < rest.len() && (#[trigger] rest[i]).0 == id && owner_to_ask(
                        start.owners,
                        rest[i],
                        index,
                        count,
                    ) == Some(PRIMARY_FETCH_SENTINEL);
                assert(keys[i] == rest[i]);
            }
            if exists|i: int|
                0 <= i < keys.len() && (#[trigger] keys[i]).0 == id && owner_to_ask(
                    start.owners,
                    keys[i],
                    index,
                    count,
                ) == Some(PRIMARY_FETCH_SENTINEL) {
                let i = choose|i: int|
                    0 <= i < keys.len() && (#[trigger] keys[i]).0 == id && owner_to_ask(
                        start.owners,
                        keys[i],
                        index,
                        count,
                    ) == Some(PRIMARY_FETCH_SENTINEL);
                if i < rest.len() {
                    assert(keys[i] == rest[i]);
                }
            }
        }
        assert forall|id: ObjectID| #[trigger] after.blobs.contains_key(id) implies after.blobs[id]
            == merged[id] by {
            if before.blobs.contains_key(id) {
            }
        }
        assert forall|key: StateKey|
            (forall|i: int| 0 <= i < keys.len() ==> (#[trigger] keys[i]).0 != key.0) implies
            #[trigger] crate::primary::ownership::owners_in(after.owners, key)
            == crate::primary::ownership::owners_in(start.owners, key) by {
            assert forall|i: int| 0 <= i < rest.len() implies (#[trigger] rest[i]).0 != key.0 by {
                assert(rest[i] == keys[i]);
            }
            assert(crate::primary::ownership::owners_in(before.owners, key)
                == crate::primary::ownership::owners_in(start.owners, key));
        }
    }
}

/// A transaction on distinct objects is sent with exactly the states that it
/// needs. Each names the proxy that was its first owner before the
/// transaction, where the executing proxy did not have the state; the primary
/// sends along those that only itself or proxies no longer connected were
/// owners of, and that it has.
pub proof fn law_required_states_name_their_owners(
    owners: Map<StateKey, Set<ExecutorIndex>>,
    keys: Seq<StateKey>,
    index: ExecutorIndex,
    count: nat,
    merged: Map<ObjectID, Object>,
)
    requires
        distinct_objects(keys),
    ensures
        ({
            let missing = missing_states(owners, keys, index, count, merged);
            &&& forall|key: StateKey| #[trigger]
                missing.required.contains_key(key) <==> keys.contains(key)
            &&& forall|key: StateKey| #[trigger]
                missing.required.contains_key(key) ==> missing.required[key] == asked_for(
                    owners,
                    key,
                    index,
                    count,
                )
            &&& forall|id: ObjectID| #[trigger]
                missing.blobs.contains_key(id) <==> merged.contains_key(id) && exists|i: int|
                    0 <= i < keys.len() && (#[trigger] keys[i]).0 == id && owner_to_ask(
                        owners,
                        keys[i],
                        index,
                        count,
                    ) == Some(PRIMARY_FETCH_SENTINEL)
            &&& forall|id: ObjectID| #[trigger]
                missing.blobs.contains_key(id) ==> missing.blobs[id] == merged[id]
        }),
{
    let none = MissingStates { owners, required: Map::empty(), blobs: Map::empty() };
    lemma_asked_after(none, keys, crate::recovery::next_version(keys), index, count, merged);
}

/// The proxy that is asked for a state is connected, one of its owners, and
/// never the one that executes. A state whose owners are all gone is fetched
/// from the primary.
pub proof fn law_asked_proxy_has_the_state(
    owners: Map<StateKey, Set<ExecutorIndex>>,
    key: StateKey,
    index: ExecutorIndex,
    count: nat,
)
    ensures
        match asked_for(owners, key, index, count) {
            Some(asked) => asked != index && asked < count
                && crate::primary::ownership::owners_in(owners, key).contains(asked),
            None => true,
        },
        ({
            let known = crate::primary::ownership::owners_in(owners, key);
            !known.is_empty() && !known.contains(index) && (forall|owner: ExecutorIndex| #[trigger]
                known.contains(owner) ==> owner >= count) ==> owner_to_ask(
                owners,
                key,
                index,
                count,
            ) == Some(PRIMARY_FETCH_SENTINEL)
        }),
{
    let known = crate::primary::ownership::owners_in(owners, key);
    if !(known =~= Set::empty()) {
        let owner = choose|owner: ExecutorIndex| known.contains(owner);
        assert(known.contains(owner));
        crate::primary::ownership::lemma_least_exists(known, owner);
    }
}

/// The proxy chosen by most states is a candidate, and no candidate has more
/// of the required states.
pub proof fn law_most_states_choice_is_highest(
    candidates: Seq<ExecutorIndex>,
    owners: Map<StateKey, Set<ExecutorIndex>>,
    required: Seq<StateKey>,
    txn_cnt: usize,
    other: ExecutorIndex,
)
    requires
        candidates.len() <= usize::MAX,
        required.len() <= usize::MAX,
        candidates.contains(other),
    ensures
        ({
            let choice = most_states_choice(candidates, owners, required, txn_cnt);
            choice matches Some((stateful, stateless)) && stateful == stateless
                && candidates.contains(stateful) && states_held(owners, required, other)
                <= states_held(owners, required, stateful)
        }),
{
    let k = choose|k: int| 0 <= k < candidates.len() && candidates[k] == other;
    if required.len() > 0 {
        let counts = held_counts(candidates, owners, required);
        let highest = highest_count(counts);
        lemma_highest_count(counts);
        lemma_positions_hold(counts, highest);
        let best = positions_with(counts, highest);
        let at = best[(txn_cnt % (best.len() as usize)) as int];
        assert(counts[at as int] == highest);
        assert(counts[k] <= highest);
        lemma_states_held_bound(owners, required, candidates[at as int]);
        lemma_states_held_bound(owners, required, other);
    } else {
        assert(states_held(owners, required, other) == 0);
        assert(candidates[0] == candidates.first());
    }
}

proof fn lemma_states_held_bound(
    owners: Map<StateKey, Set<ExecutorIndex>>,
    required: Seq<StateKey>,
    index: ExecutorIndex,
)
    ensures
        states_held(owners, required, index) <= required.len(),
    decreases required.len(),
{
    if required.len() > 0 {
        lemma_states_held_bound(owners, required.drop_last(), index);
    }
}

proof fn lemma_other_owners_after(
    start: MissingStates,
    keys: Seq<StateKey>,
    next: SequenceNumber,
    index: ExecutorIndex,
    count: nat,
    merged: Map<ObjectID, Object>,
    key: StateKey,
    other: ExecutorIndex,
)
    requires
        other != index,
    ensures
        crate::primary::ownership::owners_in(
            start.with_all(keys, next, index, count, merged).owners,
            key,
        ).contains(other) <==> crate::primary::ownership::owners_in(start.owners, key).contains(
            other,
        ),
    decreases keys.len(),
{
    if keys.len() > 0 {
        lemma_other_owners_after(
            start,
            keys.drop_last(),
            next,
            index,
            count,
            merged,
            key,
            other,
        );
    }
}

/// Whoever does not execute a transaction has the states that they had before.
pub proof fn law_others_keep_their_states(
    owners: Map<StateKey, Set<ExecutorIndex>>,
    keys: Seq<StateKey>,
    index: ExecutorIndex,
    count: nat,
    merged: Map<ObjectID, Object>,
    key: StateKey,
    other: ExecutorIndex,
)
    requires
        other != index,
    ensures
        crate::primary::ownership::owners_in(
            missing_states(owners, keys, index, count, merged).owners,
            key,
        ).contains(other) <==> crate::primary::ownership::owners_in(owners, key).contains(other),
{
    let none = MissingStates { owners, required: Map::empty(), blobs: Map::empty() };
    lemma_other_owners_after(
        none,
        keys,
        crate::recovery::next_version(keys),
        index,
        count,
        merged,
        key,
        other,
    );
}

} // verus!
