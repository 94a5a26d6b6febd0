//! Merging of what the proxies computed into the state of the primary.
use std::sync::Arc;

use vstd::prelude::*;

use crate::base_types::{ObjectID, SequenceNumber, StateKey, SuiAddress};
use crate::checkpoint::EpochObjectVersions;
use crate::executor::api::{
    get_object_ids_for_dependency_tracking, ExecutionResultsAndEffects, Timestamp,
    TransactionWithTimestamp,
};
use crate::executor::fake::{FakeExecutionContext, FakeExecutor, FakeObjectStore};
use crate::ordered_map::OrderedMap;

verus! {

/// The versions of objects by their own identities, looked up in order.
pub open spec fn versions_of(
    store: Map<ObjectID, crate::base_types::Object>,
    ids: Seq<ObjectID>,
) -> Map<ObjectID, SequenceNumber>
    decreases ids.len(),
{
    if ids.len() == 0 {
        Map::empty()
    } else {
        let object = store[ids.last()];
        versions_of(store, ids.drop_last()).insert(object.id, object.version)
    }
}

/// Whether every version that a transaction read is the current one.
pub open spec fn reads_current(
    current: Map<ObjectID, SequenceNumber>,
    read: Seq<StateKey>,
) -> bool {
    forall|i: int| 0 <= i < read.len() ==> current[(#[trigger] read[i]).0] == read[i].1
}

/// Whether a version is known of every object that a transaction read.
pub open spec fn all_read_known(known: Set<ObjectID>, read: Seq<StateKey>) -> bool {
    forall|i: int| 0 <= i < read.len() ==> known.contains((#[trigger] read[i]).0)
}

/// Whether a result tells what its transaction read and wrote, and a version
/// is known of every object that it read.
pub open spec fn can_merge(
    store: Map<ObjectID, crate::base_types::Object>,
    result: ExecutionResultsAndEffects,
) -> bool {
    let inputs = result.transaction.inputs@;
    let ids = crate::executor::api::tracked_ids(inputs);
    let read = result.modified_at_versions->0@;
    &&& result.modified_at_versions is Some
    &&& result.new_state matches Some(states) && states.wf()
    &&& if crate::executor::fake::inputs_known(store, inputs) {
        all_read_known(versions_of(store, ids).dom(), read)
    } else {
        all_read_known(ids.to_set(), read)
    }
}

/// Whether a store is what it is after a result, which was applied or not.
pub open spec fn merged(
    before: Map<ObjectID, crate::base_types::Object>,
    result: ExecutionResultsAndEffects,
    owner: SuiAddress,
    after: Map<ObjectID, crate::base_types::Object>,
    applied: bool,
) -> bool {
    let inputs = result.transaction.inputs@;
    let ids = crate::executor::api::tracked_ids(inputs);
    let read = result.modified_at_versions->0@;
    let states = result.new_state->0@;
    if crate::executor::fake::inputs_known(before, inputs) {
        &&& applied == reads_current(versions_of(before, ids), read)
        &&& after =~= (if applied {
            before.union_prefer_right(states)
        } else {
            before
        })
    } else {
        exists|ready: Map<ObjectID, crate::base_types::Object>|
            {
                &&& #[trigger] crate::executor::fake::pregenerated(before, ready, ids, owner)
                &&& applied == (forall|i: int| 0 <= i < read.len() ==> (#[trigger] read[i]).1 == 0)
                &&& after =~= (if applied {
                    ready.union_prefer_right(states)
                } else {
                    ready
                })
            }
    }
}

/// What follows the result of a proxy.
pub enum ResultStep {
    /// The result is final, and goes out with the time of its transaction.
    Announce(Timestamp),
    /// The transaction has to be executed here.
    ExecuteLocally(Arc<TransactionWithTimestamp>),
}

/// Merges the results of the proxies.
pub struct PrimaryCore {}

impl PrimaryCore {
    /// The versions of objects of a store, by the identities of the objects.
    pub fn get_input_object_ids_and_versions(
        store: &FakeObjectStore,
        obj_ids: &Vec<ObjectID>,
    ) -> (versions: EpochObjectVersions)
        requires
            store.wf(),
            forall|i: int| 0 <= i < obj_ids@.len() ==> store@.contains_key(#[trigger] obj_ids@[i]),
        ensures
            versions.wf(),
            versions@ =~= versions_of(store@, obj_ids@),
    {
        let mut versions: EpochObjectVersions = OrderedMap::new();
        let mut i: usize = 0;
        while i < obj_ids.len()
            invariant
                i <= obj_ids.len(),
                store.wf(),
                forall|k: int|
                    0 <= k < obj_ids@.len() ==> store@.contains_key(#[trigger] obj_ids@[k]),
                versions.wf(),
                versions@ =~= versions_of(store@, obj_ids@.take(i as int)),
            decreases obj_ids.len() - i,
        {
            proof {
                assert(obj_ids@.take(i + 1).drop_last() =~= obj_ids@.take(i as int));
                assert(store@.contains_key(obj_ids@[i as int]));
            }
            if let Some(object) = store.read_object(&obj_ids[i]) {
                versions.insert(object.id, object.version);
            }
            i = i + 1;
        }
        proof {
            assert(obj_ids@.take(i as int) =~= obj_ids@);
        }
        versions
    }

    /// Whether every version that a transaction read is the current one.
    pub fn is_current(initial_state: &EpochObjectVersions, read: &Vec<StateKey>) -> (current: bool)
        requires
            initial_state.wf(),
            all_read_known(initial_state@.dom(), read@),
        ensures
            current == reads_current(initial_state@, read@),
    {
        let mut i: usize = 0;
        while i < read.len()
            invariant
                i <= read.len(),
                initial_state.wf(),
                all_read_known(initial_state@.dom(), read@),
                forall|k: int|
                    0 <= k < i ==> initial_state@[(#[trigger] read@[k]).0] == read@[k].1,
            decreases read.len() - i,
        {
            let (id, version) = read[i];
            proof {
                assert(initial_state@.dom().contains(read@[i as int].0));
            }
            if let Some(current) = initial_state.get(&id) {
                if *current != version {
                    assert(initial_state@[read@[i as int].0] != read@[i as int].1);
                    return false;
                }
            }
            i = i + 1;
        }
        true
    }

    /// Applies the result of a proxy if every version that the transaction
    /// read is still the current one; if not, nothing is applied, and the
    /// transaction has to be executed here. Where an input is not in the
    /// store, the inputs are created first.
    pub fn check_and_apply_proxy_results(
        store: &mut FakeObjectStore,
        proxy_result: &ExecutionResultsAndEffects,
        owner: SuiAddress,
    ) -> (applied: bool)
        requires
            old(store).wf(),
            can_merge(old(store)@, *proxy_result),
        ensures
            final(store).wf(),
            merged(old(store)@, *proxy_result, owner, final(store)@, applied),
    {
        let ghost before = store@;
        let ghost inputs = proxy_result.transaction.inputs@;
        let obj_ids: Vec<ObjectID> = get_object_ids_for_dependency_tracking(
            &proxy_result.transaction.inputs,
        );
        let known: bool = FakeExecutor::pre_execute_check_objects(
            store,
            &proxy_result.transaction,
        );
        if !known {
            FakeExecutor::optimistically_pre_generate_objects(
                store,
                &proxy_result.transaction,
                owner,
            );
        }
        let ghost ready = store@;
        proof {
            assert forall|i: int| 0 <= i < obj_ids@.len() implies store@.contains_key(
                #[trigger] obj_ids@[i],
            ) by {
                assert(obj_ids@.contains(obj_ids@[i]));
                if known {
                    lemma_tracked_are_inputs(inputs, i);
                }
            }
            if !known {
                assert forall|i: int| 0 <= i < obj_ids@.len() implies (ready[
                #[trigger] obj_ids@[i]].id == obj_ids@[i] && ready[obj_ids@[i]].version == 0) by {
                    assert(obj_ids@.contains(obj_ids@[i]));
                    assert(ready.contains_key(obj_ids@[i]));
                }
                lemma_fresh_versions(ready, obj_ids@);
            }
        }
        let initial_state: EpochObjectVersions = Self::get_input_object_ids_and_versions(
            store,
            &obj_ids,
        );
        let applied: bool = match &proxy_result.modified_at_versions {
            Some(read) => {
                proof {
                    if !known {
                        assert forall|i: int| 0 <= i < read@.len() implies
                            initial_state@.dom().contains((#[trigger] read@[i]).0) by {
                            assert(obj_ids@.to_set().contains(read@[i].0));
                            assert(obj_ids@.contains(read@[i].0));
                        }
                    }
                }
                let current: bool = Self::is_current(&initial_state, read);
                proof {
                    if !known {
                        assert forall|i: int| 0 <= i < read@.len() implies initial_state@[
                        (#[trigger] read@[i]).0] == 0 by {
                            assert(initial_state@.dom().contains(read@[i].0));
                        }
                    }
                }
                current
            },
            None => false,
        };
        if applied {
            if let Some(states) = &proxy_result.new_state {
                store.commit_objects(states);
            }
        }
        proof {
            if !known {
                assert(crate::executor::fake::pregenerated(before, ready, obj_ids@, owner));
            }
        }
        applied
    }

    /// Takes in the result of a proxy: it is applied and announced, or its
    /// transaction comes back to be executed here.
    pub fn handle_proxy_result(
        store: &mut FakeObjectStore,
        proxy_result: &ExecutionResultsAndEffects,
        owner: SuiAddress,
    ) -> (step: ResultStep)
        requires
            old(store).wf(),
            can_merge(old(store)@, *proxy_result),
        ensures
            final(store).wf(),
            match step {
                ResultStep::Announce(timestamp) => {
                    &&& timestamp == proxy_result.transaction.timestamp
                    &&& merged(old(store)@, *proxy_result, owner, final(store)@, true)
                },
                ResultStep::ExecuteLocally(transaction) => {
                    &&& transaction == proxy_result.transaction
                    &&& merged(old(store)@, *proxy_result, owner, final(store)@, false)
                },
            },
    {
        if Self::check_and_apply_proxy_results(store, proxy_result, owner) {
            ResultStep::Announce(proxy_result.transaction.timestamp())
        } else {
            ResultStep::ExecuteLocally(Arc::clone(&proxy_result.transaction))
        }
    }

    /// Executes a transaction here. What comes of it goes out with the time of
    /// the transaction, and to whoever keeps track of the states.
    pub fn local_execute(
        ctx: &FakeExecutionContext,
        store: &mut FakeObjectStore,
        transaction: &Arc<TransactionWithTimestamp>,
        fresh: &Vec<ObjectID>,
    ) -> (outcome: (Timestamp, ExecutionResultsAndEffects))
        requires
            old(store).wf(),
            fresh@.len() == transaction.inputs@.len(),
            forall|i: int|
                0 <= i < transaction.inputs@.len() ==> {
                    let id = (#[trigger] transaction.inputs@[i]).spec_object_id();
                    old(store)@.contains_key(id) && crate::executor::fake::updatable(old(store)@[id])
                },
        ensures
            final(store).wf(),
            outcome.0 == transaction.timestamp,
            outcome.1.transaction == *transaction,
            outcome.1.modified_at_versions matches Some(versions) && versions@
                =~= crate::executor::fake::versions_read(old(store)@, transaction.inputs@),
            outcome.1.new_state matches Some(states) && states.wf()
                && crate::executor::fake::written(
                states@,
                old(store)@,
                transaction.inputs@,
                fresh@,
            ) && final(store)@ =~= old(store)@.union_prefer_right(states@),
    {
        let results: ExecutionResultsAndEffects = FakeExecutor::execute(
            ctx,
            store,
            transaction,
            fresh,
        );
        (transaction.timestamp(), results)
    }
}

proof fn lemma_tracked_are_inputs(inputs: Seq<crate::base_types::InputObjectKind>, i: int)
    requires
        0 <= i < crate::executor::api::tracked_ids(inputs).len(),
    ensures
        exists|k: int|
            0 <= k < inputs.len() && (#[trigger] inputs[k]).spec_object_id()
                == crate::executor::api::tracked_ids(inputs)[i],
    decreases inputs.len(),
{
    let rest = inputs.drop_last();
    if i < crate::executor::api::tracked_ids(rest).len() {
        lemma_tracked_are_inputs(rest, i);
        let k = choose|k: int|
            0 <= k < rest.len() && (#[trigger] rest[k]).spec_object_id()
                == crate::executor::api::tracked_ids(rest)[i];
        assert(inputs[k] == rest[k]);
    } else {
        assert(inputs[inputs.len() - 1].spec_object_id() == crate::executor::api::tracked_ids(
            inputs,
        )[i]);
    }
}

proof fn lemma_fresh_versions(
    store: Map<ObjectID, crate::base_types::Object>,
    ids: Seq<ObjectID>,
)
    requires
        forall|i: int|
            0 <= i < ids.len() ==> store[#[trigger] ids[i]].id == ids[i] && store[ids[i]].version
                == 0,
    ensures
        forall|id: ObjectID| #[trigger]
            versions_of(store, ids).contains_key(id) <==> ids.contains(id),
        forall|id: ObjectID| #[trigger]
            versions_of(store, ids).contains_key(id) ==> versions_of(store, ids)[id] == 0,
    decreases ids.len(),
{
    if ids.len() > 0 {
        let rest = ids.drop_last();
        assert forall|i: int| 0 <= i < rest.len() implies store[#[trigger] rest[i]].id == rest[i]
            && store[rest[i]].version == 0 by {
            assert(ids[i] == rest[i]);
        }
        lemma_fresh_versions(store, rest);
        assert(ids[ids.len() - 1] == ids.last());
        assert forall|id: ObjectID| #[trigger]
            versions_of(store, ids).contains_key(id) <==> ids.contains(id) by {
            assert(versions_of(store, rest).contains_key(id) <==> rest.contains(id));
            if rest.contains(id) {
                let k = choose|k: int| 0 <= k < rest.len() && rest[k] == id;
                assert(ids[k] == id);
            }
            if ids.contains(id) && id != ids.last() {
                let k = choose|k: int| 0 <= k < ids.len() && ids[k] == id;
                assert(rest[k] == id);
            }
        }
        assert forall|id: ObjectID| #[trigger] versions_of(store, ids).contains_key(id) implies
            versions_of(store, ids)[id] == 0 by {
            if id != ids.last() {
                assert(versions_of(store, rest).contains_key(id));
            }
        }
    }
}

/// A result whose transaction read a version that is no longer current is
/// not applied, whatever else it read.
pub proof fn law_stale_results_are_not_applied(
    current: Map<ObjectID, SequenceNumber>,
    read: Seq<StateKey>,
    i: int,
)
    requires
        0 <= i < read.len(),
        current[read[i].0] != read[i].1,
    ensures
        !reads_current(current, read),
{
    assert(read[i] == read[i]);
}

/// A result that is not applied leaves every object that was there as it was,
/// but for inputs that have to be created.
pub proof fn law_refused_results_change_nothing(
    before: Map<ObjectID, crate::base_types::Object>,
    result: ExecutionResultsAndEffects,
    owner: SuiAddress,
    after: Map<ObjectID, crate::base_types::Object>,
    id: ObjectID,
)
    requires
        merged(before, result, owner, after, false),
        before.contains_key(id),
        crate::executor::fake::inputs_known(before, result.transaction.inputs@)
            || !crate::executor::api::tracked_ids(result.transaction.inputs@).contains(id),
    ensures
        after.contains_key(id),
        after[id] == before[id],
{
    if !crate::executor::fake::inputs_known(before, result.transaction.inputs@) {
        let ids = crate::executor::api::tracked_ids(result.transaction.inputs@);
        let ready = choose|ready: Map<ObjectID, crate::base_types::Object>| #[trigger]
            crate::executor::fake::pregenerated(before, ready, ids, owner) && after =~= ready;
        assert(ready.contains_key(id));
    }
}

/// Objects that are stored under their own identity have the versions that
/// the store has of them, and no others have any.
pub proof fn law_versions_are_those_of_the_store(
    store: Map<ObjectID, crate::base_types::Object>,
    ids: Seq<ObjectID>,
    id: ObjectID,
)
    requires
        forall|i: int| 0 <= i < ids.len() ==> store[#[trigger] ids[i]].id == ids[i],
    ensures
        versions_of(store, ids).contains_key(id) <==> ids.contains(id),
        ids.contains(id) ==> versions_of(store, ids)[id] == store[id].version,
    decreases ids.len(),
{
    if ids.len() > 0 {
        let rest = ids.drop_last();
        assert forall|i: int| 0 <= i < rest.len() implies store[#[trigger] rest[i]].id
            == rest[i] by {
            assert(ids[i] == rest[i]);
        }
        law_versions_are_those_of_the_store(store, rest, id);
        assert(ids[ids.len() - 1] == ids.last());
        if rest.contains(id) {
            let k = choose|k: int| 0 <= k < rest.len() && rest[k] == id;
            assert(ids[k] == id);
        }
        if ids.contains(id) && id != ids.last() {
            let k = choose|k: int| 0 <= k < ids.len() && ids[k] == id;
            assert(rest[k] == id);
        }
    }
}

/// A result is current just where no version that it read has been replaced.
pub proof fn law_current_results_read_current_versions(
    current: Map<ObjectID, SequenceNumber>,
    read: Seq<StateKey>,
)
    ensures
        reads_current(current, read) <==> !(exists|i: int|
            0 <= i < read.len() && (#[trigger] read[i]).1 != current[read[i].0]),
        all_read_known(current.dom(), read) <==> !(exists|i: int|
            0 <= i < read.len() && !current.contains_key((#[trigger] read[i]).0)),
{
    if forall|i: int| 0 <= i < read.len() ==> (#[trigger] read[i]).1 == current[read[i].0] {
        assert(reads_current(current, read));
    }
}

/// A result over known inputs is applied just where what it read is current;
/// what it wrote then stands in the store, and every other object is as it was.
pub proof fn law_applied_results_are_stored(
    before: Map<ObjectID, crate::base_types::Object>,
    result: ExecutionResultsAndEffects,
    owner: SuiAddress,
    after: Map<ObjectID, crate::base_types::Object>,
    applied: bool,
    id: ObjectID,
)
    requires
        crate::executor::fake::inputs_known(before, result.transaction.inputs@),
        merged(before, result, owner, after, applied),
    ensures
        applied <==> forall|i: int|
            0 <= i < result.modified_at_versions->0@.len() ==> versions_of(
                before,
                crate::executor::api::tracked_ids(result.transaction.inputs@),
            )[(#[trigger] result.modified_at_versions->0@[i]).0]
                == result.modified_at_versions->0@[i].1,
        applied && result.new_state->0@.contains_key(id) ==> after.contains_key(id) && after[id]
            == result.new_state->0@[id],
        !(applied && result.new_state->0@.contains_key(id)) ==> (after.contains_key(id)
            <==> before.contains_key(id)),
        !(applied && result.new_state->0@.contains_key(id)) && before.contains_key(id)
            ==> after[id] == before[id],
{
}

/// A result over inputs that are not all there yet is applied just where
/// it read each of them as new; what it wrote then stands in the store, and
/// no object that it neither wrote nor used is touched.
pub proof fn law_results_over_new_inputs_are_stored(
    before: Map<ObjectID, crate::base_types::Object>,
    result: ExecutionResultsAndEffects,
    owner: SuiAddress,
    after: Map<ObjectID, crate::base_types::Object>,
    applied: bool,
    id: ObjectID,
)
    requires
        !crate::executor::fake::inputs_known(before, result.transaction.inputs@),
        merged(before, result, owner, after, applied),
    ensures
        applied <==> forall|i: int|
            0 <= i < result.modified_at_versions->0@.len()
                ==> (#[trigger] result.modified_at_versions->0@[i]).1 == 0,
        applied && result.new_state->0@.contains_key(id) ==> after.contains_key(id) && after[id]
            == result.new_state->0@[id],
        !(applied && result.new_state->0@.contains_key(id)) && before.contains_key(id)
            && !crate::executor::api::tracked_ids(result.transaction.inputs@).contains(id)
            ==> after.contains_key(id) && after[id] == before[id],
{
    let ids = crate::executor::api::tracked_ids(result.transaction.inputs@);
    let states = result.new_state->0@;
    let ready = choose|ready: Map<ObjectID, crate::base_types::Object>| #[trigger]
        crate::executor::fake::pregenerated(before, ready, ids, owner) && after =~= (if applied {
            ready.union_prefer_right(states)
        } else {
            ready
        });
    assert(before.contains_key(id) && !ids.contains(id) ==> ready.contains_key(id));
}

} // verus!
