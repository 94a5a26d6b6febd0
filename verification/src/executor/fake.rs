//! Synthetic transactions and the executor that runs them.
use std::sync::Arc;

use vstd::bytes::u64_to_le_bytes;
use vstd::prelude::*;

use crate::base_types::{
    object_id_from_bytes, InputObjectKind, Object, ObjectID, Owner, SequenceNumber, StateKey,
    SuiAddress, TransactionDigest, OBJECT_ID_LENGTH,
};
use crate::config::{BenchmarkParameters, WorkloadType};
use crate::duration::Duration;
use crate::executor::api::{
    get_object_ids_for_dependency_tracking, shared_object_ids,
    ExecutionResultsAndEffects, NewStates, StateStore, Timestamp, TransactionWithTimestamp,
};
use crate::executor::calibration::Calibration;
use crate::ordered_map::OrderedMap;
use crate::random::random_below;

verus! {

/// The value of the coins that synthetic transactions use.
pub const FAKE_COIN_VALUE: u64 = 10;

/// The identifier that all contending transactions share.
pub const ZERO_ID: ObjectID = (0, 0);

/// Contention is counted in hundredths.
pub const FULL_CONTENTION: u64 = 100;

/// An owned object for synthetic transactions. Nothing is said of its contents.
pub fn fake_owned_object_with_id(version: u64, id: ObjectID, owner: SuiAddress) -> (object: Object)
    ensures
        object.id == id,
        object.version == version,
        object.owner == Owner::AddressOwner(owner),
{
    Object::new_gas_coin(version, id, FAKE_COIN_VALUE, Owner::AddressOwner(owner))
}

/// Whether an object is the shared coin of an identifier at its first version.
pub open spec fn is_shared_coin(object: Object, version: u64, id: ObjectID) -> bool {
    &&& object.id == id
    &&& object.version == version
    &&& object.owner == (Owner::Shared { initial_shared_version: version })
    &&& object.contents@ == vstd::bytes::spec_u64_to_le_bytes(FAKE_COIN_VALUE)
}

/// A shared object for synthetic transactions.
pub fn fake_shared_object_with_id(initial_version: u64, id: ObjectID) -> (object: Object)
    ensures
        is_shared_coin(object, initial_version, id),
{
    Object::new_gas_coin(
        initial_version,
        id,
        FAKE_COIN_VALUE,
        Owner::Shared { initial_shared_version: initial_version },
    )
}

/// A synthetic transaction.
#[derive(Debug)]
pub struct FakeTransaction {
    /// The digest of the transaction.
    pub digest: TransactionDigest,
    /// The inputs of the transaction.
    pub inputs: Vec<InputObjectKind>,
}

/// How a transaction names an object of a store.
pub open spec fn kind_of(object: Object) -> InputObjectKind {
    match object.owner {
        Owner::Shared { .. } => InputObjectKind::SharedMoveObject {
            id: object.id,
            initial_shared_version: object.version,
            mutable: true,
        },
        _ => InputObjectKind::ImmOrOwnedMoveObject(object.id, object.version),
    }
}

impl FakeTransaction {
    /// A transaction with a digest and inputs.
    pub fn new(digest: TransactionDigest, inputs: Vec<InputObjectKind>) -> (transaction: Self)
        ensures
            transaction.digest == digest,
            transaction.inputs == inputs,
    {
        FakeTransaction { digest, inputs }
    }

    /// A transaction on objects of a store.
    pub fn from_store(
        store: &FakeObjectStore,
        digest: TransactionDigest,
        ids: &Vec<ObjectID>,
    ) -> (transaction: Self)
        requires
            store.wf(),
            forall|i: int| 0 <= i < ids@.len() ==> store@.contains_key(#[trigger] ids@[i]),
        ensures
            transaction.digest == digest,
            transaction.inputs@ =~= ids@.map_values(|id: ObjectID| kind_of(store@[id])),
    {
        let mut inputs: Vec<InputObjectKind> = Vec::new();
        let mut i: usize = 0;
        while i < ids.len()
            invariant
                i <= ids.len(),
                store.wf(),
                forall|k: int| 0 <= k < ids@.len() ==> store@.contains_key(#[trigger] ids@[k]),
                inputs@ =~= ids@.take(i as int).map_values(|id: ObjectID| kind_of(store@[id])),
            decreases ids.len() - i,
        {
            proof {
                assert(store@.contains_key(ids@[i as int]));
            }
            if let Some(object) = store.read_object(&ids[i]) {
                if object.is_shared() {
                    inputs.push(
                        InputObjectKind::SharedMoveObject {
                            id: object.id,
                            initial_shared_version: object.version,
                            mutable: true,
                        },
                    );
                } else {
                    inputs.push(InputObjectKind::ImmOrOwnedMoveObject(object.id, object.version));
                }
            }
            i = i + 1;
        }
        proof {
            assert(ids@.take(i as int) =~= ids@);
        }
        FakeTransaction { digest, inputs }
    }

    /// The transaction with the time of its creation, ready to be sent.
    pub fn with_timestamp(self, timestamp: Timestamp, verification: Duration) -> (txn:
        TransactionWithTimestamp)
        ensures
            txn.digest == self.digest,
            txn.inputs == self.inputs,
            txn.timestamp == timestamp,
            txn.shared_objects@ =~= crate::executor::api::unversioned(
                crate::executor::api::shared_ids(self.inputs@),
            ),
            txn.verification_duration == verification,
            txn.expected_stateful_duration == verification,
            txn.destination is None,
    {
        let shared: Vec<ObjectID> = shared_object_ids(&self.inputs);
        TransactionWithTimestamp::new(
            self.digest,
            self.inputs,
            timestamp,
            shared,
            verification,
            verification,
            None,
        )
    }
}

/// The objects that synthetic transactions use, in memory.
pub struct FakeObjectStore {
    objects: NewStates,
}

impl View for FakeObjectStore {
    type V = Map<ObjectID, Object>;

    closed spec fn view(&self) -> Map<ObjectID, Object> {
        self.objects@
    }
}

impl FakeObjectStore {
    /// Every object is stored once.
    pub closed spec fn wf(&self) -> bool {
        self.objects.wf()
    }

    /// An empty store.
    pub fn new() -> (store: Self)
        ensures
            store.wf(),
            store@ =~= Map::<ObjectID, Object>::empty(),
    {
        FakeObjectStore { objects: OrderedMap::new() }
    }

    /// Writes an object under its identity.
    pub fn write_object(&mut self, object: Object)
        requires
            old(self).wf(),
        ensures
            final(self).wf(),
            final(self)@ =~= old(self)@.insert(object.id, object),
    {
        self.objects.insert(object.id, object);
    }

    /// Writes objects under given identities, in place of earlier ones.
    pub fn commit_objects(&mut self, new_state: &NewStates)
        requires
            old(self).wf(),
            new_state.wf(),
        ensures
            final(self).wf(),
            final(self)@ =~= old(self)@.union_prefer_right(new_state@),
    {
        let ghost before = self@;
        let mut i: usize = 0;
        while i < new_state.len()
            invariant
                i <= new_state.sorted().len(),
                self.wf(),
                new_state.wf(),
                self@ =~= before.union_prefer_right(
                    crate::ordered_map::entries_map(new_state.sorted().take(i as int)),
                ),
            decreases new_state.sorted().len() - i,
        {
            proof {
                crate::ordered_map::lemma_take_next(new_state.sorted(), i as int);
            }
            let entry: &(ObjectID, Object) = new_state.entry_at(i);
            self.objects.insert(entry.0, entry.1.clone());
            i = i + 1;
        }
        proof {
            crate::ordered_map::lemma_whole(new_state.sorted());
        }
    }

    /// The object with an identity, if there is one.
    pub fn read_object(&self, id: &ObjectID) -> (object: Option<Object>)
        requires
            self.wf(),
        ensures
            object == self@.get(*id),
    {
        match self.objects.get(id) {
            Some(object) => Some(object.clone()),
            None => None,
        }
    }
}

impl StateStore for FakeObjectStore {
    open spec fn contents(&self) -> Map<ObjectID, Object> {
        self@
    }

    open spec fn valid(&self) -> bool {
        self.wf()
    }

    fn read(&self, id: &ObjectID) -> (object: Option<Object>) {
        self.read_object(id)
    }

    fn commit(&mut self, new_state: &NewStates) {
        self.commit_objects(new_state);
    }
}

impl Default for FakeObjectStore {
    fn default() -> (store: Self)
        ensures
            store.wf(),
            store@ =~= Map::<ObjectID, Object>::empty(),
    {
        FakeObjectStore::new()
    }
}

/// How much work synthetic transactions are.
#[derive(Clone, Copy, Debug, PartialEq, Eq, Structural)]
pub struct FakeExecutionContext {
    /// The work of executing a transaction, in iterations.
    pub execution_spins: u64,
    /// The work of checking a transaction, in iterations.
    pub verification_spins: u64,
}

impl FakeExecutionContext {
    /// A context with given amounts of work.
    pub fn new(execution_spins: u64, verification_spins: u64) -> (context: Self)
        ensures
            context.execution_spins == execution_spins,
            context.verification_spins == verification_spins,
    {
        FakeExecutionContext { execution_spins, verification_spins }
    }
}

/// Executes synthetic transactions.
#[derive(Clone, Copy, Debug)]
pub struct FakeExecutor {
    /// How much work the transactions are.
    pub execution_context: FakeExecutionContext,
}

/// Whether an object is what executing a transaction makes of another one.
pub open spec fn is_update(before: Object, after: Object, fresh: ObjectID) -> bool {
    &&& after.id == fresh
    &&& after.version == before.version + 1
    &&& after.owner == (match before.owner {
        Owner::Shared { .. } => Owner::Shared { initial_shared_version: after.version },
        owner => owner,
    })
    &&& after.contents@ == vstd::bytes::spec_u64_to_le_bytes(FAKE_COIN_VALUE)
}

/// Whether an object can be updated: it has an owner, and a version after its own.
pub open spec fn updatable(object: Object) -> bool {
    object.version < u64::MAX && !(object.owner is Immutable)
}

/// The position of the last input that names an object; -1 where none does.
pub open spec fn last_use(inputs: Seq<InputObjectKind>, id: ObjectID) -> int
    decreases inputs.len(),
{
    if inputs.len() == 0 {
        -1
    } else if inputs.last().spec_object_id() == id {
        inputs.len() - 1
    } else {
        last_use(inputs.drop_last(), id)
    }
}

/// Whether these are the states that a transaction writes: an update of every input.
pub open spec fn written(
    states: Map<ObjectID, Object>,
    before: Map<ObjectID, Object>,
    inputs: Seq<InputObjectKind>,
    fresh: Seq<ObjectID>,
) -> bool {
    &&& forall|id: ObjectID| #[trigger] states.contains_key(id) <==> last_use(inputs, id) >= 0
    &&& forall|id: ObjectID| #[trigger]
        states.contains_key(id) ==> is_update(before[id], states[id], fresh[last_use(inputs, id)])
}

/// The version of every input before execution.
pub open spec fn versions_read(
    before: Map<ObjectID, Object>,
    inputs: Seq<InputObjectKind>,
) -> Seq<StateKey> {
    inputs.map_values(
        |input: InputObjectKind| (input.spec_object_id(), before[input.spec_object_id()].version),
    )
}

/// Whether a store has come to hold owned objects at version 0 under some
/// identities, and is otherwise as before. Nothing is said of their contents.
pub open spec fn pregenerated(
    before: Map<ObjectID, Object>,
    after: Map<ObjectID, Object>,
    ids: Seq<ObjectID>,
    owner: SuiAddress,
) -> bool {
    &&& forall|id: ObjectID| #[trigger]
        after.contains_key(id) <==> before.contains_key(id) || ids.contains(id)
    &&& forall|id: ObjectID| #[trigger]
        after.contains_key(id) ==> if ids.contains(id) {
            &&& after[id].id == id
            &&& after[id].version == 0
            &&& after[id].owner == Owner::AddressOwner(owner)
        } else {
            after[id] == before[id]
        }
}

/// Whether every input of a transaction is in a store.
pub open spec fn inputs_known(
    store: Map<ObjectID, Object>,
    inputs: Seq<InputObjectKind>,
) -> bool {
    forall|i: int|
        0 <= i < inputs.len() ==> store.contains_key((#[trigger] inputs[i]).spec_object_id())
}

impl FakeExecutor {
    /// How long executing and checking a transaction should take, where the
    /// workload is supported.
    pub fn target_durations(config: &BenchmarkParameters) -> (durations: Option<
        (Duration, Duration),
    >)
        ensures
            durations == (match config.workload.fake_duration() {
                Some(execution) => Some((execution, config.verification_duration)),
                None => None,
            }),
    {
        match config.workload.fake_execution_duration() {
            Some(execution) => Some((execution, config.verification_duration)),
            None => None,
        }
    }

    /// An executor for transactions of given amounts of work.
    pub fn new(execution_context: FakeExecutionContext) -> (executor: Self)
        ensures
            executor.execution_context == execution_context,
    {
        FakeExecutor { execution_context }
    }

    /// What executing a transaction makes of an object: a coin with a fresh
    /// identity at the next version, and with the same owner.
    pub fn update_object(input: &Object, fresh: ObjectID) -> (output: Object)
        requires
            updatable(*input),
        ensures
            is_update(*input, output, fresh),
    {
        let version: SequenceNumber = input.version + 1;
        let owner: Owner = match input.owner {
            Owner::Shared { .. } => Owner::Shared { initial_shared_version: version },
            owner => owner,
        };
        Object::new_gas_coin(version, fresh, FAKE_COIN_VALUE, owner)
    }

    /// Executes a transaction: every input is updated, in the store and in the
    /// result. Each update gets one of the fresh identities.
    pub fn execute(
        ctx: &FakeExecutionContext,
        store: &mut FakeObjectStore,
        transaction: &Arc<TransactionWithTimestamp>,
        fresh: &Vec<ObjectID>,
    ) -> (results: ExecutionResultsAndEffects)
        requires
            old(store).wf(),
            fresh@.len() == transaction.inputs@.len(),
            forall|i: int|
                0 <= i < transaction.inputs@.len() ==> {
                    let id = (#[trigger] transaction.inputs@[i]).spec_object_id();
                    old(store)@.contains_key(id) && updatable(old(store)@[id])
                },
        ensures
            final(store).wf(),
            results.transaction == *transaction,
            results.modified_at_versions matches Some(versions) && versions@ =~= versions_read(
                old(store)@,
                transaction.inputs@,
            ),
            results.new_state matches Some(states) && states.wf() && written(
                states@,
                old(store)@,
                transaction.inputs@,
                fresh@,
            ) && final(store)@ =~= old(store)@.union_prefer_right(states@),
    {
        Calibration::calibrated_work(ctx.execution_spins);
        let ghost before = store@;
        let ghost inputs = transaction.inputs@;
        let mut modified_at_versions: Vec<StateKey> = Vec::new();
        let mut new_state: NewStates = OrderedMap::new();
        let mut i: usize = 0;
        while i < transaction.inputs.len()
            invariant
                i <= transaction.inputs.len(),
                inputs == transaction.inputs@,
                store.wf(),
                store@ == before,
                new_state.wf(),
                fresh@.len() == inputs.len(),
                forall|k: int|
                    0 <= k < inputs.len() ==> {
                        let id = (#[trigger] inputs[k]).spec_object_id();
                        before.contains_key(id) && updatable(before[id])
                    },
                modified_at_versions@ =~= versions_read(before, inputs.take(i as int)),
                written(new_state@, before, inputs.take(i as int), fresh@),
            decreases transaction.inputs.len() - i,
        {
            let id: ObjectID = transaction.inputs[i].object_id();
            proof {
                let shorter = inputs.take(i as int);
                let longer = inputs.take(i + 1);
                assert(longer.drop_last() =~= shorter);
                assert(longer.last() == inputs[i as int]);
                assert(before.contains_key(inputs[i as int].spec_object_id()));
            }
            if let Some(input_object) = store.read_object(&id) {
                modified_at_versions.push((id, input_object.version()));
                let output_object: Object = Self::update_object(&input_object, fresh[i]);
                new_state.insert(id, output_object);
            }
            i = i + 1;
        }
        proof {
            assert(inputs.take(i as int) =~= inputs);
        }
        store.commit_objects(&new_state);
        ExecutionResultsAndEffects::new(
            Arc::clone(transaction),
            Some(modified_at_versions),
            Some(new_state),
        )
    }

    /// Whether the shared objects of a transaction are at the versions that it
    /// needs: for synthetic transactions, always.
    pub fn pre_execute_check(
        _ctx: &FakeExecutionContext,
        _store: &FakeObjectStore,
        _transaction: &TransactionWithTimestamp,
    ) -> (ready: bool)
        ensures
            ready,
    {
        true
    }

    /// Whether every input of a transaction is in the store.
    pub fn pre_execute_check_objects(
        store: &FakeObjectStore,
        transaction: &TransactionWithTimestamp,
    ) -> (known: bool)
        requires
            store.wf(),
        ensures
            known == inputs_known(store@, transaction.inputs@),
    {
        let mut i: usize = 0;
        while i < transaction.inputs.len()
            invariant
                i <= transaction.inputs.len(),
                store.wf(),
                forall|k: int|
                    0 <= k < i ==> store@.contains_key(
                        (#[trigger] transaction.inputs@[k]).spec_object_id(),
                    ),
            decreases transaction.inputs.len() - i,
        {
            let id: ObjectID = transaction.inputs[i].object_id();
            if store.read_object(&id).is_none() {
                assert(!store@.contains_key(transaction.inputs@[i as int].spec_object_id()));
                return false;
            }
            i = i + 1;
        }
        true
    }

    /// Creates an owned object at version 0 for every input that is no package.
    pub fn optimistically_pre_generate_objects(
        store: &mut FakeObjectStore,
        transaction: &TransactionWithTimestamp,
        owner: SuiAddress,
    )
        requires
            old(store).wf(),
        ensures
            final(store).wf(),
            pregenerated(
                old(store)@,
                final(store)@,
                crate::executor::api::tracked_ids(transaction.inputs@),
                owner,
            ),
    {
        let ghost before = store@;
        let ids: Vec<ObjectID> = get_object_ids_for_dependency_tracking(&transaction.inputs);
        let mut i: usize = 0;
        while i < ids.len()
            invariant
                i <= ids.len(),
                store.wf(),
                forall|id: ObjectID| #[trigger]
                    store@.contains_key(id) <==> before.contains_key(id) || ids@.take(
                        i as int,
                    ).contains(id),
                forall|id: ObjectID| #[trigger]
                    store@.contains_key(id) ==> if ids@.take(i as int).contains(id) {
                        &&& store@[id].id == id
                        &&& store@[id].version == 0
                        &&& store@[id].owner == Owner::AddressOwner(owner)
                    } else {
                        store@[id] == before[id]
                    },
            decreases ids.len() - i,
        {
            proof {
                crate::checkpoint::state_collector::lemma_take_contains(ids@, i as int);
            }
            let ghost earlier = store@;
            store.write_object(fake_owned_object_with_id(0, ids[i], owner));
            proof {
                let shorter = ids@.take(i as int);
                let longer = ids@.take(i + 1);
                assert forall|id: ObjectID| #[trigger] store@.contains_key(id) implies (
                if longer.contains(id) {
                    &&& store@[id].id == id
                    &&& store@[id].version == 0
                    &&& store@[id].owner == Owner::AddressOwner(owner)
                } else {
                    store@[id] == before[id]
                }) by {
                    assert(longer.contains(id) <==> shorter.contains(id) || id == ids@[i as int]);
                    if id != ids@[i as int] {
                        assert(earlier.contains_key(id));
                        assert(store@[id] == earlier[id]);
                    }
                }
                assert forall|id: ObjectID| #[trigger]
                    store@.contains_key(id) <==> before.contains_key(id) || longer.contains(
                        id,
                    ) by {
                    assert(longer.contains(id) <==> shorter.contains(id) || id == ids@[i as int]);
                    assert(earlier.contains_key(id) <==> before.contains_key(id)
                        || shorter.contains(id));
                }
            }
            i = i + 1;
        }
        proof {
            assert(ids@.take(i as int) =~= ids@);
        }
    }

    /// Checks a transaction: for synthetic ones the work is done, and they pass.
    pub fn verify_transaction(
        ctx: &FakeExecutionContext,
        _transaction: &TransactionWithTimestamp,
    ) -> (valid: bool)
        ensures
            valid,
    {
        Calibration::calibrated_work(ctx.verification_spins);
        true
    }
}

/// Executing a transaction takes each of its inputs to the next version, and
/// leaves every other object as it is.
pub proof fn law_execution_advances_inputs(
    before: Map<ObjectID, Object>,
    states: Map<ObjectID, Object>,
    inputs: Seq<InputObjectKind>,
    fresh: Seq<ObjectID>,
)
    requires
        written(states, before, inputs, fresh),
        forall|i: int|
            0 <= i < inputs.len() ==> before.contains_key(
                (#[trigger] inputs[i]).spec_object_id(),
            ),
    ensures
        forall|i: int|
            0 <= i < inputs.len() ==> {
                let id = (#[trigger] inputs[i]).spec_object_id();
                before.union_prefer_right(states)[id].version == before[id].version + 1
            },
        forall|id: ObjectID|
            before.contains_key(id) && last_use(inputs, id) < 0
                ==> #[trigger] before.union_prefer_right(states)[id] == before[id],
{
    assert forall|i: int| 0 <= i < inputs.len() implies {
        let id = (#[trigger] inputs[i]).spec_object_id();
        before.union_prefer_right(states)[id].version == before[id].version + 1
    } by {
        lemma_last_use(inputs, i);
        assert(states.contains_key(inputs[i].spec_object_id()));
    }
    assert forall|id: ObjectID|
        before.contains_key(id) && last_use(inputs, id) < 0 implies #[trigger] before.union_prefer_right(
        states,
    )[id] == before[id] by {
        assert(!states.contains_key(id));
    }
}

proof fn lemma_last_use(inputs: Seq<InputObjectKind>, i: int)
    requires
        0 <= i < inputs.len(),
    ensures
        i <= last_use(inputs, inputs[i].spec_object_id()) < inputs.len(),
    decreases inputs.len(),
{
    if inputs.last().spec_object_id() != inputs[i].spec_object_id() {
        assert(inputs.drop_last()[i] == inputs[i]);
        lemma_last_use(inputs.drop_last(), i);
    }
}

/// Inputs that name objects at version 0.
pub open spec fn fresh_inputs(ids: Seq<ObjectID>) -> Seq<InputObjectKind> {
    ids.map_values(|id: ObjectID| InputObjectKind::ImmOrOwnedMoveObject(id, 0))
}

/// A synthetic transaction on owned objects.
pub fn generate_fake_owned_object_transaction(
    digest: TransactionDigest,
    ids: &Vec<ObjectID>,
) -> (transaction: FakeTransaction)
    ensures
        transaction.digest == digest,
        transaction.inputs@ =~= fresh_inputs(ids@),
{
    let mut inputs: Vec<InputObjectKind> = Vec::new();
    let mut i: usize = 0;
    while i < ids.len()
        invariant
            i <= ids.len(),
            inputs@ =~= fresh_inputs(ids@.take(i as int)),
        decreases ids.len() - i,
    {
        inputs.push(InputObjectKind::ImmOrOwnedMoveObject(ids[i], 0));
        i = i + 1;
    }
    proof {
        assert(ids@.take(i as int) =~= ids@);
    }
    FakeTransaction::new(digest, inputs)
}

/// Whether a coin out of a hundred makes a transaction contend.
pub open spec fn contends(contention: u64, coin: u64) -> bool {
    (if contention < FULL_CONTENTION {
        contention
    } else {
        FULL_CONTENTION
    }) > coin
}

/// The objects of a synthetic transaction: the first one is the common one
/// where the transaction contends.
pub open spec fn contended_ids(ids: Seq<ObjectID>, contention: u64, coin: u64) -> Seq<ObjectID> {
    if ids.len() > 0 && contends(contention, coin) {
        ids.update(0, ZERO_ID)
    } else {
        ids
    }
}

/// A synthetic transaction on shared objects, for a coin that was tossed.
pub fn fake_shared_object_transaction(
    digest: TransactionDigest,
    ids: &Vec<ObjectID>,
    contention: u64,
    coin: u64,
) -> (transaction: FakeTransaction)
    ensures
        transaction.digest == digest,
        transaction.inputs@ =~= fresh_inputs(contended_ids(ids@, contention, coin)),
{
    let level: u64 = if contention < FULL_CONTENTION {
        contention
    } else {
        FULL_CONTENTION
    };
    let ghost used = contended_ids(ids@, contention, coin);
    let mut inputs: Vec<InputObjectKind> = Vec::new();
    let mut i: usize = 0;
    while i < ids.len()
        invariant
            i <= ids.len(),
            level == (if contention < FULL_CONTENTION {
                contention
            } else {
                FULL_CONTENTION
            }),
            used == contended_ids(ids@, contention, coin),
            inputs@ =~= fresh_inputs(used.take(i as int)),
        decreases ids.len() - i,
    {
        let id: ObjectID = if level > coin && i == 0 {
            ZERO_ID
        } else {
            ids[i]
        };
        inputs.push(InputObjectKind::ImmOrOwnedMoveObject(id, 0));
        i = i + 1;
    }
    proof {
        assert(used.take(i as int) =~= used);
    }
    FakeTransaction::new(digest, inputs)
}

/// A synthetic transaction on shared objects. With contention 0 it uses the
/// given objects only; with contention 100 its first object is the one that
/// all such transactions use; in between chance decides.
pub fn generate_fake_shared_object_transaction(
    digest: TransactionDigest,
    ids: &Vec<ObjectID>,
    contention: u64,
) -> (transaction: FakeTransaction)
    ensures
        transaction.digest == digest,
        exists|coin: u64|
            coin < FULL_CONTENTION && transaction.inputs@ =~= fresh_inputs(
                #[trigger] contended_ids(ids@, contention, coin),
            ),
        contention == 0 ==> transaction.inputs@ =~= fresh_inputs(ids@),
        contention >= FULL_CONTENTION && ids@.len() > 0 ==> transaction.inputs@ =~= fresh_inputs(
            ids@.update(0, ZERO_ID),
        ),
{
    let coin: u64 = random_below(100) as u64;
    let transaction: FakeTransaction = fake_shared_object_transaction(
        digest,
        ids,
        contention,
        coin,
    );
    proof {
        assert(transaction.inputs@ =~= fresh_inputs(contended_ids(ids@, contention, coin)));
    }
    transaction
}

/// The bytes of the identifier that stands for a number: the number, least
/// significant byte first, then zeros.
pub open spec fn load_bytes(number: usize) -> Seq<u8> {
    vstd::bytes::spec_u64_to_le_bytes(number as u64) + Seq::new(24, |i: int| 0u8)
}

/// The object that stands for a number of a recorded load.
pub open spec fn load_id(number: usize) -> ObjectID {
    crate::base_types::id_of_bytes(load_bytes(number))
}

/// Different numbers stand for different objects.
pub proof fn law_load_objects_are_distinct(a: usize, b: usize)
    requires
        a != b,
    ensures
        load_id(a) != load_id(b),
{
    vstd::bytes::lemma_auto_spec_u64_to_from_le_bytes();
    let x = load_bytes(a);
    let y = load_bytes(b);
    if load_id(a) == load_id(b) {
        crate::base_types::law_identifier_tells_bytes_apart(x, y);
        assert(x.take(8) =~= vstd::bytes::spec_u64_to_le_bytes(a as u64));
        assert(y.take(8) =~= vstd::bytes::spec_u64_to_le_bytes(b as u64));
    }
}

fn load_object_id(number: usize) -> (id: ObjectID)
    ensures
        id == load_id(number),
{
    let mut bytes: Vec<u8> = u64_to_le_bytes(number as u64);
    let ghost first = bytes@;
    while bytes.len() < OBJECT_ID_LENGTH
        invariant
            first == vstd::bytes::spec_u64_to_le_bytes(number as u64),
            first.len() == 8,
            8 <= bytes@.len() <= OBJECT_ID_LENGTH,
            bytes@ =~= first + Seq::new((bytes@.len() - 8) as nat, |i: int| 0u8),
        decreases OBJECT_ID_LENGTH - bytes@.len(),
    {
        bytes.push(0);
    }
    proof {
        assert(bytes@ =~= load_bytes(number));
    }
    match object_id_from_bytes(&bytes) {
        Some(id) => id,
        None => ZERO_ID,
    }
}

/// The inputs of a transaction of a recorded load.
pub open spec fn load_inputs(load: Seq<usize>) -> Seq<InputObjectKind> {
    load.map_values(|number: usize| InputObjectKind::ImmOrOwnedMoveObject(load_id(number), 0))
}

/// Whether a recorded load uses an object.
pub open spec fn load_uses(loads: Seq<Vec<usize>>, id: ObjectID) -> bool {
    exists|i: int, j: int|
        0 <= i < loads.len() && 0 <= j < loads[i]@.len() && load_id(#[trigger] loads[i]@[j]) == id
}

/// Whether these are the objects of a recorded load: shared coins at version 0.
pub open spec fn load_objects(objects: Map<ObjectID, Object>, loads: Seq<Vec<usize>>) -> bool {
    &&& forall|id: ObjectID| #[trigger] objects.contains_key(id) <==> load_uses(loads, id)
    &&& forall|id: ObjectID| #[trigger]
        objects.contains_key(id) ==> is_shared_coin(objects[id], 0, id)
}

/// The objects and the transactions of a recorded load, which gives the
/// numbers that each transaction uses.
pub fn generate_fake_load_objects_and_transactions(
    digests: &Vec<TransactionDigest>,
    loads: &Vec<Vec<usize>>,
) -> (generated: (NewStates, Vec<FakeTransaction>))
    requires
        digests@.len() == loads@.len(),
    ensures
        generated.0.wf(),
        load_objects(generated.0@, loads@),
        generated.1@.len() == loads@.len(),
        forall|i: int|
            0 <= i < loads@.len() ==> {
                &&& (#[trigger] generated.1@[i]).digest == digests@[i]
                &&& generated.1@[i].inputs@ =~= load_inputs(loads@[i]@)
            },
{
    let mut objects: NewStates = OrderedMap::new();
    let mut transactions: Vec<FakeTransaction> = Vec::new();
    let mut i: usize = 0;
    while i < loads.len()
        invariant
            i <= loads.len(),
            digests@.len() == loads@.len(),
            objects.wf(),
            load_objects(objects@, loads@.take(i as int)),
            transactions@.len() == i,
            forall|k: int|
                0 <= k < i ==> {
                    &&& (#[trigger] transactions@[k]).digest == digests@[k]
                    &&& transactions@[k].inputs@ =~= load_inputs(loads@[k]@)
                },
        decreases loads.len() - i,
    {
        let load: &Vec<usize> = &loads[i];
        let ghost earlier = objects@;
        let mut inputs: Vec<InputObjectKind> = Vec::new();
        let mut j: usize = 0;
        while j < load.len()
            invariant
                j <= load.len(),
                objects.wf(),
                inputs@ =~= load_inputs(load@.take(j as int)),
                forall|id: ObjectID| #[trigger]
                    objects@.contains_key(id) <==> earlier.contains_key(id) || exists|k: int|
                        0 <= k < j && load_id(#[trigger] load@[k]) == id,
                forall|id: ObjectID| #[trigger]
                    earlier.contains_key(id) ==> is_shared_coin(earlier[id], 0, id),
                forall|id: ObjectID| #[trigger]
                    objects@.contains_key(id) ==> is_shared_coin(objects@[id], 0, id),
            decreases load.len() - j,
        {
            let id: ObjectID = load_object_id(load[j]);
            let ghost before = objects@;
            objects.insert(id, fake_shared_object_with_id(0, id));
            inputs.push(InputObjectKind::ImmOrOwnedMoveObject(id, 0));
            proof {
                assert forall|other: ObjectID| #[trigger]
                    objects@.contains_key(other) <==> earlier.contains_key(other) || exists|k: int|
                        0 <= k < j + 1 && load_id(#[trigger] load@[k]) == other by {
                    if other == id {
                        assert(load_id(load@[j as int]) == other);
                    }
                    assert(before.contains_key(other) <==> earlier.contains_key(other) || exists|
                        k: int,
                    |
                        0 <= k < j && load_id(#[trigger] load@[k]) == other);
                }
                assert forall|other: ObjectID| #[trigger]
                    objects@.contains_key(other) implies is_shared_coin(
                    objects@[other],
                    0,
                    other,
                ) by {
                    if other != id {
                        assert(before.contains_key(other));
                    }
                }
            }
            j = j + 1;
        }
        proof {
            assert(load@.take(j as int) =~= load@);
            let shorter = loads@.take(i as int);
            let longer = loads@.take(i + 1);
            assert forall|id: ObjectID| #[trigger] objects@.contains_key(id) <==> load_uses(
                longer,
                id,
            ) by {
                assert(earlier.contains_key(id) <==> load_uses(shorter, id));
                if load_uses(shorter, id) {
                    let (a, b) = choose|a: int, b: int|
                        0 <= a < shorter.len() && 0 <= b < shorter[a]@.len() && load_id(
                            #[trigger] shorter[a]@[b],
                        ) == id;
                    assert(load_id(longer[a]@[b]) == id);
                }
                if exists|k: int| 0 <= k < j && load_id(#[trigger] load@[k]) == id {
                    let k = choose|k: int| 0 <= k < j && load_id(#[trigger] load@[k]) == id;
                    assert(load_id(longer[i as int]@[k]) == id);
                }
                if load_uses(longer, id) {
                    let (a, b) = choose|a: int, b: int|
                        0 <= a < longer.len() && 0 <= b < longer[a]@.len() && load_id(
                            #[trigger] longer[a]@[b],
                        ) == id;
                    if a < i {
                        assert(load_id(shorter[a]@[b]) == id);
                    } else {
                        assert(load_id(load@[b]) == id);
                    }
                }
            }
        }
        transactions.push(FakeTransaction::new(digests[i], inputs));
        i = i + 1;
    }
    proof {
        assert(loads@.take(i as int) =~= loads@);
    }
    (objects, transactions)
}

/// What chance contributes to synthetic transactions: for each one a digest,
/// and the objects, or the numbers of objects, that it uses.
pub struct FakeDraws {
    /// The digest of each transaction.
    pub digests: Vec<TransactionDigest>,
    /// The objects of each transaction, where they are drawn at random.
    pub ids: Vec<Vec<ObjectID>>,
    /// The numbers of the objects of each transaction, where a recorded load
    /// gives them or where they are drawn by a power law.
    pub loads: Vec<Vec<usize>>,
}

/// Whether the objects of the transactions are drawn at random, and how many.
pub open spec fn drawn_inputs(workload: WorkloadType) -> Option<usize> {
    match workload {
        WorkloadType::FakedNoContention { number_of_inputs, .. } => Some(number_of_inputs),
        WorkloadType::FakedContention { number_of_inputs, .. } => Some(number_of_inputs),
        _ => None,
    }
}

/// Whether enough is drawn for a number of transactions of a workload.
pub open spec fn enough_drawn(draws: FakeDraws, workload: WorkloadType, total: int) -> bool {
    &&& draws.digests@.len() == total
    &&& match drawn_inputs(workload) {
        Some(count) => {
            &&& draws.ids@.len() == total
            &&& forall|i: int| 0 <= i < total ==> (#[trigger] draws.ids@[i])@.len() == count
        },
        None => {
            &&& draws.loads@.len() == total
            &&& workload matches WorkloadType::FakeZipfian { number_of_inputs, .. } ==> forall|
                i: int,
            |
                0 <= i < total ==> (#[trigger] draws.loads@[i])@.len() == number_of_inputs
        },
    }
}

/// Whether a transaction is the one of a workload at a position.
pub open spec fn generated_as(
    transaction: FakeTransaction,
    workload: WorkloadType,
    draws: FakeDraws,
    i: int,
) -> bool {
    &&& transaction.digest == draws.digests@[i]
    &&& match workload {
        WorkloadType::FakedNoContention { .. } => transaction.inputs@ =~= fresh_inputs(
            draws.ids@[i]@,
        ),
        WorkloadType::FakedContention { contention, .. } => exists|coin: u64|
            coin < FULL_CONTENTION && transaction.inputs@ =~= fresh_inputs(
                #[trigger] contended_ids(draws.ids@[i]@, contention, coin),
            ),
        WorkloadType::FakeZipfian { number_of_inputs, .. } => {
            &&& transaction.inputs@.len() == number_of_inputs
            &&& transaction.inputs@ =~= load_inputs(draws.loads@[i]@)
        },
        _ => transaction.inputs@ =~= load_inputs(draws.loads@[i]@),
    }
}

/// The synthetic transactions of a benchmark, as many as it takes.
pub fn generate_fake_transactions(
    config: &BenchmarkParameters,
    draws: &FakeDraws,
) -> (transactions: Vec<FakeTransaction>)
    requires
        config.workload.fake_duration() is Some,
        config.countable(),
        enough_drawn(*draws, config.workload, config.transactions() as int),
    ensures
        transactions@.len() == config.transactions(),
        forall|i: int|
            0 <= i < transactions@.len() ==> generated_as(
                #[trigger] transactions@[i],
                config.workload,
                *draws,
                i,
            ),
{
    match config.workload {
        WorkloadType::FakedNoContention { .. } => {
            let mut transactions: Vec<FakeTransaction> = Vec::new();
            let mut i: usize = 0;
            while i < draws.digests.len()
                invariant
                    i <= draws.digests@.len(),
                    config.workload is FakedNoContention,
                    enough_drawn(*draws, config.workload, draws.digests@.len() as int),
                    transactions@.len() == i,
                    forall|k: int|
                        0 <= k < i ==> generated_as(
                            #[trigger] transactions@[k],
                            config.workload,
                            *draws,
                            k,
                        ),
                decreases draws.digests.len() - i,
            {
                transactions.push(
                    generate_fake_owned_object_transaction(draws.digests[i], &draws.ids[i]),
                );
                i = i + 1;
            }
            transactions
        },
        WorkloadType::FakedContention { contention, .. } => {
            let mut transactions: Vec<FakeTransaction> = Vec::new();
            let mut i: usize = 0;
            while i < draws.digests.len()
                invariant
                    i <= draws.digests@.len(),
                    config.workload matches WorkloadType::FakedContention { contention: c, .. }
                        && c == contention,
                    enough_drawn(*draws, config.workload, draws.digests@.len() as int),
                    transactions@.len() == i,
                    forall|k: int|
                        0 <= k < i ==> generated_as(
                            #[trigger] transactions@[k],
                            config.workload,
                            *draws,
                            k,
                        ),
                decreases draws.digests.len() - i,
            {
                transactions.push(
                    generate_fake_shared_object_transaction(
                        draws.digests[i],
                        &draws.ids[i],
                        contention,
                    ),
                );
                i = i + 1;
            }
            transactions
        },
        _ => {
            let generated: (NewStates, Vec<FakeTransaction>) =
                generate_fake_load_objects_and_transactions(&draws.digests, &draws.loads);
            generated.1
        },
    }
}

/// The last use of an object is at the last input that names it, and there is
/// one exactly where an input does.
pub proof fn law_last_use_is_the_last_input(inputs: Seq<InputObjectKind>, id: ObjectID)
    ensures
        last_use(inputs, id) >= 0 <==> exists|i: int|
            0 <= i < inputs.len() && (#[trigger] inputs[i]).spec_object_id() == id,
        last_use(inputs, id) < inputs.len(),
        last_use(inputs, id) >= 0 ==> inputs[last_use(inputs, id)].spec_object_id() == id,
        forall|i: int|
            last_use(inputs, id) < i < inputs.len() && i >= 0 ==> (
            #[trigger] inputs[i]).spec_object_id() != id,
    decreases inputs.len(),
{
    if inputs.len() > 0 {
        let rest = inputs.drop_last();
        law_last_use_is_the_last_input(rest, id);
        assert(inputs[inputs.len() - 1] == inputs.last());
        if exists|i: int| 0 <= i < rest.len() && (#[trigger] rest[i]).spec_object_id() == id {
            let i = choose|i: int| 0 <= i < rest.len() && (#[trigger] rest[i]).spec_object_id()
                == id;
            assert(inputs[i].spec_object_id() == id);
        }
        if inputs.last().spec_object_id() != id {
            if exists|i: int|
                0 <= i < inputs.len() && (#[trigger] inputs[i]).spec_object_id() == id {
                let i = choose|i: int|
                    0 <= i < inputs.len() && (#[trigger] inputs[i]).spec_object_id() == id;
                assert(rest[i].spec_object_id() == id);
            }
            assert forall|i: int| last_use(inputs, id) < i < inputs.len() && i >= 0 implies (
            #[trigger] inputs[i]).spec_object_id() != id by {
                if i < rest.len() {
                    assert(rest[i].spec_object_id() != id);
                }
            }
        }
    }
}

/// What executing a transaction writes: every object that is an input and no
/// other, each one version up, with its owner, a shared one shared from that
/// version on.
pub proof fn law_synthetic_execution_writes_its_inputs(
    before: Map<ObjectID, Object>,
    states: Map<ObjectID, Object>,
    inputs: Seq<InputObjectKind>,
    fresh: Seq<ObjectID>,
    id: ObjectID,
)
    requires
        written(states, before, inputs, fresh),
    ensures
        states.contains_key(id) <==> exists|i: int|
            0 <= i < inputs.len() && (#[trigger] inputs[i]).spec_object_id() == id,
        states.contains_key(id) ==> {
            &&& states[id].version - before[id].version == 1
            &&& before[id].owner is Shared ==> states[id].owner == Owner::Shared {
                initial_shared_version: states[id].version,
            }
            &&& !(before[id].owner is Shared) ==> states[id].owner == before[id].owner
        },
{
    law_last_use_is_the_last_input(inputs, id);
}

/// What a transaction read is reported input by input, at the versions from
/// before.
pub proof fn law_versions_are_reported_as_read(
    before: Map<ObjectID, Object>,
    inputs: Seq<InputObjectKind>,
    i: int,
)
    requires
        0 <= i < inputs.len(),
    ensures
        versions_read(before, inputs).len() == inputs.len(),
        versions_read(before, inputs)[i].0 == inputs[i].spec_object_id(),
        versions_read(before, inputs)[i].1 == before[inputs[i].spec_object_id()].version,
{
}

/// A transaction names an object as it is: a shared one as shared from its
/// version on and to be changed, another one at its version.
pub proof fn law_objects_are_named_as_they_are(object: Object)
    ensures
        kind_of(object).spec_object_id() == object.id,
        object.owner is Shared ==> kind_of(object) == (InputObjectKind::SharedMoveObject {
            id: object.id,
            initial_shared_version: object.version,
            mutable: true,
        }),
        !(object.owner is Shared) ==> kind_of(object) == InputObjectKind::ImmOrOwnedMoveObject(
            object.id,
            object.version,
        ),
{
}

/// Contention is counted in hundredths: of the hundred sides of the coin as
/// many make a transaction contend.
pub proof fn law_contention_is_in_hundredths(contention: u64)
    requires
        contention <= 100,
    ensures
        crate::counting::places(100, |side: int| contends(contention, side as u64)).len()
            == contention,
{
    let holds = |side: int| contends(contention, side as u64);
    assert(crate::counting::places(100, holds) =~= crate::counting::places(
        contention as int,
        |side: int| true,
    )) by {
        assert forall|side: int|
            crate::counting::places(100, holds).contains(side) <==> crate::counting::places(
                contention as int,
                |side: int| true,
            ).contains(side) by {
            if 0 <= side < 100 {
                assert(holds(side) <==> side < contention);
            }
        }
    }
    lemma_all_places(contention as int);
}

proof fn lemma_all_places(n: int)
    requires
        n >= 0,
    ensures
        crate::counting::places(n, |side: int| true).len() == n,
    decreases n,
{
    crate::counting::lemma_places(n, |side: int| true);
    if n > 0 {
        lemma_all_places(n - 1);
    }
}

/// A transaction that contends uses the common object in place of its first
/// one, and its other objects; one that does not uses its own objects.
pub proof fn law_contending_transactions_share_an_object(
    ids: Seq<ObjectID>,
    contention: u64,
    coin: u64,
    i: int,
)
    requires
        0 <= i < ids.len(),
        coin < 100,
    ensures
        fresh_inputs(contended_ids(ids, contention, coin)).len() == ids.len(),
        fresh_inputs(contended_ids(ids, contention, coin))[i]
            == InputObjectKind::ImmOrOwnedMoveObject(
            if i == 0 && coin < contention {
                (0u128, 0u128)
            } else {
                ids[i]
            },
            0,
        ),
{
}

/// A transaction of a recorded load uses the objects of its numbers, in their
/// order, at version 0.
pub proof fn law_recorded_numbers_are_objects(load: Seq<usize>, i: int)
    requires
        0 <= i < load.len(),
    ensures
        load_inputs(load).len() == load.len(),
        load_inputs(load)[i].spec_object_id() == load_id(load[i]),
        load_inputs(load)[i] matches InputObjectKind::ImmOrOwnedMoveObject(_, version) && version
            == 0,
{
}

/// The objects of a recorded load are exactly those whose numbers it has, and
/// all are shared from version 0 on.
pub proof fn law_recorded_loads_have_their_objects(
    objects: Map<ObjectID, Object>,
    loads: Seq<Vec<usize>>,
    i: int,
    j: int,
    other: ObjectID,
)
    requires
        load_objects(objects, loads),
        0 <= i < loads.len(),
        0 <= j < loads[i]@.len(),
        forall|a: int, b: int|
            0 <= a < loads.len() && 0 <= b < loads[a]@.len() ==> load_id(#[trigger] loads[a]@[b])
                != other,
    ensures
        objects.contains_key(load_id(loads[i]@[j])),
        objects[load_id(loads[i]@[j])].id == load_id(loads[i]@[j]),
        objects[load_id(loads[i]@[j])].version == 0,
        objects[load_id(loads[i]@[j])].owner == (Owner::Shared { initial_shared_version: 0 }),
        !objects.contains_key(other),
{
    let id = load_id(loads[i]@[j]);
    assert(load_uses(loads, id));
    assert(objects.contains_key(id));
}

/// Which objects a synthetic transaction uses: the drawn ones where they are
/// drawn at random, with the common one in front where it contends, else those
/// of its numbers.
pub proof fn law_synthetic_transactions_use_what_was_drawn(
    transaction: FakeTransaction,
    workload: WorkloadType,
    draws: FakeDraws,
    i: int,
    k: int,
)
    requires
        generated_as(transaction, workload, draws, i),
        0 <= k,
    ensures
        transaction.digest == draws.digests@[i],
        workload is FakedNoContention && k < draws.ids@[i]@.len() ==> transaction.inputs@.len()
            == draws.ids@[i]@.len() && transaction.inputs@[k].spec_object_id()
            == draws.ids@[i]@[k],
        workload is FakedContention && k < draws.ids@[i]@.len() ==> transaction.inputs@.len()
            == draws.ids@[i]@.len() && (transaction.inputs@[k].spec_object_id()
            == draws.ids@[i]@[k] || k == 0 && transaction.inputs@[k].spec_object_id() == (
            0u128,
            0u128,
        )),
        !(workload is FakedNoContention) && !(workload is FakedContention) && k
            < draws.loads@[i]@.len() ==> transaction.inputs@.len() == draws.loads@[i]@.len()
            && transaction.inputs@[k].spec_object_id() == load_id(draws.loads@[i]@[k]),
{
    if let WorkloadType::FakedContention { contention, .. } = workload {
        let coin = choose|coin: u64|
            coin < FULL_CONTENTION && transaction.inputs@ =~= fresh_inputs(
                #[trigger] contended_ids(draws.ids@[i]@, contention, coin),
            );
        if k < draws.ids@[i]@.len() {
            law_contending_transactions_share_an_object(draws.ids@[i]@, contention, coin, k);
        }
    }
}

/// The inputs of a transaction are known unless one of them is missing.
pub proof fn law_no_known_input_is_missing(
    store: Map<ObjectID, Object>,
    inputs: Seq<InputObjectKind>,
)
    ensures
        !inputs_known(store, inputs) <==> exists|i: int|
            0 <= i < inputs.len() && !store.contains_key((#[trigger] inputs[i]).spec_object_id()),
{
    if exists|i: int|
        0 <= i < inputs.len() && !store.contains_key((#[trigger] inputs[i]).spec_object_id()) {
        let i = choose|i: int|
            0 <= i < inputs.len() && !store.contains_key((#[trigger] inputs[i]).spec_object_id());
        assert(!store.contains_key(inputs[i].spec_object_id()));
    }
}

/// A shared coin has its identifier and version, is shared from that version
/// on, and is worth ten.
pub proof fn law_shared_coins_are_worth_ten(object: Object, version: u64, id: ObjectID)
    requires
        is_shared_coin(object, version, id),
    ensures
        object.id == id,
        object.version == version,
        object.owner == (Owner::Shared { initial_shared_version: version }),
        vstd::bytes::spec_u64_from_le_bytes(object.contents@) == 10,
{
    vstd::bytes::lemma_auto_spec_u64_to_from_le_bytes();
}

/// Objects that are created ahead have their identity, no version yet and the
/// given owner; every other object is as it was.
pub proof fn law_created_objects_are_new(
    before: Map<ObjectID, Object>,
    after: Map<ObjectID, Object>,
    ids: Seq<ObjectID>,
    owner: SuiAddress,
    id: ObjectID,
)
    requires
        pregenerated(before, after, ids, owner),
    ensures
        ids.contains(id) ==> after.contains_key(id) && after[id].id == id && after[id].version == 0
            && after[id].owner == Owner::AddressOwner(owner),
        !ids.contains(id) ==> (after.contains_key(id) <==> before.contains_key(id)),
        !ids.contains(id) && before.contains_key(id) ==> after[id] == before[id],
{
    assert(after.contains_key(id) <==> before.contains_key(id) || ids.contains(id));
}

} // verus!
