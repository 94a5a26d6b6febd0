//! Transactions and the messages that carry them.
use std::sync::Arc;

use vstd::prelude::*;

use crate::base_types::{
    InputObjectKind, Object, ObjectID, ProxyId, SequenceNumber, StateKey, TransactionDigest,
};
use crate::checkpoint::{EpochId, EpochObjectStates};
use crate::duration::Duration;
use crate::ordered_map::OrderedMap;

verus! {

/// When a transaction was created, in microseconds.
pub type Timestamp = u64;

/// The states that a transaction needs, each with the proxy that has it when
/// that is not the executing proxy.
pub type RequiredStates = OrderedMap<StateKey, Option<ProxyId>>;

/// Object states by their identity.
pub type NewStates = OrderedMap<ObjectID, Object>;

/// A copy of required states.
pub fn copy_required(required: &RequiredStates) -> (copy: RequiredStates)
    ensures
        copy.sorted() =~= required.sorted(),
        required.wf() ==> copy.wf(),
        copy@ =~= required@,
{
    let copy: RequiredStates = required.duplicate();
    proof {
        assert forall|i: int| 0 <= i < required.sorted().len() implies copy.sorted()[i]
            == required.sorted()[i] by {
            assert(copy.sorted()[i].0 == required.sorted()[i].0);
        }
        assert(copy.sorted() =~= required.sorted());
    }
    copy
}

/// A copy of object states.
pub fn copy_states(states: &NewStates) -> (copy: NewStates)
    ensures
        copy.sorted() =~= states.sorted(),
        states.wf() ==> copy.wf(),
        copy@ =~= states@,
{
    let copy: NewStates = states.duplicate();
    proof {
        assert forall|i: int| 0 <= i < states.sorted().len() implies copy.sorted()[i]
            == states.sorted()[i] by {
            assert(copy.sorted()[i].0 == states.sorted()[i].0);
        }
        assert(copy.sorted() =~= states.sorted());
    }
    copy
}

/// A transaction on its way to a proxy.
#[derive(Debug)]
pub struct TransactionWithTimestamp {
    /// The digest of the transaction.
    pub digest: TransactionDigest,
    /// The inputs that the transaction declares.
    pub inputs: Vec<InputObjectKind>,
    /// The shared objects of the transaction, each with its version once that is assigned.
    pub shared_objects: Vec<(ObjectID, Option<SequenceNumber>)>,
    /// How long checking the transaction takes.
    pub verification_duration: Duration,
    /// How long executing the transaction is expected to take.
    pub expected_stateful_duration: Duration,
    /// The proxy that an offline schedule assigned.
    pub destination: Option<ProxyId>,
    /// When the transaction was created.
    pub timestamp: Timestamp,
}

/// The shared objects of a transaction before their versions are assigned.
pub open spec fn unversioned(ids: Seq<ObjectID>) -> Seq<(ObjectID, Option<SequenceNumber>)> {
    ids.map_values(|id: ObjectID| (id, None::<SequenceNumber>))
}

/// The objects of the shared inputs, in the order of the inputs.
pub open spec fn shared_ids(inputs: Seq<InputObjectKind>) -> Seq<ObjectID>
    decreases inputs.len(),
{
    if inputs.len() == 0 {
        Seq::empty()
    } else {
        match inputs.last() {
            InputObjectKind::SharedMoveObject { id, .. } => shared_ids(inputs.drop_last()).push(id),
            _ => shared_ids(inputs.drop_last()),
        }
    }
}

/// The objects of the inputs that are no packages, in the order of the inputs.
pub open spec fn tracked_ids(inputs: Seq<InputObjectKind>) -> Seq<ObjectID>
    decreases inputs.len(),
{
    if inputs.len() == 0 {
        Seq::empty()
    } else if inputs.last() is MovePackage {
        tracked_ids(inputs.drop_last())
    } else {
        tracked_ids(inputs.drop_last()).push(inputs.last().spec_object_id())
    }
}

/// The objects of the shared inputs, in the order of the inputs.
pub fn shared_object_ids(inputs: &Vec<InputObjectKind>) -> (ids: Vec<ObjectID>)
    ensures
        ids@ == shared_ids(inputs@),
{
    let mut ids: Vec<ObjectID> = Vec::new();
    let mut i: usize = 0;
    while i < inputs.len()
        invariant
            i <= inputs.len(),
            ids@ == shared_ids(inputs@.take(i as int)),
        decreases inputs.len() - i,
    {
        proof {
            assert(inputs@.take(i + 1).drop_last() =~= inputs@.take(i as int));
        }
        match inputs[i] {
            InputObjectKind::SharedMoveObject { id, .. } => {
                ids.push(id);
            },
            _ => {},
        }
        i = i + 1;
    }
    proof {
        assert(inputs@.take(i as int) =~= inputs@);
    }
    ids
}

/// The objects whose order of use matters: those of all inputs but packages.
pub fn get_object_ids_for_dependency_tracking(inputs: &Vec<InputObjectKind>) -> (ids: Vec<ObjectID>)
    ensures
        ids@ == tracked_ids(inputs@),
{
    let mut ids: Vec<ObjectID> = Vec::new();
    let mut i: usize = 0;
    while i < inputs.len()
        invariant
            i <= inputs.len(),
            ids@ == tracked_ids(inputs@.take(i as int)),
        decreases inputs.len() - i,
    {
        proof {
            assert(inputs@.take(i + 1).drop_last() =~= inputs@.take(i as int));
        }
        match inputs[i] {
            InputObjectKind::MovePackage(_) => {},
            _ => {
                ids.push(inputs[i].object_id());
            },
        }
        i = i + 1;
    }
    proof {
        assert(inputs@.take(i as int) =~= inputs@);
    }
    ids
}

impl TransactionWithTimestamp {
    /// A transaction whose shared objects have no versions yet.
    pub fn new(
        digest: TransactionDigest,
        inputs: Vec<InputObjectKind>,
        timestamp: Timestamp,
        shared_objects: Vec<ObjectID>,
        verification_duration: Duration,
        expected_stateful_duration: Duration,
        destination: Option<ProxyId>,
    ) -> (txn: Self)
        ensures
            txn.digest == digest,
            txn.inputs == inputs,
            txn.timestamp == timestamp,
            txn.shared_objects@ =~= unversioned(shared_objects@),
            txn.verification_duration == verification_duration,
            txn.expected_stateful_duration == expected_stateful_duration,
            txn.destination == destination,
    {
        let mut unassigned: Vec<(ObjectID, Option<SequenceNumber>)> = Vec::new();
        let mut i: usize = 0;
        while i < shared_objects.len()
            invariant
                i <= shared_objects.len(),
                unassigned@ =~= unversioned(shared_objects@.take(i as int)),
            decreases shared_objects.len() - i,
        {
            unassigned.push((shared_objects[i], None));
            i = i + 1;
        }
        TransactionWithTimestamp {
            digest,
            inputs,
            shared_objects: unassigned,
            verification_duration,
            expected_stateful_duration,
            destination,
            timestamp,
        }
    }

    /// When the transaction was created.
    pub fn timestamp(&self) -> (timestamp: Timestamp)
        ensures
            timestamp == self.timestamp,
    {
        self.timestamp
    }

    /// Whether the transaction uses no shared object.
    pub fn is_owned_only(&self) -> (owned: bool)
        ensures
            owned == (self.shared_objects@.len() == 0),
    {
        self.shared_objects.len() == 0
    }

    /// The versions that the transaction needs: those of its shared objects
    /// that are assigned, in the order of the objects.
    pub open spec fn assigned_versions(s: Seq<(ObjectID, Option<SequenceNumber>)>) -> Seq<StateKey>
        decreases s.len(),
    {
        if s.len() == 0 {
            Seq::empty()
        } else {
            let rest = Self::assigned_versions(s.drop_last());
            match s.last().1 {
                Some(v) => rest.push((s.last().0, v)),
                None => rest,
            }
        }
    }

    /// The versions that the transaction needs, in the order of its shared objects.
    pub fn required_versions(&self) -> (versions: Vec<StateKey>)
        ensures
            versions@ == Self::assigned_versions(self.shared_objects@),
    {
        let mut versions: Vec<StateKey> = Vec::new();
        let mut i: usize = 0;
        while i < self.shared_objects.len()
            invariant
                i <= self.shared_objects.len(),
                versions@ == Self::assigned_versions(self.shared_objects@.take(i as int)),
            decreases self.shared_objects.len() - i,
        {
            proof {
                assert(self.shared_objects@.take(i + 1).drop_last() =~= self.shared_objects@.take(
                    i as int,
                ));
            }
            let (id, version) = self.shared_objects[i];
            if let Some(v) = version {
                versions.push((id, v));
            }
            i = i + 1;
        }
        proof {
            assert(self.shared_objects@.take(i as int) =~= self.shared_objects@);
        }
        versions
    }
}

/// A transaction to run again, with the states that it needs.
pub struct ReplayMsg {
    pub epoch_id: EpochId,
    pub transaction: Option<Arc<TransactionWithTimestamp>>,
    pub required_versions: Vec<StateKey>,
    pub state_blobs: NewStates,
}

/// The transactions of an epoch to run again, in order.
pub struct ReplayBatch {
    pub epoch: EpochId,
    pub items: Vec<ReplayMsg>,
}

/// What the primary sends to a proxy.
pub enum PrimaryToProxyMessage {
    /// Check a transaction.
    StatelessTxn(EpochId, Arc<TransactionWithTimestamp>),
    /// Execute a transaction that the named proxy checks.
    Txn(EpochId, Arc<TransactionWithTimestamp>, ProxyId, RequiredStates),
    /// Check and execute a transaction.
    CombinedTxn(EpochId, Arc<TransactionWithTimestamp>, ProxyId, RequiredStates),
    /// Run transactions again and take over states.
    Replay(ReplayBatch),
    /// Close an epoch.
    Checkpoint(EpochId),
    /// Enter service with an epoch.
    ActivateProxy { first_active_epoch: EpochId, completed_up_to: u64 },
    /// Leave service after an epoch.
    RetirementSignal(EpochId),
    /// Retirement is complete.
    ShutdownConfirmation,
    /// Schedule and execute a numbered batch of transactions.
    TransactionBatch(Vec<Arc<TransactionWithTimestamp>>, u64),
}

/// What a proxy asks another one for.
pub enum InterProxyRequest {
    /// The proxy needs states.
    Stateful(ProxyId, Vec<StateKey>),
    /// The proxy needs the outcome of the check of a transaction.
    Stateless(ProxyId, TransactionDigest),
}

/// What a proxy answers another one.
pub enum InterProxyReply {
    /// States that were asked for.
    Stateful(NewStates),
    /// The outcome of the check of a transaction.
    Stateless(TransactionDigest, bool),
}

/// What a proxy sends to another one.
pub enum ProxyToProxyMessage {
    /// A request.
    Request(InterProxyRequest),
    /// A reply.
    Reply(InterProxyReply),
}

/// Where the objects are kept that transactions use.
pub trait StateStore {
    /// The objects by their identities.
    spec fn contents(&self) -> Map<ObjectID, Object>;

    /// The store is in order.
    spec fn valid(&self) -> bool;

    /// The object with an identity, if there is one.
    fn read(&self, id: &ObjectID) -> (object: Option<Object>)
        requires
            self.valid(),
        ensures
            object == self.contents().get(*id),
    ;

    /// Writes objects under given identities, in place of earlier ones.
    fn commit(&mut self, new_state: &NewStates)
        requires
            old(self).valid(),
            new_state.wf(),
        ensures
            final(self).valid(),
            final(self).contents() =~= old(self).contents().union_prefer_right(new_state@),
    ;
}

/// What executing a transaction gave: nothing where it was skipped.
pub struct ExecutionResultsAndEffects {
    /// The transaction.
    pub transaction: Arc<TransactionWithTimestamp>,
    /// The versions that the transaction read and replaced.
    pub modified_at_versions: Option<Vec<StateKey>>,
    /// The states that the transaction wrote.
    pub new_state: Option<EpochObjectStates>,
}

impl ExecutionResultsAndEffects {
    /// The outcome of a transaction.
    pub fn new(
        transaction: Arc<TransactionWithTimestamp>,
        modified_at_versions: Option<Vec<StateKey>>,
        new_state: Option<EpochObjectStates>,
    ) -> (results: Self)
        ensures
            results.transaction == transaction,
            results.modified_at_versions == modified_at_versions,
            results.new_state == new_state,
    {
        ExecutionResultsAndEffects { transaction, modified_at_versions, new_state }
    }

    /// Whether the transaction was executed.
    pub fn success(&self) -> (executed: bool)
        ensures
            executed == (self.modified_at_versions is Some),
    {
        self.modified_at_versions.is_some()
    }

    /// The digest of the transaction.
    pub fn transaction_digest(&self) -> (digest: TransactionDigest)
        ensures
            digest == self.transaction.digest,
    {
        self.transaction.digest
    }
}

/// The shared objects of inputs: those of a list and a further one are those
/// of the list, and then the object of the further one where that is shared.
/// Each is named by a shared input, and each shared input is among them.
pub proof fn law_shared_objects_are_those_of_shared_inputs(
    inputs: Seq<InputObjectKind>,
    id: ObjectID,
)
    ensures
        shared_ids(inputs).contains(id) <==> exists|i: int|
            0 <= i < inputs.len() && (#[trigger] inputs[i] matches InputObjectKind::SharedMoveObject {
                id: named,
                ..
            } && named == id),
        shared_ids(inputs).len() == crate::counting::places(
            inputs.len() as int,
            |i: int| inputs[i] is SharedMoveObject,
        ).len(),
    decreases inputs.len(),
{
    let holds = |i: int| inputs[i] is SharedMoveObject;
    crate::counting::lemma_places(inputs.len() as int, holds);
    if inputs.len() > 0 {
        let rest = inputs.drop_last();
        law_shared_objects_are_those_of_shared_inputs(rest, id);
        crate::counting::lemma_same_places(
            rest.len() as int,
            |i: int| rest[i] is SharedMoveObject,
            holds,
        );
        let before = shared_ids(rest);
        let after = shared_ids(inputs);
        assert(inputs[inputs.len() - 1] == inputs.last());
        if before.contains(id) {
            let k = choose|k: int| 0 <= k < before.len() && before[k] == id;
            assert(after[k] == id);
            let i = choose|i: int|
                0 <= i < rest.len() && (#[trigger] rest[i]
                    matches InputObjectKind::SharedMoveObject { id: named, .. } && named == id);
            assert(inputs[i] == rest[i]);
        }
        if let InputObjectKind::SharedMoveObject { id: named, .. } = inputs.last() {
            assert(after[before.len() as int] == named);
            if after.contains(id) && named != id {
                let k = choose|k: int| 0 <= k < after.len() && after[k] == id;
                assert(before[k] == id);
            }
        }
        if exists|i: int|
            0 <= i < inputs.len() && (#[trigger] inputs[i]
                matches InputObjectKind::SharedMoveObject { id: named, .. } && named == id) {
            let i = choose|i: int|
                0 <= i < inputs.len() && (#[trigger] inputs[i]
                    matches InputObjectKind::SharedMoveObject { id: named, .. } && named == id);
            if i < rest.len() {
                assert(rest[i] == inputs[i]);
            }
        }
    }
}

/// Shared objects keep the order of the inputs, and so do the objects whose
/// order of use matters and the versions that are assigned.
pub proof fn law_lists_of_objects_keep_the_order(
    first: Seq<InputObjectKind>,
    second: Seq<InputObjectKind>,
)
    ensures
        shared_ids(first + second) =~= shared_ids(first) + shared_ids(second),
        tracked_ids(first + second) =~= tracked_ids(first) + tracked_ids(second),
    decreases second.len(),
{
    if second.len() == 0 {
        assert(first + second =~= first);
    } else {
        law_lists_of_objects_keep_the_order(first, second.drop_last());
        assert((first + second).drop_last() =~= first + second.drop_last());
        assert((first + second).last() == second.last());
    }
}

/// The order of use matters for every object but packages.
pub proof fn law_all_but_packages_are_tracked(input: InputObjectKind)
    ensures
        tracked_ids(seq![input]) =~= (match input {
            InputObjectKind::MovePackage(_) => Seq::empty(),
            InputObjectKind::ImmOrOwnedMoveObject(id, _) => seq![id],
            InputObjectKind::SharedMoveObject { id, .. } => seq![id],
        }),
{
    reveal_with_fuel(tracked_ids, 2);
    assert(seq![input].drop_last() =~= Seq::empty());
}

/// Before versions are assigned a transaction has none for any object.
pub proof fn law_objects_start_without_versions(ids: Seq<ObjectID>, i: int)
    requires
        0 <= i < ids.len(),
    ensures
        unversioned(ids).len() == ids.len(),
        unversioned(ids)[i].0 == ids[i],
        unversioned(ids)[i].1 is None,
{
}

/// What a transaction needs are the versions that it was assigned: those of
/// two lists of shared objects are those of the first and then those of the
/// second, and an object without a version adds none.
pub proof fn law_needs_are_the_assigned_versions(
    first: Seq<(ObjectID, Option<SequenceNumber>)>,
    second: Seq<(ObjectID, Option<SequenceNumber>)>,
    id: ObjectID,
    version: SequenceNumber,
)
    ensures
        TransactionWithTimestamp::assigned_versions(first + second)
            =~= TransactionWithTimestamp::assigned_versions(first)
            + TransactionWithTimestamp::assigned_versions(second),
        TransactionWithTimestamp::assigned_versions(seq![(id, Some(version))]) =~= seq![
            (id, version),
        ],
        TransactionWithTimestamp::assigned_versions(seq![(id, None::<SequenceNumber>)])
            =~= Seq::empty(),
    decreases second.len(),
{
    reveal_with_fuel(TransactionWithTimestamp::assigned_versions, 2);
    assert(seq![(id, Some(version))].drop_last() =~= Seq::empty());
    assert(seq![(id, None::<SequenceNumber>)].drop_last() =~= Seq::empty());
    if second.len() == 0 {
        assert(first + second =~= first);
    } else {
        law_needs_are_the_assigned_versions(first, second.drop_last(), id, version);
        assert((first + second).drop_last() =~= first + second.drop_last());
        assert((first + second).last() == second.last());
    }
}

} // verus!
