//! The epochs as a proxy sees them: which one is current, what it changed,
//! and whether all of it is done.
use vstd::prelude::*;

use crate::base_types::{Object, ObjectID};
use crate::checkpoint::{EpochId, EpochObjectStates};
use crate::ordered_map::OrderedMap;
use crate::tables::ConcurrentMap;

verus! {

/// The epochs that trackers keep: one for each tracker, which it shares with
/// all its clones.
pub struct SharedEpochs {
    epochs: Vec<u64>,
}

impl View for SharedEpochs {
    type V = Seq<u64>;

    closed spec fn view(&self) -> Seq<u64> {
        self.epochs@
    }
}

impl SharedEpochs {
    /// No epoch is kept.
    pub fn new() -> (epochs: Self)
        ensures
            epochs@ =~= Seq::<u64>::empty(),
    {
        SharedEpochs { epochs: Vec::new() }
    }
}

/// Tracks the current epoch of a proxy. Clones share the epoch: whatever any of
/// them has set last is current, be it a lower epoch.
#[derive(Debug)]
pub struct EpochTracker {
    cell: usize,
}

impl Clone for EpochTracker {
    fn clone(&self) -> (other: Self)
        ensures
            other.cell() == self.cell(),
    {
        EpochTracker { cell: self.cell }
    }
}

impl EpochTracker {
    /// Which of the epochs is the one that the tracker shares.
    pub closed spec fn cell(&self) -> int {
        self.cell as int
    }

    /// Whether the epoch of the tracker is among those that are kept.
    pub open spec fn is_kept(&self, epochs: Seq<u64>) -> bool {
        0 <= self.cell() < epochs.len()
    }

    /// A tracker that starts with an epoch of its own.
    pub fn new(epochs: &mut SharedEpochs, initial: EpochId) -> (tracker: Self)
        ensures
            final(epochs)@ =~= old(epochs)@.push(initial.0),
            tracker.cell() == old(epochs)@.len(),
    {
        let cell: usize = epochs.epochs.len();
        epochs.epochs.push(initial.0);
        EpochTracker { cell }
    }

    /// The current epoch.
    pub fn current(&self, epochs: &SharedEpochs) -> (epoch: EpochId)
        requires
            self.is_kept(epochs@),
        ensures
            epoch.0 == epochs@[self.cell()],
    {
        EpochId(epochs.epochs[self.cell])
    }

    /// Makes an epoch the current one, for all clones.
    pub fn update_epoch(&self, epochs: &mut SharedEpochs, epoch: EpochId)
        requires
            self.is_kept(old(epochs)@),
        ensures
            final(epochs)@ =~= old(epochs)@.update(self.cell(), epoch.0),
    {
        epochs.epochs.set(self.cell, epoch.0);
    }
}

/// The epochs after updates, each through some tracker.
pub open spec fn after_updates(epochs: Seq<u64>, updates: Seq<(EpochTracker, EpochId)>) -> Seq<u64>
    decreases updates.len(),
{
    if updates.len() == 0 {
        epochs
    } else {
        let (tracker, epoch) = updates.last();
        after_updates(epochs, updates.drop_last()).update(tracker.cell(), epoch.0)
    }
}

proof fn lemma_updates_keep_the_number(epochs: Seq<u64>, updates: Seq<(EpochTracker, EpochId)>)
    requires
        forall|i: int| 0 <= i < updates.len() ==> (#[trigger] updates[i]).0.is_kept(epochs),
    ensures
        after_updates(epochs, updates).len() == epochs.len(),
    decreases updates.len(),
{
    if updates.len() > 0 {
        assert(updates[updates.len() - 1] == updates.last());
        assert forall|i: int| 0 <= i < updates.drop_last().len() implies (
        #[trigger] updates.drop_last()[i]).0.is_kept(epochs) by {
            assert(updates.drop_last()[i] == updates[i]);
        }
        lemma_updates_keep_the_number(epochs, updates.drop_last());
    }
}

/// A tracker and its clone always have the same epoch: the one that was set
/// last, through whichever of them, and the one of the start where none was.
pub proof fn law_clones_share_the_epoch(
    epochs: Seq<u64>,
    tracker: EpochTracker,
    other: EpochTracker,
    updates: Seq<(EpochTracker, EpochId)>,
)
    requires
        tracker.is_kept(epochs),
        other.cell() == tracker.cell(),
        forall|i: int|
            0 <= i < updates.len() ==> (#[trigger] updates[i]).0 == tracker || updates[i].0 == other,
    ensures
        ({
            let after = after_updates(epochs, updates);
            &&& tracker.is_kept(after) && other.is_kept(after)
            &&& after[tracker.cell()] == after[other.cell()]
            &&& after[tracker.cell()] == (if updates.len() == 0 {
                epochs[tracker.cell()]
            } else {
                updates.last().1.0
            })
        }),
{
    lemma_updates_keep_the_number(epochs, updates);
    if updates.len() > 0 {
        assert forall|i: int| 0 <= i < updates.drop_last().len() implies (
        #[trigger] updates.drop_last()[i]).0.is_kept(epochs) by {
            assert(updates.drop_last()[i] == updates[i]);
        }
        lemma_updates_keep_the_number(epochs, updates.drop_last());
        assert(updates[updates.len() - 1] == updates.last());
    }
}

/// What is set through the trackers of other epochs does not change the epoch
/// of a tracker.
pub proof fn law_trackers_do_not_disturb_each_other(
    epochs: Seq<u64>,
    tracker: EpochTracker,
    updates: Seq<(EpochTracker, EpochId)>,
)
    requires
        tracker.is_kept(epochs),
        forall|i: int|
            0 <= i < updates.len() ==> (#[trigger] updates[i]).0.cell() != tracker.cell()
                && updates[i].0.is_kept(epochs),
    ensures
        tracker.is_kept(after_updates(epochs, updates)),
        after_updates(epochs, updates)[tracker.cell()] == epochs[tracker.cell()],
    decreases updates.len(),
{
    lemma_updates_keep_the_number(epochs, updates);
    if updates.len() > 0 {
        let earlier = updates.drop_last();
        assert forall|i: int| 0 <= i < earlier.len() implies (#[trigger] earlier[i]).0.cell()
            != tracker.cell() && earlier[i].0.is_kept(epochs) by {
            assert(earlier[i] == updates[i]);
        }
        law_trackers_do_not_disturb_each_other(epochs, tracker, earlier);
        lemma_updates_keep_the_number(epochs, earlier);
        assert(updates[updates.len() - 1] == updates.last());
    }
}

/// What the epochs of a proxy changed.
pub struct ModifiedState {
    /// The last state of each object that an epoch changed, by epoch.
    pub modified: Map<u64, Map<ObjectID, Object>>,
    /// The highest epoch whose snapshot was taken.
    pub committed: u64,
}

/// The objects that an epoch changed.
pub open spec fn changed_in(
    modified: Map<u64, Map<ObjectID, Object>>,
    epoch: u64,
) -> Map<ObjectID, Object> {
    if modified.contains_key(epoch) {
        modified[epoch]
    } else {
        Map::empty()
    }
}

impl ModifiedState {
    /// The state once an object is recorded. What comes for an epoch before
    /// the highest one whose snapshot was taken is dropped.
    pub open spec fn recorded(self, epoch: u64, id: ObjectID, object: Object) -> Self {
        if epoch < self.committed {
            self
        } else {
            ModifiedState {
                modified: self.modified.insert(
                    epoch,
                    changed_in(self.modified, epoch).insert(id, object),
                ),
                ..self
            }
        }
    }

    /// The state once the snapshot of an epoch is taken.
    pub open spec fn taken(self, epoch: u64) -> Self {
        ModifiedState {
            modified: self.modified.remove(epoch),
            committed: if epoch > self.committed {
                epoch
            } else {
                self.committed
            },
        }
    }
}

/// Keeps what each epoch changes until its snapshot is taken.
pub struct ModifiedObjectTracker {
    modified: ConcurrentMap<u64, ConcurrentMap<ObjectID, Object>>,
    committed_up_to: u64,
}

impl View for ModifiedObjectTracker {
    type V = ModifiedState;

    closed spec fn view(&self) -> ModifiedState {
        ModifiedState {
            modified: self.modified@.map_values(
                |objects: ConcurrentMap<ObjectID, Object>| objects@,
            ),
            committed: self.committed_up_to,
        }
    }
}

impl ModifiedObjectTracker {
    /// Nothing is changed.
    pub fn new() -> (tracker: Self)
        ensures
            tracker@ =~= (ModifiedState { modified: Map::empty(), committed: 0 }),
    {
        let tracker = ModifiedObjectTracker { modified: ConcurrentMap::new(), committed_up_to: 0 };
        proof {
            assert(tracker@.modified =~= Map::<u64, Map<ObjectID, Object>>::empty());
        }
        tracker
    }

    /// Records the state of an object that an epoch changed, in place of an
    /// earlier one. What comes for an epoch before the highest one whose
    /// snapshot was taken is dropped.
    pub fn record_object(&mut self, epoch: EpochId, object_id: ObjectID, object: Object)
        ensures
            final(self)@ =~= old(self)@.recorded(epoch.0, object_id, object),
    {
        if epoch.0 < self.committed_up_to {
            return;
        }
        let ghost before = self@;
        let mut objects: ConcurrentMap<ObjectID, Object> = match self.modified.remove(&epoch.0) {
            Some(known) => known,
            None => ConcurrentMap::new(),
        };
        proof {
            assert(objects@ =~= changed_in(before.modified, epoch.0));
        }
        let _ = objects.insert(object_id, object);
        let _ = self.modified.insert(epoch.0, objects);
        proof {
            assert(self@.modified =~= before.recorded(epoch.0, object_id, object).modified);
        }
    }

    /// The snapshot of an epoch: the last state of each object that it
    /// changed. Afterwards nothing is kept for the epoch.
    pub fn take_epoch_snapshot(&mut self, epoch: EpochId) -> (snapshot: EpochObjectStates)
        ensures
            snapshot.wf(),
            snapshot@ =~= changed_in(old(self)@.modified, epoch.0),
            final(self)@ =~= old(self)@.taken(epoch.0),
    {
        let ghost before = self@;
        let mut snapshot: EpochObjectStates = OrderedMap::new();
        if epoch.0 > self.committed_up_to {
            self.committed_up_to = epoch.0;
        }
        match self.modified.remove(&epoch.0) {
            Some(objects) => {
                let ids: Vec<ObjectID> = objects.keys();
                let mut i: usize = 0;
                while i < ids.len()
                    invariant
                        i <= ids.len(),
                        snapshot.wf(),
                        ids@.no_duplicates(),
                        forall|id: ObjectID| ids@.contains(id) <==> objects@.contains_key(id),
                        forall|id: ObjectID| #[trigger]
                            snapshot@.contains_key(id) <==> ids@.take(i as int).contains(id),
                        forall|id: ObjectID| #[trigger]
                            snapshot@.contains_key(id) ==> snapshot@[id] == objects@[id],
                    decreases ids.len() - i,
                {
                    let id: ObjectID = ids[i];
                    proof {
                        assert(ids@.contains(id));
                        assert(objects@.contains_key(id));
                        crate::checkpoint::state_collector::lemma_take_contains(ids@, i as int);
                    }
                    if let Some(object) = objects.get(&id) {
                        snapshot.insert(id, object);
                    }
                    i = i + 1;
                }
                proof {
                    assert(ids@.take(i as int) =~= ids@);
                    assert(snapshot@ =~= objects@);
                }
            },
            None => {},
        }
        proof {
            assert(self@.modified =~= before.taken(epoch.0).modified);
        }
        snapshot
    }
}

/// What is recorded for an epoch comes back in its snapshot, once: a second
/// snapshot of the epoch is empty.
pub proof fn law_snapshot_returns_what_was_recorded(
    state: ModifiedState,
    epoch: u64,
    id: ObjectID,
    object: Object,
)
    requires
        epoch >= state.committed,
    ensures
        changed_in(state.recorded(epoch, id, object).modified, epoch)
            =~= changed_in(state.modified, epoch).insert(id, object),
        changed_in(state.taken(epoch).modified, epoch) =~= Map::<ObjectID, Object>::empty(),
{
}

/// Recording for one epoch, and taking its snapshot, leaves what other epochs
/// changed as it is.
pub proof fn law_epochs_are_kept_apart(
    state: ModifiedState,
    epoch: u64,
    other: u64,
    id: ObjectID,
    object: Object,
)
    requires
        epoch != other,
    ensures
        changed_in(state.recorded(epoch, id, object).modified, other) == changed_in(
            state.modified,
            other,
        ),
        changed_in(state.taken(epoch).modified, other) == changed_in(state.modified, other),
{
}

/// The transactions of an epoch on a proxy.
#[derive(Clone, Copy, Debug, PartialEq, Eq, Structural)]
pub struct EpochState {
    /// How many were received.
    pub received: usize,
    /// How many were completed.
    pub completed: usize,
    /// Whether no more will come.
    pub sealed: bool,
}

/// The transactions of an epoch as far as they are known.
pub open spec fn state_in(epochs: Map<u64, EpochState>, epoch: u64) -> EpochState {
    if epochs.contains_key(epoch) {
        epochs[epoch]
    } else {
        EpochState { received: 0, completed: 0, sealed: false }
    }
}

/// Whether an epoch is sealed and all that was received for it is completed.
pub open spec fn ready_in(epochs: Map<u64, EpochState>, epoch: u64) -> bool {
    let state = state_in(epochs, epoch);
    state.sealed && state.completed == state.received
}

/// The epochs once a transaction is received.
pub open spec fn with_received(epochs: Map<u64, EpochState>, epoch: u64) -> Map<u64, EpochState> {
    let state = state_in(epochs, epoch);
    epochs.insert(epoch, EpochState { received: (state.received + 1) as usize, ..state })
}

/// The epochs once a transaction is completed. One for an epoch that is not
/// known does not count.
pub open spec fn with_completed(epochs: Map<u64, EpochState>, epoch: u64) -> Map<u64, EpochState> {
    if epochs.contains_key(epoch) {
        epochs.insert(
            epoch,
            EpochState { completed: (epochs[epoch].completed + 1) as usize, ..epochs[epoch] },
        )
    } else {
        epochs
    }
}

/// The epochs once one of them is sealed.
pub open spec fn with_sealed(epochs: Map<u64, EpochState>, epoch: u64) -> Map<u64, EpochState> {
    epochs.insert(epoch, EpochState { sealed: true, ..state_in(epochs, epoch) })
}

/// The epochs once all up to one are forgotten.
pub open spec fn without_up_to(epochs: Map<u64, EpochState>, epoch: u64) -> Map<u64, EpochState> {
    epochs.restrict(Set::new(|e: u64| e > epoch))
}

/// The epochs once those before the first one that a proxy takes part in are
/// sealed without transactions, unless they are known.
pub open spec fn with_activation(
    epochs: Map<u64, EpochState>,
    first: u64,
) -> Map<u64, EpochState> {
    Map::new(
        |e: u64| epochs.contains_key(e) || 1 <= e < first,
        |e: u64|
            if epochs.contains_key(e) {
                epochs[e]
            } else {
                EpochState { received: 0, completed: 0, sealed: true }
            },
    )
}

/// Tracks which epochs are complete on a proxy.
pub struct EpochCompletionTracker {
    epoch_state: ConcurrentMap<u64, EpochState>,
}

impl View for EpochCompletionTracker {
    type V = Map<u64, EpochState>;

    closed spec fn view(&self) -> Map<u64, EpochState> {
        self.epoch_state@
    }
}

impl EpochCompletionTracker {
    /// No epoch is known.
    pub fn new() -> (tracker: Self)
        ensures
            tracker@ =~= Map::<u64, EpochState>::empty(),
    {
        EpochCompletionTracker { epoch_state: ConcurrentMap::new() }
    }

    /// Counts a transaction that was received for an epoch.
    pub fn record_received(&mut self, epoch: EpochId)
        requires
            state_in(old(self)@, epoch.0).received < usize::MAX,
        ensures
            final(self)@ =~= with_received(old(self)@, epoch.0),
    {
        let state: EpochState = match self.epoch_state.get(&epoch.0) {
            Some(known) => known,
            None => EpochState { received: 0, completed: 0, sealed: false },
        };
        let _ = self.epoch_state.insert(
            epoch.0,
            EpochState { received: state.received + 1, ..state },
        );
    }

    /// Counts a transaction that was completed for an epoch, and says whether
    /// this makes the epoch ready for its snapshot.
    pub fn record_completed(&mut self, epoch: EpochId) -> (ready: bool)
        requires
            state_in(old(self)@, epoch.0).completed < usize::MAX,
        ensures
            final(self)@ =~= with_completed(old(self)@, epoch.0),
            ready == (ready_in(final(self)@, epoch.0) && state_in(final(self)@, epoch.0).received
                > 0),
    {
        match self.epoch_state.get(&epoch.0) {
            Some(state) => {
                let completed: usize = state.completed + 1;
                let _ = self.epoch_state.insert(epoch.0, EpochState { completed, ..state });
                state.sealed && completed == state.received && state.received > 0
            },
            None => false,
        }
    }

    /// Seals an epoch, and says whether it is then ready for its snapshot. An
    /// epoch without transactions is.
    pub fn seal_epoch(&mut self, epoch: EpochId) -> (ready: bool)
        ensures
            final(self)@ =~= with_sealed(old(self)@, epoch.0),
            ready == ready_in(final(self)@, epoch.0),
    {
        match self.epoch_state.get(&epoch.0) {
            Some(state) => {
                let _ = self.epoch_state.insert(epoch.0, EpochState { sealed: true, ..state });
                state.completed == state.received
            },
            None => {
                let _ = self.epoch_state.insert(
                    epoch.0,
                    EpochState { received: 0, completed: 0, sealed: true },
                );
                true
            },
        }
    }

    /// Whether an epoch is ready for its snapshot.
    pub fn is_ready(&self, epoch: EpochId) -> (ready: bool)
        ensures
            ready == ready_in(self@, epoch.0),
    {
        match self.epoch_state.get(&epoch.0) {
            Some(state) => state.sealed && state.completed == state.received,
            None => false,
        }
    }

    /// Forgets all epochs up to one.
    pub fn cleanup_up_to(&mut self, epoch: EpochId)
        ensures
            final(self)@ =~= without_up_to(old(self)@, epoch.0),
    {
        let ghost before = self@;
        let known: Vec<u64> = self.epoch_state.keys();
        let mut i: usize = 0;
        while i < known.len()
            invariant
                i <= known.len(),
                forall|e: u64| known@.contains(e) <==> before.contains_key(e),
                forall|e: u64| #[trigger]
                    self@.contains_key(e) <==> before.contains_key(e) && !(known@.take(
                        i as int,
                    ).contains(e) && e <= epoch.0),
                forall|e: u64| #[trigger] self@.contains_key(e) ==> self@[e] == before[e],
            decreases known.len() - i,
        {
            proof {
                crate::checkpoint::state_collector::lemma_take_contains(known@, i as int);
            }
            let ghost earlier = self@;
            if known[i] <= epoch.0 {
                let _ = self.epoch_state.remove(&known[i]);
            }
            proof {
                assert forall|e: u64| #[trigger]
                    self@.contains_key(e) <==> before.contains_key(e) && !(known@.take(
                        i + 1,
                    ).contains(e) && e <= epoch.0) by {
                    assert(earlier.contains_key(e) <==> before.contains_key(e) && !(known@.take(
                        i as int,
                    ).contains(e) && e <= epoch.0));
                }
                assert forall|e: u64| #[trigger] self@.contains_key(e) implies self@[e]
                    == before[e] by {
                    assert(earlier.contains_key(e));
                }
            }
            i = i + 1;
        }
        proof {
            assert(known@.take(i as int) =~= known@);
            assert forall|e: u64| #[trigger] self@.contains_key(e) <==> without_up_to(
                before,
                epoch.0,
            ).contains_key(e) by {
                assert(known@.contains(e) <==> before.contains_key(e));
            }
            assert(self@ =~= without_up_to(before, epoch.0));
        }
    }

    /// Prepares for entering service with an epoch: the epochs before it are
    /// sealed without transactions, so that they do not hold the proxy up.
    pub fn initialize_for_activation(&mut self, first_active_epoch: EpochId)
        ensures
            final(self)@ =~= with_activation(old(self)@, first_active_epoch.0),
    {
        let ghost before = self@;
        let mut epoch: u64 = 1;
        while epoch < first_active_epoch.0
            invariant
                1 <= epoch,
                epoch <= first_active_epoch.0 || epoch == 1,
                self@ =~= with_activation(before, epoch),
            decreases first_active_epoch.0 - epoch,
        {
            if !self.epoch_state.contains_key(&epoch) {
                let _ = self.epoch_state.insert(
                    epoch,
                    EpochState { received: 0, completed: 0, sealed: true },
                );
            }
            epoch = epoch + 1;
        }
    }
}

/// Sealing and completing may come in either order: an epoch is ready after
/// both as soon as what was completed is what was received.
pub proof fn law_seal_and_completion_commute(epochs: Map<u64, EpochState>, epoch: u64)
    requires
        epochs.contains_key(epoch),
        epochs[epoch].completed < usize::MAX,
    ensures
        with_sealed(with_completed(epochs, epoch), epoch) =~= with_completed(
            with_sealed(epochs, epoch),
            epoch,
        ),
        ready_in(with_sealed(with_completed(epochs, epoch), epoch), epoch) <==> epochs[epoch].completed
            + 1 == epochs[epoch].received,
{
}

/// No epoch is ready before it is sealed, and what happens in one epoch does
/// not make another one ready.
pub proof fn law_only_sealed_epochs_are_ready(
    epochs: Map<u64, EpochState>,
    epoch: u64,
    other: u64,
)
    requires
        epoch != other,
    ensures
        ready_in(epochs, epoch) ==> state_in(epochs, epoch).sealed,
        ready_in(with_received(epochs, other), epoch) == ready_in(epochs, epoch),
        ready_in(with_completed(epochs, other), epoch) == ready_in(epochs, epoch),
        ready_in(with_sealed(epochs, other), epoch) == ready_in(epochs, epoch),
{
}

/// A proxy that enters service is not held up by the epochs before: those
/// that it does not know are ready.
pub proof fn law_activation_readies_earlier_epochs(
    epochs: Map<u64, EpochState>,
    first: u64,
    epoch: u64,
)
    requires
        1 <= epoch < first,
        !epochs.contains_key(epoch),
    ensures
        ready_in(with_activation(epochs, first), epoch),
{
}

/// An epoch that is forgotten is no longer ready; a later one stays as it is.
pub proof fn law_cleanup_keeps_later_epochs(
    epochs: Map<u64, EpochState>,
    up_to: u64,
    epoch: u64,
)
    ensures
        epoch <= up_to ==> !ready_in(without_up_to(epochs, up_to), epoch),
        epoch > up_to ==> state_in(without_up_to(epochs, up_to), epoch) == state_in(epochs, epoch),
{
}

/// A step of the transactions of a proxy.
pub enum EpochStep {
    /// A transaction of an epoch is received.
    Received { epoch: u64 },
    /// A transaction of an epoch is completed.
    Completed { epoch: u64 },
    /// An epoch is sealed.
    Sealed { epoch: u64 },
    /// The proxy enters service with an epoch.
    Activated { epoch: u64 },
}

/// The epochs after one step.
pub open spec fn stepped(epochs: Map<u64, EpochState>, step: EpochStep) -> Map<u64, EpochState> {
    match step {
        EpochStep::Received { epoch } => with_received(epochs, epoch),
        EpochStep::Completed { epoch } => with_completed(epochs, epoch),
        EpochStep::Sealed { epoch } => with_sealed(epochs, epoch),
        EpochStep::Activated { epoch } => with_activation(epochs, epoch),
    }
}

/// The epochs after a history of steps.
pub open spec fn after_steps(steps: Seq<EpochStep>) -> Map<u64, EpochState>
    decreases steps.len(),
{
    if steps.len() == 0 {
        Map::empty()
    } else {
        stepped(after_steps(steps.drop_last()), steps.last())
    }
}

/// Whether entering service with an epoch passes another one over.
pub open spec fn passes_over(step: EpochStep, epoch: u64) -> bool {
    step matches EpochStep::Activated { epoch: first } && 1 <= epoch < first
}

/// Whether a step makes an epoch known.
pub open spec fn makes_known(step: EpochStep, epoch: u64) -> bool {
    ||| step == EpochStep::Received { epoch }
    ||| step == EpochStep::Sealed { epoch }
    ||| passes_over(step, epoch)
}

/// Whether a history makes an epoch known.
pub open spec fn is_known(steps: Seq<EpochStep>, epoch: u64) -> bool {
    exists|i: int| 0 <= i < steps.len() && makes_known(#[trigger] steps[i], epoch)
}

/// Whether a history seals an epoch: it is sealed, or it is not known yet when
/// the proxy enters service with a later one.
pub open spec fn is_sealed(steps: Seq<EpochStep>, epoch: u64) -> bool {
    exists|i: int|
        0 <= i < steps.len() && {
            ||| #[trigger] steps[i] == EpochStep::Sealed { epoch }
            ||| passes_over(steps[i], epoch) && !is_known(steps.take(i), epoch)
        }
}

/// How many transactions of an epoch a history receives.
pub open spec fn receipts(steps: Seq<EpochStep>, epoch: u64) -> nat
    decreases steps.len(),
{
    if steps.len() == 0 {
        0
    } else {
        receipts(steps.drop_last(), epoch) + (if steps.last() == (EpochStep::Received { epoch }) {
            1nat
        } else {
            0nat
        })
    }
}

/// How many transactions of an epoch a history completes, from where the epoch
/// is known.
pub open spec fn completions(steps: Seq<EpochStep>, epoch: u64) -> nat
    decreases steps.len(),
{
    if steps.len() == 0 {
        0
    } else {
        completions(steps.drop_last(), epoch) + (if steps.last() == (EpochStep::Completed { epoch })
            && is_known(steps.drop_last(), epoch) {
            1nat
        } else {
            0nat
        })
    }
}

proof fn lemma_history_grows(steps: Seq<EpochStep>, epoch: u64)
    requires
        steps.len() > 0,
    ensures
        is_known(steps, epoch) <==> is_known(steps.drop_last(), epoch) || makes_known(
            steps.last(),
            epoch,
        ),
        is_sealed(steps, epoch) <==> is_sealed(steps.drop_last(), epoch) || steps.last()
            == (EpochStep::Sealed { epoch }) || (passes_over(steps.last(), epoch) && !is_known(
            steps.drop_last(),
            epoch,
        )),
{
    let earlier = steps.drop_last();
    let last = steps.len() - 1;
    assert(steps[last] == steps.last());
    assert(steps.take(last) =~= earlier);
    assert forall|i: int| 0 <= i < earlier.len() implies #[trigger] earlier.take(i) == steps.take(
        i,
    ) by {
        assert(earlier.take(i) =~= steps.take(i));
    }
    if is_known(earlier, epoch) {
        let i = choose|i: int| 0 <= i < earlier.len() && makes_known(#[trigger] earlier[i], epoch);
        assert(makes_known(steps[i], epoch));
    }
    if is_known(steps, epoch) && !makes_known(steps.last(), epoch) {
        let i = choose|i: int| 0 <= i < steps.len() && makes_known(#[trigger] steps[i], epoch);
        assert(makes_known(earlier[i], epoch));
    }
    if is_sealed(earlier, epoch) {
        let i = choose|i: int|
            0 <= i < earlier.len() && {
                ||| #[trigger] earlier[i] == EpochStep::Sealed { epoch }
                ||| passes_over(earlier[i], epoch) && !is_known(earlier.take(i), epoch)
            };
        assert(earlier.take(i) == steps.take(i));
        assert(steps[i] == earlier[i]);
    }
    if is_sealed(steps, epoch) {
        let i = choose|i: int|
            0 <= i < steps.len() && {
                ||| #[trigger] steps[i] == EpochStep::Sealed { epoch }
                ||| passes_over(steps[i], epoch) && !is_known(steps.take(i), epoch)
            };
        if i < last {
            assert(earlier.take(i) == steps.take(i));
            assert(steps[i] == earlier[i]);
        }
    }
}

/// After any history, an epoch has the transactions that were received for it
/// and those that were completed since it is known, and is sealed where the
/// history seals it. One that the history does not make known is not there.
pub proof fn law_counts_follow_the_history(steps: Seq<EpochStep>, epoch: u64)
    requires
        receipts(steps, epoch) <= usize::MAX,
        completions(steps, epoch) <= usize::MAX,
    ensures
        after_steps(steps).contains_key(epoch) <==> is_known(steps, epoch),
        state_in(after_steps(steps), epoch).received == receipts(steps, epoch),
        state_in(after_steps(steps), epoch).completed == completions(steps, epoch),
        state_in(after_steps(steps), epoch).sealed == is_sealed(steps, epoch),
    decreases steps.len(),
{
    if steps.len() > 0 {
        law_counts_follow_the_history(steps.drop_last(), epoch);
        lemma_history_grows(steps, epoch);
    }
}

/// After any history, an epoch is ready exactly where it is known, sealed, and
/// completed as often as received since it is known. So one that is sealed and
/// has no transaction is ready, and one that was never seen is not.
pub proof fn law_epochs_are_ready_when_sealed_and_complete(steps: Seq<EpochStep>, epoch: u64)
    requires
        receipts(steps, epoch) <= usize::MAX,
        completions(steps, epoch) <= usize::MAX,
    ensures
        ready_in(after_steps(steps), epoch) <==> {
            &&& is_known(steps, epoch)
            &&& is_sealed(steps, epoch)
            &&& completions(steps, epoch) == receipts(steps, epoch)
        },
        is_sealed(steps, epoch) && receipts(steps, epoch) == 0 && completions(steps, epoch) == 0
            ==> ready_in(after_steps(steps), epoch),
        !is_known(steps, epoch) ==> !ready_in(after_steps(steps), epoch),
{
    law_counts_follow_the_history(steps, epoch);
    lemma_sealed_is_known(steps, epoch);
}

proof fn lemma_sealed_is_known(steps: Seq<EpochStep>, epoch: u64)
    ensures
        is_sealed(steps, epoch) ==> is_known(steps, epoch),
{
    if is_sealed(steps, epoch) {
        let i = choose|i: int|
            0 <= i < steps.len() && {
                ||| #[trigger] steps[i] == EpochStep::Sealed { epoch }
                ||| passes_over(steps[i], epoch) && !is_known(steps.take(i), epoch)
            };
        assert(makes_known(steps[i], epoch));
    }
}

/// What an epoch changes is kept from the epoch on whose snapshot was taken
/// last, and dropped for earlier ones. It replaces what the epoch made of the
/// same object before, and nothing else.
pub proof fn law_changes_are_kept_for_open_epochs(
    state: ModifiedState,
    epoch: u64,
    id: ObjectID,
    object: Object,
    other_epoch: u64,
    other: ObjectID,
)
    ensures
        ({
            let after = state.recorded(epoch, id, object);
            &&& epoch < state.committed ==> after == state
            &&& epoch >= state.committed ==> after.modified.contains_key(epoch)
                && after.modified[epoch].contains_key(id) && after.modified[epoch][id] == object
            &&& other != id && state.modified.contains_key(epoch) ==> after.modified[epoch].get(
                other,
            ) == state.modified[epoch].get(other)
            &&& other != id && !state.modified.contains_key(epoch) && epoch >= state.committed
                ==> !after.modified[epoch].contains_key(other)
            &&& other_epoch != epoch ==> after.modified.get(other_epoch) == state.modified.get(
                other_epoch,
            )
            &&& after.committed == state.committed
        }),
{
}

/// Taking the snapshot of an epoch closes all epochs before it and forgets what
/// it changed; what others changed stays, and no epoch opens again.
pub proof fn law_snapshots_close_earlier_epochs(state: ModifiedState, epoch: u64, other: u64)
    requires
        other != epoch,
    ensures
        !state.taken(epoch).modified.contains_key(epoch),
        state.taken(epoch).modified.get(other) == state.modified.get(other),
        state.taken(epoch).committed >= epoch,
        state.taken(epoch).committed >= state.committed,
        state.taken(epoch).committed == epoch || state.taken(epoch).committed == state.committed,
{
}

/// A transaction that is received or completed counts once, for its epoch and
/// for no other; sealing an epoch changes no count.
pub proof fn law_transactions_count_once(
    epochs: Map<u64, EpochState>,
    epoch: u64,
    other: u64,
)
    requires
        other != epoch,
        state_in(epochs, epoch).received < usize::MAX,
        state_in(epochs, epoch).completed < usize::MAX,
    ensures
        with_received(epochs, epoch)[epoch].received == state_in(epochs, epoch).received + 1,
        with_received(epochs, epoch)[epoch].completed == state_in(epochs, epoch).completed,
        with_received(epochs, epoch)[epoch].sealed == state_in(epochs, epoch).sealed,
        with_received(epochs, epoch).get(other) == epochs.get(other),
        epochs.contains_key(epoch) ==> with_completed(epochs, epoch)[epoch].completed
            == epochs[epoch].completed + 1 && with_completed(epochs, epoch)[epoch].received
            == epochs[epoch].received && with_completed(epochs, epoch)[epoch].sealed
            == epochs[epoch].sealed,
        !epochs.contains_key(epoch) ==> with_completed(epochs, epoch) == epochs,
        with_completed(epochs, epoch).get(other) == epochs.get(other),
        with_sealed(epochs, epoch)[epoch].sealed,
        with_sealed(epochs, epoch)[epoch].received == state_in(epochs, epoch).received,
        with_sealed(epochs, epoch)[epoch].completed == state_in(epochs, epoch).completed,
        with_sealed(epochs, epoch).get(other) == epochs.get(other),
{
}

/// An unknown epoch has received and completed nothing and is not sealed, so it
/// is not ready; a known one is ready where it is sealed and has completed all
/// that it received.
pub proof fn law_epochs_are_ready_once_done(epochs: Map<u64, EpochState>, epoch: u64)
    ensures
        !epochs.contains_key(epoch) ==> !ready_in(epochs, epoch) && state_in(
            epochs,
            epoch,
        ).received == 0 && state_in(epochs, epoch).completed == 0,
        epochs.contains_key(epoch) ==> (ready_in(epochs, epoch) <==> epochs[epoch].sealed
            && epochs[epoch].received == epochs[epoch].completed),
{
}

/// Entering service with an epoch leaves known epochs and all from that one on
/// as they are; earlier ones are sealed without a transaction.
pub proof fn law_activation_passes_over_earlier_epochs(
    epochs: Map<u64, EpochState>,
    first: u64,
    epoch: u64,
)
    ensures
        epochs.contains_key(epoch) || epoch >= first || epoch == 0 ==> with_activation(
            epochs,
            first,
        ).get(epoch) == epochs.get(epoch),
        !epochs.contains_key(epoch) && 1 <= epoch < first ==> with_activation(
            epochs,
            first,
        ).contains_key(epoch) && with_activation(epochs, first)[epoch] == (EpochState {
            received: 0,
            completed: 0,
            sealed: true,
        }),
{
}

/// Forgetting epochs up to one keeps all later ones, and only those.
pub proof fn law_forgetting_keeps_later_epochs_only(
    epochs: Map<u64, EpochState>,
    last: u64,
    epoch: u64,
)
    ensures
        epoch > last ==> without_up_to(epochs, last).get(epoch) == epochs.get(epoch),
        epoch <= last ==> !without_up_to(epochs, last).contains_key(epoch),
{
}

} // verus!
