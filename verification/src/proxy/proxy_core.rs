//! What a proxy does with the messages of the primary and of other proxies.
//!
//! Sending, waiting and executing happen elsewhere; here is decided what is
//! to be done, and in which order.
use std::sync::Arc;

use tokio::sync::oneshot;
use vstd::prelude::*;

use crate::base_types::{Object, ObjectID, ProxyId, StateKey, TransactionDigest};
use crate::config::SeparationMode;
use crate::duration::Duration;
use crate::executor::api::{
    InterProxyReply, InterProxyRequest, NewStates, PrimaryToProxyMessage, ProxyToProxyMessage,
    RequiredStates, StateStore, TransactionWithTimestamp,
};
use crate::executor::oneshot_dependency_controller::{OneshotDependencyController, TaskHandle};
use crate::ordered_map::OrderedMap;
use crate::recovery::keys_of;

verus! {

/// What a message of the primary asks for: a check, an execution, or a check
/// and then an execution.
pub struct PrimaryWork {
    /// The transaction to check, and how long that takes.
    pub check: Option<(TransactionDigest, Duration)>,
    /// The transaction to execute, the proxy that checks it, and the states
    /// that it needs.
    pub execution: Option<(Arc<TransactionWithTimestamp>, ProxyId, RequiredStates)>,
}

/// Whether a mode expects a message: checks and executions apart where the
/// primary separates them, both in one where it does not.
pub open spec fn expects(mode: SeparationMode, message: PrimaryToProxyMessage) -> bool {
    if mode.separates_on_primary() {
        message is StatelessTxn || message is Txn
    } else {
        message is CombinedTxn
    }
}

/// Whether this is the work that a message asks for.
pub open spec fn is_work(
    work: PrimaryWork,
    mode: SeparationMode,
    message: PrimaryToProxyMessage,
) -> bool {
    match message {
        PrimaryToProxyMessage::StatelessTxn(_, txn) => {
            &&& work.check == Some((txn.digest, txn.verification_duration))
            &&& work.execution is None
        },
        PrimaryToProxyMessage::Txn(_, txn, checker, required) => {
            &&& work.check is None
            &&& work.execution == Some((txn, checker, required))
        },
        PrimaryToProxyMessage::CombinedTxn(_, txn, checker, required) => {
            &&& work.check == (if mode.separates() {
                Some((txn.digest, txn.verification_duration))
            } else {
                None
            })
            &&& work.execution == Some((txn, checker, required))
        },
        _ => false,
    }
}

/// The requests for states that other proxies have, in the order of the states.
pub open spec fn state_requests(
    id: ProxyId,
    required: Seq<(StateKey, Option<ProxyId>)>,
) -> Seq<(ProxyId, StateKey)>
    decreases required.len(),
{
    if required.len() == 0 {
        Seq::empty()
    } else {
        let rest = state_requests(id, required.drop_last());
        match required.last().1 {
            Some(owner) => rest.push((owner, required.last().0)),
            None => rest,
        }
    }
}

/// Whether a request to a proxy is for one state.
pub open spec fn asks_for(
    sent: (ProxyId, InterProxyRequest),
    id: ProxyId,
    asked: (ProxyId, StateKey),
) -> bool {
    &&& sent.0 == asked.0
    &&& sent.1 matches InterProxyRequest::Stateful(from, keys) && from == id && keys@ =~= seq![
        asked.1,
    ]
}

/// Handles the messages of the primary.
pub struct PrimaryMessageProcessor {
    /// This proxy.
    pub id: ProxyId,
    /// Where checking is separated from executing.
    pub mode: SeparationMode,
}

impl PrimaryMessageProcessor {
    /// What a message asks for.
    pub fn handle_primary_message(&self, message: PrimaryToProxyMessage) -> (work: PrimaryWork)
        requires
            expects(self.mode, message),
        ensures
            is_work(work, self.mode, message),
    {
        match message {
            PrimaryToProxyMessage::StatelessTxn(_, txn) => PrimaryWork {
                check: Some((txn.digest, txn.verification_duration)),
                execution: None,
            },
            PrimaryToProxyMessage::Txn(_, txn, checker, required) => PrimaryWork {
                check: None,
                execution: Some((txn, checker, required)),
            },
            PrimaryToProxyMessage::CombinedTxn(_, txn, checker, required) => {
                let check: Option<(TransactionDigest, Duration)> =
                    if self.mode.is_proxy_separation() {
                    Some((txn.digest, txn.verification_duration))
                } else {
                    None
                };
                PrimaryWork { check, execution: Some((txn, checker, required)) }
            },
            _ => PrimaryWork { check: None, execution: None },
        }
    }

    /// Where the outcome of a check that starts here is to be announced.
    pub fn process_stateless_transaction(
        &self,
        controller: &mut OneshotDependencyController,
        digest: TransactionDigest,
    ) -> (sender: oneshot::Sender<bool>)
        ensures
            exists|receiver: oneshot::Receiver<bool>|
                #[trigger] crate::executor::oneshot_dependency_controller::paired(sender, receiver)
                    && final(controller)@ == old(controller)@.insert(
                    digest,
                    TaskHandle { receiver: Some(receiver), sender: None },
                ),
    {
        controller.set_local_dependency(digest)
    }

    /// Where the outcome of the check of a transaction will arrive, and what
    /// to ask which proxy for it.
    ///
    /// Nothing arrives where checks are not separated. A check on this proxy
    /// is under way already; one on another proxy is asked for.
    pub fn process_stateful_transaction(
        &self,
        controller: &mut OneshotDependencyController,
        digest: TransactionDigest,
        checker: ProxyId,
    ) -> (outcome: (Option<oneshot::Receiver<bool>>, Option<(ProxyId, InterProxyRequest)>))
        ensures
            !self.mode.separates() ==> {
                &&& outcome.0 is None
                &&& outcome.1 is None
                &&& final(controller)@ == old(controller)@
            },
            self.mode.separates() && checker == self.id ==> {
                &&& outcome.0 == (if old(controller)@.contains_key(digest) {
                    old(controller)@[digest].receiver
                } else {
                    None
                })
                &&& outcome.1 is None
                &&& final(controller)@
                    =~= crate::executor::oneshot_dependency_controller::receiver_taken(
                    old(controller)@,
                    digest,
                )
            },
            self.mode.separates() && checker != self.id ==> {
                &&& outcome.0 is Some
                &&& outcome.1 == Some((checker, InterProxyRequest::Stateless(self.id, digest)))
                &&& exists|sender: oneshot::Sender<bool>|
                    #[trigger] crate::executor::oneshot_dependency_controller::paired(
                        sender,
                        outcome.0->0,
                    ) && final(controller)@ == old(controller)@.insert(
                        digest,
                        TaskHandle { receiver: None, sender: Some(sender) },
                    )
            },
    {
        if !self.mode.is_proxy_separation() {
            return (None, None);
        }
        if checker == self.id {
            (controller.get_dependency(&digest), None)
        } else {
            let receiver: oneshot::Receiver<bool> = controller.set_remote_dependency(digest);
            let ghost asked = receiver;
            let outcome = (
                Some(receiver),
                Some((checker, InterProxyRequest::Stateless(self.id, digest))),
            );
            proof {
                assert(outcome.0->0 == asked);
            }
            outcome
        }
    }

    /// The requests for the states of a transaction that other proxies have,
    /// one for each state and in the order of the states.
    pub fn schedule_stateful_transaction(&self, required: &RequiredStates) -> (requests: Vec<
        (ProxyId, InterProxyRequest),
    >)
        requires
            required.wf(),
            forall|i: int|
                0 <= i < required.sorted().len() ==> (#[trigger] required.sorted()[i]).1 != Some(
                    self.id,
                ),
        ensures
            ({
                let asked = state_requests(self.id, required.sorted());
                &&& requests@.len() == asked.len()
                &&& forall|i: int|
                    0 <= i < asked.len() ==> asks_for(
                        #[trigger] requests@[i],
                        self.id,
                        asked[i],
                    )
            }),
    {
        let mut requests: Vec<(ProxyId, InterProxyRequest)> = Vec::new();
        let ghost entries = required.sorted();
        let mut i: usize = 0;
        while i < required.len()
            invariant
                i <= entries.len(),
                entries == required.sorted(),
                requests@.len() == state_requests(self.id, entries.take(i as int)).len(),
                forall|k: int|
                    0 <= k < requests@.len() ==> asks_for(
                        #[trigger] requests@[k],
                        self.id,
                        state_requests(self.id, entries.take(i as int))[k],
                    ),
            decreases entries.len() - i,
        {
            proof {
                assert(entries.take(i + 1).drop_last() =~= entries.take(i as int));
            }
            let entry: &(StateKey, Option<ProxyId>) = required.entry_at(i);
            if let Some(owner) = entry.1 {
                let mut keys: Vec<StateKey> = Vec::new();
                keys.push(entry.0);
                requests.push((owner, InterProxyRequest::Stateful(self.id, keys)));
            }
            i = i + 1;
        }
        proof {
            assert(entries.take(i as int) =~= entries);
        }
        requests
    }

    /// The states whose order of use matters for a transaction.
    pub fn get_dependencies(required: &RequiredStates) -> (keys: Vec<StateKey>)
        ensures
            keys@ =~= crate::recovery::required_keys(*required),
    {
        keys_of(required)
    }
}

/// Where the execution of a transaction stands.
#[derive(Clone, Copy, Debug, PartialEq, Eq, Structural)]
pub enum Stage {
    /// Nothing is done yet.
    Created,
    /// The versions of its shared objects are being assigned.
    Assigning,
    /// Its place among the transactions on the same states is being taken.
    Enlisting,
    /// The outcome of its check is awaited.
    AwaitingCheck,
    /// The transactions before it are awaited.
    AwaitingPriors,
    /// The versions in the store are being compared.
    Comparing,
    /// It is being checked.
    Checking,
    /// It is being executed.
    Executing,
    /// Its result is being passed on.
    Reporting,
    /// All is done.
    Finished,
}

/// What is to be done next for a transaction.
#[derive(Clone, Copy, Debug, PartialEq, Eq, Structural)]
pub enum Step {
    /// Assign the required versions to the shared objects.
    AssignVersions,
    /// Take a place among the transactions on the same states.
    Enlist,
    /// Wait for the outcome of the check, then forget it.
    AwaitCheck,
    /// Wait for the transactions before it, then give up the place.
    AwaitPriors,
    /// Compare the required versions with those in the store.
    CompareVersions,
    /// Check the transaction.
    Check,
    /// Execute the transaction.
    Execute,
    /// Wake the transactions after it and report the result of executing it.
    ReportResult,
    /// Wake the transactions after it and report that it was skipped.
    ReportSkipped,
    /// Nothing: all is done.
    Rest,
}

/// What decides on the course of a transaction.
#[derive(Clone, Copy, Debug, PartialEq, Eq, Structural)]
pub struct Course {
    /// Whether it needs states.
    pub has_states: bool,
    /// Whether the outcome of its check arrives from elsewhere.
    pub awaits_check: bool,
    /// Whether it uses shared objects.
    pub has_shared_inputs: bool,
    /// Whether checks are separated from execution.
    pub separated: bool,
}

impl Course {
    /// What comes next once a stage is over, and the stage that it begins.
    /// Where versions were compared, `ready` says whether they match.
    pub open spec fn after(self, stage: Stage, ready: bool) -> (Stage, Step) {
        match stage {
            Stage::Created => if self.has_states {
                (Stage::Assigning, Step::AssignVersions)
            } else {
                self.after_enlisting()
            },
            Stage::Assigning => (Stage::Enlisting, Step::Enlist),
            Stage::Enlisting => self.after_enlisting(),
            Stage::AwaitingCheck => (Stage::AwaitingPriors, Step::AwaitPriors),
            Stage::AwaitingPriors => if self.has_shared_inputs {
                (Stage::Comparing, Step::CompareVersions)
            } else {
                self.after_comparing(true)
            },
            Stage::Comparing => self.after_comparing(ready),
            Stage::Checking => (Stage::Executing, Step::Execute),
            Stage::Executing => (Stage::Reporting, Step::ReportResult),
            Stage::Reporting => (Stage::Finished, Step::Rest),
            Stage::Finished => (Stage::Finished, Step::Rest),
        }
    }

    /// What comes once the place among the transactions is taken.
    pub open spec fn after_enlisting(self) -> (Stage, Step) {
        if self.awaits_check {
            (Stage::AwaitingCheck, Step::AwaitCheck)
        } else {
            (Stage::AwaitingPriors, Step::AwaitPriors)
        }
    }

    /// What comes once the versions are compared.
    pub open spec fn after_comparing(self, ready: bool) -> (Stage, Step) {
        if !ready {
            (Stage::Reporting, Step::ReportSkipped)
        } else if self.separated {
            (Stage::Executing, Step::Execute)
        } else {
            (Stage::Checking, Step::Check)
        }
    }

    /// The steps from a stage on, for an outcome of comparing versions.
    pub open spec fn steps_from(self, stage: Stage, ready: bool, limit: nat) -> Seq<Step>
        decreases limit,
    {
        if limit == 0 || stage is Finished || stage is Reporting {
            Seq::empty()
        } else {
            let (next, step) = self.after(stage, ready);
            seq![step] + self.steps_from(next, ready, (limit - 1) as nat)
        }
    }

    /// The steps that a transaction takes.
    pub open spec fn whole(self, ready: bool) -> Seq<Step> {
        let prepared = (if self.has_states {
            seq![Step::AssignVersions, Step::Enlist]
        } else {
            Seq::empty()
        }) + (if self.awaits_check {
            seq![Step::AwaitCheck]
        } else {
            Seq::empty()
        }) + seq![Step::AwaitPriors] + (if self.has_shared_inputs {
            seq![Step::CompareVersions]
        } else {
            Seq::empty()
        });
        prepared + (if self.has_shared_inputs && !ready {
            seq![Step::ReportSkipped]
        } else if self.separated {
            seq![Step::Execute, Step::ReportResult]
        } else {
            seq![Step::Check, Step::Execute, Step::ReportResult]
        })
    }
}

/// A transaction on its way through execution.
pub struct StatefulTask {
    course: Course,
    stage: Stage,
}

impl StatefulTask {
    /// What decides on the course of the transaction.
    pub closed spec fn spec_course(&self) -> Course {
        self.course
    }

    /// Where the transaction stands.
    pub closed spec fn spec_stage(&self) -> Stage {
        self.stage
    }

    /// A transaction at its start.
    pub fn spawn_stateful_txn(
        transaction: &TransactionWithTimestamp,
        required: &RequiredStates,
        awaits_check: bool,
        mode: SeparationMode,
    ) -> (task: Self)
        ensures
            task.spec_stage() is Created,
            task.spec_course() == (Course {
                has_states: required.sorted().len() > 0,
                awaits_check,
                has_shared_inputs: exists|i: int|
                    0 <= i < transaction.inputs@.len()
                        && #[trigger] transaction.inputs@[i] is SharedMoveObject,
                separated: mode.separates(),
            }),
    {
        let mut has_shared_inputs: bool = false;
        let mut i: usize = 0;
        while i < transaction.inputs.len()
            invariant
                i <= transaction.inputs.len(),
                has_shared_inputs == exists|k: int|
                    0 <= k < i && #[trigger] transaction.inputs@[k] is SharedMoveObject,
            decreases transaction.inputs.len() - i,
        {
            if transaction.inputs[i].is_shared() {
                assert(transaction.inputs@[i as int] is SharedMoveObject);
                has_shared_inputs = true;
            }
            i = i + 1;
        }
        StatefulTask {
            course: Course {
                has_states: required.len() > 0,
                awaits_check,
                has_shared_inputs,
                separated: mode.is_proxy_separation(),
            },
            stage: Stage::Created,
        }
    }

    /// What to do next, once what was to be done is done. Where versions were
    /// compared, `ready` says whether they match; elsewhere it says nothing.
    pub fn next(&mut self, ready: bool) -> (step: Step)
        ensures
            final(self).spec_course() == old(self).spec_course(),
            (final(self).spec_stage(), step) == old(self).spec_course().after(
                old(self).spec_stage(),
                ready,
            ),
    {
        let (stage, step) = match self.stage {
            Stage::Created => {
                if self.course.has_states {
                    (Stage::Assigning, Step::AssignVersions)
                } else {
                    self.once_enlisted()
                }
            },
            Stage::Assigning => (Stage::Enlisting, Step::Enlist),
            Stage::Enlisting => self.once_enlisted(),
            Stage::AwaitingCheck => (Stage::AwaitingPriors, Step::AwaitPriors),
            Stage::AwaitingPriors => {
                if self.course.has_shared_inputs {
                    (Stage::Comparing, Step::CompareVersions)
                } else {
                    self.once_compared(true)
                }
            },
            Stage::Comparing => self.once_compared(ready),
            Stage::Checking => (Stage::Executing, Step::Execute),
            Stage::Executing => (Stage::Reporting, Step::ReportResult),
            Stage::Reporting => (Stage::Finished, Step::Rest),
            Stage::Finished => (Stage::Finished, Step::Rest),
        };
        self.stage = stage;
        step
    }

    fn once_enlisted(&self) -> (next: (Stage, Step))
        ensures
            next == self.course.after_enlisting(),
    {
        if self.course.awaits_check {
            (Stage::AwaitingCheck, Step::AwaitCheck)
        } else {
            (Stage::AwaitingPriors, Step::AwaitPriors)
        }
    }

    fn once_compared(&self, ready: bool) -> (next: (Stage, Step))
        ensures
            next == self.course.after_comparing(ready),
    {
        if !ready {
            (Stage::Reporting, Step::ReportSkipped)
        } else if self.course.separated {
            (Stage::Executing, Step::Execute)
        } else {
            (Stage::Checking, Step::Check)
        }
    }
}

/// A transaction takes its steps in this order: versions, place, check,
/// predecessors, comparison, then either execution or none, then its report.
pub proof fn law_transactions_take_their_course(course: Course, ready: bool)
    ensures
        course.steps_from(Stage::Created, ready, 10) =~= course.whole(ready),
{
    reveal_with_fuel(Course::steps_from, 11);
}

/// A transaction is executed if and only if it uses no shared object or the
/// versions match, and it is checked exactly where checks are not separated.
pub proof fn law_execution_follows_the_comparison(course: Course, ready: bool)
    ensures
        course.whole(ready).contains(Step::Execute) <==> !course.has_shared_inputs || ready,
        course.whole(ready).contains(Step::ReportSkipped) <==> course.has_shared_inputs && !ready,
        course.whole(ready).contains(Step::Check) <==> !course.separated && (
        !course.has_shared_inputs || ready),
{
    let steps = course.whole(ready);
    let n = steps.len() as int;
    if course.has_shared_inputs && !ready {
        assert(steps[n - 1] == Step::ReportSkipped);
    } else {
        assert(steps[n - 2] == Step::Execute);
        if !course.separated {
            assert(steps[n - 3] == Step::Check);
        }
    }
}

/// What a message of another proxy asks for.
pub enum ProxyWork {
    /// Send states to a proxy.
    SendStates(ProxyId, Vec<StateKey>),
    /// Send the outcome of a check to a proxy.
    SendOutcome(ProxyId, TransactionDigest),
    /// Take over states.
    TakeStates(NewStates),
    /// Take note of the outcome of a check.
    TakeOutcome(TransactionDigest, bool),
    /// Nothing: outcomes of checks are not to be had here.
    Refuse,
}

/// Handles the messages of other proxies.
pub struct ProxyMessageProcessor {
    /// This proxy.
    pub id: ProxyId,
    /// Where checking is separated from executing.
    pub mode: SeparationMode,
}

/// The objects of a store that are at the requested versions.
pub open spec fn states_served(
    store: Map<ObjectID, Object>,
    requested: Seq<StateKey>,
) -> Map<ObjectID, Object>
    decreases requested.len(),
{
    if requested.len() == 0 {
        Map::empty()
    } else {
        let (id, version) = requested.last();
        let rest = states_served(store, requested.drop_last());
        if store.contains_key(id) && store[id].version == version {
            rest.insert(id, store[id])
        } else {
            rest
        }
    }
}

/// The states that come before arriving ones: the same objects at the
/// versions just below.
pub open spec fn states_before(arriving: Seq<(ObjectID, Object)>) -> Seq<StateKey> {
    arriving.map_values(
        |entry: (ObjectID, Object)| (entry.0, (entry.1.version - 1) as u64),
    )
}

impl ProxyMessageProcessor {
    /// What a message asks for. The outcome of a check is refused where checks
    /// are not separated.
    pub fn handle_proxy_message(&self, message: ProxyToProxyMessage) -> (work: ProxyWork)
        ensures
            work == (match message {
                ProxyToProxyMessage::Request(InterProxyRequest::Stateful(proxy, keys)) =>
                    ProxyWork::SendStates(proxy, keys),
                ProxyToProxyMessage::Request(InterProxyRequest::Stateless(proxy, digest)) =>
                    if self.mode.separates() {
                    ProxyWork::SendOutcome(proxy, digest)
                } else {
                    ProxyWork::Refuse
                },
                ProxyToProxyMessage::Reply(InterProxyReply::Stateful(states)) =>
                    ProxyWork::TakeStates(states),
                ProxyToProxyMessage::Reply(InterProxyReply::Stateless(digest, valid)) =>
                    ProxyWork::TakeOutcome(digest, valid),
            }),
    {
        match message {
            ProxyToProxyMessage::Request(request) => match request {
                InterProxyRequest::Stateful(proxy, keys) => ProxyWork::SendStates(proxy, keys),
                InterProxyRequest::Stateless(proxy, digest) => {
                    if self.mode == SeparationMode::NoSeparation {
                        ProxyWork::Refuse
                    } else {
                        ProxyWork::SendOutcome(proxy, digest)
                    }
                },
            },
            ProxyToProxyMessage::Reply(reply) => match reply {
                InterProxyReply::Stateful(states) => ProxyWork::TakeStates(states),
                InterProxyReply::Stateless(digest, valid) => ProxyWork::TakeOutcome(digest, valid),
            },
        }
    }

    /// Takes over states: they are written to the store, and whoever waits for
    /// them is to be woken as after a transaction on the states before them,
    /// which come back.
    pub fn handle_stateful_reply<S: StateStore>(
        store: &mut S,
        objects: &NewStates,
    ) -> (before: Vec<StateKey>)
        requires
            old(store).valid(),
            objects.wf(),
            forall|i: int|
                0 <= i < objects.sorted().len() ==> (#[trigger] objects.sorted()[i]).1.version > 0,
        ensures
            final(store).valid(),
            final(store).contents() =~= old(store).contents().union_prefer_right(objects@),
            before@ =~= states_before(objects.sorted()),
    {
        let mut before: Vec<StateKey> = Vec::new();
        let mut i: usize = 0;
        while i < objects.len()
            invariant
                i <= objects.sorted().len(),
                forall|k: int|
                    0 <= k < objects.sorted().len() ==> (
                    #[trigger] objects.sorted()[k]).1.version > 0,
                before@ =~= states_before(objects.sorted().take(i as int)),
            decreases objects.sorted().len() - i,
        {
            let entry: &(ObjectID, Object) = objects.entry_at(i);
            assert(objects.sorted()[i as int].1.version > 0);
            before.push((entry.0, entry.1.version - 1));
            i = i + 1;
        }
        proof {
            assert(objects.sorted().take(i as int) =~= objects.sorted());
        }
        store.commit(objects);
        before
    }

    /// Takes note of the outcome of a check: where somebody waits for it, here
    /// is where to announce it. Afterwards nothing is kept for the transaction.
    pub fn handle_stateless_reply(
        controller: &mut OneshotDependencyController,
        digest: &TransactionDigest,
    ) -> (sender: Option<oneshot::Sender<bool>>)
        ensures
            final(controller)@ =~= old(controller)@.remove(*digest),
            sender == (if old(controller)@.contains_key(*digest) {
                old(controller)@[*digest].sender
            } else {
                None
            }),
    {
        let sender: Option<oneshot::Sender<bool>> = controller.take_signal(digest);
        let _ = controller.remove_dependency(digest);
        sender
    }

    /// The states to send for a request: the requested objects that are at the
    /// requested versions.
    pub fn handle_stateful_request<S: StateStore>(
        store: &S,
        requested: &Vec<StateKey>,
    ) -> (objects: NewStates)
        requires
            store.valid(),
        ensures
            objects.wf(),
            objects@ =~= states_served(store.contents(), requested@),
    {
        let mut objects: NewStates = OrderedMap::new();
        let mut i: usize = 0;
        while i < requested.len()
            invariant
                i <= requested.len(),
                store.valid(),
                objects.wf(),
                objects@ =~= states_served(store.contents(), requested@.take(i as int)),
            decreases requested.len() - i,
        {
            proof {
                assert(requested@.take(i + 1).drop_last() =~= requested@.take(i as int));
            }
            let (id, version) = requested[i];
            if let Some(object) = store.read(&id) {
                if object.version == version {
                    objects.insert(id, object);
                }
            }
            i = i + 1;
        }
        proof {
            assert(requested@.take(i as int) =~= requested@);
        }
        objects
    }

    /// Where the outcome of a check that was asked for will arrive, if the
    /// check has started here.
    pub fn handle_stateless_request(
        controller: &mut OneshotDependencyController,
        digest: &TransactionDigest,
    ) -> (receiver: Option<oneshot::Receiver<bool>>)
        ensures
            receiver == (if old(controller)@.contains_key(*digest) {
                old(controller)@[*digest].receiver
            } else {
                None
            }),
            final(controller)@
                =~= crate::executor::oneshot_dependency_controller::receiver_taken(
                old(controller)@,
                *digest,
            ),
    {
        controller.get_dependency(digest)
    }
}

/// A proxy that asks for a state gets the object at exactly the version that
/// it asked for, or it does not get the object.
pub proof fn law_states_come_at_requested_versions(
    store: Map<ObjectID, Object>,
    requested: Seq<StateKey>,
    id: ObjectID,
)
    requires
        states_served(store, requested).contains_key(id),
    ensures
        store.contains_key(id),
        states_served(store, requested)[id] == store[id],
        requested.contains((id, store[id].version)),
    decreases requested.len(),
{
    if requested.len() > 0 {
        let rest = requested.drop_last();
        let (last, version) = requested.last();
        if store.contains_key(last) && store[last].version == version && last == id {
            assert(requested[requested.len() - 1] == (id, store[id].version));
        } else {
            law_states_come_at_requested_versions(store, rest, id);
            let k = choose|k: int| 0 <= k < rest.len() && rest[k] == (id, store[id].version);
            assert(requested[k] == rest[k]);
        }
    }
}

/// Every requested state that is in the store is sent.
pub proof fn law_available_states_are_sent(
    store: Map<ObjectID, Object>,
    requested: Seq<StateKey>,
    i: int,
)
    requires
        0 <= i < requested.len(),
        store.contains_key(requested[i].0),
        store[requested[i].0].version == requested[i].1,
    ensures
        states_served(store, requested).contains_key(requested[i].0),
        states_served(store, requested)[requested[i].0] == store[requested[i].0],
    decreases requested.len(),
{
    let rest = requested.drop_last();
    if i < rest.len() {
        law_available_states_are_sent(store, rest, i);
    }
}

proof fn lemma_state_requests(id: ProxyId, required: Seq<(StateKey, Option<ProxyId>)>)
    ensures
        state_requests(id, required).len() == crate::counting::places(
            required.len() as int,
            |i: int| required[i].1 is Some,
        ).len(),
        forall|owner: ProxyId, key: StateKey| #[trigger]
            state_requests(id, required).contains((owner, key)) <==> required.contains(
                (key, Some(owner)),
            ),
    decreases required.len(),
{
    let holds = |i: int| required[i].1 is Some;
    crate::counting::lemma_places(required.len() as int, holds);
    if required.len() > 0 {
        let rest = required.drop_last();
        lemma_state_requests(id, rest);
        crate::counting::lemma_same_places(rest.len() as int, |i: int| rest[i].1 is Some, holds);
        let before = state_requests(id, rest);
        let after = state_requests(id, required);
        assert forall|owner: ProxyId, key: StateKey| #[trigger]
            after.contains((owner, key)) <==> required.contains((key, Some(owner))) by {
            assert(before.contains((owner, key)) <==> rest.contains((key, Some(owner))));
            if before.contains((owner, key)) {
                let k = choose|k: int| 0 <= k < before.len() && before[k] == (owner, key);
                assert(after[k] == (owner, key));
            }
            if rest.contains((key, Some(owner))) {
                let k = choose|k: int| 0 <= k < rest.len() && rest[k] == (key, Some(owner));
                assert(required[k] == (key, Some(owner)));
            }
            if required.contains((key, Some(owner))) && !rest.contains((key, Some(owner))) {
                let k = choose|k: int|
                    0 <= k < required.len() && required[k] == (key, Some(owner));
                if k < rest.len() {
                    assert(rest[k] == required[k]);
                }
                assert(after[before.len() as int] == (owner, key));
            }
            if after.contains((owner, key)) && !before.contains((owner, key)) {
                let k = choose|k: int| 0 <= k < after.len() && after[k] == (owner, key);
                if k < before.len() {
                    assert(before[k] == after[k]);
                }
                assert(required[required.len() - 1] == (key, Some(owner)));
            }
        }
    }
}

/// Every state that another proxy has is asked for: for each required state
/// that names a proxy there is a request to that proxy for exactly that state,
/// on behalf of this proxy, and there are as many requests as such states.
pub proof fn law_every_state_is_asked_for(
    id: ProxyId,
    required: Seq<(StateKey, Option<ProxyId>)>,
    requests: Seq<(ProxyId, InterProxyRequest)>,
)
    requires
        requests.len() == state_requests(id, required).len(),
        forall|k: int|
            0 <= k < requests.len() ==> asks_for(
                #[trigger] requests[k],
                id,
                state_requests(id, required)[k],
            ),
    ensures
        requests.len() == crate::counting::places(
            required.len() as int,
            |i: int| required[i].1 is Some,
        ).len(),
        forall|i: int|
            0 <= i < required.len() && (#[trigger] required[i]).1 is Some ==> exists|k: int|
                0 <= k < requests.len() && (#[trigger] requests[k]).0 == required[i].1->0 && (
                requests[k].1 matches InterProxyRequest::Stateful(from, keys) && from == id
                    && keys@ =~= seq![required[i].0]),
        forall|k: int|
            0 <= k < requests.len() ==> exists|i: int|
                0 <= i < required.len() && (#[trigger] required[i]).1 == Some(
                    (#[trigger] requests[k]).0,
                ) && (requests[k].1 matches InterProxyRequest::Stateful(from, keys) && from == id
                    && keys@ =~= seq![required[i].0]),
{
    lemma_state_requests(id, required);
    let asked = state_requests(id, required);
    assert forall|i: int| 0 <= i < required.len() && (#[trigger] required[i]).1 is Some implies
        exists|k: int|
        0 <= k < requests.len() && (#[trigger] requests[k]).0 == required[i].1->0 && (
        requests[k].1 matches InterProxyRequest::Stateful(from, keys) && from == id && keys@
            =~= seq![required[i].0]) by {
        let owner = required[i].1->0;
        assert(required[i] == (required[i].0, Some(owner)));
        assert(asked.contains((owner, required[i].0)));
        let k = choose|k: int| 0 <= k < asked.len() && asked[k] == (owner, required[i].0);
        assert(asks_for(requests[k], id, asked[k]));
    }
    assert forall|k: int| 0 <= k < requests.len() implies exists|i: int|
        0 <= i < required.len() && (#[trigger] required[i]).1 == Some((#[trigger] requests[k]).0)
            && (requests[k].1 matches InterProxyRequest::Stateful(from, keys) && from == id && keys@
            =~= seq![required[i].0]) by {
        assert(asks_for(requests[k], id, asked[k]));
        assert(asked.contains((asked[k].0, asked[k].1)));
        let i = choose|i: int|
            0 <= i < required.len() && required[i] == (asked[k].1, Some(asked[k].0));
        assert(required[i].1 == Some(requests[k].0));
    }
}

/// The requests for two lists of states are those for the first and then those
/// for the second.
pub proof fn law_requests_keep_their_order(
    id: ProxyId,
    first: Seq<(StateKey, Option<ProxyId>)>,
    second: Seq<(StateKey, Option<ProxyId>)>,
)
    ensures
        state_requests(id, first + second) =~= state_requests(id, first) + state_requests(
            id,
            second,
        ),
    decreases second.len(),
{
    if second.len() == 0 {
        assert(first + second =~= first);
    } else {
        law_requests_keep_their_order(id, first, second.drop_last());
        assert((first + second).drop_last() =~= first + second.drop_last());
        assert((first + second).last() == second.last());
    }
}

/// The primary has a transaction checked, executed, or both: a check where it
/// sends it for checking, or where it sends it once and checks are separated
/// on the proxies; an execution wherever it does not send it for checking.
pub proof fn law_work_is_what_was_asked_for(
    work: PrimaryWork,
    mode: SeparationMode,
    message: PrimaryToProxyMessage,
)
    requires
        expects(mode, message),
        is_work(work, mode, message),
    ensures
        match message {
            PrimaryToProxyMessage::StatelessTxn(_, txn) => work.check == Some(
                (txn.digest, txn.verification_duration),
            ) && work.execution is None,
            PrimaryToProxyMessage::Txn(_, txn, checker, required) => work.check is None
                && work.execution == Some((txn, checker, required)),
            PrimaryToProxyMessage::CombinedTxn(_, txn, checker, required) => (work.check is Some
                <==> mode != SeparationMode::NoSeparation) && (work.check matches Some(check)
                ==> check == (txn.digest, txn.verification_duration)) && work.execution == Some(
                (txn, checker, required),
            ),
            _ => false,
        },
{
}

/// Which messages come is a matter of who separates checks from executions:
/// where the primary does, they come apart, else they come together.
pub proof fn law_messages_follow_the_separation(
    mode: SeparationMode,
    message: PrimaryToProxyMessage,
)
    requires
        expects(mode, message),
    ensures
        mode is PrimaryPreSeparation || mode is PrimaryPostSeparation ==> message is StatelessTxn
            || message is Txn,
        mode is NoSeparation || mode is ProxySeparation ==> message is CombinedTxn,
{
}

/// After its report a transaction is done for good, and before it each stage
/// leads to a later one.
pub proof fn law_transactions_come_to_an_end(course: Course, stage: Stage, ready: bool)
    ensures
        stage is Reporting || stage is Finished <==> course.after(stage, ready) == (
            Stage::Finished,
            Step::Rest,
        ),
        course.after(stage, ready).1 is ReportSkipped ==> course.after(stage, ready).0
            is Reporting && stage is Comparing && !ready,
        course.after(stage, ready).1 is Execute ==> stage is Checking || course.separated,
        course.after(stage, ready).1 is Check ==> !course.separated,
        stage is Comparing && !ready ==> course.after(stage, ready).1 is ReportSkipped,
{
}

/// Who waits for a state that arrives is woken as after a transaction that
/// used the version before it: for each arriving object that version comes
/// back, in the order of the objects.
pub proof fn law_arriving_states_wake_those_after_them(arriving: Seq<(ObjectID, Object)>, i: int)
    requires
        0 <= i < arriving.len(),
        arriving[i].1.version > 0,
    ensures
        states_before(arriving).len() == arriving.len(),
        states_before(arriving)[i].0 == arriving[i].0,
        states_before(arriving)[i].1 + 1 == arriving[i].1.version,
{
}

} // verus!
