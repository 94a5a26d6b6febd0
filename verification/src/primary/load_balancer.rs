//! The distribution of transactions over the proxies, epoch by epoch, while
//! proxies enter service, retire and fail.
use vstd::prelude::*;

use crate::base_types::{ExecutorIndex, ProxyId, StateKey};
use crate::checkpoint::state_collector::{CollectorState, StateCollector};
use crate::checkpoint::{EpochId, EpochObjectStates};
use crate::config::{LoadBalancingPolicy, ProxyMode};
use crate::error::{NodeError, NodeResult};
use crate::executor::api::{PrimaryToProxyMessage, ReplayBatch, TransactionWithTimestamp};
use crate::primary::connections::{
    candidate_positions, exclude_retiring, highest_proxy_id, sorted_proxy_ids, ProxyConnections,
    RetiringProxies,
};
use crate::primary::elastic_scaler::retirement_coordinator::{
    RetirementAction, RetirementCoordinator, RetirementPhase,
};
use crate::primary::elastic_scaler::{
    ElasticScaler, OrderKey, RetirementEvent, ScaleOutActivation, ScalerState, ScalingDecision,
    RATE_WINDOW_MS,
};
use crate::primary::ownership::StateOwnership;
use crate::primary::shared_obj_txn_forwarder::{
    Forwarding, ForwardingTask, LoadTracking, ProxyChoice, SharedObjTxnForwarder,
};
use crate::recovery::LogRecord;

verus! {

/// The number of transactions in an epoch.
pub const EPOCH_TXN_THRESHOLD: usize = 10_000;

/// Distributes transactions over the proxies.
#[verifier::reject_recursive_types(C)]
pub struct LoadBalancer<C> {
    proxy_connections: ProxyConnections<C>,
    states_to_proxy: StateOwnership,
    collector: StateCollector,
    elastic_scaler: ElasticScaler,
    retirement_coordinator: RetirementCoordinator,
    retiring_proxies: RetiringProxies,
    epoch_counter: u64,
    txn_count_in_epoch: usize,
}

/// What a load balancer knows.
pub struct BalancerState<C> {
    /// The connected proxies.
    pub connected: Map<ProxyId, C>,
    /// The owners of each state.
    pub owners: Map<StateKey, Set<ExecutorIndex>>,
    /// The acknowledged states.
    pub collected: CollectorState,
    /// The number of active proxies.
    pub scaler: ScalerState,
    /// The retirement that is under way.
    pub phase: RetirementPhase,
    /// The proxies that retire or have retired, with their last epochs.
    pub retiring: Map<ProxyId, u64>,
    /// The number of transactions that were admitted.
    pub admitted: int,
}

/// A transaction that enters an epoch.
#[derive(Clone, Copy, Debug, PartialEq, Eq, Structural)]
pub struct Admission {
    /// The epoch of the transaction.
    pub epoch: EpochId,
    /// Whether the transaction uses no shared object.
    pub owned_only: bool,
    /// Whether the transaction is the last one of its epoch.
    pub completes_epoch: bool,
}

/// What a step of a retirement asks to be sent, and over what.
pub struct RetirementStep<C> {
    /// The message, and the proxy that it is for.
    pub message: Option<(ProxyId, PrimaryToProxyMessage)>,
    /// The connection that is no longer needed once the message is sent.
    pub released: Option<C>,
}

/// The epoch of a transaction, by the number of transactions admitted before it.
pub open spec fn epoch_of(admitted: int) -> int {
    1 + admitted / EPOCH_TXN_THRESHOLD as int
}

/// The proxies that take part in an epoch: the active ones that do not retire.
pub open spec fn participants(
    connected: Set<ProxyId>,
    active: usize,
    retiring: Set<ProxyId>,
) -> Seq<ProxyId> {
    crate::primary::connections::without(
        crate::primary::connections::first_of(
            crate::primary::connections::ascending(connected),
            active,
        ),
        retiring,
    )
}

/// The position of the proxy that a transaction asks for, where it is connected.
pub open spec fn asked_position(
    connected: Set<ProxyId>,
    destination: Option<ProxyId>,
) -> Option<ExecutorIndex> {
    match destination {
        Some(proxy) => if connected.contains(proxy) {
            Some(crate::primary::replay::index_of_proxy(connected, proxy))
        } else {
            None
        },
        None => None,
    }
}

/// The owners of states once a proxy is no longer connected: the proxies after
/// it move up by one position, and what it alone had is with the primary.
pub open spec fn owners_without(
    owners: Map<StateKey, Set<ExecutorIndex>>,
    connected: Set<ProxyId>,
    gone: ProxyId,
) -> Map<StateKey, Set<ExecutorIndex>> {
    if connected.contains(gone) {
        let index = crate::primary::replay::index_of_proxy(connected, gone);
        owners.map_values(
            |held: Set<ExecutorIndex>| crate::primary::ownership::remapped(held, index),
        )
    } else {
        owners
    }
}

/// The owners of states once a proxy has retired. Where it was the last of the
/// connected ones, no position moves: what it had is left under its position,
/// which no connected proxy has any more.
pub open spec fn owners_after_retirement(
    owners: Map<StateKey, Set<ExecutorIndex>>,
    connected: Set<ProxyId>,
    retired: ProxyId,
) -> Map<StateKey, Set<ExecutorIndex>> {
    if is_highest(retired, connected) {
        owners
    } else {
        owners_without(owners, connected, retired)
    }
}

/// The proxies that a scale-out brings into service.
pub open spec fn newcomers(
    connected: Set<ProxyId>,
    activation: Option<ScaleOutActivation>,
) -> Seq<ProxyId> {
    let all = crate::primary::connections::ascending(connected);
    match activation {
        Some(counts) => all.subrange(
            if counts.previous_count < all.len() {
                counts.previous_count as int
            } else {
                all.len() as int
            },
            if counts.new_count < all.len() {
                counts.new_count as int
            } else {
                all.len() as int
            },
        ),
        None => Seq::empty(),
    }
}

/// The messages that open and close an epoch: the newcomers enter service
/// with it, then all participants close it.
pub open spec fn checkpoint_messages(
    messages: Seq<(ProxyId, PrimaryToProxyMessage)>,
    epoch: EpochId,
    entering: Seq<ProxyId>,
    closing: Seq<ProxyId>,
) -> bool {
    &&& messages.len() == entering.len() + closing.len()
    &&& forall|i: int|
        0 <= i < entering.len() ==> #[trigger] messages[i] == (
            entering[i],
            PrimaryToProxyMessage::ActivateProxy {
                first_active_epoch: epoch,
                completed_up_to: if epoch.0 > 0 {
                    (epoch.0 - 1) as u64
                } else {
                    0
                },
            },
        )
    &&& forall|i: int|
        entering.len() <= i < messages.len() ==> #[trigger] messages[i] == (
            closing[i - entering.len()],
            PrimaryToProxyMessage::Checkpoint(epoch),
        )
}

/// How far a retirement has come once an epoch is persisted: where that is the
/// last epoch of the proxy or a later one, the last snapshot of the proxy is
/// in.
pub open spec fn reported_by(phase: RetirementPhase, epoch: EpochId) -> RetirementPhase {
    match phase {
        RetirementPhase::AwaitingSnapshot { proxy_id, epoch: last } => if last.0 <= epoch.0 {
            RetirementPhase::AwaitingNextEpochSeal { proxy_id }
        } else {
            phase
        },
        _ => phase,
    }
}

/// Whether a proxy has the highest identity of a set.
pub open spec fn is_highest(proxy: ProxyId, connected: Set<ProxyId>) -> bool {
    connected.contains(proxy) && forall|q: ProxyId| #[trigger] connected.contains(q) ==> q <= proxy
}

/// The proxies that take part in an epoch, in increasing order.
pub fn checkpoint_participants<C>(
    connections: &ProxyConnections<C>,
    active_count: usize,
    retiring: &RetiringProxies,
) -> (ids: Vec<ProxyId>)
    ensures
        ids@ == participants(connections@.dom(), active_count, retiring@.dom()),
        ids@.len() <= active_count,
        forall|i: int, j: int| 0 <= i < j < ids@.len() ==> #[trigger] ids@[i] < #[trigger] ids@[j],
        forall|i: int|
            0 <= i < ids@.len() ==> connections@.contains_key(#[trigger] ids@[i])
                && !retiring@.contains_key(ids@[i]),
{
    let mut ids: Vec<ProxyId> = sorted_proxy_ids(connections);
    ids.truncate(active_count);
    proof {
        let all = crate::primary::connections::ascending(connections@.dom());
        assert(ids@ =~= crate::primary::connections::first_of(all, active_count));
        crate::primary::connections::lemma_without(ids@, retiring@.dom());
        let left = crate::primary::connections::without(ids@, retiring@.dom());
        assert forall|i: int| 0 <= i < left.len() implies connections@.contains_key(
            #[trigger] left[i],
        ) && !retiring@.contains_key(left[i]) by {
            assert(left.contains(left[i]));
            assert(ids@.contains(left[i]));
            let k = choose|k: int| 0 <= k < ids@.len() && ids@[k] == left[i];
            assert(all[k] == left[i]);
            assert(all.contains(left[i]));
            assert(connections@.dom().contains(left[i]));
        }
    }
    exclude_retiring(&ids, retiring)
}

/// The proxies that a scale-out brings into service, in increasing order.
fn newly_activated<C>(
    connections: &ProxyConnections<C>,
    activation: Option<ScaleOutActivation>,
) -> (ids: Vec<ProxyId>)
    requires
        activation matches Some(counts) ==> counts.previous_count <= counts.new_count,
    ensures
        ids@ == newcomers(connections@.dom(), activation),
{
    let mut ids: Vec<ProxyId> = Vec::new();
    if let Some(counts) = activation {
        let all: Vec<ProxyId> = sorted_proxy_ids(connections);
        let ghost start: int = if counts.previous_count < all@.len() {
            counts.previous_count as int
        } else {
            all@.len() as int
        };
        let mut i: usize = counts.previous_count;
        while i < counts.new_count && i < all.len()
            invariant
                counts.previous_count <= i <= counts.new_count,
                start == (if counts.previous_count < all@.len() {
                    counts.previous_count as int
                } else {
                    all@.len() as int
                }),
                i > counts.previous_count ==> i <= all.len(),
                ids@ == all@.subrange(
                    start,
                    if i < all@.len() {
                        i as int
                    } else {
                        all@.len() as int
                    },
                ),
            decreases all.len() - i,
        {
            ids.push(all[i]);
            i = i + 1;
        }
    }
    ids
}

impl<C> View for LoadBalancer<C> {
    type V = BalancerState<C>;

    closed spec fn view(&self) -> BalancerState<C> {
        BalancerState {
            connected: self.proxy_connections@,
            owners: self.states_to_proxy@,
            collected: self.collector@,
            scaler: self.elastic_scaler@,
            phase: self.retirement_coordinator@,
            retiring: self.retiring_proxies@,
            admitted: (self.epoch_counter - 1) * EPOCH_TXN_THRESHOLD + self.txn_count_in_epoch,
        }
    }
}

impl<C> LoadBalancer<C> {
    /// The parts are in order, and no epoch has more transactions than it holds.
    pub closed spec fn wf(&self) -> bool {
        &&& self.states_to_proxy.wf()
        &&& self.collector.wf()
        &&& self.elastic_scaler.wf()
        &&& self.epoch_counter >= 1
        &&& self.txn_count_in_epoch < EPOCH_TXN_THRESHOLD
    }

    /// A load balancer over connected proxies, of which one is active.
    pub fn new(
        proxy_connections: ProxyConnections<C>,
        collector: StateCollector,
        now: u64,
    ) -> (balancer: Self)
        requires
            proxy_connections@.dom().len() >= 1,
            proxy_connections@.dom().len() <= usize::MAX,
            collector.wf(),
        ensures
            balancer.wf(),
            balancer@ == (BalancerState {
                connected: proxy_connections@,
                owners: Map::<StateKey, Set<ExecutorIndex>>::empty(),
                collected: collector@,
                scaler: ScalerState {
                    active: 1,
                    max: proxy_connections@.dom().len() as usize,
                    capacity_known: false,
                    count: 0,
                    window_start: now,
                    pending: false,
                },
                phase: RetirementPhase::Idle,
                retiring: Map::<ProxyId, u64>::empty(),
                admitted: 0,
            }),
    {
        let proxy_count: usize = proxy_connections.len();
        LoadBalancer {
            proxy_connections,
            states_to_proxy: StateOwnership::new(),
            collector,
            elastic_scaler: ElasticScaler::new(proxy_count, now),
            retirement_coordinator: RetirementCoordinator::new(),
            retiring_proxies: RetiringProxies::new(),
            epoch_counter: 1,
            txn_count_in_epoch: 0,
        }
    }

    /// The connected proxies.
    pub fn connections(&self) -> (connections: &ProxyConnections<C>)
        ensures
            connections@ == self@.connected,
    {
        &self.proxy_connections
    }

    /// The proxies that retire or have retired.
    pub fn retiring(&self) -> (retiring: &RetiringProxies)
        ensures
            retiring@ == self@.retiring,
    {
        &self.retiring_proxies
    }

    /// The number of active proxies.
    pub fn active_node_count(&self) -> (count: usize)
        ensures
            count == self@.scaler.active,
    {
        self.elastic_scaler.active_node_count()
    }

    /// How far the retirement that is under way has come.
    pub fn retirement_phase(&self) -> (phase: &RetirementPhase)
        ensures
            *phase == self@.phase,
    {
        self.retirement_coordinator.phase()
    }

    /// The acknowledged states.
    pub fn collector(&mut self) -> (collector: &mut StateCollector)
        requires
            old(self).wf(),
        ensures
            collector.wf(),
            collector@ == old(self)@.collected,
            final(collector).wf() ==> final(self).wf(),
            final(self)@ == (BalancerState { collected: final(collector)@, ..old(self)@ }),
    {
        &mut self.collector
    }

    /// The owners of the states.
    pub fn ownership(&mut self) -> (ownership: &mut StateOwnership)
        requires
            old(self).wf(),
        ensures
            ownership.wf(),
            ownership@ == old(self)@.owners,
            final(ownership).wf() ==> final(self).wf(),
            final(self)@ == (BalancerState { owners: final(ownership)@, ..old(self)@ }),
    {
        &mut self.states_to_proxy
    }

    /// Counts a batch of incoming transactions.
    pub fn record_transactions(&mut self, count: usize)
        requires
            old(self).wf(),
            old(self)@.scaler.count + count <= usize::MAX,
        ensures
            final(self).wf(),
            final(self)@ == (BalancerState {
                scaler: ScalerState {
                    count: (old(self)@.scaler.count + count) as usize,
                    ..old(self)@.scaler
                },
                ..old(self)@
            }),
    {
        self.elastic_scaler.record_transactions(count);
    }

    /// What the rate of incoming transactions at a moment is taken from: their
    /// number and the length of the window in milliseconds, or `None` where
    /// the window has no length. A window that is long enough ends with it.
    pub fn calculate_current_rate(&mut self, now: u64) -> (sample: Option<(usize, u64)>)
        requires
            old(self).wf(),
        ensures
            final(self).wf(),
            sample == (if old(self)@.scaler.window(now) > 0 {
                Some((old(self)@.scaler.count, old(self)@.scaler.window(now) as u64))
            } else {
                None
            }),
            final(self)@ == (BalancerState {
                scaler: if old(self)@.scaler.window(now) >= RATE_WINDOW_MS {
                    ScalerState { count: 0, window_start: now, ..old(self)@.scaler }
                } else {
                    old(self)@.scaler
                },
                ..old(self)@
            }),
    {
        self.elastic_scaler.calculate_current_rate(now)
    }

    /// Admits a transaction to the current epoch, which the last one that it
    /// holds completes.
    pub fn take_in(&mut self, transaction: &TransactionWithTimestamp) -> (admission: Admission)
        requires
            old(self).wf(),
            epoch_of(old(self)@.admitted) < u64::MAX,
        ensures
            final(self).wf(),
            final(self)@ == (BalancerState { admitted: old(self)@.admitted + 1, ..old(self)@ }),
            admission.epoch.0 == epoch_of(old(self)@.admitted),
            admission.owned_only == (transaction.shared_objects@.len() == 0),
            admission.completes_epoch == (epoch_of(old(self)@.admitted + 1) != epoch_of(
                old(self)@.admitted,
            )),
            10_000 * (admission.epoch.0 - 1) <= old(self)@.admitted < 10_000 * admission.epoch.0,
            admission.completes_epoch <==> final(self)@.admitted == 10_000 * admission.epoch.0,
    {
        let epoch: EpochId = EpochId(self.epoch_counter);
        let owned_only: bool = transaction.is_owned_only();
        proof {
            assert(epoch_of(self@.admitted) == self.epoch_counter) by {
                assert(self@.admitted / 10_000 == self.epoch_counter - 1);
            }
        }
        self.txn_count_in_epoch = self.txn_count_in_epoch + 1;
        if self.txn_count_in_epoch >= EPOCH_TXN_THRESHOLD {
            self.epoch_counter = self.epoch_counter + 1;
            self.txn_count_in_epoch = 0;
            Admission { epoch, owned_only, completes_epoch: true }
        } else {
            Admission { epoch, owned_only, completes_epoch: false }
        }
    }

    /// The positions of the proxies that may be handed a transaction on shared
    /// objects, in increasing order.
    pub fn candidates(&self, standby_excluded: bool) -> (positions: Vec<ExecutorIndex>)
        requires
            self.wf(),
        ensures
            positions@ == crate::primary::connections::candidates(
                self@.connected.dom(),
                standby_excluded,
                self@.scaler.active,
                self@.retiring.dom(),
            ),
            forall|k: int|
                0 <= k < positions@.len() ==> #[trigger] positions@[k] < self@.connected.dom().len(),
    {
        candidate_positions(
            &self.proxy_connections,
            standby_excluded,
            self.elastic_scaler.active_node_count(),
            &self.retiring_proxies,
        )
    }

    /// The proxies for a transaction on shared objects, by the policy, among
    /// those that may be handed one.
    pub fn choose_proxy(
        &self,
        policy: LoadBalancingPolicy,
        standby_excluded: bool,
        txn_cnt: usize,
        required_versions: &Vec<StateKey>,
        destination: Option<ProxyId>,
        tracking: &LoadTracking,
    ) -> (choice: ProxyChoice)
        requires
            self.wf(),
            policy != LoadBalancingPolicy::Dedicated,
            policy != LoadBalancingPolicy::Combined,
            policy == LoadBalancingPolicy::AffinityAware ==> {
                &&& self@.connected.dom().len() <= tracking.slots()
                &&& forall|i: int|
                    0 <= i < tracking.slots()
                        ==> crate::primary::shared_obj_txn_forwarder::accesses(
                        #[trigger] tracking.history(i),
                        required_versions@,
                    ) <= usize::MAX
            },
        ensures
            crate::primary::shared_obj_txn_forwarder::chosen_by_policy(
                choice,
                policy,
                crate::primary::connections::candidates(
                    self@.connected.dom(),
                    standby_excluded,
                    self@.scaler.active,
                    self@.retiring.dom(),
                ),
                self@.owners,
                txn_cnt,
                required_versions@,
                asked_position(self@.connected.dom(), destination),
                *tracking,
            ),
    {
        let candidates: Vec<ExecutorIndex> = self.candidates(standby_excluded);
        let asked: Option<ExecutorIndex> = match destination {
            Some(proxy) => {
                if self.proxy_connections.is_connected(proxy) {
                    Some(Self::position_of(&self.proxy_connections, proxy))
                } else {
                    None
                }
            },
            None => None,
        };
        SharedObjTxnForwarder::get_proxy_for_shared_objects(
            policy,
            &candidates,
            &self.states_to_proxy,
            txn_cnt,
            required_versions,
            asked,
            tracking,
        )
    }

    /// Forwards a transaction on shared objects to the proxies at two indices.
    /// Whatever is sent goes to proxies that take part in the current epoch.
    pub fn forward_shared_object_txn(
        &mut self,
        task: &ForwardingTask,
        choice: Option<(ExecutorIndex, ExecutorIndex)>,
        standby_excluded: bool,
        proxy_mode: ProxyMode,
    ) -> (messages: Vec<(ProxyId, PrimaryToProxyMessage)>)
        requires
            old(self).wf(),
            crate::recovery::can_advance(task.required_versions@),
        ensures
            final(self).wf(),
            match choice {
                None => messages@.len() == 0 && final(self)@ == old(self)@,
                Some((stateful, stateless)) => {
                    let connected = old(self)@.connected.dom();
                    let missing = crate::primary::shared_obj_txn_forwarder::missing_states(
                        old(self)@.owners,
                        task.required_versions@,
                        stateful,
                        connected.len(),
                        old(self)@.collected.merged,
                    );
                    &&& final(self)@ == (BalancerState { owners: missing.owners, ..old(self)@ })
                    &&& exists|asked: Seq<(StateKey, Option<ExecutorIndex>)>|
                        {
                            &&& #[trigger] crate::ordered_map::increasing(asked)
                            &&& crate::ordered_map::entries_map(asked) =~= missing.required
                            &&& (Forwarding {
                                stateful: crate::primary::connections::candidate_at(
                                    connected,
                                    standby_excluded,
                                    old(self)@.scaler.active,
                                    old(self)@.retiring.dom(),
                                    stateful,
                                ),
                                stateless: crate::primary::connections::candidate_at(
                                    connected,
                                    standby_excluded,
                                    old(self)@.scaler.active,
                                    old(self)@.retiring.dom(),
                                    stateless,
                                ),
                                mode: proxy_mode,
                                required: crate::primary::shared_obj_txn_forwarder::resolved(
                                    asked,
                                    connected,
                                    standby_excluded,
                                ),
                                blobs: missing.blobs,
                            }).sent(messages@, task.epoch_id, task.transaction)
                        }
                },
            },
            forall|i: int|
                0 <= i < messages@.len() ==> participants(
                    old(self)@.connected.dom(),
                    old(self)@.scaler.active,
                    old(self)@.retiring.dom(),
                ).contains((#[trigger] messages@[i]).0),
    {
        let active: usize = self.elastic_scaler.active_node_count();
        let messages: Vec<(ProxyId, PrimaryToProxyMessage)> =
            SharedObjTxnForwarder::process_forwarding_task(
            task,
            choice,
            &self.proxy_connections,
            standby_excluded,
            active,
            &self.retiring_proxies,
            proxy_mode,
            &mut self.states_to_proxy,
            &self.collector,
        );
        proof {
            let connected = self.proxy_connections@.dom();
            let retiring = self.retiring_proxies@.dom();
            assert forall|i: int| 0 <= i < messages@.len() implies participants(
                connected,
                active,
                retiring,
            ).contains((#[trigger] messages@[i]).0) by {
                let (stateful, stateless) = choice->0;
                if crate::primary::connections::candidate_at(
                    connected,
                    standby_excluded,
                    active,
                    retiring,
                    stateful,
                ) == Some(messages@[i].0) {
                    law_candidates_take_part(
                        connected,
                        standby_excluded,
                        active,
                        retiring,
                        stateful,
                    );
                } else {
                    law_candidates_take_part(
                        connected,
                        standby_excluded,
                        active,
                        retiring,
                        stateless,
                    );
                }
            }
        }
        messages
    }

    /// Decides on the number of proxies: a scale-out is queued for the next
    /// epoch boundary; for a scale-in the active proxy with the highest
    /// identity starts to retire, unless one retires already or only one is
    /// active.
    pub fn check_and_handle_scaling(
        &mut self,
        now: u64,
        current_rate: OrderKey,
        scale_out_threshold: OrderKey,
        scale_in_threshold: OrderKey,
    ) -> (decision: Option<ScalingDecision>)
        requires
            old(self).wf(),
        ensures
            final(self).wf(),
            ({
                let known = ScalerState { capacity_known: true, ..old(self)@.scaler };
                let working = participants(
                    old(self)@.connected.dom(),
                    known.active,
                    old(self)@.retiring.dom(),
                );
                if known.wants_more(current_rate, scale_out_threshold) {
                    &&& decision == Some(ScalingDecision::ScaleOut)
                    &&& final(self)@ == (BalancerState { scaler: known.queued(), ..old(self)@ })
                } else if known.wants_fewer(current_rate, scale_in_threshold) {
                    &&& decision == Some(ScalingDecision::ScaleIn)
                    &&& final(self)@ == (BalancerState {
                        scaler: known,
                        phase: if working.len() > 0 {
                            old(self)@.phase.initiated(working.last())
                        } else {
                            old(self)@.phase
                        },
                        ..old(self)@
                    })
                } else {
                    &&& decision is None
                    &&& final(self)@ == (BalancerState { scaler: known, ..old(self)@ })
                }
            }),
    {
        let decision: Option<ScalingDecision> = self.elastic_scaler.check_scaling(
            now,
            current_rate,
            scale_out_threshold,
            scale_in_threshold,
        );
        match decision {
            Some(ScalingDecision::ScaleOut) => {
                let _ = self.elastic_scaler.queue_scale_out();
            },
            Some(ScalingDecision::ScaleIn) => {
                if !self.retirement_coordinator.is_retiring() {
                    if let Some(proxy_id) = self.get_highest_active_proxy_id() {
                        if self.elastic_scaler.active_node_count() > 1 {
                            let _ = self.retirement_coordinator.initiate(proxy_id);
                        }
                    }
                }
            },
            None => {},
        }
        decision
    }

    /// The proxy with the highest identity among those that are active and do
    /// not retire.
    pub fn get_highest_active_proxy_id(&self) -> (highest: Option<ProxyId>)
        requires
            self.wf(),
        ensures
            ({
                let working = participants(
                    self@.connected.dom(),
                    self@.scaler.active,
                    self@.retiring.dom(),
                );
                highest == (if working.len() > 0 {
                    Some(working.last())
                } else {
                    None
                })
            }),
            highest matches Some(proxy) ==> self@.connected.contains_key(proxy)
                && !self@.retiring.contains_key(proxy) && forall|i: int|
                0 <= i < participants(
                    self@.connected.dom(),
                    self@.scaler.active,
                    self@.retiring.dom(),
                ).len() ==> #[trigger] participants(
                    self@.connected.dom(),
                    self@.scaler.active,
                    self@.retiring.dom(),
                )[i] <= proxy,
    {
        let working: Vec<ProxyId> = checkpoint_participants(
            &self.proxy_connections,
            self.elastic_scaler.active_node_count(),
            &self.retiring_proxies,
        );
        if working.len() > 0 {
            Some(working[working.len() - 1])
        } else {
            None
        }
    }

    /// What an epoch that is persisted, or a snapshot, brings about for the
    /// retirement that is under way.
    ///
    /// Snapshots bring about nothing by themselves: they are committed with
    /// their epochs. Once the last epoch of the proxy is persisted, its last
    /// snapshot is in, and the retirement completes.
    pub fn handle_retirement_event(&mut self, event: &RetirementEvent) -> (step: RetirementStep<C>)
        requires
            old(self).wf(),
        ensures
            final(self).wf(),
            match *event {
                RetirementEvent::Snapshot { .. } => {
                    &&& final(self)@ == old(self)@
                    &&& step.message is None
                    &&& step.released is None
                },
                RetirementEvent::EpochSealed { epoch } => {
                    let reported = reported_by(old(self)@.phase, epoch);
                    let sealed = BalancerState { phase: reported.after_seal(), ..old(self)@ };
                    match reported.seal_action() {
                        Some(action) => acted(sealed, action, final(self)@, step),
                        None => {
                            &&& final(self)@ == sealed
                            &&& step.message is None
                            &&& step.released is None
                        },
                    }
                },
            },
    {
        match event {
            RetirementEvent::Snapshot { .. } => RetirementStep { message: None, released: None },
            RetirementEvent::EpochSealed { epoch } => {
                let awaited: Option<(ProxyId, EpochId)> = match self.retirement_coordinator.phase() {
                    RetirementPhase::AwaitingSnapshot { proxy_id, epoch: last } => {
                        if last.0 <= epoch.0 {
                            Some((*proxy_id, *last))
                        } else {
                            None
                        }
                    },
                    _ => None,
                };
                if let Some((proxy_id, last)) = awaited {
                    let committed: EpochObjectStates = EpochObjectStates::new();
                    let ghost merged = self.collector@.merged;
                    let _ = self.retirement_coordinator.on_snapshot_received(
                        proxy_id,
                        last,
                        &committed,
                        &mut self.collector,
                    );
                    proof {
                        assert(crate::checkpoint::state_collector::with_newer(merged, committed@)
                            =~= merged);
                    }
                }
                proof {
                    assert(self@ == (BalancerState {
                        phase: reported_by(old(self)@.phase, *epoch),
                        ..old(self)@
                    }));
                }
                match self.retirement_coordinator.on_epoch_sealed(*epoch) {
                    Some(action) => self.execute_retirement_action(action),
                    None => RetirementStep { message: None, released: None },
                }
            },
        }
    }

    /// Does what a retirement asks for.
    ///
    /// A proxy that is told to retire is no candidate any more: neither
    /// transactions nor checkpoints go to it. One whose retirement is complete
    /// is told so and disconnected, and no epoch waits for it. What it alone
    /// had is from then on fetched from the primary.
    pub fn execute_retirement_action(&mut self, action: RetirementAction) -> (step: RetirementStep<
        C,
    >)
        requires
            old(self).wf(),
        ensures
            final(self).wf(),
            acted(old(self)@, action, final(self)@, step),
    {
        match action {
            RetirementAction::SendRetirementSignal { proxy_id, epoch } => {
                self.retiring_proxies.insert(proxy_id, epoch);
                if self.proxy_connections.is_connected(proxy_id) {
                    RetirementStep {
                        message: Some((proxy_id, PrimaryToProxyMessage::RetirementSignal(epoch))),
                        released: None,
                    }
                } else {
                    RetirementStep { message: None, released: None }
                }
            },
            RetirementAction::UpdateOwnership { .. } => RetirementStep {
                message: None,
                released: None,
            },
            RetirementAction::CompleteRetirement { proxy_id } => {
                self.collector.remove_proxy_persist_index(proxy_id);
                self.release_states(proxy_id);
                let released: Option<C> = self.proxy_connections.disconnect(proxy_id);
                self.elastic_scaler.decrease_active_nodes();
                let message: Option<(ProxyId, PrimaryToProxyMessage)> = match &released {
                    Some(_) => Some((proxy_id, PrimaryToProxyMessage::ShutdownConfirmation)),
                    None => None,
                };
                RetirementStep { message, released }
            },
        }
    }

    /// Accounts for a proxy that has retired in the owners of the states.
    fn release_states(&mut self, retired: ProxyId)
        requires
            old(self).wf(),
        ensures
            final(self).wf(),
            final(self)@ == (BalancerState {
                owners: owners_after_retirement(
                    old(self)@.owners,
                    old(self)@.connected.dom(),
                    retired,
                ),
                ..old(self)@
            }),
    {
        let last: bool = match highest_proxy_id(&self.proxy_connections) {
            Some(highest) => highest == retired,
            None => false,
        };
        if !last && self.proxy_connections.is_connected(retired) {
            let index: ExecutorIndex = Self::position_of(&self.proxy_connections, retired);
            self.states_to_proxy.update_state_ownership_after_failure(index);
        }
    }

    /// Opens and closes an epoch: a queued scale-out takes effect, the
    /// collector learns how many proxies will report the epoch, and the
    /// messages to send come back in their order.
    ///
    /// The retirement that waits for an epoch boundary comes afterwards, with
    /// [`LoadBalancer::finish_checkpoint`], so that the proxy takes part in the
    /// epoch that it retires with.
    pub fn broadcast_checkpoint(&mut self, epoch: EpochId) -> (messages: Vec<
        (ProxyId, PrimaryToProxyMessage),
    >)
        requires
            old(self).wf(),
        ensures
            final(self).wf(),
            ({
                let connected = old(self)@.connected.dom();
                let scaler = old(self)@.scaler.bounded();
                let closing = participants(connected, scaler.active, old(self)@.retiring.dom());
                &&& final(self)@ == (BalancerState {
                    scaler,
                    collected: CollectorState {
                        expected_at: old(self)@.collected.expected_at.insert(
                            epoch.0,
                            closing.len() as usize,
                        ),
                        ..old(self)@.collected
                    },
                    ..old(self)@
                })
                &&& closing.len() <= usize::MAX
                &&& checkpoint_messages(
                    messages@,
                    epoch,
                    newcomers(connected, old(self)@.scaler.activation()),
                    closing,
                )
            }),
    {
        let activation: Option<ScaleOutActivation> = self.elastic_scaler.on_epoch_boundary();
        let entering: Vec<ProxyId> = newly_activated(&self.proxy_connections, activation);
        let active_count: usize = self.elastic_scaler.active_node_count();
        let closing: Vec<ProxyId> = checkpoint_participants(
            &self.proxy_connections,
            active_count,
            &self.retiring_proxies,
        );
        self.collector.set_expected_proxies_for_epoch(epoch, closing.len());
        let completed_up_to: u64 = if epoch.0 > 0 {
            epoch.0 - 1
        } else {
            0
        };
        let mut messages: Vec<(ProxyId, PrimaryToProxyMessage)> = Vec::new();
        let mut i: usize = 0;
        while i < entering.len()
            invariant
                i <= entering.len(),
                completed_up_to == (if epoch.0 > 0 {
                    (epoch.0 - 1) as u64
                } else {
                    0
                }),
                checkpoint_messages(messages@, epoch, entering@.take(i as int), Seq::empty()),
            decreases entering.len() - i,
        {
            messages.push(
                (
                    entering[i],
                    PrimaryToProxyMessage::ActivateProxy {
                        first_active_epoch: epoch,
                        completed_up_to,
                    },
                ),
            );
            i = i + 1;
        }
        proof {
            assert(entering@.take(i as int) =~= entering@);
            assert(closing@.take(0) =~= Seq::empty());
        }
        let mut j: usize = 0;
        while j < closing.len()
            invariant
                j <= closing.len(),
                checkpoint_messages(messages@, epoch, entering@, closing@.take(j as int)),
            decreases closing.len() - j,
        {
            messages.push((closing[j], PrimaryToProxyMessage::Checkpoint(epoch)));
            j = j + 1;
        }
        proof {
            assert(closing@.take(j as int) =~= closing@);
        }
        messages
    }

    /// Takes the retirement that is under way over the boundary of an epoch.
    pub fn finish_checkpoint(&mut self, epoch: EpochId) -> (step: RetirementStep<C>)
        requires
            old(self).wf(),
        ensures
            final(self).wf(),
            ({
                let bounded = BalancerState {
                    phase: old(self)@.phase.after_boundary(epoch),
                    ..old(self)@
                };
                match old(self)@.phase.boundary_action(epoch) {
                    Some(action) => acted(bounded, action, final(self)@, step),
                    None => {
                        &&& final(self)@ == bounded
                        &&& step.message is None
                        &&& step.released is None
                    },
                }
            }),
    {
        match self.retirement_coordinator.on_epoch_boundary(epoch) {
            Some(action) => self.execute_retirement_action(action),
            None => RetirementStep { message: None, released: None },
        }
    }

    /// The last persisted epoch: what came after it has to run again when a
    /// proxy fails.
    pub fn persisted_epoch(&self) -> (epoch: EpochId)
        ensures
            epoch.0 == self@.collected.committed,
    {
        EpochId(self.collector.get_persist_index())
    }

    /// Replaces a failed proxy by the one that stands by: the connected proxy
    /// with the highest identity. Where that is the failed one, or none is
    /// connected, nothing is done.
    ///
    /// The failed proxy owns nothing any more: what it alone had is fetched
    /// from the primary, and the other proxies keep what they have. The
    /// transactions that are not committed will run again on the replacement,
    /// which then owns what they write.
    pub fn begin_recovery(
        &mut self,
        failed_proxy: ProxyId,
        uncommitted_txns: &Vec<LogRecord>,
    ) -> (replacement: Option<ProxyId>)
        requires
            old(self).wf(),
            crate::primary::replay::replayable(uncommitted_txns@),
        ensures
            final(self).wf(),
            match replacement {
                Some(standby) => {
                    let remaining = old(self)@.connected.remove(failed_proxy);
                    &&& is_highest(standby, old(self)@.connected.dom())
                    &&& standby != failed_proxy
                    &&& final(self)@ == (BalancerState {
                        connected: remaining,
                        owners: crate::primary::replay::owned_after_replay(
                            owners_without(
                                old(self)@.owners,
                                old(self)@.connected.dom(),
                                failed_proxy,
                            ),
                            uncommitted_txns@,
                            uncommitted_txns@.len() as int,
                            crate::primary::replay::index_of_proxy(remaining.dom(), standby),
                        ),
                        ..old(self)@
                    })
                    &&& crate::primary::replay::owns_all_written(
                        final(self)@.owners,
                        uncommitted_txns@,
                        (final(self)@.connected.dom().len() - 1) as usize,
                    )
                },
                None => {
                    &&& final(self)@ == old(self)@
                    &&& old(self)@.connected.dom().is_empty() || is_highest(
                        failed_proxy,
                        old(self)@.connected.dom(),
                    )
                },
            },
    {
        let highest: Option<ProxyId> = highest_proxy_id(&self.proxy_connections);
        proof {
            if highest is None {
                assert(self@.connected.dom() =~= Set::<ProxyId>::empty());
            }
        }
        let standby_proxy: ProxyId = match highest {
            Some(proxy) => proxy,
            None => failed_proxy,
        };
        if standby_proxy == failed_proxy {
            return None;
        }
        if self.proxy_connections.is_connected(failed_proxy) {
            let index: ExecutorIndex = Self::position_of(&self.proxy_connections, failed_proxy);
            self.states_to_proxy.update_state_ownership_after_failure(index);
        }
        let _ = self.proxy_connections.disconnect(failed_proxy);
        Self::update_ownership_after_replay(
            uncommitted_txns,
            standby_proxy,
            &mut self.states_to_proxy,
            &self.proxy_connections,
        );
        proof {
            lemma_highest_is_last(self.proxy_connections@.dom(), standby_proxy);
        }
        Some(standby_proxy)
    }

    /// The messages that make a replacement run transactions again; none where
    /// there is no such transaction. A further message begins with each
    /// transaction at which it is said to. A replacement that is not connected
    /// is an error.
    pub fn start_replay_process(
        &self,
        replacement_proxy: ProxyId,
        uncommitted_txns: &Vec<LogRecord>,
        cuts: &Vec<bool>,
    ) -> (messages: NodeResult<Vec<PrimaryToProxyMessage>>)
        requires
            self.wf(),
            crate::primary::replay::replayable(uncommitted_txns@),
            cuts@.len() == uncommitted_txns@.len(),
        ensures
            match messages {
                Ok(sent) => {
                    &&& uncommitted_txns@.len() == 0 ==> sent@.len() == 0
                    &&& uncommitted_txns@.len() > 0 ==> self@.connected.contains_key(
                        replacement_proxy,
                    ) && exists|batches: Seq<ReplayBatch>|
                        {
                            &&& #[trigger] crate::primary::replay::replays_all(
                                batches,
                                uncommitted_txns@,
                                cuts@,
                                self@.collected.merged,
                            )
                            &&& carries(sent@, batches)
                        }
                },
                Err(error) => {
                    &&& uncommitted_txns@.len() > 0
                    &&& !self@.connected.contains_key(replacement_proxy)
                    &&& error == NodeError::ProxyConnectionNotFound(replacement_proxy)
                },
            },
    {
        if uncommitted_txns.len() == 0 {
            return Ok(Vec::new());
        }
        let batches: Vec<ReplayBatch> = Self::prepare_replay_batches(
            uncommitted_txns,
            &self.collector,
            cuts,
        );
        let ghost prepared = batches@;
        let messages: NodeResult<Vec<PrimaryToProxyMessage>> = self.send_replay_batches(
            replacement_proxy,
            batches,
        );
        proof {
            assert(crate::primary::replay::replays_all(
                prepared,
                uncommitted_txns@,
                cuts@,
                self@.collected.merged,
            ));
        }
        messages
    }

    /// The messages that carry replay batches to a replacement, in the order
    /// of the batches. A replacement that is not connected is an error.
    pub fn send_replay_batches(
        &self,
        replacement_proxy: ProxyId,
        replay_chunks: Vec<ReplayBatch>,
    ) -> (messages: NodeResult<Vec<PrimaryToProxyMessage>>)
        ensures
            match messages {
                Ok(sent) => self@.connected.contains_key(replacement_proxy) && carries(
                    sent@,
                    replay_chunks@,
                ),
                Err(error) => !self@.connected.contains_key(replacement_proxy) && error
                    == NodeError::ProxyConnectionNotFound(replacement_proxy),
            },
    {
        if !self.proxy_connections.is_connected(replacement_proxy) {
            return Err(NodeError::ProxyConnectionNotFound(replacement_proxy));
        }
        let ghost chunks = replay_chunks@;
        let mut messages: Vec<PrimaryToProxyMessage> = Vec::new();
        let mut left: Vec<ReplayBatch> = replay_chunks;
        while left.len() > 0
            invariant
                messages@.len() + left@.len() == chunks.len(),
                left@ =~= chunks.skip(messages@.len() as int),
                carries(messages@, chunks.take(messages@.len() as int)),
            decreases left.len(),
        {
            let chunk: ReplayBatch = left.remove(0);
            messages.push(PrimaryToProxyMessage::Replay(chunk));
        }
        proof {
            assert(chunks.take(messages@.len() as int) =~= chunks);
        }
        Ok(messages)
    }
}

/// Whether messages carry replay batches, one each and in their order.
pub open spec fn carries(
    messages: Seq<PrimaryToProxyMessage>,
    batches: Seq<ReplayBatch>,
) -> bool {
    &&& messages.len() == batches.len()
    &&& forall|i: int|
        0 <= i < messages.len() ==> #[trigger] messages[i] == PrimaryToProxyMessage::Replay(
            batches[i],
        )
}

/// What doing what a retirement asks for changes, and what it sends.
pub open spec fn acted<C>(
    before: BalancerState<C>,
    action: RetirementAction,
    after: BalancerState<C>,
    step: RetirementStep<C>,
) -> bool {
    match action {
        RetirementAction::SendRetirementSignal { proxy_id, epoch } => {
            &&& after == (BalancerState {
                retiring: before.retiring.insert(proxy_id, epoch.0),
                ..before
            })
            &&& step.released is None
            &&& step.message == (if before.connected.contains_key(proxy_id) {
                Some((proxy_id, PrimaryToProxyMessage::RetirementSignal(epoch)))
            } else {
                None
            })
        },
        RetirementAction::UpdateOwnership { .. } => {
            &&& after == before
            &&& step.released is None
            &&& step.message is None
        },
        RetirementAction::CompleteRetirement { proxy_id } => {
            &&& after == (BalancerState {
                connected: before.connected.remove(proxy_id),
                owners: owners_after_retirement(
                    before.owners,
                    before.connected.dom(),
                    proxy_id,
                ),
                scaler: before.scaler.decreased(),
                collected: CollectorState {
                    persisted: before.collected.persisted.remove(proxy_id),
                    ..before.collected
                },
                ..before
            })
            &&& step.released == before.connected.get(proxy_id)
            &&& step.message == (if before.connected.contains_key(proxy_id) {
                Some((proxy_id, PrimaryToProxyMessage::ShutdownConfirmation))
            } else {
                None
            })
        },
    }
}

/// The transactions are admitted in epochs of equal size that follow each
/// other: the first ten thousand belong to epoch 1, the next to epoch 2, and so on.
pub proof fn law_epochs_follow_each_other(admitted: int)
    requires
        admitted >= 0,
    ensures
        epoch_of(admitted) >= 1,
        (epoch_of(admitted) - 1) * EPOCH_TXN_THRESHOLD <= admitted < epoch_of(admitted)
            * EPOCH_TXN_THRESHOLD,
        epoch_of(admitted + 1) == epoch_of(admitted) || epoch_of(admitted + 1) == epoch_of(admitted)
            + 1,
        epoch_of(admitted + EPOCH_TXN_THRESHOLD as int) == epoch_of(admitted) + 1,
{
}

/// A proxy that retires or has retired takes part in no epoch, and all who
/// take part are connected.
pub proof fn law_participants_do_not_retire(
    connected: Set<ProxyId>,
    active: usize,
    retiring: Set<ProxyId>,
    proxy: ProxyId,
)
    requires
        exists|s: Seq<ProxyId>| crate::primary::connections::lists(s, connected),
        participants(connected, active, retiring).contains(proxy),
    ensures
        !retiring.contains(proxy),
        connected.contains(proxy),
{
    let s = choose|s: Seq<ProxyId>| crate::primary::connections::lists(s, connected);
    crate::primary::connections::lemma_ascending(s, connected);
    let all = crate::primary::connections::ascending(connected);
    let taken = crate::primary::connections::first_of(all, active);
    crate::primary::connections::lemma_without(taken, retiring);
    let i = choose|i: int| 0 <= i < taken.len() && taken[i] == proxy;
    assert(all[i] == proxy);
    assert(all.contains(proxy));
}

/// A proxy that may be handed a transaction on shared objects is connected,
/// active and not retiring: it takes part in the current epoch.
pub proof fn law_candidates_take_part(
    connected: Set<ProxyId>,
    standby_excluded: bool,
    active: usize,
    retiring: Set<ProxyId>,
    index: ExecutorIndex,
)
    ensures
        crate::primary::connections::candidate_at(
            connected,
            standby_excluded,
            active,
            retiring,
            index,
        ) matches Some(proxy) ==> participants(connected, active, retiring).contains(proxy)
            && !retiring.contains(proxy),
{
    let all = crate::primary::connections::ascending(connected);
    let taken = crate::primary::connections::first_of(all, active);
    crate::primary::connections::lemma_without(taken, retiring);
    if let Some(proxy) = crate::primary::connections::candidate_at(
        connected,
        standby_excluded,
        active,
        retiring,
        index,
    ) {
        assert(taken[index as int] == proxy);
        assert(taken.contains(proxy));
    }
}

/// No more proxies are expected to report an epoch than take part in it, and
/// never more than are active.
pub proof fn law_expected_reports_are_bounded(
    connected: Set<ProxyId>,
    active: usize,
    retiring: Set<ProxyId>,
)
    ensures
        participants(connected, active, retiring).len() <= active,
        participants(connected, active, retiring).len()
            <= crate::primary::connections::ascending(connected).len(),
{
    let all = crate::primary::connections::ascending(connected);
    let taken = crate::primary::connections::first_of(all, active);
    crate::primary::connections::lemma_without(taken, retiring);
}

/// A proxy that is to retire is told so at the next boundary of an epoch, and
/// its retirement completes with the first epoch from that one on that is
/// persisted, and not before.
pub proof fn law_retirement_completes_with_its_epoch(
    proxy: ProxyId,
    last: EpochId,
    persisted: EpochId,
)
    ensures
        ({
            let pending = RetirementPhase::PendingEpochBoundary { proxy_id: proxy };
            let told = pending.after_boundary(last);
            let sealed = reported_by(told, persisted);
            &&& pending.boundary_action(last) == Some(
                RetirementAction::SendRetirementSignal { proxy_id: proxy, epoch: last },
            )
            &&& last.0 <= persisted.0 ==> sealed.after_seal() is Idle && sealed.seal_action()
                == Some(RetirementAction::CompleteRetirement { proxy_id: proxy })
            &&& persisted.0 < last.0 ==> sealed.after_seal() == told && sealed.seal_action() is None
        }),
{
}

/// A proxy that begins to retire leaves the epochs to come, and nobody else
/// does: one fewer proxy takes part.
pub proof fn law_retiree_alone_leaves(
    connected: Set<ProxyId>,
    active: usize,
    retiring: Set<ProxyId>,
    proxy: ProxyId,
)
    requires
        exists|s: Seq<ProxyId>| crate::primary::connections::lists(s, connected),
        participants(connected, active, retiring).contains(proxy),
    ensures
        forall|q: ProxyId| #[trigger]
            participants(connected, active, retiring.insert(proxy)).contains(q) <==> participants(
                connected,
                active,
                retiring,
            ).contains(q) && q != proxy,
        participants(connected, active, retiring.insert(proxy)).len() == participants(
            connected,
            active,
            retiring,
        ).len() - 1,
{
    let s = choose|s: Seq<ProxyId>| crate::primary::connections::lists(s, connected);
    crate::primary::connections::lemma_ascending(s, connected);
    let all = crate::primary::connections::ascending(connected);
    let taken = crate::primary::connections::first_of(all, active);
    crate::primary::connections::lemma_without(taken, retiring);
    crate::primary::connections::lemma_without(taken, retiring.insert(proxy));
    let before = participants(connected, active, retiring);
    let after = participants(connected, active, retiring.insert(proxy));
    assert forall|q: ProxyId| #[trigger] after.contains(q) <==> before.contains(q) && q != proxy by {
        assert(before.contains(q) <==> taken.contains(q) && !retiring.contains(q));
    }
    crate::primary::connections::lemma_listing_len(before, before.to_set());
    crate::primary::connections::lemma_listing_len(after, after.to_set());
    assert(after.to_set() =~= before.to_set().remove(proxy)) by {
        assert forall|q: ProxyId| after.to_set().contains(q) <==> before.to_set().remove(
            proxy,
        ).contains(q) by {
            assert(after.contains(q) <==> before.contains(q) && q != proxy);
        }
    }
}

/// The first ten thousand transactions belong to the first epoch, and each
/// ten thousand after them to the next one.
pub proof fn law_epochs_have_ten_thousand_transactions(admitted: int)
    requires
        admitted >= 0,
    ensures
        10_000 * (epoch_of(admitted) - 1) <= admitted < 10_000 * epoch_of(admitted),
{
}

/// A proxy that is told to retire is marked with its last epoch and told it;
/// it stays connected, keeps its states, and all other proxies are as before.
pub proof fn law_signal_marks_the_retiree<C>(
    before: BalancerState<C>,
    proxy: ProxyId,
    last: EpochId,
    after: BalancerState<C>,
    step: RetirementStep<C>,
    other: ProxyId,
)
    requires
        acted(
            before,
            RetirementAction::SendRetirementSignal { proxy_id: proxy, epoch: last },
            after,
            step,
        ),
        other != proxy,
    ensures
        after.retiring.contains_key(proxy),
        after.retiring[proxy] == last.0,
        after.retiring.contains_key(other) <==> before.retiring.contains_key(other),
        before.retiring.contains_key(other) ==> after.retiring[other] == before.retiring[other],
        after.connected == before.connected,
        after.owners == before.owners,
        after.scaler == before.scaler,
        step.released is None,
        before.connected.contains_key(proxy) ==> step.message == Some(
            (proxy, PrimaryToProxyMessage::RetirementSignal(last)),
        ),
        !before.connected.contains_key(proxy) ==> step.message is None,
{
}

/// A proxy whose retirement completes is disconnected and told so, nobody
/// else is; one fewer proxy is active, but never none.
pub proof fn law_completion_disconnects_the_retiree<C>(
    before: BalancerState<C>,
    proxy: ProxyId,
    after: BalancerState<C>,
    step: RetirementStep<C>,
    other: ProxyId,
)
    requires
        acted(before, RetirementAction::CompleteRetirement { proxy_id: proxy }, after, step),
        before.scaler.wf(),
        other != proxy,
    ensures
        !after.connected.contains_key(proxy),
        after.connected.contains_key(other) <==> before.connected.contains_key(other),
        before.connected.contains_key(other) ==> after.connected[other] == before.connected[other],
        after.scaler.active == (if before.scaler.active > 1 {
            before.scaler.active - 1
        } else {
            1
        }),
        after.retiring == before.retiring,
        !after.collected.persisted.contains_key(proxy),
        after.collected.persisted.contains_key(other) <==> before.collected.persisted.contains_key(
            other,
        ),
        before.connected.contains_key(proxy) ==> step.released == Some(before.connected[proxy])
            && step.message == Some((proxy, PrimaryToProxyMessage::ShutdownConfirmation)),
        !before.connected.contains_key(proxy) ==> step.released is None && step.message is None,
{
}

/// Accounting for the states of a proxy that retires changes and sends nothing.
pub proof fn law_accounting_changes_nothing<C>(
    before: BalancerState<C>,
    proxy: ProxyId,
    after: BalancerState<C>,
    step: RetirementStep<C>,
)
    requires
        acted(before, RetirementAction::UpdateOwnership { proxy_id: proxy }, after, step),
    ensures
        after == before,
        step.released is None,
        step.message is None,
{
}

/// Replay batches are sent whole, one message each, in their order.
pub proof fn law_replay_batches_are_sent_in_order(
    messages: Seq<PrimaryToProxyMessage>,
    batches: Seq<ReplayBatch>,
    i: int,
)
    requires
        carries(messages, batches),
        0 <= i < batches.len(),
    ensures
        messages.len() == batches.len(),
        messages[i] is Replay,
        messages[i]->Replay_0 == batches[i],
{
}

/// A retirement waits for a report of its last epoch or a later one; what
/// was reported of earlier epochs and all other phases leave it as it is.
pub proof fn law_retirement_waits_for_its_last_epoch(
    proxy: ProxyId,
    last: EpochId,
    epoch: EpochId,
    phase: RetirementPhase,
)
    ensures
        reported_by(RetirementPhase::AwaitingSnapshot { proxy_id: proxy, epoch: last }, epoch)
            is AwaitingNextEpochSeal <==> epoch.0 >= last.0,
        epoch.0 < last.0 ==> reported_by(
            RetirementPhase::AwaitingSnapshot { proxy_id: proxy, epoch: last },
            epoch,
        ) == (RetirementPhase::AwaitingSnapshot { proxy_id: proxy, epoch: last }),
        reported_by(phase, epoch).retiring() == phase.retiring(),
        !(phase is AwaitingSnapshot) ==> reported_by(phase, epoch) == phase,
{
}

proof fn lemma_highest_is_last(connected: Set<ProxyId>, proxy: ProxyId)
    requires
        crate::primary::connections::lists(
            crate::primary::connections::ascending(connected),
            connected,
        ),
        is_highest(proxy, connected),
    ensures
        crate::primary::replay::index_of_proxy(connected, proxy) == connected.len() - 1,
{
    let all = crate::primary::connections::ascending(connected);
    assert(connected.contains(proxy));
    assert(all.contains(proxy));
    let i = choose|i: int| 0 <= i < all.len() && all[i] == proxy;
    if i < all.len() - 1 {
        assert(all[i] < all.last());
        assert(all.contains(all.last()));
        assert(connected.contains(all.last()));
    }
    crate::primary::connections::lemma_listing_len(all, connected);
    lemma_place_is_bounded(all, i);
    crate::primary::roster::lemma_index_of_proxy(all, connected, i);
}

proof fn lemma_place_is_bounded(s: Seq<ProxyId>, i: int)
    requires
        forall|a: int, b: int| 0 <= a < b < s.len() ==> #[trigger] s[a] < #[trigger] s[b],
        0 <= i < s.len(),
    ensures
        i <= s[i],
    decreases i,
{
    if i > 0 {
        lemma_place_is_bounded(s, i - 1);
        assert(s[i - 1] < s[i]);
    }
}

/// The proxy with the highest identity is connected, and none that is
/// connected has a higher one; there is one such proxy only.
pub proof fn law_nobody_is_above_the_highest(
    proxy: ProxyId,
    other: ProxyId,
    connected: Set<ProxyId>,
)
    ensures
        is_highest(proxy, connected) <==> connected.contains(proxy) && !(exists|q: ProxyId|
            #[trigger] connected.contains(q) && q > proxy),
        is_highest(proxy, connected) && is_highest(other, connected) ==> proxy == other,
{
    if connected.contains(proxy) && !(exists|q: ProxyId| #[trigger]
        connected.contains(q) && q > proxy) {
        assert forall|q: ProxyId| #[trigger] connected.contains(q) implies q <= proxy by {}
    }
}

} // verus!
