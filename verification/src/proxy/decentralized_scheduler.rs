//! Scheduling without a coordinator: every proxy gets the same transactions
//! and comes to the same decisions.
use std::sync::Arc;

use vstd::prelude::*;

use crate::base_types::{
    ExecutorIndex, ObjectID, ProxyId, SequenceNumber, StateKey, INITIAL_VERSION,
};
use crate::config::{LoadBalancingPolicy, ProxyMode};
use crate::executor::api::{RequiredStates, TransactionWithTimestamp};
use crate::ordered_map::OrderedMap;
use crate::primary::elastic_scaler::OrderKey;
use crate::primary::shared_obj_txn_forwarder::{LoadTracking, ProxyChoice, SharedObjTxnForwarder};
use crate::random::{draw_usize, seeded, SeededRng};
use crate::recovery::{find_highest_version, keys_of};
use crate::tables::ConcurrentMap;

verus! {

/// A transaction with the proxy that executes it.
pub struct ScheduledTransaction {
    /// The transaction.
    pub transaction: Arc<TransactionWithTimestamp>,
    /// The states that it needs.
    pub required_versions: Vec<StateKey>,
    /// The same states, each with the proxy to ask for it.
    pub missing_states: RequiredStates,
    /// The proxy that executes the transaction.
    pub assigned_proxy: ExecutorIndex,
}

/// The number of required states that a proxy has.
pub open spec fn states_on(
    owners: Map<StateKey, ExecutorIndex>,
    required: Seq<StateKey>,
    index: int,
) -> nat
    decreases required.len(),
{
    if required.len() == 0 {
        0
    } else {
        states_on(owners, required.drop_last(), index) + (if owners.contains_key(required.last())
            && owners[required.last()] == index {
            1nat
        } else {
            0nat
        })
    }
}

/// The number of required states that each of the first proxies has.
pub open spec fn state_counts(
    count: nat,
    owners: Map<StateKey, ExecutorIndex>,
    required: Seq<StateKey>,
) -> Seq<usize> {
    Seq::new(count, |i: int| states_on(owners, required, i) as usize)
}

/// Whether a choice is what the policy asks for, among a number of proxies.
pub open spec fn chosen_by(
    choice: ProxyChoice,
    policy: LoadBalancingPolicy,
    count: usize,
    owners: Map<StateKey, ExecutorIndex>,
    required: Seq<StateKey>,
    txn_cnt: usize,
    destination: Option<ProxyId>,
    tracking: LoadTracking,
) -> bool {
    match policy {
        LoadBalancingPolicy::RoundRobin => decided_on(choice, txn_cnt % count),
        LoadBalancingPolicy::Zeus => decided_on(
            choice,
            if required.len() == 0 {
                0
            } else {
                crate::primary::shared_obj_txn_forwarder::best_by_count(
                    state_counts(count as nat, owners, required),
                    txn_cnt,
                )
            },
        ),
        LoadBalancingPolicy::Random => decided_on(
            choice,
            crate::random::drawn_index(
                usize::BITS,
                txn_cnt as u64,
                Seq::empty(),
                0,
                (count - 1) as usize,
            ),
        ),
        LoadBalancingPolicy::Hermes => decided_on(
            choice,
            match destination {
                Some(dest) => dest,
                None => 0,
            },
        ),
        LoadBalancingPolicy::LocalityLoad => {
            &&& choice matches ProxyChoice::ByScore { locality, loads }
            &&& locality@ =~= state_counts(count as nat, owners, required)
            &&& loads_of(loads@, count, tracking)
        },
        LoadBalancingPolicy::AffinityAware => {
            &&& choice matches ProxyChoice::ByScore { locality, loads }
            &&& locality@.len() == count
            &&& forall|i: int|
                0 <= i < count ==> #[trigger] locality@[i]
                    == crate::primary::shared_obj_txn_forwarder::accesses(
                    tracking.history(i),
                    required,
                )
            &&& loads_of(loads@, count, tracking)
        },
        _ => false,
    }
}

/// Whether a policy that decides by itself can come to a proxy: one of those
/// that there are, or the one that the transaction asks for.
pub open spec fn may_choose(
    policy: LoadBalancingPolicy,
    count: usize,
    destination: Option<ProxyId>,
    selected: ExecutorIndex,
) -> bool {
    if policy == LoadBalancingPolicy::Hermes {
        selected == (match destination {
            Some(dest) => dest,
            None => 0,
        })
    } else {
        selected < count
    }
}

/// Whether a choice is a given proxy.
pub open spec fn decided_on(choice: ProxyChoice, index: ExecutorIndex) -> bool {
    choice == ProxyChoice::Decided(Some((index, index)))
}

/// Whether these are the loads of the first proxies.
pub open spec fn loads_of(loads: Seq<usize>, count: usize, tracking: LoadTracking) -> bool {
    &&& loads.len() == count
    &&& forall|i: int|
        0 <= i < count ==> #[trigger] loads[i]
            == crate::primary::shared_obj_txn_forwarder::count_at(tracking.loads(), i as usize)
}

/// The proxies that have states, and the states of a transaction, while they
/// are looked up one by one.
#[verifier::ext_equal]
pub struct StateMapping {
    pub owners: Map<StateKey, ExecutorIndex>,
    pub required: Map<StateKey, Option<ProxyId>>,
}

impl StateMapping {
    /// The mapping once one more state is looked up: the executing proxy gets
    /// the version that the transaction writes, and nobody has the one that it
    /// reads any more.
    pub open spec fn with(
        self,
        key: StateKey,
        next: SequenceNumber,
        selected: ExecutorIndex,
    ) -> Self {
        StateMapping {
            owners: self.owners.insert((key.0, next), selected).remove(key),
            required: self.required.insert(
                key,
                if self.owners.contains_key(key) && self.owners[key] != selected {
                    Some(self.owners[key])
                } else {
                    None
                },
            ),
        }
    }

    /// The mapping once a sequence of states is looked up, in order.
    pub open spec fn with_all(
        self,
        keys: Seq<StateKey>,
        next: SequenceNumber,
        selected: ExecutorIndex,
    ) -> Self
        decreases keys.len(),
    {
        if keys.len() == 0 {
            self
        } else {
            self.with_all(keys.drop_last(), next, selected).with(keys.last(), next, selected)
        }
    }
}

/// The mapping once a transaction is scheduled on a proxy.
pub open spec fn mapped(
    owners: Map<StateKey, ExecutorIndex>,
    required: Seq<StateKey>,
    selected: ExecutorIndex,
) -> StateMapping {
    let none = StateMapping { owners, required: Map::empty() };
    none.with_all(
        required,
        crate::primary::shared_obj_txn_forwarder::assigned_version(required),
        selected,
    )
}

/// What scheduling a transaction does to the loads and the accesses: the
/// proxy gets the time that the transaction takes, and under the policy that
/// goes by accesses one access for each state.
pub open spec fn tracked_after(
    before: LoadTracking,
    after: LoadTracking,
    policy: LoadBalancingPolicy,
    count: usize,
    required: Seq<StateKey>,
    keys: Seq<StateKey>,
    selected: ExecutorIndex,
    transaction: TransactionWithTimestamp,
) -> bool {
    if required.len() == 0 {
        after == before
    } else {
        &&& after.loads() =~= before.loads().insert(
            selected,
            (crate::primary::shared_obj_txn_forwarder::count_at(before.loads(), selected)
                + execution_micros(transaction)) as usize,
        )
        &&& forall|i: int|
            0 <= i < count && !(policy == LoadBalancingPolicy::AffinityAware && i == selected)
                ==> (#[trigger] after.history(i)) == before.history(i)
        &&& policy == LoadBalancingPolicy::AffinityAware ==> after.history(selected as int)
            =~= crate::primary::shared_obj_txn_forwarder::accessed(
            before.history(selected as int),
            keys,
        )
    }
}

/// Schedules transactions on one of the proxies.
pub struct DecentralizedScheduler {
    proxy_id: ProxyId,
    proxy_count: usize,
    policy: LoadBalancingPolicy,
    proxy_mode: ProxyMode,
    states_to_proxy: ConcurrentMap<StateKey, ExecutorIndex>,
    tracking: LoadTracking,
}

impl DecentralizedScheduler {
    /// The mode of the proxies.
    pub closed spec fn spec_proxy_mode(&self) -> ProxyMode {
        self.proxy_mode
    }

    /// Whether this is the scheduler of the same proxy among the same ones,
    /// with the same policy and mode.
    pub open spec fn same_role(&self, other: &Self) -> bool {
        &&& self.spec_proxy_id() == other.spec_proxy_id()
        &&& self.count() == other.count()
        &&& self.spec_policy() == other.spec_policy()
        &&& self.spec_proxy_mode() == other.spec_proxy_mode()
    }

    /// The proxy that this scheduler runs on.
    pub closed spec fn spec_proxy_id(&self) -> ProxyId {
        self.proxy_id
    }

    /// The number of proxies.
    pub closed spec fn count(&self) -> usize {
        self.proxy_count
    }

    /// The policy.
    pub closed spec fn spec_policy(&self) -> LoadBalancingPolicy {
        self.policy
    }

    /// The proxy that has each state.
    pub closed spec fn owners(&self) -> Map<StateKey, ExecutorIndex> {
        self.states_to_proxy@
    }

    /// The loads and the accesses of the proxies.
    pub closed spec fn spec_tracking(&self) -> LoadTracking {
        self.tracking
    }

    /// There is a proxy, and the accesses of each one are counted.
    pub closed spec fn wf(&self) -> bool {
        self.proxy_count > 0 && self.tracking.slots() == self.proxy_count
    }

    /// No proxy has any state.
    pub fn new(
        proxy_id: ProxyId,
        proxy_count: usize,
        policy: LoadBalancingPolicy,
        proxy_mode: ProxyMode,
    ) -> (scheduler: Self)
        requires
            proxy_count > 0,
        ensures
            scheduler.wf(),
            scheduler.spec_proxy_id() == proxy_id,
            scheduler.count() == proxy_count,
            scheduler.spec_policy() == policy,
            scheduler.spec_proxy_mode() == proxy_mode,
            scheduler.owners() =~= Map::<StateKey, ExecutorIndex>::empty(),
            scheduler.spec_tracking().loads() =~= Map::<ExecutorIndex, usize>::empty(),
            scheduler.spec_tracking().slots() == proxy_count,
            forall|i: int|
                0 <= i < proxy_count ==> (#[trigger] scheduler.spec_tracking().history(i)) =~= Map::<
                    ObjectID,
                    usize,
                >::empty(),
    {
        DecentralizedScheduler {
            proxy_id,
            proxy_count,
            policy,
            proxy_mode,
            states_to_proxy: ConcurrentMap::new(),
            tracking: LoadTracking::new(proxy_count),
        }
    }

    /// Whether a scheduled transaction is for this proxy.
    pub fn is_assigned_here(&self, scheduled: &ScheduledTransaction) -> (here: bool)
        ensures
            here == (scheduled.assigned_proxy == self.spec_proxy_id()),
    {
        scheduled.assigned_proxy == self.proxy_id
    }

    /// The number of required states that each proxy has.
    fn locality_counts(&self, required_versions: &Vec<StateKey>) -> (counts: Vec<usize>)
        requires
            self.wf(),
        ensures
            counts@ =~= state_counts(self.count() as nat, self.owners(), required_versions@),
    {
        let mut counts: Vec<usize> = Vec::new();
        while counts.len() < self.proxy_count
            invariant
                counts@.len() <= self.proxy_count,
                forall|i: int| 0 <= i < counts@.len() ==> counts@[i] == 0,
            decreases self.proxy_count - counts@.len(),
        {
            counts.push(0);
        }
        let mut k: usize = 0;
        while k < required_versions.len()
            invariant
                k <= required_versions.len(),
                counts@.len() == self.proxy_count,
                forall|i: int|
                    0 <= i < counts@.len() ==> #[trigger] counts@[i] as nat == states_on(
                        self.owners(),
                        required_versions@.take(k as int),
                        i,
                    ),
                forall|i: int| 0 <= i < counts@.len() ==> #[trigger] counts@[i] <= k,
            decreases required_versions.len() - k,
        {
            proof {
                assert(required_versions@.take(k + 1).drop_last() =~= required_versions@.take(
                    k as int,
                ));
            }
            if let Some(owner) = self.states_to_proxy.get(&required_versions[k]) {
                if owner < self.proxy_count {
                    let held: usize = counts[owner];
                    counts.set(owner, held + 1);
                }
            }
            k = k + 1;
        }
        proof {
            assert(required_versions@.take(k as int) =~= required_versions@);
        }
        counts
    }

    /// Chooses a proxy for a transaction by the policy.
    pub fn get_proxy_for_shared_objects(
        &self,
        required_versions: &Vec<StateKey>,
        txn_cnt: usize,
        destination: Option<ProxyId>,
    ) -> (choice: ProxyChoice)
        requires
            self.wf(),
            self.spec_policy() != LoadBalancingPolicy::Dedicated,
            self.spec_policy() != LoadBalancingPolicy::Combined,
            self.spec_policy() == LoadBalancingPolicy::AffinityAware ==> forall|i: int|
                0 <= i < self.count() ==> crate::primary::shared_obj_txn_forwarder::accesses(
                    #[trigger] self.spec_tracking().history(i),
                    required_versions@,
                ) <= usize::MAX,
        ensures
            chosen_by(
                choice,
                self.spec_policy(),
                self.count(),
                self.owners(),
                required_versions@,
                txn_cnt,
                destination,
                self.spec_tracking(),
            ),
            choice matches ProxyChoice::Decided(Some((selected, _))) ==> may_choose(
                self.spec_policy(),
                self.count(),
                destination,
                selected,
            ),
    {
        proof {
            if self.policy == LoadBalancingPolicy::AffinityAware {
                assert forall|i: int| 0 <= i < self.proxy_count implies
                    crate::primary::shared_obj_txn_forwarder::accesses(
                    #[trigger] self.tracking.history(i),
                    required_versions@,
                ) <= usize::MAX by {
                    assert(self.spec_tracking().history(i) == self.tracking.history(i));
                }
            }
        }
        match self.policy {
            LoadBalancingPolicy::RoundRobin => {
                let index: ExecutorIndex = txn_cnt % self.proxy_count;
                ProxyChoice::Decided(Some((index, index)))
            },
            LoadBalancingPolicy::Zeus => {
                if required_versions.len() == 0 {
                    return ProxyChoice::Decided(Some((0, 0)));
                }
                let counts: Vec<usize> = self.locality_counts(required_versions);
                let index: ExecutorIndex = SharedObjTxnForwarder::select_most(&counts, txn_cnt);
                ProxyChoice::Decided(Some((index, index)))
            },
            LoadBalancingPolicy::Random => {
                let mut rng: SeededRng = seeded(txn_cnt as u64);
                let index: ExecutorIndex = draw_usize(&mut rng, 0, self.proxy_count - 1);
                ProxyChoice::Decided(Some((index, index)))
            },
            LoadBalancingPolicy::Hermes => {
                let index: ExecutorIndex = match destination {
                    Some(dest) => dest,
                    None => 0,
                };
                ProxyChoice::Decided(Some((index, index)))
            },
            LoadBalancingPolicy::LocalityLoad => ProxyChoice::ByScore {
                locality: self.locality_counts(required_versions),
                loads: self.tracking.current_loads(self.proxy_count),
            },
            _ => ProxyChoice::ByScore {
                locality: self.tracking.access_counts(required_versions, self.proxy_count),
                loads: self.tracking.current_loads(self.proxy_count),
            },
        }
    }

    /// Whether a transaction can be scheduled on a proxy: no version, load or
    /// count gets too large.
    pub open spec fn can_assign(
        &self,
        required: Seq<StateKey>,
        selected: ExecutorIndex,
        transaction: TransactionWithTimestamp,
    ) -> bool {
        &&& crate::recovery::can_advance(required)
        &&& required.len() > 0 ==> {
            &&& transaction.expected_stateful_duration.wf()
            &&& transaction.verification_duration.wf()
            &&& transaction.expected_stateful_duration.secs + transaction.verification_duration.secs
                < u64::MAX
            &&& crate::primary::shared_obj_txn_forwarder::count_at(
                self.spec_tracking().loads(),
                selected,
            ) + execution_micros(transaction) <= usize::MAX
            &&& self.spec_policy() == LoadBalancingPolicy::AffinityAware ==> {
                &&& selected < self.count()
                &&& forall|id: ObjectID|
                    crate::primary::shared_obj_txn_forwarder::count_at(
                        self.spec_tracking().history(selected as int),
                        id,
                    ) + #[trigger] crate::primary::shared_obj_txn_forwarder::occurrences(
                        required,
                        id,
                    ) <= usize::MAX
            }
        }
    }

    /// Schedules a transaction on a proxy: what the transaction writes will be
    /// there. The states that it needs come back, each with the proxy to ask
    /// for it. Where it needs none, nothing changes.
    pub fn update_state_mapping(
        &mut self,
        required_versions: &Vec<StateKey>,
        selected_proxy: ExecutorIndex,
        transaction: &TransactionWithTimestamp,
    ) -> (required: RequiredStates)
        requires
            old(self).wf(),
            old(self).can_assign(required_versions@, selected_proxy, *transaction),
        ensures
            final(self).wf(),
            final(self).same_role(old(self)),
            required.wf(),
            ({
                let expected = mapped(old(self).owners(), required_versions@, selected_proxy);
                &&& required@ =~= expected.required
                &&& final(self).owners() =~= expected.owners
            }),
            tracked_after(
                old(self).spec_tracking(),
                final(self).spec_tracking(),
                old(self).spec_policy(),
                old(self).count(),
                required_versions@,
                crate::recovery::required_keys(required),
                selected_proxy,
                *transaction,
            ),
    {
        let mut required: RequiredStates = OrderedMap::new();
        if required_versions.len() == 0 {
            return required;
        }
        let ghost owners = self.owners();
        let ghost none = StateMapping { owners, required: Map::empty() };
        let ghost start = *self;
        let highest: SequenceNumber = find_highest_version(required_versions);
        let next_version: SequenceNumber = if highest > INITIAL_VERSION {
            highest + 1
        } else {
            INITIAL_VERSION + 1
        };
        let mut i: usize = 0;
        while i < required_versions.len()
            invariant
                i <= required_versions.len(),
                required.wf(),
                self.proxy_id == start.proxy_id,
                self.proxy_count == start.proxy_count,
                self.policy == start.policy,
                self.proxy_mode == start.proxy_mode,
                self.tracking == start.tracking,
                ({
                    let expected = none.with_all(
                        required_versions@.take(i as int),
                        next_version,
                        selected_proxy,
                    );
                    &&& required@ =~= expected.required
                    &&& self.owners() =~= expected.owners
                }),
                forall|k: StateKey| #[trigger]
                    required@.contains_key(k) ==> required_versions@.take(i as int).contains(k),
            decreases required_versions.len() - i,
        {
            proof {
                assert(required_versions@.take(i + 1).drop_last() =~= required_versions@.take(
                    i as int,
                ));
                crate::checkpoint::state_collector::lemma_take_contains(
                    required_versions@,
                    i as int,
                );
            }
            let key: StateKey = required_versions[i];
            let owner: Option<ProxyId> = match self.states_to_proxy.get(&key) {
                Some(known) => {
                    if known != selected_proxy {
                        Some(known)
                    } else {
                        None
                    }
                },
                None => None,
            };
            required.insert(key, owner);
            let _ = self.states_to_proxy.insert((key.0, next_version), selected_proxy);
            let _ = self.states_to_proxy.remove(&key);
            i = i + 1;
        }
        proof {
            assert(required_versions@.take(i as int) =~= required_versions@);
        }
        let duration = transaction.expected_stateful_duration.plus(
            &transaction.verification_duration,
        );
        let increase: usize = duration.as_micros() as usize;
        self.tracking.add_load(selected_proxy, increase);
        if self.policy == LoadBalancingPolicy::AffinityAware {
            let keys: Vec<StateKey> = keys_of(&required);
            proof {
                lemma_keys_listed(required, required_versions@);
                assert forall|id: ObjectID|
                    crate::primary::shared_obj_txn_forwarder::count_at(
                        self.tracking.history(selected_proxy as int),
                        id,
                    ) + #[trigger] crate::primary::shared_obj_txn_forwarder::occurrences(
                        keys@,
                        id,
                    ) <= usize::MAX by {
                    lemma_occurrences_within(keys@, required_versions@, id);
                    assert(crate::primary::shared_obj_txn_forwarder::count_at(
                        old(self).spec_tracking().history(selected_proxy as int),
                        id,
                    ) + crate::primary::shared_obj_txn_forwarder::occurrences(
                        required_versions@,
                        id,
                    ) <= usize::MAX);
                }
            }
            self.tracking.record_accesses(selected_proxy, &keys);
        }
        required
    }

    /// Schedules a transaction on a chosen proxy.
    pub fn assign(
        &mut self,
        transaction: &Arc<TransactionWithTimestamp>,
        required_versions: Vec<StateKey>,
        selected_proxy: ExecutorIndex,
    ) -> (scheduled: ScheduledTransaction)
        requires
            old(self).wf(),
            old(self).can_assign(required_versions@, selected_proxy, **transaction),
        ensures
            final(self).wf(),
            final(self).same_role(old(self)),
            scheduled.transaction == *transaction,
            scheduled.required_versions == required_versions,
            scheduled.assigned_proxy == selected_proxy,
            scheduled.missing_states.wf(),
            ({
                let expected = mapped(old(self).owners(), required_versions@, selected_proxy);
                &&& scheduled.missing_states@ =~= expected.required
                &&& final(self).owners() =~= expected.owners
            }),
            tracked_after(
                old(self).spec_tracking(),
                final(self).spec_tracking(),
                old(self).spec_policy(),
                old(self).count(),
                required_versions@,
                crate::recovery::required_keys(scheduled.missing_states),
                selected_proxy,
                **transaction,
            ),
    {
        let missing_states: RequiredStates = self.update_state_mapping(
            &required_versions,
            selected_proxy,
            transaction,
        );
        ScheduledTransaction {
            transaction: Arc::clone(transaction),
            required_versions,
            missing_states,
            assigned_proxy: selected_proxy,
        }
    }

    /// Schedules a transaction by the policy. `None` where the policy goes by
    /// scores: then [`DecentralizedScheduler::process_scored_transaction`]
    /// takes them.
    pub fn process_single_transaction(
        &mut self,
        transaction: &Arc<TransactionWithTimestamp>,
        txn_cnt: usize,
    ) -> (scheduled: Option<ScheduledTransaction>)
        requires
            old(self).wf(),
            old(self).spec_policy() != LoadBalancingPolicy::Dedicated,
            old(self).spec_policy() != LoadBalancingPolicy::Combined,
            !goes_by_score(old(self).spec_policy()) ==> forall|selected: ExecutorIndex|
                may_choose(
                    old(self).spec_policy(),
                    old(self).count(),
                    transaction.destination,
                    selected,
                ) ==> #[trigger] old(self).can_assign(
                    needs_of(**transaction),
                    selected,
                    **transaction,
                ),
        ensures
            final(self).wf(),
            ({
                let needs = needs_of(**transaction);
                match scheduled {
                    Some(txn) => {
                        &&& !goes_by_score(old(self).spec_policy())
                        &&& chosen_by(
                            ProxyChoice::Decided(Some((txn.assigned_proxy, txn.assigned_proxy))),
                            old(self).spec_policy(),
                            old(self).count(),
                            old(self).owners(),
                            needs,
                            txn_cnt,
                            transaction.destination,
                            old(self).spec_tracking(),
                        )
                        &&& txn.transaction == *transaction
                        &&& txn.required_versions@ == needs
                        &&& txn.missing_states@ =~= mapped(
                            old(self).owners(),
                            needs,
                            txn.assigned_proxy,
                        ).required
                        &&& final(self).owners() =~= mapped(
                            old(self).owners(),
                            needs,
                            txn.assigned_proxy,
                        ).owners
                        &&& txn.missing_states.wf()
                        &&& final(self).same_role(old(self))
                        &&& tracked_after(
                            old(self).spec_tracking(),
                            final(self).spec_tracking(),
                            old(self).spec_policy(),
                            old(self).count(),
                            needs,
                            crate::recovery::required_keys(txn.missing_states),
                            txn.assigned_proxy,
                            **transaction,
                        )
                    },
                    None => goes_by_score(old(self).spec_policy()) && *final(self) == *old(self),
                }
            }),
    {
        match self.policy {
            LoadBalancingPolicy::LocalityLoad => {
                return None;
            },
            LoadBalancingPolicy::AffinityAware => {
                return None;
            },
            _ => {},
        }
        let required_versions: Vec<StateKey> = transaction.required_versions();
        match self.get_proxy_for_shared_objects(
            &required_versions,
            txn_cnt,
            transaction.destination,
        ) {
            ProxyChoice::Decided(Some((selected, _))) => {
                proof {
                    assert(self.can_assign(needs_of(**transaction), selected, **transaction));
                }
                Some(self.assign(transaction, required_versions, selected))
            },
            _ => None,
        }
    }

    /// Schedules a transaction on the first of the best-scored proxies.
    pub fn process_scored_transaction(
        &mut self,
        transaction: &Arc<TransactionWithTimestamp>,
        scores: &Vec<OrderKey>,
    ) -> (scheduled: ScheduledTransaction)
        requires
            old(self).wf(),
            scores@.len() == old(self).count(),
            forall|selected: ExecutorIndex|
                selected < old(self).count() ==> #[trigger] old(self).can_assign(
                    needs_of(**transaction),
                    selected,
                    **transaction,
                ),
        ensures
            final(self).wf(),
            final(self).same_role(old(self)),
            crate::primary::shared_obj_txn_forwarder::first_best(
                scores@,
                scheduled.assigned_proxy as int,
            ),
            scheduled.transaction == *transaction,
            scheduled.missing_states.wf(),
            ({
                let needs = needs_of(**transaction);
                let expected = mapped(old(self).owners(), needs, scheduled.assigned_proxy);
                &&& scheduled.required_versions@ == needs
                &&& scheduled.missing_states@ =~= expected.required
                &&& final(self).owners() =~= expected.owners
                &&& tracked_after(
                    old(self).spec_tracking(),
                    final(self).spec_tracking(),
                    old(self).spec_policy(),
                    old(self).count(),
                    needs,
                    crate::recovery::required_keys(scheduled.missing_states),
                    scheduled.assigned_proxy,
                    **transaction,
                )
            }),
    {
        let required_versions: Vec<StateKey> = transaction.required_versions();
        let best: usize = SharedObjTxnForwarder::select_best(scores);
        proof {
            assert(self.can_assign(needs_of(**transaction), best, **transaction));
        }
        self.assign(transaction, required_versions, best)
    }
}

/// The states that a transaction needs: the assigned versions of its shared objects.
pub open spec fn needs_of(transaction: TransactionWithTimestamp) -> Seq<StateKey> {
    TransactionWithTimestamp::assigned_versions(transaction.shared_objects@)
}

/// Whether a policy goes by scores.
pub open spec fn goes_by_score(policy: LoadBalancingPolicy) -> bool {
    policy == LoadBalancingPolicy::LocalityLoad || policy == LoadBalancingPolicy::AffinityAware
}

/// How long a transaction takes to check and execute, in microseconds.
pub open spec fn execution_micros(transaction: TransactionWithTimestamp) -> int {
    (transaction.expected_stateful_duration.total_nanos()
        + transaction.verification_duration.total_nanos()) / 1_000
}

proof fn lemma_keys_listed(required: RequiredStates, listed: Seq<StateKey>)
    requires
        required.wf(),
        forall|k: StateKey| #[trigger] required@.contains_key(k) ==> listed.contains(k),
    ensures
        crate::recovery::required_keys(required).no_duplicates(),
        forall|i: int|
            0 <= i < crate::recovery::required_keys(required).len() ==> listed.contains(
                #[trigger] crate::recovery::required_keys(required)[i],
            ),
{
    let keys = crate::recovery::required_keys(required);
    let entries = required.sorted();
    assert forall|i: int, j: int| 0 <= i < keys.len() && 0 <= j < keys.len() && i != j implies keys[i]
        != keys[j] by {
        if keys[i] == keys[j] {
            crate::ordered_map::lemma_increasing_keys_distinct(entries, i, j);
        }
    }
    assert forall|i: int| 0 <= i < keys.len() implies listed.contains(#[trigger] keys[i]) by {
        crate::ordered_map::lemma_entry_in_map(entries, i);
        assert(required@.contains_key(keys[i]));
    }
}

proof fn lemma_occurrences_removed(s: Seq<StateKey>, j: int, id: ObjectID)
    requires
        0 <= j < s.len(),
    ensures
        crate::primary::shared_obj_txn_forwarder::occurrences(s, id)
            == crate::primary::shared_obj_txn_forwarder::occurrences(s.remove(j), id) + (if s[j].0
            == id {
            1nat
        } else {
            0nat
        }),
    decreases s.len(),
{
    if j == s.len() - 1 {
        assert(s.remove(j) =~= s.drop_last());
    } else {
        lemma_occurrences_removed(s.drop_last(), j, id);
        assert(s.remove(j).drop_last() =~= s.drop_last().remove(j));
        assert(s.remove(j).last() == s.last());
    }
}

proof fn lemma_occurrences_within(keys: Seq<StateKey>, listed: Seq<StateKey>, id: ObjectID)
    requires
        keys.no_duplicates(),
        forall|i: int| 0 <= i < keys.len() ==> listed.contains(#[trigger] keys[i]),
    ensures
        crate::primary::shared_obj_txn_forwarder::occurrences(keys, id)
            <= crate::primary::shared_obj_txn_forwarder::occurrences(listed, id),
    decreases keys.len(),
{
    if keys.len() > 0 {
        let rest = keys.drop_last();
        let last = keys.last();
        assert(listed.contains(keys[keys.len() - 1]));
        let j = choose|j: int| 0 <= j < listed.len() && listed[j] == last;
        let fewer = listed.remove(j);
        lemma_occurrences_removed(listed, j, id);
        assert forall|i: int| 0 <= i < rest.len() implies fewer.contains(#[trigger] rest[i]) by {
            assert(listed.contains(keys[i]));
            let k = choose|k: int| 0 <= k < listed.len() && listed[k] == keys[i];
            assert(keys[i] != keys[keys.len() - 1]);
            if k < j {
                assert(fewer[k] == keys[i]);
            } else {
                assert(fewer[k - 1] == keys[i]);
            }
        }
        lemma_occurrences_within(rest, fewer, id);
    }
}

/// Whether two choices come to the same: the same proxy, or the same figures
/// to score the proxies by.
pub open spec fn same_choice(a: ProxyChoice, b: ProxyChoice) -> bool {
    match (a, b) {
        (ProxyChoice::Decided(x), ProxyChoice::Decided(y)) => x == y,
        (
            ProxyChoice::ByScore { locality: p, loads: x },
            ProxyChoice::ByScore { locality: q, loads: y },
        ) => p@ =~= q@ && x@ =~= y@,
        _ => false,
    }
}

/// Proxies that know the same come to the same decision on the same
/// transaction, whatever the policy, without talking to each other.
pub proof fn law_proxies_decide_alike(
    first: ProxyChoice,
    second: ProxyChoice,
    policy: LoadBalancingPolicy,
    count: usize,
    owners: Map<StateKey, ExecutorIndex>,
    required: Seq<StateKey>,
    txn_cnt: usize,
    destination: Option<ProxyId>,
    tracking: LoadTracking,
)
    requires
        chosen_by(first, policy, count, owners, required, txn_cnt, destination, tracking),
        chosen_by(second, policy, count, owners, required, txn_cnt, destination, tracking),
    ensures
        same_choice(first, second),
{
}

/// Once a transaction is scheduled, its proxy has the version that it writes
/// of each of its objects, and nobody has the versions that it needed.
pub proof fn law_scheduled_proxy_has_what_it_writes(
    owners: Map<StateKey, ExecutorIndex>,
    required: Seq<StateKey>,
    selected: ExecutorIndex,
    i: int,
)
    requires
        0 <= i < required.len(),
        crate::recovery::can_advance(required),
    ensures
        ({
            let after = mapped(owners, required, selected).owners;
            let next = crate::primary::shared_obj_txn_forwarder::assigned_version(required);
            &&& after.contains_key((required[i].0, next))
            &&& after[(required[i].0, next)] == selected
            &&& !after.contains_key(required[i])
        }),
{
    let next = crate::primary::shared_obj_txn_forwarder::assigned_version(required);
    crate::recovery::lemma_highest_version(required);
    let none = StateMapping { owners, required: Map::empty() };
    assert forall|k: int| 0 <= k < required.len() implies (#[trigger] required[k]).1 < next by {}
    lemma_mapped(none, required, next, selected, i);
}

proof fn lemma_mapped(
    start: StateMapping,
    required: Seq<StateKey>,
    next: SequenceNumber,
    selected: ExecutorIndex,
    i: int,
)
    requires
        0 <= i < required.len(),
        forall|k: int| 0 <= k < required.len() ==> (#[trigger] required[k]).1 < next,
    ensures
        ({
            let after = start.with_all(required, next, selected).owners;
            &&& after.contains_key((required[i].0, next))
            &&& after[(required[i].0, next)] == selected
            &&& !after.contains_key(required[i])
        }),
    decreases required.len(),
{
    let rest = required.drop_last();
    assert(required[required.len() - 1].1 < next);
    if i < rest.len() {
        assert forall|k: int| 0 <= k < rest.len() implies (#[trigger] rest[k]).1 < next by {
            assert(required[k].1 < next);
        }
        lemma_mapped(start, rest, next, selected, i);
        assert(required[i].1 < next);
    }
}

/// The places at which the list of required states has one of which a proxy
/// is the owner.
pub open spec fn places_of(
    owners: Map<StateKey, ExecutorIndex>,
    required: Seq<StateKey>,
    index: int,
) -> Set<int> {
    Set::new(
        |i: int|
            0 <= i < required.len() && owners.contains_key(required[i]) && owners[required[i]]
                == index,
    )
}

/// What a proxy has of the required states is counted one by one: it is the
/// number of places at which the list of required states has one of which the
/// proxy is the owner.
pub proof fn law_states_are_counted(
    owners: Map<StateKey, ExecutorIndex>,
    required: Seq<StateKey>,
    index: int,
)
    ensures
        states_on(owners, required, index) == places_of(owners, required, index).len(),
    decreases required.len(),
{
    let holds = |i: int| owners.contains_key(required[i]) && owners[required[i]] == index;
    crate::counting::lemma_places(required.len() as int, holds);
    assert(places_of(owners, required, index) =~= crate::counting::places(
        required.len() as int,
        holds,
    ));
    if required.len() > 0 {
        let rest = required.drop_last();
        law_states_are_counted(owners, rest, index);
        assert(places_of(owners, rest, index) =~= crate::counting::places(
            rest.len() as int,
            holds,
        ));
    }
}

proof fn lemma_counted(
    count: nat,
    owners: Map<StateKey, ExecutorIndex>,
    required: Seq<StateKey>,
    index: int,
)
    requires
        0 <= index < count,
        required.len() <= usize::MAX,
    ensures
        state_counts(count, owners, required).len() == count,
        state_counts(count, owners, required)[index] == places_of(owners, required, index).len(),
{
    let holds = |i: int| owners.contains_key(required[i]) && owners[required[i]] == index;
    law_states_are_counted(owners, required, index);
    crate::counting::lemma_places(required.len() as int, holds);
    assert(places_of(owners, required, index) =~= crate::counting::places(
        required.len() as int,
        holds,
    ));
}

/// The proxy chosen by most states has at least as many of the required states
/// as any other; among several the first turn is that of the first of them.
pub proof fn law_most_states_are_with_the_chosen_proxy(
    choice: ProxyChoice,
    count: usize,
    owners: Map<StateKey, ExecutorIndex>,
    required: Seq<StateKey>,
    txn_cnt: usize,
    destination: Option<ProxyId>,
    tracking: LoadTracking,
    other: int,
)
    requires
        chosen_by(
            choice,
            LoadBalancingPolicy::Zeus,
            count,
            owners,
            required,
            txn_cnt,
            destination,
            tracking,
        ),
        0 < required.len() <= usize::MAX,
        0 <= other < count,
    ensures
        choice matches ProxyChoice::Decided(Some((selected, checker))) && selected == checker
            && selected < count && places_of(owners, required, other).len() <= places_of(
            owners,
            required,
            selected as int,
        ).len(),
{
    let counts = state_counts(count as nat, owners, required);
    crate::primary::placement::law_chosen_count_is_the_highest(counts, txn_cnt, other);
    let best = crate::primary::shared_obj_txn_forwarder::best_by_count(counts, txn_cnt);
    lemma_counted(count as nat, owners, required, other);
    lemma_counted(count as nat, owners, required, best as int);
}

/// What the policies come to without a primary: whose turn it is, the first
/// proxy where no state is required, whom the transaction asks for, or for
/// each proxy how many of the required states it has and how loaded it is.
pub proof fn law_proxies_choose_as_the_policy_says(
    choice: ProxyChoice,
    policy: LoadBalancingPolicy,
    count: usize,
    owners: Map<StateKey, ExecutorIndex>,
    required: Seq<StateKey>,
    txn_cnt: usize,
    destination: Option<ProxyId>,
    tracking: LoadTracking,
)
    requires
        chosen_by(choice, policy, count, owners, required, txn_cnt, destination, tracking),
        count > 0,
        required.len() <= usize::MAX,
    ensures
        policy == LoadBalancingPolicy::RoundRobin ==> (choice matches ProxyChoice::Decided(
            Some((selected, checker)),
        ) && selected == checker && selected < count && exists|rounds: nat|
            txn_cnt == #[trigger] (rounds * (count as nat)) + selected),
        policy == LoadBalancingPolicy::Zeus && required.len() == 0 ==> choice
            == ProxyChoice::Decided(Some((0, 0))),
        policy == LoadBalancingPolicy::Hermes ==> choice == ProxyChoice::Decided(
            match destination {
                Some(dest) => Some((dest, dest)),
                None => Some((0, 0)),
            },
        ),
        policy == LoadBalancingPolicy::Random ==> (choice matches ProxyChoice::Decided(
            Some((selected, checker)),
        ) && selected == checker && selected == crate::random::drawn_index(
            usize::BITS,
            txn_cnt as u64,
            Seq::empty(),
            0,
            (count - 1) as usize,
        )),
        policy == LoadBalancingPolicy::LocalityLoad ==> {
            &&& choice matches ProxyChoice::ByScore { locality, loads }
            &&& locality@.len() == count
            &&& forall|k: int|
                0 <= k < count ==> #[trigger] locality@[k] == places_of(owners, required, k).len()
        },
        policy == LoadBalancingPolicy::AffinityAware ==> {
            &&& choice matches ProxyChoice::ByScore { locality, loads }
            &&& locality@.len() == count
            &&& forall|k: int|
                0 <= k < count ==> #[trigger] locality@[k]
                    == crate::primary::shared_obj_txn_forwarder::accesses(
                    tracking.history(k),
                    required,
                )
        },
        choice matches ProxyChoice::ByScore { locality, loads } ==> {
            &&& loads@.len() == count
            &&& forall|k: int|
                0 <= k < count ==> #[trigger] loads@[k] == (if tracking.loads().contains_key(
                    k as usize,
                ) {
                    tracking.loads()[k as usize]
                } else {
                    0
                })
        },
{
    if policy == LoadBalancingPolicy::RoundRobin {
        vstd::arithmetic::div_mod::lemma_fundamental_div_mod(txn_cnt as int, count as int);
        let rounds = (txn_cnt / count) as nat;
        assert(count * (txn_cnt / count) == rounds * (count as nat)) by (nonlinear_arith)
            requires
                rounds == txn_cnt / count,
        ;
        assert(txn_cnt == (rounds * (count as nat)) + txn_cnt % count);
    }
    if policy == LoadBalancingPolicy::LocalityLoad {
        if let ProxyChoice::ByScore { locality, loads } = choice {
            assert forall|k: int| 0 <= k < count implies #[trigger] locality@[k]
                == places_of(owners, required, k).len() by {
                lemma_counted(count as nat, owners, required, k);
                assert(locality@[k] == state_counts(count as nat, owners, required)[k]);
            }
        }
    }
}

/// Where the states of a transaction are once it is scheduled: of each object
/// that it needs, its proxy has the version one above the highest that it
/// needs, and nobody has the version that it needs. All other states are where
/// they were.
pub proof fn law_scheduling_moves_the_states(
    owners: Map<StateKey, ExecutorIndex>,
    required: Seq<StateKey>,
    selected: ExecutorIndex,
    version: SequenceNumber,
    key: StateKey,
)
    requires
        required.len() > 0,
        forall|i: int| 0 <= i < required.len() ==> (#[trigger] required[i]).1 >= INITIAL_VERSION,
        forall|i: int| 0 <= i < required.len() ==> (#[trigger] required[i]).1 < version,
        exists|i: int| 0 <= i < required.len() && (#[trigger] required[i]).1 + 1 == version,
    ensures
        ({
            let after = mapped(owners, required, selected).owners;
            if required.contains(key) {
                !after.contains_key(key)
            } else if key.1 == version && exists|i: int|
                0 <= i < required.len() && (#[trigger] required[i]).0 == key.0 {
                after.contains_key(key) && after[key] == selected
            } else {
                after.get(key) == owners.get(key)
            }
        }),
{
    crate::recovery::law_last_version_has_no_successor(required);
    crate::recovery::law_written_version_follows_the_needs(required, version);
    crate::primary::shared_obj_txn_forwarder::law_needs_determine_assigned_version(required);
    lemma_moved(StateMapping { owners, required: Map::empty() }, required, version, selected, key);
}

proof fn lemma_moved(
    start: StateMapping,
    required: Seq<StateKey>,
    next: SequenceNumber,
    selected: ExecutorIndex,
    key: StateKey,
)
    requires
        forall|k: int| 0 <= k < required.len() ==> (#[trigger] required[k]).1 < next,
    ensures
        ({
            let after = start.with_all(required, next, selected).owners;
            if required.contains(key) {
                !after.contains_key(key)
            } else if key.1 == next && exists|i: int|
                0 <= i < required.len() && (#[trigger] required[i]).0 == key.0 {
                after.contains_key(key) && after[key] == selected
            } else {
                after.get(key) == start.owners.get(key)
            }
        }),
    decreases required.len(),
{
    if required.len() > 0 {
        let rest = required.drop_last();
        let last = required.last();
        assert forall|k: int| 0 <= k < rest.len() implies (#[trigger] rest[k]).1 < next by {
            assert(required[k].1 < next);
        }
        assert(required[required.len() - 1].1 < next);
        lemma_moved(start, rest, next, selected, key);
        if required.contains(key) && key != last {
            let k = choose|k: int| 0 <= k < required.len() && required[k] == key;
            assert(rest[k] == key);
        }
        if rest.contains(key) {
            let k = choose|k: int| 0 <= k < rest.len() && rest[k] == key;
            assert(required[k] == key);
        }
        if exists|i: int| 0 <= i < rest.len() && (#[trigger] rest[i]).0 == key.0 {
            let i = choose|i: int| 0 <= i < rest.len() && (#[trigger] rest[i]).0 == key.0;
            assert(required[i].0 == key.0);
        }
        if exists|i: int| 0 <= i < required.len() && (#[trigger] required[i]).0 == key.0 {
            let i = choose|i: int| 0 <= i < required.len() && (#[trigger] required[i]).0 == key.0;
            if i < rest.len() {
                assert(rest[i].0 == key.0);
            }
        }
    }
}

/// Whom a scheduled transaction on distinct objects asks for a state: the
/// proxy that has it, where that is another one than its own; else nobody.
pub proof fn law_scheduled_transaction_asks_the_owner(
    owners: Map<StateKey, ExecutorIndex>,
    required: Seq<StateKey>,
    selected: ExecutorIndex,
    key: StateKey,
)
    requires
        crate::primary::shared_obj_txn_forwarder::distinct_objects(required),
    ensures
        ({
            let asked = mapped(owners, required, selected).required;
            &&& asked.contains_key(key) <==> required.contains(key)
            &&& required.contains(key) && owners.contains_key(key) && owners[key] != selected
                ==> asked[key] == Some(owners[key])
            &&& required.contains(key) && !(owners.contains_key(key) && owners[key] != selected)
                ==> asked[key] is None
        }),
{
    lemma_asked(
        StateMapping { owners, required: Map::empty() },
        required,
        crate::primary::shared_obj_txn_forwarder::assigned_version(required),
        selected,
    );
}

proof fn lemma_asked(
    start: StateMapping,
    required: Seq<StateKey>,
    next: SequenceNumber,
    selected: ExecutorIndex,
)
    requires
        crate::primary::shared_obj_txn_forwarder::distinct_objects(required),
        start.required =~= Map::empty(),
    ensures
        ({
            let after = start.with_all(required, next, selected);
            &&& forall|key: StateKey| #[trigger]
                after.required.contains_key(key) <==> required.contains(key)
            &&& forall|key: StateKey| #[trigger]
                after.required.contains_key(key) ==> after.required[key] == (
                if start.owners.contains_key(key) && start.owners[key] != selected {
                    Some(start.owners[key])
                } else {
                    None
                })
            &&& forall|key: StateKey|
                (forall|i: int| 0 <= i < required.len() ==> (#[trigger] required[i]).0 != key.0)
                    ==> #[trigger] after.owners.get(key) == start.owners.get(key)
        }),
    decreases required.len(),
{
    if required.len() > 0 {
        let rest = required.drop_last();
        let last = required.last();
        assert forall|i: int, j: int| 0 <= i < j < rest.len() implies (#[trigger] rest[i]).0 != (
        #[trigger] rest[j]).0 by {
            assert(required[i].0 != required[j].0);
        }
        lemma_asked(start, rest, next, selected);
        let before = start.with_all(rest, next, selected);
        let after = start.with_all(required, next, selected);
        assert forall|i: int| 0 <= i < rest.len() implies (#[trigger] rest[i]).0 != last.0 by {
            assert(required[i].0 != required[required.len() - 1].0);
        }
        assert(before.owners.get(last) == start.owners.get(last));
        assert(before.owners.contains_key(last) <==> start.owners.contains_key(last));
        assert forall|key: StateKey| #[trigger]
            after.required.contains_key(key) <==> required.contains(key) by {
            assert(before.required.contains_key(key) <==> rest.contains(key));
            if required.contains(key) && key != last {
                let k = choose|k: int| 0 <= k < required.len() && required[k] == key;
                assert(rest[k] == key);
            }
            if rest.contains(key) {
                let k = choose|k: int| 0 <= k < rest.len() && rest[k] == key;
                assert(required[k] == key);
            }
            assert(required[required.len() - 1] == last);
        }
        assert forall|key: StateKey| #[trigger] after.required.contains_key(key) implies
            after.required[key] == (if start.owners.contains_key(key) && start.owners[key]
            != selected {
            Some(start.owners[key])
        } else {
            None
        }) by {
            if key != last {
                assert(before.required.contains_key(key));
            }
        }
        assert forall|key: StateKey|
            (forall|i: int| 0 <= i < required.len() ==> (#[trigger] required[i]).0 != key.0) implies
            #[trigger] after.owners.get(key) == start.owners.get(key) by {
            assert forall|i: int| 0 <= i < rest.len() implies (#[trigger] rest[i]).0 != key.0 by {
                assert(required[i].0 != key.0);
            }
            assert(required[required.len() - 1].0 != key.0);
            assert(before.owners.get(key) == start.owners.get(key));
        }
    }
}

/// What scheduling a transaction adds to the load of its proxy, and to that of
/// no other: how long it takes to check and to execute, in whole microseconds.
pub proof fn law_scheduling_adds_the_time_of_the_transaction(
    before: LoadTracking,
    after: LoadTracking,
    policy: LoadBalancingPolicy,
    count: usize,
    required: Seq<StateKey>,
    keys: Seq<StateKey>,
    selected: ExecutorIndex,
    transaction: TransactionWithTimestamp,
    other: ExecutorIndex,
)
    requires
        required.len() > 0,
        tracked_after(before, after, policy, count, required, keys, selected, transaction),
        other != selected,
    ensures
        after.loads().contains_key(selected),
        ({
            let taken = transaction.expected_stateful_duration.secs * 1_000_000_000
                + transaction.expected_stateful_duration.nanos
                + transaction.verification_duration.secs * 1_000_000_000
                + transaction.verification_duration.nanos;
            let load = (if before.loads().contains_key(selected) {
                before.loads()[selected] as int
            } else {
                0int
            });
            load + taken / 1_000 <= usize::MAX ==> after.loads()[selected] == load + taken / 1_000
        }),
        after.loads().get(other) == before.loads().get(other),
        policy != LoadBalancingPolicy::AffinityAware && other < count ==> after.history(
            other as int,
        ) == before.history(other as int),
{
}

/// Without a required state scheduling leaves loads and accesses as they are.
pub proof fn law_nothing_required_nothing_recorded(
    before: LoadTracking,
    after: LoadTracking,
    policy: LoadBalancingPolicy,
    count: usize,
    keys: Seq<StateKey>,
    selected: ExecutorIndex,
    transaction: TransactionWithTimestamp,
)
    requires
        tracked_after(before, after, policy, count, Seq::empty(), keys, selected, transaction),
    ensures
        after == before,
{
}

/// A policy that goes by scores gives the figures of each proxy and decides
/// nothing yet; every other one decides.
pub proof fn law_scores_are_for_policies_that_go_by_them(
    choice: ProxyChoice,
    policy: LoadBalancingPolicy,
    count: usize,
    owners: Map<StateKey, ExecutorIndex>,
    required: Seq<StateKey>,
    txn_cnt: usize,
    destination: Option<ProxyId>,
    tracking: LoadTracking,
)
    requires
        chosen_by(choice, policy, count, owners, required, txn_cnt, destination, tracking),
    ensures
        choice is ByScore <==> goes_by_score(policy),
        choice is Decided <==> policy is RoundRobin || policy is Zeus || policy is Random
            || policy is Hermes,
        goes_by_score(policy) <==> policy is LocalityLoad || policy is AffinityAware,
{
}

/// A policy comes to a proxy that it may come to: one of those that there
/// are, or the one that the transaction asks for, whether there or not.
pub proof fn law_decided_proxies_may_be_chosen(
    choice: ProxyChoice,
    policy: LoadBalancingPolicy,
    count: usize,
    owners: Map<StateKey, ExecutorIndex>,
    required: Seq<StateKey>,
    txn_cnt: usize,
    destination: Option<ProxyId>,
    tracking: LoadTracking,
    selected: ExecutorIndex,
)
    requires
        chosen_by(choice, policy, count, owners, required, txn_cnt, destination, tracking),
        count > 0,
        required.len() <= usize::MAX,
        !(policy is Random),
        decided_on(choice, selected),
    ensures
        may_choose(policy, count, destination, selected),
        !(policy is Hermes) ==> selected < count,
        policy is Hermes && destination is Some ==> destination == Some(selected),
        policy is Hermes && destination is None ==> selected == 0,
{
    if policy is Zeus && required.len() > 0 {
        let counts = state_counts(count as nat, owners, required);
        crate::primary::placement::law_chosen_count_is_the_highest(counts, txn_cnt, 0);
    }
}

/// A scheduler in the same role is that of the same proxy among as many, with
/// the same policy and mode.
pub proof fn law_roles_tell_schedulers_apart(
    one: DecentralizedScheduler,
    other: DecentralizedScheduler,
)
    ensures
        one.same_role(&other) <==> (
            one.spec_proxy_id(),
            one.count(),
            one.spec_policy(),
            one.spec_proxy_mode(),
        ) == (
            other.spec_proxy_id(),
            other.count(),
            other.spec_policy(),
            other.spec_proxy_mode(),
        ),
{
}

} // verus!
