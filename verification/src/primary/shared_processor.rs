//! Forwarding of transactions that use shared objects where each object is
//! held by one proxy.
use std::sync::Arc;

use vstd::prelude::*;

use crate::base_types::{ExecutorIndex, ObjectID, ProxyId, StateKey};
use crate::checkpoint::EpochId;
use crate::config::LoadBalancingPolicy;
use crate::executor::api::{PrimaryToProxyMessage, RequiredStates, TransactionWithTimestamp};
use crate::ordered_map::OrderedMap;
use crate::primary::connections::ProxyConnections;
use crate::primary::owned_obj_txn_forwarder::Dispatch;
use crate::primary::owned_processors::{DEDICATED_CHECKER, DEDICATED_EXECUTOR};
use crate::tables::FxMap;

verus! {

/// The policies for shared objects: in turn, by the states held, or dedicated.
pub open spec fn serves_shared(policy: LoadBalancingPolicy) -> bool {
    policy == LoadBalancingPolicy::RoundRobin || policy == LoadBalancingPolicy::Zeus || policy
        == LoadBalancingPolicy::Dedicated
}

/// How many of the required states are of objects that a proxy holds.
pub open spec fn objects_held(
    holders: Map<ObjectID, ExecutorIndex>,
    required: Seq<StateKey>,
    index: int,
) -> nat
    decreases required.len(),
{
    if required.len() == 0 {
        0
    } else {
        let last = required.last().0;
        objects_held(holders, required.drop_last(), index) + (if holders.contains_key(last)
            && holders[last] == index {
            1nat
        } else {
            0nat
        })
    }
}

/// Whether a proxy holds the most required states, and no earlier one as many.
pub open spec fn first_with_most(
    holders: Map<ObjectID, ExecutorIndex>,
    required: Seq<StateKey>,
    count: int,
    best: int,
) -> bool {
    &&& 0 <= best < count
    &&& forall|i: int|
        0 <= i < count ==> #[trigger] objects_held(holders, required, i) <= objects_held(
            holders,
            required,
            best,
        )
    &&& forall|i: int|
        0 <= i < best ==> #[trigger] objects_held(holders, required, i) < objects_held(
            holders,
            required,
            best,
        )
}

/// The holders of objects once required states move to a proxy, in order.
pub open spec fn holders_after(
    holders: Map<ObjectID, ExecutorIndex>,
    required: Seq<StateKey>,
    index: ExecutorIndex,
) -> Map<ObjectID, ExecutorIndex>
    decreases required.len(),
{
    if required.len() == 0 {
        holders
    } else {
        holders_after(holders, required.drop_last(), index).insert(required.last().0, index)
    }
}

/// The holder that a proxy has to ask for an object.
pub open spec fn holder_to_ask(
    holders: Map<ObjectID, ExecutorIndex>,
    id: ObjectID,
    index: ExecutorIndex,
) -> Option<ProxyId> {
    if holders.contains_key(id) && holders[id] != index {
        Some(holders[id])
    } else {
        None
    }
}

/// The required states, each with the holder to ask for it, looked up in order.
pub open spec fn asked_states(
    holders: Map<ObjectID, ExecutorIndex>,
    required: Seq<StateKey>,
    index: ExecutorIndex,
) -> Map<StateKey, Option<ProxyId>>
    decreases required.len(),
{
    if required.len() == 0 {
        Map::empty()
    } else {
        let rest = required.drop_last();
        asked_states(holders, rest, index).insert(
            required.last(),
            holder_to_ask(holders_after(holders, rest, index), required.last().0, index),
        )
    }
}

/// Forwards transactions that use shared objects.
pub struct SharedTxnProcessor {
    policy: LoadBalancingPolicy,
    index: usize,
    states_to_proxy: FxMap<ObjectID, ExecutorIndex>,
}

impl SharedTxnProcessor {
    /// The policy.
    pub closed spec fn spec_policy(&self) -> LoadBalancingPolicy {
        self.policy
    }

    /// Whose turn it is.
    pub closed spec fn turn(&self) -> usize {
        self.index
    }

    /// The proxy that holds each object.
    pub closed spec fn holders(&self) -> Map<ObjectID, ExecutorIndex> {
        self.states_to_proxy@
    }

    /// No proxy holds an object, and the first proxy is next.
    pub fn new(policy: LoadBalancingPolicy) -> (processor: Self)
        ensures
            processor.spec_policy() == policy,
            processor.turn() == 0,
            processor.holders() =~= Map::<ObjectID, ExecutorIndex>::empty(),
    {
        SharedTxnProcessor { policy, index: 0, states_to_proxy: FxMap::new() }
    }

    /// The proxies that execute and check a transaction, by the policy.
    pub fn get_proxy_for_shared_objects<C>(
        &mut self,
        connections: &ProxyConnections<C>,
        required_versions: &Vec<StateKey>,
    ) -> (chosen: Option<(ExecutorIndex, ExecutorIndex)>)
        requires
            serves_shared(old(self).spec_policy()),
            old(self).turn() < usize::MAX,
        ensures
            final(self).spec_policy() == old(self).spec_policy(),
            final(self).holders() == old(self).holders(),
            ({
                let count = connections@.dom().len() as int;
                match old(self).spec_policy() {
                    LoadBalancingPolicy::RoundRobin => {
                        if count == 0 {
                            chosen is None && final(self).turn() == old(self).turn()
                        } else {
                            &&& chosen matches Some((executor, checker)) && executor == checker
                                && executor == old(self).turn() as int % count
                            &&& final(self).turn() == (old(self).turn() + 1) % count
                            &&& old(self).turn() < count ==> chosen == Some(
                                (old(self).turn(), old(self).turn()),
                            )
                            &&& old(self).turn() + 1 < count ==> final(self).turn()
                                == old(self).turn() + 1
                            &&& old(self).turn() + 1 == count ==> final(self).turn() == 0
                        }
                    },
                    LoadBalancingPolicy::Dedicated => {
                        &&& chosen == Some((DEDICATED_EXECUTOR, DEDICATED_CHECKER))
                        &&& final(self).turn() == old(self).turn()
                    },
                    _ => {
                        &&& final(self).turn() == old(self).turn()
                        &&& match chosen {
                            Some((executor, checker)) => {
                                &&& executor == checker
                                &&& first_with_most(
                                    old(self).holders(),
                                    required_versions@,
                                    count,
                                    executor as int,
                                )
                            },
                            None => count == 0,
                        }
                    },
                }
            }),
    {
        proof {
            let count = connections@.dom().len();
            if self.index < count {
                vstd::arithmetic::div_mod::lemma_small_mod(self.index as nat, count);
            }
            if self.index + 1 < count {
                vstd::arithmetic::div_mod::lemma_small_mod((self.index + 1) as nat, count);
            }
            if count > 0 {
                vstd::arithmetic::div_mod::lemma_mod_self_0(count as int);
            }
        }
        match self.policy {
            LoadBalancingPolicy::RoundRobin => self.get_proxy_for_shared_objects_round_robin(
                connections,
            ),
            LoadBalancingPolicy::Dedicated => Some((DEDICATED_EXECUTOR, DEDICATED_CHECKER)),
            _ => self.get_proxy_for_shared_objects_most_states(connections, required_versions),
        }
    }

    /// The proxy whose turn it is.
    pub fn get_proxy_for_shared_objects_round_robin<C>(
        &mut self,
        connections: &ProxyConnections<C>,
    ) -> (chosen: Option<(ExecutorIndex, ExecutorIndex)>)
        requires
            old(self).turn() < usize::MAX,
        ensures
            final(self).spec_policy() == old(self).spec_policy(),
            final(self).holders() == old(self).holders(),
            ({
                let count = connections@.dom().len() as int;
                if count == 0 {
                    chosen is None && final(self).turn() == old(self).turn()
                } else {
                    &&& chosen matches Some((executor, checker)) && executor == checker && executor
                        == old(self).turn() as int % count
                    &&& final(self).turn() == (old(self).turn() + 1) % count
                }
            }),
    {
        let proxy_count: usize = connections.len();
        if proxy_count == 0 {
            return None;
        }
        let taken: usize = self.index % proxy_count;
        self.index = (self.index + 1) % proxy_count;
        Some((taken, taken))
    }

    /// The first of the proxies that hold the most required states.
    pub fn get_proxy_for_shared_objects_most_states<C>(
        &self,
        connections: &ProxyConnections<C>,
        required_versions: &Vec<StateKey>,
    ) -> (chosen: Option<(ExecutorIndex, ExecutorIndex)>)
        ensures
            match chosen {
                Some((executor, checker)) => {
                    &&& executor == checker
                    &&& first_with_most(
                        self.holders(),
                        required_versions@,
                        connections@.dom().len() as int,
                        executor as int,
                    )
                },
                None => connections@.dom().len() == 0,
            },
    {
        let proxy_count: usize = connections.len();
        if proxy_count == 0 {
            return None;
        }
        let ghost holders = self.holders();
        let mut counts: Vec<usize> = Vec::new();
        while counts.len() < proxy_count
            invariant
                counts@.len() <= proxy_count,
                forall|i: int| 0 <= i < counts@.len() ==> counts@[i] == 0,
            decreases proxy_count - counts@.len(),
        {
            counts.push(0);
        }
        let mut k: usize = 0;
        while k < required_versions.len()
            invariant
                k <= required_versions.len(),
                counts@.len() == proxy_count,
                holders == self.holders(),
                forall|i: int|
                    0 <= i < counts@.len() ==> #[trigger] counts@[i] as nat == objects_held(
                        holders,
                        required_versions@.take(k as int),
                        i,
                    ),
                forall|i: int| 0 <= i < counts@.len() ==> #[trigger] counts@[i] <= k,
            decreases required_versions.len() - k,
        {
            proof {
                assert(required_versions@.take(k + 1).drop_last() =~= required_versions@.take(
                    k as int,
                ));
            }
            let id: ObjectID = required_versions[k].0;
            if let Some(holder) = self.states_to_proxy.get(&id) {
                if holder < proxy_count {
                    let held: usize = counts[holder];
                    counts.set(holder, held + 1);
                }
            }
            k = k + 1;
        }
        proof {
            assert(required_versions@.take(k as int) =~= required_versions@);
        }
        let mut best: usize = 0;
        let mut i: usize = 0;
        while i < proxy_count
            invariant
                i <= proxy_count,
                counts@.len() == proxy_count,
                best < proxy_count,
                forall|j: int| 0 <= j < i ==> #[trigger] counts@[j] <= counts@[best as int],
                forall|j: int| 0 <= j < best ==> #[trigger] counts@[j] < counts@[best as int],
                best <= i,
            decreases proxy_count - i,
        {
            if counts[i] > counts[best] {
                best = i;
            }
            i = i + 1;
        }
        proof {
            assert forall|j: int| 0 <= j < proxy_count implies #[trigger] objects_held(
                holders,
                required_versions@,
                j,
            ) <= objects_held(holders, required_versions@, best as int) by {
                assert(counts@[j] <= counts@[best as int]);
            }
            assert forall|j: int| 0 <= j < best implies #[trigger] objects_held(
                holders,
                required_versions@,
                j,
            ) < objects_held(holders, required_versions@, best as int) by {
                assert(counts@[j] < counts@[best as int]);
            }
        }
        Some((best, best))
    }

    /// The required states, each with the holder to ask for it. Afterwards the
    /// executing proxy holds all of their objects.
    pub fn get_missing_states_for_transaction(
        &mut self,
        required_versions: &Vec<StateKey>,
        proxy_index: ExecutorIndex,
    ) -> (required: RequiredStates)
        ensures
            required.wf(),
            required@ =~= asked_states(old(self).holders(), required_versions@, proxy_index),
            final(self).holders() =~= holders_after(
                old(self).holders(),
                required_versions@,
                proxy_index,
            ),
            final(self).spec_policy() == old(self).spec_policy(),
            final(self).turn() == old(self).turn(),
    {
        let ghost before = self.holders();
        let ghost policy = self.policy;
        let ghost turn = self.index;
        let mut required: RequiredStates = OrderedMap::new();
        let mut k: usize = 0;
        while k < required_versions.len()
            invariant
                k <= required_versions.len(),
                required.wf(),
                required@ =~= asked_states(
                    before,
                    required_versions@.take(k as int),
                    proxy_index,
                ),
                self.holders() =~= holders_after(
                    before,
                    required_versions@.take(k as int),
                    proxy_index,
                ),
                self.policy == policy,
                self.index == turn,
            decreases required_versions.len() - k,
        {
            proof {
                assert(required_versions@.take(k + 1).drop_last() =~= required_versions@.take(
                    k as int,
                ));
            }
            let key: StateKey = required_versions[k];
            let holder: Option<ProxyId> = match self.states_to_proxy.get(&key.0) {
                Some(index) => {
                    if index != proxy_index {
                        Some(index)
                    } else {
                        None
                    }
                },
                None => None,
            };
            required.insert(key, holder);
            let _ = self.states_to_proxy.insert(key.0, proxy_index);
            k = k + 1;
        }
        proof {
            assert(required_versions@.take(k as int) =~= required_versions@);
        }
        required
    }

    /// Forwards a transaction: the checking proxy gets it as it is, the
    /// executing proxy with the states to ask for. Nothing goes to a proxy
    /// that is not connected.
    pub fn forward_shared_object_txn<C>(
        &mut self,
        connections: &ProxyConnections<C>,
        epoch_id: EpochId,
        transaction: &Arc<TransactionWithTimestamp>,
        required_versions: &Vec<StateKey>,
    ) -> (sent: Dispatch)
        requires
            serves_shared(old(self).spec_policy()),
            old(self).turn() < usize::MAX,
        ensures
            final(self).spec_policy() == old(self).spec_policy(),
            ({
                let count = connections@.dom().len() as int;
                let holders = old(self).holders();
                if count == 0 && old(self).spec_policy() != LoadBalancingPolicy::Dedicated {
                    &&& sent@.len() == 0
                    &&& final(self).holders() == holders
                    &&& final(self).turn() == old(self).turn()
                } else {
                    exists|executor: ExecutorIndex, checker: ExecutorIndex|
                        {
                            &&& #[trigger] forwarded(
                                sent@,
                                connections@.dom(),
                                epoch_id,
                                *transaction,
                                executor,
                                checker,
                                asked_states(holders, required_versions@, executor),
                            )
                            &&& chosen_for(
                                old(self).spec_policy(),
                                old(self).turn(),
                                holders,
                                required_versions@,
                                count,
                                executor,
                                checker,
                            )
                            &&& final(self).holders() =~= holders_after(
                                holders,
                                required_versions@,
                                executor,
                            )
                        }
                }
            }),
            final(self).turn() == (if old(self).spec_policy() == LoadBalancingPolicy::RoundRobin
                && connections@.dom().len() > 0 {
                (old(self).turn() + 1) % (connections@.dom().len() as int)
            } else {
                old(self).turn() as int
            }),
    {
        let chosen: Option<(ExecutorIndex, ExecutorIndex)> = self.get_proxy_for_shared_objects(
            connections,
            required_versions,
        );
        let mut sent: Dispatch = Vec::new();
        if let Some((executor, checker)) = chosen {
            if connections.is_connected(checker) {
                sent.push(
                    (
                        checker,
                        PrimaryToProxyMessage::StatelessTxn(epoch_id, Arc::clone(transaction)),
                    ),
                );
            }
            let required: RequiredStates = self.get_missing_states_for_transaction(
                required_versions,
                executor,
            );
            if connections.is_connected(executor) {
                sent.push(
                    (
                        executor,
                        PrimaryToProxyMessage::Txn(
                            epoch_id,
                            Arc::clone(transaction),
                            checker,
                            required,
                        ),
                    ),
                );
            }
            proof {
                assert(forwarded(
                    sent@,
                    connections@.dom(),
                    epoch_id,
                    *transaction,
                    executor,
                    checker,
                    asked_states(old(self).holders(), required_versions@, executor),
                ));
            }
        }
        sent
    }
}

/// The proxies that a policy chooses to execute and check a transaction.
pub open spec fn chosen_for(
    policy: LoadBalancingPolicy,
    turn: usize,
    holders: Map<ObjectID, ExecutorIndex>,
    required: Seq<StateKey>,
    count: int,
    executor: ExecutorIndex,
    checker: ExecutorIndex,
) -> bool {
    match policy {
        LoadBalancingPolicy::RoundRobin => executor == turn as int % count && checker == executor,
        LoadBalancingPolicy::Dedicated => executor == DEDICATED_EXECUTOR && checker
            == DEDICATED_CHECKER,
        _ => checker == executor && first_with_most(holders, required, count, executor as int),
    }
}

/// The messages for a transaction that one proxy checks and one executes.
pub open spec fn forwarded(
    sent: Seq<(ProxyId, PrimaryToProxyMessage)>,
    connected: Set<ProxyId>,
    epoch: EpochId,
    transaction: Arc<TransactionWithTimestamp>,
    executor: ExecutorIndex,
    checker: ExecutorIndex,
    required: Map<StateKey, Option<ProxyId>>,
) -> bool {
    let first = if connected.contains(checker) {
        1int
    } else {
        0int
    };
    &&& sent.len() == first + (if connected.contains(executor) {
        1int
    } else {
        0int
    })
    &&& connected.contains(checker) ==> sent[0] == (
        checker,
        PrimaryToProxyMessage::StatelessTxn(epoch, transaction),
    )
    &&& connected.contains(executor) ==> {
        &&& sent[first].0 == executor
        &&& sent[first].1 matches PrimaryToProxyMessage::Txn(e, txn, by, states) && e == epoch
            && txn == transaction && by == checker && states.wf() && states@ =~= required
    }
}

/// Once a transaction is forwarded, its executing proxy holds every object
/// that it needs, and all others are where they were.
pub proof fn law_executor_holds_what_it_needs(
    holders: Map<ObjectID, ExecutorIndex>,
    required: Seq<StateKey>,
    index: ExecutorIndex,
)
    ensures
        forall|i: int|
            0 <= i < required.len() ==> holders_after(holders, required, index).contains_key(
                (#[trigger] required[i]).0,
            ) && holders_after(holders, required, index)[required[i].0] == index,
        forall|id: ObjectID|
            (forall|i: int| 0 <= i < required.len() ==> (#[trigger] required[i]).0 != id) ==> (
            #[trigger] holders_after(holders, required, index).contains_key(id)
                <==> holders.contains_key(id)) && (holders.contains_key(id) ==> holders_after(
                holders,
                required,
                index,
            )[id] == holders[id]),
    decreases required.len(),
{
    if required.len() > 0 {
        let rest = required.drop_last();
        law_executor_holds_what_it_needs(holders, rest, index);
        let before = holders_after(holders, rest, index);
        let after = holders_after(holders, required, index);
        assert(after == before.insert(required.last().0, index));
        assert forall|i: int| 0 <= i < required.len() implies after.contains_key(
            (#[trigger] required[i]).0,
        ) && after[required[i].0] == index by {
            if i < rest.len() {
                assert(rest[i] == required[i]);
            }
        }
        assert forall|id: ObjectID|
            (forall|i: int| 0 <= i < required.len() ==> (#[trigger] required[i]).0 != id) implies (
        #[trigger] after.contains_key(id) <==> holders.contains_key(id)) && (holders.contains_key(
            id,
        ) ==> after[id] == holders[id]) by {
            assert(required[required.len() - 1].0 != id);
            assert forall|i: int| 0 <= i < rest.len() implies (#[trigger] rest[i]).0 != id by {
                assert(required[i].0 != id);
            }
            assert(before.contains_key(id) <==> holders.contains_key(id));
        }
    }
}

/// The number of required states of a proxy's objects is the number of
/// places in the list whose object the proxy holds.
pub proof fn law_objects_held_are_counted(
    holders: Map<ObjectID, ExecutorIndex>,
    required: Seq<StateKey>,
    index: int,
)
    ensures
        objects_held(holders, required, index) == crate::counting::places(
            required.len() as int,
            |i: int| holders.contains_key(required[i].0) && holders[required[i].0] == index,
        ).len(),
    decreases required.len(),
{
    let holds = |i: int| holders.contains_key(required[i].0) && holders[required[i].0] == index;
    crate::counting::lemma_places(required.len() as int, holds);
    if required.len() > 0 {
        let rest = required.drop_last();
        law_objects_held_are_counted(holders, rest, index);
        crate::counting::lemma_same_places(
            rest.len() as int,
            holds,
            |i: int| holders.contains_key(rest[i].0) && holders[rest[i].0] == index,
        );
    }
}

/// Whoever holds the most required states is chosen; of several that hold as
/// many, the first is.
pub proof fn law_most_objects_held_decide(
    holders: Map<ObjectID, ExecutorIndex>,
    required: Seq<StateKey>,
    count: int,
    best: int,
    other: int,
)
    requires
        first_with_most(holders, required, count, best),
        0 <= other < count,
    ensures
        0 <= best < count,
        crate::counting::places(
            required.len() as int,
            |i: int| holders.contains_key(required[i].0) && holders[required[i].0] == other,
        ).len() <= crate::counting::places(
            required.len() as int,
            |i: int| holders.contains_key(required[i].0) && holders[required[i].0] == best,
        ).len(),
        first_with_most(holders, required, count, other) ==> other == best,
        other < best ==> objects_held(holders, required, other) != objects_held(
            holders,
            required,
            best,
        ),
{
    law_objects_held_are_counted(holders, required, other);
    law_objects_held_are_counted(holders, required, best);
    assert(objects_held(holders, required, other) <= objects_held(holders, required, best));
}

/// Another holder of an object is asked for the state, nobody where there is
/// none or where the executing proxy holds the object itself.
pub proof fn law_other_holders_are_asked(
    holders: Map<ObjectID, ExecutorIndex>,
    id: ObjectID,
    index: ExecutorIndex,
    holder: ProxyId,
)
    ensures
        holder_to_ask(holders, id, index) == Some(holder) <==> holders.contains_key(id)
            && holders[id] == holder && holder != index,
        holder_to_ask(holders, id, index) != Some(index),
{
}

/// Every required state is asked for and no other; where no object occurs
/// twice, each of the one that held it before.
pub proof fn law_required_states_are_asked_for(
    holders: Map<ObjectID, ExecutorIndex>,
    required: Seq<StateKey>,
    index: ExecutorIndex,
    key: StateKey,
)
    requires
        forall|i: int, j: int|
            0 <= i < j < required.len() ==> (#[trigger] required[i]).0 != (
            #[trigger] required[j]).0,
    ensures
        asked_states(holders, required, index).contains_key(key) <==> required.contains(key),
        required.contains(key) && holders.contains_key(key.0) && holders[key.0] != index
            ==> asked_states(holders, required, index)[key] == Some(holders[key.0]),
        required.contains(key) && !(holders.contains_key(key.0) && holders[key.0] != index)
            ==> asked_states(holders, required, index)[key] is None,
    decreases required.len(),
{
    if required.len() > 0 {
        let rest = required.drop_last();
        assert forall|i: int, j: int| 0 <= i < j < rest.len() implies (#[trigger] rest[i]).0 != (
        #[trigger] rest[j]).0 by {
            assert(required[i].0 != required[j].0);
        }
        law_required_states_are_asked_for(holders, rest, index, key);
        law_executor_holds_what_it_needs(holders, rest, index);
        let last = required.last();
        assert(required[required.len() - 1] == last);
        assert forall|i: int| 0 <= i < rest.len() implies (#[trigger] rest[i]).0 != last.0 by {
            assert(required[i].0 != required[required.len() - 1].0);
        }
        assert(holders_after(holders, rest, index).contains_key(last.0) <==> holders.contains_key(
            last.0,
        ));
        if rest.contains(key) {
            let k = choose|k: int| 0 <= k < rest.len() && rest[k] == key;
            assert(required[k] == key);
            assert(key.0 != last.0);
        }
        if required.contains(key) && key != last {
            let k = choose|k: int| 0 <= k < required.len() && required[k] == key;
            assert(rest[k] == key);
        }
    }
}

/// Two proxies are chosen as the policy says: in turn, the first and second
/// one, or one that holds the most of what is required.
pub proof fn law_processors_choose_as_the_policy_says(
    policy: LoadBalancingPolicy,
    turn: usize,
    holders: Map<ObjectID, ExecutorIndex>,
    required: Seq<StateKey>,
    count: int,
    executor: ExecutorIndex,
    checker: ExecutorIndex,
)
    requires
        count > 0,
        serves_shared(policy),
        chosen_for(policy, turn, holders, required, count, executor, checker),
    ensures
        policy is RoundRobin || policy is Zeus || policy is Dedicated,
        policy is Dedicated ==> executor == 1 && checker == 0,
        !(policy is Dedicated) ==> checker == executor && executor < count,
        policy is RoundRobin && turn < count ==> executor == turn,
        policy is RoundRobin ==> (turn - executor) % count == 0,
        policy is Zeus ==> forall|i: int|
            0 <= i < count ==> #[trigger] objects_held(holders, required, i) <= objects_held(
                holders,
                required,
                executor as int,
            ),
{
    if policy is RoundRobin {
        vstd::arithmetic::div_mod::lemma_mod_bound(turn as int, count);
        if turn < count {
            vstd::arithmetic::div_mod::lemma_small_mod(turn as nat, count as nat);
        }
        vstd::arithmetic::div_mod::lemma_fundamental_div_mod(turn as int, count);
        vstd::arithmetic::mul::lemma_mul_is_commutative(count, turn as int / count);
        vstd::arithmetic::div_mod::lemma_mod_multiples_basic(turn as int / count, count);
    }
}

/// The checking proxy is told first and the executing one after it; whoever
/// is not connected is told nothing.
pub proof fn law_forwarded_messages_carry_the_transaction(
    sent: Seq<(ProxyId, PrimaryToProxyMessage)>,
    connected: Set<ProxyId>,
    epoch: EpochId,
    transaction: Arc<TransactionWithTimestamp>,
    executor: ExecutorIndex,
    checker: ExecutorIndex,
    required: Map<StateKey, Option<ProxyId>>,
)
    requires
        forwarded(sent, connected, epoch, transaction, executor, checker, required),
    ensures
        forall|i: int|
            0 <= i < sent.len() ==> connected.contains((#[trigger] sent[i]).0) && match sent[i].1 {
                PrimaryToProxyMessage::StatelessTxn(e, txn) => i == 0 && sent[i].0 == checker
                    && e == epoch && txn == transaction,
                PrimaryToProxyMessage::Txn(e, txn, by, states) => i == sent.len() - 1
                    && sent[i].0 == executor && e == epoch && txn == transaction && by == checker
                    && states@ =~= required,
                _ => false,
            },
        connected.contains(checker) ==> sent.len() > 0 && sent[0].1 is StatelessTxn,
        connected.contains(executor) ==> sent.len() > 0 && sent.last().1 is Txn,
        connected.contains(checker) && connected.contains(executor) ==> sent.len() == 2,
{
}

} // verus!
