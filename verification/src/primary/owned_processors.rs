//! Forwarding of transactions that use owned objects only, by the policy of
//! the load balancer.
use std::sync::Arc;

use vstd::prelude::*;

use crate::base_types::ProxyId;
use crate::checkpoint::EpochId;
use crate::config::LoadBalancingPolicy;
use crate::executor::api::{PrimaryToProxyMessage, RequiredStates, TransactionWithTimestamp};
use crate::primary::connections::ProxyConnections;
use crate::primary::owned_obj_txn_forwarder::{check_then_execute, combined, Dispatch};

verus! {

/// The proxy that checks transactions where checking has a proxy of its own.
pub const DEDICATED_CHECKER: ProxyId = 0;

/// The proxy that executes transactions where checking has a proxy of its own.
pub const DEDICATED_EXECUTOR: ProxyId = 1;

/// The policies for owned objects: in turn, combined in turn, or dedicated.
pub open spec fn serves_owned(policy: LoadBalancingPolicy, connected: Set<ProxyId>) -> bool {
    match policy {
        LoadBalancingPolicy::RoundRobin => true,
        LoadBalancingPolicy::Zeus => true,
        LoadBalancingPolicy::Combined => true,
        LoadBalancingPolicy::Dedicated => connected.contains(DEDICATED_CHECKER)
            && connected.contains(DEDICATED_EXECUTOR),
        _ => false,
    }
}

/// What is sent for a transaction whose turn falls on a proxy.
pub open spec fn dispatched(
    sent: Seq<(ProxyId, PrimaryToProxyMessage)>,
    policy: LoadBalancingPolicy,
    connected: Set<ProxyId>,
    turn: ProxyId,
    epoch: EpochId,
    transaction: Arc<TransactionWithTimestamp>,
) -> bool {
    if policy == LoadBalancingPolicy::Dedicated {
        &&& sent.len() == 2
        &&& crate::primary::owned_obj_txn_forwarder::asks_check(
            sent[0],
            DEDICATED_CHECKER,
            epoch,
            transaction,
        )
        &&& crate::primary::owned_obj_txn_forwarder::asks_execution(
            sent[1],
            DEDICATED_EXECUTOR,
            epoch,
            transaction,
            DEDICATED_CHECKER,
        )
    } else if !connected.contains(turn) {
        sent.len() == 0
    } else if policy == LoadBalancingPolicy::Combined {
        &&& sent.len() == 1
        &&& crate::primary::owned_obj_txn_forwarder::asks_both(sent[0], turn, epoch, transaction)
    } else {
        &&& sent.len() == 2
        &&& crate::primary::owned_obj_txn_forwarder::asks_check(sent[0], turn, epoch, transaction)
        &&& crate::primary::owned_obj_txn_forwarder::asks_execution(
            sent[1],
            turn,
            epoch,
            transaction,
            turn,
        )
    }
}

/// Forwards transactions that use owned objects only, by policy.
pub struct OwnedTxnProcessor {
    /// The policy.
    pub policy: LoadBalancingPolicy,
    /// Whose turn it is.
    pub index: usize,
}

impl OwnedTxnProcessor {
    /// Forwards transactions by the policy. What is sent for one transaction
    /// is sent in order; the transactions go out independently of each other.
    pub fn forward_owned_txns_in_parallel<C>(
        &mut self,
        connections: &ProxyConnections<C>,
        epoch_id: EpochId,
        transactions: &Vec<Arc<TransactionWithTimestamp>>,
    ) -> (sent: Vec<Dispatch>)
        requires
            serves_owned(old(self).policy, connections@.dom()),
            old(self).index + transactions@.len() <= usize::MAX,
        ensures
            final(self).policy == old(self).policy,
            ({
                let count = connections@.dom().len() as int;
                let start = old(self).index;
                if count == 0 {
                    &&& sent@.len() == 0
                    &&& final(self).index == start
                } else {
                    &&& sent@.len() == transactions@.len()
                    &&& final(self).index == (start + transactions@.len()) % count
                    &&& forall|i: int|
                        0 <= i < sent@.len() ==> dispatched(
                            (#[trigger] sent@[i])@,
                            old(self).policy,
                            connections@.dom(),
                            ((start + i) % count) as usize,
                            epoch_id,
                            transactions@[i],
                        )
                    &&& final(self).index < count
                    &&& forall|i: int, j: int|
                        0 <= i < j < sent@.len() && old(self).policy
                            != LoadBalancingPolicy::Dedicated && (#[trigger] sent@[i])@.len() > 0
                            && (#[trigger] sent@[j])@.len() > 0 ==> (sent@[i]@[0].0
                            == sent@[j]@[0].0 <==> (j - i) % count == 0)
                }
            }),
    {
        let proxy_count: usize = connections.len();
        let mut sent: Vec<Dispatch> = Vec::new();
        if proxy_count == 0 {
            return sent;
        }
        let start: usize = self.index;
        let policy: LoadBalancingPolicy = self.policy;
        self.index = (start + transactions.len()) % proxy_count;
        let mut i: usize = 0;
        while i < transactions.len()
            invariant
                i <= transactions.len(),
                proxy_count > 0,
                start + transactions@.len() <= usize::MAX,
                serves_owned(policy, connections@.dom()),
                sent@.len() == i,
                forall|k: int|
                    0 <= k < sent@.len() ==> dispatched(
                        (#[trigger] sent@[k])@,
                        policy,
                        connections@.dom(),
                        ((start + k) % (proxy_count as int)) as usize,
                        epoch_id,
                        transactions@[k],
                    ),
            decreases transactions.len() - i,
        {
            let turn: ProxyId = (start + i) % proxy_count;
            let dispatch: Dispatch = Self::dispatch(
                policy,
                connections,
                turn,
                epoch_id,
                &transactions[i],
            );
            sent.push(dispatch);
            i = i + 1;
        }
        proof {
            let n = proxy_count as int;
            vstd::arithmetic::div_mod::lemma_mod_bound(start + transactions@.len(), n);
            assert forall|i: int, j: int|
                0 <= i < j < sent@.len() && policy != LoadBalancingPolicy::Dedicated && (
                #[trigger] sent@[i])@.len() > 0 && (#[trigger] sent@[j])@.len() > 0 implies (
            sent@[i]@[0].0 == sent@[j]@[0].0 <==> (j - i) % n == 0) by {
                vstd::arithmetic::div_mod::lemma_mod_bound(start + i, n);
                vstd::arithmetic::div_mod::lemma_mod_bound(start + j, n);
                vstd::arithmetic::div_mod::lemma_mod_equivalence(start + j, start + i, n);
                assert((start + j) - (start + i) == j - i);
            }
        }
        sent
    }

    fn dispatch<C>(
        policy: LoadBalancingPolicy,
        connections: &ProxyConnections<C>,
        turn: ProxyId,
        epoch_id: EpochId,
        transaction: &Arc<TransactionWithTimestamp>,
    ) -> (sent: Dispatch)
        requires
            serves_owned(policy, connections@.dom()),
        ensures
            dispatched(sent@, policy, connections@.dom(), turn, epoch_id, *transaction),
    {
        match policy {
            LoadBalancingPolicy::Dedicated => {
                let mut sent: Dispatch = Vec::new();
                sent.push(
                    (
                        DEDICATED_CHECKER,
                        PrimaryToProxyMessage::StatelessTxn(epoch_id, Arc::clone(transaction)),
                    ),
                );
                sent.push(
                    (
                        DEDICATED_EXECUTOR,
                        PrimaryToProxyMessage::Txn(
                            epoch_id,
                            Arc::clone(transaction),
                            DEDICATED_CHECKER,
                            RequiredStates::new(),
                        ),
                    ),
                );
                sent
            },
            LoadBalancingPolicy::Combined => {
                if connections.is_connected(turn) {
                    combined(turn, epoch_id, transaction)
                } else {
                    Vec::new()
                }
            },
            _ => {
                if connections.is_connected(turn) {
                    check_then_execute(turn, epoch_id, transaction)
                } else {
                    Vec::new()
                }
            },
        }
    }
}

/// A message that is sent for a transaction carries that transaction and its
/// epoch and needs no states; it goes to the proxy whose turn it is, or to
/// the two dedicated ones.
pub proof fn law_dispatched_messages_carry_the_transaction(
    sent: Seq<(ProxyId, PrimaryToProxyMessage)>,
    policy: LoadBalancingPolicy,
    connected: Set<ProxyId>,
    turn: ProxyId,
    epoch: EpochId,
    transaction: Arc<TransactionWithTimestamp>,
    i: int,
)
    requires
        dispatched(sent, policy, connected, turn, epoch, transaction),
        0 <= i < sent.len(),
    ensures
        match sent[i].1 {
            PrimaryToProxyMessage::StatelessTxn(e, txn) => e == epoch && txn == transaction,
            PrimaryToProxyMessage::Txn(e, txn, by, required) => e == epoch && txn == transaction
                && by == sent[0].0 && required.sorted().len() == 0,
            PrimaryToProxyMessage::CombinedTxn(e, txn, by, required) => e == epoch && txn
                == transaction && by == sent[i].0 && required.sorted().len() == 0,
            _ => false,
        },
        policy != LoadBalancingPolicy::Dedicated ==> sent[i].0 == turn && connected.contains(turn),
        policy == LoadBalancingPolicy::Dedicated ==> sent[i].0 == i,
{
}

/// Where checking has a proxy of its own, the first proxy checks and the
/// second executes; elsewhere the proxy whose turn it is does both, at once
/// where the policy combines the two and one after the other where it does not.
pub proof fn law_checking_comes_before_execution(
    sent: Seq<(ProxyId, PrimaryToProxyMessage)>,
    policy: LoadBalancingPolicy,
    connected: Set<ProxyId>,
    turn: ProxyId,
    epoch: EpochId,
    transaction: Arc<TransactionWithTimestamp>,
)
    requires
        dispatched(sent, policy, connected, turn, epoch, transaction),
    ensures
        sent.len() == (match policy {
            LoadBalancingPolicy::Dedicated => 2,
            LoadBalancingPolicy::Combined => if connected.contains(turn) {
                1int
            } else {
                0
            },
            _ => if connected.contains(turn) {
                2
            } else {
                0
            },
        }),
        sent.len() == 2 ==> sent[0].1 is StatelessTxn && sent[1].1 is Txn,
        sent.len() == 1 ==> sent[0].1 is CombinedTxn,
        policy == LoadBalancingPolicy::Dedicated ==> sent[0].0 == 0 && sent[1].0 == 1,
        policy != LoadBalancingPolicy::Dedicated && sent.len() == 2 ==> sent[0].0 == turn
            && sent[1].0 == turn,
{
}

/// Owned objects are served in turn, combined or dedicated; the dedicated
/// policy needs both of its proxies.
pub proof fn law_owned_objects_have_their_policies(
    policy: LoadBalancingPolicy,
    connected: Set<ProxyId>,
)
    ensures
        serves_owned(policy, connected) <==> policy is RoundRobin || policy is Zeus
            || policy is Combined || (policy is Dedicated && connected.contains(0)
            && connected.contains(1)),
{
}

} // verus!
