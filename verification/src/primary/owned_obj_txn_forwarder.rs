//! Forwarding of transactions that use owned objects only: they go to the
//! proxies in turn.
use std::sync::Arc;

use vstd::prelude::*;

use crate::base_types::ProxyId;
use crate::checkpoint::EpochId;
use crate::config::ProxyMode;
use crate::executor::api::{PrimaryToProxyMessage, RequiredStates, TransactionWithTimestamp};
use crate::primary::connections::{ProxyConnections, RetiringProxies};
use crate::primary::load_balancer::checkpoint_participants;

verus! {

/// What is sent for a transaction, each message with the proxy it is for.
pub type Dispatch = Vec<(ProxyId, PrimaryToProxyMessage)>;

/// Whether a message asks to check a transaction.
pub open spec fn asks_check(
    sent: (ProxyId, PrimaryToProxyMessage),
    to: ProxyId,
    epoch: EpochId,
    transaction: Arc<TransactionWithTimestamp>,
) -> bool {
    sent == (to, PrimaryToProxyMessage::StatelessTxn(epoch, transaction))
}

/// Whether a message asks to execute a transaction that needs no states and
/// that a given proxy checks.
pub open spec fn asks_execution(
    sent: (ProxyId, PrimaryToProxyMessage),
    to: ProxyId,
    epoch: EpochId,
    transaction: Arc<TransactionWithTimestamp>,
    checker: ProxyId,
) -> bool {
    &&& sent.0 == to
    &&& sent.1 matches PrimaryToProxyMessage::Txn(e, txn, by, required) && e == epoch && txn
        == transaction && by == checker && required.sorted().len() == 0
}

/// Whether a message asks to check and execute a transaction that needs no states.
pub open spec fn asks_both(
    sent: (ProxyId, PrimaryToProxyMessage),
    to: ProxyId,
    epoch: EpochId,
    transaction: Arc<TransactionWithTimestamp>,
) -> bool {
    &&& sent.0 == to
    &&& sent.1 matches PrimaryToProxyMessage::CombinedTxn(e, txn, by, required) && e == epoch && txn
        == transaction && by == to && required.sorted().len() == 0
}

/// The messages that make one proxy check and then execute a transaction.
pub fn check_then_execute(
    to: ProxyId,
    epoch: EpochId,
    transaction: &Arc<TransactionWithTimestamp>,
) -> (dispatch: Dispatch)
    ensures
        dispatch@.len() == 2,
        asks_check(dispatch@[0], to, epoch, *transaction),
        asks_execution(dispatch@[1], to, epoch, *transaction, to),
{
    let mut dispatch: Dispatch = Vec::new();
    dispatch.push((to, PrimaryToProxyMessage::StatelessTxn(epoch, Arc::clone(transaction))));
    dispatch.push(
        (
            to,
            PrimaryToProxyMessage::Txn(epoch, Arc::clone(transaction), to, RequiredStates::new()),
        ),
    );
    dispatch
}

/// The message that makes one proxy check and execute a transaction at once.
pub fn combined(
    to: ProxyId,
    epoch: EpochId,
    transaction: &Arc<TransactionWithTimestamp>,
) -> (dispatch: Dispatch)
    ensures
        dispatch@.len() == 1,
        asks_both(dispatch@[0], to, epoch, *transaction),
{
    let mut dispatch: Dispatch = Vec::new();
    dispatch.push(
        (
            to,
            PrimaryToProxyMessage::CombinedTxn(
                epoch,
                Arc::clone(transaction),
                to,
                RequiredStates::new(),
            ),
        ),
    );
    dispatch
}

/// Forwards transactions that use owned objects only.
pub struct OwnedObjTxnForwarder {
    /// Whose turn it is.
    pub index: usize,
    /// How the proxies separate checking from execution.
    pub proxy_mode: ProxyMode,
}

impl OwnedObjTxnForwarder {
    /// A forwarder that starts with the first proxy.
    pub fn new(proxy_mode: ProxyMode) -> (forwarder: Self)
        ensures
            forwarder.index == 0,
            forwarder.proxy_mode == proxy_mode,
    {
        OwnedObjTxnForwarder { index: 0, proxy_mode }
    }

    /// The proxies that may get work, in increasing order: those that take part
    /// in the current epoch.
    pub fn effective_proxy_ids<C>(
        connections: &ProxyConnections<C>,
        active: usize,
        retiring: &RetiringProxies,
    ) -> (ids: Vec<ProxyId>)
        ensures
            ids@ == crate::primary::load_balancer::participants(
                connections@.dom(),
                active,
                retiring@.dom(),
            ),
            forall|i: int, j: int|
                0 <= i < j < ids@.len() ==> #[trigger] ids@[i] < #[trigger] ids@[j],
            forall|i: int|
                0 <= i < ids@.len() ==> connections@.contains_key(#[trigger] ids@[i])
                    && !retiring@.contains_key(ids@[i]),
    {
        checkpoint_participants(connections, active, retiring)
    }

    /// Forwards transactions to the proxies in turn. What is sent for one
    /// transaction is sent in order; the transactions go out independently of
    /// each other. Without a proxy nothing is sent.
    pub fn forward_owned_txns_in_parallel<C>(
        &mut self,
        connections: &ProxyConnections<C>,
        active: usize,
        retiring: &RetiringProxies,
        epoch_id: EpochId,
        transactions: &Vec<Arc<TransactionWithTimestamp>>,
    ) -> (sent: Vec<Dispatch>)
        requires
            old(self).index + transactions@.len() <= usize::MAX,
        ensures
            final(self).proxy_mode == old(self).proxy_mode,
            ({
                let proxies = crate::primary::load_balancer::participants(
                    connections@.dom(),
                    active,
                    retiring@.dom(),
                );
                let start = old(self).index;
                if proxies.len() == 0 {
                    &&& sent@.len() == 0
                    &&& final(self).index == start
                } else {
                    &&& sent@.len() == transactions@.len()
                    &&& final(self).index == (start + transactions@.len()) % (proxies.len() as int)
                    &&& forall|i: int|
                        0 <= i < sent@.len() ==> {
                            let to = proxies[(start + i) % (proxies.len() as int)];
                            if old(self).proxy_mode == ProxyMode::Separation {
                                &&& (#[trigger] sent@[i])@.len() == 2
                                &&& asks_check(sent@[i]@[0], to, epoch_id, transactions@[i])
                                &&& asks_execution(
                                    sent@[i]@[1],
                                    to,
                                    epoch_id,
                                    transactions@[i],
                                    to,
                                )
                            } else {
                                &&& sent@[i]@.len() == 1
                                &&& asks_both(sent@[i]@[0], to, epoch_id, transactions@[i])
                            }
                        }
                    &&& final(self).index < proxies.len()
                    &&& start < proxies.len() && sent@.len() > 0 ==> sent@[0]@[0].0
                        == proxies[start as int]
                    &&& forall|i: int, j: int|
                        0 <= i < j < sent@.len() ==> ((#[trigger] sent@[i])@[0].0 == (
                        #[trigger] sent@[j])@[0].0 <==> (j - i) % (proxies.len() as int) == 0)
                }
            }),
            forall|i: int|
                0 <= i < sent@.len() ==> connections@.contains_key((#[trigger] sent@[i])@[0].0)
                    && !retiring@.contains_key(sent@[i]@[0].0),
    {
        let effective: Vec<ProxyId> = Self::effective_proxy_ids(
            connections,
            active,
            retiring,
        );
        let proxy_count: usize = effective.len();
        let mut sent: Vec<Dispatch> = Vec::new();
        if proxy_count == 0 {
            return sent;
        }
        let start: usize = self.index;
        self.index = (start + transactions.len()) % proxy_count;
        let separated: bool = self.proxy_mode == ProxyMode::Separation;
        let mut i: usize = 0;
        while i < transactions.len()
            invariant
                i <= transactions.len(),
                proxy_count == effective@.len(),
                proxy_count > 0,
                start + transactions@.len() <= usize::MAX,
                sent@.len() == i,
                forall|k: int|
                    0 <= k < sent@.len() ==> {
                        let to = effective@[(start + k) % (proxy_count as int)];
                        if separated {
                            &&& (#[trigger] sent@[k])@.len() == 2
                            &&& asks_check(sent@[k]@[0], to, epoch_id, transactions@[k])
                            &&& asks_execution(sent@[k]@[1], to, epoch_id, transactions@[k], to)
                        } else {
                            &&& sent@[k]@.len() == 1
                            &&& asks_both(sent@[k]@[0], to, epoch_id, transactions@[k])
                        }
                    },
            decreases transactions.len() - i,
        {
            let to: ProxyId = effective[(start + i) % proxy_count];
            if separated {
                sent.push(check_then_execute(to, epoch_id, &transactions[i]));
            } else {
                sent.push(combined(to, epoch_id, &transactions[i]));
            }
            i = i + 1;
        }
        proof {
            let n = proxy_count as int;
            vstd::arithmetic::div_mod::lemma_mod_bound(start + transactions@.len(), n);
            if start < n {
                vstd::arithmetic::div_mod::lemma_small_mod(start as nat, n as nat);
            }
            assert forall|i: int, j: int| 0 <= i < j < sent@.len() implies ((
            #[trigger] sent@[i])@[0].0 == (#[trigger] sent@[j])@[0].0 <==> (j - i) % n == 0) by {
                let a = (start + i) % n;
                let b = (start + j) % n;
                vstd::arithmetic::div_mod::lemma_mod_bound(start + i, n);
                vstd::arithmetic::div_mod::lemma_mod_bound(start + j, n);
                vstd::arithmetic::div_mod::lemma_mod_equivalence(start + j, start + i, n);
                assert((start + j) - (start + i) == j - i);
                if a < b {
                    assert(effective@[a] < effective@[b]);
                }
                if b < a {
                    assert(effective@[b] < effective@[a]);
                }
            }
            assert forall|i: int| 0 <= i < sent@.len() implies connections@.contains_key(
                (#[trigger] sent@[i])@[0].0,
            ) && !retiring@.contains_key(sent@[i]@[0].0) by {
                vstd::arithmetic::div_mod::lemma_mod_bound(start + i, n);
                assert(sent@[i]@[0].0 == effective@[(start + i) % n]);
            }
        }
        sent
    }
}

/// No transaction goes to a proxy that retires, is not active or is not
/// connected.
pub proof fn law_owned_transactions_avoid_retiring(
    connected: Set<ProxyId>,
    active: usize,
    retiring: Set<ProxyId>,
    turn: int,
)
    requires
        exists|s: Seq<ProxyId>| crate::primary::connections::lists(s, connected),
        crate::primary::load_balancer::participants(connected, active, retiring).len() > 0,
        turn >= 0,
    ensures
        ({
            let proxies = crate::primary::load_balancer::participants(connected, active, retiring);
            let to = proxies[turn % (proxies.len() as int)];
            &&& connected.contains(to)
            &&& !retiring.contains(to)
            &&& crate::primary::connections::first_of(
                crate::primary::connections::ascending(connected),
                active,
            ).contains(to)
        }),
{
    let proxies = crate::primary::load_balancer::participants(connected, active, retiring);
    let to = proxies[turn % (proxies.len() as int)];
    assert(proxies.contains(to));
    crate::primary::load_balancer::law_participants_do_not_retire(connected, active, retiring, to);
    crate::primary::connections::lemma_without(
        crate::primary::connections::first_of(
            crate::primary::connections::ascending(connected),
            active,
        ),
        retiring,
    );
}

/// As many transactions in a row as there are proxies reach each proxy once.
pub proof fn law_turns_are_fair(count: int, start: int, first: int, second: int)
    requires
        count > 0,
        start >= 0,
        0 <= first < second < count,
    ensures
        (start + first) % count != (start + second) % count,
{
    if (start + first) % count == (start + second) % count {
        vstd::arithmetic::div_mod::lemma_fundamental_div_mod(start + first, count);
        vstd::arithmetic::div_mod::lemma_fundamental_div_mod(start + second, count);
        let a = (start + first) / count;
        let b = (start + second) / count;
        assert(second - first == count * b - count * a);
        assert(count * b - count * a == count * (b - a)) by (nonlinear_arith);
        assert(b - a <= 0 ==> count * (b - a) <= 0) by (nonlinear_arith)
            requires
                count > 0,
        ;
        assert(b - a >= 1 ==> count * (b - a) >= count) by (nonlinear_arith)
            requires
                count > 0,
        ;
    }
}

/// The messages for a transaction of owned objects go to the proxy that they
/// are for, carry the transaction and its epoch, name the proxy that checks
/// it, and need no states.
pub proof fn law_owned_messages_carry_the_transaction(
    sent: (ProxyId, PrimaryToProxyMessage),
    to: ProxyId,
    epoch: EpochId,
    transaction: Arc<TransactionWithTimestamp>,
    checker: ProxyId,
)
    ensures
        asks_check(sent, to, epoch, transaction) ==> sent.0 == to && sent.1 is StatelessTxn
            && sent.1->StatelessTxn_0 == epoch && sent.1->StatelessTxn_1 == transaction,
        asks_execution(sent, to, epoch, transaction, checker) ==> sent.0 == to && sent.1 is Txn
            && sent.1->Txn_0 == epoch && sent.1->Txn_1 == transaction && sent.1->Txn_2 == checker
            && sent.1->Txn_3.sorted().len() == 0,
        asks_both(sent, to, epoch, transaction) ==> sent.0 == to && sent.1 is CombinedTxn
            && sent.1->CombinedTxn_0 == epoch && sent.1->CombinedTxn_1 == transaction
            && sent.1->CombinedTxn_2 == to && sent.1->CombinedTxn_3.sorted().len() == 0,
{
}

} // verus!
