//! Broadcasting of whole batches of transactions, for proxies that schedule
//! them on their own.
use std::sync::Arc;

use vstd::prelude::*;

use crate::base_types::ProxyId;
use crate::config::ProxyMode;
use crate::executor::api::{PrimaryToProxyMessage, TransactionWithTimestamp};
use crate::primary::connections::{sorted_proxy_ids, ProxyConnections};
use crate::primary::owned_obj_txn_forwarder::Dispatch;

verus! {

/// Broadcasts batches of transactions to all proxies.
pub struct DecentralizedForwarder {
    /// How the proxies separate checking from execution.
    pub proxy_mode: ProxyMode,
    /// The number of the last batch.
    pub batch_sequence: u64,
}

/// A copy of a batch.
fn copy_batch(transactions: &Vec<Arc<TransactionWithTimestamp>>) -> (copy: Vec<
    Arc<TransactionWithTimestamp>,
>)
    ensures
        copy@ =~= transactions@,
{
    let mut copy: Vec<Arc<TransactionWithTimestamp>> = Vec::new();
    let mut i: usize = 0;
    while i < transactions.len()
        invariant
            i <= transactions.len(),
            copy@ =~= transactions@.take(i as int),
        decreases transactions.len() - i,
    {
        copy.push(Arc::clone(&transactions[i]));
        i = i + 1;
    }
    copy
}

/// Whether every proxy of a list is sent a batch under a number.
pub open spec fn broadcast(
    sent: Seq<(ProxyId, PrimaryToProxyMessage)>,
    to: Seq<ProxyId>,
    transactions: Seq<Arc<TransactionWithTimestamp>>,
    number: u64,
) -> bool {
    &&& sent.len() == to.len()
    &&& forall|i: int|
        0 <= i < sent.len() ==> {
            &&& (#[trigger] sent[i]).0 == to[i]
            &&& sent[i].1 matches PrimaryToProxyMessage::TransactionBatch(batch, n) && batch@
                == transactions && n == number
        }
}

impl DecentralizedForwarder {
    /// No batch has been sent.
    pub fn new(proxy_mode: ProxyMode) -> (forwarder: Self)
        ensures
            forwarder.proxy_mode == proxy_mode,
            forwarder.batch_sequence == 0,
    {
        DecentralizedForwarder { proxy_mode, batch_sequence: 0 }
    }

    /// Numbers a batch and broadcasts it, so that all proxies see the batches
    /// in one order.
    pub fn process_committed_transactions<C>(
        &mut self,
        connections: &ProxyConnections<C>,
        transactions: &Vec<Arc<TransactionWithTimestamp>>,
    ) -> (sent: Dispatch)
        requires
            old(self).batch_sequence < u64::MAX,
        ensures
            final(self).proxy_mode == old(self).proxy_mode,
            final(self).batch_sequence == old(self).batch_sequence + 1,
            broadcast(
                sent@,
                crate::primary::connections::ascending(connections@.dom()),
                transactions@,
                final(self).batch_sequence,
            ),
    {
        self.batch_sequence = self.batch_sequence + 1;
        self.broadcast_transaction_batch(connections, transactions, self.batch_sequence)
    }

    /// Broadcasts a batch under a number to every connected proxy.
    pub fn broadcast_transaction_batch<C>(
        &self,
        connections: &ProxyConnections<C>,
        transactions: &Vec<Arc<TransactionWithTimestamp>>,
        batch_sequence: u64,
    ) -> (sent: Dispatch)
        ensures
            broadcast(
                sent@,
                crate::primary::connections::ascending(connections@.dom()),
                transactions@,
                batch_sequence,
            ),
    {
        let ids: Vec<ProxyId> = sorted_proxy_ids(connections);
        let mut sent: Dispatch = Vec::new();
        let mut i: usize = 0;
        while i < ids.len()
            invariant
                i <= ids.len(),
                broadcast(sent@, ids@.take(i as int), transactions@, batch_sequence),
            decreases ids.len() - i,
        {
            sent.push(
                (
                    ids[i],
                    PrimaryToProxyMessage::TransactionBatch(
                        copy_batch(transactions),
                        batch_sequence,
                    ),
                ),
            );
            i = i + 1;
        }
        proof {
            assert(ids@.take(i as int) =~= ids@);
        }
        sent
    }
}

/// A broadcast reaches each proxy of the list once, in the order of the
/// list, with the whole batch in its order and under the one number.
pub proof fn law_everyone_gets_the_batch(
    sent: Seq<(ProxyId, PrimaryToProxyMessage)>,
    to: Seq<ProxyId>,
    transactions: Seq<Arc<TransactionWithTimestamp>>,
    number: u64,
    i: int,
)
    requires
        broadcast(sent, to, transactions, number),
        0 <= i < to.len(),
    ensures
        sent.len() == to.len(),
        sent[i].0 == to[i],
        sent[i].1 is TransactionBatch,
        sent[i].1->TransactionBatch_1 == number,
        sent[i].1->TransactionBatch_0@.len() == transactions.len(),
        forall|k: int|
            0 <= k < transactions.len() ==> (#[trigger] sent[i].1->TransactionBatch_0@[k])
                == transactions[k],
{
}

/// A connected proxy is sent a broadcast batch just once, and no other proxy is.
pub proof fn law_batches_reach_the_connected_proxies(
    sent: Seq<(ProxyId, PrimaryToProxyMessage)>,
    connected: Set<ProxyId>,
    transactions: Seq<Arc<TransactionWithTimestamp>>,
    number: u64,
    proxy: ProxyId,
)
    requires
        exists|s: Seq<ProxyId>| crate::primary::connections::lists(s, connected),
        broadcast(
            sent,
            crate::primary::connections::ascending(connected),
            transactions,
            number,
        ),
    ensures
        connected.contains(proxy) <==> exists|i: int|
            0 <= i < sent.len() && (#[trigger] sent[i]).0 == proxy,
        forall|i: int, j: int|
            0 <= i < j < sent.len() ==> (#[trigger] sent[i]).0 < (#[trigger] sent[j]).0,
{
    let to = crate::primary::connections::ascending(connected);
    let s = choose|s: Seq<ProxyId>| crate::primary::connections::lists(s, connected);
    crate::primary::connections::lemma_ascending(s, connected);
    if connected.contains(proxy) {
        assert(to.contains(proxy));
        let k = choose|k: int| 0 <= k < to.len() && to[k] == proxy;
        assert(sent[k].0 == proxy);
    }
    if exists|i: int| 0 <= i < sent.len() && (#[trigger] sent[i]).0 == proxy {
        let i = choose|i: int| 0 <= i < sent.len() && (#[trigger] sent[i]).0 == proxy;
        assert(to[i] == proxy);
        assert(to.contains(proxy));
    }
}

} // verus!
