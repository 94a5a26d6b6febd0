//! Which transactions wait for the check of which others.
use tokio::sync::oneshot;
use vstd::prelude::*;

use crate::base_types::TransactionDigest;
use crate::tables::ConcurrentMap;

verus! {

/// `tokio::sync::oneshot::Receiver`, the end of a channel that receives one value.
#[verifier::external_type_specification]
#[verifier::external_body]
#[verifier::reject_recursive_types(T)]
pub struct ExReceiver<T>(oneshot::Receiver<T>);

/// `tokio::sync::oneshot::Sender`, the end of a channel that sends one value.
#[verifier::external_type_specification]
#[verifier::external_body]
#[verifier::reject_recursive_types(T)]
pub struct ExSender<T>(oneshot::Sender<T>);

/// `tokio::sync::oneshot::error::RecvError`, what a receiver whose sender is
/// gone yields.
#[verifier::external_type_specification]
#[verifier::external_body]
pub struct ExRecvError(oneshot::error::RecvError);

/// Whether two ends belong to one `tokio::sync::oneshot` channel, so that the
/// receiver gets what is sent on the sender.
pub uninterp spec fn paired(
    sender: oneshot::Sender<bool>,
    receiver: oneshot::Receiver<bool>,
) -> bool;

/// `tokio::sync::oneshot::channel`: the two ends of one new channel.
#[verifier::external_body]
fn channel() -> (ends: (oneshot::Sender<bool>, oneshot::Receiver<bool>))
    ensures
        paired(ends.0, ends.1),
{
    oneshot::channel::<bool>()
}

/// The ends of a channel that are kept for a transaction. What is sent says
/// whether the check of the transaction succeeded.
pub struct TaskHandle {
    /// Where the outcome will arrive.
    pub receiver: Option<oneshot::Receiver<bool>>,
    /// Where the outcome is announced.
    pub sender: Option<oneshot::Sender<bool>>,
}

/// Keeps for each transaction the ends of a channel that announces the
/// outcome of its check.
pub struct OneshotDependencyController {
    obj_task_map: ConcurrentMap<TransactionDigest, TaskHandle>,
}

impl View for OneshotDependencyController {
    type V = Map<TransactionDigest, TaskHandle>;

    closed spec fn view(&self) -> Map<TransactionDigest, TaskHandle> {
        self.obj_task_map@
    }
}

/// The entries once the receiver of a transaction is taken: an entry without
/// a sender goes, any other keeps its sender.
pub open spec fn receiver_taken(
    entries: Map<TransactionDigest, TaskHandle>,
    txn_id: TransactionDigest,
) -> Map<TransactionDigest, TaskHandle> {
    if !entries.contains_key(txn_id) || entries[txn_id].sender is None {
        entries.remove(txn_id)
    } else {
        entries.insert(txn_id, TaskHandle { receiver: None, sender: entries[txn_id].sender })
    }
}

/// The entries once the sender of a transaction is taken: an entry without a
/// receiver goes, any other keeps its receiver.
pub open spec fn sender_taken(
    entries: Map<TransactionDigest, TaskHandle>,
    txn_id: TransactionDigest,
) -> Map<TransactionDigest, TaskHandle> {
    if !entries.contains_key(txn_id) || entries[txn_id].receiver is None {
        entries.remove(txn_id)
    } else {
        entries.insert(txn_id, TaskHandle { receiver: entries[txn_id].receiver, sender: None })
    }
}

impl Default for OneshotDependencyController {
    fn default() -> (controller: Self)
        ensures
            controller@ =~= Map::<TransactionDigest, TaskHandle>::empty(),
    {
        Self::new()
    }
}

impl OneshotDependencyController {
    /// No transaction has an entry.
    pub fn new() -> (controller: Self)
        ensures
            controller@ =~= Map::<TransactionDigest, TaskHandle>::empty(),
    {
        OneshotDependencyController { obj_task_map: ConcurrentMap::new() }
    }

    /// Whether a transaction has an entry.
    pub fn has_entry_for_txn(&self, txn_id: &TransactionDigest) -> (known: bool)
        ensures
            known == self@.contains_key(*txn_id),
    {
        self.obj_task_map.contains_key(txn_id)
    }

    /// Keeps the ends of a channel for a transaction, in place of earlier ones.
    pub fn keep(&mut self, txn_id: TransactionDigest, handle: TaskHandle)
        ensures
            final(self)@ == old(self)@.insert(txn_id, handle),
    {
        let _ = self.obj_task_map.insert(txn_id, handle);
    }

    /// Opens a channel for a transaction that is checked elsewhere: its sender
    /// is kept until the outcome comes, its receiver is handed out.
    pub fn set_remote_dependency(&mut self, txn_id: TransactionDigest) -> (receiver:
        oneshot::Receiver<bool>)
        ensures
            exists|sender: oneshot::Sender<bool>|
                #[trigger] paired(sender, receiver) && final(self)@ == old(self)@.insert(
                    txn_id,
                    TaskHandle { receiver: None, sender: Some(sender) },
                ),
    {
        let (tx, rx) = channel();
        self.keep(txn_id, TaskHandle { receiver: None, sender: Some(tx) });
        rx
    }

    /// Opens a channel for a transaction that is checked here: its receiver is
    /// kept until somebody waits for the outcome, its sender is handed out.
    pub fn set_local_dependency(&mut self, txn_id: TransactionDigest) -> (sender: oneshot::Sender<
        bool,
    >)
        ensures
            exists|receiver: oneshot::Receiver<bool>|
                #[trigger] paired(sender, receiver) && final(self)@ == old(self)@.insert(
                    txn_id,
                    TaskHandle { receiver: Some(receiver), sender: None },
                ),
    {
        let (tx, rx) = channel();
        self.keep(txn_id, TaskHandle { receiver: Some(rx), sender: None });
        tx
    }

    /// Takes the receiver of a transaction. An entry without a sender goes.
    pub fn get_dependency(&mut self, txn_id: &TransactionDigest) -> (receiver: Option<
        oneshot::Receiver<bool>,
    >)
        ensures
            final(self)@ =~= receiver_taken(old(self)@, *txn_id),
            receiver == (if old(self)@.contains_key(*txn_id) {
                old(self)@[*txn_id].receiver
            } else {
                None
            }),
    {
        match self.obj_task_map.remove(txn_id) {
            Some(handle) => {
                let TaskHandle { receiver, sender } = handle;
                if sender.is_some() {
                    let _ = self.obj_task_map.insert(
                        *txn_id,
                        TaskHandle { receiver: None, sender },
                    );
                }
                receiver
            },
            None => None,
        }
    }

    /// Removes the entry of a transaction and hands out its receiver.
    pub fn remove_dependency(&mut self, txn_id: &TransactionDigest) -> (receiver: Option<
        oneshot::Receiver<bool>,
    >)
        ensures
            final(self)@ =~= old(self)@.remove(*txn_id),
            receiver == (if old(self)@.contains_key(*txn_id) {
                old(self)@[*txn_id].receiver
            } else {
                None
            }),
    {
        match self.obj_task_map.remove(txn_id) {
            Some(handle) => handle.receiver,
            None => None,
        }
    }

    /// Takes the sender of a transaction. An entry without a receiver goes.
    pub fn take_signal(&mut self, txn_id: &TransactionDigest) -> (sender: Option<
        oneshot::Sender<bool>,
    >)
        ensures
            final(self)@ =~= sender_taken(old(self)@, *txn_id),
            sender == (if old(self)@.contains_key(*txn_id) {
                old(self)@[*txn_id].sender
            } else {
                None
            }),
    {
        match self.obj_task_map.remove(txn_id) {
            Some(handle) => {
                let TaskHandle { receiver, sender } = handle;
                if receiver.is_some() {
                    let _ = self.obj_task_map.insert(
                        *txn_id,
                        TaskHandle { receiver, sender: None },
                    );
                }
                sender
            },
            None => None,
        }
    }
}

/// Each end of a channel is handed out once: what is taken is no longer kept,
/// and what happens for one transaction leaves all others as they are.
pub proof fn law_ends_are_handed_out_once(
    entries: Map<TransactionDigest, TaskHandle>,
    txn_id: TransactionDigest,
    other: TransactionDigest,
)
    requires
        other != txn_id,
    ensures
        receiver_taken(entries, txn_id).contains_key(txn_id) ==> receiver_taken(
            entries,
            txn_id,
        )[txn_id].receiver is None,
        sender_taken(entries, txn_id).contains_key(txn_id) ==> sender_taken(
            entries,
            txn_id,
        )[txn_id].sender is None,
        receiver_taken(entries, txn_id).get(other) == entries.get(other),
        sender_taken(entries, txn_id).get(other) == entries.get(other),
{
}

/// A check that starts here and is waited for leaves nothing behind: who waits
/// gets the receiver that belongs to the sender that was handed out.
pub proof fn law_outcome_reaches_who_waits(
    entries: Map<TransactionDigest, TaskHandle>,
    txn_id: TransactionDigest,
    sender: oneshot::Sender<bool>,
    receiver: oneshot::Receiver<bool>,
)
    requires
        paired(sender, receiver),
    ensures
        ({
            let kept = entries.insert(
                txn_id,
                TaskHandle { receiver: Some(receiver), sender: None },
            );
            &&& kept[txn_id].receiver matches Some(waited) && paired(sender, waited)
            &&& receiver_taken(kept, txn_id) =~= entries.remove(txn_id)
        }),
{
}

/// Once both ends are taken, in either order, the entry of a transaction is gone.
pub proof fn law_entry_goes_with_its_ends(
    entries: Map<TransactionDigest, TaskHandle>,
    txn_id: TransactionDigest,
)
    ensures
        sender_taken(receiver_taken(entries, txn_id), txn_id) =~= entries.remove(txn_id),
        receiver_taken(sender_taken(entries, txn_id), txn_id) =~= entries.remove(txn_id),
{
}

/// Taking one end keeps the other: an entry that has both still has the end
/// that was not taken, and an entry that has nothing else goes.
pub proof fn law_other_end_is_kept(
    entries: Map<TransactionDigest, TaskHandle>,
    txn_id: TransactionDigest,
)
    requires
        entries.contains_key(txn_id),
    ensures
        receiver_taken(entries, txn_id).contains_key(txn_id) <==> entries[txn_id].sender is Some,
        sender_taken(entries, txn_id).contains_key(txn_id) <==> entries[txn_id].receiver is Some,
        entries[txn_id].sender is Some ==> receiver_taken(entries, txn_id)[txn_id].sender
            == entries[txn_id].sender,
        entries[txn_id].receiver is Some ==> sender_taken(entries, txn_id)[txn_id].receiver
            == entries[txn_id].receiver,
{
}

} // verus!
