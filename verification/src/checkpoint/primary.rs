//! The epochs as the primary numbers them.
use vstd::prelude::*;

use crate::checkpoint::EpochId;

verus! {

/// Numbers the epochs, from 1 on.
pub struct EpochManager {
    next_epoch_id: u64,
}

impl View for EpochManager {
    type V = u64;

    closed spec fn view(&self) -> u64 {
        self.next_epoch_id
    }
}

/// The number after a number, from the last on to the first.
pub open spec fn epoch_after(epoch: u64) -> u64 {
    if epoch == u64::MAX {
        0
    } else {
        (epoch + 1) as u64
    }
}

impl Default for EpochManager {
    fn default() -> (manager: Self)
        ensures
            manager@ == 1,
    {
        EpochManager { next_epoch_id: 1 }
    }
}

impl EpochManager {
    /// The first epoch is next.
    pub fn new() -> (manager: Self)
        ensures
            manager@ == 1,
    {
        EpochManager { next_epoch_id: 1 }
    }

    /// The epoch that ends; the one after it is next.
    pub fn end_epoch_and_begin_next(&mut self) -> (ended: EpochId)
        ensures
            ended.0 == old(self)@,
            final(self)@ == epoch_after(old(self)@),
    {
        let ended: EpochId = EpochId(self.next_epoch_id);
        self.next_epoch_id = self.next_epoch_id.wrapping_add(1);
        ended
    }

    /// The epoch that ends next.
    pub fn peek_next_epoch(&self) -> (next: EpochId)
        ensures
            next.0 == self@,
    {
        EpochId(self.next_epoch_id)
    }
}

/// Epochs are numbered one after the other, and no two epochs in a row of
/// fewer than all numbers share one.
pub proof fn law_epochs_follow_each_other(epoch: u64, other: u64)
    ensures
        epoch < u64::MAX ==> epoch_after(epoch) == epoch + 1,
        epoch == u64::MAX ==> epoch_after(epoch) == 0,
        epoch_after(epoch) != epoch,
        epoch_after(epoch) == epoch_after(other) ==> epoch == other,
{
}

} // verus!
