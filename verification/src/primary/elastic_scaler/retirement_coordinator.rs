//! The orderly retirement of a proxy.
//!
//! A retirement begins at an epoch boundary, then waits for the last snapshot
//! of the proxy, then for an epoch to be persisted.
use vstd::prelude::*;

use crate::base_types::ProxyId;
use crate::checkpoint::state_collector::{CollectorState, StateCollector};
use crate::checkpoint::{EpochId, EpochObjectStates};

verus! {

/// How far a retirement has come.
#[derive(Clone, Copy, Debug, PartialEq, Eq, Structural)]
pub enum RetirementPhase {
    /// No retirement is under way.
    Idle,
    /// The retirement waits for an epoch boundary.
    PendingEpochBoundary { proxy_id: ProxyId },
    /// The proxy gets no more work; its last snapshot is awaited.
    AwaitingSnapshot { proxy_id: ProxyId, epoch: EpochId },
    /// The snapshot is there; an epoch has to be persisted.
    AwaitingNextEpochSeal { proxy_id: ProxyId },
}

/// What is to be done for a retirement.
#[derive(Clone, Copy, Debug, PartialEq, Eq, Structural)]
pub enum RetirementAction {
    /// Tell the proxy to retire.
    SendRetirementSignal { proxy_id: ProxyId, epoch: EpochId },
    /// Account for the states of the proxy.
    UpdateOwnership { proxy_id: ProxyId },
    /// Remove the proxy.
    CompleteRetirement { proxy_id: ProxyId },
}

impl RetirementPhase {
    /// The proxy that retires.
    pub open spec fn retiring(self) -> Option<ProxyId> {
        match self {
            RetirementPhase::Idle => None,
            RetirementPhase::PendingEpochBoundary { proxy_id } => Some(proxy_id),
            RetirementPhase::AwaitingSnapshot { proxy_id, .. } => Some(proxy_id),
            RetirementPhase::AwaitingNextEpochSeal { proxy_id } => Some(proxy_id),
        }
    }

    /// The phase once the retirement of a proxy is asked for.
    pub open spec fn initiated(self, proxy_id: ProxyId) -> Self {
        if self is Idle {
            RetirementPhase::PendingEpochBoundary { proxy_id }
        } else {
            self
        }
    }

    /// The phase once a retirement is called off.
    pub open spec fn cancelled(self) -> Self {
        if self is PendingEpochBoundary {
            RetirementPhase::Idle
        } else {
            self
        }
    }

    /// The phase after an epoch boundary.
    pub open spec fn after_boundary(self, epoch: EpochId) -> Self {
        match self {
            RetirementPhase::PendingEpochBoundary { proxy_id } => RetirementPhase::AwaitingSnapshot {
                proxy_id,
                epoch,
            },
            _ => self,
        }
    }

    /// What an epoch boundary asks for.
    pub open spec fn boundary_action(self, epoch: EpochId) -> Option<RetirementAction> {
        match self {
            RetirementPhase::PendingEpochBoundary { proxy_id } => Some(
                RetirementAction::SendRetirementSignal { proxy_id, epoch },
            ),
            _ => None,
        }
    }

    /// Whether a snapshot is the one that is awaited.
    pub open spec fn awaits(self, proxy_id: ProxyId, epoch: EpochId) -> bool {
        self == (RetirementPhase::AwaitingSnapshot { proxy_id, epoch })
    }

    /// The phase after a snapshot.
    pub open spec fn after_snapshot(self, proxy_id: ProxyId, epoch: EpochId) -> Self {
        if self.awaits(proxy_id, epoch) {
            RetirementPhase::AwaitingNextEpochSeal { proxy_id }
        } else {
            self
        }
    }

    /// The phase once an epoch is persisted.
    pub open spec fn after_seal(self) -> Self {
        if self is AwaitingNextEpochSeal {
            RetirementPhase::Idle
        } else {
            self
        }
    }

    /// What a persisted epoch asks for.
    pub open spec fn seal_action(self) -> Option<RetirementAction> {
        match self {
            RetirementPhase::AwaitingNextEpochSeal { proxy_id } => Some(
                RetirementAction::CompleteRetirement { proxy_id },
            ),
            _ => None,
        }
    }
}

/// Takes a proxy through its retirement.
#[derive(Debug)]
pub struct RetirementCoordinator {
    phase: RetirementPhase,
}

impl View for RetirementCoordinator {
    type V = RetirementPhase;

    closed spec fn view(&self) -> RetirementPhase {
        self.phase
    }
}

impl RetirementCoordinator {
    /// No retirement is under way.
    pub fn new() -> (coordinator: Self)
        ensures
            coordinator@ == RetirementPhase::Idle,
    {
        RetirementCoordinator { phase: RetirementPhase::Idle }
    }

    /// How far the retirement has come.
    pub fn phase(&self) -> (phase: &RetirementPhase)
        ensures
            *phase == self@,
    {
        &self.phase
    }

    /// Whether a retirement is under way.
    pub fn is_retiring(&self) -> (retiring: bool)
        ensures
            retiring == !(self@ is Idle),
            retiring == (self@.retiring() is Some),
    {
        match self.phase {
            RetirementPhase::Idle => false,
            _ => true,
        }
    }

    /// Whether a proxy retires.
    pub fn is_proxy_retiring(&self, proxy_id: ProxyId) -> (retiring: bool)
        ensures
            retiring == (self@.retiring() == Some(proxy_id)),
    {
        match self.phase {
            RetirementPhase::Idle => false,
            RetirementPhase::PendingEpochBoundary { proxy_id: pid } => pid == proxy_id,
            RetirementPhase::AwaitingSnapshot { proxy_id: pid, .. } => pid == proxy_id,
            RetirementPhase::AwaitingNextEpochSeal { proxy_id: pid } => pid == proxy_id,
        }
    }

    /// Starts the retirement of a proxy, unless one is under way.
    pub fn initiate(&mut self, proxy_id: ProxyId) -> (started: bool)
        ensures
            started == (old(self)@ is Idle),
            final(self)@ == old(self)@.initiated(proxy_id),
    {
        if self.is_retiring() {
            return false;
        }
        self.phase = RetirementPhase::PendingEpochBoundary { proxy_id };
        true
    }

    /// Calls off a retirement that still waits for an epoch boundary.
    pub fn cancel(&mut self) -> (cancelled: bool)
        ensures
            cancelled == (old(self)@ is PendingEpochBoundary),
            final(self)@ == old(self)@.cancelled(),
    {
        match self.phase {
            RetirementPhase::PendingEpochBoundary { .. } => {
                self.phase = RetirementPhase::Idle;
                true
            },
            _ => false,
        }
    }

    /// Takes note of an epoch boundary.
    pub fn on_epoch_boundary(&mut self, epoch: EpochId) -> (action: Option<RetirementAction>)
        ensures
            action == old(self)@.boundary_action(epoch),
            final(self)@ == old(self)@.after_boundary(epoch),
    {
        match self.phase {
            RetirementPhase::PendingEpochBoundary { proxy_id } => {
                self.phase = RetirementPhase::AwaitingSnapshot { proxy_id, epoch };
                Some(RetirementAction::SendRetirementSignal { proxy_id, epoch })
            },
            _ => None,
        }
    }

    /// Takes note of a snapshot: the one that is awaited is merged into the
    /// acknowledged state, any other is ignored.
    pub fn on_snapshot_received(
        &mut self,
        proxy_id: ProxyId,
        epoch: EpochId,
        snapshot: &EpochObjectStates,
        collector: &mut StateCollector,
    ) -> (action: Option<RetirementAction>)
        requires
            old(collector).wf(),
            snapshot.wf(),
        ensures
            final(collector).wf(),
            action == (if old(self)@.awaits(proxy_id, epoch) {
                Some(RetirementAction::UpdateOwnership { proxy_id })
            } else {
                None
            }),
            final(self)@ == old(self)@.after_snapshot(proxy_id, epoch),
            final(collector)@ =~= (if old(self)@.awaits(proxy_id, epoch) {
                CollectorState {
                    merged: crate::checkpoint::state_collector::with_newer(
                        old(collector)@.merged,
                        snapshot@,
                    ),
                    ..old(collector)@
                }
            } else {
                old(collector)@
            }),
    {
        match self.phase {
            RetirementPhase::AwaitingSnapshot { proxy_id: expected, epoch: at } => {
                if proxy_id != expected {
                    return None;
                }
                if epoch != at {
                    return None;
                }
                collector.merge_retirement_snapshot(snapshot);
                self.phase = RetirementPhase::AwaitingNextEpochSeal { proxy_id };
                Some(RetirementAction::UpdateOwnership { proxy_id })
            },
            _ => None,
        }
    }

    /// Takes note of a persisted epoch, which completes a retirement whose
    /// snapshot is there.
    pub fn on_epoch_sealed(&mut self, _epoch: EpochId) -> (action: Option<RetirementAction>)
        ensures
            action == old(self)@.seal_action(),
            final(self)@ == old(self)@.after_seal(),
    {
        match self.phase {
            RetirementPhase::AwaitingNextEpochSeal { proxy_id } => {
                self.phase = RetirementPhase::Idle;
                Some(RetirementAction::CompleteRetirement { proxy_id })
            },
            _ => None,
        }
    }
}

/// A retirement that has started takes its proxy through all phases in order
/// and ends where it began, whatever epoch is persisted last.
pub proof fn law_retirement_runs_its_course(proxy_id: ProxyId, epoch: EpochId)
    ensures
        ({
            let pending = RetirementPhase::Idle.initiated(proxy_id);
            let signalled = pending.after_boundary(epoch);
            let snapshotted = signalled.after_snapshot(proxy_id, epoch);
            &&& pending == (RetirementPhase::PendingEpochBoundary { proxy_id })
            &&& pending.boundary_action(epoch) == Some(
                RetirementAction::SendRetirementSignal { proxy_id, epoch },
            )
            &&& signalled == (RetirementPhase::AwaitingSnapshot { proxy_id, epoch })
            &&& snapshotted == (RetirementPhase::AwaitingNextEpochSeal { proxy_id })
            &&& snapshotted.seal_action() == Some(RetirementAction::CompleteRetirement { proxy_id })
            &&& snapshotted.after_seal() == RetirementPhase::Idle
        }),
{
}

/// While a retirement is under way no other one starts.
pub proof fn law_one_retirement_at_a_time(phase: RetirementPhase, first: ProxyId, second: ProxyId)
    ensures
        phase.initiated(first).initiated(second) == phase.initiated(first),
        !(phase is Idle) ==> phase.initiated(first) == phase,
{
}

/// A retirement that waits for an epoch boundary can be called off without a trace.
pub proof fn law_cancel_undoes_initiate(proxy_id: ProxyId)
    ensures
        RetirementPhase::Idle.initiated(proxy_id).cancelled() == RetirementPhase::Idle,
{
}

/// Whatever happens, the proxy that retires does not change before the
/// retirement is over.
pub proof fn law_retiring_proxy_is_kept(
    phase: RetirementPhase,
    proxy_id: ProxyId,
    epoch: EpochId,
)
    requires
        !(phase is Idle),
    ensures
        phase.initiated(proxy_id).retiring() == phase.retiring(),
        phase.after_boundary(epoch).retiring() == phase.retiring(),
        phase.after_snapshot(proxy_id, epoch).retiring() == phase.retiring(),
        phase.after_seal() is Idle || phase.after_seal().retiring() == phase.retiring(),
{
}

/// With no retirement under way, nothing that happens starts or asks for anything.
pub proof fn law_idle_stays_idle(proxy_id: ProxyId, epoch: EpochId)
    ensures
        RetirementPhase::Idle.after_boundary(epoch) == RetirementPhase::Idle,
        RetirementPhase::Idle.boundary_action(epoch) is None,
        RetirementPhase::Idle.after_snapshot(proxy_id, epoch) == RetirementPhase::Idle,
        RetirementPhase::Idle.after_seal() == RetirementPhase::Idle,
        RetirementPhase::Idle.seal_action() is None,
        RetirementPhase::Idle.cancelled() == RetirementPhase::Idle,
{
}

/// A snapshot from another proxy or for another epoch than the awaited one
/// leaves the retirement as it is.
pub proof fn law_unexpected_snapshot_is_ignored(
    retiring: ProxyId,
    epoch: EpochId,
    other: ProxyId,
    other_epoch: EpochId,
)
    requires
        other != retiring || other_epoch != epoch,
    ensures
        ({
            let phase = RetirementPhase::AwaitingSnapshot { proxy_id: retiring, epoch };
            phase.after_snapshot(other, other_epoch) == phase
        }),
{
}

/// Each phase is left by one thing that happens and by nothing else.
pub proof fn law_each_phase_waits_for_its_own_event(
    proxy_id: ProxyId,
    epoch: EpochId,
    other: ProxyId,
    other_epoch: EpochId,
)
    ensures
        ({
            let pending = RetirementPhase::PendingEpochBoundary { proxy_id };
            &&& pending.initiated(other) == pending
            &&& pending.after_snapshot(other, other_epoch) == pending
            &&& pending.after_seal() == pending
            &&& pending.seal_action() is None
            &&& pending.cancelled() == RetirementPhase::Idle
            &&& pending.after_boundary(other_epoch) == (RetirementPhase::AwaitingSnapshot {
                proxy_id,
                epoch: other_epoch,
            })
        }),
        ({
            let signalled = RetirementPhase::AwaitingSnapshot { proxy_id, epoch };
            &&& signalled.initiated(other) == signalled
            &&& signalled.cancelled() == signalled
            &&& signalled.after_boundary(other_epoch) == signalled
            &&& signalled.boundary_action(other_epoch) is None
            &&& signalled.after_seal() == signalled
            &&& signalled.seal_action() is None
            &&& signalled.after_snapshot(other, other_epoch) == (if other == proxy_id && other_epoch
                == epoch {
                RetirementPhase::AwaitingNextEpochSeal { proxy_id }
            } else {
                signalled
            })
        }),
        ({
            let snapshotted = RetirementPhase::AwaitingNextEpochSeal { proxy_id };
            &&& snapshotted.initiated(other) == snapshotted
            &&& snapshotted.cancelled() == snapshotted
            &&& snapshotted.after_boundary(other_epoch) == snapshotted
            &&& snapshotted.boundary_action(other_epoch) is None
            &&& snapshotted.after_snapshot(other, other_epoch) == snapshotted
            &&& snapshotted.after_seal() == RetirementPhase::Idle
        }),
{
}

/// A snapshot is awaited only of the proxy that retires, and only for the
/// epoch whose end it was told.
pub proof fn law_awaited_snapshot_is_of_the_retiring_proxy(
    phase: RetirementPhase,
    proxy_id: ProxyId,
    epoch: EpochId,
)
    requires
        phase.awaits(proxy_id, epoch),
    ensures
        phase.retiring() == Some(proxy_id),
        phase is AwaitingSnapshot,
        forall|other: ProxyId, other_epoch: EpochId| #[trigger]
            phase.awaits(other, other_epoch) ==> other == proxy_id && other_epoch == epoch,
{
}

/// Each thing to be done concerns the proxy that retires.
pub proof fn law_actions_concern_the_retiring_proxy(phase: RetirementPhase, epoch: EpochId)
    ensures
        phase.boundary_action(epoch) matches Some(action) ==> phase is PendingEpochBoundary
            && action == (RetirementAction::SendRetirementSignal {
            proxy_id: phase.retiring()->0,
            epoch,
        }),
        phase.seal_action() matches Some(action) ==> phase is AwaitingNextEpochSeal && action == (
        RetirementAction::CompleteRetirement { proxy_id: phase.retiring()->0 }),
        phase is PendingEpochBoundary ==> phase.boundary_action(epoch) is Some,
        phase is AwaitingNextEpochSeal ==> phase.seal_action() is Some,
        phase.retiring() is None <==> phase is Idle,
{
}

} // verus!
