//! How many proxies are in service, by the load that is observed.
//!
//! A decision to scale out waits for the next epoch boundary, so that the
//! primary knows which proxies take part in each epoch.
pub mod retirement_coordinator;

use vstd::prelude::*;

use crate::base_types::ProxyId;
use crate::checkpoint::{EpochId, EpochObjectStates};

verus! {

/// The length of the window over which the rate is taken, in milliseconds.
pub const RATE_WINDOW_MS: u64 = 1000;

/// A number that is not negative, as an integer that orders like it. For a
/// double-precision number, these are its bits.
pub type OrderKey = u64;

/// What the retiring of a proxy waits for.
pub enum RetirementEvent {
    /// A proxy has sent a snapshot.
    Snapshot { proxy_id: ProxyId, epoch: EpochId, snapshot: EpochObjectStates },
    /// An epoch is persisted.
    EpochSealed { epoch: EpochId },
}

/// The activation of a queued scale-out at an epoch boundary.
#[derive(Clone, Copy, Debug, PartialEq, Eq, Structural)]
pub struct ScaleOutActivation {
    /// The number of active nodes before.
    pub previous_count: usize,
    /// The number of active nodes now.
    pub new_count: usize,
}

/// A decision to change the number of active nodes.
#[derive(Clone, Copy, Debug, PartialEq, Eq, Structural)]
pub enum ScalingDecision {
    /// Add a node.
    ScaleOut,
    /// Retire the node with the highest identity.
    ScaleIn,
}

/// The number of active nodes, and what decides on it.
#[derive(Debug)]
pub struct ElasticScaler {
    active_nodes: usize,
    min_nodes: usize,
    max_nodes: usize,
    capacity_known: bool,
    incoming_rate_count: usize,
    rate_window_start: u64,
    last_scale_check: u64,
    pending_scale_out: bool,
}

/// What a scaler knows.
pub struct ScalerState {
    /// The number of active nodes.
    pub active: usize,
    /// The number of nodes that there are.
    pub max: usize,
    /// Whether the capacity of a node is known.
    pub capacity_known: bool,
    /// The number of transactions in the current window.
    pub count: usize,
    /// When the current window began, in milliseconds.
    pub window_start: u64,
    /// Whether a scale-out waits for the next epoch boundary.
    pub pending: bool,
}

impl ScalerState {
    /// At least one node is active, and no more than there are.
    pub open spec fn wf(self) -> bool {
        1 <= self.active <= self.max
    }

    /// Whether a scale-out can be queued.
    pub open spec fn can_queue(self) -> bool {
        !self.pending && self.active < self.max
    }

    /// The state once a scale-out is asked for.
    pub open spec fn queued(self) -> Self {
        if self.can_queue() {
            ScalerState { pending: true, ..self }
        } else {
            self
        }
    }

    /// What an epoch boundary activates.
    pub open spec fn activation(self) -> Option<ScaleOutActivation> {
        if self.pending && self.active < self.max {
            Some(
                ScaleOutActivation {
                    previous_count: self.active,
                    new_count: (self.active + 1) as usize,
                },
            )
        } else {
            None
        }
    }

    /// The state after an epoch boundary.
    pub open spec fn bounded(self) -> Self {
        ScalerState {
            pending: false,
            active: match self.activation() {
                Some(activation) => activation.new_count,
                None => self.active,
            },
            ..self
        }
    }

    /// The state with one active node more, up to the number that there are.
    pub open spec fn increased(self) -> Self {
        if self.active < self.max {
            ScalerState { active: (self.active + 1) as usize, ..self }
        } else {
            self
        }
    }

    /// The state with one active node less, down to one.
    pub open spec fn decreased(self) -> Self {
        if self.active > 1 {
            ScalerState { active: (self.active - 1) as usize, ..self }
        } else {
            self
        }
    }

    /// Whether a rate calls for one node less.
    pub open spec fn wants_fewer(self, rate: OrderKey, threshold: OrderKey) -> bool {
        self.active >= 2 && self.capacity_known && rate <= threshold
    }

    /// Whether a rate calls for one node more.
    pub open spec fn wants_more(self, rate: OrderKey, threshold: OrderKey) -> bool {
        self.active < self.max && self.capacity_known && rate > threshold
    }

    /// The length of the current window at a moment.
    pub open spec fn window(self, now: u64) -> int {
        if now >= self.window_start {
            now - self.window_start
        } else {
            0
        }
    }
}

impl View for ElasticScaler {
    type V = ScalerState;

    closed spec fn view(&self) -> ScalerState {
        ScalerState {
            active: self.active_nodes,
            max: self.max_nodes,
            capacity_known: self.capacity_known,
            count: self.incoming_rate_count,
            window_start: self.rate_window_start,
            pending: self.pending_scale_out,
        }
    }
}

impl ElasticScaler {
    /// At least one node is active, and no more than there are.
    pub closed spec fn wf(&self) -> bool {
        self@.wf() && self.min_nodes == 1
    }

    /// One node is active.
    pub fn new(max_nodes: usize, now: u64) -> (scaler: Self)
        requires
            max_nodes >= 1,
        ensures
            scaler.wf(),
            scaler@ == (ScalerState {
                active: 1,
                max: max_nodes,
                capacity_known: false,
                count: 0,
                window_start: now,
                pending: false,
            }),
    {
        Self::with_initial_nodes(1, max_nodes, now)
    }

    /// A number of nodes is active, but at least one and no more than there are.
    pub fn with_initial_nodes(initial_nodes: usize, max_nodes: usize, now: u64) -> (scaler: Self)
        requires
            max_nodes >= 1,
        ensures
            scaler.wf(),
            scaler@ == (ScalerState {
                active: if initial_nodes < 1 {
                    1
                } else if initial_nodes > max_nodes {
                    max_nodes
                } else {
                    initial_nodes
                },
                max: max_nodes,
                capacity_known: false,
                count: 0,
                window_start: now,
                pending: false,
            }),
    {
        let active_nodes: usize = if initial_nodes < 1 {
            1
        } else if initial_nodes > max_nodes {
            max_nodes
        } else {
            initial_nodes
        };
        ElasticScaler {
            active_nodes,
            min_nodes: 1,
            max_nodes,
            capacity_known: false,
            incoming_rate_count: 0,
            rate_window_start: now,
            last_scale_check: now,
            pending_scale_out: false,
        }
    }

    /// Counts incoming transactions.
    pub fn record_transactions(&mut self, count: usize)
        requires
            old(self).wf(),
            old(self)@.count + count <= usize::MAX,
        ensures
            final(self).wf(),
            final(self)@ == (ScalerState {
                count: (old(self)@.count + count) as usize,
                ..old(self)@
            }),
    {
        self.incoming_rate_count = self.incoming_rate_count + count;
    }

    /// The number of transactions in the current window.
    pub fn recorded_transactions(&self) -> (count: usize)
        ensures
            count == self@.count,
    {
        self.incoming_rate_count
    }

    /// From now on the capacity of a node is known.
    pub fn set_capacity_known(&mut self)
        requires
            old(self).wf(),
        ensures
            final(self).wf(),
            final(self)@ == (ScalerState { capacity_known: true, ..old(self)@ }),
    {
        self.capacity_known = true;
    }

    /// Whether the capacity of a node is known.
    pub fn is_capacity_known(&self) -> (known: bool)
        ensures
            known == self@.capacity_known,
    {
        self.capacity_known
    }

    /// The number of active nodes.
    pub fn active_node_count(&self) -> (count: usize)
        ensures
            count == self@.active,
            self.wf() ==> 1 <= count <= self@.max,
    {
        self.active_nodes
    }

    /// What the rate at a moment is taken from: the number of transactions and
    /// the length of the window in milliseconds, or `None` where the window
    /// has no length and the rate is zero.
    ///
    /// A window that has reached its length ends, and a new one begins.
    pub fn calculate_current_rate(&mut self, now: u64) -> (sample: Option<(usize, u64)>)
        requires
            old(self).wf(),
        ensures
            final(self).wf(),
            sample == (if old(self)@.window(now) > 0 {
                Some((old(self)@.count, old(self)@.window(now) as u64))
            } else {
                None
            }),
            final(self)@ == (if old(self)@.window(now) >= RATE_WINDOW_MS {
                ScalerState { count: 0, window_start: now, ..old(self)@ }
            } else {
                old(self)@
            }),
    {
        let window: u64 = if now >= self.rate_window_start {
            now - self.rate_window_start
        } else {
            0
        };
        let count: usize = self.incoming_rate_count;
        if window >= RATE_WINDOW_MS {
            self.incoming_rate_count = 0;
            self.rate_window_start = now;
            Some((count, window))
        } else if window > 0 {
            Some((count, window))
        } else {
            None
        }
    }

    /// Whether one node less would do: there are at least two, and the rate is
    /// at most the threshold for one node less.
    pub fn should_scale_in(&self, current_rate: OrderKey, threshold: OrderKey) -> (decided: bool)
        requires
            self.wf(),
        ensures
            decided == self@.wants_fewer(current_rate, threshold),
    {
        if self.active_nodes <= self.min_nodes || self.active_nodes < 2 {
            return false;
        }
        self.capacity_known && current_rate <= threshold
    }

    /// Whether one node more is due: there is one, and the rate exceeds the
    /// threshold for the active nodes.
    pub fn should_scale_out(&self, current_rate: OrderKey, threshold: OrderKey) -> (decided: bool)
        requires
            self.wf(),
        ensures
            decided == self@.wants_more(current_rate, threshold),
    {
        if self.active_nodes >= self.max_nodes {
            return false;
        }
        self.capacity_known && current_rate > threshold
    }

    /// One active node more, up to the number that there are.
    pub fn increase_active_nodes(&mut self)
        requires
            old(self).wf(),
        ensures
            final(self).wf(),
            final(self)@ == old(self)@.increased(),
    {
        if self.active_nodes < self.max_nodes {
            self.active_nodes = self.active_nodes + 1;
        }
    }

    /// One active node less, down to one.
    pub fn decrease_active_nodes(&mut self)
        requires
            old(self).wf(),
        ensures
            final(self).wf(),
            final(self)@ == old(self)@.decreased(),
    {
        if self.active_nodes > self.min_nodes {
            self.active_nodes = self.active_nodes - 1;
        }
    }

    /// Decides on the number of nodes: scaling out comes before scaling in.
    ///
    /// From then on the capacity of a node counts as known.
    pub fn check_scaling(
        &mut self,
        now: u64,
        current_rate: OrderKey,
        scale_out_threshold: OrderKey,
        scale_in_threshold: OrderKey,
    ) -> (decision: Option<ScalingDecision>)
        requires
            old(self).wf(),
        ensures
            final(self).wf(),
            final(self)@ == (ScalerState { capacity_known: true, ..old(self)@ }),
            decision == (if final(self)@.wants_more(current_rate, scale_out_threshold) {
                Some(ScalingDecision::ScaleOut)
            } else if final(self)@.wants_fewer(current_rate, scale_in_threshold) {
                Some(ScalingDecision::ScaleIn)
            } else {
                None
            }),
    {
        self.last_scale_check = now;
        self.capacity_known = true;
        if self.should_scale_out(current_rate, scale_out_threshold) {
            Some(ScalingDecision::ScaleOut)
        } else if self.should_scale_in(current_rate, scale_in_threshold) {
            Some(ScalingDecision::ScaleIn)
        } else {
            None
        }
    }

    /// Queues a scale-out for the next epoch boundary, unless one is queued
    /// already or all nodes are active.
    pub fn queue_scale_out(&mut self) -> (queued: bool)
        requires
            old(self).wf(),
        ensures
            final(self).wf(),
            queued == old(self)@.can_queue(),
            final(self)@ == old(self)@.queued(),
    {
        if self.pending_scale_out {
            return false;
        }
        if self.active_nodes >= self.max_nodes {
            return false;
        }
        self.pending_scale_out = true;
        true
    }

    /// Activates a queued scale-out, unless all nodes are active by now.
    pub fn on_epoch_boundary(&mut self) -> (activation: Option<ScaleOutActivation>)
        requires
            old(self).wf(),
        ensures
            final(self).wf(),
            activation == old(self)@.activation(),
            final(self)@ == old(self)@.bounded(),
    {
        if !self.pending_scale_out {
            return None;
        }
        self.pending_scale_out = false;
        let previous_count: usize = self.active_nodes;
        if previous_count < self.max_nodes {
            self.active_nodes = previous_count + 1;
            Some(ScaleOutActivation { previous_count, new_count: previous_count + 1 })
        } else {
            None
        }
    }

    /// Whether a scale-out waits for the next epoch boundary.
    pub fn is_scale_out_pending(&self) -> (pending: bool)
        ensures
            pending == self@.pending,
    {
        self.pending_scale_out
    }
}

/// A scale-out that is asked for twice is queued once.
pub proof fn law_queueing_is_idempotent(state: ScalerState)
    ensures
        state.can_queue() ==> !state.queued().can_queue(),
        state.queued().queued() == state.queued(),
{
}

/// Nothing queued, nothing activated.
pub proof fn law_boundary_without_queue_changes_nothing(state: ScalerState)
    requires
        !state.pending,
    ensures
        state.activation() is None,
        state.bounded() == state,
{
}

/// A scale-out that was queued adds exactly one node at the next epoch
/// boundary, is then no longer queued, and tells the two counts.
pub proof fn law_queued_scale_out_adds_one(state: ScalerState)
    requires
        state.wf(),
        state.can_queue(),
    ensures
        state.queued().active == state.active,
        state.queued().activation() matches Some(activation) && activation.previous_count
            == state.active && activation.new_count == state.active + 1,
        state.queued().bounded().active == state.active + 1,
        !state.queued().bounded().pending,
{
}

/// Whatever is done, at least one node stays active and never more than there are.
pub proof fn law_active_nodes_stay_in_bounds(state: ScalerState)
    requires
        state.wf(),
    ensures
        state.queued().wf(),
        state.bounded().wf(),
        state.increased().wf(),
        state.decreased().wf(),
{
}

/// A node that is added and then taken away leaves the number as it was.
pub proof fn law_decrease_undoes_increase(state: ScalerState)
    requires
        state.wf(),
        state.active < state.max,
    ensures
        state.increased().decreased() == state,
{
}

/// A rate calls for one node more just where the capacity is known, the rate
/// is above the threshold and a node is left, and for one node less just
/// where the capacity is known, the rate is at the threshold or below it and
/// a second node is active.
pub proof fn law_rates_call_for_nodes(state: ScalerState, rate: OrderKey, threshold: OrderKey)
    ensures
        state.wants_more(rate, threshold) <==> state.capacity_known && threshold < rate
            && state.active + 1 <= state.max,
        state.wants_fewer(rate, threshold) <==> state.capacity_known && !(threshold < rate)
            && state.active >= 2,
        !(state.wants_more(rate, threshold) && state.wants_fewer(rate, threshold)),
        state.active == 1 ==> !state.wants_fewer(rate, threshold),
        state.active == state.max ==> !state.wants_more(rate, threshold),
{
}

/// A higher rate never calls for fewer nodes, a lower one never for more.
pub proof fn law_higher_rates_call_for_more(
    state: ScalerState,
    low: OrderKey,
    high: OrderKey,
    threshold: OrderKey,
)
    requires
        low <= high,
    ensures
        state.wants_more(low, threshold) ==> state.wants_more(high, threshold),
        state.wants_fewer(high, threshold) ==> state.wants_fewer(low, threshold),
{
}

/// One node comes or goes at a time, and nothing else of the state changes.
pub proof fn law_one_node_at_a_time(state: ScalerState)
    requires
        state.wf(),
    ensures
        state.increased().active == state.active + (if state.active == state.max {
            0int
        } else {
            1
        }),
        state.decreased().active == state.active - (if state.active == 1 {
            0int
        } else {
            1
        }),
        state.queued().active == state.active,
        state.increased() == (ScalerState { active: state.increased().active, ..state }),
        state.decreased() == (ScalerState { active: state.decreased().active, ..state }),
        state.queued() == (ScalerState { pending: state.queued().pending, ..state }),
        state.bounded() == (ScalerState {
            active: state.bounded().active,
            pending: false,
            ..state
        }),
{
}

/// A scale-out is pending after it is asked for unless all nodes are active,
/// and asking for one never takes another one back.
pub proof fn law_scale_out_stays_pending(state: ScalerState)
    requires
        state.wf(),
    ensures
        state.queued().pending <==> state.pending || state.active != state.max,
        state.can_queue() <==> !state.pending && state.queued().pending,
{
}

/// An epoch boundary activates one node just where a scale-out is pending
/// and a node is left; the counts it tells are those before and after it.
pub proof fn law_boundary_tells_the_counts(state: ScalerState)
    requires
        state.wf(),
    ensures
        state.activation() is Some <==> state.pending && state.active != state.max,
        state.activation() matches Some(activation) ==> activation.previous_count == state.active
            && activation.new_count == state.bounded().active && activation.new_count
            == activation.previous_count + 1,
        state.activation() is None ==> state.bounded().active == state.active,
{
}

/// The window is as long as the time since it began, and empty where the
/// clock has gone back.
pub proof fn law_window_is_the_time_since_its_start(state: ScalerState, now: u64)
    ensures
        state.window_start <= now ==> state.window_start + state.window(now) == now,
        now < state.window_start ==> state.window(now) == 0,
{
}

} // verus!
