//! Who is at work for the primary while proxies retire and fail: the
//! participants of an epoch stay with it to its end, and every proxy keeps the
//! states that it has.
use vstd::prelude::*;

use crate::base_types::{ExecutorIndex, ProxyId, StateKey};
use crate::checkpoint::EpochId;
use crate::executor::api::PrimaryToProxyMessage;
use crate::primary::elastic_scaler::retirement_coordinator::RetirementAction;
use crate::primary::elastic_scaler::ScalerState;
use crate::primary::load_balancer::{BalancerState, RetirementStep};
use crate::primary::ownership::PRIMARY_FETCH_SENTINEL;

verus! {

/// The proxies that a load balancer has at its disposal.
pub struct Roster {
    /// The connected proxies.
    pub connected: Set<ProxyId>,
    /// The number of active proxies.
    pub scaler: ScalerState,
    /// The proxies that retire or have retired.
    pub retiring: Set<ProxyId>,
}

/// What can befall a roster in the course of an epoch.
pub enum RosterChange {
    /// A transaction is forwarded, a report comes in, a scaling is decided.
    Unchanged,
    /// The retirement of a proxy completes.
    Retired(ProxyId),
    /// A proxy fails.
    Failed(ProxyId),
}

impl Roster {
    /// The roster of a load balancer.
    pub open spec fn of<C>(state: BalancerState<C>) -> Self {
        Roster {
            connected: state.connected.dom(),
            scaler: state.scaler,
            retiring: state.retiring.dom(),
        }
    }

    /// The connected proxies can be listed.
    pub open spec fn wf(self) -> bool {
        exists|s: Seq<ProxyId>| crate::primary::connections::lists(s, self.connected)
    }

    /// The active ones of the connected proxies.
    pub open spec fn in_use(self) -> Seq<ProxyId> {
        crate::primary::connections::first_of(
            crate::primary::connections::ascending(self.connected),
            self.scaler.active,
        )
    }

    /// The proxies that take part in the current epoch.
    pub open spec fn participants(self) -> Seq<ProxyId> {
        crate::primary::load_balancer::participants(
            self.connected,
            self.scaler.active,
            self.retiring,
        )
    }

    /// The proxies that close the current epoch, once a queued scale-out has
    /// taken effect.
    pub open spec fn closing(self) -> Seq<ProxyId> {
        crate::primary::load_balancer::participants(
            self.connected,
            self.scaler.bounded().active,
            self.retiring,
        )
    }

    /// Whether a roster is what a change leaves. A proxy whose retirement
    /// completes was active and told to retire.
    pub open spec fn becomes(self, change: RosterChange, after: Self) -> bool {
        match change {
            RosterChange::Unchanged => {
                &&& after.connected == self.connected
                &&& after.scaler.active == self.scaler.active
                &&& after.retiring == self.retiring
            },
            RosterChange::Retired(proxy) => {
                &&& self.retiring.contains(proxy)
                &&& self.in_use().contains(proxy)
                &&& after.connected == self.connected.remove(proxy)
                &&& after.scaler.active == self.scaler.decreased().active
                &&& after.retiring == self.retiring
            },
            RosterChange::Failed(proxy) => {
                &&& after.connected == self.connected.remove(proxy)
                &&& after.scaler.active == self.scaler.active
                &&& after.retiring == self.retiring
            },
        }
    }

    /// Whether a roster is what the boundary of an epoch leaves: a queued
    /// scale-out has taken effect, and a proxy may have been told to retire.
    pub open spec fn passes_boundary(self, after: Self) -> bool {
        &&& after.connected == self.connected
        &&& after.scaler.active == self.scaler.bounded().active
    }
}

/// The position of a listed proxy is where the listing has it.
pub proof fn lemma_index_of_proxy(s: Seq<ProxyId>, connected: Set<ProxyId>, i: int)
    requires
        crate::primary::connections::lists(s, connected),
        0 <= i < s.len(),
        i <= usize::MAX,
    ensures
        crate::primary::replay::index_of_proxy(connected, s[i]) == i,
        crate::primary::connections::ascending(connected) == s,
{
    crate::primary::connections::lemma_ascending(s, connected);
    assert(s.contains(s[i]));
    let k = choose|k: int| 0 <= k < s.len() && #[trigger] s[k] == s[i];
    if k < i {
        assert(s[k] < s[i]);
    } else if i < k {
        assert(s[i] < s[k]);
    }
}

/// Taking one entry out of a listing lists the set without it.
pub proof fn lemma_listing_without(s: Seq<ProxyId>, connected: Set<ProxyId>, g: int)
    requires
        crate::primary::connections::lists(s, connected),
        0 <= g < s.len(),
    ensures
        crate::primary::connections::lists(s.remove(g), connected.remove(s[g])),
        crate::primary::connections::ascending(connected.remove(s[g])) == s.remove(g),
{
    let rest = s.remove(g);
    let fewer = connected.remove(s[g]);
    assert forall|i: int, j: int| 0 <= i < j < rest.len() implies #[trigger] rest[i]
        < #[trigger] rest[j] by {
        let a = if i < g { i } else { i + 1 };
        let b = if j < g { j } else { j + 1 };
        assert(s[a] < s[b]);
    }
    assert forall|p: ProxyId| #[trigger] fewer.contains(p) <==> rest.contains(p) by {
        assert(connected.contains(p) <==> s.contains(p));
        if fewer.contains(p) {
            let k = choose|k: int| 0 <= k < s.len() && s[k] == p;
            if k < g {
                assert(rest[k] == p);
            } else {
                assert(rest[k - 1] == p);
            }
        }
        if rest.contains(p) {
            let k = choose|k: int| 0 <= k < rest.len() && rest[k] == p;
            let a = if k < g { k } else { k + 1 };
            assert(s[a] == p);
            if a < g {
                assert(s[a] < s[g]);
            } else {
                assert(s[g] < s[a]);
            }
        }
    }
    crate::primary::connections::lemma_ascending(rest, fewer);
}

/// A listed set is one whose members come in increasing order.
pub proof fn lemma_position(connected: Set<ProxyId>, proxy: ProxyId) -> (i: int)
    requires
        exists|s: Seq<ProxyId>| crate::primary::connections::lists(s, connected),
        connected.contains(proxy),
    ensures
        crate::primary::connections::lists(
            crate::primary::connections::ascending(connected),
            connected,
        ),
        0 <= i < crate::primary::connections::ascending(connected).len(),
        crate::primary::connections::ascending(connected)[i] == proxy,
{
    let s = choose|s: Seq<ProxyId>| crate::primary::connections::lists(s, connected);
    crate::primary::connections::lemma_ascending(s, connected);
    assert(s.contains(proxy));
    choose|i: int| 0 <= i < s.len() && s[i] == proxy
}

/// Whether the proxy with an identity is an owner of a state.
pub open spec fn has_state(
    owners: Map<StateKey, Set<ExecutorIndex>>,
    connected: Set<ProxyId>,
    proxy: ProxyId,
    key: StateKey,
) -> bool {
    crate::primary::ownership::owners_in(owners, key).contains(
        crate::primary::replay::index_of_proxy(connected, proxy),
    )
}

/// When a proxy is gone, every other proxy keeps exactly the states that it
/// has, whatever position it has from then on.
pub proof fn law_survivors_keep_their_states(
    owners: Map<StateKey, Set<ExecutorIndex>>,
    connected: Set<ProxyId>,
    gone: ProxyId,
    proxy: ProxyId,
    key: StateKey,
)
    requires
        exists|s: Seq<ProxyId>| crate::primary::connections::lists(s, connected),
        connected.len() <= PRIMARY_FETCH_SENTINEL,
        connected.contains(gone),
        connected.contains(proxy),
        proxy != gone,
    ensures
        has_state(
            crate::primary::load_balancer::owners_without(owners, connected, gone),
            connected.remove(gone),
            proxy,
            key,
        ) == has_state(owners, connected, proxy, key),
{
    let all = crate::primary::connections::ascending(connected);
    let g = lemma_position(connected, gone);
    let i = lemma_position(connected, proxy);
    crate::primary::connections::lemma_listing_len(all, connected);
    lemma_index_of_proxy(all, connected, g);
    lemma_index_of_proxy(all, connected, i);
    lemma_listing_without(all, connected, g);
    let rest = all.remove(g);
    let to = if i < g { i } else { i - 1 };
    assert(rest[to] == proxy);
    lemma_index_of_proxy(rest, connected.remove(gone), to);
    if owners.contains_key(key) {
        let held = owners[key];
        let kept = crate::primary::ownership::kept(held, g as usize);
        if held.contains(i as usize) {
            assert(crate::primary::ownership::moves_to(i as usize, g as usize, to as usize));
            assert(kept.contains(to as usize));
        }
        if kept.contains(to as usize) {
            let from = choose|from: ExecutorIndex| #[trigger]
                held.contains(from) && crate::primary::ownership::moves_to(
                    from,
                    g as usize,
                    to as usize,
                );
            assert(from == i);
        }
    }
}

/// What a failed proxy alone had is with the primary.
pub proof fn law_sole_states_of_the_failed_go_to_the_primary(
    owners: Map<StateKey, Set<ExecutorIndex>>,
    connected: Set<ProxyId>,
    gone: ProxyId,
    key: StateKey,
)
    requires
        connected.contains(gone),
        owners.contains_key(key),
        owners[key] =~= set![crate::primary::replay::index_of_proxy(connected, gone)],
    ensures
        crate::primary::ownership::owners_in(
            crate::primary::load_balancer::owners_without(owners, connected, gone),
            key,
        ) =~= set![PRIMARY_FETCH_SENTINEL],
{
    let index = crate::primary::replay::index_of_proxy(connected, gone);
    assert(crate::primary::ownership::kept(owners[key], index) =~= Set::empty());
}

/// When a retirement completes, every other proxy keeps exactly the states
/// that it has.
pub proof fn law_retirement_keeps_the_states_of_others(
    owners: Map<StateKey, Set<ExecutorIndex>>,
    connected: Set<ProxyId>,
    retired: ProxyId,
    proxy: ProxyId,
    key: StateKey,
)
    requires
        exists|s: Seq<ProxyId>| crate::primary::connections::lists(s, connected),
        connected.len() <= PRIMARY_FETCH_SENTINEL,
        connected.contains(retired),
        connected.contains(proxy),
        proxy != retired,
    ensures
        has_state(
            crate::primary::load_balancer::owners_after_retirement(owners, connected, retired),
            connected.remove(retired),
            proxy,
            key,
        ) == has_state(owners, connected, proxy, key),
{
    if crate::primary::load_balancer::is_highest(retired, connected) {
        let all = crate::primary::connections::ascending(connected);
        let g = lemma_position(connected, retired);
        let i = lemma_position(connected, proxy);
        crate::primary::connections::lemma_listing_len(all, connected);
        if g < i {
            assert(all[g] < all[i]);
        }
        lemma_index_of_proxy(all, connected, i);
        lemma_listing_without(all, connected, g);
        assert(all.remove(g)[i] == proxy);
        lemma_index_of_proxy(all.remove(g), connected.remove(retired), i);
    } else {
        law_survivors_keep_their_states(owners, connected, retired, proxy, key);
    }
}

/// What a retired proxy alone had is fetched from the primary, wherever a
/// transaction that needs it runs.
pub proof fn law_sole_states_of_the_retired_are_fetched(
    owners: Map<StateKey, Set<ExecutorIndex>>,
    connected: Set<ProxyId>,
    retired: ProxyId,
    key: StateKey,
    index: ExecutorIndex,
)
    requires
        exists|s: Seq<ProxyId>| crate::primary::connections::lists(s, connected),
        connected.len() <= PRIMARY_FETCH_SENTINEL,
        connected.contains(retired),
        owners.contains_key(key),
        owners[key] =~= set![crate::primary::replay::index_of_proxy(connected, retired)],
        index < connected.remove(retired).len(),
    ensures
        crate::primary::shared_obj_txn_forwarder::owner_to_ask(
            crate::primary::load_balancer::owners_after_retirement(owners, connected, retired),
            key,
            index,
            connected.remove(retired).len(),
        ) == Some(PRIMARY_FETCH_SENTINEL),
{
    let all = crate::primary::connections::ascending(connected);
    let g = lemma_position(connected, retired);
    crate::primary::connections::lemma_listing_len(all, connected);
    lemma_index_of_proxy(all, connected, g);
    let after = crate::primary::load_balancer::owners_after_retirement(owners, connected, retired);
    let held = crate::primary::ownership::owners_in(after, key);
    if crate::primary::load_balancer::is_highest(retired, connected) {
        let last = all[all.len() - 1];
        assert(all.contains(last));
        assert(connected.contains(last));
        if g < all.len() - 1 {
            assert(all[g] < all[all.len() - 1]);
        }
        assert(held.contains(g as usize));
        crate::primary::ownership::lemma_least_exists(held, g as usize);
    } else {
        law_sole_states_of_the_failed_go_to_the_primary(owners, connected, retired, key);
        assert(held.contains(PRIMARY_FETCH_SENTINEL));
        crate::primary::ownership::lemma_least_exists(held, PRIMARY_FETCH_SENTINEL);
    }
}

/// An active proxy stays active, in the course of an epoch and over its
/// boundary, until it fails or its retirement completes. So the proxy that a
/// scale-in chooses, which is an active one, is active until it leaves.
pub proof fn law_active_proxies_stay_active(
    before: Roster,
    change: RosterChange,
    after: Roster,
    proxy: ProxyId,
)
    requires
        before.wf(),
        before.becomes(change, after) || before.passes_boundary(after),
        before.in_use().contains(proxy),
        change != RosterChange::Failed(proxy),
        change != RosterChange::Retired(proxy),
    ensures
        after.wf(),
        after.in_use().contains(proxy),
{
    let all = crate::primary::connections::ascending(before.connected);
    let taken = before.in_use();
    let i = choose|i: int| 0 <= i < taken.len() && taken[i] == proxy;
    assert(all[i] == proxy);
    let s = choose|s: Seq<ProxyId>| crate::primary::connections::lists(s, before.connected);
    crate::primary::connections::lemma_ascending(s, before.connected);
    let gone: Option<ProxyId> = match change {
        RosterChange::Unchanged => None,
        RosterChange::Retired(retired) => Some(retired),
        RosterChange::Failed(failed) => Some(failed),
    };
    if before.passes_boundary(after) || gone is None {
        assert(after.in_use()[i] == proxy);
    } else if !before.connected.contains(gone->0) {
        assert(before.connected.remove(gone->0) =~= before.connected);
        assert(after.in_use()[i] == proxy);
    } else {
        let g = lemma_position(before.connected, gone->0);
        lemma_listing_without(all, before.connected, g);
        let to = if i < g { i } else { i - 1 };
        assert(all.remove(g)[to] == proxy);
        if change is Retired {
            let k = choose|k: int| 0 <= k < taken.len() && taken[k] == gone->0;
            assert(all[k] == gone->0);
            if k < g {
                assert(all[k] < all[g]);
            } else if g < k {
                assert(all[g] < all[k]);
            }
        }
        assert(after.in_use()[to] == proxy);
    }
}

/// When a load balancer completes the retirement of an active proxy that it
/// had told to retire, its roster changes accordingly.
pub proof fn law_completion_changes_the_roster<C>(
    before: BalancerState<C>,
    proxy: ProxyId,
    after: BalancerState<C>,
    step: RetirementStep<C>,
)
    requires
        crate::primary::load_balancer::acted(
            before,
            RetirementAction::CompleteRetirement { proxy_id: proxy },
            after,
            step,
        ),
        before.retiring.contains_key(proxy),
        Roster::of(before).in_use().contains(proxy),
    ensures
        Roster::of(before).becomes(RosterChange::Retired(proxy), Roster::of(after)),
{
    assert(after.connected.dom() =~= before.connected.dom().remove(proxy));
}

/// Whoever takes part in an epoch still does after a change, unless it failed.
proof fn lemma_change_keeps_participants(
    before: Roster,
    change: RosterChange,
    after: Roster,
    proxy: ProxyId,
)
    requires
        before.wf(),
        before.becomes(change, after),
        before.participants().contains(proxy),
        change != RosterChange::Failed(proxy),
    ensures
        after.wf(),
        after.participants().contains(proxy),
{
    crate::primary::connections::lemma_without(before.in_use(), before.retiring);
    crate::primary::connections::lemma_without(after.in_use(), after.retiring);
    law_active_proxies_stay_active(before, change, after, proxy);
}

/// Whoever takes part in an epoch takes part in it until its end, however many
/// other proxies retire or fail in the meantime.
pub proof fn law_participants_stay_to_the_end(
    rosters: Seq<Roster>,
    changes: Seq<RosterChange>,
    proxy: ProxyId,
    n: int,
)
    requires
        0 <= n <= changes.len(),
        rosters.len() == changes.len() + 1,
        rosters[n].wf(),
        forall|i: int|
            n <= i < changes.len() ==> (#[trigger] rosters[i]).becomes(changes[i], rosters[i + 1]),
        forall|i: int|
            n <= i < changes.len() ==> #[trigger] changes[i] != RosterChange::Failed(proxy),
        rosters[n].participants().contains(proxy),
    ensures
        rosters.last().participants().contains(proxy),
    decreases changes.len() - n,
{
    if n < changes.len() {
        lemma_change_keeps_participants(rosters[n], changes[n], rosters[n + 1], proxy);
        law_participants_stay_to_the_end(rosters, changes, proxy, n + 1);
    }
}

/// Whoever is handed a transaction of an epoch and does not fail is sent the
/// checkpoint of that epoch: transactions go to those that take part in the
/// epoch, and all of them close it.
pub proof fn law_who_works_closes_the_epoch(
    rosters: Seq<Roster>,
    changes: Seq<RosterChange>,
    proxy: ProxyId,
    n: int,
    epoch: EpochId,
    entering: Seq<ProxyId>,
    messages: Seq<(ProxyId, PrimaryToProxyMessage)>,
)
    requires
        0 <= n <= changes.len(),
        rosters.len() == changes.len() + 1,
        rosters[n].wf(),
        forall|i: int|
            n <= i < changes.len() ==> (#[trigger] rosters[i]).becomes(changes[i], rosters[i + 1]),
        forall|i: int|
            n <= i < changes.len() ==> #[trigger] changes[i] != RosterChange::Failed(proxy),
        rosters[n].participants().contains(proxy),
        crate::primary::load_balancer::checkpoint_messages(
            messages,
            epoch,
            entering,
            rosters.last().closing(),
        ),
    ensures
        messages.contains((proxy, PrimaryToProxyMessage::Checkpoint(epoch))),
{
    law_participants_stay_to_the_end(rosters, changes, proxy, n);
    let last = rosters.last();
    let all = crate::primary::connections::ascending(last.connected);
    let taken = last.in_use();
    let more = crate::primary::connections::first_of(all, last.scaler.bounded().active);
    crate::primary::connections::lemma_without(taken, last.retiring);
    crate::primary::connections::lemma_without(more, last.retiring);
    let i = choose|i: int| 0 <= i < taken.len() && taken[i] == proxy;
    assert(last.scaler.bounded().active >= last.scaler.active);
    assert(more[i] == proxy);
    assert(more.contains(proxy));
    let closing = last.closing();
    assert(closing.contains(proxy));
    let k = choose|k: int| 0 <= k < closing.len() && closing[k] == proxy;
    assert(messages[entering.len() + k] == (proxy, PrimaryToProxyMessage::Checkpoint(epoch)));
}

} // verus!
