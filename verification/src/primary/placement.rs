//! What placing transactions on proxies comes to: whose turn it is, how many
//! states a proxy has, whom to ask for a state and what is sent.
use std::sync::Arc;

use vstd::prelude::*;

use crate::base_types::{
    ExecutorIndex, Object, ObjectID, ProxyId, SequenceNumber, StateKey, INITIAL_VERSION,
};
use crate::checkpoint::EpochId;
use crate::config::{LoadBalancingPolicy, ProxyMode};
use crate::executor::api::{PrimaryToProxyMessage, TransactionWithTimestamp};
use crate::primary::elastic_scaler::OrderKey;
use crate::primary::ownership::PRIMARY_FETCH_SENTINEL;
use crate::primary::shared_obj_txn_forwarder::{Forwarding, LoadTracking, ProxyChoice};

verus! {

/// Transactions take turns: the first ones go to the candidates in their
/// order, and after as many transactions as there are candidates it is the
/// turn of the same candidate again.
pub proof fn law_transactions_take_turns(candidates: Seq<ExecutorIndex>, txn_cnt: usize)
    requires
        candidates.len() > 0,
        candidates.len() <= usize::MAX,
    ensures
        ({
            let choice = crate::primary::shared_obj_txn_forwarder::round_robin_choice(
                candidates,
                txn_cnt,
            );
            &&& txn_cnt < candidates.len() ==> choice == Some(
                (candidates[txn_cnt as int], candidates[txn_cnt as int]),
            )
            &&& txn_cnt >= candidates.len() ==> choice
                == crate::primary::shared_obj_txn_forwarder::round_robin_choice(
                candidates,
                (txn_cnt - candidates.len()) as usize,
            )
        }),
{
    let n = candidates.len() as int;
    let t = txn_cnt as int;
    if t < n {
        vstd::arithmetic::div_mod::lemma_small_mod(txn_cnt as nat, candidates.len());
    } else {
        vstd::arithmetic::div_mod::lemma_mod_sub_multiples_vanish(t, n);
        assert((t - n) % n == t % n);
    }
}

/// As many transactions in a row as there are candidates go to different ones.
pub proof fn law_transactions_in_a_row_go_to_different_candidates(
    candidates: Seq<ExecutorIndex>,
    first: usize,
    second: usize,
)
    requires
        candidates.len() > 0,
        candidates.no_duplicates(),
        first < second < first + candidates.len(),
    ensures
        crate::primary::shared_obj_txn_forwarder::round_robin_choice(candidates, first)
            != crate::primary::shared_obj_txn_forwarder::round_robin_choice(candidates, second),
{
    let n = candidates.len() as int;
    crate::primary::owned_obj_txn_forwarder::law_turns_are_fair(
        n,
        first as int,
        0,
        second - first,
    );
    vstd::arithmetic::div_mod::lemma_mod_bound(first as int, n);
    vstd::arithmetic::div_mod::lemma_mod_bound(second as int, n);
    let a = (first as nat % candidates.len()) as int;
    let b = (second as nat % candidates.len()) as int;
    assert(a != b);
    assert(candidates[a] != candidates[b]);
}

/// Every candidate gets a transaction among as many in a row as there are
/// candidates.
pub proof fn law_every_candidate_gets_its_turn(
    candidates: Seq<ExecutorIndex>,
    start: usize,
    k: int,
) -> (turn: usize)
    requires
        0 <= k < candidates.len(),
        start + candidates.len() <= usize::MAX,
    ensures
        start <= turn < start + candidates.len(),
        crate::primary::shared_obj_txn_forwarder::round_robin_choice(candidates, turn) == Some(
            (candidates[k], candidates[k]),
        ),
{
    let n = candidates.len() as int;
    let s = start as int;
    vstd::arithmetic::div_mod::lemma_fundamental_div_mod(s, n);
    vstd::arithmetic::div_mod::lemma_mod_bound(s, n);
    let q = s / n;
    let r = s % n;
    let turn = if r <= k {
        s + (k - r)
    } else {
        s + (k - r) + n
    };
    if r <= k {
        assert(turn == n * q + k);
        vstd::arithmetic::div_mod::lemma_fundamental_div_mod_converse(turn, n, q, k);
    } else {
        assert(n * (q + 1) == n * q + n) by (nonlinear_arith);
        assert(turn == n * (q + 1) + k);
        vstd::arithmetic::div_mod::lemma_fundamental_div_mod_converse(turn, n, q + 1, k);
    }
    turn as usize
}

/// What a proxy has of the required states is counted one by one: it is the
/// number of places at which the list of required states has one that the
/// proxy is an owner of.
pub proof fn law_states_held_are_counted(
    owners: Map<StateKey, Set<ExecutorIndex>>,
    required: Seq<StateKey>,
    index: ExecutorIndex,
)
    ensures
        crate::primary::shared_obj_txn_forwarder::states_held(owners, required, index)
            == crate::counting::places(
            required.len() as int,
            |i: int| owners.contains_key(required[i]) && owners[required[i]].contains(index),
        ).len(),
    decreases required.len(),
{
    let holds = |i: int| owners.contains_key(required[i]) && owners[required[i]].contains(index);
    crate::counting::lemma_places(required.len() as int, holds);
    if required.len() > 0 {
        let rest = required.drop_last();
        law_states_held_are_counted(owners, rest, index);
        crate::counting::lemma_same_places(
            rest.len() as int,
            |i: int| owners.contains_key(rest[i]) && owners[rest[i]].contains(index),
            holds,
        );
    }
}

/// The figures by which candidates are placed are theirs: for each candidate
/// the number of required states that it has, and its load.
pub proof fn law_figures_belong_to_their_candidates(
    candidates: Seq<ExecutorIndex>,
    owners: Map<StateKey, Set<ExecutorIndex>>,
    required: Seq<StateKey>,
    tracking: LoadTracking,
    k: int,
)
    requires
        required.len() <= usize::MAX,
        0 <= k < candidates.len(),
    ensures
        crate::primary::shared_obj_txn_forwarder::held_counts(candidates, owners, required).len()
            == candidates.len(),
        crate::primary::shared_obj_txn_forwarder::held_counts(candidates, owners, required)[k]
            == crate::counting::places(
            required.len() as int,
            |i: int|
                owners.contains_key(required[i]) && owners[required[i]].contains(candidates[k]),
        ).len(),
        crate::primary::shared_obj_txn_forwarder::candidate_loads(candidates, tracking).len()
            == candidates.len(),
        tracking.loads().contains_key(candidates[k])
            ==> crate::primary::shared_obj_txn_forwarder::candidate_loads(candidates, tracking)[k]
            == tracking.loads()[candidates[k]],
        !tracking.loads().contains_key(candidates[k])
            ==> crate::primary::shared_obj_txn_forwarder::candidate_loads(candidates, tracking)[k]
            == 0,
{
    law_states_held_are_counted(owners, required, candidates[k]);
    crate::counting::lemma_places(
        required.len() as int,
        |i: int| owners.contains_key(required[i]) && owners[required[i]].contains(candidates[k]),
    );
}

/// No position has a higher count than the chosen one.
pub proof fn law_chosen_count_is_the_highest(counts: Seq<usize>, turn: usize, other: int)
    requires
        0 < counts.len() <= usize::MAX,
        0 <= other < counts.len(),
    ensures
        ({
            let best = crate::primary::shared_obj_txn_forwarder::best_by_count(counts, turn);
            best < counts.len() && counts[other] <= counts[best as int]
        }),
{
    lemma_best(counts);
    let ties = ties_of(counts);
    let best = ties[(turn % (ties.len() as usize)) as int];
    assert(ties.contains(best));
}

/// The positions with the highest count, in increasing order.
spec fn ties_of(counts: Seq<usize>) -> Seq<ExecutorIndex> {
    crate::primary::shared_obj_txn_forwarder::positions_with(
        counts,
        crate::primary::shared_obj_txn_forwarder::highest_count(counts),
    )
}

proof fn lemma_highest(counts: Seq<usize>)
    requires
        counts.len() > 0,
    ensures
        forall|i: int|
            0 <= i < counts.len() ==> #[trigger] counts[i]
                <= crate::primary::shared_obj_txn_forwarder::highest_count(counts),
        exists|i: int|
            0 <= i < counts.len() && #[trigger] counts[i]
                == crate::primary::shared_obj_txn_forwarder::highest_count(counts),
    decreases counts.len(),
{
    let rest = counts.drop_last();
    if rest.len() > 0 {
        lemma_highest(rest);
        let k = choose|k: int|
            0 <= k < rest.len() && #[trigger] rest[k]
                == crate::primary::shared_obj_txn_forwarder::highest_count(rest);
        assert(counts[k] == rest[k]);
        assert forall|i: int| 0 <= i < counts.len() implies #[trigger] counts[i]
            <= crate::primary::shared_obj_txn_forwarder::highest_count(counts) by {
            if i < rest.len() {
                assert(rest[i] == counts[i]);
            }
        }
    } else {
        assert(crate::primary::shared_obj_txn_forwarder::highest_count(rest) == 0);
    }
    assert(counts[counts.len() - 1] == counts.last());
}

proof fn lemma_positions(counts: Seq<usize>, count: usize)
    requires
        counts.len() <= usize::MAX,
    ensures
        ({
            let found = crate::primary::shared_obj_txn_forwarder::positions_with(counts, count);
            &&& found.len() <= counts.len()
            &&& forall|p: ExecutorIndex| #[trigger]
                found.contains(p) <==> p < counts.len() && counts[p as int] == count
            &&& forall|a: int, b: int|
                0 <= a < b < found.len() ==> #[trigger] found[a] < #[trigger] found[b]
        }),
    decreases counts.len(),
{
    if counts.len() > 0 {
        let rest = counts.drop_last();
        lemma_positions(rest, count);
        let before = crate::primary::shared_obj_txn_forwarder::positions_with(rest, count);
        let found = crate::primary::shared_obj_txn_forwarder::positions_with(counts, count);
        assert forall|p: ExecutorIndex| #[trigger] found.contains(p) <==> p < counts.len()
            && counts[p as int] == count by {
            assert(before.contains(p) <==> p < rest.len() && rest[p as int] == count);
            if before.contains(p) {
                let k = choose|k: int| 0 <= k < before.len() && before[k] == p;
                assert(found[k] == p);
            }
            if counts.last() == count {
                assert(found[before.len() as int] == counts.len() - 1);
                if found.contains(p) && p != counts.len() - 1 {
                    let k = choose|k: int| 0 <= k < found.len() && found[k] == p;
                    assert(before[k] == p);
                }
            }
        }
        assert forall|a: int, b: int| 0 <= a < b < found.len() implies #[trigger] found[a]
            < #[trigger] found[b] by {
            assert(before.contains(before[a]));
            if b < before.len() {
                assert(before[a] < before[b]);
            }
        }
    }
}

proof fn lemma_best(counts: Seq<usize>)
    requires
        0 < counts.len() <= usize::MAX,
    ensures
        0 < ties_of(counts).len() <= counts.len(),
        forall|p: ExecutorIndex| #[trigger]
            ties_of(counts).contains(p) <==> p < counts.len() && forall|i: int|
                0 <= i < counts.len() ==> #[trigger] counts[i] <= counts[p as int],
        forall|a: int, b: int|
            0 <= a < b < ties_of(counts).len() ==> #[trigger] ties_of(counts)[a]
                < #[trigger] ties_of(counts)[b],
{
    let highest = crate::primary::shared_obj_txn_forwarder::highest_count(counts);
    lemma_highest(counts);
    lemma_positions(counts, highest);
    let k = choose|k: int| 0 <= k < counts.len() && #[trigger] counts[k] == highest;
    assert(ties_of(counts).contains(k as usize));
    assert forall|p: ExecutorIndex| #[trigger] ties_of(counts).contains(p) <==> p < counts.len()
        && forall|i: int|
        0 <= i < counts.len() ==> #[trigger] counts[i] <= counts[p as int] by {
        if p < counts.len() && forall|i: int|
            0 <= i < counts.len() ==> #[trigger] counts[i] <= counts[p as int] {
            assert(counts[k] <= counts[p as int]);
        }
    }
}

/// Positions that tie for the highest count take turns, in increasing order:
/// the first turn is that of the lowest one, each further turn that of the
/// next one, until all had theirs.
pub proof fn law_ties_take_turns(counts: Seq<usize>, turn: usize, ties: Seq<ExecutorIndex>)
    requires
        0 < counts.len() <= usize::MAX,
        0 < ties.len(),
        forall|a: int, b: int| 0 <= a < b < ties.len() ==> #[trigger] ties[a] < #[trigger] ties[b],
        forall|p: ExecutorIndex| #[trigger]
            ties.contains(p) <==> p < counts.len() && forall|i: int|
                0 <= i < counts.len() ==> #[trigger] counts[i] <= counts[p as int],
    ensures
        ({
            let best = crate::primary::shared_obj_txn_forwarder::best_by_count(counts, turn);
            &&& turn < ties.len() ==> best == ties[turn as int]
            &&& turn >= ties.len() ==> best
                == crate::primary::shared_obj_txn_forwarder::best_by_count(
                counts,
                (turn - ties.len()) as usize,
            )
        }),
{
    lemma_best(counts);
    let found = ties_of(counts);
    let members = ties.to_set();
    assert forall|p: ExecutorIndex| #[trigger] members.contains(p) <==> found.contains(p) by {
        assert(ties.contains(p) <==> found.contains(p));
    }
    crate::primary::connections::lemma_listing_unique(ties, found, members);
    let n = found.len() as int;
    let t = turn as int;
    if t < n {
        vstd::arithmetic::div_mod::lemma_small_mod(turn as nat, found.len());
    } else {
        vstd::arithmetic::div_mod::lemma_mod_sub_multiples_vanish(t, n);
        assert((t - n) % n == t % n);
    }
}

/// Where no state is required, most states are with the first candidate; where
/// there is no candidate, nobody is chosen.
pub proof fn law_first_candidate_where_nothing_is_required(
    candidates: Seq<ExecutorIndex>,
    owners: Map<StateKey, Set<ExecutorIndex>>,
    txn_cnt: usize,
)
    ensures
        crate::primary::shared_obj_txn_forwarder::most_states_choice(
            candidates,
            owners,
            Seq::empty(),
            txn_cnt,
        ) == (if candidates.len() > 0 {
            Some((candidates[0], candidates[0]))
        } else {
            None
        }),
{
}

/// The proxy chosen by most states has at least as many of the required states
/// as any other candidate, and candidates with equally many take turns: the
/// first turn is that of the first of them.
pub proof fn law_most_states_decide(
    candidates: Seq<ExecutorIndex>,
    owners: Map<StateKey, Set<ExecutorIndex>>,
    required: Seq<StateKey>,
    txn_cnt: usize,
    k: int,
)
    requires
        candidates.len() <= usize::MAX,
        0 < required.len() <= usize::MAX,
        0 <= k < candidates.len(),
    ensures
        exists|best: int| #[trigger]
            is_chosen(candidates, owners, required, txn_cnt, best) && crate::counting::places(
                required.len() as int,
                |i: int|
                    owners.contains_key(required[i]) && owners[required[i]].contains(
                        candidates[k],
                    ),
            ).len() <= crate::counting::places(
                required.len() as int,
                |i: int|
                    owners.contains_key(required[i]) && owners[required[i]].contains(
                        candidates[best],
                    ),
            ).len() && (txn_cnt == 0 && k < best ==> crate::counting::places(
                required.len() as int,
                |i: int|
                    owners.contains_key(required[i]) && owners[required[i]].contains(
                        candidates[k],
                    ),
            ).len() < crate::counting::places(
                required.len() as int,
                |i: int|
                    owners.contains_key(required[i]) && owners[required[i]].contains(
                        candidates[best],
                    ),
            ).len()),
{
    let counts = crate::primary::shared_obj_txn_forwarder::held_counts(
        candidates,
        owners,
        required,
    );
    let best = crate::primary::shared_obj_txn_forwarder::best_by_count(counts, txn_cnt) as int;
    lemma_best(counts);
    law_chosen_count_is_the_highest(counts, txn_cnt, k);
    lemma_held(candidates, owners, required, k);
    lemma_held(candidates, owners, required, best);
    let ties = ties_of(counts);
    if txn_cnt == 0 && k < best && counts[k] == counts[best] {
        law_ties_take_turns(counts, 0, ties);
        assert(ties.contains(ties[0]));
        assert(counts[k] == counts[ties[0] as int]);
        assert forall|i: int| 0 <= i < counts.len() implies #[trigger] counts[i] <= counts[k] by {}
        assert(ties.contains(k as usize));
        let j = choose|j: int| 0 <= j < ties.len() && ties[j] == k as usize;
        if j > 0 {
            assert(ties[0] < ties[j]);
        }
    }
    assert(is_chosen(candidates, owners, required, txn_cnt, best));
}

proof fn lemma_held(
    candidates: Seq<ExecutorIndex>,
    owners: Map<StateKey, Set<ExecutorIndex>>,
    required: Seq<StateKey>,
    k: int,
)
    requires
        required.len() <= usize::MAX,
        0 <= k < candidates.len(),
    ensures
        crate::primary::shared_obj_txn_forwarder::held_counts(candidates, owners, required)[k]
            == crate::counting::places(
            required.len() as int,
            |i: int|
                owners.contains_key(required[i]) && owners[required[i]].contains(candidates[k]),
        ).len(),
{
    law_states_held_are_counted(owners, required, candidates[k]);
    crate::counting::lemma_places(
        required.len() as int,
        |i: int| owners.contains_key(required[i]) && owners[required[i]].contains(candidates[k]),
    );
}

/// Whether the candidate at a place is chosen by most states.
pub open spec fn is_chosen(
    candidates: Seq<ExecutorIndex>,
    owners: Map<StateKey, Set<ExecutorIndex>>,
    required: Seq<StateKey>,
    txn_cnt: usize,
    best: int,
) -> bool {
    &&& 0 <= best < candidates.len()
    &&& crate::primary::shared_obj_txn_forwarder::most_states_choice(
        candidates,
        owners,
        required,
        txn_cnt,
    ) == Some((candidates[best], candidates[best]))
}

/// A counter that was never set stands at 0, else at what it was set to last.
pub proof fn law_counters_start_at_zero<K>(counters: Map<K, usize>, key: K, other: K, value: usize)
    ensures
        crate::primary::shared_obj_txn_forwarder::count_at(Map::<K, usize>::empty(), key) == 0,
        crate::primary::shared_obj_txn_forwarder::count_at(counters.insert(key, value), key)
            == value,
        key != other ==> crate::primary::shared_obj_txn_forwarder::count_at(
            counters.insert(key, value),
            other,
        ) == crate::primary::shared_obj_txn_forwarder::count_at(counters, other),
{
}

/// The accesses of a proxy to required objects add up, one required state after
/// the other.
pub proof fn law_accesses_add_up(
    history: Map<ObjectID, usize>,
    required: Seq<StateKey>,
    key: StateKey,
)
    ensures
        crate::primary::shared_obj_txn_forwarder::accesses(history, Seq::empty()) == 0,
        crate::primary::shared_obj_txn_forwarder::accesses(history, required.push(key))
            == crate::primary::shared_obj_txn_forwarder::accesses(history, required) + (
        if history.contains_key(key.0) {
            history[key.0] as nat
        } else {
            0nat
        }),
{
    assert(required.push(key).drop_last() =~= required);
}

/// An object occurs among required states as often as there are places with it.
pub proof fn law_occurrences_are_counted(required: Seq<StateKey>, id: ObjectID)
    ensures
        crate::primary::shared_obj_txn_forwarder::occurrences(required, id)
            == crate::counting::places(required.len() as int, |i: int| required[i].0 == id).len(),
    decreases required.len(),
{
    let holds = |i: int| required[i].0 == id;
    crate::counting::lemma_places(required.len() as int, holds);
    if required.len() > 0 {
        let rest = required.drop_last();
        law_occurrences_are_counted(rest, id);
        crate::counting::lemma_same_places(rest.len() as int, |i: int| rest[i].0 == id, holds);
    }
}

/// A transaction adds one access to an object for each of its required states
/// of that object, and none to any other object.
pub proof fn law_each_state_is_one_access(
    history: Map<ObjectID, usize>,
    required: Seq<StateKey>,
    id: ObjectID,
)
    requires
        crate::primary::shared_obj_txn_forwarder::count_at(history, id) + required.len()
            <= usize::MAX,
    ensures
        crate::primary::shared_obj_txn_forwarder::count_at(
            crate::primary::shared_obj_txn_forwarder::accessed(history, required),
            id,
        ) == crate::primary::shared_obj_txn_forwarder::count_at(history, id)
            + crate::counting::places(required.len() as int, |i: int| required[i].0 == id).len(),
{
    law_occurrences_are_counted(required, id);
    crate::counting::lemma_places(required.len() as int, |i: int| required[i].0 == id);
}

/// The best score is one that none exceeds and that none before it reaches.
pub proof fn law_best_score_is_the_first_of_the_highest(scores: Seq<OrderKey>, best: int, i: int)
    requires
        crate::primary::shared_obj_txn_forwarder::first_best(scores, best),
        0 <= i < scores.len(),
    ensures
        0 <= best < scores.len(),
        scores[i] <= scores[best],
        i < best ==> scores[i] < scores[best],
{
}

/// What the policies come to: whose turn it is, who has most states, somebody,
/// whom the transaction asks for, or the figures of each candidate to score
/// them by. Without a candidate nobody is chosen.
pub proof fn law_policies_choose_as_they_say(
    choice: ProxyChoice,
    policy: LoadBalancingPolicy,
    candidates: Seq<ExecutorIndex>,
    owners: Map<StateKey, Set<ExecutorIndex>>,
    txn_cnt: usize,
    required: Seq<StateKey>,
    destination: Option<ExecutorIndex>,
    tracking: LoadTracking,
)
    requires
        crate::primary::shared_obj_txn_forwarder::chosen_by_policy(
            choice,
            policy,
            candidates,
            owners,
            txn_cnt,
            required,
            destination,
            tracking,
        ),
        policy != LoadBalancingPolicy::Dedicated,
        policy != LoadBalancingPolicy::Combined,
        candidates.len() <= usize::MAX,
        required.len() <= usize::MAX,
    ensures
        candidates.len() == 0 ==> choice == ProxyChoice::Decided(None),
        candidates.len() > 0 ==> match policy {
            LoadBalancingPolicy::RoundRobin => choice == ProxyChoice::Decided(
                Some(
                    (
                        candidates[txn_cnt as int % candidates.len() as int],
                        candidates[txn_cnt as int % candidates.len() as int],
                    ),
                ),
            ),
            LoadBalancingPolicy::Zeus => choice == ProxyChoice::Decided(
                crate::primary::shared_obj_txn_forwarder::most_states_choice(
                    candidates,
                    owners,
                    required,
                    txn_cnt,
                ),
            ),
            LoadBalancingPolicy::Random => choice matches ProxyChoice::Decided(Some((a, b))) && a
                == b && candidates.contains(a),
            LoadBalancingPolicy::Hermes => match destination {
                Some(dest) => if candidates.contains(dest) {
                    choice == ProxyChoice::Decided(Some((dest, dest)))
                } else {
                    choice == ProxyChoice::Decided(None)
                },
                None => choice == ProxyChoice::Decided(None),
            },
            LoadBalancingPolicy::LocalityLoad => {
                &&& choice matches ProxyChoice::ByScore { locality, loads }
                &&& locality@.len() == candidates.len()
                &&& loads@.len() == candidates.len()
                &&& forall|k: int|
                    0 <= k < candidates.len() ==> #[trigger] locality@[k]
                        == crate::counting::places(
                        required.len() as int,
                        |i: int|
                            owners.contains_key(required[i]) && owners[required[i]].contains(
                                candidates[k],
                            ),
                    ).len()
                &&& forall|k: int|
                    0 <= k < candidates.len() ==> #[trigger] loads@[k] == (
                    if tracking.loads().contains_key(candidates[k]) {
                        tracking.loads()[candidates[k]]
                    } else {
                        0
                    })
            },
            LoadBalancingPolicy::AffinityAware => {
                &&& choice matches ProxyChoice::ByScore { locality, loads }
                &&& locality@.len() == candidates.len()
                &&& loads@.len() == candidates.len()
                &&& forall|k: int|
                    0 <= k < candidates.len() ==> #[trigger] locality@[k]
                        == crate::primary::shared_obj_txn_forwarder::accesses(
                        tracking.history(candidates[k] as int),
                        required,
                    )
                &&& forall|k: int|
                    0 <= k < candidates.len() ==> #[trigger] loads@[k] == (
                    if tracking.loads().contains_key(candidates[k]) {
                        tracking.loads()[candidates[k]]
                    } else {
                        0
                    })
            },
            _ => true,
        },
{
    if policy == LoadBalancingPolicy::LocalityLoad && candidates.len() > 0 {
        if let ProxyChoice::ByScore { locality, loads } = choice {
            assert forall|k: int| 0 <= k < candidates.len() implies #[trigger] locality@[k]
                == crate::counting::places(
                required.len() as int,
                |i: int|
                    owners.contains_key(required[i]) && owners[required[i]].contains(
                        candidates[k],
                    ),
            ).len() by {
                lemma_held(candidates, owners, required, k);
            }
        }
    }
}

/// Whom a transaction asks for a state. The proxy that executes and has it
/// asks nobody. Else, of the proxies that have it, the one at the lowest
/// position is asked, where that is the position of a connected proxy; where
/// it is not, the state is fetched from the primary. What nobody has is asked
/// for nowhere.
pub proof fn law_lowest_owner_is_asked(
    owners: Map<StateKey, Set<ExecutorIndex>>,
    key: StateKey,
    index: ExecutorIndex,
    count: nat,
    lowest: ExecutorIndex,
)
    requires
        count <= PRIMARY_FETCH_SENTINEL,
    ensures
        !owners.contains_key(key) ==> crate::primary::shared_obj_txn_forwarder::owner_to_ask(
            owners,
            key,
            index,
            count,
        ) is None,
        owners.contains_key(key) && owners[key] =~= Set::empty()
            ==> crate::primary::shared_obj_txn_forwarder::owner_to_ask(owners, key, index, count)
            is None,
        owners.contains_key(key) && owners[key].contains(index)
            ==> crate::primary::shared_obj_txn_forwarder::owner_to_ask(owners, key, index, count)
            is None,
        owners.contains_key(key) && !owners[key].contains(index) && owners[key].contains(lowest)
            && (forall|p: ExecutorIndex| #[trigger] owners[key].contains(p) ==> lowest <= p)
            ==> crate::primary::shared_obj_txn_forwarder::owner_to_ask(owners, key, index, count)
            == Some(
            if lowest < count {
                lowest
            } else {
                PRIMARY_FETCH_SENTINEL
            },
        ),
{
    if owners.contains_key(key) && owners[key].contains(lowest) {
        crate::primary::ownership::lemma_least_exists(owners[key], lowest);
    }
}

/// What a transaction is told to ask for: the proxy to ask is never the one
/// that executes, and the states that the primary sends along are asked for
/// nowhere.
pub proof fn law_fetched_states_are_asked_for_nowhere(
    owners: Map<StateKey, Set<ExecutorIndex>>,
    key: StateKey,
    index: ExecutorIndex,
    count: nat,
)
    requires
        count <= PRIMARY_FETCH_SENTINEL,
    ensures
        ({
            let owner = crate::primary::shared_obj_txn_forwarder::owner_to_ask(
                owners,
                key,
                index,
                count,
            );
            let asked = crate::primary::shared_obj_txn_forwarder::asked_for(
                owners,
                key,
                index,
                count,
            );
            &&& owner == Some(PRIMARY_FETCH_SENTINEL) ==> asked is None
            &&& owner != Some(PRIMARY_FETCH_SENTINEL) ==> asked == owner
        }),
{
}

/// Required states keep their keys and their order when positions are replaced
/// by the proxies at them; a position that no proxy in service has stands for
/// nobody.
pub proof fn law_positions_stand_for_proxies(
    required: Seq<(StateKey, Option<ExecutorIndex>)>,
    connected: Set<ProxyId>,
    standby_excluded: bool,
    i: int,
)
    requires
        exists|s: Seq<ProxyId>| crate::primary::connections::lists(s, connected),
        0 <= i < required.len(),
    ensures
        ({
            let all = crate::primary::shared_obj_txn_forwarder::resolved(
                required,
                connected,
                standby_excluded,
            );
            &&& all.len() == required.len()
            &&& all[i].0 == required[i].0
            &&& required[i].1 is None ==> all[i].1 is None
            &&& all[i].1 matches Some(proxy) ==> {
                &&& connected.contains(proxy)
                &&& required[i].1 == Some(lower_ones(connected, proxy).len() as usize)
            }
            &&& all[i].1 is None && required[i].1 is Some ==> required[i].1->0 + (
            if standby_excluded && connected.len() > 1 {
                1int
            } else {
                0int
            }) >= connected.len()
        }),
{
    let all = crate::primary::connections::ascending(connected);
    let s = choose|s: Seq<ProxyId>| crate::primary::connections::lists(s, connected);
    crate::primary::connections::lemma_ascending(s, connected);
    crate::primary::connections::lemma_listing_len(all, connected);
    if let Some(index) = required[i].1 {
        if index < crate::primary::connections::in_service(connected, standby_excluded).len() {
            lemma_lower_ones(all, connected, index as int);
            assert(all.contains(all[index as int]));
        }
    }
}

/// The connected proxies with lower identities.
pub open spec fn lower_ones(connected: Set<ProxyId>, proxy: ProxyId) -> Set<ProxyId> {
    Set::new(|q: ProxyId| connected.contains(q) && q < proxy)
}

/// As many proxies have lower identities as stand before a proxy in the
/// listing.
pub proof fn lemma_lower_ones(s: Seq<ProxyId>, connected: Set<ProxyId>, i: int)
    requires
        crate::primary::connections::lists(s, connected),
        0 <= i < s.len(),
    ensures
        lower_ones(connected, s[i]).finite(),
        lower_ones(connected, s[i]).len() == i,
{
    let before = s.take(i);
    let lower = lower_ones(connected, s[i]);
    assert forall|q: ProxyId| #[trigger] lower.contains(q) <==> before.contains(q) by {
        assert(connected.contains(q) <==> s.contains(q));
        if lower.contains(q) {
            let k = choose|k: int| 0 <= k < s.len() && s[k] == q;
            if i < k {
                assert(s[i] < s[k]);
            }
            assert(before[k] == q);
        }
        if before.contains(q) {
            let k = choose|k: int| 0 <= k < before.len() && before[k] == q;
            assert(s[k] == q);
            assert(s[k] < s[i]);
        }
    }
    crate::primary::connections::lemma_listing_len(before, lower);
}

/// The position of a connected proxy is the number of connected proxies with
/// lower identities.
pub proof fn law_position_counts_lower_identities(connected: Set<ProxyId>, proxy: ProxyId)
    requires
        exists|s: Seq<ProxyId>| crate::primary::connections::lists(s, connected),
        connected.contains(proxy),
        connected.len() <= usize::MAX,
    ensures
        crate::primary::replay::index_of_proxy(connected, proxy) == lower_ones(
            connected,
            proxy,
        ).len(),
        crate::primary::load_balancer::asked_position(connected, Some(proxy)) == Some(
            lower_ones(connected, proxy).len() as usize,
        ),
{
    let i = crate::primary::roster::lemma_position(connected, proxy);
    let all = crate::primary::connections::ascending(connected);
    crate::primary::connections::lemma_listing_len(all, connected);
    crate::primary::roster::lemma_index_of_proxy(all, connected, i);
    lemma_lower_ones(all, connected, i);
}

/// A destination that is not connected, or none, asks for no position.
pub proof fn law_absent_destination_asks_for_nothing(connected: Set<ProxyId>, proxy: ProxyId)
    requires
        !connected.contains(proxy),
    ensures
        crate::primary::load_balancer::asked_position(connected, Some(proxy)) is None,
        crate::primary::load_balancer::asked_position(connected, None) is None,
{
}

/// Who takes part in an epoch: the connected proxies that do not retire and
/// that fewer proxies than are active precede.
pub proof fn law_participants_are_the_first_active_ones(
    connected: Set<ProxyId>,
    active: usize,
    retiring: Set<ProxyId>,
    proxy: ProxyId,
)
    requires
        exists|s: Seq<ProxyId>| crate::primary::connections::lists(s, connected),
    ensures
        crate::primary::load_balancer::participants(connected, active, retiring).contains(proxy)
            <==> connected.contains(proxy) && !retiring.contains(proxy) && lower_ones(
            connected,
            proxy,
        ).len() < active,
        forall|a: int, b: int|
            #![trigger crate::primary::load_balancer::participants(connected, active, retiring)[a], crate::primary::load_balancer::participants(connected, active, retiring)[b]]
            0 <= a < b < crate::primary::load_balancer::participants(
                connected,
                active,
                retiring,
            ).len() ==> crate::primary::load_balancer::participants(connected, active, retiring)[a]
                < crate::primary::load_balancer::participants(connected, active, retiring)[b],
{
    let s = choose|s: Seq<ProxyId>| crate::primary::connections::lists(s, connected);
    crate::primary::connections::lemma_ascending(s, connected);
    let all = crate::primary::connections::ascending(connected);
    let taken = crate::primary::connections::first_of(all, active);
    crate::primary::connections::lemma_without(taken, retiring);
    assert forall|i: int, j: int| 0 <= i < j < taken.len() implies #[trigger] taken[i]
        < #[trigger] taken[j] by {
        assert(all[i] < all[j]);
    }
    if taken.contains(proxy) {
        let i = choose|i: int| 0 <= i < taken.len() && taken[i] == proxy;
        assert(all[i] == proxy);
        assert(all.contains(proxy));
        lemma_lower_ones(all, connected, i);
    }
    if connected.contains(proxy) {
        let i = crate::primary::roster::lemma_position(connected, proxy);
        lemma_lower_ones(all, connected, i);
        if i < active {
            assert(taken[i] == proxy);
        }
    }
}

/// Who may be handed a transaction on shared objects: the proxy at a position
/// that is active, does not retire and does not stand by.
pub proof fn law_candidates_are_active_and_in_service(
    connected: Set<ProxyId>,
    standby_excluded: bool,
    active: usize,
    retiring: Set<ProxyId>,
    proxy: ProxyId,
)
    requires
        exists|s: Seq<ProxyId>| crate::primary::connections::lists(s, connected),
        connected.len() <= usize::MAX,
        connected.contains(proxy),
    ensures
        ({
            let index = lower_ones(connected, proxy).len() as usize;
            let allowed = {
                &&& !retiring.contains(proxy)
                &&& lower_ones(connected, proxy).len() < active
                &&& !(standby_excluded && connected.len() > 1 && lower_ones(connected, proxy).len()
                    == connected.len() - 1)
            };
            &&& crate::primary::connections::candidates(
                connected,
                standby_excluded,
                active,
                retiring,
            ).contains(index) <==> allowed
            &&& crate::primary::connections::candidate_at(
                connected,
                standby_excluded,
                active,
                retiring,
                index,
            ) == (if allowed {
                Some(proxy)
            } else {
                None
            })
        }),
{
    let i = crate::primary::roster::lemma_position(connected, proxy);
    let all = crate::primary::connections::ascending(connected);
    crate::primary::connections::lemma_listing_len(all, connected);
    lemma_lower_ones(all, connected, i);
    let serving = crate::primary::connections::first_of(
        crate::primary::connections::in_service(connected, standby_excluded),
        active,
    );
    crate::primary::connections::lemma_open_positions(serving, retiring);
    assert(crate::primary::connections::open_positions(serving, retiring).contains(i as usize)
        <==> i < serving.len() && !retiring.contains(serving[i]));
}

/// Candidates come in increasing order of their positions.
pub proof fn law_candidates_are_in_order(
    connected: Set<ProxyId>,
    standby_excluded: bool,
    active: usize,
    retiring: Set<ProxyId>,
    a: int,
    b: int,
)
    requires
        0 <= a < b < crate::primary::connections::candidates(
            connected,
            standby_excluded,
            active,
            retiring,
        ).len(),
    ensures
        crate::primary::connections::candidates(connected, standby_excluded, active, retiring)[a]
            < crate::primary::connections::candidates(
            connected,
            standby_excluded,
            active,
            retiring,
        )[b],
{
    let serving = crate::primary::connections::first_of(
        crate::primary::connections::in_service(connected, standby_excluded),
        active,
    );
    crate::primary::connections::lemma_open_positions(serving, retiring);
}

/// Whom a scale-out brings into service: exactly the connected proxies that
/// are among the active ones from now on and were not before.
pub proof fn law_newcomers_are_those_that_become_active(
    connected: Set<ProxyId>,
    previous: usize,
    next: usize,
    proxy: ProxyId,
)
    requires
        exists|s: Seq<ProxyId>| crate::primary::connections::lists(s, connected),
        previous <= next,
    ensures
        crate::primary::load_balancer::newcomers(
            connected,
            Some(
                crate::primary::elastic_scaler::ScaleOutActivation {
                    previous_count: previous,
                    new_count: next,
                },
            ),
        ).contains(proxy) <==> connected.contains(proxy) && previous <= lower_ones(
            connected,
            proxy,
        ).len() < next,
        crate::primary::load_balancer::newcomers(connected, None).len() == 0,
{
    let activation = Some(
        crate::primary::elastic_scaler::ScaleOutActivation {
            previous_count: previous,
            new_count: next,
        },
    );
    let entering = crate::primary::load_balancer::newcomers(connected, activation);
    let s = choose|s: Seq<ProxyId>| crate::primary::connections::lists(s, connected);
    crate::primary::connections::lemma_ascending(s, connected);
    let all = crate::primary::connections::ascending(connected);
    let start = if previous < all.len() {
        previous as int
    } else {
        all.len() as int
    };
    if entering.contains(proxy) {
        let k = choose|k: int| 0 <= k < entering.len() && entering[k] == proxy;
        assert(all[start + k] == proxy);
        assert(all.contains(proxy));
        lemma_lower_ones(all, connected, start + k);
    }
    if connected.contains(proxy) {
        let i = crate::primary::roster::lemma_position(connected, proxy);
        lemma_lower_ones(all, connected, i);
        if previous <= i < next {
            assert(entering[i - start] == proxy);
        }
    }
}

/// Who is told what at the end of an epoch: the newcomers are told to enter
/// service with it, everything before being complete, and exactly those that
/// close it get its checkpoint. Nobody is told anything else.
pub proof fn law_checkpoint_messages_reach_whom_they_are_for(
    messages: Seq<(ProxyId, PrimaryToProxyMessage)>,
    epoch: EpochId,
    entering: Seq<ProxyId>,
    closing: Seq<ProxyId>,
    proxy: ProxyId,
)
    requires
        epoch.0 > 0,
        crate::primary::load_balancer::checkpoint_messages(messages, epoch, entering, closing),
    ensures
        closing.contains(proxy) <==> messages.contains(
            (proxy, PrimaryToProxyMessage::Checkpoint(epoch)),
        ),
        entering.contains(proxy) <==> messages.contains(
            (
                proxy,
                PrimaryToProxyMessage::ActivateProxy {
                    first_active_epoch: epoch,
                    completed_up_to: (epoch.0 - 1) as u64,
                },
            ),
        ),
        messages.len() == entering.len() + closing.len(),
{
    let checkpoint = (proxy, PrimaryToProxyMessage::Checkpoint(epoch));
    let activation = (
        proxy,
        PrimaryToProxyMessage::ActivateProxy {
            first_active_epoch: epoch,
            completed_up_to: (epoch.0 - 1) as u64,
        },
    );
    if closing.contains(proxy) {
        let k = choose|k: int| 0 <= k < closing.len() && closing[k] == proxy;
        assert(messages[entering.len() + k] == checkpoint);
    }
    if messages.contains(checkpoint) {
        let k = choose|k: int| 0 <= k < messages.len() && messages[k] == checkpoint;
        assert(closing[k - entering.len()] == proxy);
    }
    if entering.contains(proxy) {
        let k = choose|k: int| 0 <= k < entering.len() && entering[k] == proxy;
        assert(messages[k] == activation);
    }
    if messages.contains(activation) {
        let k = choose|k: int| 0 <= k < messages.len() && messages[k] == activation;
        assert(entering[k] == proxy);
    }
}

/// What is sent for a transaction: states that the primary sends along come
/// first and go to the proxy that executes; under separation the proxy that
/// checks is sent the transaction; the proxy that executes is sent it last,
/// with the states that it asks others for and with who checks. Nothing else
/// is sent, and nothing to anybody else.
pub proof fn law_forwarding_reaches_executor_and_checker(
    forwarding: Forwarding,
    messages: Seq<(ProxyId, PrimaryToProxyMessage)>,
    epoch: EpochId,
    transaction: Arc<TransactionWithTimestamp>,
)
    requires
        forwarding.sent(messages, epoch, transaction),
    ensures
        forwarding.stateful matches Some(executor) ==> {
            &&& messages.len() > 0
            &&& messages.last().0 == executor
            &&& match messages.last().1 {
                PrimaryToProxyMessage::Txn(at, txn, by, required) => forwarding.mode
                    == ProxyMode::Separation && at == epoch && txn == transaction
                    && required.sorted() =~= forwarding.required && (
                forwarding.stateless matches Some(checker) ==> by == checker),
                PrimaryToProxyMessage::CombinedTxn(at, txn, by, required) => forwarding.mode
                    != ProxyMode::Separation && at == epoch && txn == transaction
                    && required.sorted() =~= forwarding.required && (
                forwarding.stateless matches Some(checker) ==> by == checker),
                _ => false,
            }
            &&& !(forwarding.blobs.dom() =~= Set::empty()) ==> {
                &&& messages[0].0 == executor
                &&& messages[0].1 matches PrimaryToProxyMessage::Replay(batch)
                &&& batch.items@.len() == 1
                &&& batch.items@[0].transaction is None
                &&& batch.items@[0].state_blobs@ =~= forwarding.blobs
                &&& messages.len() >= 2
            }
        },
        forwarding.stateless matches Some(checker) ==> forwarding.mode == ProxyMode::Separation
            ==> messages.contains((checker, PrimaryToProxyMessage::StatelessTxn(epoch, transaction))),
        messages.len() == (if forwarding.stateful is Some {
            1int
        } else {
            0int
        }) + (if forwarding.stateful is Some && !(forwarding.blobs.dom() =~= Set::empty()) {
            1int
        } else {
            0int
        }) + (if forwarding.stateless is Some && forwarding.mode == ProxyMode::Separation {
            1int
        } else {
            0int
        }),
        forall|i: int|
            0 <= i < messages.len() ==> Some((#[trigger] messages[i]).0) == forwarding.stateful
                || Some(messages[i].0) == forwarding.stateless,
{
    if forwarding.sends_check() {
        assert(messages[forwarding.before_check()] == (
            forwarding.stateless->0,
            PrimaryToProxyMessage::StatelessTxn(epoch, transaction),
        ));
    }
}

/// A transaction is assigned the version that each of its objects is at: the
/// one that was assigned last, or the initial one. All its objects move on to
/// one version, above all that it was assigned and only one above the highest
/// of them.
pub proof fn law_assigned_versions_follow_each_other(
    versions: Map<ObjectID, SequenceNumber>,
    ids: Seq<ObjectID>,
    i: int,
)
    requires
        0 <= i < ids.len(),
        forall|id: ObjectID| #[trigger]
            versions.contains_key(id) ==> INITIAL_VERSION <= versions[id] < u64::MAX,
    ensures
        ({
            let needs = crate::primary::shared_obj_txn_forwarder::needs_of(versions, ids);
            let after = crate::primary::shared_obj_txn_forwarder::versions_after(versions, ids);
            &&& needs.len() == ids.len()
            &&& needs[i].0 == ids[i]
            &&& needs[i].1 == (if versions.contains_key(ids[i]) {
                versions[ids[i]]
            } else {
                INITIAL_VERSION
            })
            &&& after.contains_key(ids[i])
            &&& forall|j: int| 0 <= j < needs.len() ==> (#[trigger] needs[j]).1 < after[ids[i]]
            &&& exists|j: int|
                0 <= j < needs.len() && (#[trigger] needs[j]).1 + 1 == after[ids[i]]
        }),
{
    let needs = crate::primary::shared_obj_txn_forwarder::needs_of(versions, ids);
    crate::recovery::lemma_highest_version(needs);
    assert(ids.contains(ids[i]));
    let top = choose|k: int|
        0 <= k < needs.len() && (#[trigger] needs[k]).1 == crate::recovery::highest_version(needs);
    assert(needs[top].1 >= INITIAL_VERSION);
    assert(needs[top].1 < u64::MAX);
}

/// The objects of a transaction are those of its shared inputs, in their order.
pub proof fn law_objects_are_those_of_the_inputs(
    shared: Seq<(ObjectID, Option<SequenceNumber>)>,
    i: int,
)
    requires
        0 <= i < shared.len(),
    ensures
        crate::primary::shared_obj_txn_forwarder::ids_of(shared).len() == shared.len(),
        crate::primary::shared_obj_txn_forwarder::ids_of(shared)[i] == shared[i].0,
{
}

/// A record of a transaction holds every state that was assigned to it, and no
/// other, and says of none where it is.
pub proof fn law_records_hold_what_was_assigned(keys: Seq<StateKey>, key: StateKey)
    ensures
        crate::primary::shared_obj_txn_forwarder::unowned(keys).contains_key(key)
            <==> exists|i: int| 0 <= i < keys.len() && keys[i] == key,
        crate::primary::shared_obj_txn_forwarder::unowned(keys).contains_key(key)
            ==> crate::primary::shared_obj_txn_forwarder::unowned(keys)[key] is None,
{
}

/// Who has what once a transaction is placed on a proxy: of each object that
/// it needs, that proxy has the version one above the highest that it needs,
/// and it has none of the versions that the transaction needs any more.
pub proof fn law_placed_transaction_moves_its_states(
    owners: Map<StateKey, Set<ExecutorIndex>>,
    keys: Seq<StateKey>,
    index: ExecutorIndex,
    count: nat,
    merged: Map<ObjectID, Object>,
    i: int,
    version: SequenceNumber,
)
    requires
        crate::recovery::can_advance(keys),
        0 <= i < keys.len(),
        forall|j: int| 0 <= j < keys.len() ==> (#[trigger] keys[j]).1 < version,
        exists|j: int| 0 <= j < keys.len() && (#[trigger] keys[j]).1 + 1 == version,
    ensures
        ({
            let after = crate::primary::shared_obj_txn_forwarder::missing_states(
                owners,
                keys,
                index,
                count,
                merged,
            ).owners;
            &&& after.contains_key((keys[i].0, version))
            &&& after[(keys[i].0, version)].contains(index)
            &&& after.contains_key(keys[i]) ==> !after[keys[i]].contains(index)
        }),
{
    crate::recovery::law_written_version_follows_the_needs(keys, version);
    crate::primary::shared_obj_txn_forwarder::law_executor_owns_what_it_writes(
        owners,
        keys,
        index,
        count,
        merged,
    );
    let after = crate::primary::shared_obj_txn_forwarder::missing_states(
        owners,
        keys,
        index,
        count,
        merged,
    ).owners;
    assert(crate::primary::ownership::owners_in(after, (keys[i].0, version)).contains(index));
    assert(!crate::primary::ownership::owners_in(after, keys[i]).contains(index));
}

/// States that the primary sends along stand alone: one item without a
/// transaction and without needs, outside of any epoch. A checking proxy
/// that there is none of is told as the highest number.
pub proof fn law_states_sent_along_stand_alone(
    forwarding: Forwarding,
    message: PrimaryToProxyMessage,
    epoch: EpochId,
    transaction: Arc<TransactionWithTimestamp>,
)
    ensures
        forwarding.carries_states(message) ==> {
            &&& message matches PrimaryToProxyMessage::Replay(batch)
            &&& batch.epoch.0 == 0
            &&& batch.items@.len() == 1
            &&& batch.items@[0].epoch_id.0 == 0
            &&& batch.items@[0].transaction is None
            &&& batch.items@[0].required_versions@.len() == 0
            &&& batch.items@[0].state_blobs@ =~= forwarding.blobs
        },
        forwarding.carries_execution(message, epoch, transaction) && forwarding.stateless is None
            ==> match message {
            PrimaryToProxyMessage::Txn(_, _, by, _) => by == usize::MAX,
            PrimaryToProxyMessage::CombinedTxn(_, _, by, _) => by == usize::MAX,
            _ => false,
        },
        forwarding.carries_execution(message, epoch, transaction) && forwarding.mode
            == ProxyMode::Separation ==> message is Txn,
        forwarding.carries_execution(message, epoch, transaction) && forwarding.mode
            != ProxyMode::Separation ==> message is CombinedTxn,
{
}

} // verus!
