//! The proxies that the primary is connected to.
use vstd::prelude::*;

use crate::base_types::{ExecutorIndex, ProxyId};
use crate::checkpoint::EpochId;
use crate::tables::ConcurrentMap;

verus! {

/// The connection to each proxy, by the identity of the proxy.
#[verifier::reject_recursive_types(C)]
pub struct ProxyConnections<C> {
    table: ConcurrentMap<ProxyId, C>,
}

impl<C> View for ProxyConnections<C> {
    type V = Map<ProxyId, C>;

    closed spec fn view(&self) -> Map<ProxyId, C> {
        self.table@
    }
}

impl<C> ProxyConnections<C> {
    /// No proxy is connected.
    pub fn new() -> (connections: Self)
        ensures
            connections@ =~= Map::<ProxyId, C>::empty(),
    {
        ProxyConnections { table: ConcurrentMap::new() }
    }

    /// Connects a proxy, in place of an earlier connection to it.
    pub fn connect(&mut self, proxy: ProxyId, connection: C)
        ensures
            final(self)@ == old(self)@.insert(proxy, connection),
    {
        let _ = self.table.insert(proxy, connection);
    }

    /// Disconnects a proxy and hands its connection back.
    pub fn disconnect(&mut self, proxy: ProxyId) -> (connection: Option<C>)
        ensures
            final(self)@ == old(self)@.remove(proxy),
            connection == old(self)@.get(proxy),
    {
        self.table.remove(&proxy)
    }

    /// Whether a proxy is connected.
    pub fn is_connected(&self, proxy: ProxyId) -> (connected: bool)
        ensures
            connected == self@.contains_key(proxy),
    {
        self.table.contains_key(&proxy)
    }

    /// The connection to a proxy.
    pub fn connection(&self, proxy: ProxyId) -> (connection: Option<C>) where C: Clone
        ensures
            match connection {
                Some(c) => self@.contains_key(proxy) && cloned(self@[proxy], c),
                None => !self@.contains_key(proxy),
            },
    {
        self.table.get(&proxy)
    }

    /// The number of connected proxies.
    pub fn len(&self) -> (count: usize)
        ensures
            count == self@.dom().len(),
    {
        self.table.len()
    }

    fn ids(&self) -> (keys: Vec<ProxyId>)
        ensures
            keys@.no_duplicates(),
            keys@.to_set() =~= self@.dom(),
    {
        self.table.keys()
    }
}

/// Whether a sequence lists the members of a set in increasing order.
pub open spec fn lists(s: Seq<ProxyId>, members: Set<ProxyId>) -> bool {
    &&& forall|i: int, j: int| 0 <= i < j < s.len() ==> #[trigger] s[i] < #[trigger] s[j]
    &&& forall|p: ProxyId| #[trigger] members.contains(p) <==> s.contains(p)
}

/// The members of a finite set in increasing order.
pub open spec fn ascending(members: Set<ProxyId>) -> Seq<ProxyId> {
    choose|s: Seq<ProxyId>| lists(s, members)
}

/// A set has one listing only.
pub proof fn lemma_listing_unique(s: Seq<ProxyId>, t: Seq<ProxyId>, members: Set<ProxyId>)
    requires
        lists(s, members),
        lists(t, members),
    ensures
        s =~= t,
    decreases s.len(),
{
    if s.len() == 0 {
        if t.len() > 0 {
            assert(t.contains(t[0]));
            assert(members.contains(t[0]));
        }
    } else {
        assert(s.contains(s.last()));
        assert(members.contains(s.last()));
        let j = choose|j: int| 0 <= j < t.len() && t[j] == s.last();
        assert(t.contains(t.last()));
        assert(members.contains(t.last()));
        let i = choose|i: int| 0 <= i < s.len() && s[i] == t.last();
        assert(s.last() == t.last());
        let fewer = members.remove(s.last());
        let ss = s.drop_last();
        let tt = t.drop_last();
        assert forall|p: ProxyId| #[trigger] fewer.contains(p) <==> ss.contains(p) by {
            lemma_drop_last_contains(s, p);
            assert(members.contains(p) <==> s.contains(p));
        }
        assert forall|p: ProxyId| #[trigger] fewer.contains(p) <==> tt.contains(p) by {
            lemma_drop_last_contains(t, p);
            assert(members.contains(p) <==> t.contains(p));
        }
        lemma_listing_unique(ss, tt, fewer);
        assert(s =~= ss.push(s.last()));
        assert(t =~= tt.push(t.last()));
    }
}

proof fn lemma_drop_last_contains(s: Seq<ProxyId>, p: ProxyId)
    requires
        s.len() > 0,
        forall|i: int, j: int| 0 <= i < j < s.len() ==> #[trigger] s[i] < #[trigger] s[j],
    ensures
        s.drop_last().contains(p) <==> s.contains(p) && p != s.last(),
{
    if s.drop_last().contains(p) {
        let i = choose|i: int| 0 <= i < s.drop_last().len() && s.drop_last()[i] == p;
        assert(s[i] == p);
        assert(s[i] < s[s.len() - 1]);
    }
    if s.contains(p) && p != s.last() {
        let i = choose|i: int| 0 <= i < s.len() && s[i] == p;
        assert(s.drop_last()[i] == p);
    }
}

/// A listing of a set is its members in increasing order.
pub proof fn lemma_ascending(s: Seq<ProxyId>, members: Set<ProxyId>)
    requires
        lists(s, members),
    ensures
        s == ascending(members),
        lists(ascending(members), members),
{
    lemma_listing_unique(s, ascending(members), members);
}

/// A listing has as many entries as the set has members.
pub proof fn lemma_listing_len(s: Seq<ProxyId>, members: Set<ProxyId>)
    requires
        lists(s, members),
    ensures
        members.finite(),
        s.len() == members.len(),
{
    assert(s.to_set() =~= members);
    assert(s.no_duplicates());
    s.unique_seq_to_set();
}

/// Sorts identities that are pairwise different.
pub fn sort_ids(ids: &Vec<ProxyId>) -> (sorted: Vec<ProxyId>)
    requires
        ids@.no_duplicates(),
    ensures
        lists(sorted@, ids@.to_set()),
        sorted@ == ascending(ids@.to_set()),
        sorted@.len() == ids@.len(),
{
    let mut sorted: Vec<ProxyId> = Vec::new();
    let mut i: usize = 0;
    while i < ids.len()
        invariant
            i <= ids.len(),
            ids@.no_duplicates(),
            sorted@.len() == i,
            lists(sorted@, ids@.take(i as int).to_set()),
        decreases ids.len() - i,
    {
        let id: ProxyId = ids[i];
        let ghost before = sorted@;
        let ghost seen = ids@.take(i as int).to_set();
        let mut at: usize = 0;
        while at < sorted.len() && sorted[at] < id
            invariant
                at <= sorted.len(),
                sorted@ == before,
                forall|k: int| 0 <= k < at ==> sorted@[k] < id,
                forall|a: int, b: int|
                    0 <= a < b < sorted@.len() ==> #[trigger] sorted@[a] < #[trigger] sorted@[b],
            decreases sorted.len() - at,
        {
            at = at + 1;
        }
        proof {
            if at < before.len() && before[at as int] == id {
                assert(before.contains(id));
                assert(seen.contains(id));
                let k = choose|k: int| 0 <= k < i && ids@.take(i as int)[k] == id;
                assert(ids@[k] == ids@[i as int]);
            }
        }
        sorted.insert(at, id);
        proof {
            let after = sorted@;
            let longer = ids@.take(i + 1);
            let more = longer.to_set();
            assert(after =~= before.insert(at as int, id));
            assert forall|p: ProxyId| #[trigger] more.contains(p) <==> after.contains(p) by {
                if more.contains(p) {
                    let k = choose|k: int| 0 <= k < longer.len() && longer[k] == p;
                    if k < i {
                        assert(ids@.take(i as int)[k] == p);
                        assert(seen.contains(p));
                        let m = choose|m: int| 0 <= m < before.len() && before[m] == p;
                        if m < at {
                            assert(after[m] == p);
                        } else {
                            assert(after[m + 1] == p);
                        }
                    } else {
                        assert(after[at as int] == p);
                    }
                }
                if after.contains(p) {
                    let m = choose|m: int| 0 <= m < after.len() && after[m] == p;
                    if m == at {
                        assert(longer[i as int] == p);
                    } else {
                        if m < at {
                            assert(before[m] == p);
                        } else {
                            assert(before[m - 1] == p);
                        }
                        assert(seen.contains(p));
                        let k = choose|k: int| 0 <= k < i && ids@.take(i as int)[k] == p;
                        assert(longer[k] == p);
                    }
                }
            }
        }
        i = i + 1;
    }
    proof {
        assert(ids@.take(i as int) =~= ids@);
        lemma_ascending(sorted@, ids@.to_set());
    }
    sorted
}

/// The identities of the connected proxies in increasing order.
pub fn sorted_proxy_ids<C>(connections: &ProxyConnections<C>) -> (ids: Vec<ProxyId>)
    ensures
        lists(ids@, connections@.dom()),
        ids@ == ascending(connections@.dom()),
{
    let keys: Vec<ProxyId> = connections.ids();
    sort_ids(&keys)
}

/// The highest identity among the connected proxies, if any is connected.
pub fn highest_proxy_id<C>(connections: &ProxyConnections<C>) -> (highest: Option<ProxyId>)
    ensures
        match highest {
            Some(p) => connections@.contains_key(p) && (forall|q: ProxyId|
                connections@.contains_key(q) ==> q <= p),
            None => forall|q: ProxyId| !connections@.contains_key(q),
        },
{
    let ids: Vec<ProxyId> = sorted_proxy_ids(connections);
    if ids.len() == 0 {
        proof {
            assert forall|q: ProxyId| !connections@.contains_key(q) by {
                assert(!ids@.contains(q));
                assert(!connections@.dom().contains(q));
            }
        }
        None
    } else {
        let last: ProxyId = ids[ids.len() - 1];
        proof {
            assert(ids@.contains(last));
            assert(connections@.dom().contains(last));
            assert forall|q: ProxyId| connections@.contains_key(q) implies q <= last by {
                assert(connections@.dom().contains(q));
                let k = choose|k: int| 0 <= k < ids@.len() && ids@[k] == q;
                if k < ids@.len() - 1 {
                    assert(ids@[k] < ids@[ids@.len() - 1]);
                }
            }
        }
        Some(last)
    }
}

/// The proxies in service: all connected ones in increasing order, but for the
/// last of several where that one stands by.
pub open spec fn in_service(connected: Set<ProxyId>, standby_excluded: bool) -> Seq<ProxyId> {
    let all = ascending(connected);
    if standby_excluded && all.len() > 1 {
        all.drop_last()
    } else {
        all
    }
}

/// The first proxies of a sequence, at most a given number.
pub open spec fn first_of(s: Seq<ProxyId>, count: usize) -> Seq<ProxyId> {
    s.take(if count < s.len() {
        count as int
    } else {
        s.len() as int
    })
}

/// The proxy at a position among those in service.
pub open spec fn proxy_at(
    connected: Set<ProxyId>,
    standby_excluded: bool,
    index: ExecutorIndex,
) -> Option<ProxyId> {
    let serving = in_service(connected, standby_excluded);
    if index < serving.len() {
        Some(serving[index as int])
    } else {
        None
    }
}

/// The proxy at a position among those in service.
pub fn resolve_proxy_id<C>(
    connections: &ProxyConnections<C>,
    standby_excluded: bool,
    index: ExecutorIndex,
) -> (proxy: Option<ProxyId>)
    ensures
        proxy == proxy_at(connections@.dom(), standby_excluded, index),
{
    let mut ids: Vec<ProxyId> = sorted_proxy_ids(connections);
    if standby_excluded && ids.len() > 1 {
        let _ = ids.pop();
    }
    if index < ids.len() {
        Some(ids[index])
    } else {
        None
    }
}

/// The number of proxies in service.
pub fn effective_proxy_count<C>(
    connections: &ProxyConnections<C>,
    standby_excluded: bool,
) -> (count: usize)
    ensures
        count == in_service(connections@.dom(), standby_excluded).len(),
{
    let ids: Vec<ProxyId> = sorted_proxy_ids(connections);
    let count: usize = ids.len();
    if standby_excluded && count > 1 {
        count - 1
    } else {
        count
    }
}

/// The proxies that retire or have retired, each with its last epoch.
pub struct RetiringProxies {
    table: ConcurrentMap<ProxyId, u64>,
}

impl View for RetiringProxies {
    type V = Map<ProxyId, u64>;

    closed spec fn view(&self) -> Map<ProxyId, u64> {
        self.table@
    }
}

impl RetiringProxies {
    /// No proxy retires.
    pub fn new() -> (retiring: Self)
        ensures
            retiring@ =~= Map::<ProxyId, u64>::empty(),
    {
        RetiringProxies { table: ConcurrentMap::new() }
    }

    /// Notes that a proxy retires with an epoch.
    pub fn insert(&mut self, proxy: ProxyId, epoch: EpochId)
        ensures
            final(self)@ == old(self)@.insert(proxy, epoch.0),
    {
        let _ = self.table.insert(proxy, epoch.0);
    }

    /// Whether a proxy retires or has retired.
    pub fn contains(&self, proxy: ProxyId) -> (retiring: bool)
        ensures
            retiring == self@.contains_key(proxy),
    {
        self.table.contains_key(&proxy)
    }

    /// The last epoch of a proxy that retires or has retired.
    pub fn last_epoch(&self, proxy: ProxyId) -> (epoch: Option<EpochId>)
        ensures
            epoch == (if self@.contains_key(proxy) {
                Some(EpochId(self@[proxy]))
            } else {
                None
            }),
    {
        match self.table.get(&proxy) {
            Some(epoch) => Some(EpochId(epoch)),
            None => None,
        }
    }
}

/// Those of a sequence of proxies that are not in a set, in their order.
pub open spec fn without(s: Seq<ProxyId>, out: Set<ProxyId>) -> Seq<ProxyId>
    decreases s.len(),
{
    if s.len() == 0 {
        Seq::empty()
    } else if out.contains(s.last()) {
        without(s.drop_last(), out)
    } else {
        without(s.drop_last(), out).push(s.last())
    }
}

/// What leaving out a set leaves: the other members, in their order.
pub proof fn lemma_without(s: Seq<ProxyId>, out: Set<ProxyId>)
    ensures
        without(s, out).len() <= s.len(),
        forall|p: ProxyId| #[trigger]
            without(s, out).contains(p) <==> s.contains(p) && !out.contains(p),
        (forall|i: int, j: int| 0 <= i < j < s.len() ==> #[trigger] s[i] < #[trigger] s[j]) ==> (
        forall|i: int, j: int|
            0 <= i < j < without(s, out).len() ==> #[trigger] without(s, out)[i]
                < #[trigger] without(s, out)[j]),
    decreases s.len(),
{
    let kept = without(s, out);
    if s.len() > 0 {
        let rest = s.drop_last();
        let before = without(rest, out);
        lemma_without(rest, out);
        assert forall|p: ProxyId| #[trigger] kept.contains(p) <==> s.contains(p) && !out.contains(
            p,
        ) by {
            if s.contains(p) && p != s.last() {
                let i = choose|i: int| 0 <= i < s.len() && s[i] == p;
                assert(rest[i] == p);
            }
            if rest.contains(p) {
                let i = choose|i: int| 0 <= i < rest.len() && rest[i] == p;
                assert(s[i] == p);
            }
            if before.contains(p) {
                let i = choose|i: int| 0 <= i < before.len() && before[i] == p;
                assert(kept[i] == p);
            }
            if !out.contains(s.last()) {
                assert(kept[before.len() as int] == s.last());
                if kept.contains(p) && p != s.last() {
                    let i = choose|i: int| 0 <= i < kept.len() && kept[i] == p;
                    assert(before[i] == p);
                }
            }
            assert(s[s.len() - 1] == s.last());
        }
        if forall|i: int, j: int| 0 <= i < j < s.len() ==> #[trigger] s[i] < #[trigger] s[j] {
            assert forall|i: int, j: int| 0 <= i < j < rest.len() implies #[trigger] rest[i]
                < #[trigger] rest[j] by {
                assert(s[i] < s[j]);
            }
            if !out.contains(s.last()) {
                assert forall|i: int, j: int| 0 <= i < j < kept.len() implies #[trigger] kept[i]
                    < #[trigger] kept[j] by {
                    assert(before.contains(before[i]));
                    assert(rest.contains(before[i]));
                    let k = choose|k: int| 0 <= k < rest.len() && rest[k] == before[i];
                    assert(s[k] < s[s.len() - 1]);
                    if j < before.len() {
                        assert(before[i] < before[j]);
                    }
                }
            }
        }
    }
}

/// The proxies of a list that do not retire, in their order.
pub fn exclude_retiring(ids: &Vec<ProxyId>, retiring: &RetiringProxies) -> (kept: Vec<ProxyId>)
    ensures
        kept@ == without(ids@, retiring@.dom()),
{
    let mut kept: Vec<ProxyId> = Vec::new();
    let mut i: usize = 0;
    while i < ids.len()
        invariant
            i <= ids.len(),
            kept@ == without(ids@.take(i as int), retiring@.dom()),
        decreases ids.len() - i,
    {
        proof {
            assert(ids@.take(i + 1).drop_last() =~= ids@.take(i as int));
        }
        if !retiring.contains(ids[i]) {
            kept.push(ids[i]);
        }
        i = i + 1;
    }
    proof {
        assert(ids@.take(i as int) =~= ids@);
    }
    kept
}

/// The positions of the proxies in a sequence that do not retire.
pub open spec fn open_positions(s: Seq<ProxyId>, retiring: Set<ProxyId>) -> Seq<ExecutorIndex>
    decreases s.len(),
{
    if s.len() == 0 {
        Seq::empty()
    } else if retiring.contains(s.last()) {
        open_positions(s.drop_last(), retiring)
    } else {
        open_positions(s.drop_last(), retiring).push((s.len() - 1) as usize)
    }
}

/// The positions, among the connected proxies, of those that may be handed a
/// transaction on shared objects: in service, active and not retiring.
pub open spec fn candidates(
    connected: Set<ProxyId>,
    standby_excluded: bool,
    active: usize,
    retiring: Set<ProxyId>,
) -> Seq<ExecutorIndex> {
    open_positions(first_of(in_service(connected, standby_excluded), active), retiring)
}

/// The proxy at a position, where it may be handed a transaction on shared objects.
pub open spec fn candidate_at(
    connected: Set<ProxyId>,
    standby_excluded: bool,
    active: usize,
    retiring: Set<ProxyId>,
    index: ExecutorIndex,
) -> Option<ProxyId> {
    let serving = first_of(in_service(connected, standby_excluded), active);
    if index < serving.len() && !retiring.contains(serving[index as int]) {
        Some(serving[index as int])
    } else {
        None
    }
}

/// The open positions are exactly those of the proxies that do not retire, in
/// increasing order.
pub proof fn lemma_open_positions(s: Seq<ProxyId>, retiring: Set<ProxyId>)
    requires
        s.len() <= usize::MAX,
    ensures
        open_positions(s, retiring).len() == without(s, retiring).len(),
        forall|k: int|
            0 <= k < open_positions(s, retiring).len() ==> {
                let at = #[trigger] open_positions(s, retiring)[k];
                at < s.len() && s[at as int] == without(s, retiring)[k]
            },
        forall|i: ExecutorIndex| #[trigger]
            open_positions(s, retiring).contains(i) <==> i < s.len() && !retiring.contains(
                s[i as int],
            ),
        forall|j: int, k: int|
            0 <= j < k < open_positions(s, retiring).len() ==> #[trigger] open_positions(
                s,
                retiring,
            )[j] < #[trigger] open_positions(s, retiring)[k],
    decreases s.len(),
{
    if s.len() > 0 {
        let rest = s.drop_last();
        lemma_open_positions(rest, retiring);
        let before = open_positions(rest, retiring);
        let after = open_positions(s, retiring);
        assert forall|i: ExecutorIndex| #[trigger] after.contains(i) <==> i < s.len()
            && !retiring.contains(s[i as int]) by {
            assert(before.contains(i) <==> i < rest.len() && !retiring.contains(rest[i as int]));
            if before.contains(i) {
                let k = choose|k: int| 0 <= k < before.len() && before[k] == i;
                assert(after[k] == i);
            }
            if !retiring.contains(s.last()) {
                assert(after[before.len() as int] == s.len() - 1);
                if after.contains(i) && i != s.len() - 1 {
                    let k = choose|k: int| 0 <= k < after.len() && after[k] == i;
                    assert(before[k] == i);
                }
            }
        }
        assert forall|k: int| 0 <= k < after.len() implies {
            let at = #[trigger] after[k];
            at < s.len() && s[at as int] == without(s, retiring)[k]
        } by {
            if k < before.len() {
                assert(after[k] == before[k]);
                assert(rest[before[k] as int] == s[before[k] as int]);
            }
        }
        assert forall|j: int, k: int| 0 <= j < k < after.len() implies #[trigger] after[j]
            < #[trigger] after[k] by {
            assert(before[j] < rest.len());
            if k < before.len() {
                assert(before[j] < before[k]);
            }
        }
    }
}

/// The positions of the proxies that may be handed a transaction on shared
/// objects, in increasing order.
pub fn candidate_positions<C>(
    connections: &ProxyConnections<C>,
    standby_excluded: bool,
    active: usize,
    retiring: &RetiringProxies,
) -> (positions: Vec<ExecutorIndex>)
    ensures
        positions@ == candidates(connections@.dom(), standby_excluded, active, retiring@.dom()),
        forall|k: int|
            0 <= k < positions@.len() ==> #[trigger] positions@[k] < connections@.dom().len(),
{
    let mut ids: Vec<ProxyId> = sorted_proxy_ids(connections);
    proof {
        lemma_listing_len(ids@, connections@.dom());
    }
    if standby_excluded && ids.len() > 1 {
        let _ = ids.pop();
    }
    let ghost serving = ids@;
    ids.truncate(active);
    proof {
        assert(serving =~= in_service(connections@.dom(), standby_excluded));
        assert(ids@ =~= first_of(serving, active));
        lemma_open_positions(ids@, retiring@.dom());
    }
    let mut positions: Vec<ExecutorIndex> = Vec::new();
    let mut i: usize = 0;
    while i < ids.len()
        invariant
            i <= ids.len(),
            positions@ == open_positions(ids@.take(i as int), retiring@.dom()),
        decreases ids.len() - i,
    {
        proof {
            assert(ids@.take(i + 1).drop_last() =~= ids@.take(i as int));
        }
        if !retiring.contains(ids[i]) {
            positions.push(i);
        }
        i = i + 1;
    }
    proof {
        assert(ids@.take(i as int) =~= ids@);
    }
    positions
}

/// The proxy at a position, where it may be handed a transaction on shared objects.
pub fn resolve_candidate<C>(
    connections: &ProxyConnections<C>,
    standby_excluded: bool,
    active: usize,
    retiring: &RetiringProxies,
    index: ExecutorIndex,
) -> (proxy: Option<ProxyId>)
    ensures
        proxy == candidate_at(
            connections@.dom(),
            standby_excluded,
            active,
            retiring@.dom(),
            index,
        ),
{
    match resolve_proxy_id(connections, standby_excluded, index) {
        Some(proxy) => {
            if index < active && !retiring.contains(proxy) {
                Some(proxy)
            } else {
                None
            }
        },
        None => None,
    }
}

} // verus!
