//! Which proxies hold which version of which object.
use vstd::prelude::*;

use crate::base_types::{ExecutorIndex, StateKey};
use crate::tables::ConcurrentMap;

verus! {

/// Stands for an owner where a state is to be fetched from the primary's
/// persisted snapshot.
pub const PRIMARY_FETCH_SENTINEL: usize = usize::MAX;

/// A set of proxy indices, kept in increasing order.
#[derive(Debug)]
pub struct OwnerSet {
    owners: Vec<ExecutorIndex>,
}

impl View for OwnerSet {
    type V = Set<ExecutorIndex>;

    open spec fn view(&self) -> Set<ExecutorIndex> {
        self.listed().to_set()
    }
}

impl Clone for OwnerSet {
    fn clone(&self) -> (copy: Self)
        ensures
            copy.listed() == self.listed(),
    {
        let mut owners: Vec<ExecutorIndex> = Vec::new();
        let mut i: usize = 0;
        while i < self.owners.len()
            invariant
                i <= self.owners.len(),
                owners@ =~= self.owners@.take(i as int),
            decreases self.owners.len() - i,
        {
            owners.push(self.owners[i]);
            i = i + 1;
        }
        proof {
            assert(owners@ =~= self.owners@);
        }
        OwnerSet { owners }
    }
}

impl OwnerSet {
    /// The members in the order in which they are kept.
    pub closed spec fn listed(&self) -> Seq<ExecutorIndex> {
        self.owners@
    }

    /// The members increase strictly.
    pub open spec fn wf(&self) -> bool {
        forall|i: int, j: int|
            0 <= i < j < self.listed().len() ==> #[trigger] self.listed()[i]
                < #[trigger] self.listed()[j]
    }

    /// The empty set.
    pub fn new() -> (set: Self)
        ensures
            set.wf(),
            set@ =~= Set::<ExecutorIndex>::empty(),
    {
        OwnerSet { owners: Vec::new() }
    }

    /// Whether the set has the member.
    pub fn contains(&self, owner: ExecutorIndex) -> (member: bool)
        ensures
            member == self@.contains(owner),
    {
        let mut i: usize = 0;
        while i < self.owners.len()
            invariant
                i <= self.owners.len(),
                forall|k: int| 0 <= k < i ==> self.listed()[k] != owner,
            decreases self.owners.len() - i,
        {
            if self.owners[i] == owner {
                proof {
                    assert(self.listed()[i as int] == owner);
                    assert(self@.contains(owner));
                }
                return true;
            }
            i = i + 1;
        }
        false
    }

    /// The number of members.
    pub fn len(&self) -> (count: usize)
        ensures
            count == self.listed().len(),
    {
        self.owners.len()
    }

    /// The member at a position.
    pub fn at(&self, index: usize) -> (owner: ExecutorIndex)
        requires
            index < self.listed().len(),
        ensures
            owner == self.listed()[index as int],
            self@.contains(owner),
    {
        proof {
            assert(self.listed().contains(self.listed()[index as int]));
        }
        self.owners[index]
    }

    /// The least member, if there is one.
    pub fn least(&self) -> (owner: Option<ExecutorIndex>)
        requires
            self.wf(),
        ensures
            owner == least_of(self@),
    {
        if self.owners.len() == 0 {
            proof {
                assert(self@ =~= Set::<ExecutorIndex>::empty());
            }
            None
        } else {
            proof {
                let first = self.listed()[0];
                assert(self.listed().contains(first));
                assert(is_least(first, self@)) by {
                    assert forall|q: ExecutorIndex| self@.contains(q) implies first <= q by {
                        let k = choose|k: int|
                            0 <= k < self.listed().len() && self.listed()[k] == q;
                        if k > 0 {
                            assert(self.listed()[0] < self.listed()[k]);
                        }
                    }
                }
                let chosen = choose|p: ExecutorIndex| is_least(p, self@);
                assert(is_least(chosen, self@));
                assert(chosen <= first && first <= chosen);
            }
            Some(self.owners[0])
        }
    }

    /// Adds a member.
    pub fn insert(&mut self, owner: ExecutorIndex)
        requires
            old(self).wf(),
        ensures
            final(self).wf(),
            final(self)@ =~= old(self)@.insert(owner),
    {
        let ghost before = self.listed();
        let mut at: usize = 0;
        while at < self.owners.len() && self.owners[at] < owner
            invariant
                at <= self.owners.len(),
                self.listed() == before,
                forall|k: int| 0 <= k < at ==> before[k] < owner,
            decreases self.owners.len() - at,
        {
            at = at + 1;
        }
        if at < self.owners.len() && self.owners[at] == owner {
            proof {
                assert(before.contains(before[at as int]));
                assert(self@.contains(owner));
            }
            return;
        }
        self.owners.insert(at, owner);
        proof {
            let after = self.listed();
            assert(after =~= before.insert(at as int, owner));
            assert forall|p: ExecutorIndex| after.contains(p) <==> before.contains(p) || p
                == owner by {
                if after.contains(p) {
                    let m = choose|m: int| 0 <= m < after.len() && after[m] == p;
                    if m < at {
                        assert(before[m] == p);
                    } else if m > at {
                        assert(before[m - 1] == p);
                    }
                }
                if before.contains(p) {
                    let m = choose|m: int| 0 <= m < before.len() && before[m] == p;
                    if m < at {
                        assert(after[m] == p);
                    } else {
                        assert(after[m + 1] == p);
                    }
                }
                assert(after[at as int] == owner);
            }
        }
    }

    /// Removes a member.
    pub fn remove(&mut self, owner: ExecutorIndex)
        requires
            old(self).wf(),
        ensures
            final(self).wf(),
            final(self)@ =~= old(self)@.remove(owner),
    {
        let ghost before = self.listed();
        let mut at: usize = 0;
        while at < self.owners.len() && self.owners[at] != owner
            invariant
                at <= self.owners.len(),
                self.listed() == before,
                forall|k: int| 0 <= k < at ==> before[k] != owner,
            decreases self.owners.len() - at,
        {
            at = at + 1;
        }
        if at == self.owners.len() {
            return;
        }
        let _ = self.owners.remove(at);
        proof {
            let after = self.listed();
            assert(after =~= before.remove(at as int));
            assert forall|p: ExecutorIndex| after.contains(p) <==> before.contains(p) && p
                != owner by {
                if after.contains(p) {
                    let m = choose|m: int| 0 <= m < after.len() && after[m] == p;
                    if m < at {
                        assert(before[m] == p);
                    } else {
                        assert(before[m + 1] == p);
                        assert(before[at as int] < before[m + 1]);
                    }
                }
                if before.contains(p) && p != owner {
                    let m = choose|m: int| 0 <= m < before.len() && before[m] == p;
                    if m < at {
                        assert(after[m] == p);
                    } else {
                        assert(after[m - 1] == p);
                    }
                }
            }
        }
    }

    /// The set after a proxy has failed: see [`remapped`].
    fn remap(&self, failed: ExecutorIndex) -> (moved: Self)
        requires
            self.wf(),
            failed < PRIMARY_FETCH_SENTINEL,
        ensures
            moved.wf(),
            moved@ =~= remapped(self@, failed),
    {
        let mut owners: Vec<ExecutorIndex> = Vec::new();
        let mut failed_is_owner: bool = false;
        let mut i: usize = 0;
        while i < self.owners.len()
            invariant
                i <= self.owners.len(),
                self.wf(),
                failed < PRIMARY_FETCH_SENTINEL,
                failed_is_owner == self.listed().take(i as int).contains(failed),
                forall|p: ExecutorIndex|
                    owners@.contains(p) <==> exists|k: int|
                        0 <= k < i && moves_to(#[trigger] self.listed()[k], failed, p),
                forall|a: int, b: int|
                    0 <= a < b < owners@.len() ==> #[trigger] owners@[a] < #[trigger] owners@[b],
                forall|a: int, k: int|
                    0 <= a < owners@.len() && i <= k < self.listed().len() ==> (
                    #[trigger] owners@[a] < #[trigger] self.listed()[k]) && (
                    owners@[a] + 1 < self.listed()[k] || self.listed()[k] <= failed || self.listed()[k]
                        == PRIMARY_FETCH_SENTINEL),
            decreases self.owners.len() - i,
        {
            let owner: ExecutorIndex = self.owners[i];
            let ghost before = owners@;
            proof {
                let prefix = self.listed().take(i as int);
                let longer = self.listed().take(i + 1);
                assert(longer =~= prefix.push(owner));
                assert(longer.contains(failed) <==> prefix.contains(failed) || owner == failed) by {
                    assert(longer[i as int] == owner);
                    if prefix.contains(failed) {
                        let m = choose|m: int| 0 <= m < prefix.len() && prefix[m] == failed;
                        assert(longer[m] == failed);
                    }
                    if longer.contains(failed) && owner != failed {
                        let m = choose|m: int| 0 <= m < longer.len() && longer[m] == failed;
                        assert(prefix[m] == failed);
                    }
                }
            }
            if owner == failed {
                failed_is_owner = true;
            } else if owner > failed && owner != PRIMARY_FETCH_SENTINEL {
                owners.push(owner - 1);
            } else {
                owners.push(owner);
            }
            proof {
                let after = owners@;
                assert forall|p: ExecutorIndex|
                    after.contains(p) <==> exists|k: int|
                        0 <= k < i + 1 && moves_to(#[trigger] self.listed()[k], failed, p) by {
                    if after.contains(p) {
                        let m = choose|m: int| 0 <= m < after.len() && after[m] == p;
                        if m < before.len() {
                            assert(before[m] == p);
                            assert(before.contains(p));
                        } else {
                            assert(moves_to(self.listed()[i as int], failed, p));
                        }
                    }
                    if exists|k: int|
                        0 <= k < i + 1 && moves_to(#[trigger] self.listed()[k], failed, p) {
                        let k = choose|k: int|
                            0 <= k < i + 1 && moves_to(#[trigger] self.listed()[k], failed, p);
                        if k < i {
                            assert(before.contains(p));
                            let m = choose|m: int| 0 <= m < before.len() && before[m] == p;
                            assert(after[m] == p);
                        } else {
                            assert(after[after.len() - 1] == p);
                        }
                    }
                }
                assert forall|a: int, k: int|
                    0 <= a < after.len() && i + 1 <= k < self.listed().len() implies (
                #[trigger] after[a] < #[trigger] self.listed()[k]) && (after[a] + 1
                    < self.listed()[k] || self.listed()[k] <= failed || self.listed()[k]
                    == PRIMARY_FETCH_SENTINEL) by {
                    assert(self.listed()[i as int] < self.listed()[k]);
                    if a < before.len() {
                        assert(before[a] < self.listed()[i as int]);
                    }
                }
            }
            i = i + 1;
        }
        let moved = OwnerSet { owners };
        proof {
            assert(self.listed().take(i as int) =~= self.listed());
            assert forall|p: ExecutorIndex| moved@.contains(p) <==> kept(self@, failed).contains(
                p,
            ) by {
                if moved@.contains(p) {
                    let k = choose|k: int|
                        0 <= k < i && moves_to(#[trigger] self.listed()[k], failed, p);
                    assert(self@.contains(self.listed()[k]));
                }
                if kept(self@, failed).contains(p) {
                    let j = choose|j: ExecutorIndex| #[trigger]
                        self@.contains(j) && moves_to(j, failed, p);
                    let k = choose|k: int| 0 <= k < self.listed().len() && self.listed()[k] == j;
                    assert(moves_to(self.listed()[k], failed, p));
                }
            }
            assert(moved@ =~= kept(self@, failed));
        }
        if failed_is_owner && moved.owners.len() == 0 {
            let mut marked = OwnerSet::new();
            marked.insert(PRIMARY_FETCH_SENTINEL);
            proof {
                assert(kept(self@, failed) =~= Set::<ExecutorIndex>::empty());
            }
            marked
        } else {
            proof {
                if self@.contains(failed) {
                    assert(moved@.contains(moved.listed()[0]));
                }
            }
            moved
        }
    }
}

/// Whether a proxy index is the least of a set.
pub open spec fn is_least(p: ExecutorIndex, s: Set<ExecutorIndex>) -> bool {
    s.contains(p) && forall|q: ExecutorIndex| s.contains(q) ==> p <= q
}

/// The least of a set of proxy indices, if it has any.
pub open spec fn least_of(s: Set<ExecutorIndex>) -> Option<ExecutorIndex> {
    if s =~= Set::empty() {
        None
    } else {
        Some(choose|p: ExecutorIndex| is_least(p, s))
    }
}

/// A set with a proxy index has a least one.
pub proof fn lemma_least_exists(s: Set<ExecutorIndex>, p: ExecutorIndex)
    requires
        s.contains(p),
    ensures
        least_of(s) matches Some(least) && is_least(least, s),
    decreases p,
{
    if is_least(p, s) {
    } else {
        let q = choose|q: ExecutorIndex| s.contains(q) && !(p <= q);
        lemma_least_exists(s, q);
    }
}

/// Whether the proxy at index `from` has index `to` once the proxy at index
/// `failed` is gone. The mark for the primary is no proxy and stays.
pub open spec fn moves_to(from: ExecutorIndex, failed: ExecutorIndex, to: ExecutorIndex) -> bool {
    if from == failed {
        false
    } else if from > failed && from != PRIMARY_FETCH_SENTINEL {
        to == from - 1
    } else {
        to == from
    }
}

/// The owners that remain once the proxy at index `failed` is gone, each under
/// its new index.
pub open spec fn kept(owners: Set<ExecutorIndex>, failed: ExecutorIndex) -> Set<ExecutorIndex> {
    Set::new(
        |to: ExecutorIndex|
            exists|from: ExecutorIndex| #[trigger]
                owners.contains(from) && moves_to(from, failed, to),
    )
}

/// The owners of a state once the proxy at index `failed` is gone: those that
/// remain, or the primary where the failed proxy was the only one.
pub open spec fn remapped(owners: Set<ExecutorIndex>, failed: ExecutorIndex) -> Set<ExecutorIndex> {
    if owners.contains(failed) && kept(owners, failed) =~= Set::empty() {
        set![PRIMARY_FETCH_SENTINEL]
    } else {
        kept(owners, failed)
    }
}

/// The owners of each state.
pub struct StateOwnership {
    table: ConcurrentMap<StateKey, OwnerSet>,
}

impl View for StateOwnership {
    type V = Map<StateKey, Set<ExecutorIndex>>;

    closed spec fn view(&self) -> Map<StateKey, Set<ExecutorIndex>> {
        self.table@.map_values(|set: OwnerSet| set@)
    }
}

/// The owners of a state in a map of owners: none where the state is unknown.
pub open spec fn owners_in(
    m: Map<StateKey, Set<ExecutorIndex>>,
    key: StateKey,
) -> Set<ExecutorIndex> {
    if m.contains_key(key) {
        m[key]
    } else {
        Set::empty()
    }
}

impl StateOwnership {
    /// Every set of owners is kept in order.
    pub closed spec fn wf(&self) -> bool {
        forall|k: StateKey| #[trigger] self.table@.contains_key(k) ==> self.table@[k].wf()
    }

    /// No state is known.
    pub fn new() -> (ownership: Self)
        ensures
            ownership.wf(),
            ownership@ =~= Map::<StateKey, Set<ExecutorIndex>>::empty(),
    {
        StateOwnership { table: ConcurrentMap::new() }
    }

    /// The owners of a state, or `None` where the state is unknown.
    pub fn owners(&self, key: &StateKey) -> (owners: Option<OwnerSet>)
        requires
            self.wf(),
        ensures
            match owners {
                Some(set) => set.wf() && self@.contains_key(*key) && set@ == self@[*key],
                None => !self@.contains_key(*key),
            },
    {
        self.table.get(key)
    }

    /// Makes a set the owners of a state.
    fn put(&mut self, key: StateKey, set: OwnerSet)
        requires
            old(self).wf(),
            set.wf(),
        ensures
            final(self).wf(),
            final(self)@ =~= old(self)@.insert(key, set@),
    {
        let _ = self.table.insert(key, set);
    }

    /// Adds an owner of a state.
    pub fn add_owner(&mut self, key: StateKey, owner: ExecutorIndex)
        requires
            old(self).wf(),
        ensures
            final(self).wf(),
            final(self)@ =~= old(self)@.insert(key, owners_in(old(self)@, key).insert(owner)),
    {
        let mut set: OwnerSet = match self.owners(&key) {
            Some(set) => set,
            None => OwnerSet::new(),
        };
        set.insert(owner);
        self.put(key, set);
    }

    /// Removes an owner of a state; an unknown state stays unknown.
    pub fn remove_owner(&mut self, key: StateKey, owner: ExecutorIndex)
        requires
            old(self).wf(),
        ensures
            final(self).wf(),
            final(self)@ =~= (if old(self)@.contains_key(key) {
                old(self)@.insert(key, old(self)@[key].remove(owner))
            } else {
                old(self)@
            }),
    {
        if let Some(known) = self.owners(&key) {
            let mut set: OwnerSet = known;
            set.remove(owner);
            self.put(key, set);
        }
    }

    /// Makes a proxy the one owner of a state.
    pub fn set_sole_owner(&mut self, key: StateKey, owner: ExecutorIndex)
        requires
            old(self).wf(),
        ensures
            final(self).wf(),
            final(self)@ =~= old(self)@.insert(key, set![owner]),
    {
        let mut set: OwnerSet = OwnerSet::new();
        set.insert(owner);
        proof {
            assert(set@ =~= set![owner]);
        }
        self.put(key, set);
    }

    /// Accounts for the failure of the proxy at an index in the owners of every
    /// state: the proxy is removed, a state that it alone had is marked for
    /// fetching from the primary, and the indices above it move down by one.
    pub fn update_state_ownership_after_failure(&mut self, failed: ExecutorIndex)
        requires
            old(self).wf(),
            failed < PRIMARY_FETCH_SENTINEL,
        ensures
            final(self).wf(),
            final(self)@ =~= old(self)@.map_values(
                |owners: Set<ExecutorIndex>| remapped(owners, failed),
            ),
    {
        let ghost before = self@;
        let keys: Vec<StateKey> = self.table.keys();
        let ghost dom = self.table@.dom();
        proof {
            assert(before.dom() =~= dom);
        }
        let mut i: usize = 0;
        while i < keys.len()
            invariant
                i <= keys.len(),
                self.wf(),
                failed < PRIMARY_FETCH_SENTINEL,
                keys@.no_duplicates(),
                self@.dom() =~= before.dom(),
                forall|k: StateKey| keys@.contains(k) <==> before.contains_key(k),
                forall|m: int|
                    0 <= m < i ==> self@[#[trigger] keys@[m]] == remapped(before[keys@[m]], failed),
                forall|m: int| i <= m < keys@.len() ==> self@[#[trigger] keys@[m]] == before[keys@[m]],
            decreases keys.len() - i,
        {
            let key: StateKey = keys[i];
            proof {
                assert(keys@.contains(keys@[i as int]));
            }
            if let Some(set) = self.owners(&key) {
                let moved: OwnerSet = set.remap(failed);
                self.put(key, moved);
            }
            i = i + 1;
        }
        proof {
            assert forall|k: StateKey| before.contains_key(k) implies self@[k] == remapped(
                before[k],
                failed,
            ) by {
                assert(keys@.contains(k));
                let m = choose|m: int| 0 <= m < keys@.len() && keys@[m] == k;
                assert(self@[keys@[m]] == remapped(before[keys@[m]], failed));
            }
        }
    }
}

/// Once a proxy has failed it owns nothing: what owns a state is the primary
/// or a proxy that remains.
pub proof fn law_failed_proxy_owns_nothing(
    owners: Set<ExecutorIndex>,
    failed: ExecutorIndex,
    count: nat,
)
    requires
        failed < count <= PRIMARY_FETCH_SENTINEL,
        forall|p: ExecutorIndex|
            owners.contains(p) ==> p < count || p == PRIMARY_FETCH_SENTINEL,
    ensures
        forall|p: ExecutorIndex| #[trigger]
            remapped(owners, failed).contains(p) ==> p < count - 1 || p == PRIMARY_FETCH_SENTINEL,
{
    assert forall|p: ExecutorIndex| #[trigger] remapped(owners, failed).contains(p) implies p
        < count - 1 || p == PRIMARY_FETCH_SENTINEL by {
        if kept(owners, failed).contains(p) {
            let from = choose|from: ExecutorIndex| #[trigger]
                owners.contains(from) && moves_to(from, failed, p);
        }
    }
}

/// An index that no connected proxy has is still none's once a proxy has failed.
pub proof fn law_gone_owners_stay_gone(
    owners: Set<ExecutorIndex>,
    failed: ExecutorIndex,
    count: nat,
)
    requires
        failed < count,
        forall|p: ExecutorIndex| #[trigger] owners.contains(p) ==> p >= count,
    ensures
        forall|p: ExecutorIndex| #[trigger]
            remapped(owners, failed).contains(p) ==> p >= count - 1,
{
    assert forall|p: ExecutorIndex| #[trigger] remapped(owners, failed).contains(p) implies p
        >= count - 1 by {
        if kept(owners, failed).contains(p) {
            let from = choose|from: ExecutorIndex| #[trigger]
                owners.contains(from) && moves_to(from, failed, p);
        }
    }
}

/// A state that had an owner still has one after a failure.
pub proof fn law_no_state_is_orphaned(owners: Set<ExecutorIndex>, failed: ExecutorIndex)
    requires
        !(owners =~= Set::empty()),
        failed < PRIMARY_FETCH_SENTINEL,
    ensures
        !(remapped(owners, failed) =~= Set::empty()),
{
    let p = choose|p: ExecutorIndex| owners.contains(p);
    assert(owners.contains(p));
    if p != failed {
        let to = if p > failed && p != PRIMARY_FETCH_SENTINEL {
            (p - 1) as usize
        } else {
            p
        };
        assert(moves_to(p, failed, to));
        assert(kept(owners, failed).contains(to));
    } else if kept(owners, failed) =~= Set::empty() {
        assert(remapped(owners, failed).contains(PRIMARY_FETCH_SENTINEL));
    }
}

/// A state that only the primary has stays with the primary, however many
/// proxies fail.
pub proof fn law_primary_mark_is_stable(failed: ExecutorIndex)
    requires
        failed < PRIMARY_FETCH_SENTINEL,
    ensures
        remapped(set![PRIMARY_FETCH_SENTINEL], failed) =~= set![PRIMARY_FETCH_SENTINEL],
{
    let owners: Set<ExecutorIndex> = set![PRIMARY_FETCH_SENTINEL];
    assert forall|p: ExecutorIndex| kept(owners, failed).contains(p) <==> owners.contains(p) by {
        assert(owners.contains(PRIMARY_FETCH_SENTINEL));
        assert(moves_to(PRIMARY_FETCH_SENTINEL, failed, PRIMARY_FETCH_SENTINEL));
    }
    assert(kept(owners, failed) =~= owners);
}

/// The least of a set is in it, and nothing in it is less; an empty set has none.
pub proof fn law_least_is_below_all(s: Set<ExecutorIndex>, p: ExecutorIndex)
    ensures
        least_of(s) == Some(p) <==> s.contains(p) && forall|q: ExecutorIndex| #[trigger]
            s.contains(q) ==> p <= q,
        least_of(s) is None <==> forall|q: ExecutorIndex| !#[trigger] s.contains(q),
{
    if exists|q: ExecutorIndex| s.contains(q) {
        let q = choose|q: ExecutorIndex| s.contains(q);
        lemma_least_exists(s, q);
        if s.contains(p) && forall|q: ExecutorIndex| #[trigger] s.contains(q) ==> p <= q {
            let least = least_of(s)->0;
            assert(p <= least && least <= p);
        }
    } else {
        assert(s =~= Set::empty());
    }
}

/// Once a proxy has failed, those before it own what they owned under the
/// same index, those after it under one index less; the primary owns what it
/// owned and what the failed proxy alone had.
pub proof fn law_indices_close_up(
    owners: Set<ExecutorIndex>,
    failed: ExecutorIndex,
    p: ExecutorIndex,
)
    requires
        failed < PRIMARY_FETCH_SENTINEL,
    ensures
        p < failed ==> (remapped(owners, failed).contains(p) <==> owners.contains(p)),
        failed <= p && p + 1 < PRIMARY_FETCH_SENTINEL ==> (remapped(owners, failed).contains(p)
            <==> owners.contains((p + 1) as usize)),
        remapped(owners, failed).contains(PRIMARY_FETCH_SENTINEL) <==> owners.contains(
            PRIMARY_FETCH_SENTINEL,
        ) || owners =~= set![failed],
{
    let left = kept(owners, failed);
    if owners.contains(p) && p < failed {
        assert(moves_to(p, failed, p));
        assert(left.contains(p));
    }
    if failed <= p && p + 1 < PRIMARY_FETCH_SENTINEL && owners.contains((p + 1) as usize) {
        assert(moves_to((p + 1) as usize, failed, p));
        assert(left.contains(p));
    }
    if left.contains(p) {
        let from = choose|from: ExecutorIndex| #[trigger]
            owners.contains(from) && moves_to(from, failed, p);
        assert(from == p || from == p + 1);
    }
    if owners.contains(PRIMARY_FETCH_SENTINEL) {
        assert(moves_to(PRIMARY_FETCH_SENTINEL, failed, PRIMARY_FETCH_SENTINEL));
        assert(left.contains(PRIMARY_FETCH_SENTINEL));
    }
    if owners =~= set![failed] {
        assert(left =~= Set::empty()) by {
            assert forall|to: ExecutorIndex| !left.contains(to) by {
                if left.contains(to) {
                    let from = choose|from: ExecutorIndex| #[trigger]
                        owners.contains(from) && moves_to(from, failed, to);
                }
            }
        }
        assert(owners.contains(failed));
    }
    if left.contains(PRIMARY_FETCH_SENTINEL) {
        let from = choose|from: ExecutorIndex| #[trigger]
            owners.contains(from) && moves_to(from, failed, PRIMARY_FETCH_SENTINEL);
    }
    if owners.contains(failed) && left =~= Set::empty() {
        assert forall|q: ExecutorIndex| owners.contains(q) implies q == failed by {
            if q != failed {
                let to = if q > failed && q != PRIMARY_FETCH_SENTINEL {
                    (q - 1) as usize
                } else {
                    q
                };
                assert(moves_to(q, failed, to));
                assert(left.contains(to));
            }
        }
    }
}

} // verus!
