//! Snapshots of the proxies, and the state that all of them have acknowledged.
use vstd::prelude::*;

use crate::base_types::{Object, ObjectID, ProxyId, SequenceNumber};
use crate::checkpoint::{EpochId, EpochObjectStates};
use crate::tables::ConcurrentMap;

verus! {

/// What a collector knows.
#[verifier::ext_equal]
pub struct CollectorState {
    /// The objects that all proxies have acknowledged.
    pub merged: Map<ObjectID, Object>,
    /// What each proxy has reported for each epoch that is not committed.
    pub pending: Map<u64, Map<(ProxyId, ObjectID), Object>>,
    /// The last epoch that each proxy has reported.
    pub persisted: Map<ProxyId, u64>,
    /// The number of proxies that an epoch waits for, where nothing else is said.
    pub expected: usize,
    /// The number of proxies that an epoch waits for.
    pub expected_at: Map<u64, usize>,
    /// The last committed epoch.
    pub committed: u64,
}

impl CollectorState {
    /// The number of proxies that an epoch waits for.
    pub open spec fn expected_for(self, epoch: u64) -> usize {
        if self.expected_at.contains_key(epoch) {
            self.expected_at[epoch]
        } else {
            self.expected
        }
    }

    /// Whether enough proxies have reported, and all that have, have reported
    /// the epoch or a later one.
    pub open spec fn complete(self, epoch: u64) -> bool {
        &&& self.persisted.dom().len() >= self.expected_for(epoch)
        &&& self.persisted.dom() =~= Set::empty() ==> epoch == 0
        &&& forall|p: ProxyId| #[trigger]
            self.persisted.contains_key(p) ==> self.persisted[p] >= epoch
    }

    /// Whether a report for the epoch comes too late.
    pub open spec fn is_stale(self, epoch: u64) -> bool {
        0 < epoch <= self.committed
    }

    /// The last epoch that a proxy has reported, and 0 where it has reported none.
    pub open spec fn persisted_by(self, proxy: ProxyId) -> u64 {
        if self.persisted.contains_key(proxy) {
            self.persisted[proxy]
        } else {
            0
        }
    }

    /// What is known once a proxy has reported a snapshot.
    pub open spec fn received(
        self,
        proxy: ProxyId,
        completed_up_to: u64,
        snapshot: Map<ObjectID, Object>,
    ) -> Self {
        let pending = if completed_up_to == 0 || self.is_stale(completed_up_to) {
            self.pending
        } else {
            self.pending.insert(
                completed_up_to,
                overlay(pending_at(self.pending, completed_up_to), proxy, snapshot),
            )
        };
        let index = if self.persisted_by(proxy) > completed_up_to {
            self.persisted_by(proxy)
        } else {
            completed_up_to
        };
        CollectorState { pending, persisted: self.persisted.insert(proxy, index), ..self }
    }

    /// Whether the epoch that follows the last committed one, if there is one,
    /// is committed next.
    pub open spec fn ready(self) -> bool {
        &&& self.committed < u64::MAX
        &&& self.complete((self.committed + 1) as u64)
        &&& self.pending.contains_key((self.committed + 1) as u64)
    }

    /// Whether `next` follows from committing the next epoch.
    pub open spec fn commits_to(self, next: Self) -> bool {
        let epoch = (self.committed + 1) as u64;
        &&& self.ready()
        &&& absorbed(self.merged, self.pending[epoch], next.merged)
        &&& next.pending =~= self.pending.remove(epoch)
        &&& next.committed == epoch
        &&& next.persisted == self.persisted
        &&& next.expected == self.expected
        &&& next.expected_at == self.expected_at
    }

    /// Whether `last` follows from committing the next `n` epochs, one by one.
    pub open spec fn advances_to(self, last: Self, n: nat) -> bool
        decreases n,
    {
        if n == 0 {
            last == self
        } else {
            exists|before: Self|
                self.advances_to(before, (n - 1) as nat) && #[trigger] before.commits_to(last)
        }
    }
}

/// What the proxies have reported for an epoch.
pub open spec fn pending_at(
    pending: Map<u64, Map<(ProxyId, ObjectID), Object>>,
    epoch: u64,
) -> Map<(ProxyId, ObjectID), Object> {
    if pending.contains_key(epoch) {
        pending[epoch]
    } else {
        Map::empty()
    }
}

/// The reports of an epoch with a snapshot of one proxy laid over them.
pub open spec fn overlay(
    reports: Map<(ProxyId, ObjectID), Object>,
    proxy: ProxyId,
    snapshot: Map<ObjectID, Object>,
) -> Map<(ProxyId, ObjectID), Object> {
    Map::new(
        |k: (ProxyId, ObjectID)|
            reports.contains_key(k) || (k.0 == proxy && snapshot.contains_key(k.1)),
        |k: (ProxyId, ObjectID)|
            if k.0 == proxy && snapshot.contains_key(k.1) {
                snapshot[k.1]
            } else {
                reports[k]
            },
    )
}

/// Whether a proxy has reported the object.
pub open spec fn reported(reports: Map<(ProxyId, ObjectID), Object>, id: ObjectID) -> bool {
    exists|p: ProxyId| #[trigger] reports.contains_key((p, id))
}

/// Whether some proxy has reported the object in this very state.
pub open spec fn reported_as(
    reports: Map<(ProxyId, ObjectID), Object>,
    id: ObjectID,
    object: Object,
) -> bool {
    exists|p: ProxyId| #[trigger] reports.contains_key((p, id)) && reports[(p, id)] == object
}

/// Whether `after` is `before` with the newest reported state of every object,
/// as far as that is newer than what was there.
///
/// Among reports of one object with the same version, it is left open which
/// one is taken.
pub open spec fn absorbed(
    before: Map<ObjectID, Object>,
    reports: Map<(ProxyId, ObjectID), Object>,
    after: Map<ObjectID, Object>,
) -> bool {
    &&& forall|id: ObjectID| #[trigger]
        after.contains_key(id) <==> before.contains_key(id) || reported(reports, id)
    &&& forall|id: ObjectID| #[trigger]
        after.contains_key(id) ==> {
            ||| before.contains_key(id) && after[id] == before[id]
            ||| reported_as(reports, id, after[id]) && (before.contains_key(id)
                ==> before[id].version < after[id].version)
        }
    &&& forall|p: ProxyId, id: ObjectID| #[trigger]
        reports.contains_key((p, id)) ==> reports[(p, id)].version <= after[id].version
}

/// Objects with each state of a snapshot in place of an older one.
pub open spec fn with_newer(
    merged: Map<ObjectID, Object>,
    snapshot: Map<ObjectID, Object>,
) -> Map<ObjectID, Object> {
    Map::new(
        |id: ObjectID| merged.contains_key(id) || snapshot.contains_key(id),
        |id: ObjectID|
            if snapshot.contains_key(id) && (merged.contains_key(id) ==> merged[id].version
                < snapshot[id].version) {
                snapshot[id]
            } else {
                merged[id]
            },
    )
}

/// The objects that all proxies have acknowledged, and the snapshots that
/// wait for the rest of the proxies.
pub struct StateCollector {
    merged_state: ConcurrentMap<ObjectID, Object>,
    temp_state_by_epoch: ConcurrentMap<u64, ConcurrentMap<(ProxyId, ObjectID), Object>>,
    per_proxy_persist_index: ConcurrentMap<ProxyId, u64>,
    expected_proxies: usize,
    expected_proxies_per_epoch: ConcurrentMap<u64, usize>,
    last_committed_epoch: u64,
}

impl View for StateCollector {
    type V = CollectorState;

    closed spec fn view(&self) -> CollectorState {
        CollectorState {
            merged: self.merged_state@,
            pending: self.temp_state_by_epoch@.map_values(
                |m: ConcurrentMap<(ProxyId, ObjectID), Object>| m@,
            ),
            persisted: self.per_proxy_persist_index@,
            expected: self.expected_proxies,
            expected_at: self.expected_proxies_per_epoch@,
            committed: self.last_committed_epoch,
        }
    }
}

impl StateCollector {
    /// There are finitely many entries.
    pub open spec fn wf(&self) -> bool {
        &&& self@.merged.dom().finite()
        &&& self@.pending.dom().finite()
        &&& self@.persisted.dom().finite()
    }

    /// A collector that knows nothing and waits for a number of proxies.
    pub fn new(expected_proxies: usize) -> (collector: Self)
        ensures
            collector.wf(),
            collector@ =~= (CollectorState {
                merged: Map::empty(),
                pending: Map::empty(),
                persisted: Map::empty(),
                expected: expected_proxies,
                expected_at: Map::empty(),
                committed: 0,
            }),
    {
        StateCollector {
            merged_state: ConcurrentMap::new(),
            temp_state_by_epoch: ConcurrentMap::new(),
            per_proxy_persist_index: ConcurrentMap::new(),
            expected_proxies,
            expected_proxies_per_epoch: ConcurrentMap::new(),
            last_committed_epoch: 0,
        }
    }

    /// Takes in a snapshot of a proxy that has completed all epochs up to one,
    /// then commits, in order, every epoch that this completes.
    ///
    /// The snapshot is kept for its epoch until all proxies have reported that
    /// epoch; one for a committed epoch is dropped. The epochs that were
    /// committed are handed back.
    pub fn process_snapshot(
        &mut self,
        proxy_id: ProxyId,
        completed_up_to: u64,
        snapshot: &EpochObjectStates,
    ) -> (committed: Vec<EpochId>)
        requires
            old(self).wf(),
            snapshot.wf(),
        ensures
            final(self).wf(),
            old(self)@.received(proxy_id, completed_up_to, snapshot@).advances_to(
                final(self)@,
                committed@.len(),
            ),
            !final(self)@.ready(),
            final(self)@.committed == old(self)@.committed + committed@.len(),
            forall|i: int|
                0 <= i < committed@.len() ==> (#[trigger] committed@[i]).0 == old(self)@.committed
                    + 1 + i,
    {
        self.receive(proxy_id, completed_up_to, snapshot);
        let ghost received = self@;
        let mut committed: Vec<EpochId> = Vec::new();
        loop
            invariant
                self.wf(),
                received.advances_to(self@, committed@.len()),
                received.committed == old(self)@.committed,
                self@.committed == received.committed + committed@.len(),
                forall|i: int|
                    0 <= i < committed@.len() ==> (#[trigger] committed@[i]).0 == received.committed
                        + 1 + i,
            ensures
                !self@.ready(),
            decreases self@.pending.dom().len(),
        {
            let current: u64 = self.last_committed_epoch;
            if current == u64::MAX {
                break;
            }
            let next: EpochId = EpochId(current + 1);
            if !self.is_epoch_complete(next) {
                break;
            }
            let ghost before = self@;
            if !self.commit_epoch(next, current) {
                break;
            }
            proof {
                assert(before.commits_to(self@));
                assert(received.advances_to(before, committed@.len()));
                assert(committed@.push(next).len() - 1 == committed@.len());
            }
            committed.push(next);
        }
        committed
    }

    /// Keeps a snapshot for its epoch and notes how far its proxy has come.
    fn receive(&mut self, proxy_id: ProxyId, completed_up_to: u64, snapshot: &EpochObjectStates)
        requires
            old(self).wf(),
            snapshot.wf(),
        ensures
            final(self).wf(),
            final(self)@ =~= old(self)@.received(proxy_id, completed_up_to, snapshot@),
    {
        let ghost before = self@;
        let is_stale: bool = completed_up_to > 0 && completed_up_to <= self.last_committed_epoch;
        if !is_stale && completed_up_to > 0 {
            let mut reports: ConcurrentMap<(ProxyId, ObjectID), Object> =
                match self.temp_state_by_epoch.remove(&completed_up_to) {
                Some(known) => known,
                None => ConcurrentMap::new(),
            };
            let ghost known = reports@;
            proof {
                assert(known =~= pending_at(before.pending, completed_up_to));
                assert(reports@ =~= overlay(
                    known,
                    proxy_id,
                    crate::ordered_map::entries_map(snapshot.sorted().take(0)),
                ));
            }
            let mut i: usize = 0;
            while i < snapshot.len()
                invariant
                    i <= snapshot.sorted().len(),
                    snapshot.wf(),
                    reports@ =~= overlay(
                        known,
                        proxy_id,
                        crate::ordered_map::entries_map(snapshot.sorted().take(i as int)),
                    ),
                decreases snapshot.sorted().len() - i,
            {
                proof {
                    crate::ordered_map::lemma_take_next(snapshot.sorted(), i as int);
                }
                let entry = snapshot.entry_at(i);
                let _ = reports.insert((proxy_id, entry.0), entry.1.clone());
                i = i + 1;
            }
            proof {
                crate::ordered_map::lemma_whole(snapshot.sorted());
            }
            let _ = self.temp_state_by_epoch.insert(completed_up_to, reports);
        }
        proof {
            assert(self@.pending =~= before.received(proxy_id, completed_up_to, snapshot@).pending);
            assert(self@.pending.dom().finite());
        }
        let known: u64 = self.get_proxy_persist_index(proxy_id);
        let index: u64 = if known > completed_up_to {
            known
        } else {
            completed_up_to
        };
        let _ = self.per_proxy_persist_index.insert(proxy_id, index);
    }

    /// Moves the snapshots of an epoch to the acknowledged state, each object
    /// in the newest version that was reported, unless what is there is as new.
    ///
    /// Nothing happens where the epoch has no snapshots. The last committed
    /// epoch moves on only from the one that the caller has seen.
    pub fn commit_epoch(&mut self, epoch: EpochId, current_last_committed: u64) -> (found: bool)
        requires
            old(self).wf(),
        ensures
            final(self).wf(),
            found == old(self)@.pending.contains_key(epoch.0),
            !found ==> final(self)@ =~= old(self)@,
            found ==> {
                &&& absorbed(old(self)@.merged, old(self)@.pending[epoch.0], final(self)@.merged)
                &&& final(self)@.pending =~= old(self)@.pending.remove(epoch.0)
                &&& final(self)@.committed == (if old(self)@.committed == current_last_committed {
                    epoch.0
                } else {
                    old(self)@.committed
                })
                &&& final(self)@.persisted =~= old(self)@.persisted
                &&& final(self)@.expected == old(self)@.expected
                &&& final(self)@.expected_at =~= old(self)@.expected_at
            },
    {
        let ghost before = self@;
        match self.temp_state_by_epoch.remove(&epoch.0) {
            Some(reports) => {
                proof {
                    assert(before.pending.contains_key(epoch.0));
                    assert(before.pending[epoch.0] == reports@);
                    assert(self@.pending =~= before.pending.remove(epoch.0));
                }
                self.absorb(&reports);
                if self.last_committed_epoch == current_last_committed {
                    self.last_committed_epoch = epoch.0;
                }
                true
            },
            None => {
                proof {
                    assert(self@.pending =~= before.pending);
                }
                false
            },
        }
    }

    /// Takes the reports of an epoch into the acknowledged state.
    fn absorb(&mut self, reports: &ConcurrentMap<(ProxyId, ObjectID), Object>)
        requires
            old(self).wf(),
        ensures
            final(self).wf(),
            absorbed(old(self)@.merged, reports@, final(self)@.merged),
            final(self)@.pending =~= old(self)@.pending,
            final(self)@.committed == old(self)@.committed,
            final(self)@.persisted =~= old(self)@.persisted,
            final(self)@.expected == old(self)@.expected,
            final(self)@.expected_at =~= old(self)@.expected_at,
    {
        let ghost before = self@;
        let keys: Vec<(ProxyId, ObjectID)> = reports.keys();
        let ghost mut taken: Map<(ProxyId, ObjectID), Object> = Map::empty();
        let mut i: usize = 0;
        while i < keys.len()
            invariant
                i <= keys.len(),
                self.wf(),
                forall|k: (ProxyId, ObjectID)| keys@.contains(k) <==> reports@.contains_key(k),
                forall|k: (ProxyId, ObjectID)| #[trigger]
                    taken.contains_key(k) <==> keys@.take(i as int).contains(k),
                forall|k: (ProxyId, ObjectID)| #[trigger]
                    taken.contains_key(k) ==> taken[k] == reports@[k],
                absorbed(before.merged, taken, self@.merged),
                self@.pending =~= before.pending,
                self@.committed == before.committed,
                self@.persisted =~= before.persisted,
                self@.expected == before.expected,
                self@.expected_at =~= before.expected_at,
            decreases keys.len() - i,
        {
            let key: (ProxyId, ObjectID) = keys[i];
            proof {
                assert(keys@.contains(keys@[i as int]));
                lemma_take_contains(keys@, i as int);
            }
            if let Some(object) = reports.get(&key) {
                let id: ObjectID = key.1;
                let newer: bool = match self.get_persisted_version(&id) {
                    Some(version) => version < object.version,
                    None => true,
                };
                proof {
                    lemma_absorb_one(before.merged, taken, self@.merged, key, object);
                    taken = taken.insert(key, object);
                }
                if newer {
                    let _ = self.merged_state.insert(id, object);
                }
            }
            i = i + 1;
        }
        proof {
            assert(keys@.take(i as int) =~= keys@);
            assert(taken =~= reports@);
        }
    }

    /// Takes the last snapshot of a retiring proxy into the acknowledged
    /// state, each object only where it is newer than what is there.
    pub fn merge_retirement_snapshot(&mut self, snapshot: &EpochObjectStates)
        requires
            old(self).wf(),
            snapshot.wf(),
        ensures
            final(self).wf(),
            final(self)@ =~= (CollectorState {
                merged: with_newer(old(self)@.merged, snapshot@),
                ..old(self)@
            }),
    {
        let ghost before = self@;
        proof {
            assert(before.merged =~= with_newer(
                before.merged,
                crate::ordered_map::entries_map(snapshot.sorted().take(0)),
            ));
        }
        let mut i: usize = 0;
        while i < snapshot.len()
            invariant
                i <= snapshot.sorted().len(),
                snapshot.wf(),
                self.wf(),
                self@ =~= (CollectorState {
                    merged: with_newer(
                        before.merged,
                        crate::ordered_map::entries_map(snapshot.sorted().take(i as int)),
                    ),
                    ..before
                }),
            decreases snapshot.sorted().len() - i,
        {
            proof {
                crate::ordered_map::lemma_take_next(snapshot.sorted(), i as int);
            }
            let entry = snapshot.entry_at(i);
            let newer: bool = match self.get_persisted_version(&entry.0) {
                Some(version) => version < entry.1.version,
                None => true,
            };
            if newer {
                let _ = self.merged_state.insert(entry.0, entry.1.clone());
            }
            i = i + 1;
        }
        proof {
            crate::ordered_map::lemma_whole(snapshot.sorted());
        }
    }

    /// The acknowledged state of an object.
    pub fn get_object(&self, object_id: &ObjectID) -> (object: Option<Object>)
        ensures
            object == self@.merged.get(*object_id),
    {
        self.merged_state.get(object_id)
    }

    /// The acknowledged version of an object.
    pub fn get_persisted_version(&self, object_id: &ObjectID) -> (version: Option<SequenceNumber>)
        ensures
            match version {
                Some(v) => self@.merged.contains_key(*object_id) && v
                    == self@.merged[*object_id].version,
                None => !self@.merged.contains_key(*object_id),
            },
    {
        match self.merged_state.get(object_id) {
            Some(object) => Some(object.version),
            None => None,
        }
    }

    /// The number of acknowledged objects.
    pub fn merged_state_len(&self) -> (count: usize)
        ensures
            count == self@.merged.dom().len(),
    {
        self.merged_state.len()
    }

    /// Whether the epoch has snapshots that wait to be committed.
    pub fn is_epoch_pending(&self, epoch: EpochId) -> (pending: bool)
        ensures
            pending == self@.pending.contains_key(epoch.0),
    {
        self.temp_state_by_epoch.contains_key(&epoch.0)
    }

    /// The number of epochs that have snapshots waiting to be committed.
    pub fn pending_epochs(&self) -> (count: usize)
        ensures
            count == self@.pending.dom().len(),
    {
        proof {
            assert(self@.pending.dom() =~= self.temp_state_by_epoch@.dom());
        }
        self.temp_state_by_epoch.len()
    }

    /// The number of proxies whose progress is tracked.
    pub fn tracked_proxies(&self) -> (count: usize)
        ensures
            count == self@.persisted.dom().len(),
    {
        self.per_proxy_persist_index.len()
    }

    /// Whether all proxies that the epoch waits for have reported, and none
    /// that has reported lags behind the epoch.
    pub fn is_epoch_complete(&self, epoch: EpochId) -> (complete: bool)
        ensures
            complete == self@.complete(epoch.0),
    {
        let expected: usize = self.get_expected_proxies_for_epoch(epoch);
        if self.per_proxy_persist_index.len() < expected {
            return false;
        }
        let proxies: Vec<ProxyId> = self.per_proxy_persist_index.keys();
        let mut lowest: Option<u64> = None;
        let mut i: usize = 0;
        while i < proxies.len()
            invariant
                i <= proxies.len(),
                forall|p: ProxyId| proxies@.contains(p) <==> self@.persisted.contains_key(p),
                (lowest is None) == (i == 0),
                lowest matches Some(low) ==> {
                    &&& forall|k: int|
                        0 <= k < i ==> low <= self@.persisted[#[trigger] proxies@[k]]
                    &&& exists|k: int|
                        0 <= k < i && low == self@.persisted[#[trigger] proxies@[k]]
                },
            decreases proxies.len() - i,
        {
            proof {
                assert(proxies@.contains(proxies@[i as int]));
            }
            if let Some(index) = self.per_proxy_persist_index.get(&proxies[i]) {
                proof {
                    assert(index == self@.persisted[proxies@[i as int]]);
                }
                lowest = match lowest {
                    Some(low) => Some(
                        if low <= index {
                            low
                        } else {
                            index
                        },
                    ),
                    None => Some(index),
                };
            }
            i = i + 1;
        }
        let min_persist_index: u64 = match lowest {
            Some(low) => low,
            None => 0,
        };
        proof {
            if proxies@.len() == 0 {
                assert forall|p: ProxyId| !self@.persisted.contains_key(p) by {
                    assert(!proxies@.contains(p));
                }
                assert(self@.persisted.dom() =~= Set::empty());
            } else {
                assert(proxies@.contains(proxies@[0]));
                assert(self@.persisted.dom().contains(proxies@[0]));
                assert forall|p: ProxyId| #[trigger]
                    self@.persisted.contains_key(p) implies min_persist_index
                    <= self@.persisted[p] by {
                    assert(proxies@.contains(p));
                    let k = choose|k: int| 0 <= k < proxies@.len() && proxies@[k] == p;
                    assert(lowest->Some_0 <= self@.persisted[proxies@[k]]);
                }
                let k = choose|k: int|
                    0 <= k < i && lowest->Some_0 == self@.persisted[#[trigger] proxies@[k]];
                assert(proxies@.contains(proxies@[k]));
                assert(self@.persisted.contains_key(proxies@[k]));
            }
        }
        min_persist_index >= epoch.0
    }

    /// The last committed epoch: all before it are persisted, and what comes
    /// after it has to run again when a proxy fails.
    pub fn get_persist_index(&self) -> (epoch: u64)
        ensures
            epoch == self@.committed,
    {
        self.last_committed_epoch
    }

    /// The last epoch that a proxy has reported, and 0 where it has reported none.
    pub fn get_proxy_persist_index(&self, proxy_id: ProxyId) -> (epoch: u64)
        ensures
            epoch == self@.persisted_by(proxy_id),
    {
        match self.per_proxy_persist_index.get(&proxy_id) {
            Some(index) => index,
            None => 0,
        }
    }

    /// Sets the number of proxies that an epoch waits for.
    pub fn set_expected_proxies_for_epoch(&mut self, epoch: EpochId, count: usize)
        requires
            old(self).wf(),
        ensures
            final(self).wf(),
            final(self)@ =~= (CollectorState {
                expected_at: old(self)@.expected_at.insert(epoch.0, count),
                ..old(self)@
            }),
    {
        let _ = self.expected_proxies_per_epoch.insert(epoch.0, count);
    }

    /// The number of proxies that an epoch waits for.
    pub fn get_expected_proxies_for_epoch(&self, epoch: EpochId) -> (count: usize)
        ensures
            count == self@.expected_for(epoch.0),
    {
        match self.expected_proxies_per_epoch.get(&epoch.0) {
            Some(count) => count,
            None => self.expected_proxies,
        }
    }

    /// Forgets the numbers of proxies that epochs 1 to `epoch` waited for.
    pub fn cleanup_expected_proxies_up_to(&mut self, epoch: EpochId)
        requires
            old(self).wf(),
        ensures
            final(self).wf(),
            final(self)@ =~= (CollectorState {
                expected_at: old(self)@.expected_at.remove_keys(
                    Set::new(|e: u64| 1 <= e <= epoch.0),
                ),
                ..old(self)@
            }),
    {
        let ghost before = self@;
        let mut done: u64 = 0;
        while done < epoch.0
            invariant
                done <= epoch.0,
                self.wf(),
                self@ =~= (CollectorState {
                    expected_at: before.expected_at.remove_keys(
                        Set::new(|e: u64| 1 <= e <= done),
                    ),
                    ..before
                }),
            decreases epoch.0 - done,
        {
            done = done + 1;
            let _ = self.expected_proxies_per_epoch.remove(&done);
        }
    }

    /// Stops tracking the progress of a proxy, so that no epoch waits for it.
    pub fn remove_proxy_persist_index(&mut self, proxy_id: ProxyId)
        requires
            old(self).wf(),
        ensures
            final(self).wf(),
            final(self)@ =~= (CollectorState {
                persisted: old(self)@.persisted.remove(proxy_id),
                ..old(self)@
            }),
    {
        let _ = self.per_proxy_persist_index.remove(&proxy_id);
    }
}

pub proof fn lemma_take_contains<A>(s: Seq<A>, i: int)
    requires
        0 <= i < s.len(),
    ensures
        forall|a: A| #[trigger] s.take(i + 1).contains(a) <==> s.take(i).contains(a) || a == s[i],
{
    let shorter = s.take(i);
    let longer = s.take(i + 1);
    assert forall|a: A| #[trigger] longer.contains(a) <==> shorter.contains(a) || a == s[i] by {
        if longer.contains(a) {
            let k = choose|k: int| 0 <= k < longer.len() && longer[k] == a;
            if k < i {
                assert(shorter[k] == a);
            }
        }
        if shorter.contains(a) {
            let k = choose|k: int| 0 <= k < shorter.len() && shorter[k] == a;
            assert(longer[k] == a);
        }
        assert(longer[i] == s[i]);
    }
}

/// Taking one more report, or leaving it where what is there is as new.
proof fn lemma_absorb_one(
    before: Map<ObjectID, Object>,
    reports: Map<(ProxyId, ObjectID), Object>,
    after: Map<ObjectID, Object>,
    key: (ProxyId, ObjectID),
    object: Object,
)
    requires
        absorbed(before, reports, after),
        !reports.contains_key(key) || reports[key] == object,
    ensures
        (!after.contains_key(key.1) || after[key.1].version < object.version) ==> absorbed(
            before,
            reports.insert(key, object),
            after.insert(key.1, object),
        ),
        (after.contains_key(key.1) && after[key.1].version >= object.version) ==> absorbed(
            before,
            reports.insert(key, object),
            after,
        ),
{
    let more = reports.insert(key, object);
    let id = key.1;
    assert(key == (key.0, key.1));
    assert(more.contains_key((key.0, id)));
    assert(reported(more, id));
    assert forall|o: ObjectID| reported(more, o) <==> reported(reports, o) || o == id by {
        if reported(more, o) {
            let p = choose|p: ProxyId| #[trigger] more.contains_key((p, o));
            if o != id {
                assert(reports.contains_key((p, o)));
            }
        }
        if reported(reports, o) {
            let p = choose|p: ProxyId| #[trigger] reports.contains_key((p, o));
            assert(more.contains_key((p, o)));
        }
    }
    assert forall|o: ObjectID, x: Object| reported_as(reports, o, x) implies reported_as(
        more,
        o,
        x,
    ) by {
        let p = choose|p: ProxyId| #[trigger]
            reports.contains_key((p, o)) && reports[(p, o)] == x;
        assert(more.contains_key((p, o)) && more[(p, o)] == x);
    }
    if !after.contains_key(id) || after[id].version < object.version {
        let next = after.insert(id, object);
        assert(more.contains_key((key.0, id)) && more[(key.0, id)] == object);
        assert(reported_as(more, id, object));
        assert forall|o: ObjectID| #[trigger] next.contains_key(o) implies {
            ||| before.contains_key(o) && next[o] == before[o]
            ||| reported_as(more, o, next[o]) && (before.contains_key(o) ==> before[o].version
                < next[o].version)
        } by {
            if o != id {
                assert(after.contains_key(o));
            } else if before.contains_key(id) {
                assert(after.contains_key(id));
            }
        }
        assert forall|p: ProxyId, o: ObjectID| #[trigger]
            more.contains_key((p, o)) implies more[(p, o)].version <= next[o].version by {
            if (p, o) != key {
                assert(reports.contains_key((p, o)));
                assert(reported(reports, o));
                assert(after.contains_key(o));
            }
        }
        assert(absorbed(before, more, next));
    } else {
        assert forall|o: ObjectID| #[trigger] after.contains_key(o) implies {
            ||| before.contains_key(o) && after[o] == before[o]
            ||| reported_as(more, o, after[o]) && (before.contains_key(o) ==> before[o].version
                < after[o].version)
        } by {}
        assert(absorbed(before, more, after));
    }
}

/// Committing an epoch never lets an object fall back to an older version, and
/// never loses one.
pub proof fn law_commit_keeps_objects_current(
    before: Map<ObjectID, Object>,
    reports: Map<(ProxyId, ObjectID), Object>,
    after: Map<ObjectID, Object>,
)
    requires
        absorbed(before, reports, after),
    ensures
        forall|id: ObjectID| #[trigger]
            before.contains_key(id) ==> after.contains_key(id) && before[id].version
                <= after[id].version,
{
    assert forall|id: ObjectID| #[trigger] before.contains_key(id) implies after.contains_key(id)
        && before[id].version <= after[id].version by {
        assert(after.contains_key(id));
    }
}

/// The transfer from a retiring proxy goes by versions: of what is there and
/// what comes in, the newer one stays, and nothing is lost.
pub proof fn law_retirement_transfer_is_versioned(
    merged: Map<ObjectID, Object>,
    snapshot: Map<ObjectID, Object>,
    id: ObjectID,
)
    requires
        merged.contains_key(id) || snapshot.contains_key(id),
    ensures
        with_newer(merged, snapshot).contains_key(id),
        merged.contains_key(id) ==> merged[id].version <= with_newer(merged, snapshot)[id].version,
        snapshot.contains_key(id) ==> snapshot[id].version <= with_newer(
            merged,
            snapshot,
        )[id].version,
        merged.contains_key(id) && (snapshot.contains_key(id) ==> snapshot[id].version
            <= merged[id].version) ==> with_newer(merged, snapshot)[id] == merged[id],
{
}

/// However many epochs a snapshot commits, no acknowledged object is lost or
/// falls back to an older version, and every epoch that is committed was
/// complete: all proxies that it waits for had reported it.
pub proof fn law_only_complete_epochs_are_committed(
    start: CollectorState,
    end: CollectorState,
    n: nat,
)
    requires
        start.advances_to(end, n),
    ensures
        end.committed == start.committed + n,
        end.persisted == start.persisted,
        forall|epoch: u64|
            start.committed < epoch <= end.committed ==> #[trigger] start.complete(epoch),
        forall|id: ObjectID| #[trigger]
            start.merged.contains_key(id) ==> end.merged.contains_key(id)
                && start.merged[id].version <= end.merged[id].version,
    decreases n,
{
    if n > 0 {
        let before = choose|before: CollectorState|
            start.advances_to(before, (n - 1) as nat) && #[trigger] before.commits_to(end);
        law_only_complete_epochs_are_committed(start, before, (n - 1) as nat);
        let epoch = (before.committed + 1) as u64;
        law_commit_keeps_objects_current(before.merged, before.pending[epoch], end.merged);
        lemma_expectations_kept(start, before, (n - 1) as nat);
        assert forall|e: u64| start.committed < e <= end.committed implies #[trigger] start.complete(
            e,
        ) by {
            if e == epoch {
                assert(before.complete(epoch));
            }
        }
        assert forall|id: ObjectID| #[trigger] start.merged.contains_key(id) implies
            end.merged.contains_key(id) && start.merged[id].version
            <= end.merged[id].version by {
            assert(before.merged.contains_key(id));
        }
    }
}

proof fn lemma_expectations_kept(start: CollectorState, end: CollectorState, n: nat)
    requires
        start.advances_to(end, n),
    ensures
        end.expected == start.expected,
        end.expected_at == start.expected_at,
        end.persisted == start.persisted,
    decreases n,
{
    if n > 0 {
        let before = choose|before: CollectorState|
            start.advances_to(before, (n - 1) as nat) && #[trigger] before.commits_to(end);
        lemma_expectations_kept(start, before, (n - 1) as nat);
    }
}

/// A snapshot that comes again, or late, for a committed epoch changes
/// nothing, where no other epoch is ready.
pub proof fn law_late_duplicate_is_ignored(
    state: CollectorState,
    proxy: ProxyId,
    completed_up_to: u64,
    snapshot: Map<ObjectID, Object>,
    end: CollectorState,
    n: nat,
)
    requires
        state.is_stale(completed_up_to),
        state.persisted.contains_key(proxy),
        state.persisted[proxy] >= completed_up_to,
        !state.ready(),
        state.received(proxy, completed_up_to, snapshot).advances_to(end, n),
    ensures
        end =~= state,
{
    let received = state.received(proxy, completed_up_to, snapshot);
    assert(received =~= state);
    if n > 0 {
        lemma_first_step(state, end, n);
    }
}

proof fn lemma_first_step(start: CollectorState, end: CollectorState, n: nat)
    requires
        start.advances_to(end, n),
        n > 0,
    ensures
        start.ready(),
    decreases n,
{
    let before = choose|before: CollectorState|
        start.advances_to(before, (n - 1) as nat) && #[trigger] before.commits_to(end);
    if n > 1 {
        lemma_first_step(start, before, (n - 1) as nat);
    } else {
        assert(start.advances_to(before, 0));
    }
}

/// Whether an object in this very state waits to be committed.
pub open spec fn waits_as(
    pending: Map<u64, Map<(ProxyId, ObjectID), Object>>,
    id: ObjectID,
    object: Object,
) -> bool {
    exists|epoch: u64| #[trigger]
        pending.contains_key(epoch) && reported_as(pending[epoch], id, object)
}

/// Commits draw on what waited before them, and on nothing else.
proof fn lemma_commits_draw_on_pending(start: CollectorState, end: CollectorState, n: nat)
    requires
        start.advances_to(end, n),
    ensures
        end.pending.submap_of(start.pending),
        forall|id: ObjectID| #[trigger]
            end.merged.contains_key(id) ==> {
                ||| start.merged.contains_key(id) && end.merged[id] == start.merged[id]
                ||| waits_as(start.pending, id, end.merged[id])
            },
    decreases n,
{
    if n > 0 {
        let before = choose|before: CollectorState|
            start.advances_to(before, (n - 1) as nat) && #[trigger] before.commits_to(end);
        lemma_commits_draw_on_pending(start, before, (n - 1) as nat);
        let epoch = (before.committed + 1) as u64;
        assert(before.pending.contains_key(epoch));
        assert(start.pending.contains_key(epoch));
        assert(start.pending[epoch] == before.pending[epoch]);
        assert forall|id: ObjectID| #[trigger] end.merged.contains_key(id) implies {
            ||| start.merged.contains_key(id) && end.merged[id] == start.merged[id]
            ||| waits_as(start.pending, id, end.merged[id])
        } by {
            if before.merged.contains_key(id) && end.merged[id] == before.merged[id] {
                assert(before.merged.contains_key(id));
            } else {
                assert(reported_as(before.pending[epoch], id, end.merged[id]));
            }
        }
    }
}

/// Taking in a snapshot moves its proxy on to what it reports and never back,
/// and no other proxy. The last committed epoch never falls, and no
/// acknowledged object is lost or falls back to an older version.
pub proof fn law_snapshots_move_forward(
    start: CollectorState,
    proxy: ProxyId,
    completed_up_to: u64,
    snapshot: Map<ObjectID, Object>,
    end: CollectorState,
    n: nat,
)
    requires
        start.received(proxy, completed_up_to, snapshot).advances_to(end, n),
    ensures
        end.persisted_by(proxy) == (if start.persisted_by(proxy) > completed_up_to {
            start.persisted_by(proxy)
        } else {
            completed_up_to
        }),
        forall|other: ProxyId|
            other != proxy ==> #[trigger] end.persisted_by(other) == start.persisted_by(other),
        start.committed <= end.committed,
        forall|id: ObjectID| #[trigger]
            start.merged.contains_key(id) ==> end.merged.contains_key(id)
                && start.merged[id].version <= end.merged[id].version,
{
    law_only_complete_epochs_are_committed(
        start.received(proxy, completed_up_to, snapshot),
        end,
        n,
    );
}

/// No object of a snapshot that comes late, or for no epoch, is ever merged:
/// it is all the same what the snapshot holds, what is acknowledged afterwards
/// was so before or waited to be, and nothing else waits to be.
pub proof fn law_stale_snapshots_are_not_merged(
    start: CollectorState,
    proxy: ProxyId,
    completed_up_to: u64,
    snapshot: Map<ObjectID, Object>,
    other: Map<ObjectID, Object>,
    end: CollectorState,
    n: nat,
)
    requires
        completed_up_to == 0 || start.is_stale(completed_up_to),
        start.received(proxy, completed_up_to, snapshot).advances_to(end, n),
    ensures
        start.received(proxy, completed_up_to, other).advances_to(end, n),
        end.pending.submap_of(start.pending),
        forall|id: ObjectID| #[trigger]
            end.merged.contains_key(id) ==> {
                ||| start.merged.contains_key(id) && end.merged[id] == start.merged[id]
                ||| waits_as(start.pending, id, end.merged[id])
            },
{
    assert(start.received(proxy, completed_up_to, other) == start.received(
        proxy,
        completed_up_to,
        snapshot,
    ));
    lemma_commits_draw_on_pending(start.received(proxy, completed_up_to, snapshot), end, n);
}

/// An epoch is complete once as many proxies report as it waits for and none of
/// those that report is behind it. What it waits for was set for the epoch, or
/// holds for all epochs.
pub proof fn law_epochs_are_complete_once_all_have_reported(state: CollectorState, epoch: u64)
    requires
        epoch > 0,
    ensures
        state.complete(epoch) <==> {
            &&& state.persisted.dom().len() >= (if state.expected_at.contains_key(epoch) {
                state.expected_at[epoch]
            } else {
                state.expected
            })
            &&& exists|p: ProxyId| #[trigger] state.persisted.contains_key(p)
            &&& forall|p: ProxyId| #[trigger]
                state.persisted.contains_key(p) ==> epoch <= state.persisted[p]
        },
{
    if state.persisted.dom() =~= Set::empty() {
        assert forall|p: ProxyId| !#[trigger] state.persisted.contains_key(p) by {
            assert(!state.persisted.dom().contains(p));
        }
    } else {
        let p = choose|p: ProxyId| state.persisted.dom().contains(p);
        assert(state.persisted.contains_key(p));
    }
}

/// The next epoch is committed as soon as it is complete and something was
/// reported for it, and with it nothing is left to be committed of it.
pub proof fn law_complete_epochs_are_committed_in_order(
    state: CollectorState,
    next: CollectorState,
    other: u64,
)
    requires
        state.commits_to(next),
        other != state.committed + 1,
    ensures
        next.committed == state.committed + 1,
        state.complete(next.committed),
        state.pending.contains_key(next.committed),
        !next.pending.contains_key(next.committed),
        next.pending.get(other) == state.pending.get(other),
        next.persisted == state.persisted,
        next.expected_at == state.expected_at,
        next.expected == state.expected,
{
}

/// The next epoch is ready exactly where it is complete and something was
/// reported for it.
pub proof fn law_ready_means_complete_and_reported(state: CollectorState)
    ensures
        state.ready() <==> exists|epoch: u64|
            epoch == state.committed + 1 && #[trigger] state.complete(epoch)
                && state.pending.contains_key(epoch),
{
}

/// A report for an epoch that is not committed waits with it: what the proxy
/// reports of an object counts as its report, in place of what it reported
/// before; what others report, what the proxy reported of other objects and
/// what waits for other epochs stays. Nothing is acknowledged by that alone.
pub proof fn law_reports_wait_for_their_epoch(
    state: CollectorState,
    proxy: ProxyId,
    epoch: u64,
    snapshot: Map<ObjectID, Object>,
    other: u64,
    by: ProxyId,
    id: ObjectID,
)
    requires
        epoch > state.committed,
        other != epoch,
    ensures
        ({
            let after = state.received(proxy, epoch, snapshot);
            &&& after.pending.contains_key(epoch)
            &&& by == proxy && snapshot.contains_key(id) ==> after.pending[epoch].contains_key(
                (by, id),
            ) && after.pending[epoch][(by, id)] == snapshot[id]
            &&& by != proxy || !snapshot.contains_key(id) ==> (if state.pending.contains_key(
                epoch,
            ) {
                after.pending[epoch].get((by, id)) == state.pending[epoch].get((by, id))
            } else {
                !after.pending[epoch].contains_key((by, id))
            })
            &&& after.pending.get(other) == state.pending.get(other)
            &&& after.merged == state.merged
            &&& after.committed == state.committed
            &&& after.expected == state.expected
            &&& after.expected_at == state.expected_at
        }),
{
}

/// A report for no epoch, or for a committed one, leaves all that waits as it
/// is.
pub proof fn law_late_reports_do_not_wait(
    state: CollectorState,
    proxy: ProxyId,
    epoch: u64,
    snapshot: Map<ObjectID, Object>,
)
    requires
        epoch <= state.committed,
    ensures
        state.received(proxy, epoch, snapshot).pending == state.pending,
        state.received(proxy, epoch, snapshot).merged == state.merged,
        state.received(proxy, epoch, snapshot).committed == state.committed,
{
}

/// Of what was acknowledged and what is reported, the newest state of each
/// object is acknowledged: none that is there or was reported is newer, and it
/// is one of them. What nobody reports stays.
pub proof fn law_newest_reports_are_acknowledged(
    before: Map<ObjectID, Object>,
    reports: Map<(ProxyId, ObjectID), Object>,
    after: Map<ObjectID, Object>,
    id: ObjectID,
    by: ProxyId,
)
    requires
        absorbed(before, reports, after),
    ensures
        reports.contains_key((by, id)) ==> after.contains_key(id) && reports[(by, id)].version
            <= after[id].version,
        before.contains_key(id) ==> after.contains_key(id) && before[id].version
            <= after[id].version,
        after.contains_key(id) && !(before.contains_key(id) && after[id] == before[id])
            ==> exists|p: ProxyId| #[trigger]
            reports.contains_key((p, id)) && reports[(p, id)] == after[id],
        (forall|p: ProxyId| !#[trigger] reports.contains_key((p, id))) ==> after.get(id)
            == before.get(id),
        before.contains_key(id) && (forall|p: ProxyId| #[trigger]
            reports.contains_key((p, id)) ==> reports[(p, id)].version <= before[id].version)
            ==> after[id] == before[id],
{
    if reports.contains_key((by, id)) {
        assert(reported(reports, id));
        assert(after.contains_key(id));
    }
    if before.contains_key(id) {
        assert(after.contains_key(id));
    }
    if forall|p: ProxyId| !#[trigger] reports.contains_key((p, id)) {
        assert(!reported(reports, id));
        if after.contains_key(id) {
            assert(!reported_as(reports, id, after[id]));
        }
    }
}

/// What a retiring proxy hands over replaces what is older or missing.
pub proof fn law_newer_states_are_taken_over(
    merged: Map<ObjectID, Object>,
    snapshot: Map<ObjectID, Object>,
    id: ObjectID,
)
    requires
        snapshot.contains_key(id),
        merged.contains_key(id) ==> merged[id].version < snapshot[id].version,
    ensures
        with_newer(merged, snapshot)[id] == snapshot[id],
{
}

/// What is handed over adds no object that neither side has.
pub proof fn law_nothing_is_taken_over_from_nowhere(
    merged: Map<ObjectID, Object>,
    snapshot: Map<ObjectID, Object>,
    id: ObjectID,
)
    requires
        !merged.contains_key(id),
        !snapshot.contains_key(id),
    ensures
        !with_newer(merged, snapshot).contains_key(id),
{
}

} // verus!
