//! Snapshot manager: captures of quantum contexts on a timeline, bounded in number,
//! with rollback and forward navigation.
use vstd::prelude::*;
use vstd::string::*;
use crate::ids::new_uuid;
use crate::text::concat;
use crate::tlm::{ExpirationPolicy, SnapshotStatistics};

verus! {

/// A captured quantum context. `data` holds the captured state itself (state vector,
/// operation history, metadata); `importance` stands for the estimated fidelity and orders
/// snapshots by it (the caller encodes the fidelity monotonically).
pub struct QuantumSnapshot<S> {
    /// Unique snapshot ID
    pub id: u128,
    /// Snapshot name/label
    pub label: String,
    /// Creation timestamp (nanoseconds)
    pub timestamp_ns: u64,
    /// Order key of the estimated fidelity
    pub importance: u64,
    /// The captured state
    pub data: S,
    /// Ids of the operations applied up to the capture, oldest first
    pub operation_ids: Vec<u128>,
}

impl<S> QuantumSnapshot<S> {
    /// A snapshot of `data` taken at time `now`, under a fresh random id.
    pub fn new(label: String, data: S, importance: u64, now: u64) -> (r: Self)
        ensures
            r.label == label,
            r.data == data,
            r.importance == importance,
            r.timestamp_ns == now,
            r.operation_ids@.len() == 0,
    {
        QuantumSnapshot { id: new_uuid(), label, timestamp_ns: now, importance, data, operation_ids: Vec::new() }
    }

    /// Records that operation `operation_id` was applied after the capture's earlier ones.
    pub fn add_operation(&mut self, operation_id: u128)
        ensures
            final(self).operation_ids@ == old(self).operation_ids@.push(operation_id),
            final(self).id == old(self).id,
            final(self).label == old(self).label,
            final(self).timestamp_ns == old(self).timestamp_ns,
            final(self).importance == old(self).importance,
            final(self).data == old(self).data,
    {
        self.operation_ids.push(operation_id);
    }
}

/// How a rollback went: from which snapshot to which, how far in time, which operations
/// the restored snapshot has that the left one lacks and the other way round, and the
/// restored state.
#[derive(Debug, Clone)]
pub struct RollbackResult<S> {
    pub from_id: u128,
    pub to_id: u128,
    /// Time from the left snapshot to the restored one (0 when restoring a later one)
    pub time_diff_ns: u64,
    /// Operations of the restored snapshot that the left one lacks
    pub operations_added: Vec<u128>,
    /// Operations of the left snapshot that the restored one lacks
    pub operations_removed: Vec<u128>,
    pub success: bool,
    /// A clone of the restored snapshot's state
    pub restored_state: S,
}

/// `snap` is the snapshot captured under id `r`: the given label, time, importance and
/// state, with no operations yet.
pub open spec fn fresh_snapshot<S>(
    snap: QuantumSnapshot<S>,
    r: u128,
    label: String,
    data: S,
    importance: u64,
    now: u64,
) -> bool {
    &&& snap.id == r
    &&& snap.label == label
    &&& snap.timestamp_ns == now
    &&& snap.importance == importance
    &&& snap.data == data
    &&& snap.operation_ids@.len() == 0
}

/// Index of the snapshot with id `id`, if any (ids are unique in a well-formed store).
pub open spec fn id_index<S>(s: Seq<QuantumSnapshot<S>>, id: u128) -> Option<int> {
    if exists|i: int| 0 <= i < s.len() && s[i].id == id {
        Some(choose|i: int| 0 <= i < s.len() && s[i].id == id)
    } else {
        None
    }
}

/// Index of the first snapshot labelled `label`, if any.
pub open spec fn label_index<S>(s: Seq<QuantumSnapshot<S>>, label: Seq<char>) -> Option<int> {
    if exists|i: int| 0 <= i < s.len() && s[i].label@ == label {
        Some(choose|i: int| 0 <= i < s.len() && s[i].label@ == label && forall|k: int| 0 <= k < i ==> s[k].label@ != label)
    } else {
        None
    }
}

/// Latest timeline entry strictly before time `ts` that is not `id`, searching from the back.
pub open spec fn previous_entry(tl: Seq<(u64, u128)>, ts: u64, id: u128) -> Option<int> {
    if exists|k: int| 0 <= k < tl.len() && tl[k].0 < ts && tl[k].1 != id {
        Some(choose|k: int| 0 <= k < tl.len() && tl[k].0 < ts && tl[k].1 != id && forall|m: int| k < m < tl.len() ==> !(tl[m].0 < ts && tl[m].1 != id))
    } else {
        None
    }
}

/// First timeline entry strictly after time `ts` that is not `id`.
pub open spec fn next_entry(tl: Seq<(u64, u128)>, ts: u64, id: u128) -> Option<int> {
    if exists|k: int| 0 <= k < tl.len() && tl[k].0 > ts && tl[k].1 != id {
        Some(choose|k: int| 0 <= k < tl.len() && tl[k].0 > ts && tl[k].1 != id && forall|m: int| 0 <= m < k ==> !(tl[m].0 > ts && tl[m].1 != id))
    } else {
        None
    }
}

/// Index `i` is the first one holding the least importance.
pub open spec fn least_at<S>(s: Seq<QuantumSnapshot<S>>, i: int) -> bool {
    &&& 0 <= i < s.len()
    &&& forall|k: int| 0 <= k < s.len() ==> s[i].importance <= s[k].importance
    &&& forall|k: int| 0 <= k < i ==> s[k].importance > s[i].importance
}

/// Index `i` is the first one holding the greatest importance.
pub open spec fn most_at<S>(s: Seq<QuantumSnapshot<S>>, i: int) -> bool {
    &&& 0 <= i < s.len()
    &&& forall|k: int| 0 <= k < s.len() ==> s[i].importance >= s[k].importance
    &&& forall|k: int| 0 <= k < i ==> s[k].importance < s[i].importance
}

/// The first index holding the least importance.
pub open spec fn least_important<S>(s: Seq<QuantumSnapshot<S>>) -> int {
    choose|i: int| least_at(s, i)
}

/// The first index holding the greatest importance.
pub open spec fn most_important<S>(s: Seq<QuantumSnapshot<S>>) -> int {
    choose|i: int| most_at(s, i)
}

/// `tl` with every entry for `id` removed.
pub open spec fn timeline_without(tl: Seq<(u64, u128)>, id: u128) -> Seq<(u64, u128)>
    decreases tl.len(),
{
    if tl.len() == 0 {
        Seq::empty()
    } else if tl.last().1 == id {
        timeline_without(tl.drop_last(), id)
    } else {
        timeline_without(tl.drop_last(), id).push(tl.last())
    }
}

/// The snapshots that a sequence of references points at.
pub open spec fn snapshots_of<S>(r: Seq<&QuantumSnapshot<S>>) -> Seq<QuantumSnapshot<S>> {
    r.map_values(|p: &QuantumSnapshot<S>| *p)
}

/// Snapshots ordered by creation time.
pub open spec fn by_time<S>(s: Seq<QuantumSnapshot<S>>) -> bool {
    forall|a: int, b: int| 0 <= a < b < s.len() ==> s[a].timestamp_ns <= s[b].timestamp_ns
}

/// Snapshot manager with rollback.
pub struct SnapshotManager<S> {
    /// Stored snapshots; no id occurs twice
    pub snapshots: Vec<QuantumSnapshot<S>>,
    /// Ordered timeline of (timestamp, id)
    pub timeline: Vec<(u64, u128)>,
    /// Current active snapshot
    pub current_snapshot: Option<u128>,
    /// Stored snapshot limit
    pub max_snapshots: usize,
    /// Expiration policy
    pub expiration_policy: ExpirationPolicy,
    /// Statistics
    pub stats: SnapshotStatistics,
}

impl<S> SnapshotManager<S> {
    /// No snapshot id occurs twice in the store.
    pub open spec fn wf(&self) -> bool {
        forall|i: int, j: int|
            0 <= i < self.snapshots@.len() && 0 <= j < self.snapshots@.len() && i != j
                ==> self.snapshots@[i].id != self.snapshots@[j].id
    }

    /// The store after making room for one more snapshot under this manager's policy.
    pub open spec fn after_expiry(&self) -> (Seq<QuantumSnapshot<S>>, Seq<(u64, u128)>) {
        let s = self.snapshots@;
        let tl = self.timeline@;
        if s.len() < self.max_snapshots {
            (s, tl)
        } else {
            match self.expiration_policy {
                ExpirationPolicy::FIFO | ExpirationPolicy::LRU => if tl.len() == 0 {
                    (s, tl)
                } else {
                    match id_index(s, tl[0].1) {
                        Some(i) => (s.remove(i), tl.drop_first()),
                        None => (s, tl.drop_first()),
                    }
                },
                ExpirationPolicy::ImportanceBased => if s.len() == 0 {
                    (s, tl)
                } else {
                    let i = least_important(s);
                    (s.remove(i), timeline_without(tl, s[i].id))
                },
                ExpirationPolicy::KeepAll => (s, tl),
            }
        }
    }

    /// An empty manager.
    pub fn new(max_snapshots: usize, policy: ExpirationPolicy) -> (r: Self)
        ensures
            r.wf(),
            r.synced(),
            r.snapshots@.len() == 0,
            r.timeline@.len() == 0,
            r.current_snapshot is None,
            r.max_snapshots == max_snapshots,
            r.expiration_policy == policy,
            r.stats.total_snapshots_created == 0,
            r.stats.total_rollbacks == 0,
            r.stats.total_rollback_distance_ns == 0,
            r.stats.successful_rollbacks == 0,
            r.stats.failed_rollbacks == 0,
    {
        SnapshotManager {
            snapshots: Vec::new(),
            timeline: Vec::new(),
            current_snapshot: None,
            max_snapshots,
            expiration_policy: policy,
            stats: SnapshotStatistics::default(),
        }
    }

    fn position(&self, id: u128) -> (r: Option<usize>)
        requires
            self.wf(),
        ensures
            r matches Some(i) ==> i < self.snapshots@.len() && id_index(self.snapshots@, id) == Some(i as int),
            r is None ==> id_index(self.snapshots@, id) is None,
    {
        let mut i: usize = 0;
        while i < self.snapshots.len()
            invariant
                i <= self.snapshots@.len(),
                self.wf(),
                forall|k: int| 0 <= k < i ==> self.snapshots@[k].id != id,
            decreases self.snapshots@.len() - i,
        {
            if self.snapshots[i].id == id {
                proof {
                    lemma_id_index_at(self.snapshots@, i as int);
                }
                return Some(i);
            }
            i = i + 1;
        }
        None
    }

    fn least_important_position(&self) -> (r: usize)
        requires
            self.snapshots@.len() > 0,
        ensures
            r < self.snapshots@.len(),
            r == least_important(self.snapshots@),
    {
        let mut best: usize = 0;
        let mut i: usize = 1;
        while i < self.snapshots.len()
            invariant
                1 <= i <= self.snapshots@.len(),
                best < i,
                forall|k: int| 0 <= k < i ==> self.snapshots@[best as int].importance <= self.snapshots@[k].importance,
                forall|k: int| 0 <= k < best ==> self.snapshots@[k].importance > self.snapshots@[best as int].importance,
            decreases self.snapshots@.len() - i,
        {
            if self.snapshots[i].importance < self.snapshots[best].importance {
                best = i;
            }
            i = i + 1;
        }
        let ghost s = self.snapshots@;
        assert(least_important(s) == best as int) by {
            assert(least_at(s, best as int));
            let c = least_important(s);
            assert(least_at(s, c));
            if c < best {
                assert(s[c].importance > s[best as int].importance);
            } else if c > best {
                assert(s[best as int].importance > s[c].importance);
            }
        }
        best
    }

    /// Removes the entries of the timeline that name `id`.
    fn drop_from_timeline(&mut self, id: u128)
        ensures
            final(self).timeline@ == timeline_without(old(self).timeline@, id),
            final(self).snapshots == old(self).snapshots,
            final(self).current_snapshot == old(self).current_snapshot,
            final(self).max_snapshots == old(self).max_snapshots,
            final(self).expiration_policy == old(self).expiration_policy,
            final(self).stats == old(self).stats,
    {
        let mut kept: Vec<(u64, u128)> = Vec::new();
        let mut j: usize = 0;
        while j < self.timeline.len()
            invariant
                j <= self.timeline@.len(),
                kept@ == timeline_without(self.timeline@.subrange(0, j as int), id),
            decreases self.timeline@.len() - j,
        {
            let e = self.timeline[j];
            if e.1 != id {
                kept.push(e);
            }
            j = j + 1;
            assert(self.timeline@.subrange(0, j as int).drop_last() =~= self.timeline@.subrange(0, j - 1));
        }
        assert(self.timeline@.subrange(0, self.timeline@.len() as int) =~= self.timeline@);
        self.timeline = kept;
    }

    /// Makes room for one more snapshot when the store is full, following the policy.
    fn expire_oldest(&mut self)
        requires
            old(self).wf(),
            old(self).snapshots@.len() >= old(self).max_snapshots,
        ensures
            final(self).wf(),
            (final(self).snapshots@, final(self).timeline@) == old(self).after_expiry(),
            final(self).current_snapshot == old(self).current_snapshot,
            final(self).max_snapshots == old(self).max_snapshots,
            final(self).expiration_policy == old(self).expiration_policy,
            final(self).stats == old(self).stats,
    {
        match self.expiration_policy {
            ExpirationPolicy::FIFO | ExpirationPolicy::LRU => {
                if self.timeline.len() > 0 {
                    let (_, id) = self.timeline.remove(0);
                    match self.position(id) {
                        Some(i) => {
                            self.snapshots.remove(i);
                            proof {
                                self.lemma_remove_keeps_wf(old(self).snapshots@, i as int);
                            }
                        },
                        None => {},
                    }
                }
            },
            ExpirationPolicy::ImportanceBased => {
                if self.snapshots.len() > 0 {
                    let i = self.least_important_position();
                    let id = self.snapshots[i].id;
                    self.snapshots.remove(i);
                    proof {
                        self.lemma_remove_keeps_wf(old(self).snapshots@, i as int);
                    }
                    self.drop_from_timeline(id);
                }
            },
            ExpirationPolicy::KeepAll => {},
        }
    }

    proof fn lemma_remove_keeps_wf(&self, s: Seq<QuantumSnapshot<S>>, i: int)
        requires
            0 <= i < s.len(),
            forall|a: int, b: int| 0 <= a < s.len() && 0 <= b < s.len() && a != b ==> s[a].id != s[b].id,
            self.snapshots@ == s.remove(i),
        ensures
            self.wf(),
    {
        let t = s.remove(i);
        assert forall|a: int, b: int| 0 <= a < t.len() && 0 <= b < t.len() && a != b implies t[a].id != t[b].id by {
            let sa = if a < i { a } else { a + 1 };
            let sb = if b < i { b } else { b + 1 };
            assert(t[a] == s[sa] && t[b] == s[sb]);
        }
    }

    /// Whether the rollback distance counter can absorb a rollback to `target`.
    pub open spec fn has_rollback_room(&self, target: u128) -> bool {
        match (id_index(self.snapshots@, target), self.current_snapshot) {
            (Some(t), Some(c)) => match id_index(self.snapshots@, c) {
                Some(ci) => self.stats.total_rollback_distance_ns + (if self.snapshots@[t].timestamp_ns
                    >= self.snapshots@[ci].timestamp_ns {
                    self.snapshots@[t].timestamp_ns - self.snapshots@[ci].timestamp_ns
                } else {
                    0
                }) <= u64::MAX && self.stats.total_rollbacks < u64::MAX
                    && self.stats.successful_rollbacks < u64::MAX,
                None => true,
            },
            _ => true,
        }
    }

    /// What creating a snapshot turns `pre` into: room is made under the policy, the new
    /// snapshot (id `r`) is stored and appended to the timeline, and becomes current.
    pub open spec fn creation_outcome(
        pre: &Self,
        post: &Self,
        r: u128,
        label: String,
        data: S,
        importance: u64,
        now: u64,
    ) -> bool {
        let (s1, t1) = pre.after_expiry();
        let p = post.snapshots@;
        &&& match id_index(s1, r) {
            Some(i) => p.len() == s1.len() && p == s1.update(i, p[i]) && fresh_snapshot(p[i], r, label, data, importance, now),
            None => p.len() == s1.len() + 1 && p == s1.push(p[s1.len() as int]) && fresh_snapshot(
                p[s1.len() as int],
                r,
                label,
                data,
                importance,
                now,
            ),
        }
        &&& post.timeline@ == t1.push((now, r))
        &&& post.current_snapshot == Some(r)
        &&& post.stats == (SnapshotStatistics {
            total_snapshots_created: (pre.stats.total_snapshots_created + 1) as u64,
            ..pre.stats
        })
        &&& post.max_snapshots == pre.max_snapshots
        &&& post.expiration_policy == pre.expiration_policy
    }

    /// Captures a snapshot taken at time `now`; when the store is full, room is made first
    /// under the expiration policy. The new snapshot becomes current.
    pub fn create_snapshot(&mut self, label: String, data: S, importance: u64, now: u64) -> (r: u128)
        requires
            old(self).wf(),
            old(self).stats.total_snapshots_created < u64::MAX,
        ensures
            final(self).wf(),
            Self::creation_outcome(old(self), final(self), r, label, data, importance, now),
    {
        let id = new_uuid();
        if self.snapshots.len() >= self.max_snapshots {
            self.expire_oldest();
        }
        self.timeline.push((now, id));
        let snap = QuantumSnapshot { id, label, timestamp_ns: now, importance, data, operation_ids: Vec::new() };
        let ghost s1 = self.snapshots@;
        let ghost gsnap = snap;
        match self.position(id) {
            Some(i) => {
                self.snapshots.set(i, snap);
                proof {
                    assert forall|a: int, b: int|
                        0 <= a < self.snapshots@.len() && 0 <= b < self.snapshots@.len() && a != b
                            implies self.snapshots@[a].id != self.snapshots@[b].id by {
                        assert(s1[i as int].id == id);
                        if a != i && b != i {
                            assert(self.snapshots@[a] == s1[a] && self.snapshots@[b] == s1[b]);
                        } else if a == i {
                            assert(self.snapshots@[b] == s1[b]);
                        } else {
                            assert(self.snapshots@[a] == s1[a]);
                        }
                    }
                }
            },
            None => {
                self.snapshots.push(snap);
                proof {
                    assert forall|a: int, b: int|
                        0 <= a < self.snapshots@.len() && 0 <= b < self.snapshots@.len() && a != b
                            implies self.snapshots@[a].id != self.snapshots@[b].id by {
                        let n = s1.len() as int;
                        if a < n && b < n {
                            assert(self.snapshots@[a] == s1[a] && self.snapshots@[b] == s1[b]);
                        } else if a == n {
                            assert(self.snapshots@[b] == s1[b]);
                            assert(s1[b].id != id);
                        } else {
                            assert(self.snapshots@[a] == s1[a]);
                            assert(s1[a].id != id);
                        }
                    }
                }
            },
        }
        self.current_snapshot = Some(id);
        self.stats.total_snapshots_created = self.stats.total_snapshots_created + 1;
        id
    }

    /// The snapshot with the given id.
    pub fn get_snapshot(&self, id: u128) -> (r: Option<&QuantumSnapshot<S>>)
        requires
            self.wf(),
        ensures
            match id_index(self.snapshots@, id) {
                Some(i) => r == Some(&self.snapshots@[i]),
                None => r is None,
            },
    {
        match self.position(id) {
            Some(i) => Some(&self.snapshots[i]),
            None => None,
        }
    }

    /// The first snapshot carrying the given label.
    pub fn get_snapshot_by_label(&self, label: &str) -> (r: Option<&QuantumSnapshot<S>>)
        ensures
            match label_index(self.snapshots@, label@) {
                Some(i) => r == Some(&self.snapshots@[i]),
                None => r is None,
            },
    {
        let wanted = String::from_str(label);
        let mut i: usize = 0;
        while i < self.snapshots.len()
            invariant
                i <= self.snapshots@.len(),
                wanted@ == label@,
                forall|k: int| 0 <= k < i ==> self.snapshots@[k].label@ != label@,
            decreases self.snapshots@.len() - i,
        {
            if self.snapshots[i].label == wanted {
                assert(label_index(self.snapshots@, label@) == Some(i as int));
                return Some(&self.snapshots[i]);
            }
            i = i + 1;
        }
        None
    }

    /// What a rollback from `pre` to `target` yields: the result `r` and the manager `post`.
    /// Errors leave the manager as it was; success makes `target` current and counts the
    /// rollback and its forward distance in time.
    pub open spec fn rollback_outcome(pre: &Self, post: &Self, target: u128, r: Result<RollbackResult<S>, String>) -> bool
        where S: Clone
    {
        let s = pre.snapshots@;
        if id_index(s, target) is None {
            r matches Err(m) && m@ == "Snapshot not found"@ && *post == *pre
        } else if pre.current_snapshot is None {
            r matches Err(m) && m@ == "No current snapshot"@ && *post == *pre
        } else if id_index(s, pre.current_snapshot->0) is None {
            r matches Err(m) && m@ == "Current snapshot not found"@ && *post == *pre
        } else {
            let c = pre.current_snapshot->0;
            let tt = s[id_index(s, target)->0].timestamp_ns;
            let ct = s[id_index(s, c)->0].timestamp_ns;
            let d = if tt >= ct { (tt - ct) as u64 } else { 0u64 };
            let from = s[id_index(s, c)->0];
            let to = s[id_index(s, target)->0];
            &&& r matches Ok(res)
            &&& res.from_id == c
            &&& res.to_id == target
            &&& res.time_diff_ns == d
            &&& res.operations_added@ == missing_from(to.operation_ids@, from.operation_ids@)
            &&& res.operations_removed@ == missing_from(from.operation_ids@, to.operation_ids@)
            &&& res.success
            &&& cloned(to.data, res.restored_state)
            &&& post.snapshots == pre.snapshots
            &&& post.timeline == pre.timeline
            &&& post.max_snapshots == pre.max_snapshots
            &&& post.expiration_policy == pre.expiration_policy
            &&& post.current_snapshot == Some(target)
            &&& post.stats == (SnapshotStatistics {
                total_rollbacks: (pre.stats.total_rollbacks + 1) as u64,
                total_rollback_distance_ns: (pre.stats.total_rollback_distance_ns + d) as u64,
                successful_rollbacks: (pre.stats.successful_rollbacks + 1) as u64,
                ..pre.stats
            })
        }
    }

    /// Restores snapshot `target_id`, leaving the current one.
    pub fn rollback_to(&mut self, target_id: u128) -> (r: Result<RollbackResult<S>, String>)
        where S: Clone
        requires
            old(self).wf(),
            old(self).has_rollback_room(target_id),
        ensures
            final(self).wf(),
            Self::rollback_outcome(old(self), final(self), target_id, r),
    {
        let t = match self.position(target_id) {
            Some(t) => t,
            None => {
                return Err(String::from_str("Snapshot not found"));
            },
        };
        let current_id = match self.current_snapshot {
            Some(c) => c,
            None => {
                return Err(String::from_str("No current snapshot"));
            },
        };
        let ci = match self.position(current_id) {
            Some(ci) => ci,
            None => {
                return Err(String::from_str("Current snapshot not found"));
            },
        };
        let tt = self.snapshots[t].timestamp_ns;
        let ct = self.snapshots[ci].timestamp_ns;
        let d = tt.saturating_sub(ct);
        let (added, removed) = operation_changes(&self.snapshots[ci].operation_ids, &self.snapshots[t].operation_ids);
        let restored = self.snapshots[t].data.clone();
        self.current_snapshot = Some(target_id);
        self.stats.total_rollbacks = self.stats.total_rollbacks + 1;
        self.stats.total_rollback_distance_ns = self.stats.total_rollback_distance_ns + d;
        self.stats.successful_rollbacks = self.stats.successful_rollbacks + 1;
        Ok(RollbackResult {
            from_id: current_id,
            to_id: target_id,
            time_diff_ns: d,
            operations_added: added,
            operations_removed: removed,
            success: true,
            restored_state: restored,
        })
    }

    /// The id that a rollback to the previous snapshot would restore, if any: the latest
    /// timeline entry older than the current snapshot.
    pub open spec fn previous_target(&self) -> Option<u128> {
        let s = self.snapshots@;
        if self.current_snapshot is None || id_index(s, self.current_snapshot->0) is None {
            None
        } else {
            let c = self.current_snapshot->0;
            match previous_entry(self.timeline@, s[id_index(s, c)->0].timestamp_ns, c) {
                Some(k) => Some(self.timeline@[k].1),
                None => None,
            }
        }
    }

    /// What rolling `pre` back to its previous snapshot yields: errors when there is no
    /// current snapshot, when it is no longer stored, or when the timeline holds nothing
    /// older (each leaving the manager as it was); else a rollback to that snapshot.
    pub open spec fn previous_rollback_outcome(pre: &Self, post: &Self, r: Result<RollbackResult<S>, String>) -> bool
        where S: Clone
    {
        if pre.current_snapshot is None {
            r matches Err(m) && m@ == "No current snapshot"@ && *post == *pre
        } else if id_index(pre.snapshots@, pre.current_snapshot->0) is None {
            r matches Err(m) && m@ == "Current snapshot not found"@ && *post == *pre
        } else if pre.previous_target() is None {
            r matches Err(m) && m@ == "No previous snapshot found"@ && *post == *pre
        } else {
            Self::rollback_outcome(pre, post, pre.previous_target()->0, r)
        }
    }

    /// Restores the snapshot labelled `label` (the first one with that label).
    pub fn rollback_to_label(&mut self, label: &str) -> (r: Result<RollbackResult<S>, String>)
        where S: Clone
        requires
            old(self).wf(),
            label_index(old(self).snapshots@, label@) matches Some(i)
                ==> old(self).has_rollback_room(old(self).snapshots@[i].id),
        ensures
            final(self).wf(),
            label_index(old(self).snapshots@, label@) is None ==> (r matches Err(m)
                && m@ == seq!['S', 'n', 'a', 'p', 's', 'h', 'o', 't', ' ', '\''] + label@
                    + seq!['\'', ' ', 'n', 'o', 't', ' ', 'f', 'o', 'u', 'n', 'd'] && *final(self) == *old(self)),
            label_index(old(self).snapshots@, label@) matches Some(i) ==> Self::rollback_outcome(
                old(self), final(self), old(self).snapshots@[i].id, r),
    {
        let id = match self.get_snapshot_by_label(label) {
            Some(snap) => snap.id,
            None => {
                let prefix = String::from_str("Snapshot '");
                let suffix = String::from_str("' not found");
                let name = String::from_str(label);
                let mut msg = concat(&prefix, &name);
                msg = concat(&msg, &suffix);
                proof {
                    reveal_strlit("Snapshot '");
                    reveal_strlit("' not found");
                }
                return Err(msg);
            },
        };
        self.rollback_to(id)
    }

    /// Restores the latest snapshot on the timeline that is older than the current one.
    pub fn rollback_previous(&mut self) -> (r: Result<RollbackResult<S>, String>)
        where S: Clone
        requires
            old(self).wf(),
            old(self).previous_target() matches Some(t) ==> old(self).has_rollback_room(t),
        ensures
            final(self).wf(),
            Self::previous_rollback_outcome(old(self), final(self), r),
    {
        let current_id = match self.current_snapshot {
            Some(c) => c,
            None => {
                return Err(String::from_str("No current snapshot"));
            },
        };
        let ci = match self.position(current_id) {
            Some(ci) => ci,
            None => {
                return Err(String::from_str("Current snapshot not found"));
            },
        };
        let current_ts = self.snapshots[ci].timestamp_ns;
        match self.previous_in_timeline(current_ts, current_id) {
            Some(t) => self.rollback_to(t),
            None => Err(String::from_str("No previous snapshot found")),
        }
    }

    /// The id of the latest timeline entry older than `ts` that is not `id`.
    fn previous_in_timeline(&self, ts: u64, id: u128) -> (r: Option<u128>)
        ensures
            match previous_entry(self.timeline@, ts, id) {
                Some(k) => r == Some(self.timeline@[k].1),
                None => r is None,
            },
    {
        let ghost tl = self.timeline@;
        let mut k: usize = self.timeline.len();
        while k > 0
            invariant
                k <= tl.len(),
                tl == self.timeline@,
                forall|m: int| k <= m < tl.len() ==> !(tl[m].0 < ts && tl[m].1 != id),
            decreases k,
        {
            let e = self.timeline[k - 1];
            if e.0 < ts && e.1 != id {
                proof {
                    let kk = (k - 1) as int;
                    assert(tl[kk].0 < ts && tl[kk].1 != id);
                    let p = previous_entry(tl, ts, id);
                    assert(p is Some);
                    let pk = p->0;
                    if pk < kk {
                        assert(!(tl[kk].0 < ts && tl[kk].1 != id));
                    }
                    if pk > kk {
                        assert(!(tl[pk].0 < ts && tl[pk].1 != id));
                    }
                }
                return Some(e.1);
            }
            k = k - 1;
        }
        None
    }

    /// The id of the first timeline entry newer than `ts` that is not `id`.
    fn next_in_timeline(&self, ts: u64, id: u128) -> (r: Option<u128>)
        ensures
            match next_entry(self.timeline@, ts, id) {
                Some(k) => r == Some(self.timeline@[k].1),
                None => r is None,
            },
    {
        let ghost tl = self.timeline@;
        let mut k: usize = 0;
        while k < self.timeline.len()
            invariant
                k <= tl.len(),
                tl == self.timeline@,
                forall|m: int| 0 <= m < k ==> !(tl[m].0 > ts && tl[m].1 != id),
            decreases tl.len() - k,
        {
            let e = self.timeline[k];
            if e.0 > ts && e.1 != id {
                proof {
                    let kk = k as int;
                    let p = next_entry(tl, ts, id);
                    assert(tl[kk].0 > ts && tl[kk].1 != id);
                    assert(p is Some);
                    let pk = p->0;
                    if pk > kk {
                        assert(!(tl[kk].0 > ts && tl[kk].1 != id));
                    }
                    if pk < kk {
                        assert(!(tl[pk].0 > ts && tl[pk].1 != id));
                    }
                }
                return Some(e.1);
            }
            k = k + 1;
        }
        None
    }

    /// Rollback after a violation of contract `contract_id`: restores the previous snapshot.
    pub fn auto_rollback_on_violation(&mut self, contract_id: u128) -> (r: Result<RollbackResult<S>, String>)
        where S: Clone
        requires
            old(self).wf(),
            old(self).previous_target() matches Some(t) ==> old(self).has_rollback_room(t),
        ensures
            final(self).wf(),
            Self::previous_rollback_outcome(old(self), final(self), r),
    {
        self.rollback_previous()
    }

    /// The id that moving forward would make current, if any: the first timeline entry
    /// newer than the current snapshot.
    pub open spec fn next_target(&self) -> Option<u128> {
        let s = self.snapshots@;
        if self.current_snapshot is None || id_index(s, self.current_snapshot->0) is None {
            None
        } else {
            let c = self.current_snapshot->0;
            match next_entry(self.timeline@, s[id_index(s, c)->0].timestamp_ns, c) {
                Some(k) => Some(self.timeline@[k].1),
                None => None,
            }
        }
    }

    /// Moves to the next snapshot on the timeline.
    pub fn forward_next(&mut self) -> (r: Result<u128, String>)
        requires
            old(self).wf(),
        ensures
            final(self).wf(),
            old(self).current_snapshot is None ==> (r matches Err(m) && m@ == "No current snapshot"@
                && *final(self) == *old(self)),
            (old(self).current_snapshot is Some && id_index(old(self).snapshots@, old(self).current_snapshot->0)
                is None) ==> (r matches Err(m) && m@ == "Current snapshot not found"@ && *final(self)
                == *old(self)),
            (old(self).current_snapshot is Some && id_index(old(self).snapshots@, old(self).current_snapshot->0)
                is Some && old(self).next_target() is None) ==> (r matches Err(m) && m@
                == "No later snapshot found"@ && *final(self) == *old(self)),
            old(self).next_target() matches Some(t) ==> (r == Ok::<u128, String>(t) && *final(self)
                == (SnapshotManager { current_snapshot: Some(t), ..*old(self) })),
    {
        let current_id = match self.current_snapshot {
            Some(c) => c,
            None => {
                return Err(String::from_str("No current snapshot"));
            },
        };
        let ci = match self.position(current_id) {
            Some(ci) => ci,
            None => {
                return Err(String::from_str("Current snapshot not found"));
            },
        };
        let current_ts = self.snapshots[ci].timestamp_ns;
        match self.next_in_timeline(current_ts, current_id) {
            Some(t) => {
                self.current_snapshot = Some(t);
                Ok(t)
            },
            None => Err(String::from_str("No later snapshot found")),
        }
    }

    /// Makes the newest snapshot on the timeline current.
    pub fn forward_to_latest(&mut self) -> (r: Result<u128, String>)
        requires
            old(self).wf(),
        ensures
            final(self).wf(),
            old(self).timeline@.len() == 0 ==> (r matches Err(m) && m@ == "No snapshot available"@
                && *final(self) == *old(self)),
            old(self).timeline@.len() > 0 ==> (r == Ok::<u128, String>(old(self).timeline@.last().1)
                && *final(self) == (SnapshotManager {
                current_snapshot: Some(old(self).timeline@.last().1),
                ..*old(self)
            })),
    {
        let n = self.timeline.len();
        if n == 0 {
            return Err(String::from_str("No snapshot available"));
        }
        let latest = self.timeline[n - 1].1;
        self.current_snapshot = Some(latest);
        Ok(latest)
    }

    /// The id of the snapshot with the highest fidelity (the first such one), if any.
    pub fn find_best_fidelity(&self) -> (r: Option<u128>)
        ensures
            self.snapshots@.len() == 0 ==> r is None,
            self.snapshots@.len() > 0 ==> r == Some(self.snapshots@[most_important(self.snapshots@)].id),
    {
        if self.snapshots.len() == 0 {
            return None;
        }
        let mut best: usize = 0;
        let mut i: usize = 1;
        while i < self.snapshots.len()
            invariant
                1 <= i <= self.snapshots@.len(),
                best < i,
                forall|k: int| 0 <= k < i ==> self.snapshots@[best as int].importance >= self.snapshots@[k].importance,
                forall|k: int| 0 <= k < best ==> self.snapshots@[k].importance < self.snapshots@[best as int].importance,
            decreases self.snapshots@.len() - i,
        {
            if self.snapshots[i].importance > self.snapshots[best].importance {
                best = i;
            }
            i = i + 1;
        }
        let ghost s = self.snapshots@;
        assert(most_important(s) == best as int) by {
            assert(most_at(s, best as int));
            let c = most_important(s);
            assert(most_at(s, c));
            if c < best {
                assert(s[c].importance < s[best as int].importance);
            } else if c > best {
                assert(s[best as int].importance < s[c].importance);
            }
        }
        Some(self.snapshots[best].id)
    }

    /// The statistics gathered so far.
    pub fn get_statistics(&self) -> (r: &SnapshotStatistics)
        ensures
            *r == self.stats,
    {
        &self.stats
    }

    /// Number of stored snapshots.
    pub fn count(&self) -> (r: usize)
        ensures
            r == self.snapshots@.len(),
    {
        self.snapshots.len()
    }

    /// Drops every snapshot and the timeline; statistics stay.
    pub fn clear(&mut self)
        ensures
            final(self).wf(),
            final(self).synced(),
            final(self).snapshots@.len() == 0,
            final(self).timeline@.len() == 0,
            final(self).current_snapshot is None,
            final(self).max_snapshots == old(self).max_snapshots,
            final(self).expiration_policy == old(self).expiration_policy,
            final(self).stats == old(self).stats,
    {
        self.snapshots.clear();
        self.timeline.clear();
        self.current_snapshot = None;
    }

    /// The current snapshot, if it is still stored.
    pub fn get_current_snapshot(&self) -> (r: Option<&QuantumSnapshot<S>>)
        requires
            self.wf(),
        ensures
            match self.current_snapshot {
                Some(c) => match id_index(self.snapshots@, c) {
                    Some(i) => r == Some(&self.snapshots@[i]),
                    None => r is None,
                },
                None => r is None,
            },
    {
        match self.current_snapshot {
            Some(c) => self.get_snapshot(c),
            None => None,
        }
    }

    /// Every stored snapshot, ordered by creation time (equal times keep store order).
    pub fn list_snapshots(&self) -> (r: Vec<&QuantumSnapshot<S>>)
        ensures
            r@.len() == self.snapshots@.len(),
            by_time(snapshots_of(r@)),
            snapshots_of(r@).to_multiset() == self.snapshots@.to_multiset(),
    {
        let ghost s = self.snapshots@;
        let mut r: Vec<&QuantumSnapshot<S>> = Vec::new();
        let mut i: usize = 0;
        assert(s.subrange(0, 0) =~= Seq::<QuantumSnapshot<S>>::empty());
        assert(snapshots_of(r@) =~= Seq::<QuantumSnapshot<S>>::empty());
        while i < self.snapshots.len()
            invariant
                i <= s.len(),
                s == self.snapshots@,
                r@.len() == i,
                by_time(snapshots_of(r@)),
                snapshots_of(r@).to_multiset() == s.subrange(0, i as int).to_multiset(),
            decreases s.len() - i,
        {
            let x = &self.snapshots[i];
            let ghost g = snapshots_of(r@);
            let mut p: usize = 0;
            while p < r.len() && r[p].timestamp_ns <= x.timestamp_ns
                invariant
                    p <= r@.len(),
                    g == snapshots_of(r@),
                    forall|k: int| 0 <= k < p ==> g[k].timestamp_ns <= x.timestamp_ns,
                decreases r@.len() - p,
            {
                p = p + 1;
            }
            r.insert(p, x);
            proof {
                let g2 = snapshots_of(r@);
                assert(g2 =~= g.insert(p as int, *x));
                assert(s.subrange(0, i + 1) =~= s.subrange(0, i as int).push(s[i as int]));
                vstd::seq_lib::to_multiset_insert(g, p as int, s[i as int]);
                vstd::seq_lib::to_multiset_build(s.subrange(0, i as int), s[i as int]);
                assert forall|a: int, b: int| 0 <= a < b < g2.len() implies g2[a].timestamp_ns <= g2[b].timestamp_ns by {
                    if b < p {
                    } else if b == p {
                    } else if a < p {
                        assert(g2[b] == g[b - 1]);
                        if p < g.len() {
                            assert(g[p as int].timestamp_ns > x.timestamp_ns);
                            assert(g[p as int].timestamp_ns <= g[b - 1].timestamp_ns);
                        }
                    } else if a == p {
                        assert(g2[b] == g[b - 1]);
                        assert(g[p as int].timestamp_ns > x.timestamp_ns);
                        assert(g[p as int].timestamp_ns <= g[b - 1].timestamp_ns);
                    } else {
                        assert(g2[a] == g[a - 1] && g2[b] == g[b - 1]);
                    }
                }
            }
            i = i + 1;
        }
        assert(s.subrange(0, s.len() as int) =~= s);
        r
    }
}

impl<S> Default for SnapshotManager<S> {
    /// A manager holding up to 100 snapshots under the FIFO policy.
    fn default() -> (r: Self)
        ensures
            r.wf(),
            r.synced(),
            r.snapshots@.len() == 0,
            r.timeline@.len() == 0,
            r.current_snapshot is None,
            r.max_snapshots == 100,
            r.expiration_policy == ExpirationPolicy::FIFO,
    {
        Self::new(100, ExpirationPolicy::FIFO)
    }
}

/// The ids in `a` that `b` lacks, in the order of `a`.
pub open spec fn missing_from(a: Seq<u128>, b: Seq<u128>) -> Seq<u128> {
    a.filter(absent_from(b))
}

/// Holds of the ids that `b` lacks.
pub open spec fn absent_from(b: Seq<u128>) -> spec_fn(u128) -> bool {
    |x: u128| !b.contains(x)
}

/// Operation ids gained and lost going from history `from` to history `to`:
/// `(added, removed)`, each in the order of the history it comes from.
pub fn operation_changes(from: &Vec<u128>, to: &Vec<u128>) -> (r: (Vec<u128>, Vec<u128>))
    ensures
        r.0@ == missing_from(to@, from@),
        r.1@ == missing_from(from@, to@),
{
    (ids_missing_from(to, from), ids_missing_from(from, to))
}

fn contains_id(v: &Vec<u128>, x: u128) -> (r: bool)
    ensures
        r == v@.contains(x),
{
    let mut i: usize = 0;
    while i < v.len()
        invariant
            i <= v@.len(),
            forall|k: int| 0 <= k < i ==> v@[k] != x,
        decreases v@.len() - i,
    {
        if v[i] == x {
            assert(v@[i as int] == x);
            return true;
        }
        i = i + 1;
    }
    false
}

fn ids_missing_from(a: &Vec<u128>, b: &Vec<u128>) -> (r: Vec<u128>)
    ensures
        r@ == missing_from(a@, b@),
{
    let mut out: Vec<u128> = Vec::new();
    let mut i: usize = 0;
    while i < a.len()
        invariant
            i <= a@.len(),
            out@ == missing_from(a@.subrange(0, i as int), b@),
        decreases a@.len() - i,
    {
        let x = a[i];
        let inside = contains_id(b, x);
        if !inside {
            out.push(x);
        }
        proof {
            let pre = a@.subrange(0, i as int);
            assert(a@.subrange(0, i + 1) =~= pre.push(x));
            pre.lemma_filter_push(x, absent_from(b@));
        }
        i = i + 1;
    }
    assert(a@.subrange(0, a@.len() as int) =~= a@);
    out
}

/// A group of operations applied from a snapshot, which can be undone by returning to it.
pub struct QuantumTransaction<O> {
    pub id: u128,
    /// The snapshot that was current when the transaction began
    pub initial_snapshot: u128,
    pub operations: Vec<O>,
    pub committed: bool,
    pub rollback_on_failure: bool,
}

impl<O> QuantumTransaction<O> {
    /// Begins a transaction at the manager's current snapshot.
    pub fn begin<S>(snapshot_manager: &SnapshotManager<S>) -> (r: Result<Self, String>)
        requires
            snapshot_manager.wf(),
        ensures
            match snapshot_manager.current_snapshot {
                Some(c) if id_index(snapshot_manager.snapshots@, c) is Some => r matches Ok(tx)
                    && tx.initial_snapshot == c && tx.operations@.len() == 0 && !tx.committed
                    && tx.rollback_on_failure,
                _ => r matches Err(m) && m@ == "No current snapshot"@,
            },
    {
        let current = match snapshot_manager.get_current_snapshot() {
            Some(c) => c,
            None => {
                return Err(String::from_str("No current snapshot"));
            },
        };
        Ok(QuantumTransaction {
            id: new_uuid(),
            initial_snapshot: current.id,
            operations: Vec::new(),
            committed: false,
            rollback_on_failure: true,
        })
    }

    /// Records an operation.
    pub fn add_operation(&mut self, operation: O)
        ensures
            final(self).operations@ == old(self).operations@.push(operation),
            final(self).id == old(self).id,
            final(self).initial_snapshot == old(self).initial_snapshot,
            final(self).committed == old(self).committed,
            final(self).rollback_on_failure == old(self).rollback_on_failure,
    {
        self.operations.push(operation);
    }

    /// Marks the transaction committed.
    pub fn commit(&mut self)
        ensures
            final(self).committed,
            final(self).id == old(self).id,
            final(self).initial_snapshot == old(self).initial_snapshot,
            final(self).operations@ == old(self).operations@,
            final(self).rollback_on_failure == old(self).rollback_on_failure,
    {
        self.committed = true;
    }

    /// Returns the manager to the snapshot the transaction began at, when the transaction
    /// rolls back on failure.
    pub fn rollback<S: Clone>(&mut self, snapshot_manager: &mut SnapshotManager<S>) -> (r: Result<(), String>)
        requires
            old(snapshot_manager).wf(),
            old(snapshot_manager).has_rollback_room(old(self).initial_snapshot),
        ensures
            *final(self) == *old(self),
            final(snapshot_manager).wf(),
            !old(self).rollback_on_failure ==> (r is Ok && *final(snapshot_manager) == *old(snapshot_manager)),
            old(self).rollback_on_failure ==> exists|rr: Result<RollbackResult<S>, String>|
                SnapshotManager::rollback_outcome(old(snapshot_manager), final(snapshot_manager),
                    old(self).initial_snapshot, rr) && r == (match rr {
                    Ok(_) => Ok::<(), String>(()),
                    Err(m) => Err::<(), String>(m),
                }),
    {
        if self.rollback_on_failure {
            let rr = snapshot_manager.rollback_to(self.initial_snapshot);
            match rr {
                Ok(_) => {},
                Err(m) => {
                    return Err(m);
                },
            }
        }
        Ok(())
    }
}

/// No id occurs twice in the sequence of snapshots.
pub open spec fn distinct_ids<S>(s: Seq<QuantumSnapshot<S>>) -> bool {
    forall|i: int, j: int| 0 <= i < s.len() && 0 <= j < s.len() && i != j ==> s[i].id != s[j].id
}

proof fn lemma_id_index_at<S>(s: Seq<QuantumSnapshot<S>>, j: int)
    requires
        distinct_ids(s),
        0 <= j < s.len(),
    ensures
        id_index(s, s[j].id) == Some(j),
{
    let id = s[j].id;
    assert(exists|i: int| 0 <= i < s.len() && s[i].id == id);
}

/// A snapshot just created is found again under the id it was given, and is the current one.
pub proof fn law_created_snapshot_is_found<S>(
    pre: SnapshotManager<S>,
    post: SnapshotManager<S>,
    r: u128,
    label: String,
    data: S,
    importance: u64,
    now: u64,
)
    requires
        post.wf(),
        SnapshotManager::creation_outcome(&pre, &post, r, label, data, importance, now),
    ensures
        id_index(post.snapshots@, r) matches Some(j) && fresh_snapshot(post.snapshots@[j], r, label, data, importance, now),
        post.current_snapshot == Some(r),
{
    let (s1, t1) = pre.after_expiry();
    let j = match id_index(s1, r) {
        Some(i) => {
            assert(0 <= i < s1.len() && s1[i].id == r);
            i
        },
        None => s1.len() as int,
    };
    lemma_id_index_at(post.snapshots@, j);
}
/// Under the FIFO and LRU policies, capturing into a full store makes room by dropping the
/// snapshot named by the oldest timeline entry, and only that one: it is no longer stored,
/// every other stored snapshot stays, the store keeps its size, and the timeline loses its
/// oldest entry and gains the new one.
pub proof fn law_full_store_drops_oldest<S>(
    pre: SnapshotManager<S>,
    post: SnapshotManager<S>,
    r: u128,
    label: String,
    data: S,
    importance: u64,
    now: u64,
)
    requires
        pre.wf(),
        pre.expiration_policy == ExpirationPolicy::FIFO || pre.expiration_policy == ExpirationPolicy::LRU,
        pre.snapshots@.len() >= pre.max_snapshots,
        pre.timeline@.len() > 0,
        stored(pre.snapshots@, pre.timeline@[0].1),
        !stored(pre.snapshots@, r),
        SnapshotManager::creation_outcome(&pre, &post, r, label, data, importance, now),
    ensures
        !stored(post.snapshots@, pre.timeline@[0].1),
        forall|id: u128| stored(pre.snapshots@, id) && id != pre.timeline@[0].1 ==> #[trigger] stored(post.snapshots@, id),
        stored(post.snapshots@, r),
        post.snapshots@.len() == pre.snapshots@.len(),
        post.timeline@ == pre.timeline@.drop_first().push((now, r)),
{
    let s = pre.snapshots@;
    let tl = pre.timeline@;
    let o = tl[0].1;
    let (s1, t1) = pre.after_expiry();
    assert(id_index(s, o) is Some);
    let i = id_index(s, o)->0;
    assert(s[i].id == o);
    assert(s1 == s.remove(i));
    assert(t1 == tl.drop_first());
    assert forall|k: int| 0 <= k < s1.len() implies (#[trigger] s1[k]).id != o && s1[k].id != r by {
        if k < i {
            assert(s1[k] == s[k]);
        } else {
            assert(s1[k] == s[k + 1]);
        }
    }
    assert(id_index(s1, r) is None);
    let p = post.snapshots@;
    assert(p == s1.push(p[s1.len() as int]));
    assert(p[s1.len() as int].id == r);
    assert forall|k: int| 0 <= k < p.len() implies (#[trigger] p[k]).id != o by {
        if k < s1.len() {
            assert(p[k] == s1[k]);
        }
    }
    assert forall|id: u128| stored(s, id) && id != o implies #[trigger] stored(p, id) by {
        let j = choose|j: int| 0 <= j < s.len() && s[j].id == id;
        assert(j != i);
        if j < i {
            assert(s1[j] == s[j]);
            assert(p[j] == s1[j]);
        } else {
            assert(s1[j - 1] == s[j]);
            assert(p[j - 1] == s1[j - 1]);
        }
    }
    assert(p[s1.len() as int].id == r);
}

/// Under the importance-based policy, capturing into a full, non-empty store makes room by
/// dropping one snapshot of least importance, and only that one: no stored snapshot is
/// less important than the dropped one, it is no longer stored, and every other stored
/// snapshot stays.
pub proof fn law_full_store_drops_least_important<S>(
    pre: SnapshotManager<S>,
    post: SnapshotManager<S>,
    r: u128,
    label: String,
    data: S,
    importance: u64,
    now: u64,
)
    requires
        pre.wf(),
        pre.expiration_policy == ExpirationPolicy::ImportanceBased,
        pre.snapshots@.len() >= pre.max_snapshots,
        pre.snapshots@.len() > 0,
        !stored(pre.snapshots@, r),
        SnapshotManager::creation_outcome(&pre, &post, r, label, data, importance, now),
    ensures
        exists|d: int|
            0 <= d < pre.snapshots@.len() && (forall|k: int|
                0 <= k < pre.snapshots@.len() ==> pre.snapshots@[d].importance <= #[trigger] pre.snapshots@[k].importance)
                && !stored(post.snapshots@, #[trigger] pre.snapshots@[d].id) && (forall|id: u128|
                stored(pre.snapshots@, id) && id != pre.snapshots@[d].id ==> #[trigger] stored(post.snapshots@, id)),
        stored(post.snapshots@, r),
        post.snapshots@.len() == pre.snapshots@.len(),
{
    let s = pre.snapshots@;
    let (s1, t1) = pre.after_expiry();
    lemma_least_exists(s);
    let i = least_important(s);
    let o = s[i].id;
    assert(s1 == s.remove(i));
    assert forall|k: int| 0 <= k < s1.len() implies (#[trigger] s1[k]).id != o && s1[k].id != r by {
        if k < i {
            assert(s1[k] == s[k]);
        } else {
            assert(s1[k] == s[k + 1]);
        }
    }
    assert(id_index(s1, r) is None);
    let p = post.snapshots@;
    assert(p == s1.push(p[s1.len() as int]));
    assert(p[s1.len() as int].id == r);
    assert forall|k: int| 0 <= k < p.len() implies (#[trigger] p[k]).id != o by {
        if k < s1.len() {
            assert(p[k] == s1[k]);
        }
    }
    assert forall|id: u128| stored(s, id) && id != o implies #[trigger] stored(p, id) by {
        let j = choose|j: int| 0 <= j < s.len() && s[j].id == id;
        assert(j != i);
        if j < i {
            assert(s1[j] == s[j]);
            assert(p[j] == s1[j]);
        } else {
            assert(s1[j - 1] == s[j]);
            assert(p[j - 1] == s1[j - 1]);
        }
    }
    assert(!stored(p, s[i].id));
}

/// Some stored snapshot has id `id`.
pub open spec fn stored<S>(s: Seq<QuantumSnapshot<S>>, id: u128) -> bool {
    exists|i: int| 0 <= i < s.len() && s[i].id == id
}

/// Some timeline entry names `id`.
pub open spec fn on_timeline(tl: Seq<(u64, u128)>, id: u128) -> bool {
    exists|k: int| 0 <= k < tl.len() && tl[k].1 == id
}

/// No id occurs twice on the timeline.
pub open spec fn distinct_entries(tl: Seq<(u64, u128)>) -> bool {
    forall|a: int, b: int| 0 <= a < tl.len() && 0 <= b < tl.len() && a != b ==> tl[a].1 != tl[b].1
}

impl<S> SnapshotManager<S> {
    /// The timeline names each stored snapshot exactly once, and nothing else.
    pub open spec fn synced(&self) -> bool {
        &&& forall|k: int| 0 <= k < self.timeline@.len() ==> stored(self.snapshots@, #[trigger] self.timeline@[k].1)
        &&& forall|i: int| 0 <= i < self.snapshots@.len() ==> on_timeline(self.timeline@, #[trigger] self.snapshots@[i].id)
        &&& distinct_entries(self.timeline@)
    }
}

proof fn lemma_least_exists<S>(s: Seq<QuantumSnapshot<S>>)
    requires
        s.len() > 0,
    ensures
        least_at(s, least_important(s)),
    decreases s.len(),
{
    if s.len() == 1 {
        assert(least_at(s, 0));
    } else {
        let t = s.drop_last();
        lemma_least_exists(t);
        let j = least_important(t);
        let n = s.len() - 1;
        if s[n].importance < s[j].importance {
            assert forall|k: int| 0 <= k < n implies s[k].importance > s[n].importance by {
                assert(t[k] == s[k]);
            }
            assert(least_at(s, n));
        } else {
            assert forall|k: int| 0 <= k < s.len() implies s[j].importance <= s[k].importance by {
                if k < n {
                    assert(t[k] == s[k]);
                }
            }
            assert forall|k: int| 0 <= k < j implies s[k].importance > s[j].importance by {
                assert(t[k] == s[k]);
            }
            assert(least_at(s, j));
        }
    }
}

proof fn lemma_timeline_without(tl: Seq<(u64, u128)>, x: u128)
    ensures
        forall|k: int| 0 <= k < timeline_without(tl, x).len() ==> (#[trigger] timeline_without(tl, x)[k]).1 != x
            && exists|m: int| 0 <= m < tl.len() && tl[m] == timeline_without(tl, x)[k],
        forall|m: int| 0 <= m < tl.len() && tl[m].1 != x ==> exists|k: int|
            0 <= k < timeline_without(tl, x).len() && timeline_without(tl, x)[k] == #[trigger] tl[m],
        distinct_entries(tl) ==> distinct_entries(timeline_without(tl, x)),
    decreases tl.len(),
{
    if tl.len() > 0 {
        let t = tl.drop_last();
        lemma_timeline_without(t, x);
        let w = timeline_without(t, x);
        let r = timeline_without(tl, x);
        let e = tl.last();
        assert forall|k: int| 0 <= k < r.len() implies (#[trigger] r[k]).1 != x
            && exists|m: int| 0 <= m < tl.len() && tl[m] == r[k] by {
            if k < w.len() {
                assert(r[k] == w[k]);
                let m = choose|m: int| 0 <= m < t.len() && t[m] == w[k];
                assert(tl[m] == t[m]);
            } else {
                assert(r[k] == e);
                assert(tl[tl.len() - 1] == e);
            }
        }
        assert forall|m: int| 0 <= m < tl.len() && tl[m].1 != x implies exists|k: int|
            0 <= k < r.len() && r[k] == #[trigger] tl[m] by {
            if m < t.len() {
                assert(t[m] == tl[m]);
                let k = choose|k: int| 0 <= k < w.len() && w[k] == t[m];
                assert(r[k] == w[k]);
            } else {
                assert(r[r.len() - 1] == e);
            }
        }
        if distinct_entries(tl) {
            assert(distinct_entries(t)) by {
                assert forall|a: int, b: int| 0 <= a < t.len() && 0 <= b < t.len() && a != b implies t[a].1 != t[b].1 by {
                    assert(t[a] == tl[a] && t[b] == tl[b]);
                }
            }
            assert forall|a: int, b: int| 0 <= a < r.len() && 0 <= b < r.len() && a != b implies r[a].1 != r[b].1 by {
                if a < w.len() && b < w.len() {
                    assert(r[a] == w[a] && r[b] == w[b]);
                } else if a < w.len() {
                    assert(r[a] == w[a] && r[b] == e);
                    let m = choose|m: int| 0 <= m < t.len() && t[m] == w[a];
                    assert(tl[m] == t[m]);
                    assert(tl[tl.len() - 1] == e);
                } else {
                    assert(r[b] == w[b] && r[a] == e);
                    let m = choose|m: int| 0 <= m < t.len() && t[m] == w[b];
                    assert(tl[m] == t[m]);
                    assert(tl[tl.len() - 1] == e);
                }
            }
        }
    }
}

/// When the policy expires snapshots and the limit is positive, creating a snapshot in a
/// store that is within its limit (and whose timeline agrees with it) leaves it within
/// its limit.
pub proof fn law_store_stays_within_limit<S>(
    pre: SnapshotManager<S>,
    post: SnapshotManager<S>,
    r: u128,
    label: String,
    data: S,
    importance: u64,
    now: u64,
)
    requires
        pre.wf(),
        pre.synced(),
        pre.max_snapshots > 0,
        pre.snapshots@.len() <= pre.max_snapshots,
        pre.expiration_policy != ExpirationPolicy::KeepAll,
        SnapshotManager::creation_outcome(&pre, &post, r, label, data, importance, now),
    ensures
        post.snapshots@.len() <= post.max_snapshots,
{
    let s = pre.snapshots@;
    let tl = pre.timeline@;
    let (s1, t1) = pre.after_expiry();
    if s.len() >= pre.max_snapshots {
        match pre.expiration_policy {
            ExpirationPolicy::ImportanceBased => {
                lemma_least_exists(s);
            },
            _ => {
                assert(on_timeline(tl, s[0].id));
                let k = choose|k: int| 0 <= k < tl.len() && tl[k].1 == s[0].id;
                assert(stored(s, tl[0].1));
                let i = choose|i: int| 0 <= i < s.len() && s[i].id == tl[0].1;
                assert(id_index(s, tl[0].1) is Some);
            },
        }
    }
    assert(s1.len() < pre.max_snapshots);
}
/// Creating a snapshot under a fresh id keeps the timeline in agreement with the store.
pub proof fn law_creation_keeps_timeline_in_sync<S>(
    pre: SnapshotManager<S>,
    post: SnapshotManager<S>,
    r: u128,
    label: String,
    data: S,
    importance: u64,
    now: u64,
)
    requires
        pre.wf(),
        pre.synced(),
        !stored(pre.snapshots@, r),
        SnapshotManager::creation_outcome(&pre, &post, r, label, data, importance, now),
    ensures
        post.synced(),
{
    let s = pre.snapshots@;
    let tl = pre.timeline@;
    let (s1, t1) = pre.after_expiry();
    // After expiry the store and the timeline still agree, and `r` is on neither.
    assert(forall|k: int| 0 <= k < t1.len() ==> stored(s1, #[trigger] t1[k].1)
        && t1[k].1 != r) by {
        lemma_expiry_keeps_sync(pre, r);
    }
    assert(forall|i: int| 0 <= i < s1.len() ==> on_timeline(t1, #[trigger] s1[i].id) && s1[i].id != r) by {
        lemma_expiry_keeps_sync(pre, r);
    }
    assert(distinct_entries(t1)) by {
        lemma_expiry_keeps_sync(pre, r);
    }
    assert(id_index(s1, r) is None);
    let snap = post.snapshots@[s1.len() as int];
    let s2 = s1.push(snap);
    let t2 = t1.push((now, r));
    assert(post.snapshots@ == s2);
    assert(post.timeline@ == t2);
    assert forall|k: int| 0 <= k < t2.len() implies stored(s2, #[trigger] t2[k].1) by {
        if k < t1.len() {
            assert(t2[k] == t1[k]);
            assert(stored(s1, t1[k].1));
            let i = choose|i: int| 0 <= i < s1.len() && s1[i].id == t1[k].1;
            assert(s2[i] == s1[i]);
        } else {
            assert(s2[s1.len() as int] == snap);
        }
    }
    assert forall|i: int| 0 <= i < s2.len() implies on_timeline(t2, #[trigger] s2[i].id) by {
        if i < s1.len() {
            assert(s2[i] == s1[i]);
            assert(on_timeline(t1, s1[i].id));
            let k = choose|k: int| 0 <= k < t1.len() && t1[k].1 == s1[i].id;
            assert(t2[k] == t1[k]);
        } else {
            assert(t2[t1.len() as int] == (now, r));
        }
    }
    assert forall|a: int, b: int| 0 <= a < t2.len() && 0 <= b < t2.len() && a != b implies t2[a].1 != t2[b].1 by {
        if a < t1.len() && b < t1.len() {
            assert(t2[a] == t1[a] && t2[b] == t1[b]);
        } else if a < t1.len() {
            assert(t2[a] == t1[a]);
            assert(stored(s1, t1[a].1) && t1[a].1 != r);
        } else {
            assert(t2[b] == t1[b]);
            assert(stored(s1, t1[b].1) && t1[b].1 != r);
        }
    }
}

proof fn lemma_expiry_keeps_sync<S>(pre: SnapshotManager<S>, r: u128)
    requires
        pre.wf(),
        pre.synced(),
        !stored(pre.snapshots@, r),
    ensures
        ({
            let (s1, t1) = pre.after_expiry();
            &&& forall|k: int| 0 <= k < t1.len() ==> stored(s1, #[trigger] t1[k].1) && t1[k].1 != r
            &&& forall|i: int| 0 <= i < s1.len() ==> on_timeline(t1, #[trigger] s1[i].id) && s1[i].id != r
            &&& distinct_entries(t1)
        }),
{
    let s = pre.snapshots@;
    let tl = pre.timeline@;
    let (s1, t1) = pre.after_expiry();
    assert forall|k: int| 0 <= k < tl.len() implies tl[k].1 != r by {
        assert(stored(s, tl[k].1));
    }
    if s.len() >= pre.max_snapshots {
        match pre.expiration_policy {
            ExpirationPolicy::ImportanceBased => {
                if s.len() > 0 {
                    lemma_least_exists(s);
                    let i = least_important(s);
                    let x = s[i].id;
                    lemma_timeline_without(tl, x);
                    assert(s1 == s.remove(i));
                    assert(t1 == timeline_without(tl, x));
                    assert forall|k: int| 0 <= k < t1.len() implies stored(s1, #[trigger] t1[k].1) && t1[k].1 != r by {
                        let m = choose|m: int| 0 <= m < tl.len() && tl[m] == t1[k];
                        assert(stored(s, tl[m].1));
                        let j = choose|j: int| 0 <= j < s.len() && s[j].id == tl[m].1;
                        assert(j != i);
                        if j < i {
                            assert(s1[j] == s[j]);
                        } else {
                            assert(s1[j - 1] == s[j]);
                        }
                    }
                    assert forall|j: int| 0 <= j < s1.len() implies on_timeline(t1, #[trigger] s1[j].id) && s1[j].id != r by {
                        let sj = if j < i { j } else { j + 1 };
                        assert(s1[j] == s[sj]);
                        assert(on_timeline(tl, s[sj].id));
                        let m = choose|m: int| 0 <= m < tl.len() && tl[m].1 == s[sj].id;
                        assert(s[sj].id != x);
                        assert(tl[m].1 != x);
                        let k = choose|k: int| 0 <= k < t1.len() && t1[k] == tl[m];
                    }
                }
            },
            ExpirationPolicy::KeepAll => {},
            _ => {
                if tl.len() > 0 {
                    let x = tl[0].1;
                    assert(stored(s, x));
                    let i = id_index(s, x)->0;
                    assert(s1 == s.remove(i));
                    assert(t1 == tl.drop_first());
                    assert forall|k: int| 0 <= k < t1.len() implies stored(s1, #[trigger] t1[k].1) && t1[k].1 != r by {
                        assert(t1[k] == tl[k + 1]);
                        assert(tl[k + 1].1 != x);
                        assert(stored(s, tl[k + 1].1));
                        let j = choose|j: int| 0 <= j < s.len() && s[j].id == tl[k + 1].1;
                        assert(j != i);
                        if j < i {
                            assert(s1[j] == s[j]);
                        } else {
                            assert(s1[j - 1] == s[j]);
                        }
                    }
                    assert forall|j: int| 0 <= j < s1.len() implies on_timeline(t1, #[trigger] s1[j].id) && s1[j].id != r by {
                        let sj = if j < i { j } else { j + 1 };
                        assert(s1[j] == s[sj]);
                        assert(on_timeline(tl, s[sj].id));
                        let m = choose|m: int| 0 <= m < tl.len() && tl[m].1 == s[sj].id;
                        assert(s[sj].id != x);
                        assert(m != 0);
                        assert(t1[m - 1] == tl[m]);
                    }
                    assert forall|a: int, b: int| 0 <= a < t1.len() && 0 <= b < t1.len() && a != b implies t1[a].1 != t1[b].1 by {
                        assert(t1[a] == tl[a + 1] && t1[b] == tl[b + 1]);
                    }
                }
            },
        }
    }
}
impl<S> SnapshotManager<S> {
    /// The rollback counters can absorb one more rollback to any stored snapshot.
    pub open spec fn rollback_counters_fit(&self) -> bool {
        &&& self.stats.total_rollbacks < u64::MAX
        &&& self.stats.successful_rollbacks < u64::MAX
        &&& forall|i: int| 0 <= i < self.snapshots@.len() ==> self.stats.total_rollback_distance_ns
            + (#[trigger] self.snapshots@[i]).timestamp_ns <= u64::MAX
    }
}

pub(crate) proof fn lemma_counters_fit_give_room<S>(m: SnapshotManager<S>, t: u128)
    requires
        m.rollback_counters_fit(),
    ensures
        m.has_rollback_room(t),
{
    let s = m.snapshots@;
    if id_index(s, t) is Some {
        assert(exists|i: int| 0 <= i < s.len() && s[i].id == t);
        let ti = id_index(s, t)->0;
        assert(m.stats.total_rollback_distance_ns + s[ti].timestamp_ns <= u64::MAX);
    }
}

pub(crate) proof fn lemma_creation_keeps_counters_fit<S>(
    pre: SnapshotManager<S>,
    post: SnapshotManager<S>,
    r: u128,
    label: String,
    data: S,
    importance: u64,
    now: u64,
)
    requires
        pre.rollback_counters_fit(),
        pre.stats.total_rollback_distance_ns + now <= u64::MAX,
        SnapshotManager::creation_outcome(&pre, &post, r, label, data, importance, now),
    ensures
        post.rollback_counters_fit(),
{
    let s = pre.snapshots@;
    let (s1, t1) = pre.after_expiry();
    let dist = pre.stats.total_rollback_distance_ns;
    assert forall|k: int| 0 <= k < s1.len() implies dist + (#[trigger] s1[k]).timestamp_ns <= u64::MAX by {
        if s1 =~= s {
            assert(s1[k] == s[k]);
        } else {
            let i = if pre.expiration_policy == ExpirationPolicy::ImportanceBased {
                least_important(s)
            } else {
                id_index(s, pre.timeline@[0].1)->0
            };
            if pre.expiration_policy == ExpirationPolicy::ImportanceBased {
                lemma_least_exists(s);
            } else {
                assert(exists|j: int| 0 <= j < s.len() && s[j].id == pre.timeline@[0].1);
            }
            assert(s1 == s.remove(i));
            if k < i {
                assert(s1[k] == s[k]);
            } else {
                assert(s1[k] == s[k + 1]);
            }
        }
    }
    let s2 = post.snapshots@;
    assert forall|k: int| 0 <= k < s2.len() implies dist + (#[trigger] s2[k]).timestamp_ns <= u64::MAX by {
        match id_index(s1, r) {
            Some(i) => {
                if k != i {
                    assert(s2[k] == s1[k]);
                }
            },
            None => {
                if k < s1.len() {
                    assert(s2[k] == s1[k]);
                }
            },
        }
    }
}

} // verus!
