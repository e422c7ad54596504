//! Harmonic scheduler: a priority queue of quantum tasks, run one at a time under their
//! temporal contracts, with a snapshot before each task and a rollback after a failure.
use vstd::prelude::*;
use vstd::string::*;
use crate::contract::{exceeded_by, ContractManager, TemporalContract, ValidationResult, duration_verdict};
use crate::ids::new_uuid;
use crate::snapshot::{lemma_counters_fit_give_room, lemma_creation_keeps_counters_fit, RollbackResult, SnapshotManager};
use crate::text::concat;
use crate::tlm::{ElectromagneticOctave, SchedulerConfig, SchedulerStatistics, TaskExecutionResult};

verus! {

/// The octave of a task lasting `d` nanoseconds, by its characteristic frequency 1e9/d Hz
/// (a task of no duration counts as visible light).
pub open spec fn octave_of_duration(d: u64) -> ElectromagneticOctave {
    if d == 0 {
        ElectromagneticOctave::Visible
    } else if d > 1_000_000_000 {
        ElectromagneticOctave::Gravity
    } else if d > 1_000_000 {
        ElectromagneticOctave::Magnetism
    } else if d > 1_000 {
        ElectromagneticOctave::Electricity
    } else if d > 1 {
        ElectromagneticOctave::Heat
    } else {
        ElectromagneticOctave::Infrared
    }
}

/// The octave of a task lasting `duration_ns` nanoseconds.
pub fn octave_for_duration(duration_ns: u64) -> (r: ElectromagneticOctave)
    ensures
        r == octave_of_duration(duration_ns),
{
    if duration_ns == 0 {
        ElectromagneticOctave::Visible
    } else if duration_ns > 1_000_000_000 {
        ElectromagneticOctave::Gravity
    } else if duration_ns > 1_000_000 {
        ElectromagneticOctave::Magnetism
    } else if duration_ns > 1_000 {
        ElectromagneticOctave::Electricity
    } else if duration_ns > 1 {
        ElectromagneticOctave::Heat
    } else {
        ElectromagneticOctave::Infrared
    }
}

/// Quantum task to be scheduled.
pub struct QuantumTask<O> {
    pub id: u128,
    pub name: String,
    pub operations: Vec<O>,
    pub contract: Option<TemporalContract>,
    pub priority: u8,
    pub estimated_duration_ns: u64,
    pub deadline_ns: Option<u64>,
    pub octave: ElectromagneticOctave,
    pub dependencies: Vec<u128>,
    pub created_at_ns: u64,
}

impl<O> QuantumTask<O> {
    /// A task of medium priority (128), estimated at 100 ns per operation, created at `now`
    /// under a fresh random id.
    pub fn new(name: String, operations: Vec<O>, now: u64) -> (r: Self)
        requires
            operations@.len() * 100 <= u64::MAX,
        ensures
            r.name == name,
            r.operations == operations,
            r.contract is None,
            r.priority == 128,
            r.estimated_duration_ns == operations@.len() * 100,
            r.deadline_ns is None,
            r.octave == octave_of_duration(r.estimated_duration_ns),
            r.dependencies@.len() == 0,
            r.created_at_ns == now,
    {
        let estimated_duration_ns = operations.len() as u64 * 100;
        QuantumTask {
            id: new_uuid(),
            name,
            operations,
            contract: None,
            priority: 128,
            estimated_duration_ns,
            deadline_ns: None,
            octave: octave_for_duration(estimated_duration_ns),
            dependencies: Vec::new(),
            created_at_ns: now,
        }
    }

    /// The task under `contract`.
    pub fn with_contract(self, contract: TemporalContract) -> (r: Self)
        ensures
            r == (QuantumTask { contract: Some(contract), ..self }),
    {
        QuantumTask { contract: Some(contract), ..self }
    }

    /// The task with priority `priority`.
    pub fn with_priority(self, priority: u8) -> (r: Self)
        ensures
            r == (QuantumTask { priority, ..self }),
    {
        QuantumTask { priority, ..self }
    }

    /// The task with deadline `deadline_ns`.
    pub fn with_deadline(self, deadline_ns: u64) -> (r: Self)
        ensures
            r == (QuantumTask { deadline_ns: Some(deadline_ns), ..self }),
    {
        QuantumTask { deadline_ns: Some(deadline_ns), ..self }
    }

    /// The task depending on `dependencies`.
    pub fn with_dependencies(self, dependencies: Vec<u128>) -> (r: Self)
        ensures
            r == (QuantumTask { dependencies, ..self }),
    {
        QuantumTask { dependencies, ..self }
    }
}

/// Deadline `a` comes before deadline `b`: an earlier one first, and any deadline before none.
pub open spec fn deadline_before(a: Option<u64>, b: Option<u64>) -> bool {
    match (a, b) {
        (Some(x), Some(y)) => x < y,
        (Some(_), None) => true,
        _ => false,
    }
}

/// Task `a` runs before task `b`: higher priority first, then by deadline.
pub open spec fn precedes<O>(a: QuantumTask<O>, b: QuantumTask<O>) -> bool {
    a.priority > b.priority || (a.priority == b.priority && deadline_before(a.deadline_ns, b.deadline_ns))
}

fn runs_before<O>(a: &QuantumTask<O>, b: &QuantumTask<O>) -> (r: bool)
    ensures
        r == precedes(*a, *b),
{
    if a.priority != b.priority {
        a.priority > b.priority
    } else {
        match (a.deadline_ns, b.deadline_ns) {
            (Some(x), Some(y)) => x < y,
            (Some(_), None) => true,
            _ => false,
        }
    }
}

/// Index `i` holds the task to run next: none runs before it, and it runs before every
/// task queued ahead of it (so among equals the earliest scheduled goes first).
pub open spec fn next_at<O>(q: Seq<QuantumTask<O>>, i: int) -> bool {
    &&& 0 <= i < q.len()
    &&& forall|k: int| 0 <= k < q.len() ==> !precedes(#[trigger] q[k], q[i])
    &&& forall|k: int| 0 <= k < i ==> precedes(q[i], #[trigger] q[k])
}

/// The index of the task to run next.
pub open spec fn next_task<O>(q: Seq<QuantumTask<O>>) -> int {
    choose|i: int| next_at(q, i)
}

/// Every dependency is among the completed tasks.
pub open spec fn deps_met(deps: Seq<u128>, done: Seq<u128>) -> bool {
    forall|j: int| 0 <= j < deps.len() ==> done.contains(#[trigger] deps[j])
}

/// The running average after the `n`-th completion when a task of `d` ns ran (unchanged
/// before any completion).
pub open spec fn next_average(avg: u64, n: u64, d: u64) -> u64 {
    if n > 0 {
        ((avg * (n - 1) + d) / n as int) as u64
    } else {
        avg
    }
}

/// Scheduler over the harmonics of the ten octaves.
pub struct HarmonicScheduler<O> {
    /// Waiting tasks, in order of scheduling
    pub task_queue: Vec<QuantumTask<O>>,
    /// Tasks being run
    pub running_tasks: Vec<u128>,
    /// Completed tasks, in order of completion
    pub completed_tasks: Vec<u128>,
    /// Contract manager
    pub contract_manager: ContractManager,
    /// Snapshots taken before tasks; each records the qubit count of the reset state
    pub snapshot_manager: SnapshotManager<usize>,
    /// Statistics
    pub stats: SchedulerStatistics,
    /// Configuration
    pub config: SchedulerConfig,
}

impl<O> HarmonicScheduler<O> {
    /// The managers are well formed.
    pub open spec fn wf(&self) -> bool {
        self.contract_manager.wf() && self.snapshot_manager.wf()
    }

    /// The counters can absorb running one more task at time `now`.
    pub open spec fn ready(&self, now: u64) -> bool {
        &&& self.stats.total_tasks_completed < u64::MAX
        &&& self.stats.total_tasks_failed < u64::MAX
        &&& self.stats.contract_violations < u64::MAX
        &&& self.stats.total_rollbacks < u64::MAX
        &&& forall|k: int| 0 <= k < self.task_queue@.len() ==> self.stats.avg_task_duration_ns
            * self.stats.total_tasks_completed + (#[trigger] self.task_queue@[k]).estimated_duration_ns
            <= u64::MAX
        &&& self.contract_manager.can_validate()
        &&& self.snapshot_manager.stats.total_snapshots_created < u64::MAX
        &&& self.snapshot_manager.rollback_counters_fit()
        &&& self.snapshot_manager.stats.total_rollback_distance_ns + now <= u64::MAX
    }

    /// A scheduler with the default configuration.
    pub fn new() -> (r: Self)
        ensures
            r.wf(),
            r.task_queue@.len() == 0,
            r.running_tasks@.len() == 0,
            r.completed_tasks@.len() == 0,
            r.config.max_concurrent_tasks == 10,
            r.config.auto_snapshots,
            r.config.auto_rollback,
            r.stats.total_tasks_scheduled == 0,
    {
        Self::with_config(SchedulerConfig::default())
    }

    /// A scheduler with configuration `config`, empty managers and zeroed statistics.
    pub fn with_config(config: SchedulerConfig) -> (r: Self)
        ensures
            r.wf(),
            r.task_queue@.len() == 0,
            r.running_tasks@.len() == 0,
            r.completed_tasks@.len() == 0,
            r.contract_manager.temporal_contracts@.len() == 0,
            r.snapshot_manager.snapshots@.len() == 0,
            r.snapshot_manager.max_snapshots == 100,
            r.config == config,
            r.stats.total_tasks_scheduled == 0,
            r.stats.total_tasks_completed == 0,
            r.stats.total_tasks_failed == 0,
            r.stats.total_rollbacks == 0,
            r.stats.avg_task_duration_ns == 0,
            r.stats.contract_violations == 0,
    {
        HarmonicScheduler {
            task_queue: Vec::new(),
            running_tasks: Vec::new(),
            completed_tasks: Vec::new(),
            contract_manager: ContractManager::new(),
            snapshot_manager: SnapshotManager::default(),
            stats: SchedulerStatistics::default(),
            config,
        }
    }

    /// Queues a task, registering its contract if it has one; returns the task's id.
    pub fn schedule_task(&mut self, task: QuantumTask<O>) -> (r: u128)
        requires
            old(self).wf(),
            old(self).stats.total_tasks_scheduled < u64::MAX,
        ensures
            final(self).wf(),
            r == task.id,
            final(self).task_queue@ == old(self).task_queue@.push(task),
            match task.contract {
                Some(c) => final(self).contract_manager.temporal_contracts@.contains(c),
                None => final(self).contract_manager == old(self).contract_manager,
            },
            final(self).stats == (SchedulerStatistics {
                total_tasks_scheduled: (old(self).stats.total_tasks_scheduled + 1) as u64,
                ..old(self).stats
            }),
            final(self).running_tasks == old(self).running_tasks,
            final(self).completed_tasks == old(self).completed_tasks,
            final(self).snapshot_manager == old(self).snapshot_manager,
            final(self).config == old(self).config,
    {
        let id = task.id;
        match &task.contract {
            Some(c) => {
                self.contract_manager.register_temporal(c.clone());
            },
            None => {},
        }
        self.task_queue.push(task);
        self.stats.total_tasks_scheduled = self.stats.total_tasks_scheduled + 1;
        id
    }

    /// What running the next task at time `now` turns `pre` into, with result `r`. Nothing
    /// runs when the concurrency limit is reached, the queue is empty, or the next task
    /// waits on a task not yet completed. Else the next task leaves the queue; if it has a
    /// contract, every registered temporal contract checks its estimated duration, and it
    /// succeeds when none is exceeded (a task without contract always succeeds).
    pub open spec fn execution_outcome(pre: &Self, post: &Self, now: u64, r: Option<TaskExecutionResult>) -> bool {
        let q = pre.task_queue@;
        if pre.running_tasks@.len() >= pre.config.max_concurrent_tasks || q.len() == 0 {
            r is None && *post == *pre
        } else if !deps_met(q[next_task(q)].dependencies@, pre.completed_tasks@) {
            r is None && *post == *pre
        } else {
            let i = next_task(q);
            let task = q[i];
            let d = task.estimated_duration_ns;
            let cs = pre.contract_manager.temporal_contracts@;
            let success = task.contract is None || cs.filter(exceeded_by(d)).len() == 0;
            let n = if success { pre.stats.total_tasks_completed + 1 } else { pre.stats.total_tasks_completed as int };
            &&& post.task_queue@ == q.remove(i)
            &&& post.running_tasks@ == pre.running_tasks@
            &&& post.completed_tasks@ == (if success { pre.completed_tasks@.push(task.id) } else { pre.completed_tasks@ })
            &&& (if task.contract is Some {
                exists|res: Seq<ValidationResult>| ContractManager::validation_outcome(
                    &pre.contract_manager, &post.contract_manager, d, now, res)
            } else {
                post.contract_manager == pre.contract_manager
            })
            &&& snapshot_phase(pre.snapshot_manager, post.snapshot_manager, task.name@, success, pre.config, now)
            &&& post.stats == (SchedulerStatistics {
                total_tasks_completed: n as u64,
                total_tasks_failed: if success { pre.stats.total_tasks_failed } else { (pre.stats.total_tasks_failed + 1) as u64 },
                contract_violations: if success { pre.stats.contract_violations } else { (pre.stats.contract_violations + 1) as u64 },
                total_rollbacks: if !success && pre.config.auto_rollback {
                    (pre.stats.total_rollbacks + 1) as u64
                } else {
                    pre.stats.total_rollbacks
                },
                avg_task_duration_ns: next_average(pre.stats.avg_task_duration_ns, n as u64, d),
                ..pre.stats
            })
            &&& post.config == pre.config
            &&& r == Some(TaskExecutionResult {
                task_id: task.id,
                success,
                duration_ns: d,
                contract_violations: if success { 0 } else { 1 },
                snapshot_created: pre.config.auto_snapshots,
            })
        }
    }

    /// The index of the task to run next.
    fn next_index(&self) -> (r: usize)
        requires
            self.task_queue@.len() > 0,
        ensures
            r < self.task_queue@.len(),
            r == next_task(self.task_queue@),
    {
        let ghost q = self.task_queue@;
        let mut best: usize = 0;
        let mut i: usize = 1;
        while i < self.task_queue.len()
            invariant
                q == self.task_queue@,
                1 <= i <= q.len(),
                best < i,
                forall|k: int| 0 <= k < i ==> !precedes(#[trigger] q[k], q[best as int]),
                forall|k: int| 0 <= k < best ==> precedes(q[best as int], #[trigger] q[k]),
            decreases q.len() - i,
        {
            if runs_before(&self.task_queue[i], &self.task_queue[best]) {
                best = i;
            }
            i = i + 1;
        }
        assert(next_at(q, best as int));
        assert(next_task(q) == best as int) by {
            let c = next_task(q);
            assert(next_at(q, c));
            if c < best {
                assert(precedes(q[best as int], q[c]));
            } else if c > best {
                assert(precedes(q[c], q[best as int]));
            }
        }
        best
    }

    /// Every dependency of `task` has completed.
    fn are_dependencies_met(&self, task: &QuantumTask<O>) -> (r: bool)
        ensures
            r == deps_met(task.dependencies@, self.completed_tasks@),
    {
        let mut j: usize = 0;
        while j < task.dependencies.len()
            invariant
                j <= task.dependencies@.len(),
                forall|k: int| 0 <= k < j ==> self.completed_tasks@.contains(#[trigger] task.dependencies@[k]),
            decreases task.dependencies@.len() - j,
        {
            let dep = task.dependencies[j];
            let mut found = false;
            let mut m: usize = 0;
            while m < self.completed_tasks.len()
                invariant
                    m <= self.completed_tasks@.len(),
                    found == (exists|x: int| 0 <= x < m && self.completed_tasks@[x] == dep),
                decreases self.completed_tasks@.len() - m,
            {
                if self.completed_tasks[m] == dep {
                    found = true;
                }
                m = m + 1;
            }
            if !found {
                assert(!self.completed_tasks@.contains(task.dependencies@[j as int]));
                return false;
            }
            j = j + 1;
        }
        true
    }

    /// Runs the next task, if one can run now.
    pub fn execute_next(&mut self, now: u64) -> (r: Option<TaskExecutionResult>)
        requires
            old(self).wf(),
            old(self).ready(now),
        ensures
            final(self).wf(),
            Self::execution_outcome(old(self), final(self), now, r),
    {
        if self.running_tasks.len() >= self.config.max_concurrent_tasks {
            return None;
        }
        if self.task_queue.len() == 0 {
            return None;
        }
        let i = self.next_index();
        if !self.are_dependencies_met(&self.task_queue[i]) {
            return None;
        }
        let ghost pre = *self;
        let task = self.task_queue.remove(i);
        assert(task == pre.task_queue@[i as int]);
        assert(self.stats.avg_task_duration_ns * self.stats.total_tasks_completed + task.estimated_duration_ns
            <= u64::MAX);
        let ghost sm0 = self.snapshot_manager;
        if self.config.auto_snapshots {
            let label = concat("before_", task.name.as_str());
            proof {
                reveal_strlit("before_");
            }
            let ghost glabel = label;
            let sid = self.snapshot_manager.create_snapshot(label, 1usize, 1_000_000, now);
            proof {
                lemma_creation_keeps_counters_fit(sm0, self.snapshot_manager, sid, glabel, 1usize, 1_000_000u64, now);
                assert(glabel@ == "before_"@ + task.name@);
            }
        }
        let ghost sm1 = self.snapshot_manager;
        let result = self.execute_task(task, now);
        proof {
            assert(snapshot_taken(sm0, sm1, pre.task_queue@[i as int].name@, pre.config, now));
            assert(rolled_back_after(sm1, self.snapshot_manager, result.success, pre.config));
        }
        Some(result)
    }

    /// Runs `task` (estimated at its duration): checks the contracts if it has one, records
    /// the outcome, and rolls back after a failure when configured to.
    fn execute_task(&mut self, task: QuantumTask<O>, now: u64) -> (r: TaskExecutionResult)
        requires
            old(self).wf(),
            old(self).stats.total_tasks_completed < u64::MAX,
            old(self).stats.total_tasks_failed < u64::MAX,
            old(self).stats.contract_violations < u64::MAX,
            old(self).stats.total_rollbacks < u64::MAX,
            old(self).stats.avg_task_duration_ns * old(self).stats.total_tasks_completed
                + task.estimated_duration_ns <= u64::MAX,
            old(self).contract_manager.can_validate(),
            old(self).snapshot_manager.rollback_counters_fit(),
        ensures
            final(self).wf(),
            ({
                let d = task.estimated_duration_ns;
                let cs = old(self).contract_manager.temporal_contracts@;
                let success = task.contract is None || cs.filter(exceeded_by(d)).len() == 0;
                let n = if success { old(self).stats.total_tasks_completed + 1 } else { old(self).stats.total_tasks_completed as int };
                &&& final(self).task_queue == old(self).task_queue
                &&& final(self).running_tasks@ == old(self).running_tasks@
                &&& final(self).completed_tasks@ == (if success { old(self).completed_tasks@.push(task.id) } else { old(self).completed_tasks@ })
                &&& (if task.contract is Some {
                    exists|res: Seq<ValidationResult>| ContractManager::validation_outcome(
                        &old(self).contract_manager, &final(self).contract_manager, d, now, res)
                } else {
                    final(self).contract_manager == old(self).contract_manager
                })
                &&& (if !success && old(self).config.auto_rollback {
                    exists|rr: Result<RollbackResult<usize>, String>| SnapshotManager::previous_rollback_outcome(
                        &old(self).snapshot_manager, &final(self).snapshot_manager, rr)
                } else {
                    final(self).snapshot_manager == old(self).snapshot_manager
                })
                &&& final(self).stats == (SchedulerStatistics {
                    total_tasks_completed: n as u64,
                    total_tasks_failed: if success { old(self).stats.total_tasks_failed } else { (old(self).stats.total_tasks_failed + 1) as u64 },
                    contract_violations: if success { old(self).stats.contract_violations } else { (old(self).stats.contract_violations + 1) as u64 },
                    total_rollbacks: if !success && old(self).config.auto_rollback {
                        (old(self).stats.total_rollbacks + 1) as u64
                    } else {
                        old(self).stats.total_rollbacks
                    },
                    avg_task_duration_ns: next_average(old(self).stats.avg_task_duration_ns, n as u64, d),
                    ..old(self).stats
                })
                &&& final(self).config == old(self).config
                &&& r == (TaskExecutionResult {
                    task_id: task.id,
                    success,
                    duration_ns: d,
                    contract_violations: if success { 0 } else { 1 },
                    snapshot_created: old(self).config.auto_snapshots,
                })
            }),
    {
        let task_id = task.id;
        self.running_tasks.push(task_id);
        let duration_ns = task.estimated_duration_ns;
        let ghost cs = self.contract_manager.temporal_contracts@;
        let contract_met = match task.contract {
            Some(_) => {
                let results = self.contract_manager.validate_temporal_all(duration_ns, now);
                let ok = all_succeeded(&results);
                proof {
                    lemma_all_succeeded_iff_none_exceeded(cs, duration_ns, results@);
                }
                ok
            },
            None => true,
        };
        let success = contract_met;
        if success {
            self.stats.total_tasks_completed = self.stats.total_tasks_completed + 1;
            self.completed_tasks.push(task_id);
        } else {
            self.stats.total_tasks_failed = self.stats.total_tasks_failed + 1;
            self.stats.contract_violations = self.stats.contract_violations + 1;
            if self.config.auto_rollback {
                proof {
                    if self.snapshot_manager.previous_target() is Some {
                        lemma_counters_fit_give_room(self.snapshot_manager, self.snapshot_manager.previous_target()->0);
                    }
                }
                let _ = self.snapshot_manager.rollback_previous();
                self.stats.total_rollbacks = self.stats.total_rollbacks + 1;
            }
        }
        self.running_tasks.pop();
        let total_completed = self.stats.total_tasks_completed;
        if total_completed > 0 {
            let avg = self.stats.avg_task_duration_ns;
            proof {
                assert(avg * (total_completed - 1) <= avg * total_completed) by (nonlinear_arith)
                    requires total_completed >= 1;
                assert(avg * (total_completed - 1) + duration_ns <= u64::MAX);
            }
            self.stats.avg_task_duration_ns = (avg * (total_completed - 1) + duration_ns) / total_completed;
        }
        TaskExecutionResult {
            task_id,
            success,
            duration_ns,
            contract_violations: if contract_met { 0 } else { 1 },
            snapshot_created: self.config.auto_snapshots,
        }
    }

    /// The statistics gathered so far.
    pub fn get_statistics(&self) -> (r: &SchedulerStatistics)
        ensures
            *r == self.stats,
    {
        &self.stats
    }

    /// Number of queued tasks.
    pub fn queue_size(&self) -> (r: usize)
        ensures
            r == self.task_queue@.len(),
    {
        self.task_queue.len()
    }

    /// Number of tasks being run.
    pub fn running_count(&self) -> (r: usize)
        ensures
            r == self.running_tasks@.len(),
    {
        self.running_tasks.len()
    }
}

impl<O> Default for HarmonicScheduler<O> {
    fn default() -> (r: Self)
        ensures
            r.wf(),
            r.task_queue@.len() == 0,
            r.config.max_concurrent_tasks == 10,
    {
        Self::new()
    }
}

/// The snapshot manager before and after running a task named `name`: with automatic
/// snapshots, a snapshot labelled "before_" followed by the name is taken first (of the
/// reset one-qubit state, at full fidelity); after a failure, with automatic rollback, the
/// manager rolls back to its previous snapshot.
pub open spec fn snapshot_phase(
    pre: SnapshotManager<usize>,
    post: SnapshotManager<usize>,
    name: Seq<char>,
    success: bool,
    config: SchedulerConfig,
    now: u64,
) -> bool {
    exists|mid: SnapshotManager<usize>| #[trigger] snapshot_taken(pre, mid, name, config, now)
        && rolled_back_after(mid, post, success, config)
}

/// `mid` is `pre` after the snapshot taken before a task named `name`, if any.
pub open spec fn snapshot_taken(
    pre: SnapshotManager<usize>,
    mid: SnapshotManager<usize>,
    name: Seq<char>,
    config: SchedulerConfig,
    now: u64,
) -> bool {
    if config.auto_snapshots {
        exists|sid: u128, label: String| label@ == "before_"@ + name
            && #[trigger] SnapshotManager::creation_outcome(&pre, &mid, sid, label, 1usize, 1_000_000u64, now)
    } else {
        mid == pre
    }
}

/// `post` is `mid` after the rollback that follows a failed task, if any.
pub open spec fn rolled_back_after(
    mid: SnapshotManager<usize>,
    post: SnapshotManager<usize>,
    success: bool,
    config: SchedulerConfig,
) -> bool {
    if !success && config.auto_rollback {
        exists|rr: Result<RollbackResult<usize>, String>| #[trigger] SnapshotManager::previous_rollback_outcome(&mid, &post, rr)
    } else {
        post == mid
    }
}

/// Every verdict is a success.
fn all_succeeded(results: &Vec<ValidationResult>) -> (r: bool)
    ensures
        r == forall|i: int| 0 <= i < results@.len() ==> (#[trigger] results@[i]) is Success,
{
    let mut i: usize = 0;
    while i < results.len()
        invariant
            i <= results@.len(),
            forall|k: int| 0 <= k < i ==> (#[trigger] results@[k]) is Success,
        decreases results@.len() - i,
    {
        if !results[i].is_success() {
            return false;
        }
        i = i + 1;
    }
    true
}

proof fn lemma_all_succeeded_iff_none_exceeded(cs: Seq<TemporalContract>, d: u64, r: Seq<ValidationResult>)
    requires
        r.len() == cs.len(),
        forall|i: int| 0 <= i < r.len() ==> {
            let c = #[trigger] cs[i];
            duration_verdict(c.id, c.max_duration_ns, c.tolerance_ns, c.severity, d, r[i])
        },
    ensures
        (forall|i: int| 0 <= i < r.len() ==> (#[trigger] r[i]) is Success) <==> cs.filter(exceeded_by(d)).len() == 0,
{
    let over = cs.filter(exceeded_by(d));
    if forall|i: int| 0 <= i < r.len() ==> (#[trigger] r[i]) is Success {
        if over.len() > 0 {
            cs.lemma_filter_pred(exceeded_by(d), 0);
            assert(over.contains(over[0]));
            cs.lemma_filter_contains_rev(exceeded_by(d), over[0]);
            let j = choose|j: int| 0 <= j < cs.len() && cs[j] == over[0];
            assert(r[j] is Success);
        }
    } else {
        let j = choose|j: int| 0 <= j < r.len() && !(r[j] is Success);
        assert(cs[j] == cs[j]);
        cs.lemma_filter_contains(exceeded_by(d), j);
    }
}
proof fn lemma_next_exists<O>(q: Seq<QuantumTask<O>>)
    requires
        q.len() > 0,
    ensures
        next_at(q, next_task(q)),
    decreases q.len(),
{
    if q.len() == 1 {
        assert(next_at(q, 0));
    } else {
        let t = q.drop_last();
        lemma_next_exists(t);
        let j = next_task(t);
        let n = q.len() - 1;
        if precedes(q[n], q[j]) {
            assert forall|k: int| 0 <= k < q.len() implies !precedes(#[trigger] q[k], q[n]) by {
                if k < n {
                    assert(t[k] == q[k]);
                    assert(!precedes(t[k], t[j]));
                }
            }
            assert forall|k: int| 0 <= k < n implies precedes(q[n], #[trigger] q[k]) by {
                assert(t[k] == q[k]);
                assert(!precedes(t[k], t[j]));
            }
            assert(next_at(q, n));
        } else {
            assert forall|k: int| 0 <= k < q.len() implies !precedes(#[trigger] q[k], q[j]) by {
                if k < n {
                    assert(t[k] == q[k]);
                }
            }
            assert forall|k: int| 0 <= k < j implies precedes(q[j], #[trigger] q[k]) by {
                assert(t[k] == q[k]);
            }
            assert(next_at(q, j));
        }
    }
}

/// The task that runs next has the highest priority among the queued tasks; among those of
/// that priority it has the earliest deadline (a deadline before none), and it was queued
/// before every task that it ties with.
pub proof fn law_next_task_comes_first<O>(q: Seq<QuantumTask<O>>)
    requires
        q.len() > 0,
    ensures
        0 <= next_task(q) < q.len(),
        forall|k: int| 0 <= k < q.len() ==> (#[trigger] q[k]).priority <= q[next_task(q)].priority,
        forall|k: int| 0 <= k < q.len() && (#[trigger] q[k]).priority == q[next_task(q)].priority
            && q[k].deadline_ns is Some ==> q[next_task(q)].deadline_ns is Some
            && q[next_task(q)].deadline_ns->0 <= q[k].deadline_ns->0,
        forall|k: int| 0 <= k < next_task(q) ==> precedes(q[next_task(q)], #[trigger] q[k]),
{
    lemma_next_exists(q);
}

} // verus!
