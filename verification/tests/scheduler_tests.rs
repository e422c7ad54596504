use lightqos::contract::TemporalContract;
use lightqos::scheduler::{octave_for_duration, HarmonicScheduler, QuantumTask};
use lightqos::tlm::{ElectromagneticOctave, SchedulerConfig};

#[test]
fn test_task_creation() {
    let ops = vec!["H q0"];

    let task = QuantumTask::new("test".to_string(), ops, 0);

    assert_eq!(task.name, "test");
    assert!(task.estimated_duration_ns > 0);
}

#[test]
fn test_scheduler_creation() {
    let scheduler: HarmonicScheduler<&str> = HarmonicScheduler::new();
    assert_eq!(scheduler.queue_size(), 0);
}

#[test]
fn test_schedule_task() {
    let mut scheduler = HarmonicScheduler::new();

    let ops: Vec<&str> = vec![];
    let task = QuantumTask::new("task1".to_string(), ops, 0);
    let _id = scheduler.schedule_task(task);

    assert_eq!(scheduler.queue_size(), 1);
    assert_eq!(scheduler.stats.total_tasks_scheduled, 1);
}

#[test]
fn test_execute_next() {
    let mut scheduler = HarmonicScheduler::new();

    let ops: Vec<&str> = vec![];
    let task = QuantumTask::new("task1".to_string(), ops, 0);
    scheduler.schedule_task(task);

    let result = scheduler.execute_next(10);
    assert!(result.is_some());

    let res = result.unwrap();
    assert!(res.success);
}

#[test]
fn octave_by_duration() {
    assert_eq!(octave_for_duration(0), ElectromagneticOctave::Visible);
    assert_eq!(octave_for_duration(1), ElectromagneticOctave::Infrared);
    assert_eq!(octave_for_duration(100), ElectromagneticOctave::Heat);
    assert_eq!(octave_for_duration(1_000), ElectromagneticOctave::Heat);
    assert_eq!(octave_for_duration(1_001), ElectromagneticOctave::Electricity);
    assert_eq!(octave_for_duration(1_000_000), ElectromagneticOctave::Electricity);
    assert_eq!(octave_for_duration(2_000_000), ElectromagneticOctave::Magnetism);
    assert_eq!(octave_for_duration(2_000_000_000), ElectromagneticOctave::Gravity);
    let task = QuantumTask::new("three".to_string(), vec![1u8, 2, 3], 5);
    assert_eq!(task.estimated_duration_ns, 300);
    assert_eq!(task.octave, ElectromagneticOctave::Heat);
    assert_eq!(task.priority, 128);
    assert_eq!(task.created_at_ns, 5);
}

#[test]
fn highest_priority_then_earliest_deadline_runs_first() {
    let mut scheduler = HarmonicScheduler::new();
    let low = QuantumTask::new("low".to_string(), vec![0u8], 0).with_priority(10);
    let late = QuantumTask::new("late".to_string(), vec![0u8], 0).with_priority(200).with_deadline(900);
    let none = QuantumTask::new("none".to_string(), vec![0u8], 0).with_priority(200);
    let soon = QuantumTask::new("soon".to_string(), vec![0u8], 0).with_priority(200).with_deadline(100);
    let ids = [
        scheduler.schedule_task(low),
        scheduler.schedule_task(late),
        scheduler.schedule_task(none),
        scheduler.schedule_task(soon),
    ];
    let order: Vec<u128> = (0..4).map(|t| scheduler.execute_next(t).unwrap().task_id).collect();
    assert_eq!(order, vec![ids[3], ids[1], ids[2], ids[0]]);
    assert_eq!(scheduler.completed_tasks, order);
    assert!(scheduler.execute_next(9).is_none());
    assert_eq!(scheduler.get_statistics().total_tasks_completed, 4);
    assert_eq!(scheduler.get_statistics().avg_task_duration_ns, 100);
    assert_eq!(scheduler.running_count(), 0);
}

#[test]
fn dependencies_hold_back_a_task() {
    let mut scheduler = HarmonicScheduler::new();
    let first = QuantumTask::new("first".to_string(), vec![0u8], 0);
    let first_id = first.id;
    let second = QuantumTask::new("second".to_string(), vec![0u8], 0)
        .with_priority(250)
        .with_dependencies(vec![first_id]);
    scheduler.schedule_task(second);
    // the waiting task blocks the queue while its dependency has not run
    assert!(scheduler.execute_next(1).is_none());
    assert_eq!(scheduler.queue_size(), 1);
    scheduler.schedule_task(first);
    assert!(scheduler.execute_next(2).is_none());
    // once the dependency is the only choice left it runs, and then the dependent one
    let mut s2 = HarmonicScheduler::new();
    let a = QuantumTask::new("a".to_string(), vec![0u8], 0);
    let a_id = a.id;
    let b = QuantumTask::new("b".to_string(), vec![0u8], 0).with_dependencies(vec![a_id]);
    let b_id = b.id;
    s2.schedule_task(a);
    s2.schedule_task(b);
    assert_eq!(s2.execute_next(1).unwrap().task_id, a_id);
    assert_eq!(s2.execute_next(2).unwrap().task_id, b_id);
}

#[test]
fn contract_failure_counts_and_rolls_back() {
    let mut scheduler = HarmonicScheduler::new();
    let ok = QuantumTask::new("ok".to_string(), vec![0u8], 0).with_priority(255);
    scheduler.schedule_task(ok);
    let r = scheduler.execute_next(10).unwrap();
    assert!(r.success && r.snapshot_created);
    // two operations take 200 ns, beyond the strict 100 ns contract
    let slow = QuantumTask::new("slow".to_string(), vec![0u8, 1], 0).with_contract(TemporalContract::strict());
    scheduler.schedule_task(slow);
    assert_eq!(scheduler.contract_manager.temporal_contracts.len(), 1);
    let r = scheduler.execute_next(20).unwrap();
    assert!(!r.success);
    assert_eq!(r.contract_violations, 1);
    assert_eq!(r.duration_ns, 200);
    let stats = scheduler.get_statistics();
    assert_eq!(stats.total_tasks_failed, 1);
    assert_eq!(stats.contract_violations, 1);
    assert_eq!(stats.total_rollbacks, 1);
    assert_eq!(stats.total_tasks_completed, 1);
    // the snapshot taken before "ok" is current again
    let current = scheduler.snapshot_manager.get_current_snapshot().unwrap();
    assert_eq!(current.label, "before_ok");
    assert_eq!(scheduler.snapshot_manager.count(), 2);
}

#[test]
fn no_snapshots_and_no_concurrency() {
    let config = SchedulerConfig {
        max_concurrent_tasks: 0,
        enable_harmonic_resonance: false,
        auto_snapshots: false,
        snapshot_interval_ns: 0,
        auto_rollback: false,
    };
    let mut scheduler: HarmonicScheduler<u8> = HarmonicScheduler::with_config(config);
    scheduler.schedule_task(QuantumTask::new("t".to_string(), vec![], 0));
    assert!(scheduler.execute_next(1).is_none());
    let mut open: HarmonicScheduler<u8> = HarmonicScheduler::with_config(SchedulerConfig {
        max_concurrent_tasks: 1,
        ..config
    });
    open.schedule_task(QuantumTask::new("t".to_string(), vec![], 0));
    let r = open.execute_next(1).unwrap();
    assert!(!r.snapshot_created);
    assert_eq!(open.snapshot_manager.count(), 0);
    let default_scheduler: HarmonicScheduler<u8> = HarmonicScheduler::default();
    assert_eq!(default_scheduler.config.max_concurrent_tasks, 10);
}
