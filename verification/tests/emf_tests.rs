use lightqos::efal::FieldDriver;
use lightqos::emf::{
    EntanglementLifecycleManager, EntanglementRecycler, PairFacts, PressureBand, RecyclerConfig, RecyclingPolicy, RecyclingStrategy,
    ThermodynamicPhase,
};

#[test]
fn test_enqueue_recycling() {
    let mut recycler = EntanglementRecycler::new(RecyclingPolicy::Conservative, RecyclingStrategy::ErgotropyExtraction);

    let pair_id = 42u128;

    assert!(recycler.enqueue_for_recycling(pair_id).is_ok());
    assert_eq!(recycler.queue_size(), 1);
}

#[test]
fn scanning_queues_what_the_policy_picks_up_to_the_limit() {
    let config = RecyclerConfig { max_queue_size: 2, ..RecyclerConfig::default() };
    let mut recycler =
        EntanglementRecycler::new(RecyclingPolicy::Balanced, RecyclingStrategy::Purification).with_config(config);
    let pairs = vec![
        PairFacts { id: 1, phase: ThermodynamicPhase::Generation, below_fidelity_cut: false },
        PairFacts { id: 2, phase: ThermodynamicPhase::Degradation, below_fidelity_cut: false },
        PairFacts { id: 3, phase: ThermodynamicPhase::Radiation, below_fidelity_cut: true },
        PairFacts { id: 4, phase: ThermodynamicPhase::Radiation, below_fidelity_cut: true },
    ];
    assert_eq!(recycler.scan_and_enqueue(&pairs, PressureBand::Normal), 2);
    assert_eq!(recycler.recycling_queue, vec![2, 3]);
    assert_eq!(recycler.enqueue_for_recycling(9).unwrap_err(), "Recycling queue is full");
    assert_eq!(recycler.next_queued(), Some(2));
    assert_eq!(recycler.next_queued(), Some(3));
    assert_eq!(recycler.next_queued(), None);
    recycler.enqueue_for_recycling(5).unwrap();
    recycler.clear_queue();
    assert_eq!(recycler.queue_size(), 0);
}

#[test]
fn adaptive_policy_under_high_pressure_uses_fidelity() {
    let mut recycler = EntanglementRecycler::new(RecyclingPolicy::Adaptive, RecyclingStrategy::Discard);
    let pairs = vec![
        PairFacts { id: 1, phase: ThermodynamicPhase::Generation, below_fidelity_cut: true },
        PairFacts { id: 2, phase: ThermodynamicPhase::Radiation, below_fidelity_cut: false },
    ];
    assert_eq!(recycler.scan_and_enqueue(&pairs, PressureBand::High), 1);
    assert_eq!(recycler.recycling_queue, vec![1]);
}

#[test]
fn test_lifecycle_manager() {
    let recycler = EntanglementRecycler::new(RecyclingPolicy::Balanced, RecyclingStrategy::Purification);
    let mut manager = EntanglementLifecycleManager::new(recycler);
    let pool = vec![ThermodynamicPhase::Generation, ThermodynamicPhase::Degradation, ThermodynamicPhase::Radiation];
    manager.update_phase_counts(&pool);
    let distribution = manager.counted_phases();
    assert_eq!(distribution.len(), 3);
}

#[test]
fn phase_counts_are_recounted_each_time() {
    let recycler = EntanglementRecycler::new(RecyclingPolicy::Conservative, RecyclingStrategy::Purification);
    let mut manager = EntanglementLifecycleManager::new(recycler);
    assert!(manager.counted_phases().is_empty());
    manager.update_phase_counts(&vec![
        ThermodynamicPhase::Inertia,
        ThermodynamicPhase::Active,
        ThermodynamicPhase::Inertia,
    ]);
    assert_eq!(manager.phase_count(ThermodynamicPhase::Inertia), 2);
    assert_eq!(
        manager.counted_phases(),
        vec![(ThermodynamicPhase::Active, 1), (ThermodynamicPhase::Inertia, 2)]
    );
    manager.update_phase_counts(&vec![ThermodynamicPhase::Generation]);
    assert_eq!(manager.phase_count(ThermodynamicPhase::Inertia), 0);
    assert_eq!(manager.counted_phases(), vec![(ThermodynamicPhase::Generation, 1)]);
    for k in 0..1500u64 {
        manager.record_transition(k as u128, ThermodynamicPhase::Active, ThermodynamicPhase::Degradation, k);
    }
    assert_eq!(manager.phase_count(ThermodynamicPhase::Generation), 1);
    let history = manager.transitions();
    assert_eq!(history.len(), 1000);
    assert_eq!(history[0].timestamp, 500);
    assert_eq!(history[999].pair_id, 1499);
    assert_eq!(history[999].to_phase, ThermodynamicPhase::Degradation);
}

#[test]
fn field_driver_runs_signals_in_order() {
    let mut driver = FieldDriver::default();
    assert_eq!(driver.execute_next_signal(), None);
    driver.enqueue_signal(10);
    driver.enqueue_signal(20);
    assert_eq!(driver.queue_length(), 2);
    assert_eq!(driver.execute_next_signal(), Some(10));
    assert_eq!(driver.active_signal, Some(10));
    driver.stop();
    assert!(!driver.enabled);
    assert_eq!(driver.active_signal, None);
    driver.resume();
    assert!(driver.enabled);
    assert_eq!(driver.execute_next_signal(), Some(20));
    assert_eq!(driver.signal_history, vec![10, 20]);
    assert_eq!(driver.execute_next_signal(), None);
    assert_eq!(driver.active_signal, None);
    driver.enqueue_signal(30);
    driver.clear_queue();
    assert_eq!(driver.queue_length(), 0);
}
