use lightqos::cache::ProcessTensorCache;
use lightqos::contract::{handle_violation, validate_duration, ContractManager, ContractSeverity, ContractStatistics, ContractType, TemporalContract, TemporalVariant, ValidationResult, ViolationAction, ViolationType};
use lightqos::efal::{ChannelStatus, ChannelType, DefectState, DefectStatus, DefectType, Uuid};
use lightqos::emf::{PressureBand, RecyclingPolicy, ThermodynamicPhase, ThermodynamicPhaseClassifier};
use lightqos::octave::OctavePosition;
use lightqos::spaces::ConnectionType;
use lightqos::tlm::{OctaveName, SchedulerConfig};

#[test]
fn test_cache() {
    let mut cache: ProcessTensorCache<String> = ProcessTensorCache::new(10);
    cache.insert(0x2_0005_012c, "pt".to_string());
    assert_eq!(cache.len(), 1);
    let retrieved = cache.get(0x2_0005_012c);
    assert!(retrieved.is_some());
}

#[test]
fn cache_evicts_least_recently_used() {
    let mut cache: ProcessTensorCache<u32> = ProcessTensorCache::new(2);
    cache.insert(1, 10);
    cache.insert(2, 20);
    assert_eq!(cache.get(1), Some(&10));
    cache.insert(3, 30);
    assert_eq!(cache.len(), 2);
    assert_eq!(cache.get(2), None);
    assert_eq!(cache.get(1), Some(&10));
    assert_eq!(cache.get(3), Some(&30));
    cache.clear();
    assert!(cache.is_empty());
}

#[test]
fn test_temporal_contract_strict() {
    let contract = TemporalContract::strict();

    assert_eq!(contract.variant, TemporalVariant::Strict);
    assert_eq!(contract.tolerance_ns, 0);
    assert_eq!(contract.priority, 255);

    let result = contract.validate_duration(50);
    assert!(result.is_success());

    let result = contract.validate_duration(200);
    assert!(!result.is_success());
}

#[test]
fn duration_violation_details() {
    let result = validate_duration(1, 100, 0, ContractSeverity::Critical, 50);
    assert!(result.is_success());
    let result = validate_duration(1, 100, 0, ContractSeverity::Critical, 200);
    assert!(!result.is_success());
    assert_eq!(result.severity(), Some(ContractSeverity::Critical));
    match result {
        ValidationResult::Violation { details, violation_type, .. } => {
            assert_eq!(violation_type, ViolationType::TimingExceeded);
            assert_eq!(details, "Duration 200 ns exceeds limit 100 ns (violation: 100 ns)");
        }
        _ => panic!("expected a violation"),
    }
}

#[test]
fn test_contract_manager() {
    let mut manager = ContractManager::new();

    let contract = TemporalContract::strict();
    let _id = manager.register_temporal(contract);

    assert_eq!(manager.temporal_contracts.len(), 1);

    let results = manager.validate_temporal_all(50, 0);
    assert_eq!(results.len(), 1);
    assert!(results[0].is_success());

    let stats = manager.get_statistics();
    assert_eq!(stats.total_validations, 1);
    assert_eq!(stats.successful_validations, 1);
    assert_eq!(stats.total_violations, 0);
}

#[test]
fn test_violation_handling() {
    let mut manager = ContractManager::new();

    let contract = TemporalContract::strict();
    manager.register_temporal(contract);

    let results = manager.validate_temporal_all(500, 0);

    assert!(!results[0].is_success());
    assert_eq!(manager.stats.total_violations, 1);
    assert_eq!(manager.violation_history.len(), 1);
}

#[test]
fn manager_counts_and_logs_each_contract() {
    let mut manager = ContractManager::default();
    let strict = TemporalContract::strict();
    let strict_id = strict.id;
    manager.register_temporal(strict.clone());
    manager.register_temporal(TemporalContract::flexible(100));
    manager.register_temporal(TemporalContract::relaxed(0));
    // re-registering the same id replaces, it does not add
    manager.register_temporal(strict);
    assert_eq!(manager.temporal_contracts.len(), 3);
    // 550 ns breaks the strict (100) contract only; the flexible one allows 600
    let results = manager.validate_temporal_all(550, 42);
    assert_eq!(results.iter().filter(|r| r.is_success()).count(), 2);
    let stats = *manager.get_statistics();
    assert_eq!(stats.total_validations, 3);
    assert_eq!(stats.successful_validations, 2);
    assert_eq!(stats.critical_violations, 1);
    assert_eq!(stats.rollbacks_triggered, 1);
    let recent = manager.get_recent_violations(5);
    assert_eq!(recent.len(), 1);
    assert_eq!(recent[0].contract_id, strict_id);
    assert_eq!(recent[0].timestamp, 42);
    assert_eq!(recent[0].action_taken, ViolationAction::Rollback);
    // 2500 ns breaks all three; the relaxed one is low severity and never rolled back
    manager.validate_temporal_all(2500, 43);
    assert_eq!(manager.get_recent_violations(2).len(), 2);
    assert_eq!(manager.get_recent_violations(10).len(), 4);
    assert_eq!(manager.stats.rollbacks_triggered, 2);
    assert_eq!(manager.stats.total_violations, 4);
    manager.cleanup_expired();
    assert_eq!(manager.temporal_contracts.len(), 3);
}

#[test]
fn handle_violation_records_actions() {
    let mut stats = ContractStatistics::default();
    let mut history = Vec::new();
    let result = validate_duration(5, 100, 0, ContractSeverity::Critical, 500);
    handle_violation(&mut stats, &mut history, ContractType::Temporal, &result, true, 0);
    assert_eq!(stats.total_violations, 1);
    assert_eq!(stats.critical_violations, 1);
    assert_eq!(stats.rollbacks_triggered, 1);
    assert_eq!(history.len(), 1);
    assert_eq!(history[0].action_taken, ViolationAction::Rollback);
    handle_violation(&mut stats, &mut history, ContractType::Temporal, &ValidationResult::Success, true, 1);
    assert_eq!(history.len(), 1);
    let low = validate_duration(6, 100, 10, ContractSeverity::Low, 200);
    handle_violation(&mut stats, &mut history, ContractType::Temporal, &low, true, 2);
    assert_eq!(history[1].action_taken, ViolationAction::NoAction);
    let fid = ValidationResult::Violation {
        contract_id: 7,
        violation_type: ViolationType::FidelityBelowThreshold,
        severity: ContractSeverity::High,
        details: "low".to_string(),
    };
    handle_violation(&mut stats, &mut history, ContractType::Fidelity, &fid, true, 3);
    assert_eq!(stats.retries_attempted, 1);
    assert_eq!(stats.total_violations, 3);
}

#[test]
fn severity_levels() {
    assert_eq!(ContractSeverity::Critical.level(), 4);
    assert_eq!(ContractSeverity::Low.level(), 1);
}

#[test]
fn channel_and_defect_transitions() {
    assert_eq!(ChannelStatus::Idle.activate(), Ok(ChannelStatus::Active));
    assert_eq!(ChannelStatus::Failed.activate(), Err("Cannot activate failed channel".to_string()));
    assert_eq!(ChannelStatus::Active.deactivate(), ChannelStatus::Idle);
    assert_eq!(ChannelType::IonMotional.to_connection_type(), ConnectionType::Microwave);
    assert_eq!(DefectType::Qudit(5).hilbert_dimension(), 5);
    assert_eq!(DefectType::MeasurementPoint.hilbert_dimension(), 1);
    let mut d = DefectState::new();
    d.transition_to_octave(OctavePosition::Generation2Plus);
    d.allocate().unwrap();
    assert_eq!(d.status, DefectStatus::InUse);
    assert!(d.is_available());
    d.entangle();
    assert!(!d.is_available());
    d.release();
    assert_eq!(d.octave_state, OctavePosition::Inertia0);
    d.status = DefectStatus::Failed;
    assert!(d.allocate().is_err());
    assert_eq!(Uuid::new_v4(0x1f), "1f");
}

#[test]
fn recycling_decisions() {
    assert!(RecyclingPolicy::Conservative.should_recycle(ThermodynamicPhase::Radiation, PressureBand::Normal, false));
    assert!(!RecyclingPolicy::Conservative.should_recycle(ThermodynamicPhase::Degradation, PressureBand::Normal, false));
    assert!(RecyclingPolicy::Balanced.should_recycle(ThermodynamicPhase::Degradation, PressureBand::Normal, false));
    assert!(RecyclingPolicy::Aggressive { threshold: 80 }.should_recycle(ThermodynamicPhase::Active, PressureBand::Normal, true));
    assert!(RecyclingPolicy::Adaptive.should_recycle(ThermodynamicPhase::Degradation, PressureBand::Elevated, false));
    assert!(!RecyclingPolicy::Adaptive.should_recycle(ThermodynamicPhase::Degradation, PressureBand::Normal, false));
    assert!(ThermodynamicPhaseClassifier::should_recycle_phase(ThermodynamicPhase::Radiation));
    assert!(!ThermodynamicPhaseClassifier::should_recycle_phase(ThermodynamicPhase::Inertia));
}

#[test]
fn names_and_defaults() {
    assert_eq!(OctaveName::XRay.as_str(), "X-Ray");
    assert_eq!(OctaveName::HyperGamma.as_str(), "Hyper-Gamma");
    let c = SchedulerConfig::default();
    assert_eq!(c.max_concurrent_tasks, 10);
    assert_eq!(c.snapshot_interval_ns, 1_000_000);
}
