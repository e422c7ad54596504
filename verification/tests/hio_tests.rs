use lightqos::views::{ObservableView, ViewConfig, ViewManager};
use lightqos::shadow::{MeasurementSnapshot, ObservableTally, QuantumShadow};
use lightqos::hio::{admit_observable, list_string, measurement_parity, Observable, ObservableFactory, ObservableType, PauliOperator, PauliString};

#[test]
fn test_pauli_string_creation() {
    let ps = PauliString::new(vec![PauliOperator::X, PauliOperator::Y, PauliOperator::Z]);
    assert_eq!(ps.paulis.len(), 3);
}

#[test]
fn test_observable_creation() {
    let obs = ObservableFactory::pauli_x(0, 2);
    assert_eq!(obs.name, "X_0");
    assert_eq!(obs.metadata.weight, 1);
    assert_eq!(obs.observable_type, ObservableType::Local);
}

#[test]
fn test_commutativity() {
    let x0 = ObservableFactory::pauli_x(0, 2);
    let z0 = ObservableFactory::pauli_z(0, 2);
    let z1 = ObservableFactory::pauli_z(1, 2);
    assert!(!x0.commutes_with(&z0));
    assert!(x0.commutes_with(&z1));
}

#[test]
fn test_commutativity_enforcement() {
    let mut view = ObservableView::new("test".to_string());
    let x0 = ObservableFactory::pauli_x(0, 2);
    let z0 = ObservableFactory::pauli_z(0, 2);
    view.add_observable(x0).unwrap();
    let result = view.add_observable(z0);
    assert!(result.is_err());
}

#[test]
fn refusal_names_the_conflicting_observable() {
    let mut view = ObservableView::new("test".to_string());
    view.add_observable(ObservableFactory::pauli_z(1, 2)).unwrap();
    view.add_observable(ObservableFactory::pauli_x(0, 2)).unwrap();
    let result = view.add_observable(ObservableFactory::pauli_z(0, 2));
    assert_eq!(result.unwrap_err(), "Observable 'Z_0' does not commute with 'X_0'");
    assert_eq!(view.observables.len(), 2);
    let mut observables: Vec<Observable> = Vec::new();
    admit_observable(&mut observables, false, ObservableFactory::pauli_x(0, 2)).unwrap();
    admit_observable(&mut observables, false, ObservableFactory::pauli_z(0, 2)).unwrap();
    assert_eq!(observables.len(), 2);
}

#[test]
fn test_view_creation() {
    let mut view = ObservableView::new("test_view".to_string());
    let obs = ObservableFactory::pauli_z(0, 2);
    view.add_observable(obs).unwrap();
    assert_eq!(view.observables.len(), 1);
}

#[test]
fn unenforced_view_takes_anything() {
    let config = ViewConfig { enforce_commutativity: false, min_measurements: 5 };
    let mut view = ObservableView::new("loose".to_string()).with_config(config);
    view.add_observable(ObservableFactory::pauli_x(0, 1)).unwrap();
    view.add_observable(ObservableFactory::pauli_z(0, 1)).unwrap();
    assert_eq!(view.observables.len(), 2);
    assert_eq!(view.config.min_measurements, 5);
    assert_eq!(ViewConfig::default(), ViewConfig { enforce_commutativity: true, min_measurements: 100 });
}

#[test]
fn test_view_manager() {
    let mut manager = ViewManager::new();
    let obs_id = manager.register_observable(ObservableFactory::pauli_z(0, 2));
    let view_id = manager.create_view("test".to_string(), ViewConfig::default());
    manager.add_to_view(view_id, obs_id).unwrap();
    let view = manager.get_view(view_id).unwrap();
    assert_eq!(view.observables.len(), 1);
}

#[test]
fn manager_errors_and_counters() {
    let mut manager = ViewManager::default();
    let z0 = manager.register_observable(ObservableFactory::pauli_z(0, 2));
    let x0 = manager.register_observable(ObservableFactory::pauli_x(0, 2));
    let view_id = manager.create_view("v".to_string(), ViewConfig::default());
    assert_eq!(manager.add_to_view(7, z0).unwrap_err(), "View not found");
    assert_eq!(manager.add_to_view(view_id, 7).unwrap_err(), "Observable not found");
    manager.add_to_view(view_id, z0).unwrap();
    assert_eq!(manager.add_to_view(view_id, x0).unwrap_err(), "Observable 'X_0' does not commute with 'Z_0'");
    assert_eq!(manager.get_view(view_id).unwrap().observables.len(), 1);
    assert!(manager.get_view(7).is_none());
    let other = manager.create_view("w".to_string(), ViewConfig::default());
    let names: Vec<String> = manager.list_views().iter().map(|v| v.name.clone()).collect();
    assert_eq!(names, vec!["v".to_string(), "w".to_string()]);
    assert_eq!(manager.get_view(other).unwrap().id, other);
    let stats = manager.get_statistics();
    assert_eq!(stats.total_views_created, 2);
    assert_eq!(stats.total_observables_registered, 2);
    assert_eq!(stats.total_measurements, 0);
}

#[test]
fn measuring_marks_observables_up_to_the_first_failure() {
    let mut manager = ViewManager::new();
    let z0 = manager.register_observable(ObservableFactory::pauli_z(0, 2));
    let z1 = manager.register_observable(ObservableFactory::pauli_z(1, 2));
    let view_id = manager.create_view("zz".to_string(), ViewConfig::default());
    manager.add_to_view(view_id, z0).unwrap();
    manager.add_to_view(view_id, z1).unwrap();
    assert_eq!(manager.measure_view(9, 5, &vec![]).unwrap_err(), "View not found");
    let failed = manager.measure_view(view_id, 5, &vec![Ok(()), Err("no data".to_string())]);
    assert_eq!(failed.unwrap_err(), "no data");
    let view = manager.get_view(view_id).unwrap();
    assert_eq!(view.shadow_id, Some(5));
    assert_eq!(view.measured_ids, vec![z0]);
    assert!(view.is_measured(z0) && !view.is_measured(z1));
    assert!(!view.is_complete());
    assert_eq!(manager.get_statistics().total_measurements, 0);
    manager.measure_view(view_id, 6, &vec![Ok(()), Ok(())]).unwrap();
    let view = manager.get_view(view_id).unwrap();
    assert_eq!(view.measured_ids, vec![z0, z1]);
    assert!(view.is_complete());
    assert_eq!(view.shadow_id, Some(6));
    assert_eq!(manager.get_statistics().total_measurements, 2);
}

#[test]
fn marking_is_idempotent_and_empty_views_are_complete() {
    let mut view = ObservableView::new("v".to_string());
    assert!(view.is_complete());
    view.attach_shadow(3);
    view.mark_measured(4);
    view.mark_measured(4);
    assert_eq!(view.measured_ids, vec![4]);
    assert_eq!(view.shadow_id, Some(3));
}

#[test]
fn test_observable_factory() {
    let ising = ObservableFactory::ising_zz(0, 1, 3);
    assert_eq!(ising.observable_type, ObservableType::Hamiltonian);
    assert_eq!(ising.metadata.weight, 2);
    assert_eq!(ising.name, "ZZ_0_1");
    assert_eq!(ising.metadata.qubits, vec![0, 1]);
    assert!(ising.metadata.diagonal);
}

#[test]
fn stabilizer_and_metadata() {
    let stab = ObservableFactory::surface_code_stabilizer(vec![0, 2, 3], 4, true);
    assert_eq!(stab.name, "Stab_[0, 2, 3]");
    assert_eq!(stab.observable_type, ObservableType::Stabilizer);
    assert_eq!(stab.metadata.weight, 3);
    assert!(!stab.metadata.diagonal);
    assert_eq!(list_string(&vec![]), "[]");
    let y = ObservableFactory::pauli_y(1, 3);
    assert_eq!(y.metadata.qubits, vec![1]);
    assert_eq!(y.pauli_representation.paulis, vec![PauliOperator::I, PauliOperator::Y, PauliOperator::I]);
    let xy = Observable::from_pauli("XY".to_string(), PauliString::new(vec![PauliOperator::X, PauliOperator::Y]));
    assert_eq!(xy.observable_type, ObservableType::Global);
}

#[test]
fn two_anticommuting_sites_commute() {
    let a = PauliString::new(vec![PauliOperator::X, PauliOperator::X]);
    let b = PauliString::new(vec![PauliOperator::Z, PauliOperator::Z]);
    assert!(a.commutes_with(&b));
    let c = PauliString::new(vec![PauliOperator::Z]);
    assert!(!a.commutes_with(&c));
}

#[test]
fn parity_of_outcomes() {
    let zz = PauliString::new(vec![PauliOperator::Z, PauliOperator::I, PauliOperator::Z]);
    assert!(!measurement_parity(&vec![true, false, true], &zz));
    assert!(measurement_parity(&vec![true, true, false], &zz));
    assert!(!measurement_parity(&vec![], &zz));
}

#[test]
fn random_pauli_string_length() {
    assert_eq!(PauliString::random(17).paulis.len(), 17);
}

#[test]
fn shadow_copy_test_shadow_creation() {
    let shadow = QuantumShadow::new(2);
    assert_eq!(shadow.num_qubits, 2);
    assert_eq!(shadow.num_snapshots, 0);
}

#[test]
fn add_snapshot_records_basis() {
    let mut shadow = QuantumShadow::new(2);
    let snapshot = MeasurementSnapshot {
        outcome: vec![false, true],
        basis: PauliString::new(vec![PauliOperator::Z, PauliOperator::Z]),
        timestamp_ns: 0,
    };
    shadow.add_snapshot(snapshot);
    assert_eq!(shadow.num_snapshots, 1);
    assert_eq!(shadow.measurement_bases[0].paulis, vec![PauliOperator::Z, PauliOperator::Z]);
    assert_eq!(shadow.measurement_snapshots[0].outcome, vec![false, true]);
}

#[test]
fn test_estimate_observable() {
    let mut shadow = QuantumShadow::new(2);
    for i in 0..50 {
        let snapshot = MeasurementSnapshot {
            outcome: vec![i % 2 == 0, i % 3 == 0],
            basis: PauliString::new(vec![PauliOperator::Z, PauliOperator::Z]),
            timestamp_ns: 0,
        };
        shadow.add_snapshot(snapshot);
    }
    let observable = PauliString::new(vec![PauliOperator::Z, PauliOperator::Z]);
    let tally = shadow.tally_observable(&observable).unwrap();
    let estimate = (tally.compatible as f64 - 2.0 * tally.odd as f64) / tally.compatible as f64;
    assert!(estimate >= -1.0 && estimate <= 1.0);
}

#[test]
fn tally_counts_compatible_and_odd_snapshots() {
    let mut shadow = QuantumShadow::new(2);
    let zz = PauliString::new(vec![PauliOperator::Z, PauliOperator::Z]);
    assert_eq!(shadow.tally_observable(&zz).unwrap_err(), "No snapshot available");
    let outcomes = [vec![false, false], vec![true, false], vec![true, true]];
    for outcome in outcomes.iter() {
        shadow.add_snapshot(MeasurementSnapshot {
            outcome: outcome.clone(),
            basis: PauliString::new(vec![PauliOperator::X, PauliOperator::Z]),
            timestamp_ns: 1,
        });
    }
    shadow.add_snapshot(MeasurementSnapshot {
        outcome: vec![true],
        basis: PauliString::new(vec![PauliOperator::Z]),
        timestamp_ns: 2,
    });
    assert_eq!(shadow.tally_observable(&zz).unwrap(), ObservableTally { compatible: 3, odd: 1 });
    let z = PauliString::new(vec![PauliOperator::Z, PauliOperator::I, PauliOperator::I]);
    assert_eq!(shadow.tally_observable(&z).unwrap_err(), "No measurement compatible with observable");
    assert_eq!(zz.copied().paulis, zz.paulis);
}

#[test]
fn paulis_from_draws_spells_each_draw() {
    let p = PauliString::paulis_from_draws(&vec![0, 1, 2, 3, 3, 0]);
    assert_eq!(
        p.paulis,
        vec![PauliOperator::I, PauliOperator::X, PauliOperator::Y, PauliOperator::Z, PauliOperator::Z, PauliOperator::I]
    );
    assert_eq!(PauliString::random(7).paulis.len(), 7);
}
