use lightqos::hardware::driver_api::{CircuitSubmission, DriverError, GateType, JobStatus, Operation};
use lightqos::hardware::simulator::{tally_samples, SimulatorConfig, SimulatorDriver};

fn circuit(id: u128, num_qubits: usize, operations: Vec<Operation>) -> CircuitSubmission {
    CircuitSubmission { id, num_qubits, operations, metadata: vec![] }
}

#[test]
fn test_simulator_creation() {
    let sim = SimulatorDriver::new();
    assert_eq!(sim.config.max_qubits, 20);
    assert_eq!(sim.config.shots, 1024);
}

#[test]
fn test_simple_circuit() {
    let mut sim = SimulatorDriver::new();

    let job_id = sim.submit_circuit(circuit(7, 2, vec![]), 0).unwrap();

    let result = sim.get_results(job_id).unwrap();

    assert_eq!(result.shots, 1024);
    assert!(result.success);
    assert_eq!(result.counts.len(), 1);
    assert!(result.counts.iter().any(|(k, _)| k == "00"));
}

#[test]
fn test_backend_info() {
    let sim = SimulatorDriver::new();

    let backends = sim.list_backends().unwrap();

    assert_eq!(backends.len(), 1);
    assert_eq!(backends[0].name, "simulator");
    assert!(backends[0].is_simulator);
    assert_eq!(backends[0].queue_length, 0);
}

#[test]
fn hadamard_spreads_shots_evenly() {
    let mut sim = SimulatorDriver::new();
    let h = Operation { gate_type: GateType::H, qubits: vec![0] };
    sim.submit_circuit(circuit(1, 3, vec![h]), 4).unwrap();
    let r = sim.get_results(1).unwrap();
    let keys: Vec<&str> = r.counts.iter().map(|(k, _)| k.as_str()).collect();
    assert_eq!(keys, vec!["000", "001", "010", "011", "100", "101", "110", "111"]);
    assert!(r.counts.iter().all(|(_, c)| *c == 128));
    // a circuit without a Hadamard stays in the zero state
    let x = Operation { gate_type: GateType::X, qubits: vec![0] };
    sim.submit_circuit(circuit(2, 4, vec![x]), 1).unwrap();
    assert_eq!(sim.get_results(2).unwrap().counts, vec![("0000".to_string(), 1024)]);
    let stats = sim.get_stats();
    assert_eq!(stats.total_jobs, 2);
    assert_eq!(stats.total_shots, 2048);
    assert_eq!(stats.total_execution_time_ms, 5);
}

#[test]
fn large_circuits_are_sampled() {
    let config = SimulatorConfig { shots: 50, ..SimulatorConfig::default() };
    let mut sim = SimulatorDriver::new().with_config(config);
    sim.submit_circuit(circuit(3, 8, vec![]), 0).unwrap();
    let r = sim.get_results(3).unwrap();
    assert_eq!(r.counts.iter().map(|(_, c)| c).sum::<usize>(), 50);
    assert!(r.counts.iter().all(|(k, _)| k.len() == 8 && k.chars().all(|c| c == '0' || c == '1')));
}

#[test]
fn simulator_limits_and_unknown_jobs() {
    let mut sim = SimulatorDriver::default();
    match sim.submit_circuit(circuit(4, 21, vec![]), 0) {
        Err(DriverError::InvalidCircuit(m)) => assert_eq!(m, "Simulator supports a maximum of 20 qubits"),
        other => panic!("unexpected {:?}", other),
    }
    match sim.get_job_status(4) {
        Err(DriverError::JobNotFound(m)) => assert_eq!(m, "00000000-0000-0000-0000-000000000004"),
        other => panic!("unexpected {:?}", other),
    }
    sim.submit_circuit(circuit(4, 1, vec![]), 0).unwrap();
    assert_eq!(sim.get_job_status(4).unwrap(), JobStatus::Completed);
    assert!(sim.cancel_job(4).is_ok());
    assert_eq!(sim.driver_name(), "Simulator");
}

#[test]
fn tally_counts_each_drawn_string() {
    let samples = vec![
        vec![true, false, true],
        vec![false, false, false],
        vec![true, false, true],
        vec![true, true, true],
        vec![true, false, true],
    ];
    let counts = tally_samples(&samples);
    assert_eq!(
        counts,
        vec![("101".to_string(), 3), ("000".to_string(), 1), ("111".to_string(), 1)]
    );
    assert!(tally_samples(&vec![]).is_empty());
}
