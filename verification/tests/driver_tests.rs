use lightqos::hardware::descriptor::{DriverDescriptor, DriverStatus};
use lightqos::hardware::driver_api::{CircuitSubmission, DriverError, JobStatus};
use lightqos::hardware::ibm::{IBMConfig, IBMQuantumDriver, IBMTranspiler};
use lightqos::hardware::ionq::{IonQBackend, IonQDriver, IonQGate, IonQTranspiler};
use lightqos::hardware::qblox::{aligned_duration_ns, clamped_sequencer, validate_pulse_timing, ClusterStats, ModuleStatus, QbloxCluster, QbloxError, QbloxModule, QbloxModuleType, QbloxPulse};
use lightqos::hardware::zurich::{simulated_channel_count, PulseCheck, ZIError, ZIInstrument, ZIInstrumentType, ZIPulse, ZurichSetup};
use lightqos::ids::uuid_string;
use lightqos::hardware::manager::DriverManager;
use lightqos::hardware::simulator::SimulatorDriver;

fn circuit(id: u128, num_qubits: usize) -> CircuitSubmission {
    CircuitSubmission { id, num_qubits, operations: vec![], metadata: vec![] }
}

#[test]
fn ibm_driver_test_driver_creation() {
    let driver = IBMQuantumDriver::new("fake_token".to_string(), "ibm_brisbane".to_string());
    assert_eq!(driver.backend, "ibm_brisbane");
    assert_eq!(driver.config.shots, 1024);
}

#[test]
fn test_config() {
    let config = IBMConfig { shots: 2048, optimization_level: 3, ..Default::default() };
    let driver = IBMQuantumDriver::new("token".to_string(), "ibm_kyoto".to_string()).with_config(config);
    assert_eq!(driver.config.shots, 2048);
}

#[test]
fn test_transpiler() {
    let c = circuit(7, 2);
    let qasm = IBMTranspiler::transpile(&c).unwrap();
    assert!(qasm.contains("OPENQASM 3.0"));
    assert!(qasm.contains("qubit[2]"));
}

#[test]
fn transpiler_full_text() {
    let qasm = IBMTranspiler::transpile(&circuit(1, 3)).unwrap();
    let expected = "OPENQASM 3.0;\ninclude \"stdgates.inc\";\n\nqubit[3] q;\nbit[3] c;\n\n// Circuit operations\nh q[0];\ncx q[0], q[1];\n\n// Measurements\nc[0] = measure q[0];\nc[1] = measure q[1];\nc[2] = measure q[2];\n";
    assert_eq!(qasm, expected);
}

#[test]
fn ibm_driver_test_backend_listing() {
    let mut driver = IBMQuantumDriver::new("token".to_string(), "ibm_brisbane".to_string());
    driver.initialize().unwrap();
    let backends = driver.list_backends().unwrap();
    assert!(!backends.is_empty());
    let brisbane = backends.iter().find(|b| b.name == "ibm_brisbane").unwrap();
    assert_eq!(brisbane.num_qubits, 127);
    assert!(!brisbane.is_simulator);
}

#[test]
fn ibm_driver_test_job_submission() {
    let mut driver = IBMQuantumDriver::new("token".to_string(), "ibmq_qasm_simulator".to_string());
    driver.initialize().unwrap();
    let job_id = driver.submit_circuit(circuit(42, 2), 1000).unwrap();
    assert_eq!(job_id, 42);
    let status = driver.get_job_status(job_id, 1000).unwrap();
    assert_eq!(status, JobStatus::Queued);
}

#[test]
fn ibm_job_lifecycle() {
    let mut driver = IBMQuantumDriver::new("token".to_string(), "ibm_kyoto".to_string());
    let id = driver.submit_circuit(circuit(9, 2), 100).unwrap();
    let provider_id = driver.submitted_jobs[0].1.job_id.clone();
    assert!(provider_id.starts_with("ibm_"));
    assert_eq!(provider_id.len(), 12);
    assert!(matches!(driver.get_results(id), Err(DriverError::JobNotReady)));
    assert_eq!(driver.get_job_status(id, 106).unwrap(), JobStatus::Running);
    assert_eq!(driver.get_job_status(id, 110).unwrap(), JobStatus::Completed);
    assert_eq!(driver.submitted_jobs[0].1.completed_at, Some(110));
    let result = driver.get_results(id).unwrap();
    assert_eq!(result.job_id, 9);
    assert_eq!(result.backend, "ibm_kyoto");
    assert_eq!(result.shots, 1024);
    assert_eq!(result.counts, vec![("00".to_string(), 512), ("11".to_string(), 512)]);
    assert!(driver.cancel(id).is_ok());
    assert_eq!(driver.submitted_jobs[0].1.status, JobStatus::Cancelled);
}

#[test]
fn ibm_rejects_large_circuit_and_unknown_job() {
    let mut driver = IBMQuantumDriver::new("token".to_string(), "ibm_kyoto".to_string());
    match driver.submit_circuit(circuit(1, 128), 0) {
        Err(DriverError::InvalidCircuit(m)) => assert_eq!(m, "IBM Quantum supports a maximum of 127 qubits"),
        other => panic!("unexpected {:?}", other),
    }
    match driver.get_job_status(0x0123_4567_89ab_cdef_0123_4567_89ab_cdef, 0) {
        Err(DriverError::JobNotFound(m)) => assert_eq!(m, "01234567-89ab-cdef-0123-456789abcdef"),
        other => panic!("unexpected {:?}", other),
    }
    assert!(matches!(driver.cancel_job("nope"), Err(DriverError::JobNotFound(_))));
}

#[test]
fn uuid_text_matches_uuid_crate() {
    let u = uuid::Uuid::new_v4();
    assert_eq!(uuid_string(u.as_u128()), u.to_string());
}

#[test]
fn ionq_driver_test_driver_creation() {
    let driver = IonQDriver::new("fake_api_key".to_string(), IonQBackend::Aria);
    assert_eq!(driver.backend, IonQBackend::Aria);
}

#[test]
fn test_backend_qubits() {
    assert_eq!(IonQBackend::Simulator.num_qubits(), 29);
    assert_eq!(IonQBackend::Aria.num_qubits(), 25);
    assert_eq!(IonQBackend::Forte.num_qubits(), 32);
}

#[test]
fn ionq_driver_test_backend_listing() {
    let mut driver = IonQDriver::new("key".to_string(), IonQBackend::Simulator);
    driver.initialize().unwrap();
    let backends = driver.list_backends().unwrap();
    assert_eq!(backends.len(), 3);
    let aria = backends.iter().find(|b| b.name == "aria-1").unwrap();
    assert_eq!(aria.num_qubits, 25);
    assert!(!aria.is_simulator);
}

#[test]
fn ionq_driver_test_job_submission() {
    let mut driver = IonQDriver::new("key".to_string(), IonQBackend::Simulator);
    driver.initialize().unwrap();
    let job_id = driver.submit_circuit(circuit(5, 2), 50).unwrap();
    let status = driver.get_job_status(job_id, 50).unwrap();
    assert_eq!(status, JobStatus::Queued);
}

#[test]
fn ionq_lifecycle_and_limits() {
    let mut sim = IonQDriver::new("key".to_string(), IonQBackend::Simulator);
    let id = sim.submit_circuit(circuit(3, 2), 0).unwrap();
    assert_eq!(sim.get_job_status(id, 2).unwrap(), JobStatus::Completed);
    let r = sim.get_results(id).unwrap();
    assert_eq!(r.backend, "simulator");
    assert_eq!(r.queue_time_ms, 100);
    let mut aria = IonQDriver::new("key".to_string(), IonQBackend::Aria);
    match aria.submit_circuit(circuit(4, 26), 0) {
        Err(DriverError::InvalidCircuit(m)) => assert_eq!(m, "Backend aria-1 supports a maximum of 25 qubits"),
        other => panic!("unexpected {:?}", other),
    }
    let id = aria.submit_circuit(circuit(4, 25), 0).unwrap();
    assert_eq!(aria.get_job_status(id, 15).unwrap(), JobStatus::Running);
    assert_eq!(aria.get_job_status(id, 20).unwrap(), JobStatus::Completed);
    assert_eq!(aria.get_results(id).unwrap().queue_time_ms, 5000);
    assert!(aria.cancel_job(id).is_ok());
    assert!(aria.cancel_job(77).is_err());
    assert_eq!(IonQBackend::Forte.as_str(), "forte-1");
}

#[test]
fn descriptor_transitions() {
    let mut d = DriverDescriptor::new("ibm", "ibm_kyoto");
    assert_eq!(d.status, DriverStatus::Uninitialized);
    d.mark_ready();
    assert_eq!(d.status, DriverStatus::Ready);
    d.mark_busy();
    assert_eq!(d.status, DriverStatus::Busy);
    d.mark_error();
    assert_eq!(d.status, DriverStatus::Error);
    assert_eq!(d.name, "ibm");
}

#[test]
fn test_pulse_duration_alignment() {
    assert_eq!(aligned_duration_ns(37) % 4, 0);
    assert_eq!(aligned_duration_ns(37), 36);
    assert_eq!(clamped_sequencer(9), 5);
    assert_eq!(clamped_sequencer(3), 3);
    assert_eq!(validate_pulse_timing(40, 0), Ok(()));
    assert_eq!(validate_pulse_timing(38, 0), Err(QbloxError::InvalidPulseParams));
    assert_eq!(validate_pulse_timing(40, 6), Err(QbloxError::InvalidPulseParams));
}

#[test]
fn cluster_stats_and_channels() {
    let stats = ClusterStats::new(6, true, "0.6.2".to_string());
    assert_eq!(stats.num_modules, 6);
    assert!(stats.connected);
    assert_eq!(stats.total_sequencers, 36);
    assert_eq!(simulated_channel_count(ZIInstrumentType::SHFQA), 4);
    assert_eq!(simulated_channel_count(ZIInstrumentType::SHFSG), 8);
    assert_eq!(simulated_channel_count(ZIInstrumentType::PQSC), 0);
}

#[test]
fn driver_manager_registry() {
    let mut manager: DriverManager<SimulatorDriver> = DriverManager::default();
    assert!(manager.get_active().is_none());
    manager.register_driver("sim".to_string(), SimulatorDriver::new());
    manager.register_driver("other".to_string(), SimulatorDriver::new());
    match manager.set_active("missing".to_string()) {
        Err(lightqos::hardware::driver_api::DriverError::Unknown(m)) => assert_eq!(m, "Driver 'missing' not found"),
        other => panic!("unexpected {:?}", other.is_ok()),
    }
    manager.set_active("sim".to_string()).unwrap();
    manager.get_active().unwrap().config.shots = 10;
    assert_eq!(manager.get_driver("sim").unwrap().config.shots, 10);
    assert_eq!(manager.get_driver("other").unwrap().config.shots, 1024);
    assert!(manager.get_driver("nope").is_none());
    assert_eq!(manager.list_drivers(), vec!["sim".to_string(), "other".to_string()]);
    manager.register_driver("sim".to_string(), SimulatorDriver::new());
    assert_eq!(manager.list_drivers().len(), 2);
}

/// Frequencies and amplitude of a test pulse: (lo, nco, amplitude).
type Wave = (f64, f64, f64);

fn in_range(w: &Wave) -> bool {
    w.2.abs() <= 1.0
}

#[test]
fn test_pulse_validation_valid() {
    let wave: Wave = (5e9, 0.0, 0.5);
    let pulse = QbloxPulse::rectangular(0, 40, in_range(&wave), wave);
    assert!(pulse.validate().is_ok());
}

#[test]
fn test_pulse_validation_bad_amplitude() {
    let wave: Wave = (5e9, 0.0, 0.5);
    let mut pulse = QbloxPulse::rectangular(0, 40, in_range(&wave), wave);
    pulse.waveform.2 = 1.5;
    pulse.amplitudes_in_range = in_range(&pulse.waveform);
    assert_eq!(pulse.validate(), Err(QbloxError::InvalidPulseParams));
}

#[test]
fn test_x_gate_pulse() {
    let gate = QbloxPulse::x_gate(0, (5.1e9, 0.0, 0.5));
    assert!(gate.validate().is_ok());
    assert_eq!(gate.duration_ns, 40);
}

#[test]
fn test_module_send_and_trigger() {
    let mut module: QbloxModule<Wave> = QbloxModule::new(1, QbloxModuleType::QCM_RF);
    let pulse = QbloxPulse::x_gate(0, (5.1e9, 0.0, 0.5));
    module.send_pulse(pulse).unwrap();
    module.arm();
    let sent = module.trigger();
    assert_eq!(sent, 1);
}

#[test]
fn test_cluster_standard_config() {
    let mut cluster: QbloxCluster<Wave> = QbloxCluster::new_simulated("192.168.1.100".to_string());
    cluster.configure_standard_6_qubit();
    let stats = cluster.stats();
    assert_eq!(stats.num_modules, 6);
    assert!(stats.connected);
}

#[test]
fn test_cluster_trigger_all() {
    let mut cluster: QbloxCluster<Wave> = QbloxCluster::new_simulated("192.168.1.100".to_string());
    cluster.configure_standard_6_qubit();
    let pulse = QbloxPulse::x_gate(0, (5.1e9, 0.0, 0.5));
    cluster.send_pulse(1, pulse).unwrap();
    let sent = cluster.trigger_all();
    assert_eq!(sent, 1);
}

#[test]
fn qblox_modules_and_cluster_details() {
    let module: QbloxModule<Wave> = QbloxModule::new(1, QbloxModuleType::QRM);
    assert_eq!(module.serial_number, "QB-1234");
    let module: QbloxModule<Wave> = QbloxModule::new(255, QbloxModuleType::QRM);
    assert_eq!(module.serial_number, format!("QB-{:04X}", 255u32 * 0x1234));
    let module: QbloxModule<Wave> = QbloxModule::new(0, QbloxModuleType::QCM);
    assert_eq!(module.serial_number, "QB-0000");
    assert_eq!(module.sequencers.len(), 6);
    assert_eq!(module.status, ModuleStatus::Idle);

    let mut module: QbloxModule<Wave> = QbloxModule::new(2, QbloxModuleType::QCM);
    let mut bad = QbloxPulse::rectangular(3, 37, true, (1.0, 0.0, 0.1));
    assert_eq!(bad.duration_ns, 36);
    bad.duration_ns = 37;
    assert_eq!(module.send_pulse(bad), Err(QbloxError::InvalidPulseParams));
    module.send_pulse(QbloxPulse::rectangular(3, 40, true, (1.0, 0.0, 0.1))).unwrap();
    module.send_pulse(QbloxPulse::rectangular(3, 80, true, (1.0, 0.0, 0.1))).unwrap();
    assert_eq!(module.sequencers[3].total_duration_ns(), 120);
    assert_eq!(module.trigger(), 0);
    module.arm();
    assert_eq!(module.status, ModuleStatus::Armed);
    assert_eq!(module.trigger(), 2);
    assert_eq!(module.sequencers[3].total_pulses_sent, 2);
    module.send_pulse(QbloxPulse::h_gate(9, (1.0, 0.0, 0.25))).unwrap();
    assert_eq!(module.sequencers[5].pulse_queue.len(), 1);
    module.reset();
    assert_eq!(module.sequencers[5].pulse_queue.len(), 0);
    assert!(!module.sequencers[5].enabled);

    let mut cluster: QbloxCluster<Wave> = QbloxCluster::new_simulated("10.0.0.1".to_string());
    assert_eq!(cluster.cluster_id.len(), 36);
    assert_eq!(cluster.firmware_version, "0.6.2");
    assert_eq!(
        cluster.send_pulse(9, QbloxPulse::x_gate(0, (5.0e9, 0.0, 0.5))),
        Err(QbloxError::ConnectionLost)
    );
    cluster.add_module(9, QbloxModuleType::QCM);
    cluster.send_pulse(9, QbloxPulse::x_gate(1, (5.0e9, 0.0, 0.5))).unwrap();
    cluster.send_pulse(9, QbloxPulse::x_gate(2, (5.0e9, 0.0, 0.5))).unwrap();
    assert_eq!(cluster.stats().num_modules, 1);
    assert_eq!(cluster.stats().total_sequencers, 6);
    assert_eq!(cluster.trigger_all(), 2);
    assert_eq!(cluster.trigger_all(), 0);
    assert_eq!(cluster.get_module(9).unwrap().sequencers[1].total_pulses_sent, 1);
    assert!(cluster.get_module(8).is_none());
}

fn zi_pulse(check: PulseCheck) -> ZIPulse<()> {
    ZIPulse { id: 1, duration_ns: 40, channel: 0, check, waveform: () }
}

#[test]
fn test_instrument_queue_and_run() {
    let mut instr: ZIInstrument<()> = ZIInstrument::new_simulated(ZIInstrumentType::SHFSG, "TEST-001".to_string());
    let pulse = zi_pulse(PulseCheck::Valid);
    instr.queue_pulse(pulse).unwrap();
    let n = instr.run_awg().unwrap();
    assert_eq!(n, 1);
    assert_eq!(instr.pulses_executed, 1);
}

#[test]
fn test_17_qubit_setup() {
    let setup: ZurichSetup<()> = ZurichSetup::configure_17_qubit_setup();
    assert_eq!(setup.instruments.len(), 3);
    assert!(setup.instruments.iter().any(|(serial, _)| serial == "SHFQA-001"));
}

#[test]
fn test_trigger_all() {
    let mut setup: ZurichSetup<()> = ZurichSetup::configure_17_qubit_setup();
    let pulse = zi_pulse(PulseCheck::Valid);
    setup.send_pulse("SHFSG-001", pulse).unwrap();
    let total = setup.trigger_all().unwrap();
    assert_eq!(total, 1);
}

#[test]
fn zurich_errors_and_status() {
    let mut instr: ZIInstrument<()> = ZIInstrument::new_simulated(ZIInstrumentType::SHFQA, "QA-7".to_string());
    assert_eq!(instr.readout_channels, 4);
    assert_eq!(instr.check_channel(3), Ok(()));
    assert_eq!(instr.check_channel(4), Err(ZIError::InvalidChannel(4)));
    assert_eq!(instr.queue_pulse(zi_pulse(PulseCheck::FrequencyOutOfRange)), Err(ZIError::FrequencyOutOfRange));
    assert_eq!(
        instr.queue_pulse(zi_pulse(PulseCheck::AmplitudeOutOfRange)),
        Err(ZIError::AWGCompileError("Amplitude outside [0, 1]".to_string()))
    );
    instr.queue_pulse(zi_pulse(PulseCheck::Valid)).unwrap();
    assert_eq!(instr.status_summary(), "SHFQA [QA-7] \u{2014} connected=true, queued=1, executed=0");
    instr.connected = false;
    assert_eq!(instr.run_awg(), Err(ZIError::ConnectionFailed("Not connected".to_string())));
    assert_eq!(instr.pulse_queue.len(), 1);
    assert_eq!(instr.status_summary(), "SHFQA [QA-7] \u{2014} connected=false, queued=1, executed=0");

    let mut setup: ZurichSetup<()> = ZurichSetup::configure_17_qubit_setup();
    assert_eq!(setup.pqsc_serial, "PQSC-001");
    assert_eq!(setup.setup_id.len(), 36);
    assert_eq!(
        setup.send_pulse("NOPE", zi_pulse(PulseCheck::Valid)),
        Err(ZIError::ConnectionFailed("Instrument NOPE not found".to_string()))
    );
    setup.send_pulse("SHFQA-001", zi_pulse(PulseCheck::Valid)).unwrap();
    setup.send_pulse("SHFSG-002", zi_pulse(PulseCheck::Valid)).unwrap();
    setup.instruments[1].1.connected = false;
    assert_eq!(setup.trigger_all(), Err(ZIError::ConnectionFailed("Not connected".to_string())));
    assert_eq!(setup.instruments[0].1.pulses_executed, 1);
    assert_eq!(setup.instruments[2].1.pulse_queue.len(), 1);
    setup.instruments[1].1.connected = true;
    assert_eq!(setup.trigger_all(), Ok(1));
    assert_eq!(setup.instruments[2].1.pulses_executed, 1);
}

#[test]
fn ionq_transpile_gives_entangling_pair() {
    let c = IonQTranspiler::transpile::<f64>(&circuit(9, 4)).unwrap();
    assert_eq!(c.qubits, 4);
    assert_eq!(c.circuit.len(), 2);
    assert!(matches!(c.circuit[0], IonQGate::H { target: 0 }));
    assert!(matches!(c.circuit[1], IonQGate::CNOT { control: 0, target: 1 }));
}
