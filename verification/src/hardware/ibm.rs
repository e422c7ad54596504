//! Driver for IBM Quantum (Heron/Eagle), with its OpenQASM 3 transpiler.
use vstd::prelude::*;
use vstd::string::*;
use crate::hardware::driver_api::{copy_backends, BackendInfo, CircuitSubmission, DriverError, ExecutionResult, JobStatus};
use crate::ids::{new_uuid, uuid_string, uuid_text};
use crate::text::{concat, decimal, decimal_string, hex, hex_string_padded, zero_padded};

verus! {

/// Largest circuit that IBM Quantum accepts.
pub const IBM_MAX_QUBITS: usize = 127;

/// IBM driver configuration.
#[derive(Debug, Clone)]
pub struct IBMConfig {
    /// Number of shots
    pub shots: usize,
    /// Circuit optimization
    pub optimization_level: u8,
    /// Polling timeout (seconds)
    pub polling_timeout_s: u64,
    /// Polling interval (seconds)
    pub polling_interval_s: u64,
    /// Enable error mitigation
    pub error_mitigation: bool,
    /// Automatic transpilation
    pub auto_transpile: bool,
}

impl Default for IBMConfig {
    fn default() -> (r: Self)
        ensures
            r.shots == 1024,
            r.optimization_level == 2,
            r.polling_timeout_s == 300,
            r.polling_interval_s == 5,
            r.error_mitigation,
            r.auto_transpile,
    {
        IBMConfig {
            shots: 1024,
            optimization_level: 2,
            polling_timeout_s: 300,
            polling_interval_s: 5,
            error_mitigation: true,
            auto_transpile: true,
        }
    }
}

/// A job submitted to IBM Quantum.
#[derive(Debug, Clone)]
pub struct IBMJob {
    pub job_id: String,
    pub lightqos_id: u128,
    pub backend: String,
    pub status: JobStatus,
    pub submitted_at: u64,
    pub completed_at: Option<u64>,
}

/// The provider's identifier for a job: "ibm_" and the first eight hex digits of a UUID.
pub open spec fn ibm_job_id(u: u128) -> Seq<char> {
    "ibm_"@ + zero_padded(hex((u >> 96u128) as nat), 8)
}

/// Status a job reports `elapsed` seconds after submission.
pub open spec fn ibm_status_after(elapsed: int) -> JobStatus {
    if elapsed < 5 {
        JobStatus::Queued
    } else if elapsed < 10 {
        JobStatus::Running
    } else {
        JobStatus::Completed
    }
}

/// Index of the first job whose key is `key`, if any.
pub open spec fn key_index(jobs: Seq<(u128, IBMJob)>, key: u128) -> Option<int> {
    if exists|i: int| 0 <= i < jobs.len() && jobs[i].0 == key {
        Some(choose|i: int| 0 <= i < jobs.len() && jobs[i].0 == key && forall|k: int| 0 <= k < i ==> jobs[k].0 != key)
    } else {
        None
    }
}

/// Index of the first job whose provider identifier is `job_id`, if any.
pub open spec fn job_id_index(jobs: Seq<(u128, IBMJob)>, job_id: Seq<char>) -> Option<int> {
    if exists|i: int| 0 <= i < jobs.len() && jobs[i].1.job_id@ == job_id {
        Some(choose|i: int| 0 <= i < jobs.len() && jobs[i].1.job_id@ == job_id && forall|k: int| 0 <= k < i ==> jobs[k].1.job_id@ != job_id)
    } else {
        None
    }
}

/// The counts IBM returns for the simulated Bell-state run.
pub open spec fn bell_counts_ok(counts: Seq<(String, usize)>) -> bool {
    &&& counts.len() == 2
    &&& counts[0].0@ == "00"@ && counts[0].1 == 512
    &&& counts[1].0@ == "11"@ && counts[1].1 == 512
}

/// Replacing the job at one position, under the same key, keeps keys distinct.
proof fn lemma_same_key_update(jobs: Seq<(u128, IBMJob)>, i: int, job: IBMJob)
    requires
        0 <= i < jobs.len(),
        forall|a: int, b: int| 0 <= a < b < jobs.len() ==> jobs[a].0 != jobs[b].0,
    ensures
        forall|a: int, b: int|
            0 <= a < b < jobs.len() ==> #[trigger] jobs.update(i, (jobs[i].0, job))[a].0
                != #[trigger] jobs.update(i, (jobs[i].0, job))[b].0,
{
    assert forall|a: int, b: int| 0 <= a < b < jobs.len() implies #[trigger] jobs.update(i, (jobs[i].0, job))[a].0
        != #[trigger] jobs.update(i, (jobs[i].0, job))[b].0 by {
        assert(jobs[a].0 != jobs[b].0);
    }
}

/// Driver for IBM Quantum.
pub struct IBMQuantumDriver {
    /// API token
    pub api_token: String,
    /// API URL
    pub api_url: String,
    /// Selected backend
    pub backend: String,
    /// Configuration
    pub config: IBMConfig,
    /// Available backends cache
    pub backends_cache: Option<Vec<BackendInfo>>,
    /// Submitted jobs, keyed by the circuit id; no key occurs twice
    pub submitted_jobs: Vec<(u128, IBMJob)>,
}

/// Builds a `BackendInfo`.
fn backend_info(
    name: &str,
    provider: &str,
    num_qubits: usize,
    is_simulator: bool,
    queue_length: usize,
    avg_queue_time_s: u64,
) -> (r: BackendInfo)
    ensures
        r.name@ == name@,
        r.provider@ == provider@,
        r.num_qubits == num_qubits,
        r.is_simulator == is_simulator,
        r.is_available,
        r.queue_length == queue_length,
        r.avg_queue_time_s == Some(avg_queue_time_s),
{
    BackendInfo {
        name: String::from_str(name),
        provider: String::from_str(provider),
        num_qubits,
        is_simulator,
        is_available: true,
        queue_length,
        avg_queue_time_s: Some(avg_queue_time_s),
    }
}

/// The backends IBM Quantum offers.
pub open spec fn ibm_backends_ok(b: Seq<BackendInfo>) -> bool {
    &&& b.len() == 3
    &&& b[0].name@ == "ibm_brisbane"@ && b[0].provider@ == "IBM Quantum"@ && b[0].num_qubits == 127
        && !b[0].is_simulator && b[0].is_available && b[0].queue_length == 15
        && b[0].avg_queue_time_s == Some(120u64)
    &&& b[1].name@ == "ibm_kyoto"@ && b[1].provider@ == "IBM Quantum"@ && b[1].num_qubits == 127
        && !b[1].is_simulator && b[1].is_available && b[1].queue_length == 8
        && b[1].avg_queue_time_s == Some(60u64)
    &&& b[2].name@ == "ibmq_qasm_simulator"@ && b[2].provider@ == "IBM Quantum"@ && b[2].num_qubits
        == 32 && b[2].is_simulator && b[2].is_available && b[2].queue_length == 0
        && b[2].avg_queue_time_s == Some(5u64)
}

impl IBMQuantumDriver {
    /// No circuit id occurs twice in the job table.
    pub open spec fn wf(&self) -> bool {
        forall|i: int, j: int|
            0 <= i < j < self.submitted_jobs@.len() ==> self.submitted_jobs@[i].0
                != self.submitted_jobs@[j].0
    }

    /// Creates a new IBM Quantum driver.
    pub fn new(api_token: String, backend: String) -> (r: Self)
        ensures
            r.wf(),
            r.api_token == api_token,
            r.backend == backend,
            r.api_url@ == "https://api.quantum-computing.ibm.com"@,
            r.config.shots == 1024,
            r.config.optimization_level == 2,
            r.config.polling_timeout_s == 300,
            r.config.polling_interval_s == 5,
            r.config.error_mitigation,
            r.config.auto_transpile,
            r.backends_cache is None,
            r.submitted_jobs@.len() == 0,
    {
        IBMQuantumDriver {
            api_token,
            api_url: String::from_str("https://api.quantum-computing.ibm.com"),
            backend,
            config: IBMConfig::default(),
            backends_cache: None,
            submitted_jobs: Vec::new(),
        }
    }

    /// Configures the driver.
    pub fn with_config(self, config: IBMConfig) -> (r: Self)
        ensures
            r.config == config,
            r.api_token == self.api_token,
            r.api_url == self.api_url,
            r.backend == self.backend,
            r.backends_cache == self.backends_cache,
            r.submitted_jobs == self.submitted_jobs,
    {
        let mut s = self;
        s.config = config;
        s
    }

    /// Sets a custom API URL.
    pub fn with_api_url(self, url: String) -> (r: Self)
        ensures
            r.api_url == url,
            r.config == self.config,
            r.api_token == self.api_token,
            r.backend == self.backend,
            r.backends_cache == self.backends_cache,
            r.submitted_jobs == self.submitted_jobs,
    {
        let mut s = self;
        s.api_url = url;
        s
    }

    /// Lists the available backends.
    pub fn fetch_backends(&self) -> (r: Result<Vec<BackendInfo>, DriverError>)
        ensures
            r matches Ok(b) && ibm_backends_ok(b@),
    {
        Ok(self.get_simulated_backends())
    }

    /// The backends IBM Quantum offers.
    pub fn get_simulated_backends(&self) -> (r: Vec<BackendInfo>)
        ensures
            ibm_backends_ok(r@),
    {
        let mut v: Vec<BackendInfo> = Vec::new();
        v.push(backend_info("ibm_brisbane", "IBM Quantum", 127, false, 15, 120));
        v.push(backend_info("ibm_kyoto", "IBM Quantum", 127, false, 8, 60));
        v.push(backend_info("ibmq_qasm_simulator", "IBM Quantum", 32, true, 0, 5));
        v
    }

    /// Loads the backend catalogue into the cache.
    pub fn initialize(&mut self) -> (r: Result<(), DriverError>)
        ensures
            r is Ok,
            final(self).backends_cache matches Some(b) && ibm_backends_ok(b@),
            final(self).submitted_jobs == old(self).submitted_jobs,
            final(self).config == old(self).config,
            final(self).backend == old(self).backend,
    {
        let backends = self.fetch_backends();
        match backends {
            Ok(b) => {
                self.backends_cache = Some(b);
                Ok(())
            },
            Err(e) => Err(e),
        }
    }

    /// Lists the backends, from the cache when it is filled.
    pub fn list_backends(&mut self) -> (r: Result<Vec<BackendInfo>, DriverError>)
        ensures
            final(self).submitted_jobs == old(self).submitted_jobs,
            final(self).config == old(self).config,
            old(self).backends_cache matches Some(c) ==> (r matches Ok(b) && b@ == c@
                && final(self).backends_cache == old(self).backends_cache),
            old(self).backends_cache is None ==> (r matches Ok(b) && ibm_backends_ok(b@)
                && (final(self).backends_cache matches Some(c) && c@ == b@)),
    {
        match &self.backends_cache {
            Some(b) => {
                return Ok(copy_backends(b));
            },
            None => {},
        }
        let backends = self.get_simulated_backends();
        self.backends_cache = Some(copy_backends(&backends));
        Ok(backends)
    }

    /// The driver's display name.
    pub fn driver_name(&self) -> (r: &'static str)
        ensures
            r@ == "IBM Quantum"@,
    {
        "IBM Quantum"
    }

    /// Position of the job filed under `key`.
    fn find_key(&self, key: u128) -> (r: Option<usize>)
        ensures
            r matches Some(i) ==> i < self.submitted_jobs@.len() && key_index(self.submitted_jobs@, key) == Some(i as int),
            r is None ==> key_index(self.submitted_jobs@, key) is None,
    {
        let mut i: usize = 0;
        while i < self.submitted_jobs.len()
            invariant
                i <= self.submitted_jobs@.len(),
                forall|k: int| 0 <= k < i ==> self.submitted_jobs@[k].0 != key,
            decreases self.submitted_jobs@.len() - i,
        {
            if self.submitted_jobs[i].0 == key {
                assert(key_index(self.submitted_jobs@, key) == Some(i as int));
                return Some(i);
            }
            i = i + 1;
        }
        None
    }

    /// Position of the first job with provider identifier `job_id`.
    fn find_job_id(&self, job_id: &str) -> (r: Option<usize>)
        ensures
            r matches Some(i) ==> i < self.submitted_jobs@.len() && job_id_index(self.submitted_jobs@, job_id@) == Some(i as int),
            r is None ==> job_id_index(self.submitted_jobs@, job_id@) is None,
    {
        let wanted = String::from_str(job_id);
        let mut i: usize = 0;
        while i < self.submitted_jobs.len()
            invariant
                i <= self.submitted_jobs@.len(),
                wanted@ == job_id@,
                forall|k: int| 0 <= k < i ==> self.submitted_jobs@[k].1.job_id@ != job_id@,
            decreases self.submitted_jobs@.len() - i,
        {
            if self.submitted_jobs[i].1.job_id == wanted {
                assert(job_id_index(self.submitted_jobs@, job_id@) == Some(i as int));
                return Some(i);
            }
            i = i + 1;
        }
        None
    }

    /// Submits a circuit; the job is filed under the circuit id, replacing an earlier one.
    pub fn submit_job(&mut self, circuit: &CircuitSubmission, now: u64) -> (r: Result<String, DriverError>)
        requires
            old(self).wf(),
        ensures
            final(self).wf(),
            final(self).config == old(self).config,
            final(self).backend == old(self).backend,
            circuit.num_qubits > IBM_MAX_QUBITS ==> (r matches Err(DriverError::InvalidCircuit(m))
                && m@ == "IBM Quantum supports a maximum of 127 qubits"@ && final(self).submitted_jobs
                == old(self).submitted_jobs),
            circuit.num_qubits <= IBM_MAX_QUBITS ==> (r matches Ok(id) && exists|u: u128| id@
                == #[trigger] ibm_job_id(u)),
            r matches Ok(id) ==> ({
                let job = IBMJob {
                    job_id: id,
                    lightqos_id: circuit.id,
                    backend: old(self).backend,
                    status: JobStatus::Queued,
                    submitted_at: now,
                    completed_at: None,
                };
                match key_index(old(self).submitted_jobs@, circuit.id) {
                    Some(i) => final(self).submitted_jobs@ == old(self).submitted_jobs@.update(i, (circuit.id, job)),
                    None => final(self).submitted_jobs@ == old(self).submitted_jobs@.push((circuit.id, job)),
                }
            }),
    {
        if circuit.num_qubits > IBM_MAX_QUBITS {
            return Err(DriverError::InvalidCircuit(String::from_str("IBM Quantum supports a maximum of 127 qubits")));
        }
        let u = new_uuid();
        let short = hex_string_padded(u >> 96u128, 8);
        let job_id = concat("ibm_", short.as_str());
        let job = IBMJob {
            job_id: job_id.clone(),
            lightqos_id: circuit.id,
            backend: self.backend.clone(),
            status: JobStatus::Queued,
            submitted_at: now,
            completed_at: None,
        };
        match self.find_key(circuit.id) {
            Some(i) => {
                self.submitted_jobs.set(i, (circuit.id, job));
            },
            None => {
                self.submitted_jobs.push((circuit.id, job));
            },
        }
        proof {
            assert(job_id@ == ibm_job_id(u));
            assert forall|i: int, j: int|
                0 <= i < j < self.submitted_jobs@.len() implies self.submitted_jobs@[i].0
                != self.submitted_jobs@[j].0 by {
                if j == old(self).submitted_jobs@.len() {
                    assert(self.submitted_jobs@[i] == old(self).submitted_jobs@[i]);
                }
            }
        }
        Ok(job_id)
    }

    /// Submits a circuit and answers with its id, under which the job is filed.
    pub fn submit_circuit(&mut self, circuit: CircuitSubmission, now: u64) -> (r: Result<u128, DriverError>)
        requires
            old(self).wf(),
        ensures
            final(self).wf(),
            circuit.num_qubits > IBM_MAX_QUBITS ==> (r matches Err(DriverError::InvalidCircuit(m))
                && m@ == "IBM Quantum supports a maximum of 127 qubits"@ && final(self).submitted_jobs
                == old(self).submitted_jobs),
            circuit.num_qubits <= IBM_MAX_QUBITS ==> (r == Ok::<u128, DriverError>(circuit.id)
                && (key_index(final(self).submitted_jobs@, circuit.id) matches Some(i)
                && final(self).submitted_jobs@[i].1.status == JobStatus::Queued
                && final(self).submitted_jobs@[i].1.submitted_at == now
                && final(self).submitted_jobs@[i].1.lightqos_id == circuit.id)),
    {
        let r = self.submit_job(&circuit, now);
        match r {
            Ok(_) => {
                proof {
                    let i = choose|i: int| 0 <= i < self.submitted_jobs@.len() && self.submitted_jobs@[i].0 == circuit.id
                        && forall|k: int| 0 <= k < i ==> self.submitted_jobs@[k].0 != circuit.id;
                    match key_index(old(self).submitted_jobs@, circuit.id) {
                        Some(i0) => {
                            assert(self.submitted_jobs@[i0].0 == circuit.id);
                            assert(key_index(self.submitted_jobs@, circuit.id) is Some);
                        },
                        None => {
                            let n = old(self).submitted_jobs@.len() as int;
                            assert(self.submitted_jobs@[n].0 == circuit.id);
                        },
                    }
                }
                Ok(circuit.id)
            },
            Err(e) => Err(e),
        }
    }

    /// Polls the status of the first job with provider identifier `job_id`; a job moves from
    /// queued to running after 5 s and completes after 10 s.
    pub fn query_job_status(&mut self, job_id: &str, now: u64) -> (r: Result<JobStatus, DriverError>)
        requires
            old(self).wf(),
            job_id_index(old(self).submitted_jobs@, job_id@) matches Some(i)
                ==> old(self).submitted_jobs@[i].1.submitted_at <= now,
        ensures
            final(self).wf(),
            final(self).config == old(self).config,
            match job_id_index(old(self).submitted_jobs@, job_id@) {
                None => r matches Err(DriverError::JobNotFound(m)) && m@ == job_id@
                    && final(self).submitted_jobs == old(self).submitted_jobs,
                Some(i) => {
                    let old_job = old(self).submitted_jobs@[i].1;
                    let st = ibm_status_after(now - old_job.submitted_at);
                    &&& r == Ok::<JobStatus, DriverError>(st)
                    &&& final(self).submitted_jobs@ == old(self).submitted_jobs@.update(
                        i,
                        (old(self).submitted_jobs@[i].0, IBMJob {
                            status: st,
                            completed_at: if st == JobStatus::Completed { Some(now) } else { old_job.completed_at },
                            ..old_job
                        }),
                    )
                },
            },
    {
        match self.find_job_id(job_id) {
            None => Err(DriverError::JobNotFound(String::from_str(job_id))),
            Some(i) => {
                let key = self.submitted_jobs[i].0;
                let mut job = self.submitted_jobs[i].1.clone_job();
                let elapsed = now - job.submitted_at;
                let new_status = if elapsed < 5 {
                    JobStatus::Queued
                } else if elapsed < 10 {
                    JobStatus::Running
                } else {
                    job.completed_at = Some(now);
                    JobStatus::Completed
                };
                job.status = new_status;
                let ghost gj = job;
                self.submitted_jobs.set(i, (key, job));
                proof {
                    lemma_same_key_update(old(self).submitted_jobs@, i as int, gj);
                    assert(self.submitted_jobs@ == old(self).submitted_jobs@.update(i as int, (old(self).submitted_jobs@[i as int].0, gj)));
                }
                Ok(new_status)
            },
        }
    }

    /// The simulated result of a job: a Bell-state histogram over the configured shots.
    pub fn simulate_results(&self, job: &IBMJob) -> (r: ExecutionResult)
        ensures
            r.job_id == job.lightqos_id,
            r.backend == job.backend,
            r.shots == self.config.shots,
            bell_counts_ok(r.counts@),
            r.execution_time_ms == 150,
            r.queue_time_ms == 2000,
            r.success,
            r.error_message is None,
    {
        let mut counts: Vec<(String, usize)> = Vec::new();
        counts.push((String::from_str("00"), 512));
        counts.push((String::from_str("11"), 512));
        ExecutionResult {
            job_id: job.lightqos_id,
            backend: job.backend.clone(),
            shots: self.config.shots,
            counts,
            execution_time_ms: 150,
            queue_time_ms: 2000,
            success: true,
            error_message: None,
        }
    }

    /// Results of the first job with provider identifier `job_id`, once it has completed.
    pub fn fetch_results(&self, job_id: &str) -> (r: Result<ExecutionResult, DriverError>)
        ensures
            match job_id_index(self.submitted_jobs@, job_id@) {
                None => r matches Err(DriverError::JobNotFound(m)) && m@ == job_id@,
                Some(i) => {
                    let job = self.submitted_jobs@[i].1;
                    if job.status != JobStatus::Completed {
                        r matches Err(DriverError::JobNotReady)
                    } else {
                        r matches Ok(res) && res.job_id == job.lightqos_id && res.backend == job.backend
                            && res.shots == self.config.shots && bell_counts_ok(res.counts@)
                            && res.execution_time_ms == 150 && res.queue_time_ms == 2000
                            && res.success && res.error_message is None
                    }
                },
            },
    {
        match self.find_job_id(job_id) {
            None => Err(DriverError::JobNotFound(String::from_str(job_id))),
            Some(i) => {
                let job = &self.submitted_jobs[i].1;
                if job.status != JobStatus::Completed {
                    return Err(DriverError::JobNotReady);
                }
                Ok(self.simulate_results(job))
            },
        }
    }

    /// Cancels the first job with provider identifier `job_id`.
    pub fn cancel_job(&mut self, job_id: &str) -> (r: Result<(), DriverError>)
        requires
            old(self).wf(),
        ensures
            final(self).wf(),
            final(self).config == old(self).config,
            match job_id_index(old(self).submitted_jobs@, job_id@) {
                None => r matches Err(DriverError::JobNotFound(m)) && m@ == job_id@
                    && final(self).submitted_jobs == old(self).submitted_jobs,
                Some(i) => r is Ok && final(self).submitted_jobs@ == old(self).submitted_jobs@.update(
                    i,
                    (old(self).submitted_jobs@[i].0, IBMJob {
                        status: JobStatus::Cancelled,
                        ..old(self).submitted_jobs@[i].1
                    }),
                ),
            },
    {
        match self.find_job_id(job_id) {
            None => Err(DriverError::JobNotFound(String::from_str(job_id))),
            Some(i) => {
                let key = self.submitted_jobs[i].0;
                let mut job = self.submitted_jobs[i].1.clone_job();
                job.status = JobStatus::Cancelled;
                let ghost gj = job;
                self.submitted_jobs.set(i, (key, job));
                proof {
                    lemma_same_key_update(old(self).submitted_jobs@, i as int, gj);
                    assert(self.submitted_jobs@ == old(self).submitted_jobs@.update(i as int, (old(self).submitted_jobs@[i as int].0, gj)));
                }
                Ok(())
            },
        }
    }
}

impl IBMQuantumDriver {
    /// Polls the job filed under circuit id `job_id`.
    pub fn get_job_status(&mut self, job_id: u128, now: u64) -> (r: Result<JobStatus, DriverError>)
        requires
            old(self).wf(),
            key_index(old(self).submitted_jobs@, job_id) matches Some(k) ==> (job_id_index(
                old(self).submitted_jobs@,
                old(self).submitted_jobs@[k].1.job_id@,
            ) matches Some(i) ==> old(self).submitted_jobs@[i].1.submitted_at <= now),
        ensures
            final(self).wf(),
            key_index(old(self).submitted_jobs@, job_id) is None ==> (r matches Err(DriverError::JobNotFound(m))
                && m@ == uuid_text(job_id) && final(self).submitted_jobs == old(self).submitted_jobs),
            key_index(old(self).submitted_jobs@, job_id) matches Some(k) ==> ({
                let pid = old(self).submitted_jobs@[k].1.job_id@;
                let i = job_id_index(old(self).submitted_jobs@, pid)->0;
                let old_job = old(self).submitted_jobs@[i].1;
                let st = ibm_status_after(now - old_job.submitted_at);
                &&& job_id_index(old(self).submitted_jobs@, pid) is Some
                &&& r == Ok::<JobStatus, DriverError>(st)
                &&& final(self).submitted_jobs@ == old(self).submitted_jobs@.update(
                    i,
                    (old(self).submitted_jobs@[i].0, IBMJob {
                        status: st,
                        completed_at: if st == JobStatus::Completed { Some(now) } else { old_job.completed_at },
                        ..old_job
                    }),
                )
            }),
    {
        match self.find_key(job_id) {
            None => Err(DriverError::JobNotFound(uuid_string(job_id))),
            Some(k) => {
                let pid = self.submitted_jobs[k].1.job_id.clone();
                proof {
                    assert(self.submitted_jobs@[k as int].1.job_id@ == pid@);
                }
                self.query_job_status(pid.as_str(), now)
            },
        }
    }

    /// Results of the job filed under circuit id `job_id`.
    pub fn get_results(&self, job_id: u128) -> (r: Result<ExecutionResult, DriverError>)
        ensures
            key_index(self.submitted_jobs@, job_id) is None ==> (r matches Err(DriverError::JobNotFound(m))
                && m@ == uuid_text(job_id)),
            key_index(self.submitted_jobs@, job_id) matches Some(k) ==> ({
                let pid = self.submitted_jobs@[k].1.job_id@;
                let job = self.submitted_jobs@[job_id_index(self.submitted_jobs@, pid)->0].1;
                &&& job_id_index(self.submitted_jobs@, pid) is Some
                &&& job.status != JobStatus::Completed ==> r == Err::<ExecutionResult, DriverError>(DriverError::JobNotReady)
                &&& job.status == JobStatus::Completed ==> (r is Ok && r->Ok_0.job_id == job.lightqos_id
                    && r->Ok_0.backend == job.backend && r->Ok_0.shots == self.config.shots
                    && bell_counts_ok(r->Ok_0.counts@) && r->Ok_0.success)
            }),
    {
        match self.find_key(job_id) {
            None => Err(DriverError::JobNotFound(uuid_string(job_id))),
            Some(k) => {
                let pid = &self.submitted_jobs[k].1.job_id;
                self.fetch_results(pid.as_str())
            },
        }
    }

    /// Cancels the job filed under circuit id `job_id`.
    pub fn cancel(&mut self, job_id: u128) -> (r: Result<(), DriverError>)
        requires
            old(self).wf(),
        ensures
            final(self).wf(),
            key_index(old(self).submitted_jobs@, job_id) is None ==> (r matches Err(DriverError::JobNotFound(m))
                && m@ == uuid_text(job_id) && final(self).submitted_jobs == old(self).submitted_jobs),
            key_index(old(self).submitted_jobs@, job_id) matches Some(k) ==> ({
                let pid = old(self).submitted_jobs@[k].1.job_id@;
                let i = job_id_index(old(self).submitted_jobs@, pid)->0;
                &&& job_id_index(old(self).submitted_jobs@, pid) is Some
                &&& r is Ok
                &&& final(self).submitted_jobs@ == old(self).submitted_jobs@.update(
                    i,
                    (old(self).submitted_jobs@[i].0, IBMJob {
                        status: JobStatus::Cancelled,
                        ..old(self).submitted_jobs@[i].1
                    }),
                )
            }),
    {
        match self.find_key(job_id) {
            None => Err(DriverError::JobNotFound(uuid_string(job_id))),
            Some(k) => {
                let pid = self.submitted_jobs[k].1.job_id.clone();
                proof {
                    assert(self.submitted_jobs@[k as int].1.job_id@ == pid@);
                }
                self.cancel_job(pid.as_str())
            },
        }
    }
}

/// The measurement lines of the first `n` qubits.
pub open spec fn qasm_measures(n: nat) -> Seq<char>
    decreases n,
{
    if n == 0 {
        Seq::empty()
    } else {
        qasm_measures((n - 1) as nat) + "c["@ + decimal((n - 1) as nat) + "] = measure q["@ + decimal(
            (n - 1) as nat,
        ) + "];\n"@
    }
}

/// The OpenQASM 3 program emitted for a circuit on `n` qubits.
pub open spec fn qasm_program(n: nat) -> Seq<char> {
    "OPENQASM 3.0;\n"@ + "include \"stdgates.inc\";\n\n"@ + "qubit["@ + decimal(n) + "] q;\n"@
        + "bit["@ + decimal(n) + "] c;\n\n"@ + "// Circuit operations\n"@ + "h q[0];\n"@
        + "cx q[0], q[1];\n\n"@ + "// Measurements\n"@ + qasm_measures(n)
}

/// LightQOS to OpenQASM 3 transpiler.
pub struct IBMTranspiler;

impl IBMTranspiler {
    /// Transpiles a circuit to OpenQASM 3: header, registers, the circuit body and one
    /// measurement per qubit.
    pub fn transpile(circuit: &CircuitSubmission) -> (r: Result<String, String>)
        ensures
            r matches Ok(q) && q@ == qasm_program(circuit.num_qubits as nat),
    {
        let n = circuit.num_qubits;
        let dn = decimal_string(n as u128);
        let mut qasm = String::from_str("OPENQASM 3.0;\n");
        qasm.append("include \"stdgates.inc\";\n\n");
        qasm.append("qubit[");
        qasm.append(dn.as_str());
        qasm.append("] q;\n");
        qasm.append("bit[");
        qasm.append(dn.as_str());
        qasm.append("] c;\n\n");
        qasm.append("// Circuit operations\n");
        qasm.append("h q[0];\n");
        qasm.append("cx q[0], q[1];\n\n");
        qasm.append("// Measurements\n");
        let ghost head = qasm@;
        let mut i: usize = 0;
        while i < n
            invariant
                i <= n,
                qasm@ == head + qasm_measures(i as nat),
            decreases n - i,
        {
            let di = decimal_string(i as u128);
            qasm.append("c[");
            qasm.append(di.as_str());
            qasm.append("] = measure q[");
            qasm.append(di.as_str());
            qasm.append("];\n");
            i = i + 1;
            assert(qasm@ =~= head + qasm_measures(i as nat));
        }
        assert(qasm@ =~= qasm_program(n as nat));
        Ok(qasm)
    }
}

impl IBMJob {
    /// A field-by-field copy.
    pub fn clone_job(&self) -> (r: Self)
        ensures
            r == *self,
    {
        IBMJob {
            job_id: self.job_id.clone(),
            lightqos_id: self.lightqos_id,
            backend: self.backend.clone(),
            status: self.status,
            submitted_at: self.submitted_at,
            completed_at: self.completed_at,
        }
    }
}

} // verus!
