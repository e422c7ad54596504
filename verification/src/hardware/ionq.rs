//! Driver for IonQ (Forte/Aria) trapped-ion hardware.
use vstd::prelude::*;
use vstd::string::*;
use crate::hardware::driver_api::{BackendInfo, CircuitSubmission, DriverError, ExecutionResult, JobStatus};
use crate::ids::{new_uuid, uuid_string, uuid_text};
use crate::text::{concat, decimal, decimal_string, hex, hex_string_padded, zero_padded};

verus! {

/// IonQ backends.
#[derive(Debug, Clone, Copy, PartialEq, Eq, Structural)]
pub enum IonQBackend {
    Simulator,
    Aria,
    Forte,
}

/// The target name of a backend in IonQ's API.
pub open spec fn backend_name(b: IonQBackend) -> Seq<char> {
    match b {
        IonQBackend::Simulator => "simulator"@,
        IonQBackend::Aria => "aria-1"@,
        IonQBackend::Forte => "forte-1"@,
    }
}

/// The number of qubits of a backend.
pub open spec fn backend_qubits(b: IonQBackend) -> nat {
    match b {
        IonQBackend::Simulator => 29,
        IonQBackend::Aria => 25,
        IonQBackend::Forte => 32,
    }
}

impl IonQBackend {
    /// The target name in IonQ's API.
    pub fn as_str(&self) -> (r: &'static str)
        ensures
            r@ == backend_name(*self),
    {
        match self {
            IonQBackend::Simulator => "simulator",
            IonQBackend::Aria => "aria-1",
            IonQBackend::Forte => "forte-1",
        }
    }

    /// The number of qubits of the backend.
    pub fn num_qubits(&self) -> (r: usize)
        ensures
            r == backend_qubits(*self),
    {
        match self {
            IonQBackend::Simulator => 29,
            IonQBackend::Aria => 25,
            IonQBackend::Forte => 32,
        }
    }
}

/// IonQ driver configuration.
#[derive(Debug, Clone)]
pub struct IonQConfig {
    /// Number of shots
    pub shots: usize,
    /// Polling timeout (seconds)
    pub polling_timeout_s: u64,
    /// Polling interval (seconds)
    pub polling_interval_s: u64,
    /// Noise model (for simulator)
    pub noise_model: Option<String>,
    /// Sharpening (IonQ optimization)
    pub sharpening: bool,
}

impl Default for IonQConfig {
    fn default() -> (r: Self)
        ensures
            r.shots == 1024,
            r.polling_timeout_s == 300,
            r.polling_interval_s == 5,
            r.noise_model matches Some(m) && m@ == "aria-1"@,
            r.sharpening,
    {
        IonQConfig {
            shots: 1024,
            polling_timeout_s: 300,
            polling_interval_s: 5,
            noise_model: Some(String::from_str("aria-1")),
            sharpening: true,
        }
    }
}

/// A job submitted to IonQ.
#[derive(Debug, Clone)]
pub struct IonQJob {
    pub job_id: String,
    pub lightqos_id: u128,
    pub backend: IonQBackend,
    pub status: JobStatus,
    pub submitted_at: u64,
}

impl IonQJob {
    /// A field-by-field copy.
    pub fn clone_job(&self) -> (r: Self)
        ensures
            r == *self,
    {
        IonQJob {
            job_id: self.job_id.clone(),
            lightqos_id: self.lightqos_id,
            backend: self.backend,
            status: self.status,
            submitted_at: self.submitted_at,
        }
    }
}

/// The provider's identifier for a job: "ionq_" and the first eight hex digits of a UUID.
pub open spec fn ionq_job_id(u: u128) -> Seq<char> {
    "ionq_"@ + zero_padded(hex((u >> 96u128) as nat), 8)
}

/// Status a job reports `elapsed` seconds after submission: the simulator completes
/// after 2 s; hardware queues for 10 s and runs until 20 s.
pub open spec fn ionq_status_after(backend: IonQBackend, elapsed: int) -> JobStatus {
    match backend {
        IonQBackend::Simulator => if elapsed < 2 {
            JobStatus::Queued
        } else {
            JobStatus::Completed
        },
        _ => if elapsed < 10 {
            JobStatus::Queued
        } else if elapsed < 20 {
            JobStatus::Running
        } else {
            JobStatus::Completed
        },
    }
}

/// Index of the first job filed under `key`, if any.
pub open spec fn ionq_key_index(jobs: Seq<(u128, IonQJob)>, key: u128) -> Option<int> {
    if exists|i: int| 0 <= i < jobs.len() && jobs[i].0 == key {
        Some(choose|i: int| 0 <= i < jobs.len() && jobs[i].0 == key && forall|k: int| 0 <= k < i ==> jobs[k].0 != key)
    } else {
        None
    }
}

/// Index of the first job with provider identifier `job_id`, if any.
pub open spec fn ionq_job_id_index(jobs: Seq<(u128, IonQJob)>, job_id: Seq<char>) -> Option<int> {
    if exists|i: int| 0 <= i < jobs.len() && jobs[i].1.job_id@ == job_id {
        Some(choose|i: int| 0 <= i < jobs.len() && jobs[i].1.job_id@ == job_id && forall|k: int| 0 <= k < i ==> jobs[k].1.job_id@ != job_id)
    } else {
        None
    }
}

/// Index of the first job for circuit `id`, if any.
pub open spec fn ionq_circuit_index(jobs: Seq<(u128, IonQJob)>, id: u128) -> Option<int> {
    if exists|i: int| 0 <= i < jobs.len() && jobs[i].1.lightqos_id == id {
        Some(choose|i: int| 0 <= i < jobs.len() && jobs[i].1.lightqos_id == id && forall|k: int| 0 <= k < i ==> jobs[k].1.lightqos_id != id)
    } else {
        None
    }
}

/// The backends IonQ offers.
pub open spec fn ionq_backends_ok(b: Seq<BackendInfo>) -> bool {
    &&& b.len() == 3
    &&& b[0].name@ == "simulator"@ && b[0].provider@ == "IonQ"@ && b[0].num_qubits == 29
        && b[0].is_simulator && b[0].is_available && b[0].queue_length == 0
        && b[0].avg_queue_time_s == Some(1u64)
    &&& b[1].name@ == "aria-1"@ && b[1].provider@ == "IonQ"@ && b[1].num_qubits == 25
        && !b[1].is_simulator && b[1].is_available && b[1].queue_length == 5
        && b[1].avg_queue_time_s == Some(30u64)
    &&& b[2].name@ == "forte-1"@ && b[2].provider@ == "IonQ"@ && b[2].num_qubits == 32
        && !b[2].is_simulator && b[2].is_available && b[2].queue_length == 3
        && b[2].avg_queue_time_s == Some(20u64)
}

/// The message for a circuit too large for a backend.
pub open spec fn too_many_qubits_message(b: IonQBackend) -> Seq<char> {
    "Backend "@ + backend_name(b) + " supports a maximum of "@ + decimal(backend_qubits(b))
        + " qubits"@
}

proof fn lemma_same_key_update(jobs: Seq<(u128, IonQJob)>, i: int, job: IonQJob)
    requires
        0 <= i < jobs.len(),
        forall|a: int, b: int| 0 <= a < b < jobs.len() ==> jobs[a].0 != jobs[b].0,
    ensures
        forall|a: int, b: int|
            0 <= a < b < jobs.len() ==> #[trigger] jobs.update(i, (jobs[i].0, job))[a].0
                != #[trigger] jobs.update(i, (jobs[i].0, job))[b].0,
{
    assert forall|a: int, b: int| 0 <= a < b < jobs.len() implies #[trigger] jobs.update(i, (jobs[i].0, job))[a].0
        != #[trigger] jobs.update(i, (jobs[i].0, job))[b].0 by {
        assert(jobs[a].0 != jobs[b].0);
    }
}

/// Driver for IonQ.
pub struct IonQDriver {
    /// API Key
    pub api_key: String,
    /// API URL
    pub api_url: String,
    /// Selected backend
    pub backend: IonQBackend,
    /// Configuration
    pub config: IonQConfig,
    /// Submitted jobs, keyed by the circuit id; no key occurs twice
    pub submitted_jobs: Vec<(u128, IonQJob)>,
}

impl IonQDriver {
    /// No circuit id occurs twice in the job table.
    pub open spec fn wf(&self) -> bool {
        forall|i: int, j: int|
            0 <= i < j < self.submitted_jobs@.len() ==> self.submitted_jobs@[i].0
                != self.submitted_jobs@[j].0
    }

    /// Creates a new IonQ driver.
    pub fn new(api_key: String, backend: IonQBackend) -> (r: Self)
        ensures
            r.wf(),
            r.api_key == api_key,
            r.backend == backend,
            r.api_url@ == "https://api.ionq.co/v0.3"@,
            r.config.shots == 1024,
            r.config.polling_timeout_s == 300,
            r.config.polling_interval_s == 5,
            r.config.noise_model matches Some(m) && m@ == "aria-1"@,
            r.config.sharpening,
            r.submitted_jobs@.len() == 0,
    {
        IonQDriver {
            api_key,
            api_url: String::from_str("https://api.ionq.co/v0.3"),
            backend,
            config: IonQConfig::default(),
            submitted_jobs: Vec::new(),
        }
    }

    /// Configures the driver.
    pub fn with_config(self, config: IonQConfig) -> (r: Self)
        ensures
            r.config == config,
            r.api_key == self.api_key,
            r.api_url == self.api_url,
            r.backend == self.backend,
            r.submitted_jobs == self.submitted_jobs,
    {
        let mut s = self;
        s.config = config;
        s
    }

    /// Validates the API key; always succeeds.
    pub fn initialize(&mut self) -> (r: Result<(), DriverError>)
        ensures
            r is Ok,
            *final(self) == *old(self),
    {
        Ok(())
    }

    /// The driver's display name.
    pub fn driver_name(&self) -> (r: &'static str)
        ensures
            r@ == "IonQ"@,
    {
        "IonQ"
    }

    /// The backends IonQ offers.
    pub fn list_backends(&self) -> (r: Result<Vec<BackendInfo>, DriverError>)
        ensures
            r matches Ok(b) && ionq_backends_ok(b@),
    {
        let mut v: Vec<BackendInfo> = Vec::new();
        v.push(BackendInfo {
            name: String::from_str("simulator"),
            provider: String::from_str("IonQ"),
            num_qubits: 29,
            is_simulator: true,
            is_available: true,
            queue_length: 0,
            avg_queue_time_s: Some(1),
        });
        v.push(BackendInfo {
            name: String::from_str("aria-1"),
            provider: String::from_str("IonQ"),
            num_qubits: 25,
            is_simulator: false,
            is_available: true,
            queue_length: 5,
            avg_queue_time_s: Some(30),
        });
        v.push(BackendInfo {
            name: String::from_str("forte-1"),
            provider: String::from_str("IonQ"),
            num_qubits: 32,
            is_simulator: false,
            is_available: true,
            queue_length: 3,
            avg_queue_time_s: Some(20),
        });
        Ok(v)
    }

    fn find_key(&self, key: u128) -> (r: Option<usize>)
        ensures
            r matches Some(i) ==> i < self.submitted_jobs@.len() && ionq_key_index(self.submitted_jobs@, key) == Some(i as int),
            r is None ==> ionq_key_index(self.submitted_jobs@, key) is None,
    {
        let mut i: usize = 0;
        while i < self.submitted_jobs.len()
            invariant
                i <= self.submitted_jobs@.len(),
                forall|k: int| 0 <= k < i ==> self.submitted_jobs@[k].0 != key,
            decreases self.submitted_jobs@.len() - i,
        {
            if self.submitted_jobs[i].0 == key {
                assert(ionq_key_index(self.submitted_jobs@, key) == Some(i as int));
                return Some(i);
            }
            i = i + 1;
        }
        None
    }

    fn find_circuit(&self, id: u128) -> (r: Option<usize>)
        ensures
            r matches Some(i) ==> i < self.submitted_jobs@.len() && ionq_circuit_index(self.submitted_jobs@, id) == Some(i as int),
            r is None ==> ionq_circuit_index(self.submitted_jobs@, id) is None,
    {
        let mut i: usize = 0;
        while i < self.submitted_jobs.len()
            invariant
                i <= self.submitted_jobs@.len(),
                forall|k: int| 0 <= k < i ==> self.submitted_jobs@[k].1.lightqos_id != id,
            decreases self.submitted_jobs@.len() - i,
        {
            if self.submitted_jobs[i].1.lightqos_id == id {
                assert(ionq_circuit_index(self.submitted_jobs@, id) == Some(i as int));
                return Some(i);
            }
            i = i + 1;
        }
        None
    }

    fn find_job_id(&self, job_id: &str) -> (r: Option<usize>)
        ensures
            r matches Some(i) ==> i < self.submitted_jobs@.len() && ionq_job_id_index(self.submitted_jobs@, job_id@) == Some(i as int),
            r is None ==> ionq_job_id_index(self.submitted_jobs@, job_id@) is None,
    {
        let wanted = String::from_str(job_id);
        let mut i: usize = 0;
        while i < self.submitted_jobs.len()
            invariant
                i <= self.submitted_jobs@.len(),
                wanted@ == job_id@,
                forall|k: int| 0 <= k < i ==> self.submitted_jobs@[k].1.job_id@ != job_id@,
            decreases self.submitted_jobs@.len() - i,
        {
            if self.submitted_jobs[i].1.job_id == wanted {
                assert(ionq_job_id_index(self.submitted_jobs@, job_id@) == Some(i as int));
                return Some(i);
            }
            i = i + 1;
        }
        None
    }

    /// Submits a circuit; the job is filed under the circuit id, replacing an earlier one.
    pub fn submit_job(&mut self, circuit: &CircuitSubmission, now: u64) -> (r: Result<String, DriverError>)
        requires
            old(self).wf(),
        ensures
            final(self).wf(),
            final(self).config == old(self).config,
            final(self).backend == old(self).backend,
            circuit.num_qubits > backend_qubits(old(self).backend) ==> (r matches Err(DriverError::InvalidCircuit(m))
                && m@ == too_many_qubits_message(old(self).backend) && final(self).submitted_jobs
                == old(self).submitted_jobs),
            circuit.num_qubits <= backend_qubits(old(self).backend) ==> (r matches Ok(id) && exists|u: u128| id@
                == #[trigger] ionq_job_id(u)),
            r matches Ok(id) ==> ({
                let job = IonQJob {
                    job_id: id,
                    lightqos_id: circuit.id,
                    backend: old(self).backend,
                    status: JobStatus::Queued,
                    submitted_at: now,
                };
                match ionq_key_index(old(self).submitted_jobs@, circuit.id) {
                    Some(i) => final(self).submitted_jobs@ == old(self).submitted_jobs@.update(i, (circuit.id, job)),
                    None => final(self).submitted_jobs@ == old(self).submitted_jobs@.push((circuit.id, job)),
                }
            }),
    {
        if circuit.num_qubits > self.backend.num_qubits() {
            let mut m = concat("Backend ", self.backend.as_str());
            m.append(" supports a maximum of ");
            let d = decimal_string(self.backend.num_qubits() as u128);
            m.append(d.as_str());
            m.append(" qubits");
            return Err(DriverError::InvalidCircuit(m));
        }
        let u = new_uuid();
        let short = hex_string_padded(u >> 96u128, 8);
        let job_id = concat("ionq_", short.as_str());
        let job = IonQJob {
            job_id: job_id.clone(),
            lightqos_id: circuit.id,
            backend: self.backend,
            status: JobStatus::Queued,
            submitted_at: now,
        };
        match self.find_key(circuit.id) {
            Some(i) => {
                self.submitted_jobs.set(i, (circuit.id, job));
            },
            None => {
                self.submitted_jobs.push((circuit.id, job));
            },
        }
        proof {
            assert(job_id@ == ionq_job_id(u));
            assert forall|i: int, j: int|
                0 <= i < j < self.submitted_jobs@.len() implies self.submitted_jobs@[i].0
                != self.submitted_jobs@[j].0 by {
                if j == old(self).submitted_jobs@.len() {
                    assert(self.submitted_jobs@[i] == old(self).submitted_jobs@[i]);
                }
            }
        }
        Ok(job_id)
    }

    /// Polls the status of the first job with provider identifier `job_id`.
    pub fn query_status(&mut self, job_id: &str, now: u64) -> (r: Result<JobStatus, DriverError>)
        requires
            old(self).wf(),
            ionq_job_id_index(old(self).submitted_jobs@, job_id@) matches Some(i)
                ==> old(self).submitted_jobs@[i].1.submitted_at <= now,
        ensures
            final(self).wf(),
            final(self).config == old(self).config,
            final(self).backend == old(self).backend,
            match ionq_job_id_index(old(self).submitted_jobs@, job_id@) {
                None => r matches Err(DriverError::JobNotFound(m)) && m@ == job_id@
                    && final(self).submitted_jobs == old(self).submitted_jobs,
                Some(i) => {
                    let old_job = old(self).submitted_jobs@[i].1;
                    let st = ionq_status_after(old(self).backend, now - old_job.submitted_at);
                    &&& r == Ok::<JobStatus, DriverError>(st)
                    &&& final(self).submitted_jobs@ == old(self).submitted_jobs@.update(
                        i,
                        (old(self).submitted_jobs@[i].0, IonQJob { status: st, ..old_job }),
                    )
                },
            },
    {
        match self.find_job_id(job_id) {
            None => Err(DriverError::JobNotFound(String::from_str(job_id))),
            Some(i) => {
                let key = self.submitted_jobs[i].0;
                let mut job = self.submitted_jobs[i].1.clone_job();
                let elapsed = now - job.submitted_at;
                let new_status = match self.backend {
                    IonQBackend::Simulator => {
                        if elapsed < 2 {
                            JobStatus::Queued
                        } else {
                            JobStatus::Completed
                        }
                    },
                    _ => {
                        if elapsed < 10 {
                            JobStatus::Queued
                        } else if elapsed < 20 {
                            JobStatus::Running
                        } else {
                            JobStatus::Completed
                        }
                    },
                };
                job.status = new_status;
                let ghost gj = job;
                self.submitted_jobs.set(i, (key, job));
                proof {
                    lemma_same_key_update(old(self).submitted_jobs@, i as int, gj);
                    assert(self.submitted_jobs@ == old(self).submitted_jobs@.update(i as int, (old(self).submitted_jobs@[i as int].0, gj)));
                }
                Ok(new_status)
            },
        }
    }

    /// The simulated result of a job: a Bell-state histogram over the configured shots.
    pub fn simulate_results(&self, job: &IonQJob) -> (r: ExecutionResult)
        ensures
            r.job_id == job.lightqos_id,
            r.backend@ == backend_name(job.backend),
            r.shots == self.config.shots,
            r.counts@.len() == 2,
            r.counts@[0].0@ == "00"@ && r.counts@[0].1 == 512,
            r.counts@[1].0@ == "11"@ && r.counts@[1].1 == 512,
            r.execution_time_ms == 50,
            r.queue_time_ms == if job.backend == IonQBackend::Simulator { 100u64 } else { 5000u64 },
            r.success,
            r.error_message is None,
    {
        let mut counts: Vec<(String, usize)> = Vec::new();
        counts.push((String::from_str("00"), 512));
        counts.push((String::from_str("11"), 512));
        ExecutionResult {
            job_id: job.lightqos_id,
            backend: String::from_str(job.backend.as_str()),
            shots: self.config.shots,
            counts,
            execution_time_ms: 50,
            queue_time_ms: match job.backend {
                IonQBackend::Simulator => 100,
                _ => 5000,
            },
            success: true,
            error_message: None,
        }
    }

    /// Results of the first job with provider identifier `job_id`, once it has completed.
    pub fn fetch_results(&self, job_id: &str) -> (r: Result<ExecutionResult, DriverError>)
        ensures
            ionq_job_id_index(self.submitted_jobs@, job_id@) is None ==> (r matches Err(DriverError::JobNotFound(m)) && m@ == job_id@),
            ionq_job_id_index(self.submitted_jobs@, job_id@) matches Some(i) ==> ({
                let job = self.submitted_jobs@[i].1;
                &&& job.status != JobStatus::Completed ==> r == Err::<ExecutionResult, DriverError>(DriverError::JobNotReady)
                &&& job.status == JobStatus::Completed ==> (r is Ok && r->Ok_0.job_id == job.lightqos_id
                    && r->Ok_0.backend@ == backend_name(job.backend) && r->Ok_0.shots == self.config.shots
                    && r->Ok_0.success)
            }),
    {
        match self.find_job_id(job_id) {
            None => Err(DriverError::JobNotFound(String::from_str(job_id))),
            Some(i) => {
                let job = &self.submitted_jobs[i].1;
                if job.status != JobStatus::Completed {
                    return Err(DriverError::JobNotReady);
                }
                Ok(self.simulate_results(job))
            },
        }
    }

    /// Submits a circuit and answers with its id, under which the job is filed.
    pub fn submit_circuit(&mut self, circuit: CircuitSubmission, now: u64) -> (r: Result<u128, DriverError>)
        requires
            old(self).wf(),
        ensures
            final(self).wf(),
            circuit.num_qubits > backend_qubits(old(self).backend) ==> (r matches Err(DriverError::InvalidCircuit(m))
                && m@ == too_many_qubits_message(old(self).backend) && final(self).submitted_jobs
                == old(self).submitted_jobs),
            circuit.num_qubits <= backend_qubits(old(self).backend) ==> (r == Ok::<u128, DriverError>(circuit.id)
                && (ionq_key_index(final(self).submitted_jobs@, circuit.id) matches Some(i)
                && final(self).submitted_jobs@[i].1.status == JobStatus::Queued
                && final(self).submitted_jobs@[i].1.submitted_at == now
                && final(self).submitted_jobs@[i].1.lightqos_id == circuit.id)),
    {
        let r = self.submit_job(&circuit, now);
        match r {
            Ok(_) => {
                proof {
                    match ionq_key_index(old(self).submitted_jobs@, circuit.id) {
                        Some(i0) => {
                            assert(self.submitted_jobs@[i0].0 == circuit.id);
                        },
                        None => {
                            let n = old(self).submitted_jobs@.len() as int;
                            assert(self.submitted_jobs@[n].0 == circuit.id);
                        },
                    }
                    let i = choose|i: int| 0 <= i < self.submitted_jobs@.len() && self.submitted_jobs@[i].0 == circuit.id
                        && forall|k: int| 0 <= k < i ==> self.submitted_jobs@[k].0 != circuit.id;
                }
                Ok(circuit.id)
            },
            Err(e) => Err(e),
        }
    }

    /// Polls the job filed under circuit id `job_id`.
    pub fn get_job_status(&mut self, job_id: u128, now: u64) -> (r: Result<JobStatus, DriverError>)
        requires
            old(self).wf(),
            ionq_key_index(old(self).submitted_jobs@, job_id) matches Some(k) ==> (ionq_job_id_index(
                old(self).submitted_jobs@,
                old(self).submitted_jobs@[k].1.job_id@,
            ) matches Some(i) ==> old(self).submitted_jobs@[i].1.submitted_at <= now),
        ensures
            final(self).wf(),
            ionq_key_index(old(self).submitted_jobs@, job_id) is None ==> (r matches Err(DriverError::JobNotFound(m))
                && m@ == uuid_text(job_id) && final(self).submitted_jobs == old(self).submitted_jobs),
            ionq_key_index(old(self).submitted_jobs@, job_id) matches Some(k) ==> ({
                let pid = old(self).submitted_jobs@[k].1.job_id@;
                let i = ionq_job_id_index(old(self).submitted_jobs@, pid)->0;
                let old_job = old(self).submitted_jobs@[i].1;
                let st = ionq_status_after(old(self).backend, now - old_job.submitted_at);
                &&& ionq_job_id_index(old(self).submitted_jobs@, pid) is Some
                &&& r == Ok::<JobStatus, DriverError>(st)
                &&& final(self).submitted_jobs@ == old(self).submitted_jobs@.update(
                    i,
                    (old(self).submitted_jobs@[i].0, IonQJob { status: st, ..old_job }),
                )
            }),
    {
        match self.find_key(job_id) {
            None => Err(DriverError::JobNotFound(uuid_string(job_id))),
            Some(k) => {
                let pid = self.submitted_jobs[k].1.job_id.clone();
                proof {
                    assert(self.submitted_jobs@[k as int].1.job_id@ == pid@);
                }
                self.query_status(pid.as_str(), now)
            },
        }
    }

    /// Results of the job filed under circuit id `job_id`.
    pub fn get_results(&self, job_id: u128) -> (r: Result<ExecutionResult, DriverError>)
        ensures
            ionq_key_index(self.submitted_jobs@, job_id) is None ==> (r matches Err(DriverError::JobNotFound(m))
                && m@ == uuid_text(job_id)),
            ionq_key_index(self.submitted_jobs@, job_id) matches Some(k) ==> ({
                let pid = self.submitted_jobs@[k].1.job_id@;
                let job = self.submitted_jobs@[ionq_job_id_index(self.submitted_jobs@, pid)->0].1;
                &&& ionq_job_id_index(self.submitted_jobs@, pid) is Some
                &&& job.status != JobStatus::Completed ==> r == Err::<ExecutionResult, DriverError>(DriverError::JobNotReady)
                &&& job.status == JobStatus::Completed ==> (r is Ok && r->Ok_0.job_id == job.lightqos_id
                    && r->Ok_0.backend@ == backend_name(job.backend) && r->Ok_0.shots == self.config.shots
                    && r->Ok_0.success)
            }),
    {
        match self.find_key(job_id) {
            None => Err(DriverError::JobNotFound(uuid_string(job_id))),
            Some(k) => {
                let pid = &self.submitted_jobs[k].1.job_id;
                self.fetch_results(pid.as_str())
            },
        }
    }

    /// Cancels the first job for circuit `job_id`.
    pub fn cancel_job(&mut self, job_id: u128) -> (r: Result<(), DriverError>)
        requires
            old(self).wf(),
        ensures
            final(self).wf(),
            final(self).config == old(self).config,
            match ionq_circuit_index(old(self).submitted_jobs@, job_id) {
                None => r matches Err(DriverError::JobNotFound(m)) && m@ == uuid_text(job_id)
                    && final(self).submitted_jobs == old(self).submitted_jobs,
                Some(i) => r is Ok && final(self).submitted_jobs@ == old(self).submitted_jobs@.update(
                    i,
                    (old(self).submitted_jobs@[i].0, IonQJob {
                        status: JobStatus::Cancelled,
                        ..old(self).submitted_jobs@[i].1
                    }),
                ),
            },
    {
        match self.find_circuit(job_id) {
            None => Err(DriverError::JobNotFound(uuid_string(job_id))),
            Some(i) => {
                let key = self.submitted_jobs[i].0;
                let mut job = self.submitted_jobs[i].1.clone_job();
                job.status = JobStatus::Cancelled;
                let ghost gj = job;
                self.submitted_jobs.set(i, (key, job));
                proof {
                    lemma_same_key_update(old(self).submitted_jobs@, i as int, gj);
                    assert(self.submitted_jobs@ == old(self).submitted_jobs@.update(i as int, (old(self).submitted_jobs@[i as int].0, gj)));
                }
                Ok(())
            },
        }
    }
}


/// A gate of IonQ's circuit format; `R` is the type of a rotation angle.
#[derive(Debug, Clone)]
pub enum IonQGate<R> {
    H { target: usize },
    X { target: usize },
    Y { target: usize },
    Z { target: usize },
    RX { target: usize, rotation: R },
    RY { target: usize, rotation: R },
    RZ { target: usize, rotation: R },
    CNOT { control: usize, target: usize },
    SWAP { targets: Vec<usize> },
}

/// A circuit in IonQ's format.
#[derive(Debug, Clone)]
pub struct IonQCircuit<R> {
    pub qubits: usize,
    pub circuit: Vec<IonQGate<R>>,
}

/// Translates circuits into IonQ's format.
pub struct IonQTranspiler;

impl IonQTranspiler {
    /// The IonQ form of a circuit: its qubit count, with the fixed entangling
    /// pair of gates (a Hadamard on qubit 0, then a CNOT from qubit 0 to qubit 1).
    pub fn transpile<R>(circuit: &CircuitSubmission) -> (r: Result<IonQCircuit<R>, String>)
        ensures
            r matches Ok(c) && c.qubits == circuit.num_qubits && c.circuit@.len() == 2
                && c.circuit@[0] == (IonQGate::<R>::H { target: 0 })
                && c.circuit@[1] == (IonQGate::<R>::CNOT { control: 0, target: 1 }),
    {
        let mut gates: Vec<IonQGate<R>> = Vec::new();
        gates.push(IonQGate::H { target: 0 });
        gates.push(IonQGate::CNOT { control: 0, target: 1 });
        Ok(IonQCircuit { qubits: circuit.num_qubits, circuit: gates })
    }
}

} // verus!
