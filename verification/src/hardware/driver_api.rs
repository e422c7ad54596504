//! Types shared by the quantum hardware drivers.
use vstd::prelude::*;

verus! {

/// Gate kinds of the internal circuit representation.
#[derive(Debug, Clone, Copy, PartialEq, Eq, Structural)]
pub enum GateType {
    H,
    X,
    Y,
    Z,
    CNOT,
    CZ,
    RX,
    RY,
    RZ,
    T,
    S,
    Measure,
}

/// Status of a submitted job.
#[derive(Debug, Clone, Copy, PartialEq, Eq, Structural)]
pub enum JobStatus {
    Queued,
    Running,
    Completed,
    Failed,
    Cancelled,
}

/// One operation of a circuit: a gate applied to some qubits.
/// (Rotation angles are not read by the driver logic and stay with the caller.)
#[derive(Debug, Clone)]
pub struct Operation {
    pub gate_type: GateType,
    pub qubits: Vec<usize>,
}

/// A circuit handed to a driver for execution.
#[derive(Debug, Clone)]
pub struct CircuitSubmission {
    /// Unique ID
    pub id: u128,
    /// Number of qubits
    pub num_qubits: usize,
    /// Circuit operations
    pub operations: Vec<Operation>,
    /// Metadata as key/value pairs
    pub metadata: Vec<(String, String)>,
}

/// Execution result of a job.
#[derive(Debug, Clone)]
pub struct ExecutionResult {
    /// Job ID
    pub job_id: u128,
    /// Backend used
    pub backend: String,
    /// Number of shots
    pub shots: usize,
    /// Measurement counts, one entry per observed bitstring
    pub counts: Vec<(String, usize)>,
    /// Execution time (ms)
    pub execution_time_ms: u64,
    /// Queue time (ms)
    pub queue_time_ms: u64,
    /// Success?
    pub success: bool,
    /// Error message (if failure)
    pub error_message: Option<String>,
}

impl ExecutionResult {
    /// The two results agree field by field.
    pub open spec fn same_as(&self, other: &Self) -> bool {
        &&& self.job_id == other.job_id
        &&& self.backend == other.backend
        &&& self.shots == other.shots
        &&& self.counts@ == other.counts@
        &&& self.execution_time_ms == other.execution_time_ms
        &&& self.queue_time_ms == other.queue_time_ms
        &&& self.success == other.success
        &&& self.error_message == other.error_message
    }

    /// A field-by-field copy.
    pub fn copied(&self) -> (r: Self)
        ensures
            r.same_as(self),
    {
        let mut counts: Vec<(String, usize)> = Vec::new();
        let mut i: usize = 0;
        while i < self.counts.len()
            invariant
                i <= self.counts@.len(),
                counts@ == self.counts@.subrange(0, i as int),
            decreases self.counts@.len() - i,
        {
            counts.push((self.counts[i].0.clone(), self.counts[i].1));
            i = i + 1;
            assert(counts@ =~= self.counts@.subrange(0, i as int));
        }
        assert(self.counts@.subrange(0, self.counts@.len() as int) =~= self.counts@);
        ExecutionResult {
            job_id: self.job_id,
            backend: self.backend.clone(),
            shots: self.shots,
            counts,
            execution_time_ms: self.execution_time_ms,
            queue_time_ms: self.queue_time_ms,
            success: self.success,
            error_message: match &self.error_message {
                Some(m) => Some(m.clone()),
                None => None,
            },
        }
    }
}

/// Backend information.
#[derive(Debug, Clone)]
pub struct BackendInfo {
    /// Backend name
    pub name: String,
    /// Provider (IBM, IonQ, etc.)
    pub provider: String,
    /// Number of qubits
    pub num_qubits: usize,
    /// Is simulator?
    pub is_simulator: bool,
    /// Is available?
    pub is_available: bool,
    /// Queue length
    pub queue_length: usize,
    /// Average queue time (seconds)
    pub avg_queue_time_s: Option<u64>,
}

impl BackendInfo {
    /// A field-by-field copy.
    pub fn copied(&self) -> (r: Self)
        ensures
            r == *self,
    {
        BackendInfo {
            name: self.name.clone(),
            provider: self.provider.clone(),
            num_qubits: self.num_qubits,
            is_simulator: self.is_simulator,
            is_available: self.is_available,
            queue_length: self.queue_length,
            avg_queue_time_s: self.avg_queue_time_s,
        }
    }
}

/// A copy of a backend catalogue.
pub fn copy_backends(v: &Vec<BackendInfo>) -> (r: Vec<BackendInfo>)
    ensures
        r@ == v@,
{
    let mut r: Vec<BackendInfo> = Vec::new();
    let mut i: usize = 0;
    while i < v.len()
        invariant
            i <= v@.len(),
            r@ == v@.subrange(0, i as int),
        decreases v@.len() - i,
    {
        r.push(v[i].copied());
        i = i + 1;
        assert(r@ =~= v@.subrange(0, i as int));
    }
    assert(v@.subrange(0, v@.len() as int) =~= v@);
    r
}

/// Driver configuration, as the drivers' users implement it.
pub trait DriverConfig {
    fn shots(&self) -> usize;

    fn timeout_s(&self) -> u64;
}

/// Driver errors.
#[derive(Debug, Clone)]
pub enum DriverError {
    NotInitialized,
    AuthenticationFailed(String),
    InvalidCircuit(String),
    JobNotFound(String),
    JobNotReady,
    BackendUnavailable(String),
    Timeout,
    NetworkError(String),
    ProviderError(String),
    Unknown(String),
}

} // verus!
