//! Temporal layer types: electromagnetic octaves, scheduler configuration and statistics,
//! snapshot policies, process-level enums.
use vstd::prelude::*;

verus! {

/// Electromagnetic octave (characteristic frequency band), from Gravity (1) to
/// Consciousness (10).
#[derive(Debug, Clone, Copy, PartialEq, Eq, Hash, Structural)]
pub enum ElectromagneticOctave {
    Gravity,
    Magnetism,
    Electricity,
    Heat,
    Infrared,
    Visible,
    Ultraviolet,
    XRay,
    Gamma,
    Consciousness,
}

/// Octave of the harmonic structure of the mathematics layer.
#[derive(Debug, Clone, Copy, PartialEq, Eq, Structural)]
pub enum OctaveName {
    Radio,
    Microwave,
    Infrared,
    Visible,
    Ultraviolet,
    XRay,
    Gamma,
    UltraGamma,
    HyperGamma,
    Consciousness,
    Unknown,
}

/// The display name of an octave.
pub open spec fn octave_name_text(o: OctaveName) -> Seq<char> {
    match o {
        OctaveName::Radio => "Radio"@,
        OctaveName::Microwave => "Microwave"@,
        OctaveName::Infrared => "Infrared"@,
        OctaveName::Visible => "Visible"@,
        OctaveName::Ultraviolet => "Ultraviolet"@,
        OctaveName::XRay => "X-Ray"@,
        OctaveName::Gamma => "Gamma"@,
        OctaveName::UltraGamma => "Ultra-Gamma"@,
        OctaveName::HyperGamma => "Hyper-Gamma"@,
        OctaveName::Consciousness => "Consciousness"@,
        OctaveName::Unknown => "Unknown"@,
    }
}

impl OctaveName {
    /// The display name of the octave.
    pub fn as_str(&self) -> (r: &'static str)
        ensures
            r@ == octave_name_text(*self),
    {
        match self {
            OctaveName::Radio => "Radio",
            OctaveName::Microwave => "Microwave",
            OctaveName::Infrared => "Infrared",
            OctaveName::Visible => "Visible",
            OctaveName::Ultraviolet => "Ultraviolet",
            OctaveName::XRay => "X-Ray",
            OctaveName::Gamma => "Gamma",
            OctaveName::UltraGamma => "Ultra-Gamma",
            OctaveName::HyperGamma => "Hyper-Gamma",
            OctaveName::Consciousness => "Consciousness",
            OctaveName::Unknown => "Unknown",
        }
    }
}

/// The name of octave `n` (1 to 10) of the harmonic structure; any other number is Unknown.
pub fn octave_name_of(n: u8) -> (r: OctaveName)
    ensures
        r == match n {
            1 => OctaveName::Radio,
            2 => OctaveName::Microwave,
            3 => OctaveName::Infrared,
            4 => OctaveName::Visible,
            5 => OctaveName::Ultraviolet,
            6 => OctaveName::XRay,
            7 => OctaveName::Gamma,
            8 => OctaveName::UltraGamma,
            9 => OctaveName::HyperGamma,
            10 => OctaveName::Consciousness,
            _ => OctaveName::Unknown,
        },
{
    match n {
        1 => OctaveName::Radio,
        2 => OctaveName::Microwave,
        3 => OctaveName::Infrared,
        4 => OctaveName::Visible,
        5 => OctaveName::Ultraviolet,
        6 => OctaveName::XRay,
        7 => OctaveName::Gamma,
        8 => OctaveName::UltraGamma,
        9 => OctaveName::HyperGamma,
        10 => OctaveName::Consciousness,
        _ => OctaveName::Unknown,
    }
}

/// The product of octaves `n1` and `n2` (each 1 to 10): their indices add, wrapping around
/// after 10.
pub open spec fn spec_octave_product(n1: int, n2: int) -> int {
    (n1 + n2 - 2) % 10 + 1
}

/// Product (modulation) of two octaves; `None` when either number lies outside 1..=10.
pub fn octave_product(n1: u8, n2: u8) -> (r: Option<u8>)
    ensures
        (1 <= n1 <= 10 && 1 <= n2 <= 10) ==> r == Some(spec_octave_product(n1 as int, n2 as int) as u8),
        !(1 <= n1 <= 10 && 1 <= n2 <= 10) ==> r is None,
{
    if n1 < 1 || n1 > 10 || n2 < 1 || n2 > 10 {
        return None;
    }
    Some(((n1 + n2 - 2) % 10) + 1)
}

proof fn lemma_product_closed_form(a: int, b: int)
    requires
        1 <= a <= 10,
        1 <= b <= 10,
    ensures
        spec_octave_product(a, b) == if a + b <= 11 { a + b - 1 } else { a + b - 11 },
{
    let x = a + b - 2;
    if x < 10 {
        assert(x % 10 == x);
    } else {
        assert(x % 10 == x - 10);
    }
}

/// The octave product makes the ten octaves a cyclic group: it stays within 1..=10, is
/// commutative and associative, octave 1 is neutral, and every octave has an inverse.
pub proof fn law_octave_product_group(a: int, b: int, c: int)
    requires
        1 <= a <= 10,
        1 <= b <= 10,
        1 <= c <= 10,
    ensures
        1 <= spec_octave_product(a, b) <= 10,
        spec_octave_product(a, b) == spec_octave_product(b, a),
        spec_octave_product(spec_octave_product(a, b), c) == spec_octave_product(a, spec_octave_product(b, c)),
        spec_octave_product(1, a) == a,
        spec_octave_product(a, (11 - a) % 10 + 1) == 1,
{
    lemma_product_closed_form(a, b);
    lemma_product_closed_form(b, a);
    lemma_product_closed_form(b, c);
    lemma_product_closed_form(1, a);
    let ab = spec_octave_product(a, b);
    let bc = spec_octave_product(b, c);
    lemma_product_closed_form(ab, c);
    lemma_product_closed_form(a, bc);
    let inv = (11 - a) % 10 + 1;
    if 11 - a < 10 {
        assert((11 - a) % 10 == 11 - a);
    } else {
        assert((11 - a) % 10 == 1 - a);
    }
    lemma_product_closed_form(a, inv);
}

/// Scheduler configuration.
#[derive(Debug, Clone, Copy)]
pub struct SchedulerConfig {
    /// Maximum number of simultaneous tasks
    pub max_concurrent_tasks: usize,
    /// Enable harmonic resonance
    pub enable_harmonic_resonance: bool,
    /// Enable automatic snapshots
    pub auto_snapshots: bool,
    /// Snapshot interval (ns)
    pub snapshot_interval_ns: u64,
    /// Enable automatic rollback
    pub auto_rollback: bool,
}

impl Default for SchedulerConfig {
    fn default() -> (r: Self)
        ensures
            r.max_concurrent_tasks == 10,
            r.enable_harmonic_resonance,
            r.auto_snapshots,
            r.snapshot_interval_ns == 1_000_000,
            r.auto_rollback,
    {
        SchedulerConfig {
            max_concurrent_tasks: 10,
            enable_harmonic_resonance: true,
            auto_snapshots: true,
            snapshot_interval_ns: 1_000_000,
            auto_rollback: true,
        }
    }
}

/// Scheduler statistics.
#[derive(Debug, Clone, Copy)]
pub struct SchedulerStatistics {
    pub total_tasks_scheduled: u64,
    pub total_tasks_completed: u64,
    pub total_tasks_failed: u64,
    pub total_rollbacks: u64,
    pub avg_task_duration_ns: u64,
    pub contract_violations: u64,
    pub harmonic_resonances_detected: u64,
}

impl Default for SchedulerStatistics {
    fn default() -> (r: Self)
        ensures
            r.total_tasks_scheduled == 0,
            r.total_tasks_completed == 0,
            r.total_tasks_failed == 0,
            r.total_rollbacks == 0,
            r.avg_task_duration_ns == 0,
            r.contract_violations == 0,
            r.harmonic_resonances_detected == 0,
    {
        SchedulerStatistics {
            total_tasks_scheduled: 0,
            total_tasks_completed: 0,
            total_tasks_failed: 0,
            total_rollbacks: 0,
            avg_task_duration_ns: 0,
            contract_violations: 0,
            harmonic_resonances_detected: 0,
        }
    }
}

/// Task execution result.
#[derive(Debug, Clone, Copy)]
pub struct TaskExecutionResult {
    pub task_id: u128,
    pub success: bool,
    pub duration_ns: u64,
    pub contract_violations: usize,
    pub snapshot_created: bool,
}

/// Snapshot expiration policy.
#[derive(Debug, Clone, Copy, PartialEq, Eq, Structural)]
pub enum ExpirationPolicy {
    /// Remove oldest
    FIFO,
    /// Remove least recently used
    LRU,
    /// Based on importance (fidelity)
    ImportanceBased,
    /// Keep all (no expiration)
    KeepAll,
}

/// Snapshot statistics.
#[derive(Debug, Clone, Copy)]
pub struct SnapshotStatistics {
    pub total_snapshots_created: u64,
    pub total_rollbacks: u64,
    pub total_rollback_distance_ns: u64,
    pub avg_snapshot_size_bytes: usize,
    pub successful_rollbacks: u64,
    pub failed_rollbacks: u64,
}

impl Default for SnapshotStatistics {
    fn default() -> (r: Self)
        ensures
            r.total_snapshots_created == 0,
            r.total_rollbacks == 0,
            r.total_rollback_distance_ns == 0,
            r.avg_snapshot_size_bytes == 0,
            r.successful_rollbacks == 0,
            r.failed_rollbacks == 0,
    {
        SnapshotStatistics {
            total_snapshots_created: 0,
            total_rollbacks: 0,
            total_rollback_distance_ns: 0,
            avg_snapshot_size_bytes: 0,
            successful_rollbacks: 0,
            failed_rollbacks: 0,
        }
    }
}

/// Gate kinds recorded in snapshot histories.
#[derive(Debug, Clone, Copy, PartialEq, Eq, Structural)]
pub enum GateType {
    H,
    X,
    Y,
    Z,
    CNOT,
    CZ,
    RX,
    RY,
    RZ,
    T,
    S,
    Custom,
}

/// Kind of intervention at a time step of a process tensor.
#[derive(Debug, Clone, Copy, PartialEq, Eq, Structural)]
pub enum InterventionType {
    /// No intervention (identity)
    NoIntervention,
    /// Measurement
    Measurement,
    /// Unitary gate
    Unitary,
    /// Feedback control
    Feedback,
}

/// Memory kernel shape.
#[derive(Debug, Clone, Copy, PartialEq, Eq, Structural)]
pub enum KernelType {
    Exponential,
    Lorentzian,
    Ohmic,
}

/// Bath correlation function shape.
#[derive(Debug, Clone, Copy, PartialEq, Eq, Structural)]
pub enum CorrelationFunctionType {
    Exponential,
    Lorentzian,
    Ohmic,
    Gaussian,
}

/// Measures of non-Markovianity (BLP and related).
pub struct NonMarkovianityMetrics;


/// Shadow sampling strategy.
#[derive(Debug, Clone, Copy, PartialEq, Eq, Structural)]
pub enum SamplingStrategy {
    /// Uniform sampling of Pauli bases
    Uniform,
    /// Adaptive sampling (more informative bases)
    Adaptive,
    /// Importance sampling
    Importance,
}

/// Communication statistics of a quantum light channel.
#[derive(Debug, Clone, Copy)]
pub struct CommunicationStats {
    pub total_transmissions: usize,
    pub successful_transmissions: usize,
    pub total_qubits_transmitted: usize,
}

} // verus!
