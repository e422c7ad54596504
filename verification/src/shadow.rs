//! Classical shadows: the measurement snapshots taken of a state, and what they tell of a
//! Pauli observable. (The confidence and error figures, the density-matrix reconstruction
//! and the estimate as a number are floating-point work of the caller, from the counts
//! kept here.)
use vstd::prelude::*;
use vstd::string::*;
use crate::hio::{measurement_parity, min_len, parity_upto, PauliOperator, PauliString};
use crate::ids::new_uuid;
use crate::tlm::SamplingStrategy;

verus! {

/// One measurement of a shadow.
#[derive(Debug, Clone)]
pub struct MeasurementSnapshot {
    /// Measurement result (bitstring)
    pub outcome: Vec<bool>,
    /// Pauli basis used
    pub basis: PauliString,
    /// Measurement timestamp
    pub timestamp_ns: u64,
}

/// Plain facts about a shadow's collection. (Its confidence and error bound are
/// floating-point functions of the number of snapshots, computed by the caller.)
#[derive(Debug, Clone, Copy, PartialEq, Eq, Structural)]
pub struct ShadowMetadata {
    /// Collection time (ns)
    pub collection_time_ns: u64,
    /// Sampling strategy
    pub sampling_strategy: SamplingStrategy,
}

/// A classical shadow: partial snapshots of a state that do not fully collapse it.
#[derive(Debug, Clone)]
pub struct QuantumShadow {
    /// Unique ID
    pub id: u128,
    /// Measurement snapshots, in order of collection
    pub measurement_snapshots: Vec<MeasurementSnapshot>,
    /// Number of qubits in the system
    pub num_qubits: usize,
    /// Number of collected snapshots
    pub num_snapshots: usize,
    /// Measurement bases used, in order of collection
    pub measurement_bases: Vec<PauliString>,
    /// Metadata
    pub metadata: ShadowMetadata,
}

/// What the snapshots say of an observable: how many were taken in a compatible basis,
/// and how many of those have odd parity on it. The estimate of the observable is
/// `(compatible - 2 * odd) / compatible`.
#[derive(Debug, Clone, Copy, PartialEq, Eq, Structural)]
pub struct ObservableTally {
    pub compatible: usize,
    pub odd: usize,
}

/// A basis is compatible with an observable when both act on as many qubits.
pub open spec fn compatible(basis: Seq<PauliOperator>, observable: Seq<PauliOperator>) -> bool {
    basis.len() == observable.len()
}

/// The parity of a snapshot on an observable.
pub open spec fn snapshot_parity(s: MeasurementSnapshot, observable: Seq<PauliOperator>) -> bool {
    parity_upto(s.outcome@, observable, min_len(s.outcome@.len(), observable.len()))
}

/// Number of the first `n` snapshots taken in a basis compatible with the observable.
pub open spec fn compatible_count(snaps: Seq<MeasurementSnapshot>, observable: Seq<PauliOperator>, n: nat) -> nat
    decreases n,
{
    if n == 0 {
        0
    } else {
        compatible_count(snaps, observable, (n - 1) as nat) + if compatible(snaps[n - 1].basis.paulis@, observable) {
            1nat
        } else {
            0nat
        }
    }
}

/// Number of the first `n` snapshots taken in a compatible basis and with odd parity.
pub open spec fn odd_count(snaps: Seq<MeasurementSnapshot>, observable: Seq<PauliOperator>, n: nat) -> nat
    decreases n,
{
    if n == 0 {
        0
    } else {
        odd_count(snaps, observable, (n - 1) as nat) + if compatible(snaps[n - 1].basis.paulis@, observable)
            && snapshot_parity(snaps[n - 1], observable) {
            1nat
        } else {
            0nat
        }
    }
}

proof fn lemma_counts_bounded(snaps: Seq<MeasurementSnapshot>, observable: Seq<PauliOperator>, n: nat)
    ensures
        odd_count(snaps, observable, n) <= compatible_count(snaps, observable, n),
        compatible_count(snaps, observable, n) <= n,
    decreases n,
{
    if n > 0 {
        lemma_counts_bounded(snaps, observable, (n - 1) as nat);
    }
}

impl QuantumShadow {
    /// An empty shadow of a system of `num_qubits` qubits, sampled uniformly.
    pub fn new(num_qubits: usize) -> (r: Self)
        ensures
            r.num_qubits == num_qubits,
            r.num_snapshots == 0,
            r.measurement_snapshots@.len() == 0,
            r.measurement_bases@.len() == 0,
            r.metadata == (ShadowMetadata { collection_time_ns: 0, sampling_strategy: SamplingStrategy::Uniform }),
    {
        QuantumShadow {
            id: new_uuid(),
            measurement_snapshots: Vec::new(),
            num_qubits,
            num_snapshots: 0,
            measurement_bases: Vec::new(),
            metadata: ShadowMetadata { collection_time_ns: 0, sampling_strategy: SamplingStrategy::Uniform },
        }
    }

    /// Adds a snapshot, recording its basis.
    pub fn add_snapshot(&mut self, snapshot: MeasurementSnapshot)
        requires
            old(self).num_snapshots < usize::MAX,
        ensures
            final(self).measurement_snapshots@ == old(self).measurement_snapshots@.push(snapshot),
            final(self).measurement_bases@.len() == old(self).measurement_bases@.len() + 1,
            final(self).measurement_bases@.drop_last() == old(self).measurement_bases@,
            final(self).measurement_bases@.last().paulis@ == snapshot.basis.paulis@,
            final(self).num_snapshots == old(self).num_snapshots + 1,
            final(self).id == old(self).id,
            final(self).num_qubits == old(self).num_qubits,
            final(self).metadata == old(self).metadata,
    {
        let basis = snapshot.basis.copied();
        let ghost bases = self.measurement_bases@;
        self.measurement_bases.push(basis);
        assert(self.measurement_bases@.drop_last() =~= bases);
        self.measurement_snapshots.push(snapshot);
        self.num_snapshots = self.num_snapshots + 1;
    }

    /// Counts the snapshots taken in a basis compatible with the observable and, among
    /// them, those with odd parity on it. Without snapshots, or without a compatible one,
    /// nothing can be estimated.
    pub fn tally_observable(&self, observable: &PauliString) -> (r: Result<ObservableTally, String>)
        ensures
            self.num_snapshots == 0 ==> (r matches Err(m) && m@ == "No snapshot available"@),
            self.num_snapshots != 0 && compatible_count(
                self.measurement_snapshots@,
                observable.paulis@,
                self.measurement_snapshots@.len(),
            ) == 0 ==> (r matches Err(m) && m@ == "No measurement compatible with observable"@),
            self.num_snapshots != 0 && compatible_count(
                self.measurement_snapshots@,
                observable.paulis@,
                self.measurement_snapshots@.len(),
            ) != 0 ==> r == Ok::<ObservableTally, String>(
                ObservableTally {
                    compatible: compatible_count(
                        self.measurement_snapshots@,
                        observable.paulis@,
                        self.measurement_snapshots@.len(),
                    ) as usize,
                    odd: odd_count(self.measurement_snapshots@, observable.paulis@, self.measurement_snapshots@.len())
                        as usize,
                },
            ),
    {
        if self.num_snapshots == 0 {
            return Err(String::from_str("No snapshot available"));
        }
        let ghost snaps = self.measurement_snapshots@;
        let ghost obs = observable.paulis@;
        let mut compatible: usize = 0;
        let mut odd: usize = 0;
        let mut i: usize = 0;
        while i < self.measurement_snapshots.len()
            invariant
                i <= snaps.len(),
                snaps == self.measurement_snapshots@,
                obs == observable.paulis@,
                compatible == compatible_count(snaps, obs, i as nat),
                odd == odd_count(snaps, obs, i as nat),
            decreases snaps.len() - i,
        {
            proof {
                lemma_counts_bounded(snaps, obs, i as nat);
            }
            let snapshot = &self.measurement_snapshots[i];
            if snapshot.basis.paulis.len() == observable.paulis.len() {
                compatible = compatible + 1;
                if measurement_parity(&snapshot.outcome, observable) {
                    odd = odd + 1;
                }
            }
            i = i + 1;
        }
        if compatible == 0 {
            return Err(String::from_str("No measurement compatible with observable"));
        }
        Ok(ObservableTally { compatible, odd })
    }
}

} // verus!
