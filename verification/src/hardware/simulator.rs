//! Local simulator driver: runs circuits at once and keeps their results.
use vstd::prelude::*;
use vstd::string::*;
use crate::hardware::driver_api::{BackendInfo, CircuitSubmission, DriverError, ExecutionResult, GateType, JobStatus, Operation};
use crate::text::{binary_string_padded, decimal, decimal_string, digits, zero_padded, zeros, zeros_string, concat};
use crate::ids::{uuid_string, uuid_text};
use crate::table::{find_key, key_index, lemma_key_index_range};

verus! {

/// Simulator configuration. (The bit-flip probability of simulated noise is kept by the
/// caller that applies the noise.)
#[derive(Debug, Clone, Copy)]
pub struct SimulatorConfig {
    /// Maximum number of qubits
    pub max_qubits: usize,
    /// Number of shots
    pub shots: usize,
    /// Simulate noise?
    pub simulate_noise: bool,
    /// Random seed
    pub random_seed: Option<u64>,
}

impl Default for SimulatorConfig {
    /// 20 qubits, 1024 shots, no noise, no seed.
    fn default() -> (r: Self)
        ensures
            r.max_qubits == 20,
            r.shots == 1024,
            !r.simulate_noise,
            r.random_seed is None,
    {
        SimulatorConfig { max_qubits: 20, shots: 1024, simulate_noise: false, random_seed: None }
    }
}

/// Simulator statistics.
#[derive(Debug, Clone, Copy)]
pub struct SimulatorStats {
    pub total_jobs: u64,
    pub total_shots: u64,
    pub total_execution_time_ms: u64,
}

/// Local simulator driver.
pub struct SimulatorDriver {
    pub config: SimulatorConfig,
    /// Executed jobs and their results, by job id
    pub completed_jobs: Vec<(u128, ExecutionResult)>,
    pub stats: SimulatorStats,
}

/// 2 to the power `n`.
pub open spec fn two_to(n: nat) -> nat
    decreases n,
{
    if n == 0 {
        1
    } else {
        2 * two_to((n - 1) as nat)
    }
}

/// Some operation is a Hadamard gate.
pub open spec fn has_hadamard(ops: Seq<Operation>) -> bool {
    exists|i: int| 0 <= i < ops.len() && ops[i].gate_type == GateType::H
}

/// `counts` are the outcome of a small circuit of `n` qubits run for `shots` shots: without
/// a Hadamard gate every shot gives the all-zero string; with one, the shots are spread
/// evenly (rounded down) over all 2^n bit strings, in increasing order.
pub open spec fn small_circuit_counts(counts: Seq<(String, usize)>, n: nat, shots: nat, hadamard: bool) -> bool {
    if !hadamard {
        counts.len() == 1 && counts[0].0@ == zeros(n) && counts[0].1 == shots
    } else {
        &&& counts.len() == two_to(n)
        &&& forall|i: int| 0 <= i < counts.len() ==> (#[trigger] counts[i]).0@ == zero_padded(digits(i as nat, 2), n)
            && counts[i].1 == shots / two_to(n)
    }
}

/// Total of the counts.
pub open spec fn total_count(counts: Seq<(String, usize)>) -> nat
    decreases counts.len(),
{
    if counts.len() == 0 {
        0
    } else {
        total_count(counts.drop_last()) + counts.last().1 as nat
    }
}

/// Every key is a string of `n` bits and no key occurs twice.
pub open spec fn bit_string_keys(counts: Seq<(String, usize)>, n: nat) -> bool {
    &&& forall|i: int| 0 <= i < counts.len() ==> (#[trigger] counts[i]).0@.len() == n && forall|j: int|
        0 <= j < n ==> counts[i].0@[j] == '0' || counts[i].0@[j] == '1'
    &&& forall|i: int, j: int| 0 <= i < counts.len() && 0 <= j < counts.len() && i != j ==> counts[i].0@ != counts[j].0@
}

/// `counts` tallies `shots` drawn bit strings of `n` bits each.
pub open spec fn sampled(counts: Seq<(String, usize)>, samples: Seq<Vec<bool>>, n: nat, shots: nat) -> bool {
    &&& samples.len() == shots
    &&& forall|j: int| 0 <= j < samples.len() ==> (#[trigger] samples[j])@.len() == n
    &&& is_tally(counts, samples)
}

/// The text of a bit string: '1' for a set bit, '0' for a clear one.
pub open spec fn bits_text(b: Seq<bool>) -> Seq<char> {
    b.map_values(|x: bool| if x { '1' } else { '0' })
}

/// Number of samples whose text is `key`.
pub open spec fn occurrences(samples: Seq<Vec<bool>>, key: Seq<char>) -> nat
    decreases samples.len(),
{
    if samples.len() == 0 {
        0
    } else {
        occurrences(samples.drop_last(), key) + if bits_text(samples.last()@) == key {
            1nat
        } else {
            0nat
        }
    }
}

/// `counts` is the tally of `samples`: its keys are distinct, each is the text of some
/// sample, each sample's text is a key, and each key is counted as often as it was drawn.
pub open spec fn is_tally(counts: Seq<(String, usize)>, samples: Seq<Vec<bool>>) -> bool {
    &&& forall|i: int, j: int| 0 <= i < counts.len() && 0 <= j < counts.len() && i != j ==> counts[i].0@ != counts[j].0@
    &&& forall|i: int| 0 <= i < counts.len() ==> (#[trigger] counts[i]).1 == occurrences(samples, counts[i].0@)
    &&& forall|i: int| 0 <= i < counts.len() ==> exists|j: int| 0 <= j < samples.len() && (#[trigger] counts[i]).0@
        == bits_text(samples[j]@)
    &&& forall|j: int| 0 <= j < samples.len() ==> exists|i: int| 0 <= i < counts.len() && counts[i].0@
        == bits_text((#[trigger] samples[j])@)
}

/// The text of a bit string.
fn bits_string(bits: &Vec<bool>) -> (r: String)
    ensures
        r@ == bits_text(bits@),
{
    let mut state = String::new();
    let mut b: usize = 0;
    assert(state@ =~= bits_text(bits@.take(0)));
    while b < bits.len()
        invariant
            b <= bits@.len(),
            state@ == bits_text(bits@.take(b as int)),
        decreases bits@.len() - b,
    {
        proof {
            reveal_strlit("0");
            reveal_strlit("1");
        }
        if bits[b] {
            state.append("1");
        } else {
            state.append("0");
        }
        proof {
            assert(bits_text(bits@.take(b + 1)) =~= bits_text(bits@.take(b as int)).push(
                if bits@[b as int] { '1' } else { '0' },
            ));
        }
        b = b + 1;
    }
    proof {
        assert(bits@.take(bits@.len() as int) =~= bits@);
    }
    state
}

/// A tally in progress: `counts` tallies `samples`, and a text that is not a key has
/// not been drawn.
#[verifier::opaque]
spec fn tally_so_far(counts: Seq<(String, usize)>, samples: Seq<Vec<bool>>) -> bool {
    &&& is_tally(counts, samples)
    &&& forall|key: Seq<char>|
        (forall|i: int| 0 <= i < counts.len() ==> counts[i].0@ != key) ==> #[trigger] occurrences(samples, key) == 0
}

proof fn lemma_occurrences_push(s0: Seq<Vec<bool>>, x: Vec<bool>)
    ensures
        forall|key: Seq<char>| #[trigger] occurrences(s0.push(x), key) == occurrences(s0, key) + if bits_text(x@)
            == key {
            1nat
        } else {
            0nat
        },
{
    assert(s0.push(x).drop_last() =~= s0);
}

/// Drawing a text that is already a key adds one to its count.
#[verifier::rlimit(40)]
#[verifier::spinoff_prover]
proof fn lemma_tally_bump(pre: Seq<(String, usize)>, s0: Seq<Vec<bool>>, x: Vec<bool>, i: int, ge: (String, usize))
    requires
        tally_so_far(pre, s0),
        0 <= i < pre.len(),
        pre[i].0@ == bits_text(x@),
        ge.0@ == pre[i].0@,
        ge.1 == pre[i].1 + 1,
    ensures
        tally_so_far(pre.update(i, ge), s0.push(x)),
{
    reveal(tally_so_far);
    let c = pre.update(i, ge);
    let s1 = s0.push(x);
    lemma_occurrences_push(s0, x);
    assert forall|a: int, b: int| 0 <= a < c.len() && 0 <= b < c.len() && a != b implies c[a].0@ != c[b].0@ by {
        if a != i && b != i {
            assert(c[a] == pre[a] && c[b] == pre[b]);
        } else if a == i {
            assert(c[b] == pre[b]);
        } else {
            assert(c[a] == pre[a]);
        }
    }
    assert forall|a: int| 0 <= a < c.len() implies (#[trigger] c[a]).1 == occurrences(s1, c[a].0@) by {
        if a != i {
            assert(c[a] == pre[a]);
            assert(occurrences(s1, pre[a].0@) == occurrences(s0, pre[a].0@));
        } else {
            assert(c[a] == ge);
            assert(occurrences(s1, ge.0@) == occurrences(s0, ge.0@) + 1);
        }
    }
    assert forall|a: int| 0 <= a < c.len() implies exists|j: int| 0 <= j < s1.len() && (#[trigger] c[a]).0@
        == bits_text(s1[j]@) by {
        if a == i {
            assert(c[a] == ge);
        }
        assert(pre[a].0@ == c[a].0@);
        let j = choose|j: int| 0 <= j < s0.len() && (#[trigger] pre[a]).0@ == bits_text(s0[j]@);
        assert(s1[j] == s0[j]);
    }
    assert forall|j: int| 0 <= j < s1.len() implies exists|a: int| 0 <= a < c.len() && c[a].0@ == bits_text(
        (#[trigger] s1[j])@,
    ) by {
        if j < s0.len() {
            assert(s1[j] == s0[j]);
            let a = choose|a: int| 0 <= a < pre.len() && pre[a].0@ == bits_text((#[trigger] s0[j])@);
            assert(c[a].0@ == pre[a].0@);
        } else {
            assert(s1[j] == x);
            assert(c[i] == ge);
            assert(c[i].0@ == bits_text(s1[j]@));
        }
    }
    assert forall|key: Seq<char>| (forall|a: int| 0 <= a < c.len() ==> c[a].0@ != key) implies #[trigger] occurrences(
        s1,
        key,
    ) == 0 by {
        assert(c[i].0@ != key);
        assert forall|a: int| 0 <= a < pre.len() implies pre[a].0@ != key by {
            assert(c[a].0@ == pre[a].0@);
        }
    }
}

/// Drawing a text that is not yet a key adds it with a count of one.
#[verifier::rlimit(40)]
#[verifier::spinoff_prover]
proof fn lemma_tally_push(pre: Seq<(String, usize)>, s0: Seq<Vec<bool>>, x: Vec<bool>, e: (String, usize))
    requires
        tally_so_far(pre, s0),
        forall|a: int| 0 <= a < pre.len() ==> pre[a].0@ != bits_text(x@),
        e.0@ == bits_text(x@),
        e.1 == 1,
    ensures
        tally_so_far(pre.push(e), s0.push(x)),
{
    reveal(tally_so_far);
    let c = pre.push(e);
    let s1 = s0.push(x);
    let n0 = pre.len() as int;
    lemma_occurrences_push(s0, x);
    assert(occurrences(s0, e.0@) == 0);
    assert forall|a: int, b: int| 0 <= a < c.len() && 0 <= b < c.len() && a != b implies c[a].0@ != c[b].0@ by {
        if a < n0 && b < n0 {
            assert(c[a] == pre[a] && c[b] == pre[b]);
        } else if a < n0 {
            assert(c[a] == pre[a]);
        } else {
            assert(c[b] == pre[b]);
        }
    }
    assert forall|a: int| 0 <= a < c.len() implies (#[trigger] c[a]).1 == occurrences(s1, c[a].0@) by {
        if a < n0 {
            assert(c[a] == pre[a]);
            assert(occurrences(s1, pre[a].0@) == occurrences(s0, pre[a].0@));
        } else {
            assert(occurrences(s1, e.0@) == occurrences(s0, e.0@) + 1);
        }
    }
    assert forall|a: int| 0 <= a < c.len() implies exists|j: int| 0 <= j < s1.len() && (#[trigger] c[a]).0@
        == bits_text(s1[j]@) by {
        if a < n0 {
            assert(c[a] == pre[a]);
            let j = choose|j: int| 0 <= j < s0.len() && (#[trigger] pre[a]).0@ == bits_text(s0[j]@);
            assert(s1[j] == s0[j]);
        } else {
            assert(s1[s0.len() as int] == x);
            assert(c[a] == e);
            assert(c[a].0@ == bits_text(s1[s0.len() as int]@));
        }
    }
    assert forall|j: int| 0 <= j < s1.len() implies exists|a: int| 0 <= a < c.len() && c[a].0@ == bits_text(
        (#[trigger] s1[j])@,
    ) by {
        if j < s0.len() {
            assert(s1[j] == s0[j]);
            let a = choose|a: int| 0 <= a < pre.len() && pre[a].0@ == bits_text((#[trigger] s0[j])@);
            assert(c[a] == pre[a]);
        } else {
            assert(c[n0].0@ == bits_text(s1[j]@));
        }
    }
    assert forall|key: Seq<char>| (forall|a: int| 0 <= a < c.len() ==> c[a].0@ != key) implies #[trigger] occurrences(
        s1,
        key,
    ) == 0 by {
        assert(c[n0].0@ != key);
        assert forall|a: int| 0 <= a < pre.len() implies pre[a].0@ != key by {
            assert(c[a] == pre[a]);
        }
    }
}

/// Counts how often each bit string occurs among `samples`, keyed by its text of '0'
/// and '1', in the order the strings first occur.
pub fn tally_samples(samples: &Vec<Vec<bool>>) -> (r: Vec<(String, usize)>)
    ensures
        is_tally(r@, samples@),
        total_count(r@) == samples@.len(),
{
    let mut counts: Vec<(String, usize)> = Vec::new();
    let mut k: usize = 0;
    proof {
        assert(samples@.take(0) =~= Seq::<Vec<bool>>::empty());
        assert(counts@ =~= Seq::<(String, usize)>::empty());
        reveal(tally_so_far);
    }
    while k < samples.len()
        invariant
            k <= samples@.len(),
            tally_so_far(counts@, samples@.take(k as int)),
            total_count(counts@) == k,
        decreases samples@.len() - k,
    {
        let key = bits_string(&samples[k]);
        let ghost s0 = samples@.take(k as int);
        let ghost pre = counts@;
        proof {
            assert(samples@.take(k + 1) =~= s0.push(samples@[k as int]));
        }
        let mut i: usize = 0;
        let mut found = false;
        while i < counts.len()
            invariant_except_break
                !found,
                forall|x: int| 0 <= x < i ==> counts@[x].0@ != key@,
            invariant
                i <= counts@.len(),
                counts@ == pre,
            ensures
                found ==> i < counts@.len() && counts@[i as int].0@ == key@,
                !found ==> forall|x: int| 0 <= x < counts@.len() ==> counts@[x].0@ != key@,
            decreases counts@.len() - i,
        {
            if counts[i].0 == key {
                found = true;
                break;
            }
            i = i + 1;
        }
        if found {
            proof {
                lemma_total_bound(pre, i as int);
            }
            let v = counts[i].1;
            let entry = (key, v + 1);
            let ghost ge = entry;
            counts.set(i, entry);
            proof {
                lemma_total_update(pre, i as int, ge);
                lemma_tally_bump(pre, s0, samples@[k as int], i as int, ge);
            }
        } else {
            let entry = (key, 1usize);
            let ghost ge = entry;
            counts.push(entry);
            proof {
                assert(counts@.drop_last() =~= pre);
                lemma_tally_push(pre, s0, samples@[k as int], ge);
            }
        }
        k = k + 1;
    }
    proof {
        assert(samples@.take(samples@.len() as int) =~= samples@);
        reveal(tally_so_far);
    }
    counts
}

/// The counts of a run of `circuit` for `shots` shots: exact for up to 5 qubits, and
/// otherwise the tally of `shots` drawn bit strings of the circuit's width.
pub open spec fn simulated_counts(counts: Seq<(String, usize)>, circuit: CircuitSubmission, shots: nat) -> bool {
    if circuit.num_qubits <= 5 {
        small_circuit_counts(counts, circuit.num_qubits as nat, shots, has_hadamard(circuit.operations@))
    } else {
        &&& bit_string_keys(counts, circuit.num_qubits as nat)
        &&& total_count(counts) == shots
        &&& exists|samples: Seq<Vec<bool>>| #[trigger] sampled(counts, samples, circuit.num_qubits as nat, shots)
    }
}

/// Calls `rand::random::<bool>()`, a fair coin.
/// Trusted: the value depends on the thread's random generator; nothing is claimed of it.
#[verifier::external_body]
fn coin_flip() -> (r: bool) {
    rand::random::<bool>()
}

impl SimulatorDriver {
    /// A simulator with the default configuration and no jobs.
    pub fn new() -> (r: Self)
        ensures
            r.config.max_qubits == 20,
            r.config.shots == 1024,
            !r.config.simulate_noise,
            r.completed_jobs@.len() == 0,
            r.stats == (SimulatorStats { total_jobs: 0, total_shots: 0, total_execution_time_ms: 0 }),
    {
        SimulatorDriver {
            config: SimulatorConfig::default(),
            completed_jobs: Vec::new(),
            stats: SimulatorStats { total_jobs: 0, total_shots: 0, total_execution_time_ms: 0 },
        }
    }

    /// The simulator with configuration `config`.
    pub fn with_config(self, config: SimulatorConfig) -> (r: Self)
        ensures
            r == (SimulatorDriver { config, ..self }),
    {
        SimulatorDriver { config, ..self }
    }

    /// Counts of a circuit of at most 5 qubits.
    fn simulate_small_circuit(&self, circuit: &CircuitSubmission) -> (r: Vec<(String, usize)>)
        requires
            circuit.num_qubits <= 5,
        ensures
            small_circuit_counts(r@, circuit.num_qubits as nat, self.config.shots as nat, has_hadamard(
                circuit.operations@,
            )),
    {
        let n = circuit.num_qubits;
        let mut counts: Vec<(String, usize)> = Vec::new();
        let mut hadamard = false;
        let mut k: usize = 0;
        while k < circuit.operations.len()
            invariant
                k <= circuit.operations@.len(),
                hadamard == exists|i: int| 0 <= i < k && circuit.operations@[i].gate_type == GateType::H,
            decreases circuit.operations@.len() - k,
        {
            if circuit.operations[k].gate_type == GateType::H {
                hadamard = true;
            }
            k = k + 1;
        }
        if !hadamard {
            counts.push((zeros_string(n), self.config.shots));
            return counts;
        }
        let mut num_states: usize = 1;
        let mut e: usize = 0;
        while e < n
            invariant
                e <= n,
                n <= 5,
                num_states == two_to(e as nat),
                1 <= num_states <= 32,
            decreases n - e,
        {
            proof {
                assert(two_to((e + 1) as nat) == 2 * two_to(e as nat));
                lemma_two_to_bound((e + 1) as nat);
            }
            num_states = num_states * 2;
            e = e + 1;
        }
        let per_state = self.config.shots / num_states;
        let mut i: usize = 0;
        while i < num_states
            invariant
                i <= num_states,
                num_states == two_to(n as nat),
                num_states <= 32,
                per_state == (self.config.shots as nat) / two_to(n as nat),
                counts@.len() == i,
                forall|x: int| 0 <= x < i ==> (#[trigger] counts@[x]).0@ == zero_padded(digits(x as nat, 2), n as nat)
                    && counts@[x].1 == per_state,
            decreases num_states - i,
        {
            let s = binary_string_padded(i as u128, n);
            counts.push((s, per_state));
            i = i + 1;
        }
        counts
    }

    /// Counts of `shots` random bit strings of `n` bits: each bit is a fair coin, and the
    /// drawn strings are counted by `tally_samples`.
    fn sample_large_circuit(&self, circuit: &CircuitSubmission) -> (r: Vec<(String, usize)>)
        ensures
            bit_string_keys(r@, circuit.num_qubits as nat),
            total_count(r@) == self.config.shots,
            exists|samples: Seq<Vec<bool>>| #[trigger] sampled(r@, samples, circuit.num_qubits as nat, self.config.shots as nat),
    {
        let n = circuit.num_qubits;
        let mut samples: Vec<Vec<bool>> = Vec::new();
        let mut shot: usize = 0;
        while shot < self.config.shots
            invariant
                shot <= self.config.shots,
                samples@.len() == shot,
                forall|j: int| 0 <= j < samples@.len() ==> (#[trigger] samples@[j])@.len() == n,
            decreases self.config.shots - shot,
        {
            let mut bits: Vec<bool> = Vec::new();
            let mut b: usize = 0;
            while b < n
                invariant
                    b <= n,
                    bits@.len() == b,
                decreases n - b,
            {
                bits.push(coin_flip());
                b = b + 1;
            }
            samples.push(bits);
            shot = shot + 1;
        }
        let counts = tally_samples(&samples);
        proof {
            let sm = samples@;
            assert forall|i: int| 0 <= i < counts@.len() implies (#[trigger] counts@[i]).0@.len() == n && forall|j: int|
                0 <= j < n ==> counts@[i].0@[j] == '0' || counts@[i].0@[j] == '1' by {
                let j0 = choose|j: int| 0 <= j < sm.len() && (#[trigger] counts@[i]).0@ == bits_text(sm[j]@);
                assert(sm[j0]@.len() == n);
            }
            assert(sampled(counts@, sm, n as nat, self.config.shots as nat));
        }
        counts
    }

    /// Runs a circuit (at once, noiselessly) and records its result; `execution_time_ms`
    /// is the time the run took on the caller's clock. Circuits of more than 5 qubits are
    /// sampled at random.
    pub fn simulate_circuit(&mut self, circuit: &CircuitSubmission, execution_time_ms: u64) -> (r: Result<
        ExecutionResult,
        DriverError,
    >)
        requires
            old(self).stats.total_jobs < u64::MAX,
            old(self).stats.total_shots + old(self).config.shots <= u64::MAX,
            old(self).stats.total_execution_time_ms + execution_time_ms <= u64::MAX,
        ensures
            circuit.num_qubits > old(self).config.max_qubits ==> (r matches Err(DriverError::InvalidCircuit(m)) && m@
                == "Simulator supports a maximum of "@ + decimal(old(self).config.max_qubits as nat) + " qubits"@
                && *final(self) == *old(self)),
            circuit.num_qubits <= old(self).config.max_qubits ==> (r matches Ok(res) && {
                &&& res.job_id == circuit.id
                &&& res.backend@ == "simulator"@
                &&& res.shots == old(self).config.shots
                &&& res.execution_time_ms == execution_time_ms
                &&& res.queue_time_ms == 0
                &&& res.success
                &&& res.error_message is None
                &&& simulated_counts(res.counts@, *circuit, old(self).config.shots as nat)
                &&& final(self).stats == (SimulatorStats {
                    total_jobs: (old(self).stats.total_jobs + 1) as u64,
                    total_shots: (old(self).stats.total_shots + old(self).config.shots) as u64,
                    total_execution_time_ms: (old(self).stats.total_execution_time_ms + execution_time_ms) as u64,
                })
                &&& final(self).config == old(self).config
                &&& final(self).completed_jobs == old(self).completed_jobs
            }),
    {
        if circuit.num_qubits > self.config.max_qubits {
            let mut m = concat("Simulator supports a maximum of ", decimal_string(self.config.max_qubits as u128).as_str());
            m.append(" qubits");
            proof {
                reveal_strlit("Simulator supports a maximum of ");
                reveal_strlit(" qubits");
            }
            return Err(DriverError::InvalidCircuit(m));
        }
        let counts = if circuit.num_qubits <= 5 {
            self.simulate_small_circuit(circuit)
        } else {
            self.sample_large_circuit(circuit)
        };
        self.stats.total_jobs = self.stats.total_jobs + 1;
        self.stats.total_shots = self.stats.total_shots + self.config.shots as u64;
        self.stats.total_execution_time_ms = self.stats.total_execution_time_ms + execution_time_ms;
        proof {
            reveal_strlit("simulator");
        }
        Ok(ExecutionResult {
            job_id: circuit.id,
            backend: String::from_str("simulator"),
            shots: self.config.shots,
            counts,
            execution_time_ms,
            queue_time_ms: 0,
            success: true,
            error_message: None,
        })
    }

    /// Runs a circuit at once and keeps its result under the circuit's id (replacing an
    /// earlier result for that id); returns the id.
    pub fn submit_circuit(&mut self, circuit: CircuitSubmission, execution_time_ms: u64) -> (r: Result<
        u128,
        DriverError,
    >)
        requires
            old(self).stats.total_jobs < u64::MAX,
            old(self).stats.total_shots + old(self).config.shots <= u64::MAX,
            old(self).stats.total_execution_time_ms + execution_time_ms <= u64::MAX,
        ensures
            circuit.num_qubits > old(self).config.max_qubits ==> (r matches Err(DriverError::InvalidCircuit(_))
                && *final(self) == *old(self)),
            circuit.num_qubits <= old(self).config.max_qubits ==> (r == Ok::<u128, DriverError>(circuit.id) && ({
                let jobs = final(self).completed_jobs@;
                &&& key_index(jobs, circuit.id) matches Some(i) && {
                    let res = jobs[i].1;
                    &&& res.job_id == circuit.id
                    &&& res.shots == old(self).config.shots
                    &&& res.success
                    &&& simulated_counts(res.counts@, circuit, old(self).config.shots as nat)
                }
                &&& forall|x: u128| x != circuit.id ==> key_index(jobs, x) == key_index(old(self).completed_jobs@, x)
                &&& final(self).config == old(self).config
            })),
    {
        let result = self.simulate_circuit(&circuit, execution_time_ms)?;
        let id = circuit.id;
        let ghost gres = result;
        let ghost pre = self.completed_jobs@;
        match find_key(&self.completed_jobs, id) {
            Some(i) => {
                self.completed_jobs.set(i, (id, result));
                proof {
                    lemma_key_index_range(pre, id);
                    assert forall|x: u128| x != id implies key_index(self.completed_jobs@, x) == key_index(pre, x) by {
                        lemma_key_index_same_key_update(pre, i as int, (id, gres), x);
                    }
                    lemma_key_index_same_key_update(pre, i as int, (id, gres), id);
                    assert(self.completed_jobs@[i as int] == (id, gres));
                }
            },
            None => {
                self.completed_jobs.push((id, result));
                proof {
                    assert forall|x: u128| x != id implies key_index(self.completed_jobs@, x) == key_index(pre, x) by {
                        lemma_key_index_push(pre, (id, gres), x);
                    }
                    lemma_key_index_push(pre, (id, gres), id);
                    assert(self.completed_jobs@[pre.len() as int] == (id, gres));
                }
            },
        }
        Ok(id)
    }

    /// Every kept job has completed; an unknown id is an error.
    pub fn get_job_status(&self, job_id: u128) -> (r: Result<JobStatus, DriverError>)
        ensures
            key_index(self.completed_jobs@, job_id) is Some ==> r == Ok::<JobStatus, DriverError>(JobStatus::Completed),
            key_index(self.completed_jobs@, job_id) is None ==> (r matches Err(DriverError::JobNotFound(m))
                && m@ == uuid_text(job_id)),
    {
        match find_key(&self.completed_jobs, job_id) {
            Some(_) => Ok(JobStatus::Completed),
            None => Err(DriverError::JobNotFound(uuid_string(job_id))),
        }
    }

    /// A copy of the result kept for `job_id`; an unknown id is an error.
    pub fn get_results(&self, job_id: u128) -> (r: Result<ExecutionResult, DriverError>)
        ensures
            key_index(self.completed_jobs@, job_id) matches Some(i) ==> (r matches Ok(res) && res.same_as(
                &self.completed_jobs@[i].1)),
            key_index(self.completed_jobs@, job_id) is None ==> (r matches Err(DriverError::JobNotFound(m))
                && m@ == uuid_text(job_id)),
    {
        match find_key(&self.completed_jobs, job_id) {
            Some(i) => Ok(self.completed_jobs[i].1.copied()),
            None => Err(DriverError::JobNotFound(uuid_string(job_id))),
        }
    }

    /// Simulator jobs finish at once and cannot be cancelled: nothing happens.
    pub fn cancel_job(&mut self, job_id: u128) -> (r: Result<(), DriverError>)
        ensures
            r is Ok,
            *final(self) == *old(self),
    {
        Ok(())
    }

    /// The one backend: the simulator itself, always available, with no queue.
    pub fn list_backends(&self) -> (r: Result<Vec<BackendInfo>, DriverError>)
        ensures
            r matches Ok(v) && v@.len() == 1 && v@[0].name@ == "simulator"@ && v@[0].provider@ == "LightQOS"@
                && v@[0].num_qubits == self.config.max_qubits && v@[0].is_simulator && v@[0].is_available
                && v@[0].queue_length == 0 && v@[0].avg_queue_time_s == Some(0u64),
    {
        proof {
            reveal_strlit("simulator");
            reveal_strlit("LightQOS");
        }
        let mut v: Vec<BackendInfo> = Vec::new();
        v.push(BackendInfo {
            name: String::from_str("simulator"),
            provider: String::from_str("LightQOS"),
            num_qubits: self.config.max_qubits,
            is_simulator: true,
            is_available: true,
            queue_length: 0,
            avg_queue_time_s: Some(0),
        });
        Ok(v)
    }

    /// The driver's name.
    pub fn driver_name(&self) -> (r: &'static str)
        ensures
            r@ == "Simulator"@,
    {
        "Simulator"
    }

    /// The statistics gathered so far.
    pub fn get_stats(&self) -> (r: &SimulatorStats)
        ensures
            *r == self.stats,
    {
        &self.stats
    }
}

proof fn lemma_two_to_bound(e: nat)
    requires
        e <= 5,
    ensures
        1 <= two_to(e) <= 32,
{
    reveal_with_fuel(two_to, 6);
}

/// Adds one observation of `key` to the counts.
fn add_count(counts: &mut Vec<(String, usize)>, key: String, Ghost(n): Ghost<nat>)
    requires
        bit_string_keys(old(counts)@, n),
        key@.len() == n,
        forall|j: int| 0 <= j < n ==> key@[j] == '0' || key@[j] == '1',
        total_count(old(counts)@) < usize::MAX,
    ensures
        bit_string_keys(final(counts)@, n),
        total_count(final(counts)@) == total_count(old(counts)@) + 1,
{
    let ghost c0 = counts@;
    let mut i: usize = 0;
    while i < counts.len()
        invariant
            i <= counts@.len(),
            counts@ == c0,
            c0 == old(counts)@,
            bit_string_keys(c0, n),
            key@.len() == n,
            forall|j: int| 0 <= j < n ==> key@[j] == '0' || key@[j] == '1',
            total_count(c0) < usize::MAX,
            forall|x: int| 0 <= x < i ==> counts@[x].0@ != key@,
        decreases counts@.len() - i,
    {
        if counts[i].0 == key {
            proof {
                lemma_total_bound(c0, i as int);
            }
            let v = counts[i].1;
            let entry = (key, v + 1);
            let ghost ge = entry;
            counts.set(i, entry);
            proof {
                assert(counts@ == c0.update(i as int, ge));
                assert(ge.1 == c0[i as int].1 + 1);
                lemma_total_update(c0, i as int, ge);

                assert forall|a: int, b: int| 0 <= a < counts@.len() && 0 <= b < counts@.len() && a != b
                    implies counts@[a].0@ != counts@[b].0@ by {
                    if a != i && b != i {
                        assert(counts@[a] == c0[a] && counts@[b] == c0[b]);
                    } else if a == i {
                        assert(counts@[b] == c0[b]);
                        assert(c0[i as int].0@ == key@);
                    } else {
                        assert(counts@[a] == c0[a]);
                        assert(c0[i as int].0@ == key@);
                    }
                }
                assert forall|x: int| 0 <= x < counts@.len() implies (#[trigger] counts@[x]).0@.len() == n && forall|j: int|
                    0 <= j < n ==> counts@[x].0@[j] == '0' || counts@[x].0@[j] == '1' by {
                    if x != i {
                        assert(counts@[x] == c0[x]);
                    }
                }
            }
            return;
        }
        i = i + 1;
    }
    counts.push((key, 1));
    proof {
        assert(counts@.drop_last() =~= c0);
        assert forall|a: int, b: int| 0 <= a < counts@.len() && 0 <= b < counts@.len() && a != b
            implies counts@[a].0@ != counts@[b].0@ by {
            if a < c0.len() && b < c0.len() {
                assert(counts@[a] == c0[a] && counts@[b] == c0[b]);
            } else if a < c0.len() {
                assert(counts@[a] == c0[a]);
            } else {
                assert(counts@[b] == c0[b]);
            }
        }
        assert forall|x: int| 0 <= x < counts@.len() implies (#[trigger] counts@[x]).0@.len() == n && forall|j: int|
            0 <= j < n ==> counts@[x].0@[j] == '0' || counts@[x].0@[j] == '1' by {
            if x < c0.len() {
                assert(counts@[x] == c0[x]);
            }
        }
    }
}

proof fn lemma_total_bound(c: Seq<(String, usize)>, i: int)
    requires
        0 <= i < c.len(),
    ensures
        c[i].1 <= total_count(c),
    decreases c.len(),
{
    if i < c.len() - 1 {
        lemma_total_bound(c.drop_last(), i);
    }
}

proof fn lemma_total_update(c: Seq<(String, usize)>, i: int, e: (String, usize))
    requires
        0 <= i < c.len(),
    ensures
        total_count(c.update(i, e)) == total_count(c) - c[i].1 + e.1,
    decreases c.len(),
{
    let u = c.update(i, e);
    if i == c.len() - 1 {
        assert(u.drop_last() =~= c.drop_last());
    } else {
        assert(u.drop_last() =~= c.drop_last().update(i, e));
        lemma_total_update(c.drop_last(), i, e);
    }
}

impl Default for SimulatorDriver {
    fn default() -> (r: Self)
        ensures
            r.config.max_qubits == 20,
            r.config.shots == 1024,
            r.completed_jobs@.len() == 0,
    {
        Self::new()
    }
}

proof fn lemma_key_index_same_key_update<V>(es: Seq<(u128, V)>, i: int, e: (u128, V), x: u128)
    requires
        key_index(es, e.0) == Some(i),
    ensures
        key_index(es.update(i, e), x) == key_index(es, x),
    decreases es.len(),
{
    lemma_key_index_range(es, e.0);
    let u = es.update(i, e);
    if i == 0 {
        assert(u.drop_first() =~= es.drop_first());
    } else {
        assert(es[0].0 != e.0);
        assert(u[0] == es[0]);
        assert(key_index(es.drop_first(), e.0) == Some(i - 1));
        assert(u.drop_first() =~= es.drop_first().update(i - 1, e));
        lemma_key_index_same_key_update(es.drop_first(), i - 1, e, x);
    }
}

proof fn lemma_key_index_push<V>(es: Seq<(u128, V)>, e: (u128, V), x: u128)
    requires
        key_index(es, e.0) is None,
    ensures
        key_index(es.push(e), x) == if x == e.0 { Some(es.len() as int) } else { key_index(es, x) },
    decreases es.len(),
{
    let u = es.push(e);
    if es.len() == 0 {
        assert(u[0] == e);
    } else {
        assert(es[0].0 != e.0);
        assert(u[0] == es[0]);
        assert(key_index(es.drop_first(), e.0) is None);
        assert(u.drop_first() =~= es.drop_first().push(e));
        lemma_key_index_push(es.drop_first(), e, x);
    }
}

} // verus!
