//! Pauli strings and the observables built from them: weights, supports, commutation,
//! and the parity of a measurement outcome.
use vstd::prelude::*;
use vstd::string::*;
use crate::ids::new_uuid;
use crate::text::{concat, decimal, decimal_string};

verus! {

/// Single-qubit Pauli operator.
#[derive(Debug, Clone, Copy, PartialEq, Eq, Hash, Structural)]
pub enum PauliOperator {
    I,
    X,
    Y,
    Z,
}

/// Two Paulis anticommute when both are non-identity and they differ.
pub open spec fn spec_anticommute(a: PauliOperator, b: PauliOperator) -> bool {
    a != PauliOperator::I && b != PauliOperator::I && a != b
}

/// Number of positions, among the first `n`, where two Pauli strings anticommute.
pub open spec fn anticommutations(p: Seq<PauliOperator>, q: Seq<PauliOperator>, n: nat) -> nat
    decreases n,
{
    if n == 0 {
        0
    } else {
        anticommutations(p, q, (n - 1) as nat) + if spec_anticommute(p[n - 1], q[n - 1]) {
            1nat
        } else {
            0nat
        }
    }
}

/// Two Pauli strings commute when they have equal length and anticommute at an even
/// number of positions.
pub open spec fn spec_commutes(p: Seq<PauliOperator>, q: Seq<PauliOperator>) -> bool {
    p.len() == q.len() && anticommutations(p, q, p.len()) % 2 == 0
}

/// Number of non-identity operators among the first `n`.
pub open spec fn weight_upto(p: Seq<PauliOperator>, n: nat) -> nat
    decreases n,
{
    if n == 0 {
        0
    } else {
        weight_upto(p, (n - 1) as nat) + if p[n - 1] != PauliOperator::I {
            1nat
        } else {
            0nat
        }
    }
}

/// Indices, among the first `n`, that carry a non-identity operator, in increasing order.
pub open spec fn support_upto(p: Seq<PauliOperator>, n: nat) -> Seq<usize>
    decreases n,
{
    if n == 0 {
        Seq::empty()
    } else if p[n - 1] != PauliOperator::I {
        support_upto(p, (n - 1) as nat).push((n - 1) as usize)
    } else {
        support_upto(p, (n - 1) as nat)
    }
}

/// Whether the string is diagonal in the computational basis (only I and Z).
pub open spec fn spec_diagonal(p: Seq<PauliOperator>) -> bool {
    forall|i: int| 0 <= i < p.len() ==> p[i] == PauliOperator::I || p[i] == PauliOperator::Z
}

/// XOR of the outcome bits at the positions, among the first `n`, where the observable
/// is not the identity.
pub open spec fn parity_upto(outcome: Seq<bool>, p: Seq<PauliOperator>, n: nat) -> bool
    decreases n,
{
    if n == 0 {
        false
    } else {
        let prev = parity_upto(outcome, p, (n - 1) as nat);
        if p[n - 1] != PauliOperator::I {
            prev != outcome[n - 1]
        } else {
            prev
        }
    }
}

/// The smaller of two lengths.
pub open spec fn min_len(a: nat, b: nat) -> nat {
    if a < b {
        a
    } else {
        b
    }
}

/// The Pauli operator a draw stands for: 0, 1, 2, 3 give I, X, Y, Z.
pub open spec fn pauli_of(k: u8) -> PauliOperator {
    if k == 0 {
        PauliOperator::I
    } else if k == 1 {
        PauliOperator::X
    } else if k == 2 {
        PauliOperator::Y
    } else {
        PauliOperator::Z
    }
}

/// Pauli string (tensor product of Paulis).
#[derive(Debug, Clone)]
pub struct PauliString {
    /// Pauli operators for each qubit
    pub paulis: Vec<PauliOperator>,
}

/// Whether two Pauli operators anticommute.
pub fn anticommute(op1: PauliOperator, op2: PauliOperator) -> (r: bool)
    ensures
        r == spec_anticommute(op1, op2),
{
    match (op1, op2) {
        (PauliOperator::I, _) | (_, PauliOperator::I) => false,
        (PauliOperator::X, PauliOperator::Y) | (PauliOperator::Y, PauliOperator::X) => true,
        (PauliOperator::X, PauliOperator::Z) | (PauliOperator::Z, PauliOperator::X) => true,
        (PauliOperator::Y, PauliOperator::Z) | (PauliOperator::Z, PauliOperator::Y) => true,
        _ => false,
    }
}

/// Calls rand's `thread_rng().gen_range(0..4)`.
/// Trusted: the value depends on the thread's random generator; the range sampled
/// (as rand's source and documentation show) is 0..4, which is all that is claimed.
#[verifier::external_body]
fn random_below_four() -> (r: u8)
    ensures
        r < 4,
{
    rand::Rng::gen_range(&mut rand::thread_rng(), 0..4u8)
}

impl PauliString {
    pub fn new(paulis: Vec<PauliOperator>) -> (r: Self)
        ensures
            r.paulis@ == paulis@,
    {
        PauliString { paulis }
    }

    /// A copy of the string.
    pub fn copied(&self) -> (r: PauliString)
        ensures
            r.paulis@ == self.paulis@,
    {
        PauliString { paulis: copy_vec(&self.paulis) }
    }

    /// The Pauli string spelled by a sequence of draws, each one of 0, 1, 2, 3 standing
    /// for I, X, Y, Z.
    pub fn paulis_from_draws(draws: &Vec<u8>) -> (r: Self)
        requires
            forall|i: int| 0 <= i < draws@.len() ==> draws@[i] < 4,
        ensures
            r.paulis@ == draws@.map_values(|k: u8| pauli_of(k)),
    {
        let mut paulis: Vec<PauliOperator> = Vec::new();
        let mut i: usize = 0;
        while i < draws.len()
            invariant
                i <= draws@.len(),
                paulis@ == draws@.take(i as int).map_values(|k: u8| pauli_of(k)),
            decreases draws@.len() - i,
        {
            let k = draws[i];
            let p = if k == 0 {
                PauliOperator::I
            } else if k == 1 {
                PauliOperator::X
            } else if k == 2 {
                PauliOperator::Y
            } else {
                PauliOperator::Z
            };
            paulis.push(p);
            proof {
                assert(draws@.take(i + 1) == draws@.take(i as int).push(draws@[i as int]));
            }
            i = i + 1;
        }
        proof {
            assert(draws@.take(draws@.len() as int) == draws@);
        }
        PauliString { paulis }
    }

    /// A uniformly random Pauli string on `num_qubits` qubits: one draw out of 0..4 per
    /// qubit, spelled out by `paulis_from_draws`.
    pub fn random(num_qubits: usize) -> (r: Self)
        ensures
            r.paulis@.len() == num_qubits,
            exists|draws: Seq<u8>| #![trigger draws.len()]
                draws.len() == num_qubits && (forall|i: int| 0 <= i < draws.len() ==> draws[i] < 4)
                    && r.paulis@ == draws.map_values(|k: u8| pauli_of(k)),
    {
        let mut draws: Vec<u8> = Vec::new();
        let mut i: usize = 0;
        while i < num_qubits
            invariant
                i <= num_qubits,
                draws@.len() == i,
                forall|j: int| 0 <= j < draws@.len() ==> draws@[j] < 4,
            decreases num_qubits - i,
        {
            let k = random_below_four();
            draws.push(k);
            i = i + 1;
        }
        let r = Self::paulis_from_draws(&draws);
        proof {
            assert(draws@.len() == num_qubits);
        }
        r
    }

    /// Number of non-identity operators.
    pub fn weight(&self) -> (r: usize)
        ensures
            r == weight_upto(self.paulis@, self.paulis@.len()),
    {
        let mut w: usize = 0;
        let mut i: usize = 0;
        while i < self.paulis.len()
            invariant
                i <= self.paulis@.len(),
                w == weight_upto(self.paulis@, i as nat),
                w <= i,
            decreases self.paulis@.len() - i,
        {
            if self.paulis[i] != PauliOperator::I {
                w = w + 1;
            }
            i = i + 1;
        }
        w
    }

    /// Qubits on which the string acts non-trivially, in increasing order.
    pub fn support(&self) -> (r: Vec<usize>)
        ensures
            r@ == support_upto(self.paulis@, self.paulis@.len()),
    {
        let mut s: Vec<usize> = Vec::new();
        let mut i: usize = 0;
        while i < self.paulis.len()
            invariant
                i <= self.paulis@.len(),
                s@ == support_upto(self.paulis@, i as nat),
            decreases self.paulis@.len() - i,
        {
            if self.paulis[i] != PauliOperator::I {
                s.push(i);
            }
            i = i + 1;
        }
        s
    }

    /// Whether the string is diagonal in the computational basis.
    pub fn is_diagonal(&self) -> (r: bool)
        ensures
            r == spec_diagonal(self.paulis@),
    {
        let mut i: usize = 0;
        while i < self.paulis.len()
            invariant
                i <= self.paulis@.len(),
                forall|k: int| 0 <= k < i ==> self.paulis@[k] == PauliOperator::I || self.paulis@[k] == PauliOperator::Z,
            decreases self.paulis@.len() - i,
        {
            if self.paulis[i] != PauliOperator::I && self.paulis[i] != PauliOperator::Z {
                return false;
            }
            i = i + 1;
        }
        true
    }

    /// Whether two Pauli strings commute: equal lengths and an even number of
    /// anticommuting positions.
    pub fn commutes_with(&self, other: &PauliString) -> (r: bool)
        ensures
            r == spec_commutes(self.paulis@, other.paulis@),
    {
        if self.paulis.len() != other.paulis.len() {
            return false;
        }
        let mut count: usize = 0;
        let mut i: usize = 0;
        while i < self.paulis.len()
            invariant
                i <= self.paulis@.len(),
                self.paulis@.len() == other.paulis@.len(),
                count == anticommutations(self.paulis@, other.paulis@, i as nat),
                count <= i,
            decreases self.paulis@.len() - i,
        {
            if anticommute(self.paulis[i], other.paulis[i]) {
                count = count + 1;
            }
            i = i + 1;
        }
        count % 2 == 0
    }
}

/// The parity of a measurement outcome on an observable: the XOR of the outcome bits where
/// the observable is not the identity (over the positions both cover). An estimator
/// scores `true` as -1 and `false` as +1.
pub fn measurement_parity(outcome: &Vec<bool>, observable: &PauliString) -> (r: bool)
    ensures
        r == parity_upto(outcome@, observable.paulis@, min_len(outcome@.len(), observable.paulis@.len())),
{
    let n = if outcome.len() < observable.paulis.len() {
        outcome.len()
    } else {
        observable.paulis.len()
    };
    let mut parity = false;
    let mut i: usize = 0;
    while i < n
        invariant
            n <= outcome@.len(),
            n <= observable.paulis@.len(),
            i <= n,
            parity == parity_upto(outcome@, observable.paulis@, i as nat),
        decreases n - i,
    {
        if observable.paulis[i] != PauliOperator::I {
            parity = parity != outcome[i];
        }
        i = i + 1;
    }
    parity
}

/// Observable type.
#[derive(Debug, Clone, Copy, PartialEq, Eq, Structural)]
pub enum ObservableType {
    /// Local observable (single-qubit)
    Local,
    /// Global observable (multi-qubit)
    Global,
    /// Hamiltonian
    Hamiltonian,
    /// Stabilizer
    Stabilizer,
}

/// What an observable's Pauli string says about it.
#[derive(Debug, Clone)]
pub struct ObservableMetadata {
    /// Affected qubits
    pub qubits: Vec<usize>,
    /// Weight (number of non-identity Paulis)
    pub weight: usize,
    /// Is it diagonal in the computational basis?
    pub diagonal: bool,
    /// Is it Hermitian?
    pub hermitian: bool,
}

/// A quantum observable given by a Pauli string. (Its dense matrix is computed by the
/// caller from `pauli_representation`.)
#[derive(Debug, Clone)]
pub struct Observable {
    /// Unique ID
    pub id: u128,
    /// Observable name
    pub name: String,
    /// Representation as a Pauli string
    pub pauli_representation: PauliString,
    /// Observable type
    pub observable_type: ObservableType,
    /// Metadata
    pub metadata: ObservableMetadata,
}

/// The metadata and type of an observable built from `p` are those of its Pauli string.
pub open spec fn describes(o: Observable, name: Seq<char>, p: Seq<PauliOperator>) -> bool {
    &&& o.name@ == name
    &&& o.pauli_representation.paulis@ == p
    &&& o.metadata.weight == weight_upto(p, p.len())
    &&& o.metadata.qubits@ == support_upto(p, p.len())
    &&& o.metadata.diagonal == spec_diagonal(p)
    &&& o.metadata.hermitian
    &&& o.observable_type == if weight_upto(p, p.len()) == 1 {
        ObservableType::Local
    } else {
        ObservableType::Global
    }
}

impl Observable {
    /// Creates an observable from a Pauli string: local when it acts on one qubit,
    /// global otherwise.
    pub fn from_pauli(name: String, pauli: PauliString) -> (r: Self)
        ensures
            describes(r, name@, pauli.paulis@),
    {
        let weight = pauli.weight();
        let qubits = pauli.support();
        let diagonal = pauli.is_diagonal();
        let observable_type = if weight == 1 {
            ObservableType::Local
        } else {
            ObservableType::Global
        };
        Observable {
            id: new_uuid(),
            name,
            pauli_representation: pauli,
            observable_type,
            metadata: ObservableMetadata { qubits, weight, diagonal, hermitian: true },
        }
    }

    /// Whether two observables commute, judged on their Pauli strings.
    pub fn commutes_with(&self, other: &Observable) -> (r: bool)
        ensures
            r == spec_commutes(self.pauli_representation.paulis@, other.pauli_representation.paulis@),
    {
        self.pauli_representation.commutes_with(&other.pauli_representation)
    }

    /// Two observables agree in every field, vectors compared by their contents.
    pub open spec fn same_as(&self, other: &Observable) -> bool {
        &&& self.id == other.id
        &&& self.name == other.name
        &&& self.pauli_representation.paulis@ == other.pauli_representation.paulis@
        &&& self.observable_type == other.observable_type
        &&& self.metadata.qubits@ == other.metadata.qubits@
        &&& self.metadata.weight == other.metadata.weight
        &&& self.metadata.diagonal == other.metadata.diagonal
        &&& self.metadata.hermitian == other.metadata.hermitian
    }

    /// A field-by-field copy.
    pub fn copied(&self) -> (r: Observable)
        ensures
            r.same_as(self),
    {
        Observable {
            id: self.id,
            name: self.name.clone(),
            pauli_representation: PauliString { paulis: copy_vec(&self.pauli_representation.paulis) },
            observable_type: self.observable_type,
            metadata: ObservableMetadata {
                qubits: copy_vec(&self.metadata.qubits),
                weight: self.metadata.weight,
                diagonal: self.metadata.diagonal,
                hermitian: self.metadata.hermitian,
            },
        }
    }
}

/// A copy of a vector of plain values.
fn copy_vec<T: Copy>(v: &Vec<T>) -> (r: Vec<T>)
    ensures
        r@ == v@,
{
    let mut r: Vec<T> = Vec::new();
    let mut i: usize = 0;
    while i < v.len()
        invariant
            i <= v@.len(),
            r@ == v@.subrange(0, i as int),
        decreases v@.len() - i,
    {
        r.push(v[i]);
        i = i + 1;
        assert(r@ =~= v@.subrange(0, i as int));
    }
    assert(v@.subrange(0, v@.len() as int) =~= v@);
    r
}

/// `n` identity operators.
fn identities(n: usize) -> (r: Vec<PauliOperator>)
    ensures
        r@ == Seq::new(n as nat, |i: int| PauliOperator::I),
{
    let mut v: Vec<PauliOperator> = Vec::new();
    let mut i: usize = 0;
    while i < n
        invariant
            i <= n,
            v@ == Seq::new(i as nat, |k: int| PauliOperator::I),
        decreases n - i,
    {
        v.push(PauliOperator::I);
        i = i + 1;
        assert(v@ =~= Seq::new(i as nat, |k: int| PauliOperator::I));
    }
    v
}

/// The Pauli string with `op` on `qubit` and the identity elsewhere.
pub open spec fn single_pauli(op: PauliOperator, qubit: nat, n: nat) -> Seq<PauliOperator> {
    Seq::new(n, |i: int| PauliOperator::I).update(qubit as int, op)
}

/// `name` followed by `_` and the decimal index.
pub open spec fn indexed_name(prefix: Seq<char>, i: nat) -> Seq<char> {
    prefix + "_"@ + decimal(i)
}

/// Factory for common observables.
pub struct ObservableFactory;

impl ObservableFactory {
    fn single(op: PauliOperator, prefix: &str, qubit: usize, num_qubits: usize) -> (r: Observable)
        requires
            qubit < num_qubits,
        ensures
            describes(r, indexed_name(prefix@, qubit as nat), single_pauli(op, qubit as nat, num_qubits as nat)),
    {
        let mut paulis = identities(num_qubits);
        paulis.set(qubit, op);
        let d = decimal_string(qubit as u128);
        let mut name = concat(prefix, "_");
        name.append(d.as_str());
        Observable::from_pauli(name, PauliString::new(paulis))
    }

    /// Pauli-X on `qubit`, out of `num_qubits`.
    pub fn pauli_x(qubit: usize, num_qubits: usize) -> (r: Observable)
        requires
            qubit < num_qubits,
        ensures
            describes(r, indexed_name("X"@, qubit as nat), single_pauli(PauliOperator::X, qubit as nat, num_qubits as nat)),
    {
        Self::single(PauliOperator::X, "X", qubit, num_qubits)
    }

    /// Pauli-Y on `qubit`, out of `num_qubits`.
    pub fn pauli_y(qubit: usize, num_qubits: usize) -> (r: Observable)
        requires
            qubit < num_qubits,
        ensures
            describes(r, indexed_name("Y"@, qubit as nat), single_pauli(PauliOperator::Y, qubit as nat, num_qubits as nat)),
    {
        Self::single(PauliOperator::Y, "Y", qubit, num_qubits)
    }

    /// Pauli-Z on `qubit`, out of `num_qubits`.
    pub fn pauli_z(qubit: usize, num_qubits: usize) -> (r: Observable)
        requires
            qubit < num_qubits,
        ensures
            describes(r, indexed_name("Z"@, qubit as nat), single_pauli(PauliOperator::Z, qubit as nat, num_qubits as nat)),
    {
        Self::single(PauliOperator::Z, "Z", qubit, num_qubits)
    }

    /// Ising ZZ coupling between `qubit_a` and `qubit_b`, typed as a Hamiltonian.
    pub fn ising_zz(qubit_a: usize, qubit_b: usize, num_qubits: usize) -> (r: Observable)
        requires
            qubit_a < num_qubits,
            qubit_b < num_qubits,
        ensures
            ({
                let p = Seq::new(num_qubits as nat, |i: int| PauliOperator::I).update(qubit_a as int, PauliOperator::Z).update(
                    qubit_b as int,
                    PauliOperator::Z,
                );
                &&& r.name@ == indexed_name(indexed_name("ZZ"@, qubit_a as nat), qubit_b as nat)
                &&& r.pauli_representation.paulis@ == p
                &&& r.metadata.weight == weight_upto(p, p.len())
                &&& r.metadata.qubits@ == support_upto(p, p.len())
                &&& r.metadata.diagonal == spec_diagonal(p)
                &&& r.metadata.hermitian
                &&& r.observable_type == ObservableType::Hamiltonian
            }),
    {
        let mut paulis = identities(num_qubits);
        paulis.set(qubit_a, PauliOperator::Z);
        paulis.set(qubit_b, PauliOperator::Z);
        let da = decimal_string(qubit_a as u128);
        let db = decimal_string(qubit_b as u128);
        let mut name = concat("ZZ_", da.as_str());
        name.append("_");
        name.append(db.as_str());
        proof {
            reveal_strlit("ZZ_");
            reveal_strlit("ZZ");
            reveal_strlit("_");
            assert(name@ =~= indexed_name(indexed_name("ZZ"@, qubit_a as nat), qubit_b as nat));
        }
        let mut obs = Observable::from_pauli(name, PauliString::new(paulis));
        obs.observable_type = ObservableType::Hamiltonian;
        obs
    }

    /// Surface-code stabilizer: X (or Z) on each listed qubit, identity elsewhere.
    pub fn surface_code_stabilizer(qubits: Vec<usize>, num_qubits: usize, x_type: bool) -> (r: Observable)
        requires
            forall|k: int| 0 <= k < qubits@.len() ==> qubits@[k] < num_qubits,
        ensures
            ({
                let op = if x_type { PauliOperator::X } else { PauliOperator::Z };
                let p = stabilizer_paulis(qubits@, num_qubits as nat, op);
                &&& r.name@ == "Stab_"@ + list_text(qubits@)
                &&& r.pauli_representation.paulis@ == p
                &&& r.metadata.weight == weight_upto(p, p.len())
                &&& r.metadata.qubits@ == support_upto(p, p.len())
                &&& r.metadata.diagonal == spec_diagonal(p)
                &&& r.metadata.hermitian
                &&& r.observable_type == ObservableType::Stabilizer
            }),
    {
        let op = if x_type {
            PauliOperator::X
        } else {
            PauliOperator::Z
        };
        let mut paulis = identities(num_qubits);
        let mut k: usize = 0;
        while k < qubits.len()
            invariant
                k <= qubits@.len(),
                forall|t: int| 0 <= t < qubits@.len() ==> qubits@[t] < num_qubits,
                paulis@ == stabilizer_paulis(qubits@.subrange(0, k as int), num_qubits as nat, op),
            decreases qubits@.len() - k,
        {
            let q = qubits[k];
            let ghost before = paulis@;
            paulis.set(q, op);
            proof {
                let olds = qubits@.subrange(0, k as int);
                let news = qubits@.subrange(0, k + 1);
                assert(news[k as int] == q);
                assert forall|i: int| 0 <= i < num_qubits implies #[trigger] paulis@[i]
                    == stabilizer_paulis(news, num_qubits as nat, op)[i] by {
                    if i == q as int {
                        assert(news.contains(q));
                    } else {
                        assert(paulis@[i] == before[i]);
                        if olds.contains(i as usize) {
                            let t = choose|t: int| 0 <= t < olds.len() && #[trigger] olds[t] == i as usize;
                            assert(news[t] == i as usize);
                        }
                        if news.contains(i as usize) {
                            let t = choose|t: int| 0 <= t < news.len() && #[trigger] news[t] == i as usize;
                            assert(t < k);
                            assert(olds[t] == i as usize);
                        }
                    }
                }
                assert(paulis@ =~= stabilizer_paulis(news, num_qubits as nat, op));
            }
            k = k + 1;
        }
        assert(qubits@.subrange(0, qubits@.len() as int) =~= qubits@);
        let list = list_string(&qubits);
        let name = concat("Stab_", list.as_str());
        let mut obs = Observable::from_pauli(name, PauliString::new(paulis));
        obs.observable_type = ObservableType::Stabilizer;
        obs
    }
}

/// `op` on each listed qubit, identity elsewhere.
pub open spec fn stabilizer_paulis(qubits: Seq<usize>, n: nat, op: PauliOperator) -> Seq<PauliOperator> {
    Seq::new(n, |i: int| if qubits.contains(i as usize) { op } else { PauliOperator::I })
}

/// The decimals of the first `k` entries, separated by ", ".
pub open spec fn joined_decimals(v: Seq<usize>, k: nat) -> Seq<char>
    decreases k,
{
    if k == 0 {
        Seq::empty()
    } else if k == 1 {
        decimal(v[0] as nat)
    } else {
        joined_decimals(v, (k - 1) as nat) + ", "@ + decimal(v[k - 1] as nat)
    }
}

/// A list of indices as Rust's debug formatting writes it: "[0, 1, 2]".
pub open spec fn list_text(v: Seq<usize>) -> Seq<char> {
    "["@ + joined_decimals(v, v.len()) + "]"@
}

/// Renders a list of indices as "[0, 1, 2]".
pub fn list_string(v: &Vec<usize>) -> (r: String)
    ensures
        r@ == list_text(v@),
{
    let mut s = String::from_str("[");
    let mut k: usize = 0;
    while k < v.len()
        invariant
            k <= v@.len(),
            s@ == "["@ + joined_decimals(v@, k as nat),
        decreases v@.len() - k,
    {
        if k > 0 {
            s.append(", ");
        }
        let d = decimal_string(v[k] as u128);
        s.append(d.as_str());
        k = k + 1;
        assert(s@ =~= "["@ + joined_decimals(v@, k as nat));
    }
    s.append("]");
    s
}

/// Adds an observable to a view's list; when commutativity is enforced, it must commute
/// with every observable already there, and the first one it does not commute with is named
/// in the error.
pub fn admit_observable(
    observables: &mut Vec<Observable>,
    enforce_commutativity: bool,
    observable: Observable,
) -> (r: Result<(), String>)
    ensures
        enforce_commutativity ==> (r is Ok <==> forall|k: int|
            0 <= k < old(observables)@.len() ==> spec_commutes(
                observable.pauli_representation.paulis@,
                (#[trigger] old(observables)@[k]).pauli_representation.paulis@,
            )),
        !enforce_commutativity ==> r is Ok,
        r is Ok ==> final(observables)@ == old(observables)@.push(observable),
        r is Err ==> *final(observables) == *old(observables),
        r matches Err(m) ==> exists|k: int|
            0 <= k < old(observables)@.len() && !spec_commutes(
                observable.pauli_representation.paulis@,
                (#[trigger] old(observables)@[k]).pauli_representation.paulis@,
            ) && m@ == "Observable '"@ + observable.name@ + "' does not commute with '"@
                + old(observables)@[k].name@ + "'"@,
{
    if enforce_commutativity {
        let mut k: usize = 0;
        while k < observables.len()
            invariant
                enforce_commutativity,
                k <= observables@.len(),
                forall|t: int|
                    0 <= t < k ==> spec_commutes(
                        observable.pauli_representation.paulis@,
                        (#[trigger] observables@[t]).pauli_representation.paulis@,
                    ),
            decreases observables@.len() - k,
        {
            if !observable.commutes_with(&observables[k]) {
                let mut m = concat("Observable '", observable.name.as_str());
                m.append("' does not commute with '");
                m.append(observables[k].name.as_str());
                m.append("'");
                return Err(m);
            }
            k = k + 1;
        }
    }
    observables.push(observable);
    Ok(())
}

proof fn lemma_anticommutations_symmetric(p: Seq<PauliOperator>, q: Seq<PauliOperator>, n: nat)
    ensures
        anticommutations(p, q, n) == anticommutations(q, p, n),
    decreases n,
{
    if n > 0 {
        lemma_anticommutations_symmetric(p, q, (n - 1) as nat);
    }
}

proof fn lemma_anticommutations_self(p: Seq<PauliOperator>, n: nat)
    ensures
        anticommutations(p, p, n) == 0,
    decreases n,
{
    if n > 0 {
        lemma_anticommutations_self(p, (n - 1) as nat);
    }
}

/// Two single-qubit Pauli strings commute exactly when they are equal or one of them is
/// the identity: any two different operators among X, Y and Z anticommute.
pub proof fn law_single_qubit_commutation(a: PauliOperator, b: PauliOperator)
    ensures
        spec_commutes(seq![a], seq![b]) == (a == b || a == PauliOperator::I || b == PauliOperator::I),
        (a != PauliOperator::I && b != PauliOperator::I && a != b) ==> spec_anticommute(a, b),
        !spec_anticommute(a, a),
        !spec_anticommute(a, PauliOperator::I),
        !spec_commutes(seq![PauliOperator::X], seq![PauliOperator::Y]),
        !spec_commutes(seq![PauliOperator::Y], seq![PauliOperator::Z]),
        !spec_commutes(seq![PauliOperator::Z], seq![PauliOperator::X]),
{
    reveal_with_fuel(anticommutations, 2);
    assert(anticommutations(seq![PauliOperator::X], seq![PauliOperator::Y], 1) == 1);
    assert(anticommutations(seq![PauliOperator::Y], seq![PauliOperator::Z], 1) == 1);
    assert(anticommutations(seq![PauliOperator::Z], seq![PauliOperator::X], 1) == 1);
    assert(seq![a][0] == a && seq![b][0] == b);
    assert(anticommutations(seq![a], seq![b], 1) == if spec_anticommute(a, b) { 1nat } else { 0nat });
}

/// Commutation of Pauli strings is symmetric, and every string commutes with itself.
pub proof fn law_commutation_symmetric(p: Seq<PauliOperator>, q: Seq<PauliOperator>)
    ensures
        spec_commutes(p, q) == spec_commutes(q, p),
        spec_commutes(p, p),
{
    lemma_anticommutations_symmetric(p, q, p.len());
    lemma_anticommutations_self(p, p.len());
}

proof fn lemma_support_len(p: Seq<PauliOperator>, n: nat)
    requires
        n <= p.len(),
        p.len() <= usize::MAX,
    ensures
        support_upto(p, n).len() == weight_upto(p, n),
        forall|k: int| 0 <= k < support_upto(p, n).len() ==> (#[trigger] support_upto(p, n)[k]) < n
            && p[support_upto(p, n)[k] as int] != PauliOperator::I,
    decreases n,
{
    if n > 0 {
        lemma_support_len(p, (n - 1) as nat);
        let prev = support_upto(p, (n - 1) as nat);
        let cur = support_upto(p, n);
        assert forall|k: int| 0 <= k < cur.len() implies (#[trigger] cur[k]) < n
            && p[cur[k] as int] != PauliOperator::I by {
            if p[n - 1] != PauliOperator::I {
                assert(cur == prev.push((n - 1) as usize));
            } else {
                assert(cur == prev);
            }
            if k < prev.len() {
                assert(cur[k] == prev[k]);
                assert(prev[k] < n - 1);
            }
        }
    }
}

/// An observable's weight is the number of qubits it acts on, and those qubits are exactly
/// the positions of its non-identity operators.
pub proof fn law_weight_is_support_size(p: Seq<PauliOperator>)
    requires
        p.len() <= usize::MAX,
    ensures
        support_upto(p, p.len()).len() == weight_upto(p, p.len()),
        forall|k: int| 0 <= k < support_upto(p, p.len()).len() ==> p[(#[trigger] support_upto(p, p.len())[k]) as int]
            != PauliOperator::I,
{
    lemma_support_len(p, p.len());
}

/// Pairwise commutation of the observables of a view.
pub open spec fn all_commute(obs: Seq<Observable>) -> bool {
    forall|a: int, b: int|
        0 <= a < obs.len() && 0 <= b < obs.len() ==> spec_commutes(
            (#[trigger] obs[a]).pauli_representation.paulis@,
            (#[trigger] obs[b]).pauli_representation.paulis@,
        )
}

/// A view that enforces commutativity only ever holds observables that pairwise commute:
/// admitting an observable keeps that so, whether it is accepted or refused.
pub proof fn law_view_stays_commuting(before: Seq<Observable>, candidate: Observable, accepted: bool, after: Seq<Observable>)
    requires
        all_commute(before),
        accepted <==> forall|k: int|
            0 <= k < before.len() ==> spec_commutes(
                candidate.pauli_representation.paulis@,
                (#[trigger] before[k]).pauli_representation.paulis@,
            ),
        accepted ==> after == before.push(candidate),
        !accepted ==> after == before,
    ensures
        all_commute(after),
{
    if accepted {
        assert forall|a: int, b: int| 0 <= a < after.len() && 0 <= b < after.len() implies spec_commutes(
            (#[trigger] after[a]).pauli_representation.paulis@,
            (#[trigger] after[b]).pauli_representation.paulis@,
        ) by {
            let n = before.len() as int;
            if a == n && b == n {
                law_commutation_symmetric(candidate.pauli_representation.paulis@, candidate.pauli_representation.paulis@);
            } else if a == n {
                assert(after[b] == before[b]);
                assert(spec_commutes(candidate.pauli_representation.paulis@, before[b].pauli_representation.paulis@));
            } else if b == n {
                assert(after[a] == before[a]);
                assert(spec_commutes(candidate.pauli_representation.paulis@, before[a].pauli_representation.paulis@));
                law_commutation_symmetric(candidate.pauli_representation.paulis@, before[a].pauli_representation.paulis@);
            } else {
                assert(after[a] == before[a] && after[b] == before[b]);
            }
        }
    }
}

} // verus!
