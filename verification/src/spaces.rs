//! State spaces: fibers of local quantum states and rigged Hilbert spaces.
use vstd::prelude::*;
use vstd::string::*;
use crate::text::{decimal, decimal_string};

verus! {

/// Fiber (local quantum state space).
#[derive(Debug, Clone)]
pub struct Fiber {
    /// Dimension of the local Hilbert space
    pub hilbert_dim: usize,
    /// Basis of the state space, e.g. ["0", "1"] for a qubit
    pub basis: Vec<String>,
}

/// The basis labels "0", "1", ..., "d-1".
pub open spec fn basis_labels_ok(basis: Seq<String>, d: nat) -> bool {
    &&& basis.len() == d
    &&& forall|i: int| 0 <= i < d ==> (#[trigger] basis[i])@ == decimal(i as nat)
}

impl Fiber {
    /// Creates a fiber for a qubit.
    pub fn qubit() -> (r: Self)
        ensures
            r.hilbert_dim == 2,
            basis_labels_ok(r.basis@, 2),
    {
        Self::qudit(2)
    }

    /// Creates a fiber for a qudit of dimension `d`.
    pub fn qudit(d: usize) -> (r: Self)
        ensures
            r.hilbert_dim == d,
            basis_labels_ok(r.basis@, d as nat),
    {
        let mut basis: Vec<String> = Vec::new();
        let mut i: usize = 0;
        while i < d
            invariant
                i <= d,
                basis_labels_ok(basis@, i as nat),
            decreases d - i,
        {
            basis.push(decimal_string(i as u128));
            i = i + 1;
        }
        Fiber { hilbert_dim: d, basis }
    }

    /// Creates a high-dimensional fiber (a qudit of dimension `d`).
    pub fn high_dimensional(d: usize) -> (r: Self)
        ensures
            r.hilbert_dim == d,
            basis_labels_ok(r.basis@, d as nat),
    {
        Self::qudit(d)
    }
}

/// Kind of gauge connection between fibers.
#[derive(Debug, Clone, Copy, PartialEq, Eq, Structural)]
pub enum ConnectionType {
    Optical,
    Microwave,
    Phononic,
    Virtual,
}

/// Norm of a rigged Hilbert space.
#[derive(Debug, Clone, Copy, PartialEq, Eq, Structural)]
pub enum NormType {
    L2,
    Sup,
    Sobolev(u32),
}

/// Rigged Hilbert space (Gel'fand triplet), truncated to a finite dimension.
#[derive(Debug, Clone, Copy)]
pub struct RiggedHilbertSpace {
    /// Truncation dimension
    pub dimension: usize,
    /// Schwartz regularity index (0 = L², k > 0 more regular)
    pub regularity_index: u32,
    /// Norm of the space
    pub norm_type: NormType,
}

impl RiggedHilbertSpace {
    /// A plain L² space of the given dimension.
    pub fn new(dimension: usize) -> (r: Self)
        ensures
            r.dimension == dimension,
            r.regularity_index == 0,
            r.norm_type == NormType::L2,
    {
        RiggedHilbertSpace { dimension, regularity_index: 0, norm_type: NormType::L2 }
    }

    /// The Schwartz space of the given regularity, with its Sobolev norm.
    pub fn schwartz(dimension: usize, regularity: u32) -> (r: Self)
        ensures
            r.dimension == dimension,
            r.regularity_index == regularity,
            r.norm_type == NormType::Sobolev(regularity),
    {
        RiggedHilbertSpace { dimension, regularity_index: regularity, norm_type: NormType::Sobolev(regularity) }
    }
}

} // verus!
