//! Construction-time errors. Every precondition a builder or entity
//! operation can reject surfaces as one named variant; nothing is
//! retried or coerced.

use vstd::prelude::*;

verus! {

/// The error a builder or entity operation returns when a precondition
/// on its inputs fails.
#[derive(Clone, Copy, Debug, PartialEq, Eq, Structural)]
pub enum BuildError {
    /// A qubit was requested over zero indices.
    ZeroQubits,
    /// An entity was about to be built over an empty index list.
    EmptyIndices,
    /// A split selected every index of the entity, leaving no remainder.
    SplitSelectedAll,
    /// A split selected no index at all.
    SplitSelectedNone,
    /// A split selected an absolute index the entity does not hold.
    SplitIndexNotFound,
    /// A relative split position was at or beyond the entity's index count.
    SplitRelativeOutOfRange,
    /// A matrix did not hold exactly 4^n coefficients for an n-index entity.
    MatrixWrongSize,
    /// A swap was requested between entities of different index counts.
    SwapSizeMismatch,
    /// An initial basis-state index was too large for the handle.
    InitialIndexTooLarge,
    /// An initial state vector did not hold exactly 2^n amplitudes.
    InitialStateWrongSize,
}

impl BuildError {
    /// A short human-readable description of the failed precondition.
    pub fn describe(&self) -> &'static str {
        match self {
            BuildError::ZeroQubits => "Qubit n must be greater than 0.",
            BuildError::EmptyIndices => "Qubit must have nonzero number of indices.",
            BuildError::SplitSelectedAll => "Cannot split out all indices into own qubit.",
            BuildError::SplitSelectedNone => "Must provide indices to split.",
            BuildError::SplitIndexNotFound => "All indices must exist in qubit to be split.",
            BuildError::SplitRelativeOutOfRange => "All indices for splitting must be below q.n",
            BuildError::MatrixWrongSize => "Matrix not of expected size",
            BuildError::SwapSizeMismatch => "Swap must be made from two qubits of equal size.",
            BuildError::InitialIndexTooLarge => "Index too large for QubitHandle",
            BuildError::InitialStateWrongSize => "State not correct size for QubitHandle (must be 2^n)",
        }
    }
}

} // verus!
