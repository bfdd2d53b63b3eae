//! Core of a quantum-computation description library: bit-level indexing
//! primitives, operator descriptors tagged with absolute state-vector
//! indices, qubit lineage entities that track which indices a logical
//! handle owns as handles are split and merged, and builders that allocate
//! fresh indices and identities while emitting operator descriptors.

pub mod builder;
pub mod errors;
pub mod ops;
pub mod qubits;
pub mod utils;
pub mod vecs;
