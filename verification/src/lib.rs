//! rustiq: quantum circuit synthesis with a verified circuit-cutting core.
//!
//! The crate partitions a quantum circuit that exceeds a device's qubit
//! capacity into smaller fragments and reconstructs the original circuit's
//! expectation value from fragment measurements (quasi-probability
//! decomposition, entanglement forging, knitting).  All weights and
//! coefficients are exact rationals, so the numeric invariants of the
//! decompositions (configuration counts, coefficient sums) are proved, not
//! approximated.

pub mod rational;
pub mod gates;
pub mod cutting;
pub mod forging;
pub mod knitting;
pub mod lattice_surgery;
pub mod qram;
pub mod ldpc;
pub mod decoders;
pub mod state_preparation;
pub mod simulations;
pub mod zx_calculus;
pub mod linear_systems;
pub mod quantum_walk;
