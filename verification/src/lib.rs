//! A KZG-style polynomial-commitment engine for proofs of solvency over the
//! BN254 pairing curve.
//!
//! An exchange encodes its user records into two witness tables
//! ([`prover`]), interpolates them into polynomials over an evaluation
//! domain ([`lagrange`], [`utils`]), and commits to them ([`kzg`]); openings
//! at single points or point sets then show a balance's inclusion and the
//! tables' constraints without revealing other records. The polynomial
//! algebra ([`poly`]) and the witness encoding are verified against
//! integer-modulo-r models of the scalar field ([`field`]); the curve, the
//! pairing and the FFT interpolation come from an external algebra library
//! through the trusted, contracted operations of [`field`], [`group`] and
//! the domain helpers.

pub mod field;
pub mod group;
pub mod kzg;
pub mod lagrange;
pub mod poly;
pub mod prover;
pub mod utils;

use vstd::prelude::*;

verus! {

/// Errors reported by the commitment engine and its helpers.
#[derive(Clone, Copy, Debug, PartialEq, Eq, Structural)]
pub enum KzgError {
    /// A polynomial has more coefficients than the configured reference string.
    DegreeExceeded,
    /// An opening was requested for a claimed value that does not match the
    /// true evaluation (the division check left a nonzero remainder).
    ProofInconsistency,
    /// No multiplicative subgroup of the requested size exists.
    DomainError,
    /// Witness generation was called with zero users.
    EmptyInput,
    /// A commitment, opening or verification was requested before `setup`.
    Uninitialized,
}

} // verus!
