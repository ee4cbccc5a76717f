//! Errors returned by the proof system.

use vstd::prelude::*;

verus! {

/// Why an operation of the proof system failed.
#[derive(Clone, Copy, Debug, PartialEq, Eq, Structural)]
pub enum Error {
    /// The requested evaluation domain does not exist: its size is zero, is
    /// not a power of two, or exceeds what the field's roots of unity allow.
    InvalidDomainSize,
    /// A zero field element was to be inverted.
    ZeroInversion,
    /// A proof was submitted to a verifier that holds no verifier key yet.
    VerifierNotPreprocessed,
    /// The proof was checked and rejected.
    ProofVerificationFailed,
}

} // verus!
